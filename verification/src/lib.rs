//! A provably-fair dice game over Lightning and a social-event transport.
//!
//! The crate holds the verified core of the game: the multiplier table, the
//! deterministic roll, the bet state machine, the store of rounds and bets,
//! the nonce lifecycle, bet intake, invoice settlement and the payout
//! dispatcher. Publishing, payments and persistence live outside; they hand
//! this library plain values and take plain values back.

pub mod bet;
pub mod intake;
pub mod lnurl;
pub mod memo;
pub mod multiplier;
pub mod nonce;
pub mod payouts;
pub mod request;
pub mod roll;
pub mod settlement;
pub mod social;
pub mod store;
pub mod zapper;
