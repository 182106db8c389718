use vstd::prelude::*;
use crate::bet::bet_step_ok;
use crate::bet::BetState;
use crate::store::lemma_find_zap_member;
use crate::store::spec_find_zap;
use crate::store::Store;
use crate::store::Zap;

verus! {

/// The state of a Lightning invoice as the subscription reports it.
#[derive(Clone, Copy, Debug, PartialEq, Eq, Structural)]
pub enum InvoiceState {
    Open,
    Settled,
    Canceled,
    Accepted,
}

/// What one invoice event leads to.
pub enum SettlementOutcome {
    /// The event does not report a settled invoice: nothing to do.
    NotSettled,
    /// No bet is stored under the payment hash.
    NoBet,
    /// A paid donation: a zap receipt is owed; the bet keeps its state.
    DonationReceipt { zap: Zap },
    /// A paid game bet, now moved to `ZapPaid`: a zap receipt is owed and
    /// the payout dispatcher must evaluate the bet.
    GamePaid { zap: Zap },
    /// The bet was already paid or is terminal: a replayed event, ignored.
    AlreadyProcessed,
}

/// The bet as stored, with only its state replaced.
pub open spec fn with_state(z: Zap, s: BetState) -> Zap {
    Zap { bet_state: s, ..z }
}

/// Handles one event of the Lightning invoice stream.
///
/// Only events reporting a settled invoice are acted on. A settled
/// donation keeps its state and earns a zap receipt. A settled game bet
/// moves to `ZapPaid` — the only legal move out of
/// `GameZapInvoiceRequested` — and must then be handed to the payout
/// dispatcher. A bet already paid or terminal is left untouched, so
/// replaying a settlement event is a no-op.
pub fn handle_paid_invoice(store: &mut Store, payment_hash: &String, state: InvoiceState) -> (o:
    SettlementOutcome)
    requires
        old(store).wf(),
    ensures
        final(store).wf(),
        final(store).nonces_seq() == old(store).nonces_seq(),
        final(store).active_id() == old(store).active_id(),
        final(store).expired_id() == old(store).expired_id(),
        match o {
            SettlementOutcome::NotSettled => state != InvoiceState::Settled && *final(store)
                == *old(store),
            SettlementOutcome::NoBet => state == InvoiceState::Settled && spec_find_zap(
                old(store).zaps_seq(),
                payment_hash@,
            ) is None && *final(store) == *old(store),
            SettlementOutcome::DonationReceipt { zap } => state == InvoiceState::Settled
                && spec_find_zap(old(store).zaps_seq(), payment_hash@) == Some(zap)
                && zap.bet_state == BetState::ZapInvoiceRequested && *final(store) == *old(store),
            SettlementOutcome::GamePaid { zap } => state == InvoiceState::Settled && (spec_find_zap(
                old(store).zaps_seq(),
                payment_hash@,
            ) matches Some(prev) && prev.bet_state == BetState::GameZapInvoiceRequested && zap
                == with_state(prev, BetState::ZapPaid) && bet_step_ok(prev.bet_state, zap.bet_state)
                && (forall|h2: Seq<char>|
                #[trigger] spec_find_zap(final(store).zaps_seq(), h2) == (if h2 == payment_hash@ {
                    Some(zap)
                } else {
                    spec_find_zap(old(store).zaps_seq(), h2)
                }))),
            SettlementOutcome::AlreadyProcessed => state == InvoiceState::Settled && (spec_find_zap(
                old(store).zaps_seq(),
                payment_hash@,
            ) matches Some(prev) && (prev.bet_state == BetState::ZapPaid
                || prev.bet_state.is_terminal())) && *final(store) == *old(store),
        },
{
    if state != InvoiceState::Settled {
        return SettlementOutcome::NotSettled;
    }
    let zap = match store.get_zap(payment_hash) {
        None => {
            return SettlementOutcome::NoBet;
        },
        Some(z) => z,
    };
    match zap.bet_state {
        BetState::ZapInvoiceRequested => SettlementOutcome::DonationReceipt { zap },
        BetState::GameZapInvoiceRequested => {
            let mut updated = zap;
            updated.bet_state = BetState::ZapPaid;
            proof {
                lemma_find_zap_member(store.zaps_seq(), payment_hash@);
                let i = choose|i: int|
                    0 <= i < store.zaps_seq().len() && (#[trigger] store.zaps_seq()[i]).payment_hash@
                        == payment_hash@ && spec_find_zap(store.zaps_seq(), payment_hash@) == Some(
                        store.zaps_seq()[i].zap,
                    );
                assert(store.commitment_ok(store.zaps_seq()[i].zap));
                assert(store.commitment_ok(updated));
            }
            let res = store.upsert_zap(payment_hash.clone(), updated.clone());
            match res {
                Ok(()) => SettlementOutcome::GamePaid { zap: updated },
                Err(_) => {
                    proof {
                        assert(false);
                    }
                    SettlementOutcome::AlreadyProcessed
                },
            }
        },
        _ => SettlementOutcome::AlreadyProcessed,
    }
}

} // verus!
