use nostr_dice::bet::BetState;
use nostr_dice::multiplier::Multiplier;
use nostr_dice::multiplier::MultiplierNote;
use nostr_dice::multiplier::Multipliers;
use nostr_dice::payouts::payout_round;
use nostr_dice::payouts::roll_the_die;
use nostr_dice::payouts::record_zap_result;
use nostr_dice::payouts::RollOutcome;
use nostr_dice::roll::calculate_price_money;
use nostr_dice::roll::generate_roll;
use nostr_dice::roll::u64_to_decimal;
use nostr_dice::settlement::handle_paid_invoice;
use nostr_dice::settlement::InvoiceState;
use nostr_dice::settlement::SettlementOutcome;
use nostr_dice::store::Round;
use nostr_dice::store::Store;
use nostr_dice::store::Zap;

const ROLLER: &str = "npub130nwn4t5x8h0h6d983lfs2x44znvqezucklurjzwtn7cv0c73cxsjemx32";

fn test_multipliers() -> Multipliers {
    Multipliers([
        note(Multiplier::X1_05, "note1x105"),
        note(Multiplier::X1_1, "note1x11"),
        note(Multiplier::X1_33, "note1x133"),
        note(Multiplier::X1_5, "note1x15"),
        note(Multiplier::X2, "note1x2"),
        note(Multiplier::X3, "note1x3"),
        note(Multiplier::X10, "note1x10"),
        note(Multiplier::X25, "note1x25"),
        note(Multiplier::X50, "note1x50"),
        note(Multiplier::X100, "note1x100"),
        note(Multiplier::X1000, "note1x1000"),
    ])
}

fn note(multiplier: Multiplier, note_id: &str) -> MultiplierNote {
    MultiplierNote { multiplier, note_id: note_id.to_string() }
}

fn game_zap(nonce_commitment_note_id: &str, multiplier_note_id: &str, state: BetState) -> Zap {
    Zap {
        roller: ROLLER.to_string(),
        invoice: "lnbc10u1fake".to_string(),
        amount_msat: 1_000_000,
        request: "{\"kind\":9734}".to_string(),
        request_content: "Hello, world! 🔗".to_string(),
        multiplier_note_id: multiplier_note_id.to_string(),
        nonce_commitment_note_id: nonce_commitment_note_id.to_string(),
        bet_state: state,
        index: 0,
        bet_timestamp: 1_700_000_000,
    }
}

#[test]
fn generate_roll_test() {
    let nonce = [0u8; 32];
    let memo = "Hello, world! 🔗";

    let n = generate_roll(nonce, 0, ROLLER, memo);

    println!("You rolled a {n}");

    assert_eq!(n, 40299);
}

#[test]
fn test_multipliers_1_05() {
    let amount_msat = 1_000_000;

    let amount_sat = calculate_price_money(amount_msat, &Multiplier::X1_05);

    assert_eq!((1000.0 * 1.05) as u64, amount_sat)
}

#[test]
fn test_multipliers_1_1() {
    let amount_msat = 1_000_000;

    let amount_sat = calculate_price_money(amount_msat, &Multiplier::X1_1);

    assert_eq!((1000.0 * 1.1) as u64, amount_sat)
}

#[test]
fn test_multipliers_1_5() {
    let amount_msat = 1_000_000;

    let amount_sat = calculate_price_money(amount_msat, &Multiplier::X1_5);

    assert_eq!((1000.0 * 1.5) as u64, amount_sat)
}

#[test]
fn test_multipliers_2() {
    let amount_msat = 1_000_000;

    let amount_sat = calculate_price_money(amount_msat, &Multiplier::X2);

    assert_eq!((1000.0 * 2.0) as u64, amount_sat)
}

#[test]
fn dice_test_multipliers_1_05() {
    let amount_msat = 1_000_000;

    let amount_sat = calculate_price_money(amount_msat, &Multiplier::X1_05);

    assert_eq!((1000.0 * 1.05) as u64, amount_sat)
}

#[test]
fn dice_test_multipliers_1_1() {
    let amount_msat = 1_000_000;

    let amount_sat = calculate_price_money(amount_msat, &Multiplier::X1_1);

    assert_eq!((1000.0 * 1.1) as u64, amount_sat)
}

#[test]
fn dice_test_multipliers_1_5() {
    let amount_msat = 1_000_000;

    let amount_sat = calculate_price_money(amount_msat, &Multiplier::X1_5);

    assert_eq!((1000.0 * 1.5) as u64, amount_sat)
}

#[test]
fn dice_test_multipliers_2() {
    let amount_msat = 1_000_000;

    let amount_sat = calculate_price_money(amount_msat, &Multiplier::X2);

    assert_eq!((1000.0 * 2.0) as u64, amount_sat)
}

#[test]
fn test_multipliers_x1000_payout() {
    assert_eq!(calculate_price_money(1_000_000, &Multiplier::X1000), 1_000_000);
    assert_eq!(calculate_price_money(1_000_000, &Multiplier::X1_33), 1330);
}

#[test]
fn decimal_rendering() {
    assert_eq!(u64_to_decimal(0), b"0".to_vec());
    assert_eq!(u64_to_decimal(7), b"7".to_vec());
    assert_eq!(u64_to_decimal(40299), b"40299".to_vec());
    assert_eq!(u64_to_decimal(u64::MAX), b"18446744073709551615".to_vec());
}

/// The all-zeros nonce rolls 40299 for this roller at index 0, which is
/// not below the X1000 threshold of 64, so the bet loses.
#[test]
fn deterministic_roll_loses_at_x1000() {
    let mut store = Store::new();
    let commitment_id = "note1commit".to_string();
    store
        .set_active_nonce(Round { nonce: [0u8; 32], event_id: commitment_id.clone() })
        .unwrap();
    store
        .upsert_zap(
            "hash1".to_string(),
            game_zap("note1commit", "note1x1000", BetState::ZapPaid),
        )
        .unwrap();
    let expired = store.expire_active_nonce().expect("round was active");
    assert_eq!(expired.event_id, commitment_id);

    let outcome = roll_the_die(&mut store, &"hash1".to_string(), &test_multipliers());
    match outcome {
        RollOutcome::Lost { roll, threshold } => {
            assert_eq!(roll, 40299);
            assert_eq!(threshold, 64);
        },
        other => panic!("expected a loss, got {other:?}"),
    }
    let zap = store.get_zap(&"hash1".to_string()).unwrap();
    assert_eq!(zap.bet_state, BetState::Loser);
}

/// With a nonce chosen so that this roller rolls below 64 at index 0, the
/// X1000 bet wins: the payout is owed exactly once, and recording the
/// successful zap makes the bet a paid winner.
#[test]
fn winning_path() {
    let memo = "Hello, world! 🔗";
    let mut nonce = [0u8; 32];
    let mut found = false;
    for seed in 0u64..200_000 {
        nonce[..8].copy_from_slice(&seed.to_le_bytes());
        if generate_roll(nonce, 0, ROLLER, memo) < 64 {
            found = true;
            break;
        }
    }
    assert!(found, "no winning nonce found in the search budget");

    let mut store = Store::new();
    store
        .set_active_nonce(Round { nonce, event_id: "note1commit".to_string() })
        .unwrap();
    store
        .upsert_zap(
            "hash1".to_string(),
            game_zap("note1commit", "note1x1000", BetState::ZapPaid),
        )
        .unwrap();
    store.expire_active_nonce().unwrap();

    let mut payouts_owed = 0;
    let outcome = roll_the_die(&mut store, &"hash1".to_string(), &test_multipliers());
    let amount = match outcome {
        RollOutcome::WonAwaitingPayout { roll, threshold, amount_sat } => {
            assert!(roll < 64);
            assert_eq!(threshold, 64);
            payouts_owed += 1;
            amount_sat
        },
        other => panic!("expected a win, got {other:?}"),
    };
    assert_eq!(amount, 1_000_000);
    assert_eq!(payouts_owed, 1);

    // replaying the evaluation does not ask for a second payout
    match roll_the_die(&mut store, &"hash1".to_string(), &test_multipliers()) {
        RollOutcome::WonAwaitingPayout { .. } => {},
        other => panic!("evaluation is stable before the result is recorded, got {other:?}"),
    }

    let state = record_zap_result(&mut store, &"hash1".to_string(), true).unwrap();
    assert_eq!(state, BetState::PaidWinner);
    let zap = store.get_zap(&"hash1".to_string()).unwrap();
    assert_eq!(zap.bet_state, BetState::PaidWinner);

    // a second call is a no-op: the payout is made at most once
    assert!(record_zap_result(&mut store, &"hash1".to_string(), true).is_none());
}

/// A failed outbound zap is recorded as such, not as a paid winner.
#[test]
fn failed_payout_is_recorded() {
    let mut store = Store::new();
    store
        .set_active_nonce(Round { nonce: [7u8; 32], event_id: "note1commit".to_string() })
        .unwrap();
    store
        .upsert_zap(
            "hash1".to_string(),
            game_zap("note1commit", "note1x105", BetState::ZapPaid),
        )
        .unwrap();
    store.expire_active_nonce().unwrap();
    let state = record_zap_result(&mut store, &"hash1".to_string(), false).unwrap();
    assert_eq!(state, BetState::ZapFailed);
}

/// Replaying a payout call for a terminal bet is a no-op.
#[test]
fn payout_replay_is_noop() {
    let mut store = Store::new();
    store
        .set_active_nonce(Round { nonce: [0u8; 32], event_id: "note1commit".to_string() })
        .unwrap();
    store
        .upsert_zap(
            "hash1".to_string(),
            game_zap("note1commit", "note1x1000", BetState::Loser),
        )
        .unwrap();
    store.expire_active_nonce().unwrap();
    match roll_the_die(&mut store, &"hash1".to_string(), &test_multipliers()) {
        RollOutcome::NotPayable => {},
        other => panic!("expected a no-op, got {other:?}"),
    }
    let zap = store.get_zap(&"hash1".to_string()).unwrap();
    assert_eq!(zap.bet_state, BetState::Loser);
}

/// A bet against the still-active nonce is postponed, never rolled early.
#[test]
fn active_nonce_postpones_payout() {
    let mut store = Store::new();
    store
        .set_active_nonce(Round { nonce: [0u8; 32], event_id: "note1commit".to_string() })
        .unwrap();
    store
        .upsert_zap(
            "hash1".to_string(),
            game_zap("note1commit", "note1x1000", BetState::ZapPaid),
        )
        .unwrap();
    match roll_the_die(&mut store, &"hash1".to_string(), &test_multipliers()) {
        RollOutcome::Postponed => {},
        other => panic!("expected postponement, got {other:?}"),
    }
}

/// A payment hash without a bet rolls nothing.
#[test]
fn unknown_hash_rolls_nothing() {
    let mut store = Store::new();
    match roll_the_die(&mut store, &"hash1".to_string(), &test_multipliers()) {
        RollOutcome::NoBet => {},
        other => panic!("expected no bet, got {other:?}"),
    }
}

/// A paid bet anchored to no recorded nonce cannot be rolled.
#[test]
fn unknown_nonce_fails_payout() {
    let mut store = Store::new();
    let sentinel = "0".repeat(64);
    store
        .upsert_zap(
            "hash1".to_string(),
            game_zap(&sentinel, "note1x1000", BetState::ZapPaid),
        )
        .unwrap();
    match roll_the_die(&mut store, &"hash1".to_string(), &test_multipliers()) {
        RollOutcome::UnknownNonce => {},
        other => panic!("expected an unknown nonce, got {other:?}"),
    }
}

/// A bet that names an unknown multiplier note cannot be rolled.
#[test]
fn unknown_multiplier_note_fails_payout() {
    let mut store = Store::new();
    store
        .set_active_nonce(Round { nonce: [0u8; 32], event_id: "note1commit".to_string() })
        .unwrap();
    store
        .upsert_zap(
            "hash1".to_string(),
            game_zap("note1commit", "note1unknown", BetState::ZapPaid),
        )
        .unwrap();
    store.expire_active_nonce().unwrap();
    match roll_the_die(&mut store, &"hash1".to_string(), &test_multipliers()) {
        RollOutcome::UnknownMultiplier => {},
        other => panic!("expected an unknown multiplier, got {other:?}"),
    }
}

/// The end of a round walks every bet anchored to the expired commitment
/// in store order: losers are recorded at once, winners are reported with
/// the payout owed, and everything else is left untouched.
#[test]
fn end_of_round_payout() {
    let mut store = Store::new();
    store
        .set_active_nonce(Round { nonce: [0u8; 32], event_id: "note1c".to_string() })
        .unwrap();
    // the all-zeros nonce rolls 40299 for this roller: above 64, below 60541
    store
        .upsert_zap(
            "hash1".to_string(),
            game_zap("note1c", "note1x1000", BetState::ZapPaid),
        )
        .unwrap();
    store
        .upsert_zap(
            "hash2".to_string(),
            game_zap("note1c", "note1x105", BetState::ZapPaid),
        )
        .unwrap();
    store
        .upsert_zap(
            "hash3".to_string(),
            game_zap("note1c", "note1x2", BetState::GameZapInvoiceRequested),
        )
        .unwrap();
    store.expire_active_nonce().unwrap();
    store
        .set_active_nonce(Round { nonce: [1u8; 32], event_id: "note1d".to_string() })
        .unwrap();
    store
        .upsert_zap(
            "hash4".to_string(),
            game_zap("note1d", "note1x2", BetState::ZapPaid),
        )
        .unwrap();

    let outcomes = payout_round(&mut store, &"note1c".to_string(), &test_multipliers());
    assert_eq!(outcomes.len(), 3);
    assert_eq!(outcomes[0].0, "hash1");
    assert!(matches!(
        outcomes[0].1,
        RollOutcome::Lost { roll: 40299, threshold: 64 }
    ));
    assert_eq!(outcomes[1].0, "hash2");
    match &outcomes[1].1 {
        RollOutcome::WonAwaitingPayout { roll, threshold, amount_sat } => {
            assert_eq!(*roll, 40299);
            assert_eq!(*threshold, 60541);
            assert_eq!(*amount_sat, 1050);
        },
        other => panic!("expected a pending payout, got {other:?}"),
    }
    assert_eq!(outcomes[2].0, "hash3");
    assert!(matches!(outcomes[2].1, RollOutcome::NotPayable));

    assert_eq!(store.get_zap(&"hash1".to_string()).unwrap().bet_state, BetState::Loser);
    assert_eq!(store.get_zap(&"hash2".to_string()).unwrap().bet_state, BetState::ZapPaid);
    assert_eq!(
        store.get_zap(&"hash3".to_string()).unwrap().bet_state,
        BetState::GameZapInvoiceRequested
    );
    assert_eq!(store.get_zap(&"hash4".to_string()).unwrap().bet_state, BetState::ZapPaid);

    let state = record_zap_result(&mut store, &"hash2".to_string(), true).unwrap();
    assert_eq!(state, BetState::PaidWinner);
}

/// Settling a game invoice moves the bet to paid; replaying the event is
/// ignored.
#[test]
fn settlement_transitions_and_replays() {
    let mut store = Store::new();
    store
        .set_active_nonce(Round { nonce: [0u8; 32], event_id: "note1commit".to_string() })
        .unwrap();
    store
        .upsert_zap(
            "hash1".to_string(),
            game_zap("note1commit", "note1x2", BetState::GameZapInvoiceRequested),
        )
        .unwrap();

    match handle_paid_invoice(&mut store, &"hash1".to_string(), InvoiceState::Settled) {
        SettlementOutcome::GamePaid { zap } => {
            assert_eq!(zap.bet_state, BetState::ZapPaid);
        },
        _ => panic!("expected the bet to be paid"),
    }
    assert_eq!(
        store.get_zap(&"hash1".to_string()).unwrap().bet_state,
        BetState::ZapPaid
    );

    match handle_paid_invoice(&mut store, &"hash1".to_string(), InvoiceState::Settled) {
        SettlementOutcome::AlreadyProcessed => {},
        _ => panic!("a replayed settlement must be ignored"),
    }
    assert_eq!(
        store.get_zap(&"hash1".to_string()).unwrap().bet_state,
        BetState::ZapPaid
    );
}

/// Only settled invoices are acted on, and unknown hashes are ignored.
#[test]
fn settlement_ignores_open_and_unknown() {
    let mut store = Store::new();
    match handle_paid_invoice(&mut store, &"hash1".to_string(), InvoiceState::Open) {
        SettlementOutcome::NotSettled => {},
        _ => panic!("an open invoice must be ignored"),
    }
    match handle_paid_invoice(&mut store, &"hash1".to_string(), InvoiceState::Settled) {
        SettlementOutcome::NoBet => {},
        _ => panic!("a payment without a bet must be ignored"),
    }
}

/// A settled donation keeps its state and earns a receipt.
#[test]
fn settlement_donation_receipt() {
    let mut store = Store::new();
    let mut donation = game_zap(
        "0000000000000000000000000000000000000000000000000000000000000000",
        "",
        BetState::ZapInvoiceRequested,
    );
    donation.multiplier_note_id = String::new();
    store.upsert_zap("hash1".to_string(), donation).unwrap();
    match handle_paid_invoice(&mut store, &"hash1".to_string(), InvoiceState::Settled) {
        SettlementOutcome::DonationReceipt { zap } => {
            assert_eq!(zap.bet_state, BetState::ZapInvoiceRequested);
        },
        _ => panic!("expected a donation receipt"),
    }
    assert_eq!(
        store.get_zap(&"hash1".to_string()).unwrap().bet_state,
        BetState::ZapInvoiceRequested
    );
}
