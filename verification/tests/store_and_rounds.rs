use nostr_dice::bet::BetState;
use nostr_dice::multiplier::Multiplier;
use nostr_dice::multiplier::MultiplierNote;
use nostr_dice::multiplier::Multipliers;
use nostr_dice::nonce::new_round_nonce;
use nostr_dice::nonce::nonce_commitment;
use nostr_dice::nonce::recover_on_startup;
use nostr_dice::payouts::roll_the_die;
use nostr_dice::payouts::record_zap_result;
use nostr_dice::payouts::RollOutcome;
use nostr_dice::settlement::handle_paid_invoice;
use nostr_dice::settlement::InvoiceState;
use nostr_dice::settlement::SettlementOutcome;
use nostr_dice::store::donation_commitment_id;
use nostr_dice::store::round_from_row;
use nostr_dice::store::Round;
use nostr_dice::store::RoundRow;
use nostr_dice::store::Store;
use nostr_dice::store::StoreError;
use nostr_dice::store::Zap;
use nostr_dice::zapper::LndPaymentError;

const ROLLER: &str = "npub130nwn4t5x8h0h6d983lfs2x44znvqezucklurjzwtn7cv0c73cxsjemx32";

fn test_multipliers() -> Multipliers {
    Multipliers([
        note(Multiplier::X1_05, "note1x105"),
        note(Multiplier::X1_1, "note1x11"),
        note(Multiplier::X1_33, "note1x133"),
        note(Multiplier::X1_5, "note1x15"),
        note(Multiplier::X2, "note1x2"),
        note(Multiplier::X3, "note1x3"),
        note(Multiplier::X10, "note1x10"),
        note(Multiplier::X25, "note1x25"),
        note(Multiplier::X50, "note1x50"),
        note(Multiplier::X100, "note1x100"),
        note(Multiplier::X1000, "note1x1000"),
    ])
}

fn note(multiplier: Multiplier, note_id: &str) -> MultiplierNote {
    MultiplierNote { multiplier, note_id: note_id.to_string() }
}

fn game_zap(commitment: &str, multiplier_note_id: &str, state: BetState, ts: u64) -> Zap {
    Zap {
        roller: ROLLER.to_string(),
        invoice: "lnbc10u1fake".to_string(),
        amount_msat: 1_000_000,
        request: "{\"kind\":9734}".to_string(),
        request_content: "Hello, world! 🔗".to_string(),
        multiplier_note_id: multiplier_note_id.to_string(),
        nonce_commitment_note_id: commitment.to_string(),
        bet_state: state,
        index: 0,
        bet_timestamp: ts,
    }
}

#[test]
fn nonce_commitment_is_sha256() {
    let commitment = nonce_commitment([0u8; 32]);
    let digest = <bitcoin::hashes::sha256::Hash as bitcoin::hashes::Hash>::hash(&[0u8; 32]);
    let expected = <bitcoin::hashes::sha256::Hash as bitcoin::hashes::Hash>::to_byte_array(digest);
    assert_eq!(commitment, expected);
    assert_eq!(
        hex::encode(commitment),
        "66687aadf862bd776c8fc18b8e9f8e20089714856ee233b3902a591d0d5f2925"
    );
}

#[test]
fn new_round_nonce_commits_to_its_nonce() {
    let (nonce, commitment) = new_round_nonce();
    assert_eq!(nonce_commitment(nonce), commitment);
    let (nonce2, _) = new_round_nonce();
    assert_ne!(nonce, nonce2, "two rounds drew the same nonce");
}

#[test]
fn active_nonce_round_trip() {
    let mut store = Store::new();
    assert!(store.get_active_nonce().is_none());
    store
        .set_active_nonce(Round { nonce: [1u8; 32], event_id: "note1a".to_string() })
        .unwrap();
    let round = store.get_active_nonce().unwrap();
    assert_eq!(round.event_id, "note1a");
    assert_eq!(round.nonce, [1u8; 32]);

    let unset = store.unset_active_nonce().unwrap();
    assert_eq!(unset.event_id, "note1a");
    assert!(store.get_active_nonce().is_none());
    assert!(store.unset_active_nonce().is_none());
}

#[test]
fn duplicate_commitment_is_rejected() {
    let mut store = Store::new();
    store
        .set_active_nonce(Round { nonce: [1u8; 32], event_id: "note1a".to_string() })
        .unwrap();
    let err = store
        .set_active_nonce(Round { nonce: [2u8; 32], event_id: "note1a".to_string() })
        .unwrap_err();
    assert_eq!(err, StoreError::DuplicateCommitment);
}

#[test]
fn expire_moves_active_to_latest_expired() {
    let mut store = Store::new();
    store
        .set_active_nonce(Round { nonce: [1u8; 32], event_id: "note1a".to_string() })
        .unwrap();
    let expired = store.expire_active_nonce().unwrap();
    assert_eq!(expired.event_id, "note1a");
    assert!(store.get_active_nonce().is_none());
    assert_eq!(store.get_latest_expired_nonce().unwrap().event_id, "note1a");
    assert!(store.expire_active_nonce().is_none());
}

#[test]
fn expired_pointer_never_equals_active() {
    let mut store = Store::new();
    store
        .set_active_nonce(Round { nonce: [1u8; 32], event_id: "note1a".to_string() })
        .unwrap();
    // pointing the expired pointer at the still-active nonce is refused
    let err = store
        .set_latest_expired_nonce(Round { nonce: [1u8; 32], event_id: "note1a".to_string() })
        .unwrap_err();
    assert_eq!(err, StoreError::UnknownCommitment);
    store.expire_active_nonce().unwrap();
    store
        .set_active_nonce(Round { nonce: [2u8; 32], event_id: "note1b".to_string() })
        .unwrap();
    let active = store.get_active_nonce().unwrap();
    let expired = store.get_latest_expired_nonce().unwrap();
    assert_ne!(active.event_id, expired.event_id);
}

#[test]
fn unknown_commitment_is_rejected() {
    let mut store = Store::new();
    let err = store
        .set_latest_expired_nonce(Round { nonce: [1u8; 32], event_id: "note1a".to_string() })
        .unwrap_err();
    assert_eq!(err, StoreError::UnknownCommitment);

    let err = store
        .upsert_zap(
            "hash1".to_string(),
            game_zap("note1missing", "note1x2", BetState::GameZapInvoiceRequested, 5),
        )
        .unwrap_err();
    assert_eq!(err, StoreError::UnknownCommitment);
}

#[test]
fn donations_need_no_nonce() {
    let mut store = Store::new();
    let sentinel = donation_commitment_id();
    assert_eq!(sentinel.len(), 64);
    assert!(sentinel.chars().all(|c| c == '0'));
    store
        .upsert_zap(
            "hash1".to_string(),
            game_zap(&sentinel, "", BetState::ZapInvoiceRequested, 5),
        )
        .unwrap();
    assert!(store.get_zap(&"hash1".to_string()).is_some());
}

#[test]
fn zap_lookup_and_overwrite() {
    let mut store = Store::new();
    store
        .set_active_nonce(Round { nonce: [1u8; 32], event_id: "note1a".to_string() })
        .unwrap();
    assert!(store.get_zap(&"hash1".to_string()).is_none());
    store
        .upsert_zap(
            "hash1".to_string(),
            game_zap("note1a", "note1x2", BetState::GameZapInvoiceRequested, 5),
        )
        .unwrap();
    store
        .upsert_zap(
            "hash1".to_string(),
            game_zap("note1a", "note1x2", BetState::ZapPaid, 5),
        )
        .unwrap();
    store
        .upsert_zap(
            "hash2".to_string(),
            game_zap("note1a", "note1x3", BetState::GameZapInvoiceRequested, 9),
        )
        .unwrap();
    assert_eq!(store.get_zap(&"hash1".to_string()).unwrap().bet_state, BetState::ZapPaid);
    assert_eq!(
        store.get_zap(&"hash2".to_string()).unwrap().multiplier_note_id,
        "note1x3"
    );
}

#[test]
fn zaps_by_commitment_and_window() {
    let mut store = Store::new();
    store
        .set_active_nonce(Round { nonce: [1u8; 32], event_id: "note1a".to_string() })
        .unwrap();
    store.expire_active_nonce().unwrap();
    store
        .set_active_nonce(Round { nonce: [2u8; 32], event_id: "note1b".to_string() })
        .unwrap();
    store
        .upsert_zap(
            "hash1".to_string(),
            game_zap("note1a", "note1x2", BetState::ZapPaid, 10),
        )
        .unwrap();
    store
        .upsert_zap(
            "hash2".to_string(),
            game_zap("note1b", "note1x2", BetState::ZapPaid, 20),
        )
        .unwrap();
    store
        .upsert_zap(
            "hash3".to_string(),
            game_zap("note1a", "note1x3", BetState::Loser, 30),
        )
        .unwrap();

    let of_a = store.get_zaps_by_event_id(&"note1a".to_string());
    assert_eq!(of_a.len(), 2);
    assert_eq!(of_a[0].multiplier_note_id, "note1x2");
    assert_eq!(of_a[1].multiplier_note_id, "note1x3");

    // the window bounds are strict
    let windowed = store.get_zaps_in_time_window(10, 30);
    assert_eq!(windowed.len(), 1);
    assert_eq!(windowed[0].nonce_commitment_note_id, "note1b");
}

#[test]
fn bet_index_counts_per_roller_and_nonce() {
    let mut store = Store::new();
    store
        .set_active_nonce(Round { nonce: [1u8; 32], event_id: "note1a".to_string() })
        .unwrap();
    let commitment = "note1a".to_string();
    let roller = ROLLER.to_string();
    assert_eq!(store.count_bets_by_roller(&commitment, &roller), 0);
    store
        .upsert_zap(
            "hash1".to_string(),
            game_zap("note1a", "note1x2", BetState::ZapPaid, 10),
        )
        .unwrap();
    store
        .upsert_zap(
            "hash2".to_string(),
            game_zap("note1a", "note1x2", BetState::ZapPaid, 11),
        )
        .unwrap();
    let mut other = game_zap("note1a", "note1x2", BetState::ZapPaid, 12);
    other.roller = "npub1other".to_string();
    store.upsert_zap("hash3".to_string(), other).unwrap();
    assert_eq!(store.count_bets_by_roller(&commitment, &roller), 2);
}

/// Start with an active nonce and a paid bet against it, then restart.
/// Recovery clears the active pointer, hands the round back for its
/// reveal, and the paid bet can then be driven to a terminal state.
#[test]
fn reveal_on_restart() {
    let mut store = Store::new();
    store
        .set_active_nonce(Round { nonce: [0u8; 32], event_id: "note1c".to_string() })
        .unwrap();
    store
        .upsert_zap(
            "hash1".to_string(),
            game_zap("note1c", "note1x1000", BetState::ZapPaid, 10),
        )
        .unwrap();

    let reveals = recover_on_startup(&mut store);
    assert_eq!(reveals.len(), 1);
    assert_eq!(reveals[0].event_id, "note1c");
    assert_eq!(reveals[0].nonce, [0u8; 32]);
    assert!(store.get_active_nonce().is_none());

    let outcome = roll_the_die(&mut store, &"hash1".to_string(), &test_multipliers());
    match outcome {
        RollOutcome::Lost { .. } => {},
        RollOutcome::WonAwaitingPayout { .. } => {
            record_zap_result(&mut store, &"hash1".to_string(), true).unwrap();
        },
        other => panic!("the bet must be resolved after recovery, got {other:?}"),
    }
    let state = store.get_zap(&"hash1".to_string()).unwrap().bet_state;
    assert!(matches!(
        state,
        BetState::Loser | BetState::PaidWinner
    ));
}

/// Recovery with only an expired nonce re-reveals it.
#[test]
fn recovery_reveals_latest_expired() {
    let mut store = Store::new();
    store
        .set_active_nonce(Round { nonce: [3u8; 32], event_id: "note1d".to_string() })
        .unwrap();
    store.expire_active_nonce().unwrap();
    let reveals = recover_on_startup(&mut store);
    assert_eq!(reveals.len(), 1);
    assert_eq!(reveals[0].event_id, "note1d");
}

/// A bet created while a nonce is active may settle after the nonce has
/// expired and still receives an outcome.
#[test]
fn late_payer() {
    let mut store = Store::new();
    store
        .set_active_nonce(Round { nonce: [0u8; 32], event_id: "note1c".to_string() })
        .unwrap();
    store
        .upsert_zap(
            "hash1".to_string(),
            game_zap("note1c", "note1x1000", BetState::GameZapInvoiceRequested, 10),
        )
        .unwrap();

    // the round closes before the invoice is paid
    store.expire_active_nonce().unwrap();

    // the late payment still settles the bet
    match handle_paid_invoice(&mut store, &"hash1".to_string(), InvoiceState::Settled) {
        SettlementOutcome::GamePaid { zap } => assert_eq!(zap.bet_state, BetState::ZapPaid),
        _ => panic!("the late payment must settle the bet"),
    }

    // and the reveal resolves it
    let outcome = roll_the_die(&mut store, &"hash1".to_string(), &test_multipliers());
    match outcome {
        RollOutcome::Lost { .. } => {},
        RollOutcome::WonAwaitingPayout { .. } => {
            record_zap_result(&mut store, &"hash1".to_string(), false).unwrap();
        },
        other => panic!("the bet must receive an outcome, got {other:?}"),
    }
    let state = store.get_zap(&"hash1".to_string()).unwrap().bet_state;
    assert!(matches!(
        state,
        BetState::Loser | BetState::PaidWinner | BetState::ZapFailed
    ));
}

#[test]
fn round_from_row_round_trips() {
    let nonce = [0xabu8; 32];
    let row = RoundRow { nonce: hex::encode(nonce), event_id: "note1a".to_string() };
    let round = round_from_row(&row).unwrap();
    assert_eq!(round.nonce, nonce);
    assert_eq!(round.event_id, "note1a");

    let bad = RoundRow { nonce: "zz".repeat(32), event_id: "note1a".to_string() };
    assert!(round_from_row(&bad).is_none());
    let short = RoundRow { nonce: "ab".to_string(), event_id: "note1a".to_string() };
    assert!(round_from_row(&short).is_none());
    let upper = RoundRow { nonce: hex::encode(nonce).to_uppercase(), event_id: "x".to_string() };
    assert!(round_from_row(&upper).is_none());
}

#[test]
fn lnd_payment_error_message() {
    let err = LndPaymentError("no route".to_string());
    assert_eq!(err.message(), "lnd payment error: no route");
}
