use nostr_dice::bet::BetState;
use nostr_dice::intake::register_donation_bet;
use nostr_dice::intake::register_game_bet;
use nostr_dice::intake::request_donation_invoice;
use nostr_dice::intake::request_game_invoice;
use nostr_dice::intake::IntakeError;
use nostr_dice::lnurl::get_lnurl_pay;
use nostr_dice::lnurl::get_nip05;
use nostr_dice::lnurl::Nip05QueryParams;
use nostr_dice::memo::parse_bet_memo;
use nostr_dice::memo::zap_invoice_memo;
use nostr_dice::multiplier::Multiplier;
use nostr_dice::multiplier::MultiplierNote;
use nostr_dice::multiplier::Multipliers;
use nostr_dice::nonce::nonce_commitment;
use nostr_dice::request::get_relays;
use nostr_dice::request::get_zapped_note_id;
use nostr_dice::request::RequestTag;
use nostr_dice::request::ZapRequest;
use nostr_dice::social::filter_zaps;
use nostr_dice::social::format_losers;
use nostr_dice::social::format_winners;
use nostr_dice::social::social_summary;
use nostr_dice::store::Round;
use nostr_dice::store::Store;
use nostr_dice::store::Zap;

const ROLLER: &str = "npub130nwn4t5x8h0h6d983lfs2x44znvqezucklurjzwtn7cv0c73cxsjemx32";

fn test_multipliers() -> Multipliers {
    Multipliers([
        note(Multiplier::X1_05, "note1x105"),
        note(Multiplier::X1_1, "note1x11"),
        note(Multiplier::X1_33, "note1x133"),
        note(Multiplier::X1_5, "note1x15"),
        note(Multiplier::X2, "note1x2"),
        note(Multiplier::X3, "note1x3"),
        note(Multiplier::X10, "note1x10"),
        note(Multiplier::X25, "note1x25"),
        note(Multiplier::X50, "note1x50"),
        note(Multiplier::X100, "note1x100"),
        note(Multiplier::X1000, "note1x1000"),
    ])
}

fn note(multiplier: Multiplier, note_id: &str) -> MultiplierNote {
    MultiplierNote { multiplier, note_id: note_id.to_string() }
}

fn zap_request(zapped: &str) -> ZapRequest {
    ZapRequest {
        pubkey: ROLLER.to_string(),
        kind: 9734,
        content: "Hello, world! 🔗".to_string(),
        json: "{\"kind\":9734,\"content\":\"Hello, world! 🔗\"}".to_string(),
        tags: vec![
            RequestTag::Other,
            RequestTag::Event { event_id: zapped.to_string() },
            RequestTag::Relay { url: "wss://relay.example".to_string() },
        ],
    }
}

fn sha256_hex(data: &[u8]) -> String {
    let digest = <bitcoin::hashes::sha256::Hash as bitcoin::hashes::Hash>::hash(data);
    hex::encode(<bitcoin::hashes::sha256::Hash as bitcoin::hashes::Hash>::to_byte_array(digest))
}

#[test]
fn memo_is_byte_exact() {
    let commitment = nonce_commitment([0u8; 32]);
    let memo_hash = sha256_hex("Hello, world! 🔗".as_bytes());
    let memo = zap_invoice_memo(
        "note1commit",
        &commitment,
        &note(Multiplier::X2, "note1x2"),
        ROLLER,
        "Hello, world! 🔗",
        1_000_000,
        0,
    );
    let expected = format!(
        "Bet 1000 sats that you will roll a number smaller than 31784, \
         to multiply your wager by 2x. nonce_commitment_note_id: note1commit, \
         nonce_commitment: 66687aadf862bd776c8fc18b8e9f8e20089714856ee233b3902a591d0d5f2925, \
         multiplier_note_id: note1x2, roller_npub: {ROLLER}, memo_hash: {memo_hash}, index: 0"
    );
    assert_eq!(String::from_utf8(memo).unwrap(), expected);
}

#[test]
fn memo_round_trips() {
    let commitment = nonce_commitment([0u8; 32]);
    let memo = zap_invoice_memo(
        "note1commit",
        &commitment,
        &note(Multiplier::X2, "note1x2"),
        ROLLER,
        "Hello, world! 🔗",
        1_000_000,
        3,
    );
    let f = parse_bet_memo(&memo).unwrap();
    assert_eq!(f.sats, 1000);
    assert_eq!(f.threshold, 31784);
    assert_eq!(f.label, b"2x".to_vec());
    assert_eq!(f.nonce_commitment_note_id, b"note1commit".to_vec());
    assert_eq!(f.nonce_commitment, hex::encode(commitment).into_bytes());
    assert_eq!(f.multiplier_note_id, b"note1x2".to_vec());
    assert_eq!(f.roller_npub, ROLLER.as_bytes().to_vec());
    assert_eq!(
        f.memo_hash,
        sha256_hex("Hello, world! 🔗".as_bytes()).into_bytes()
    );
    assert_eq!(f.index, 3);

    assert!(parse_bet_memo(&b"not a bet memo".to_vec()).is_none());
}

#[test]
fn zapped_note_id_is_first_event_tag() {
    let req = zap_request("note1x2");
    assert_eq!(get_zapped_note_id(&req).unwrap(), "note1x2");

    let mut no_ref = req;
    no_ref.tags = vec![RequestTag::Other];
    assert!(get_zapped_note_id(&no_ref).is_none());
}

#[test]
fn relays_are_collected_in_order() {
    let mut req = zap_request("note1x2");
    req.tags = vec![
        RequestTag::Relays {
            urls: vec!["wss://a.example".to_string(), "wss://b.example".to_string()],
        },
        RequestTag::Other,
        RequestTag::Relay { url: "wss://c.example".to_string() },
    ];
    assert_eq!(
        get_relays(&req),
        vec![
            "wss://a.example".to_string(),
            "wss://b.example".to_string(),
            "wss://c.example".to_string()
        ]
    );
}

#[test]
fn game_intake_success() {
    let mut store = Store::new();
    store
        .set_active_nonce(Round { nonce: [0u8; 32], event_id: "note1commit".to_string() })
        .unwrap();
    let req = zap_request("note1x2");
    let plan = request_game_invoice(&store, &test_multipliers(), 1_000_000, Some(&req), 1800)
        .unwrap();
    assert_eq!(plan.value_msat, 1_000_000);
    assert_eq!(plan.expiry_secs, 1800);
    assert_eq!(plan.multiplier_note_id, "note1x2");
    assert_eq!(plan.nonce_commitment_note_id, "note1commit");
    assert_eq!(plan.index, 0);
    let expected_memo = zap_invoice_memo(
        "note1commit",
        &nonce_commitment([0u8; 32]),
        &note(Multiplier::X2, "note1x2"),
        ROLLER,
        "Hello, world! 🔗",
        1_000_000,
        0,
    );
    assert_eq!(plan.memo, expected_memo);

    register_game_bet(
        &mut store,
        "hash1".to_string(),
        "lnbc10u1fake".to_string(),
        plan.value_msat,
        req.json.clone(),
        req.content.clone(),
        req.pubkey.clone(),
        plan.multiplier_note_id,
        plan.nonce_commitment_note_id,
        plan.index,
        1_700_000_000,
    )
    .unwrap();
    let zap = store.get_zap(&"hash1".to_string()).unwrap();
    assert_eq!(zap.bet_state, BetState::GameZapInvoiceRequested);
    assert_eq!(zap.index, 0);

    // the next bet by the same roller against the same nonce gets index 1
    let plan2 = request_game_invoice(&store, &test_multipliers(), 1_000_000, Some(&req), 1800)
        .unwrap();
    assert_eq!(plan2.index, 1);
}

#[test]
fn game_intake_rejections() {
    let mut store = Store::new();
    let multipliers = test_multipliers();

    assert_eq!(
        request_game_invoice(&store, &multipliers, 1_000, None, 1800).unwrap_err(),
        IntakeError::MissingZapRequest
    );

    let mut not_zap = zap_request("note1x2");
    not_zap.kind = 1;
    assert_eq!(
        request_game_invoice(&store, &multipliers, 1_000, Some(&not_zap), 1800).unwrap_err(),
        IntakeError::NotZapRequest
    );

    let mut no_note = zap_request("note1x2");
    no_note.tags = vec![RequestTag::Other];
    assert_eq!(
        request_game_invoice(&store, &multipliers, 1_000, Some(&no_note), 1800).unwrap_err(),
        IntakeError::NoZappedNote
    );

    let stranger = zap_request("note1unknown");
    assert_eq!(
        request_game_invoice(&store, &multipliers, 1_000, Some(&stranger), 1800).unwrap_err(),
        IntakeError::UnknownMultiplier
    );

    let req = zap_request("note1x1000");
    // the X1000 cap is 1000 sats: 1_000_001 msat is too much
    assert_eq!(
        request_game_invoice(&store, &multipliers, 1_000_001, Some(&req), 1800).unwrap_err(),
        IntakeError::AmountTooHigh
    );

    // no active nonce rejects intake, and no bet is persisted
    assert_eq!(
        request_game_invoice(&store, &multipliers, 1_000_000, Some(&req), 1800).unwrap_err(),
        IntakeError::NoActiveNonce
    );
    assert!(store.get_zaps_in_time_window(0, u64::MAX).is_empty());

    // with an active nonce the same request goes through
    store
        .set_active_nonce(Round { nonce: [0u8; 32], event_id: "note1commit".to_string() })
        .unwrap();
    assert!(request_game_invoice(&store, &multipliers, 1_000_000, Some(&req), 1800).is_ok());
}

#[test]
fn donation_intake() {
    let plain = request_donation_invoice(21_000, None).unwrap();
    assert_eq!(plain.value_msat, 21_000);
    assert!(!plain.register);
    assert!(plain.description_hash.is_none());
    assert_eq!(String::from_utf8(plain.memo).unwrap(), "Donation to NostrDice");

    let req = zap_request("note1x2");
    let receipted = request_donation_invoice(21_000, Some(&req)).unwrap();
    assert!(receipted.register);
    assert_eq!(receipted.expiry_secs, Some(300));
    assert_eq!(
        hex::encode(receipted.description_hash.unwrap()),
        sha256_hex(req.json.as_bytes())
    );
    assert_eq!(String::from_utf8(receipted.memo).unwrap(), "Thank you for the donation");

    let mut not_zap = zap_request("note1x2");
    not_zap.kind = 1;
    assert_eq!(
        request_donation_invoice(21_000, Some(&not_zap)).unwrap_err(),
        IntakeError::NotZapRequest
    );

    let mut store = Store::new();
    register_donation_bet(
        &mut store,
        "hash1".to_string(),
        "lnbc10u1fake".to_string(),
        21_000,
        req.json.clone(),
        req.content.clone(),
        req.pubkey.clone(),
        1_700_000_000,
    );
    let zap = store.get_zap(&"hash1".to_string()).unwrap();
    assert_eq!(zap.bet_state, BetState::ZapInvoiceRequested);
    assert_eq!(zap.index, 0);
    assert_eq!(zap.multiplier_note_id, "");
    assert!(zap.nonce_commitment_note_id.chars().all(|c| c == '0'));
}

fn summary_zap(state: BetState, multiplier_note_id: &str, roller: &str) -> Zap {
    Zap {
        roller: roller.to_string(),
        invoice: "lnbc10u1fake".to_string(),
        amount_msat: 1_000_000,
        request: "{}".to_string(),
        request_content: "gl".to_string(),
        multiplier_note_id: multiplier_note_id.to_string(),
        nonce_commitment_note_id: "note1c".to_string(),
        bet_state: state,
        index: 0,
        bet_timestamp: 50,
    }
}

#[test]
fn winners_and_losers_are_formatted() {
    let multipliers = test_multipliers();
    let zaps = vec![
        summary_zap(BetState::PaidWinner, "note1x2", "npub1w"),
        summary_zap(BetState::Loser, "note1x105", "npub1l"),
        summary_zap(BetState::ZapPaid, "note1x2", "npub1p"),
    ];
    let winners = filter_zaps(&multipliers, &zaps, BetState::PaidWinner);
    assert_eq!(winners.len(), 1);
    assert_eq!(winners[0].0, "npub1w");
    assert_eq!(winners[0].2, 1_000_000);
    let losers = filter_zaps(&multipliers, &zaps, BetState::Loser);
    assert_eq!(losers.len(), 1);

    assert_eq!(
        String::from_utf8(format_winners(&winners)).unwrap(),
        "Winners:\n- nostr:npub1w: won 2 x 1000sats \n"
    );
    assert_eq!(
        String::from_utf8(format_losers(&losers)).unwrap(),
        "Losers - please try again:\n- nostr:npub1l\n"
    );
    assert_eq!(format_winners(&Vec::new()), Vec::<u8>::new());

    let msg = social_summary(&multipliers, &zaps, 60, "npub1game", "npub1nonce").unwrap();
    let text = String::from_utf8(msg).unwrap();
    assert!(text.starts_with(
        "Winner winner, chicken dinner! Thank you to everyone who played in the last 60 \
         minutes. Out of 2 participants, 1 of you won some sweet sats. Congrats!"
    ));
    assert!(text.contains("- nostr:npub1w: won 2 x 1000sats"));
    assert!(text.ends_with(
        "Do you have what it takes? Follow nostr:npub1game for another round and \
         nostr:npub1nonce for the published nonces"
    ));

    // no winners, nothing to post
    let quiet = vec![summary_zap(BetState::Loser, "note1x2", "npub1l")];
    assert!(social_summary(&multipliers, &quiet, 60, "npub1game", "npub1nonce").is_none());
}

#[test]
fn lnurl_pay_descriptor() {
    let main_pk = "a1".repeat(32);
    let nonce_pk = "b2".repeat(32);
    let social_pk = "c3".repeat(32);
    let r = get_lnurl_pay(
        "main",
        "dice.example",
        &main_pk,
        &nonce_pk,
        &social_pk,
    );
    let metadata = "[[\"text/identifier\",\"main@dice.example\"],[\"text/plain\",\"Sats for main\"]]";
    assert_eq!(String::from_utf8(r.metadata.clone()).unwrap(), metadata);
    assert_eq!(r.min_sendable, 1_000);
    assert_eq!(r.max_sendable, 11_000_000_000);
    assert!(r.allows_nostr);
    assert_eq!(r.nostr_pubkey, main_pk);
    let expected_callback = format!(
        "https://dice.example/get-invoice-for-game/{}",
        sha256_hex(metadata.as_bytes())
    );
    assert_eq!(String::from_utf8(r.callback).unwrap(), expected_callback);

    let r = get_lnurl_pay("nonce", "dice.example", &main_pk, &nonce_pk, &social_pk);
    assert_eq!(r.nostr_pubkey, nonce_pk);
    assert!(String::from_utf8(r.callback).unwrap().contains("/get-invoice-for-zap/"));

    let r = get_lnurl_pay("someone", "dice.example", &main_pk, &nonce_pk, &social_pk);
    assert_eq!(r.nostr_pubkey, social_pk);
}

#[test]
fn nip05_resolution() {
    let main_pk = "a1".repeat(32);
    let nonce_pk = "b2".repeat(32);
    let social_pk = "c3".repeat(32);
    let relays = vec!["wss://relay.example".to_string()];

    let all = get_nip05(
        &Nip05QueryParams { name: None },
        &main_pk,
        &nonce_pk,
        &social_pk,
        &relays,
    );
    assert_eq!(all.names.len(), 3);
    assert_eq!(all.names[0], ("main".to_string(), main_pk.clone()));
    assert_eq!(all.names[1], ("nonce".to_string(), nonce_pk.clone()));
    assert_eq!(all.names[2], ("social".to_string(), social_pk.clone()));
    assert_eq!(all.relays[0], (main_pk.clone(), relays.clone()));

    let single = get_nip05(
        &Nip05QueryParams { name: Some("nonce".to_string()) },
        &main_pk,
        &nonce_pk,
        &social_pk,
        &relays,
    );
    assert_eq!(single.names, vec![("nonce".to_string(), nonce_pk.clone())]);
    assert_eq!(single.relays, vec![(nonce_pk.clone(), relays.clone())]);

    let unknown = get_nip05(
        &Nip05QueryParams { name: Some("stranger".to_string()) },
        &main_pk,
        &nonce_pk,
        &social_pk,
        &relays,
    );
    assert_eq!(unknown.names.len(), 3);
}
