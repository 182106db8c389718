use vstd::prelude::*;
use vstd::string::StrSliceExecFns;
use vstd::string::StringSliceAdditionalSpecFns;
use vstd::utf8::encode_utf8;
use crate::bet::BetState;
use crate::memo::memo_bytes;
use crate::memo::zap_invoice_memo;
use crate::multiplier::spec_get_multiplier_note;
use crate::multiplier::Multipliers;
use crate::nonce::nonce_commitment;
use crate::payouts::spec_nonce_of;
use crate::request::first_event_ref;
use crate::request::get_zapped_note_id;
use crate::request::ZapRequest;
use crate::request::ZAP_REQUEST_KIND;
use crate::roll::sha256;
use crate::roll::sha256_of;
use crate::store::donation_commitment_id;
use crate::store::donation_sentinel;
use crate::store::spec_count_bets;
use crate::store::spec_find_zap;
use crate::store::Store;
use crate::store::StoreError;
use crate::store::Zap;

verus! {

/// Why an invoice request was turned away. Each is surfaced to the caller
/// as a user-visible error.
#[derive(Clone, Copy, Debug, PartialEq, Eq, Structural)]
pub enum IntakeError {
    /// The game cannot be played without a zap request.
    MissingZapRequest,
    /// The supplied event is not a zap request.
    NotZapRequest,
    /// The request references no note to zap.
    NoZappedNote,
    /// The zapped note is not one of the multiplier notes.
    UnknownMultiplier,
    /// The amount is above the cap of the chosen multiplier.
    AmountTooHigh,
    /// No nonce is accepting bets at the moment.
    NoActiveNonce,
}

/// What the Lightning side needs to mint a game invoice, and what the
/// store needs afterwards to record the bet.
#[derive(Debug)]
pub struct GameInvoicePlan {
    /// The memo of the invoice: the terms of the bet, byte for byte.
    pub memo: Vec<u8>,
    /// The value of the invoice, in millisatoshis.
    pub value_msat: u64,
    /// The invoice expiry: how long a late payer has, which is the delay
    /// between nonce expiry and reveal.
    pub expiry_secs: u64,
    /// The note id of the chosen multiplier.
    pub multiplier_note_id: String,
    /// The commitment id of the nonce the bet will be anchored to.
    pub nonce_commitment_note_id: String,
    /// How many bets this roller already placed against this nonce.
    pub index: usize,
}

/// Validates a game invoice request and plans the invoice.
///
/// The request must be a zap request that references a multiplier note;
/// the amount must not exceed the multiplier's cap; and a nonce must be
/// accepting bets. When no nonce is active the request is turned away and
/// nothing is recorded: the store is not even writable here.
pub fn request_game_invoice(
    store: &Store,
    multipliers: &Multipliers,
    amount_msats: u64,
    zap_request: Option<&ZapRequest>,
    reveal_after_secs: u64,
) -> (r: Result<GameInvoicePlan, IntakeError>)
    requires
        store.wf(),
    ensures
        r matches Err(IntakeError::MissingZapRequest) <==> zap_request is None,
        r matches Err(IntakeError::NotZapRequest) <==> (zap_request matches Some(req) && req.kind
            != ZAP_REQUEST_KIND),
        r matches Err(IntakeError::NoZappedNote) <==> (zap_request matches Some(req) && req.kind
            == ZAP_REQUEST_KIND && first_event_ref(req.tags@) is None),
        r matches Err(IntakeError::UnknownMultiplier) <==> (zap_request matches Some(req)
            && req.kind == ZAP_REQUEST_KIND && (first_event_ref(req.tags@) matches Some(zapped)
            && spec_get_multiplier_note(multipliers.0@, zapped) is None)),
        r matches Err(IntakeError::AmountTooHigh) <==> (zap_request matches Some(req) && req.kind
            == ZAP_REQUEST_KIND && (first_event_ref(req.tags@) matches Some(zapped)
            && (spec_get_multiplier_note(multipliers.0@, zapped) matches Some(note) && amount_msats
            > note.multiplier.max_bet_sat() * 1000))),
        r matches Err(IntakeError::NoActiveNonce) <==> (zap_request matches Some(req) && req.kind
            == ZAP_REQUEST_KIND && (first_event_ref(req.tags@) matches Some(zapped)
            && (spec_get_multiplier_note(multipliers.0@, zapped) matches Some(note) && amount_msats
            <= note.multiplier.max_bet_sat() * 1000 && store.active_id() is None))),
        r matches Ok(plan) ==> (zap_request matches Some(req) && req.kind == ZAP_REQUEST_KIND && (
        first_event_ref(req.tags@) matches Some(zapped) && (spec_get_multiplier_note(
            multipliers.0@,
            zapped,
        ) matches Some(note) && amount_msats <= note.multiplier.max_bet_sat() * 1000 && (
        store.active_id() matches Some(aid) && plan.value_msat == amount_msats && plan.expiry_secs
            == reveal_after_secs && plan.multiplier_note_id@ == note.note_id@
            && plan.nonce_commitment_note_id@ == aid && plan.index == spec_count_bets(
            store.zaps_seq(),
            aid,
            req.pubkey@,
        ) && plan.memo@ == memo_bytes(
            (amount_msats / 1000) as nat,
            note.multiplier,
            encode_utf8(aid),
            sha256_of(spec_nonce_of(*store, aid)),
            encode_utf8(note.note_id@),
            encode_utf8(req.pubkey@),
            encode_utf8(req.content@),
            plan.index as nat,
        ))))),
{
    let req = match zap_request {
        None => {
            return Err(IntakeError::MissingZapRequest);
        },
        Some(r) => r,
    };
    if req.kind != ZAP_REQUEST_KIND {
        return Err(IntakeError::NotZapRequest);
    }
    let zapped_note_id = match get_zapped_note_id(req) {
        None => {
            return Err(IntakeError::NoZappedNote);
        },
        Some(id) => id,
    };
    let note = match multipliers.get_multiplier_note(zapped_note_id.as_str()) {
        None => {
            return Err(IntakeError::UnknownMultiplier);
        },
        Some(n) => n,
    };
    let max_sat = note.multiplier.get_max_amount_sat();
    if amount_msats > max_sat * 1000 {
        return Err(IntakeError::AmountTooHigh);
    }
    let round = match store.get_active_nonce() {
        None => {
            return Err(IntakeError::NoActiveNonce);
        },
        Some(r) => r,
    };
    let index = store.count_bets_by_roller(&round.event_id, &req.pubkey);
    let commitment = nonce_commitment(round.nonce);
    let memo = zap_invoice_memo(
        round.event_id.as_str(),
        &commitment,
        &note,
        req.pubkey.as_str(),
        req.content.as_str(),
        amount_msats,
        index,
    );
    Ok(
        GameInvoicePlan {
            memo,
            value_msat: amount_msats,
            expiry_secs: reveal_after_secs,
            multiplier_note_id: note.note_id,
            nonce_commitment_note_id: round.event_id,
            index,
        },
    )
}

/// Records a fresh game bet, keyed by the payment hash of its minted
/// invoice, in state `GameZapInvoiceRequested`: the roller's intention to
/// bet. The bet must be anchored to a recorded nonce.
pub fn register_game_bet(
    store: &mut Store,
    payment_hash: String,
    invoice: String,
    amount_msat: u64,
    request: String,
    request_content: String,
    roller: String,
    multiplier_note_id: String,
    nonce_commitment_note_id: String,
    index: usize,
    bet_timestamp: u64,
) -> (r: Result<(), StoreError>)
    requires
        old(store).wf(),
    ensures
        final(store).wf(),
        final(store).nonces_seq() == old(store).nonces_seq(),
        final(store).active_id() == old(store).active_id(),
        final(store).expired_id() == old(store).expired_id(),
        match r {
            Ok(()) => (old(store).has_nonce(nonce_commitment_note_id@)
                || nonce_commitment_note_id@ == donation_sentinel()) && (forall|h2: Seq<char>|
                #[trigger] spec_find_zap(final(store).zaps_seq(), h2) == (if h2 == payment_hash@ {
                    Some(
                        (Zap {
                            roller,
                            invoice,
                            amount_msat,
                            request,
                            request_content,
                            multiplier_note_id,
                            nonce_commitment_note_id,
                            bet_state: BetState::GameZapInvoiceRequested,
                            index,
                            bet_timestamp,
                        }),
                    )
                } else {
                    spec_find_zap(old(store).zaps_seq(), h2)
                })),
            Err(e) => e == StoreError::UnknownCommitment && !old(store).has_nonce(
                nonce_commitment_note_id@,
            ) && nonce_commitment_note_id@ != donation_sentinel() && *final(store) == *old(store),
        },
{
    let zap = Zap {
        roller,
        invoice,
        amount_msat,
        request,
        request_content,
        multiplier_note_id,
        nonce_commitment_note_id,
        bet_state: BetState::GameZapInvoiceRequested,
        index,
        bet_timestamp,
    };
    store.upsert_zap(payment_hash, zap)
}

/// What the Lightning side needs to mint a donation invoice.
#[derive(Debug)]
pub struct DonationInvoicePlan {
    /// The value of the invoice, in millisatoshis.
    pub value_msat: u64,
    /// The invoice memo.
    pub memo: Vec<u8>,
    /// The description hash of the invoice: the digest of the serialized
    /// zap request, when there is one.
    pub description_hash: Option<[u8; 32]>,
    /// The invoice expiry, when one is set.
    pub expiry_secs: Option<u64>,
    /// Whether a donation record must be stored once the invoice is
    /// minted: only requests carrying a zap request are tracked.
    pub register: bool,
}

/// Validates a donation invoice request and plans the invoice.
///
/// Without a zap request the invoice is a plain donation and nothing will
/// be recorded. With one, the invoice commits to the serialized request
/// through its description hash, and the donation is recorded once the
/// invoice is minted.
pub fn request_donation_invoice(amount_msats: u64, zap_request: Option<&ZapRequest>) -> (r: Result<
    DonationInvoicePlan,
    IntakeError,
>)
    ensures
        r matches Err(IntakeError::NotZapRequest) <==> (zap_request matches Some(req) && req.kind
            != ZAP_REQUEST_KIND),
        r is Ok <==> (zap_request is None || (zap_request matches Some(req) && req.kind
            == ZAP_REQUEST_KIND)),
        r matches Ok(plan) ==> plan.value_msat == amount_msats && (zap_request is None ==> (
        plan.register == false && plan.memo@ == "Donation to NostrDice".spec_bytes()
            && plan.description_hash is None && plan.expiry_secs is None)) && (zap_request matches
        Some(req) ==> (plan.register == true && plan.memo@
            == "Thank you for the donation".spec_bytes() && (plan.description_hash matches Some(h)
            && h@ == sha256_of(encode_utf8(req.json@))) && plan.expiry_secs == Some(300u64))),
{
    let req = match zap_request {
        None => {
            return Ok(
                DonationInvoicePlan {
                    value_msat: amount_msats,
                    memo: "Donation to NostrDice".as_bytes_vec(),
                    description_hash: None,
                    expiry_secs: None,
                    register: false,
                },
            );
        },
        Some(r) => r,
    };
    if req.kind != ZAP_REQUEST_KIND {
        return Err(IntakeError::NotZapRequest);
    }
    let json_bytes = req.json.as_str().as_bytes_vec();
    let description_hash = sha256(json_bytes.as_slice());
    Ok(
        DonationInvoicePlan {
            value_msat: amount_msats,
            memo: "Thank you for the donation".as_bytes_vec(),
            description_hash: Some(description_hash),
            expiry_secs: Some(300),
            register: true,
        },
    )
}

/// Records a paid-for donation, keyed by the payment hash of its minted
/// invoice, in state `ZapInvoiceRequested` and anchored to the donation
/// sentinel rather than to a nonce.
pub fn register_donation_bet(
    store: &mut Store,
    payment_hash: String,
    invoice: String,
    amount_msat: u64,
    request: String,
    request_content: String,
    roller: String,
    bet_timestamp: u64,
)
    requires
        old(store).wf(),
    ensures
        final(store).wf(),
        final(store).nonces_seq() == old(store).nonces_seq(),
        final(store).active_id() == old(store).active_id(),
        final(store).expired_id() == old(store).expired_id(),
        forall|h2: Seq<char>|
            h2 != payment_hash@ ==> #[trigger] spec_find_zap(final(store).zaps_seq(), h2)
                == spec_find_zap(old(store).zaps_seq(), h2),
        spec_find_zap(final(store).zaps_seq(), payment_hash@) matches Some(z) && z.roller == roller
            && z.invoice == invoice && z.amount_msat == amount_msat && z.request == request
            && z.request_content == request_content && z.multiplier_note_id@ == Seq::<
            char,
        >::empty() && z.nonce_commitment_note_id@ == donation_sentinel() && z.bet_state
            == BetState::ZapInvoiceRequested && z.index == 0 && z.bet_timestamp == bet_timestamp,
{
    let zap = Zap {
        roller,
        invoice,
        amount_msat,
        request,
        request_content,
        multiplier_note_id: String::new(),
        nonce_commitment_note_id: donation_commitment_id(),
        bet_state: BetState::ZapInvoiceRequested,
        index: 0,
        bet_timestamp,
    };
    let res = store.upsert_zap(payment_hash, zap);
    proof {
        assert(res is Ok);
    }
}

} // verus!
