use vstd::prelude::*;
use crate::bet::BetState;

verus! {

/// An error of a store operation.
#[derive(Clone, Copy, Debug, PartialEq, Eq, Structural)]
pub enum StoreError {
    /// A nonce with this commitment id is already recorded.
    DuplicateCommitment,
    /// The named commitment id is not recorded in the nonce table.
    UnknownCommitment,
}

/// The commitment id that marks a donation: it anchors the bet to no
/// nonce. It is the all-zeros id, written out as the store writes ids.
pub open spec fn donation_sentinel() -> Seq<char> {
    Seq::new(64, |i: int| '0')
}

/// The donation sentinel as an executable value.
pub fn donation_commitment_id() -> (s: String)
    ensures
        s@ == donation_sentinel(),
{
    let s: String =
        "0000000000000000000000000000000000000000000000000000000000000000".to_owned();
    proof {
        reveal_strlit("0000000000000000000000000000000000000000000000000000000000000000");
        assert(s@ =~= donation_sentinel());
    }
    s
}

/// The record of a roller's bet, one per Lightning payment hash.
pub struct Zap {
    /// The player, as a bech32 npub.
    pub roller: String,
    /// The BOLT11 invoice minted for the bet, frozen at mint time.
    pub invoice: String,
    /// The value of the invoice, in millisatoshis.
    pub amount_msat: u64,
    /// The serialized signed zap-request event that carries the memo.
    pub request: String,
    /// The memo text of the zap request.
    pub request_content: String,
    /// The id of the multiplier note the player zapped.
    pub multiplier_note_id: String,
    /// The commitment id of the nonce the bet is anchored to, or the
    /// donation sentinel.
    pub nonce_commitment_note_id: String,
    /// Where the bet stands in the state machine.
    pub bet_state: BetState,
    /// How many bets this roller had already placed against this nonce
    /// when the bet was created.
    pub index: usize,
    /// When the bet was created, as seconds since the epoch.
    pub bet_timestamp: u64,
}

impl Clone for Zap {
    fn clone(&self) -> (r: Self)
        ensures
            r == *self,
    {
        Zap {
            roller: self.roller.clone(),
            invoice: self.invoice.clone(),
            amount_msat: self.amount_msat,
            request: self.request.clone(),
            request_content: self.request_content.clone(),
            multiplier_note_id: self.multiplier_note_id.clone(),
            nonce_commitment_note_id: self.nonce_commitment_note_id.clone(),
            bet_state: self.bet_state,
            index: self.index,
            bet_timestamp: self.bet_timestamp,
        }
    }
}

/// A round: a nonce and the id under which its commitment was published.
pub struct Round {
    /// The 32-byte nonce.
    pub nonce: [u8; 32],
    /// The id of the published commitment message.
    pub event_id: String,
}

impl Clone for Round {
    fn clone(&self) -> (r: Self)
        ensures
            r == *self,
    {
        Round { nonce: self.nonce, event_id: self.event_id.clone() }
    }
}

/// One row of the nonce table as it is persisted: the nonce written out
/// as 64 lowercase hex characters.
pub struct RoundRow {
    /// The nonce, as 64 lowercase hex characters.
    pub nonce: String,
    /// The id of the published commitment message.
    pub event_id: String,
}

/// A byte that is a lowercase hex digit.
pub open spec fn is_hex_byte(b: u8) -> bool {
    (48 <= b && b <= 57) || (97 <= b && b <= 102)
}

/// The value of a lowercase hex digit byte.
pub open spec fn hex_byte_val(b: u8) -> u8
    recommends
        is_hex_byte(b),
{
    if 48 <= b && b <= 57 {
        (b - 48) as u8
    } else {
        (b - 87) as u8
    }
}

/// Reads a persisted row back into a round. Succeeds exactly when the
/// nonce column holds 64 lowercase hex characters, and then returns the
/// round whose nonce encodes back to that column.
pub fn round_from_row(row: &RoundRow) -> (r: Option<Round>)
    ensures
        match r {
            Some(round) => round.event_id@ == row.event_id@ && crate::roll::hex_of(round.nonce@)
                == vstd::utf8::encode_utf8(row.nonce@),
            None => !(vstd::utf8::encode_utf8(row.nonce@).len() == 64 && (forall|j: int|
                0 <= j < 64 ==> is_hex_byte(#[trigger] vstd::utf8::encode_utf8(row.nonce@)[j]))),
        },
{
    let bytes = row.nonce.as_str().as_bytes_vec();
    if bytes.len() != 64 {
        return None;
    }
    let mut nonce: [u8; 32] = [0u8; 32];
    let mut i: usize = 0;
    while i < 32
        invariant
            i <= 32,
            bytes@.len() == 64,
            bytes@ == vstd::utf8::encode_utf8(row.nonce@),
            forall|k: int| 0 <= k < 2 * i ==> is_hex_byte(#[trigger] bytes@[k]),
            forall|k: int|
                0 <= k < i ==> #[trigger] nonce@[k] == hex_byte_val(bytes@[2 * k]) * 16
                    + hex_byte_val(bytes@[2 * k + 1]),
        decreases 32 - i,
    {
        let hi = bytes[2 * i];
        let lo = bytes[2 * i + 1];
        let hi_val: u8 = if 48 <= hi && hi <= 57 {
            hi - 48
        } else if 97 <= hi && hi <= 102 {
            hi - 87
        } else {
            return None;
        };
        let lo_val: u8 = if 48 <= lo && lo <= 57 {
            lo - 48
        } else if 97 <= lo && lo <= 102 {
            lo - 87
        } else {
            return None;
        };
        nonce[i] = hi_val * 16 + lo_val;
        i = i + 1;
    }
    proof {
        assert forall|j: int| 0 <= j < 64 implies crate::roll::hex_of(nonce@)[j] == bytes@[j] by {
            let k = j / 2;
            assert(nonce@[k] == hex_byte_val(bytes@[2 * k]) * 16 + hex_byte_val(bytes@[2 * k + 1]));
            assert(hex_byte_val(bytes@[2 * k]) < 16 && hex_byte_val(bytes@[2 * k + 1]) < 16);
            assert(nonce@[k] / 16 == hex_byte_val(bytes@[2 * k]) && nonce@[k] % 16 == hex_byte_val(
                bytes@[2 * k + 1],
            )) by (nonlinear_arith)
                requires
                    nonce@[k] == hex_byte_val(bytes@[2 * k]) * 16 + hex_byte_val(bytes@[2 * k + 1]),
                    hex_byte_val(bytes@[2 * k]) < 16,
                    hex_byte_val(bytes@[2 * k + 1]) < 16,
            ;
            if j % 2 == 0 {
                assert(crate::roll::hex_of(nonce@)[j] == crate::roll::hex_digit(
                    (nonce@[k] / 16) as u8,
                ));
            } else {
                assert(crate::roll::hex_of(nonce@)[j] == crate::roll::hex_digit(
                    (nonce@[k] % 16) as u8,
                ));
            }
        }
        assert(crate::roll::hex_of(nonce@) =~= bytes@);
    }
    Some(Round { nonce, event_id: row.event_id.clone() })
}

/// One row of the nonce table.
pub struct NonceRecord {
    /// The id of the published commitment message.
    pub event_id: String,
    /// The 32-byte nonce.
    pub nonce: [u8; 32],
}

/// One row of the bet table.
pub struct ZapRecord {
    /// The payment hash of the bet's invoice, the primary key.
    pub payment_hash: String,
    /// The bet itself.
    pub zap: Zap,
}

/// The first nonce record with the given commitment id, if any.
pub open spec fn spec_find_nonce(s: Seq<NonceRecord>, id: Seq<char>) -> Option<NonceRecord>
    decreases s.len(),
{
    if s.len() == 0 {
        None
    } else if s[0].event_id@ == id {
        Some(s[0])
    } else {
        spec_find_nonce(s.drop_first(), id)
    }
}

/// Appending a record does not disturb earlier lookups; a fresh id finds
/// the appended record.
pub proof fn lemma_find_nonce_push(s: Seq<NonceRecord>, rec: NonceRecord, id: Seq<char>)
    ensures
        spec_find_nonce(s.push(rec), id) == (if spec_find_nonce(s, id) is Some {
            spec_find_nonce(s, id)
        } else if rec.event_id@ == id {
            Some(rec)
        } else {
            None::<NonceRecord>
        }),
    decreases s.len(),
{
    if s.len() == 0 {
        assert(s.push(rec)[0] == rec);
        assert(s.push(rec).drop_first() =~= Seq::<NonceRecord>::empty());
    } else {
        assert(s.push(rec)[0] == s[0]);
        assert(s.push(rec).drop_first() =~= s.drop_first().push(rec));
        lemma_find_nonce_push(s.drop_first(), rec, id);
    }
}

/// The bet stored under the given payment hash, if any.
pub open spec fn spec_find_zap(s: Seq<ZapRecord>, h: Seq<char>) -> Option<Zap>
    decreases s.len(),
{
    if s.len() == 0 {
        None
    } else if s[0].payment_hash@ == h {
        Some(s[0].zap)
    } else {
        spec_find_zap(s.drop_first(), h)
    }
}

/// No two rows of the bet table share a payment hash.
pub open spec fn unique_hashes(s: Seq<ZapRecord>) -> bool {
    forall|i: int, j: int|
        #![trigger s[i], s[j]]
        0 <= i < j < s.len() ==> s[i].payment_hash@ != s[j].payment_hash@
}

/// Appending a row with a fresh hash does not disturb earlier lookups and
/// makes the new row visible under its hash.
pub proof fn lemma_find_zap_push(s: Seq<ZapRecord>, rec: ZapRecord, h: Seq<char>)
    ensures
        spec_find_zap(s.push(rec), h) == (if spec_find_zap(s, h) is Some {
            spec_find_zap(s, h)
        } else if rec.payment_hash@ == h {
            Some(rec.zap)
        } else {
            None::<Zap>
        }),
    decreases s.len(),
{
    let t = s.push(rec);
    if s.len() == 0 {
        assert(t[0] == rec);
        assert(t.drop_first() =~= Seq::<ZapRecord>::empty());
        if rec.payment_hash@ == h {
            assert(spec_find_zap(t, h) == Some(rec.zap));
        } else {
            assert(spec_find_zap(t, h) == spec_find_zap(t.drop_first(), h));
            assert(spec_find_zap(t, h) is None);
        }
    } else {
        assert(t[0] == s[0]);
        assert(t.drop_first() =~= s.drop_first().push(rec));
        lemma_find_zap_push(s.drop_first(), rec, h);
        if s[0].payment_hash@ == h {
            assert(spec_find_zap(t, h) == Some(s[0].zap));
            assert(spec_find_zap(s, h) == Some(s[0].zap));
        } else {
            assert(spec_find_zap(t, h) == spec_find_zap(s.drop_first().push(rec), h));
            assert(spec_find_zap(s, h) == spec_find_zap(s.drop_first(), h));
        }
    }
}

/// Replacing the row that holds a hash changes only the lookup of that
/// hash.
pub proof fn lemma_find_zap_update(s: Seq<ZapRecord>, k: int, rec: ZapRecord, h: Seq<char>)
    requires
        unique_hashes(s),
        0 <= k < s.len(),
        s[k].payment_hash@ == rec.payment_hash@,
    ensures
        spec_find_zap(s.update(k, rec), h) == (if rec.payment_hash@ == h {
            Some(rec.zap)
        } else {
            spec_find_zap(s, h)
        }),
    decreases s.len(),
{
    let t = s.update(k, rec);
    if k == 0 {
        assert(t[0] == rec);
        assert(t.drop_first() =~= s.drop_first());
        if rec.payment_hash@ != h && s[0].payment_hash@ == h {
            assert(false);
        }
    } else {
        assert(t[0] == s[0]);
        assert(t.drop_first() =~= s.drop_first().update(k - 1, rec));
        assert(unique_hashes(s.drop_first())) by {
            assert forall|i: int, j: int|
                0 <= i < j < s.drop_first().len() implies #[trigger] s.drop_first()[i].payment_hash@
                != #[trigger] s.drop_first()[j].payment_hash@ by {
                assert(s.drop_first()[i] == s[i + 1]);
                assert(s.drop_first()[j] == s[j + 1]);
            }
        }
        assert(s.drop_first()[k - 1] == s[k]);
        lemma_find_zap_update(s.drop_first(), k - 1, rec, h);
        if s[0].payment_hash@ == rec.payment_hash@ {
            assert(s.drop_first()[k - 1] == s[k]);
            assert(false);
        }
    }
}

/// The bets anchored to the given commitment id, in store order.
pub open spec fn spec_zaps_with_commitment(s: Seq<ZapRecord>, id: Seq<char>) -> Seq<Zap>
    decreases s.len(),
{
    if s.len() == 0 {
        Seq::empty()
    } else {
        spec_zaps_with_commitment(s.drop_last(), id) + (if s.last().zap.nonce_commitment_note_id@
            == id {
            seq![s.last().zap]
        } else {
            Seq::<Zap>::empty()
        })
    }
}

/// The bets whose timestamp lies strictly inside the window, in store
/// order.
pub open spec fn spec_zaps_in_window(s: Seq<ZapRecord>, start: u64, end: u64) -> Seq<Zap>
    decreases s.len(),
{
    if s.len() == 0 {
        Seq::empty()
    } else {
        spec_zaps_in_window(s.drop_last(), start, end) + (if start < s.last().zap.bet_timestamp
            && s.last().zap.bet_timestamp < end {
            seq![s.last().zap]
        } else {
            Seq::<Zap>::empty()
        })
    }
}

/// The payment hashes of the bets anchored to the given commitment id,
/// in store order.
pub open spec fn spec_hashes_with_commitment(s: Seq<ZapRecord>, id: Seq<char>) -> Seq<Seq<char>>
    decreases s.len(),
{
    if s.len() == 0 {
        Seq::empty()
    } else {
        spec_hashes_with_commitment(s.drop_last(), id) + (
        if s.last().zap.nonce_commitment_note_id@ == id {
            seq![s.last().payment_hash@]
        } else {
            Seq::<Seq<char>>::empty()
        })
    }
}

/// Each listed hash stands at some row anchored to the commitment.
pub proof fn lemma_hashes_member(s: Seq<ZapRecord>, id: Seq<char>, j: int)
    requires
        0 <= j < spec_hashes_with_commitment(s, id).len(),
    ensures
        exists|k: int|
            0 <= k < s.len() && (#[trigger] s[k]).payment_hash@ == spec_hashes_with_commitment(
                s,
                id,
            )[j] && s[k].zap.nonce_commitment_note_id@ == id,
    decreases s.len(),
{
    let hs = spec_hashes_with_commitment(s, id);
    let hsp = spec_hashes_with_commitment(s.drop_last(), id);
    if j < hsp.len() {
        lemma_hashes_member(s.drop_last(), id, j);
        let k = choose|k: int|
            0 <= k < s.drop_last().len() && (#[trigger] s.drop_last()[k]).payment_hash@ == hsp[j]
                && s.drop_last()[k].zap.nonce_commitment_note_id@ == id;
        assert(s.drop_last()[k] == s[k]);
        assert((s[k]).payment_hash@ == hs[j] && s[k].zap.nonce_commitment_note_id@ == id);
    } else {
        assert(s.last().zap.nonce_commitment_note_id@ == id);
        assert(hs[j] == s.last().payment_hash@);
        assert((s[s.len() - 1]).payment_hash@ == hs[j] && s[s.len()
            - 1].zap.nonce_commitment_note_id@ == id);
    }
}

/// A row anchored to the commitment contributes its hash to the list.
pub proof fn lemma_hashes_contains(s: Seq<ZapRecord>, id: Seq<char>, k: int)
    requires
        0 <= k < s.len(),
        s[k].zap.nonce_commitment_note_id@ == id,
    ensures
        exists|j: int|
            0 <= j < spec_hashes_with_commitment(s, id).len() && #[trigger] spec_hashes_with_commitment(
                s,
                id,
            )[j] == s[k].payment_hash@,
    decreases s.len(),
{
    let hs = spec_hashes_with_commitment(s, id);
    let hsp = spec_hashes_with_commitment(s.drop_last(), id);
    if k == s.len() - 1 {
        assert(hs[hsp.len() as int] == s[k].payment_hash@);
    } else {
        assert(s.drop_last()[k] == s[k]);
        lemma_hashes_contains(s.drop_last(), id, k);
        let j = choose|j: int|
            0 <= j < hsp.len() && #[trigger] hsp[j] == s.drop_last()[k].payment_hash@;
        assert(hs[j] == hsp[j]);
    }
}

/// With unique hashes, the lookup at a row's hash returns that row's bet.
pub proof fn lemma_find_at_index(s: Seq<ZapRecord>, k: int)
    requires
        unique_hashes(s),
        0 <= k < s.len(),
    ensures
        spec_find_zap(s, s[k].payment_hash@) == Some(s[k].zap),
    decreases s.len(),
{
    if s[0].payment_hash@ == s[k].payment_hash@ {
        if k != 0 {
            assert(s[0].payment_hash@ != s[k].payment_hash@);
        }
    } else {
        assert(unique_hashes(s.drop_first())) by {
            assert forall|a: int, b: int|
                0 <= a < b < s.drop_first().len() implies (#[trigger] s.drop_first()[a]).payment_hash@
                != (#[trigger] s.drop_first()[b]).payment_hash@ by {
                assert(s.drop_first()[a] == s[a + 1]);
                assert(s.drop_first()[b] == s[b + 1]);
            }
        }
        assert(s.drop_first()[k - 1] == s[k]);
        lemma_find_at_index(s.drop_first(), k - 1);
    }
}

/// With unique hashes the listed hashes are distinct.
pub proof fn lemma_hashes_distinct(s: Seq<ZapRecord>, id: Seq<char>)
    requires
        unique_hashes(s),
    ensures
        forall|i: int, j: int|
            0 <= i < j < spec_hashes_with_commitment(s, id).len()
                ==> #[trigger] spec_hashes_with_commitment(s, id)[i]
                != #[trigger] spec_hashes_with_commitment(s, id)[j],
    decreases s.len(),
{
    if s.len() > 0 {
        let hs = spec_hashes_with_commitment(s, id);
        let hsp = spec_hashes_with_commitment(s.drop_last(), id);
        assert(unique_hashes(s.drop_last())) by {
            assert forall|a: int, b: int|
                0 <= a < b < s.drop_last().len() implies (#[trigger] s.drop_last()[a]).payment_hash@
                != (#[trigger] s.drop_last()[b]).payment_hash@ by {
                assert(s.drop_last()[a] == s[a]);
                assert(s.drop_last()[b] == s[b]);
            }
        }
        lemma_hashes_distinct(s.drop_last(), id);
        assert forall|i: int, j: int| 0 <= i < j < hs.len() implies #[trigger] hs[i]
            != #[trigger] hs[j] by {
            if j < hsp.len() {
                assert(hs[i] == hsp[i]);
                assert(hs[j] == hsp[j]);
            } else {
                assert(s.last().zap.nonce_commitment_note_id@ == id);
                assert(hs[j] == s.last().payment_hash@);
                assert(hs[i] == hsp[i]);
                lemma_hashes_member(s.drop_last(), id, i);
                let k = choose|k: int|
                    0 <= k < s.drop_last().len() && (#[trigger] s.drop_last()[k]).payment_hash@
                        == hsp[i] && s.drop_last()[k].zap.nonce_commitment_note_id@ == id;
                assert(s.drop_last()[k] == s[k]);
                assert(s[k].payment_hash@ != s[s.len() - 1].payment_hash@);
            }
        }
    }
}

/// How many bets a roller holds against a commitment id.
pub open spec fn spec_count_bets(s: Seq<ZapRecord>, id: Seq<char>, roller: Seq<char>) -> nat
    decreases s.len(),
{
    if s.len() == 0 {
        0
    } else {
        spec_count_bets(s.drop_last(), id, roller) + (if s.last().zap.nonce_commitment_note_id@
            == id && s.last().zap.roller@ == roller {
            1nat
        } else {
            0nat
        })
    }
}

/// The durable state of the game: the append-only nonce table, the two
/// single-row pointers, and the bet table keyed by payment hash.
pub struct Store {
    nonces: Vec<NonceRecord>,
    active_nonce: Option<String>,
    latest_expired_nonce: Option<String>,
    zaps: Vec<ZapRecord>,
}

impl Store {
    /// The rows of the nonce table, in insertion order.
    pub closed spec fn nonces_seq(self) -> Seq<NonceRecord> {
        self.nonces@
    }

    /// The commitment id currently accepting bets, if any.
    pub closed spec fn active_id(self) -> Option<Seq<char>> {
        match self.active_nonce {
            Some(s) => Some(s@),
            None => None,
        }
    }

    /// The most recently expired commitment id whose reveal may still be
    /// pending, if any.
    pub closed spec fn expired_id(self) -> Option<Seq<char>> {
        match self.latest_expired_nonce {
            Some(s) => Some(s@),
            None => None,
        }
    }

    /// The rows of the bet table, in insertion order.
    pub closed spec fn zaps_seq(self) -> Seq<ZapRecord> {
        self.zaps@
    }

    /// The nonce table holds a row under this commitment id.
    pub open spec fn has_nonce(self, id: Seq<char>) -> bool {
        spec_find_nonce(self.nonces_seq(), id) is Some
    }

    /// A bet is anchored either to a recorded nonce or to the donation
    /// sentinel.
    pub open spec fn commitment_ok(self, z: Zap) -> bool {
        z.nonce_commitment_note_id@ == donation_sentinel() || self.has_nonce(
            z.nonce_commitment_note_id@,
        )
    }

    /// Well-formedness: the pointers reference recorded nonces, never the
    /// same one; commitment ids and payment hashes are unique; and every
    /// bet is anchored to a recorded nonce or to the donation sentinel.
    pub open spec fn wf(self) -> bool {
        &&& (self.active_id() matches Some(id) ==> self.has_nonce(id))
        &&& (self.expired_id() matches Some(id) ==> self.has_nonce(id))
        &&& !(self.active_id() is Some && self.active_id() == self.expired_id())
        &&& (forall|i: int, j: int|
            #![trigger self.nonces_seq()[i], self.nonces_seq()[j]]
            0 <= i < j < self.nonces_seq().len() ==> self.nonces_seq()[i].event_id@
                != self.nonces_seq()[j].event_id@)
        &&& unique_hashes(self.zaps_seq())
        &&& (forall|i: int|
            0 <= i < self.zaps_seq().len() ==> self.commitment_ok(
                #[trigger] self.zaps_seq()[i].zap,
            ))
    }

    /// An empty store.
    pub fn new() -> (s: Store)
        ensures
            s.wf(),
            s.nonces_seq() =~= Seq::<NonceRecord>::empty(),
            s.active_id() is None,
            s.expired_id() is None,
            s.zaps_seq() =~= Seq::<ZapRecord>::empty(),
    {
        Store { nonces: Vec::new(), active_nonce: None, latest_expired_nonce: None, zaps: Vec::new() }
    }

    /// The index of the nonce row holding this commitment id, if any.
    fn nonce_index(&self, id: &String) -> (r: Option<usize>)
        ensures
            match r {
                Some(i) => i < self.nonces_seq().len() && self.nonces_seq()[i as int].event_id@
                    == id@ && spec_find_nonce(self.nonces_seq(), id@) == Some(
                    self.nonces_seq()[i as int],
                ),
                None => spec_find_nonce(self.nonces_seq(), id@) is None,
            },
    {
        proof {
            assert(self.nonces@.skip(0) =~= self.nonces@);
        }
        let mut i: usize = 0;
        while i < self.nonces.len()
            invariant
                i <= self.nonces@.len(),
                spec_find_nonce(self.nonces@, id@) == spec_find_nonce(
                    self.nonces@.skip(i as int),
                    id@,
                ),
                self.nonces@ == self.nonces_seq(),
            decreases self.nonces@.len() - i,
        {
            proof {
                assert(self.nonces@.skip(i as int)[0] == self.nonces@[i as int]);
                assert(self.nonces@.skip(i as int).drop_first() =~= self.nonces@.skip(i + 1));
            }
            if self.nonces[i].event_id == *id {
                return Some(i);
            }
            i = i + 1;
        }
        proof {
            assert(self.nonces@.skip(self.nonces@.len() as int).len() == 0);
        }
        None
    }

    /// The index of the bet row holding this payment hash, if any.
    fn zap_index(&self, h: &String) -> (r: Option<usize>)
        ensures
            match r {
                Some(i) => i < self.zaps_seq().len() && self.zaps_seq()[i as int].payment_hash@
                    == h@ && spec_find_zap(self.zaps_seq(), h@) == Some(
                    self.zaps_seq()[i as int].zap,
                ),
                None => spec_find_zap(self.zaps_seq(), h@) is None,
            },
    {
        proof {
            assert(self.zaps@.skip(0) =~= self.zaps@);
        }
        let mut i: usize = 0;
        while i < self.zaps.len()
            invariant
                i <= self.zaps@.len(),
                spec_find_zap(self.zaps@, h@) == spec_find_zap(self.zaps@.skip(i as int), h@),
                self.zaps@ == self.zaps_seq(),
            decreases self.zaps@.len() - i,
        {
            proof {
                assert(self.zaps@.skip(i as int)[0] == self.zaps@[i as int]);
                assert(self.zaps@.skip(i as int).drop_first() =~= self.zaps@.skip(i + 1));
            }
            if self.zaps[i].payment_hash == *h {
                return Some(i);
            }
            i = i + 1;
        }
        proof {
            assert(self.zaps@.skip(self.zaps@.len() as int).len() == 0);
        }
        None
    }

    /// Records a fresh nonce and marks it as the one accepting bets.
    ///
    /// Fails without touching the store when the commitment id is already
    /// recorded: the nonce table is append-only.
    pub fn set_active_nonce(&mut self, round: Round) -> (r: Result<(), StoreError>)
        requires
            old(self).wf(),
        ensures
            final(self).wf(),
            final(self).zaps_seq() == old(self).zaps_seq(),
            final(self).expired_id() == old(self).expired_id(),
            match r {
                Ok(()) => !old(self).has_nonce(round.event_id@) && final(self).nonces_seq()
                    =~= old(self).nonces_seq().push(
                    (NonceRecord { event_id: round.event_id, nonce: round.nonce }),
                ) && final(self).active_id() == Some(round.event_id@),
                Err(e) => e == StoreError::DuplicateCommitment && old(self).has_nonce(
                    round.event_id@,
                ) && *final(self) == *old(self),
            },
    {
        if self.nonce_index(&round.event_id).is_some() {
            return Err(StoreError::DuplicateCommitment);
        }
        let ghost old_nonces = self.nonces@;
        let rec = NonceRecord { event_id: round.event_id, nonce: round.nonce };
        let ghost grec = rec;
        let ghost gid = rec.event_id@;
        self.nonces.push(rec);
        self.active_nonce = Some(clone_id(&self.nonces, self.nonces.len() - 1));
        proof {
            assert forall|id2: Seq<char>| #[trigger]
                spec_find_nonce(old_nonces, id2) is Some implies spec_find_nonce(
                self.nonces@,
                id2,
            ) is Some by {
                lemma_find_nonce_push(old_nonces, grec, id2);
            }
            lemma_find_nonce_push(old_nonces, grec, gid);
            assert(self.has_nonce(gid));
            assert forall|i: int, j: int|
                0 <= i < j < self.nonces@.len() implies #[trigger] self.nonces@[i].event_id@
                != #[trigger] self.nonces@[j].event_id@ by {
                if j < old_nonces.len() {
                    assert(self.nonces@[i] == old_nonces[i]);
                    assert(self.nonces@[j] == old_nonces[j]);
                } else {
                    assert(self.nonces@[j] == grec);
                    assert(self.nonces@[i] == old_nonces[i]);
                    if old_nonces[i].event_id@ == gid {
                        lemma_find_nonce_present(old_nonces, i, gid);
                    }
                }
            }
            assert forall|i: int| 0 <= i < self.zaps_seq().len() implies self.commitment_ok(
                #[trigger] self.zaps_seq()[i].zap,
            ) by {
                assert(old(self).commitment_ok(old(self).zaps_seq()[i].zap));
                if old(self).has_nonce(self.zaps_seq()[i].zap.nonce_commitment_note_id@) {
                    lemma_find_nonce_push(
                        old_nonces,
                        grec,
                        self.zaps_seq()[i].zap.nonce_commitment_note_id@,
                    );
                }
            }
            match old(self).expired_id() {
                Some(eid) => {
                    lemma_find_nonce_push(old_nonces, grec, eid);
                    lemma_find_nonce_fresh(old_nonces, gid, eid);
                },
                None => {},
            }
        }
        Ok(())
    }

    /// Clears the active pointer and hands back the round it pointed at,
    /// so that the caller can reveal it. After the call no nonce accepts
    /// bets.
    pub fn unset_active_nonce(&mut self) -> (r: Option<Round>)
        requires
            old(self).wf(),
        ensures
            final(self).wf(),
            final(self).active_id() is None,
            final(self).nonces_seq() == old(self).nonces_seq(),
            final(self).expired_id() == old(self).expired_id(),
            final(self).zaps_seq() == old(self).zaps_seq(),
            match r {
                Some(round) => old(self).active_id() == Some(round.event_id@) && spec_find_nonce(
                    old(self).nonces_seq(),
                    round.event_id@,
                ) == Some((NonceRecord { event_id: round.event_id, nonce: round.nonce })),
                None => old(self).active_id() is None && *final(self) == *old(self),
            },
    {
        let id = match &self.active_nonce {
            None => {
                return None;
            },
            Some(id) => id.clone(),
        };
        self.active_nonce = None;
        match self.nonce_index(&id) {
            Some(i) => {
                let rec = &self.nonces[i];
                let round = Round { nonce: rec.nonce, event_id: rec.event_id.clone() };
                proof {
                    assert(spec_find_nonce(self.nonces@, id@) == Some(self.nonces@[i as int]));
                    assert((NonceRecord { event_id: round.event_id, nonce: round.nonce })
                        == self.nonces@[i as int]);
                }
                Some(round)
            },
            None => {
                proof {
                    assert(false);
                }
                None
            },
        }
    }

    /// The round currently accepting bets, if any.
    pub fn get_active_nonce(&self) -> (r: Option<Round>)
        requires
            self.wf(),
        ensures
            match r {
                Some(round) => self.active_id() == Some(round.event_id@) && spec_find_nonce(
                    self.nonces_seq(),
                    round.event_id@,
                ) == Some((NonceRecord { event_id: round.event_id, nonce: round.nonce })),
                None => self.active_id() is None,
            },
    {
        let id = match &self.active_nonce {
            None => {
                return None;
            },
            Some(id) => id.clone(),
        };
        match self.nonce_index(&id) {
            Some(i) => {
                let rec = &self.nonces[i];
                Some(Round { nonce: rec.nonce, event_id: rec.event_id.clone() })
            },
            None => {
                proof {
                    assert(false);
                }
                None
            },
        }
    }

    /// Points the latest-expired pointer at a recorded nonce, so that its
    /// reveal and its payouts may proceed.
    ///
    /// Fails without touching the store when the commitment id is unknown,
    /// or when it is still the active one: a nonce is never expired and
    /// active at once.
    pub fn set_latest_expired_nonce(&mut self, round: Round) -> (r: Result<(), StoreError>)
        requires
            old(self).wf(),
        ensures
            final(self).wf(),
            final(self).nonces_seq() == old(self).nonces_seq(),
            final(self).zaps_seq() == old(self).zaps_seq(),
            final(self).active_id() == old(self).active_id(),
            match r {
                Ok(()) => old(self).has_nonce(round.event_id@) && old(self).active_id() != Some(
                    round.event_id@,
                ) && final(self).expired_id() == Some(round.event_id@),
                Err(e) => e == StoreError::UnknownCommitment && *final(self) == *old(self) && !(old(
                    self,
                ).has_nonce(round.event_id@) && old(self).active_id() != Some(round.event_id@)),
            },
    {
        if self.nonce_index(&round.event_id).is_none() {
            return Err(StoreError::UnknownCommitment);
        }
        let still_active = match &self.active_nonce {
            Some(a) => *a == round.event_id,
            None => false,
        };
        if still_active {
            return Err(StoreError::UnknownCommitment);
        }
        self.latest_expired_nonce = Some(round.event_id);
        Ok(())
    }

    /// The most recently expired round, if any.
    pub fn get_latest_expired_nonce(&self) -> (r: Option<Round>)
        requires
            self.wf(),
        ensures
            match r {
                Some(round) => self.expired_id() == Some(round.event_id@) && spec_find_nonce(
                    self.nonces_seq(),
                    round.event_id@,
                ) == Some((NonceRecord { event_id: round.event_id, nonce: round.nonce })),
                None => self.expired_id() is None,
            },
    {
        let id = match &self.latest_expired_nonce {
            None => {
                return None;
            },
            Some(id) => id.clone(),
        };
        match self.nonce_index(&id) {
            Some(i) => {
                let rec = &self.nonces[i];
                Some(Round { nonce: rec.nonce, event_id: rec.event_id.clone() })
            },
            None => {
                proof {
                    assert(false);
                }
                None
            },
        }
    }

    /// Moves the active nonce to the latest-expired pointer, as one store
    /// transition, and hands back the expired round. The round is no
    /// longer active when the call returns, so its reveal may be
    /// scheduled.
    pub fn expire_active_nonce(&mut self) -> (r: Option<Round>)
        requires
            old(self).wf(),
        ensures
            final(self).wf(),
            final(self).active_id() is None,
            final(self).nonces_seq() == old(self).nonces_seq(),
            final(self).zaps_seq() == old(self).zaps_seq(),
            match r {
                Some(round) => old(self).active_id() == Some(round.event_id@) && final(self).expired_id()
                    == Some(round.event_id@) && spec_find_nonce(
                    old(self).nonces_seq(),
                    round.event_id@,
                ) == Some((NonceRecord { event_id: round.event_id, nonce: round.nonce })),
                None => old(self).active_id() is None && *final(self) == *old(self),
            },
    {
        let round = match self.unset_active_nonce() {
            None => {
                return None;
            },
            Some(round) => round,
        };
        self.latest_expired_nonce = Some(round.event_id.clone());
        Some(round)
    }

    /// Writes a bet under its payment hash: a single atomic upsert. A hash
    /// already present is overwritten in place; a fresh one is appended.
    ///
    /// Fails without touching the store when the bet is anchored neither
    /// to a recorded nonce nor to the donation sentinel.
    pub fn upsert_zap(&mut self, payment_hash: String, zap: Zap) -> (r: Result<(), StoreError>)
        requires
            old(self).wf(),
        ensures
            final(self).wf(),
            final(self).nonces_seq() == old(self).nonces_seq(),
            final(self).active_id() == old(self).active_id(),
            final(self).expired_id() == old(self).expired_id(),
            match r {
                Ok(()) => old(self).commitment_ok(zap) && (forall|h2: Seq<char>|
                    #[trigger] spec_find_zap(final(self).zaps_seq(), h2) == (if h2 == payment_hash@ {
                        Some(zap)
                    } else {
                        spec_find_zap(old(self).zaps_seq(), h2)
                    })) && (spec_find_zap(old(self).zaps_seq(), payment_hash@) is None
                    ==> final(self).zaps_seq() =~= old(self).zaps_seq().push(
                    (ZapRecord { payment_hash, zap }),
                )) && (spec_find_zap(old(self).zaps_seq(), payment_hash@) is Some
                    ==> (exists|k: int|
                    0 <= k < old(self).zaps_seq().len() && (#[trigger] old(self).zaps_seq()[k]).payment_hash@
                        == payment_hash@ && final(self).zaps_seq() =~= old(self).zaps_seq().update(
                        k,
                        (ZapRecord { payment_hash, zap }),
                    ))),
                Err(e) => e == StoreError::UnknownCommitment && !old(self).commitment_ok(zap)
                    && *final(self) == *old(self),
            },
    {
        let sentinel = donation_commitment_id();
        let anchored = if zap.nonce_commitment_note_id == sentinel {
            true
        } else {
            self.nonce_index(&zap.nonce_commitment_note_id).is_some()
        };
        if !anchored {
            return Err(StoreError::UnknownCommitment);
        }
        let ghost old_zaps = self.zaps@;
        let rec = ZapRecord { payment_hash, zap };
        let ghost grec = rec;
        match self.zap_index(&rec.payment_hash) {
            Some(i) => {
                self.zaps[i] = rec;
                proof {
                    assert forall|h2: Seq<char>| #[trigger]
                        spec_find_zap(self.zaps@, h2) == (if h2 == grec.payment_hash@ {
                            Some(grec.zap)
                        } else {
                            spec_find_zap(old_zaps, h2)
                        }) by {
                        lemma_find_zap_update(old_zaps, i as int, grec, h2);
                    }
                    assert forall|a: int, b: int|
                        0 <= a < b < self.zaps@.len() implies #[trigger] self.zaps@[a].payment_hash@
                        != #[trigger] self.zaps@[b].payment_hash@ by {
                        assert(old_zaps[a].payment_hash@ != old_zaps[b].payment_hash@);
                        if a != i as int {
                            assert(self.zaps@[a] == old_zaps[a]);
                        }
                        if b != i as int {
                            assert(self.zaps@[b] == old_zaps[b]);
                        }
                    }
                    assert forall|k: int| 0 <= k < self.zaps_seq().len() implies self.commitment_ok(
                        #[trigger] self.zaps_seq()[k].zap,
                    ) by {
                        if k != i as int {
                            assert(self.zaps_seq()[k] == old_zaps[k]);
                            assert(old(self).commitment_ok(old_zaps[k].zap));
                        }
                    }
                }
                Ok(())
            },
            None => {
                self.zaps.push(rec);
                proof {
                    assert forall|h2: Seq<char>| #[trigger]
                        spec_find_zap(self.zaps@, h2) == (if h2 == grec.payment_hash@ {
                            Some(grec.zap)
                        } else {
                            spec_find_zap(old_zaps, h2)
                        }) by {
                        lemma_find_zap_push(old_zaps, grec, h2);
                    }
                    assert forall|a: int, b: int|
                        0 <= a < b < self.zaps@.len() implies #[trigger] self.zaps@[a].payment_hash@
                        != #[trigger] self.zaps@[b].payment_hash@ by {
                        if b < old_zaps.len() {
                            assert(self.zaps@[a] == old_zaps[a]);
                            assert(self.zaps@[b] == old_zaps[b]);
                        } else {
                            assert(self.zaps@[b] == grec);
                            assert(self.zaps@[a] == old_zaps[a]);
                            if old_zaps[a].payment_hash@ == grec.payment_hash@ {
                                lemma_find_zap_present(old_zaps, a, grec.payment_hash@);
                            }
                        }
                    }
                    assert forall|k: int| 0 <= k < self.zaps_seq().len() implies self.commitment_ok(
                        #[trigger] self.zaps_seq()[k].zap,
                    ) by {
                        if k < old_zaps.len() {
                            assert(self.zaps_seq()[k] == old_zaps[k]);
                            assert(old(self).commitment_ok(old_zaps[k].zap));
                        } else {
                            assert(self.zaps_seq()[k].zap == grec.zap);
                        }
                    }
                }
                Ok(())
            },
        }
    }

    /// The nonce recorded under this commitment id, if any.
    pub fn get_nonce(&self, event_id: &String) -> (r: Option<[u8; 32]>)
        ensures
            match r {
                Some(n) => spec_find_nonce(self.nonces_seq(), event_id@) matches Some(rec)
                    && rec.nonce == n,
                None => spec_find_nonce(self.nonces_seq(), event_id@) is None,
            },
            r is Some == self.has_nonce(event_id@),
    {
        match self.nonce_index(event_id) {
            Some(i) => {
                let rec = &self.nonces[i];
                Some(rec.nonce)
            },
            None => None,
        }
    }

    /// The bet stored under this payment hash, if any.
    pub fn get_zap(&self, payment_hash: &String) -> (r: Option<Zap>)
        ensures
            r == spec_find_zap(self.zaps_seq(), payment_hash@),
    {
        match self.zap_index(payment_hash) {
            Some(i) => Some(self.zaps[i].zap.clone()),
            None => None,
        }
    }

    /// All bets anchored to this commitment id, in store order.
    pub fn get_zaps_by_event_id(&self, event_id: &String) -> (r: Vec<Zap>)
        ensures
            r@ =~= spec_zaps_with_commitment(self.zaps_seq(), event_id@),
    {
        let mut r: Vec<Zap> = Vec::new();
        let mut i: usize = 0;
        while i < self.zaps.len()
            invariant
                i <= self.zaps@.len(),
                self.zaps@ == self.zaps_seq(),
                r@ =~= spec_zaps_with_commitment(self.zaps@.take(i as int), event_id@),
            decreases self.zaps@.len() - i,
        {
            proof {
                assert(self.zaps@.take(i + 1).drop_last() =~= self.zaps@.take(i as int));
                assert(self.zaps@.take(i + 1).last() == self.zaps@[i as int]);
            }
            if self.zaps[i].zap.nonce_commitment_note_id == *event_id {
                r.push(self.zaps[i].zap.clone());
            }
            proof {
                assert(r@ =~= spec_zaps_with_commitment(self.zaps@.take(i + 1), event_id@));
            }
            i = i + 1;
        }
        proof {
            assert(self.zaps@.take(self.zaps@.len() as int) =~= self.zaps@);
        }
        r
    }

    /// The payment hashes of all bets anchored to this commitment id, in
    /// store order: the keys the payout dispatcher walks at the end of a
    /// round.
    pub fn get_hashes_by_event_id(&self, event_id: &String) -> (r: Vec<String>)
        ensures
            r@.map_values(|h: String| h@) =~= spec_hashes_with_commitment(
                self.zaps_seq(),
                event_id@,
            ),
    {
        let mut r: Vec<String> = Vec::new();
        let mut i: usize = 0;
        while i < self.zaps.len()
            invariant
                i <= self.zaps@.len(),
                self.zaps@ == self.zaps_seq(),
                r@.map_values(|h: String| h@) =~= spec_hashes_with_commitment(
                    self.zaps@.take(i as int),
                    event_id@,
                ),
            decreases self.zaps@.len() - i,
        {
            proof {
                assert(self.zaps@.take(i + 1).drop_last() =~= self.zaps@.take(i as int));
                assert(self.zaps@.take(i + 1).last() == self.zaps@[i as int]);
            }
            if self.zaps[i].zap.nonce_commitment_note_id == *event_id {
                let ghost r_prev = r@;
                r.push(self.zaps[i].payment_hash.clone());
                proof {
                    assert(r@ =~= r_prev.push(self.zaps@[i as int].payment_hash));
                    assert(r@.map_values(|h: String| h@) =~= r_prev.map_values(
                        |h: String| h@,
                    ).push(self.zaps@[i as int].payment_hash@));
                }
            }
            proof {
                assert(r@.map_values(|h: String| h@) =~= spec_hashes_with_commitment(
                    self.zaps@.take(i + 1),
                    event_id@,
                ));
            }
            i = i + 1;
        }
        proof {
            assert(self.zaps@.take(self.zaps@.len() as int) =~= self.zaps@);
        }
        r
    }

    /// All bets whose timestamp lies strictly inside the window, in store
    /// order.
    pub fn get_zaps_in_time_window(&self, start_time: u64, end_time: u64) -> (r: Vec<Zap>)
        ensures
            r@ =~= spec_zaps_in_window(self.zaps_seq(), start_time, end_time),
    {
        let mut r: Vec<Zap> = Vec::new();
        let mut i: usize = 0;
        while i < self.zaps.len()
            invariant
                i <= self.zaps@.len(),
                self.zaps@ == self.zaps_seq(),
                r@ =~= spec_zaps_in_window(self.zaps@.take(i as int), start_time, end_time),
            decreases self.zaps@.len() - i,
        {
            proof {
                assert(self.zaps@.take(i + 1).drop_last() =~= self.zaps@.take(i as int));
                assert(self.zaps@.take(i + 1).last() == self.zaps@[i as int]);
            }
            if start_time < self.zaps[i].zap.bet_timestamp && self.zaps[i].zap.bet_timestamp
                < end_time {
                r.push(self.zaps[i].zap.clone());
            }
            proof {
                assert(r@ =~= spec_zaps_in_window(self.zaps@.take(i + 1), start_time, end_time));
            }
            i = i + 1;
        }
        proof {
            assert(self.zaps@.take(self.zaps@.len() as int) =~= self.zaps@);
        }
        r
    }

    /// How many bets this roller already holds against this commitment id:
    /// the index of the roller's next bet.
    pub fn count_bets_by_roller(&self, event_id: &String, roller: &String) -> (r: usize)
        ensures
            r == spec_count_bets(self.zaps_seq(), event_id@, roller@),
    {
        let mut r: usize = 0;
        let mut i: usize = 0;
        while i < self.zaps.len()
            invariant
                i <= self.zaps@.len(),
                self.zaps@ == self.zaps_seq(),
                r <= i,
                r == spec_count_bets(self.zaps@.take(i as int), event_id@, roller@),
            decreases self.zaps@.len() - i,
        {
            proof {
                assert(self.zaps@.take(i + 1).drop_last() =~= self.zaps@.take(i as int));
                assert(self.zaps@.take(i + 1).last() == self.zaps@[i as int]);
            }
            if self.zaps[i].zap.nonce_commitment_note_id == *event_id && self.zaps[i].zap.roller
                == *roller {
                r = r + 1;
            }
            i = i + 1;
        }
        proof {
            assert(self.zaps@.take(self.zaps@.len() as int) =~= self.zaps@);
        }
        r
    }
}

/// No commitment id is ever both the active nonce and the latest expired
/// one: a well-formed store keeps the two pointers apart, and every store
/// operation keeps the store well-formed.
pub proof fn lemma_nonce_exclusivity(s: Store)
    requires
        s.wf(),
    ensures
        !(s.active_id() is Some && s.active_id() == s.expired_id()),
{
}

/// Every bet in a well-formed store is anchored to a commitment that the
/// append-only nonce table already holds, or to the donation sentinel:
/// the commitment was recorded before the bet was.
pub proof fn lemma_commit_before_bet(s: Store, h: Seq<char>)
    requires
        s.wf(),
        spec_find_zap(s.zaps_seq(), h) is Some,
    ensures
        spec_find_zap(s.zaps_seq(), h) matches Some(z) ==> z.nonce_commitment_note_id@
            == donation_sentinel() || s.has_nonce(z.nonce_commitment_note_id@),
{
    lemma_find_zap_member(s.zaps_seq(), h);
    let i = choose|i: int|
        0 <= i < s.zaps_seq().len() && (#[trigger] s.zaps_seq()[i]).payment_hash@ == h
            && spec_find_zap(s.zaps_seq(), h) == Some(s.zaps_seq()[i].zap);
    assert(s.commitment_ok(s.zaps_seq()[i].zap));
}

/// A record found at an index is found by the lookup of its id.
proof fn lemma_find_nonce_present(s: Seq<NonceRecord>, i: int, id: Seq<char>)
    requires
        0 <= i < s.len(),
        s[i].event_id@ == id,
    ensures
        spec_find_nonce(s, id) is Some,
    decreases s.len(),
{
    if s[0].event_id@ == id {
    } else {
        assert(s.drop_first()[i - 1] == s[i]);
        lemma_find_nonce_present(s.drop_first(), i - 1, id);
    }
}

/// A row found at an index is found by the lookup of its hash.
proof fn lemma_find_zap_present(s: Seq<ZapRecord>, i: int, h: Seq<char>)
    requires
        0 <= i < s.len(),
        s[i].payment_hash@ == h,
    ensures
        spec_find_zap(s, h) is Some,
    decreases s.len(),
{
    if s[0].payment_hash@ == h {
    } else {
        assert(s.drop_first()[i - 1] == s[i]);
        lemma_find_zap_present(s.drop_first(), i - 1, h);
    }
}

/// A bet found by lookup stands at some row of the table.
pub proof fn lemma_find_zap_member(s: Seq<ZapRecord>, h: Seq<char>)
    requires
        spec_find_zap(s, h) is Some,
    ensures
        exists|i: int|
            0 <= i < s.len() && (#[trigger] s[i]).payment_hash@ == h && spec_find_zap(s, h)
                == Some(s[i].zap),
    decreases s.len(),
{
    if s[0].payment_hash@ == h {
        assert(s[0].payment_hash@ == h && spec_find_zap(s, h) == Some(s[0].zap));
    } else {
        lemma_find_zap_member(s.drop_first(), h);
        let i = choose|i: int|
            0 <= i < s.drop_first().len() && (#[trigger] s.drop_first()[i]).payment_hash@ == h
                && spec_find_zap(s.drop_first(), h) == Some(s.drop_first()[i].zap);
        assert(s[i + 1] == s.drop_first()[i]);
    }
}

/// A fresh commitment id differs from every id that a lookup finds.
proof fn lemma_find_nonce_fresh(s: Seq<NonceRecord>, fresh: Seq<char>, id: Seq<char>)
    requires
        spec_find_nonce(s, fresh) is None,
        spec_find_nonce(s, id) is Some,
    ensures
        fresh != id,
    decreases s.len(),
{
    if s.len() > 0 {
        if s[0].event_id@ == id {
        } else {
            lemma_find_nonce_fresh(s.drop_first(), fresh, id);
        }
    }
}

/// Copies the commitment id stored at an index of the nonce table.
fn clone_id(nonces: &Vec<NonceRecord>, i: usize) -> (r: String)
    requires
        i < nonces@.len(),
    ensures
        r@ == nonces@[i as int].event_id@,
{
    nonces[i].event_id.clone()
}

} // verus!
