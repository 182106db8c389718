use vstd::prelude::*;
use vstd::string::StrSliceExecFns;
use vstd::string::StringSliceAdditionalSpecFns;
use vstd::utf8::encode_utf8;
use crate::multiplier::Multiplier;
use crate::multiplier::MultiplierNote;
use crate::roll::dec_of;
use crate::roll::hex_digit;
use crate::roll::hex_encode;
use crate::roll::hex_of;
use crate::roll::sha256;
use crate::roll::sha256_of;
use crate::roll::u64_to_decimal;

verus! {

/// The bet memo written into a game invoice, byte for byte: the terms of
/// the bet, the anchoring commitment, the chosen multiplier note, the
/// roller and the hash of the roller's own memo text.
pub open spec fn memo_bytes(
    sats: nat,
    m: Multiplier,
    note_id: Seq<u8>,
    commitment: Seq<u8>,
    mult_note_id: Seq<u8>,
    npub: Seq<u8>,
    content: Seq<u8>,
    index: nat,
) -> Seq<u8> {
    "Bet ".spec_bytes() + dec_of(sats) + " sats that you will roll a number smaller than ".spec_bytes()
        + dec_of(m.threshold() as nat) + ", to multiply your wager by ".spec_bytes() + encode_utf8(
        m.label(),
    ) + ". nonce_commitment_note_id: ".spec_bytes() + note_id + ", nonce_commitment: ".spec_bytes()
        + hex_of(commitment) + ", multiplier_note_id: ".spec_bytes() + mult_note_id
        + ", roller_npub: ".spec_bytes() + npub + ", memo_hash: ".spec_bytes() + hex_of(
        sha256_of(content),
    ) + ", index: ".spec_bytes() + dec_of(index)
}

/// Appends the bytes of an ASCII piece of the memo.
fn push_lit(out: &mut Vec<u8>, lit: &str)
    ensures
        final(out)@ == old(out)@ + lit.spec_bytes(),
{
    let mut bytes = lit.as_bytes_vec();
    out.append(&mut bytes);
}

/// Builds the memo of a game invoice.
///
/// The roller can verify the terms of the bet before paying: the note id
/// of their chosen multiplier, their own npub, and the hash of their memo
/// text all stand in the invoice they are asked to pay.
pub fn zap_invoice_memo(
    nonce_commitment_note_id: &str,
    nonce_commitment: &[u8; 32],
    multiplier_note: &MultiplierNote,
    roller_npub: &str,
    zap_memo: &str,
    amount_msats: u64,
    index: usize,
) -> (r: Vec<u8>)
    ensures
        r@ == memo_bytes(
            (amount_msats / 1000) as nat,
            multiplier_note.multiplier,
            nonce_commitment_note_id.spec_bytes(),
            nonce_commitment@,
            encode_utf8(multiplier_note.note_id@),
            roller_npub.spec_bytes(),
            zap_memo.spec_bytes(),
            index as nat,
        ),
{
    let mut out: Vec<u8> = Vec::new();
    push_lit(&mut out, "Bet ");
    let mut sats = u64_to_decimal(amount_msats / 1000);
    out.append(&mut sats);
    push_lit(&mut out, " sats that you will roll a number smaller than ");
    let mut threshold = u64_to_decimal(multiplier_note.multiplier.get_lower_than() as u64);
    out.append(&mut threshold);
    push_lit(&mut out, ", to multiply your wager by ");
    let label = multiplier_note.multiplier.get_content();
    let mut label_bytes = label.as_str().as_bytes_vec();
    out.append(&mut label_bytes);
    push_lit(&mut out, ". nonce_commitment_note_id: ");
    let mut note_id = nonce_commitment_note_id.as_bytes_vec();
    out.append(&mut note_id);
    push_lit(&mut out, ", nonce_commitment: ");
    let mut commitment_hex = hex_encode(nonce_commitment.as_slice());
    out.append(&mut commitment_hex);
    push_lit(&mut out, ", multiplier_note_id: ");
    let mut mult_note_id = multiplier_note.note_id.as_str().as_bytes_vec();
    out.append(&mut mult_note_id);
    push_lit(&mut out, ", roller_npub: ");
    let mut npub = roller_npub.as_bytes_vec();
    out.append(&mut npub);
    push_lit(&mut out, ", memo_hash: ");
    let content_bytes = zap_memo.as_bytes_vec();
    let memo_hash = sha256(content_bytes.as_slice());
    let mut memo_hash_hex = hex_encode(memo_hash.as_slice());
    out.append(&mut memo_hash_hex);
    push_lit(&mut out, ", index: ");
    let mut index_bytes = u64_to_decimal(index as u64);
    out.append(&mut index_bytes);
    proof {
        assert(out@ =~= memo_bytes(
            (amount_msats / 1000) as nat,
            multiplier_note.multiplier,
            nonce_commitment_note_id.spec_bytes(),
            nonce_commitment@,
            encode_utf8(multiplier_note.note_id@),
            roller_npub.spec_bytes(),
            zap_memo.spec_bytes(),
            index as nat,
        ));
    }
    out
}

/// An ASCII decimal digit.
pub open spec fn is_digit(b: u8) -> bool {
    48 <= b && b <= 57
}

/// The value of a decimal digit string, most significant digit first.
pub open spec fn dec_val(s: Seq<u8>) -> nat
    decreases s.len(),
{
    if s.len() == 0 {
        0
    } else {
        (dec_val(s.drop_last()) * 10 + (s.last() - 48)) as nat
    }
}

/// How many digits the sequence begins with.
pub open spec fn digit_run(s: Seq<u8>) -> int
    decreases s.len(),
{
    if s.len() == 0 {
        0
    } else if is_digit(s[0]) {
        1 + digit_run(s.drop_first())
    } else {
        0
    }
}

/// The index of the first occurrence of a byte, or the length if none.
pub open spec fn find_byte(s: Seq<u8>, b: u8) -> int
    decreases s.len(),
{
    if s.len() == 0 {
        0
    } else if s[0] == b {
        0
    } else {
        1 + find_byte(s.drop_first(), b)
    }
}

/// The index of the first adjacent pair `(a, b)`, or the length if none.
pub open spec fn find_pair(s: Seq<u8>, a: u8, b: u8) -> int
    decreases s.len(),
{
    if s.len() < 2 {
        s.len() as int
    } else if s[0] == a && s[1] == b {
        0
    } else {
        1 + find_pair(s.drop_first(), a, b)
    }
}

/// The run of leading digits is `k` exactly when the first `k` bytes are
/// digits and the next byte, if any, is not.
pub proof fn lemma_digit_run_is(s: Seq<u8>, k: int)
    requires
        0 <= k <= s.len(),
        forall|j: int| 0 <= j < k ==> is_digit(#[trigger] s[j]),
        k == s.len() || !is_digit(s[k]),
    ensures
        digit_run(s) == k,
    decreases s.len(),
{
    if s.len() == 0 {
    } else if k == 0 {
    } else {
        assert(is_digit(s[0]));
        assert forall|j: int| 0 <= j < k - 1 implies is_digit(#[trigger] s.drop_first()[j]) by {
            assert(s.drop_first()[j] == s[j + 1]);
        }
        if k < s.len() {
            assert(s.drop_first()[k - 1] == s[k]);
        }
        lemma_digit_run_is(s.drop_first(), k - 1);
    }
}

/// The first occurrence of a byte is at `k` exactly when the byte stands
/// at `k` and nowhere earlier.
pub proof fn lemma_find_byte_is(s: Seq<u8>, b: u8, k: int)
    requires
        0 <= k < s.len(),
        forall|j: int| 0 <= j < k ==> #[trigger] s[j] != b,
        s[k] == b,
    ensures
        find_byte(s, b) == k,
    decreases s.len(),
{
    if k == 0 {
    } else {
        assert(s[0] != b);
        assert forall|j: int| 0 <= j < k - 1 implies #[trigger] s.drop_first()[j] != b by {
            assert(s.drop_first()[j] == s[j + 1]);
        }
        assert(s.drop_first()[k - 1] == s[k]);
        lemma_find_byte_is(s.drop_first(), b, k - 1);
    }
}

/// The first adjacent pair is at `k` exactly when the pair stands at `k`
/// and at no earlier position.
pub proof fn lemma_find_pair_is(s: Seq<u8>, a: u8, b: u8, k: int)
    requires
        0 <= k,
        k + 1 < s.len(),
        forall|j: int| 0 <= j < k ==> !(#[trigger] s[j] == a && s[j + 1] == b),
        s[k] == a,
        s[k + 1] == b,
    ensures
        find_pair(s, a, b) == k,
    decreases s.len(),
{
    if k == 0 {
    } else {
        assert(!(s[0] == a && s[1] == b));
        assert forall|j: int| 0 <= j < k - 1 implies !(#[trigger] s.drop_first()[j] == a
            && s.drop_first()[j + 1] == b) by {
            assert(s.drop_first()[j] == s[j + 1]);
            assert(s.drop_first()[j + 1] == s[j + 2]);
        }
        assert(s.drop_first()[k - 1] == s[k]);
        assert(s.drop_first()[k] == s[k + 1]);
        lemma_find_pair_is(s.drop_first(), a, b, k - 1);
    }
}

/// Every digit of a rendered number is a digit.
pub proof fn lemma_dec_of_digits(n: nat)
    ensures
        forall|j: int| 0 <= j < dec_of(n).len() ==> is_digit(#[trigger] dec_of(n)[j]),
        dec_of(n).len() >= 1,
    decreases n,
{
    if n < 10 {
    } else {
        lemma_dec_of_digits(n / 10);
        assert forall|j: int| 0 <= j < dec_of(n).len() implies is_digit(#[trigger] dec_of(n)[j]) by {
            if j < dec_of(n / 10).len() {
                assert(dec_of(n)[j] == dec_of(n / 10)[j]);
            } else {
                assert(dec_of(n)[j] == (48 + n % 10) as u8);
            }
        }
    }
}

/// Reading a rendered number back gives the number.
pub proof fn lemma_dec_val_of(n: nat)
    ensures
        dec_val(dec_of(n)) == n,
    decreases n,
{
    if n < 10 {
        assert(dec_of(n) =~= seq![(48 + n) as u8]);
        assert(dec_of(n).drop_last() =~= Seq::<u8>::empty());
        assert(dec_val(Seq::<u8>::empty()) == 0);
        assert(dec_of(n).last() == (48 + n) as u8);
    } else {
        lemma_dec_val_of(n / 10);
        assert(dec_of(n).drop_last() =~= dec_of(n / 10));
        assert(dec_of(n).last() == (48 + n % 10) as u8);
    }
}

/// The fields read back out of a bet memo, as mathematical values.
pub struct MemoParts {
    pub sats: nat,
    pub threshold: nat,
    pub label: Seq<u8>,
    pub nonce_commitment_note_id: Seq<u8>,
    pub nonce_commitment: Seq<u8>,
    pub multiplier_note_id: Seq<u8>,
    pub roller_npub: Seq<u8>,
    pub memo_hash: Seq<u8>,
    pub index: nat,
}

/// Parses a bet memo: the inverse of `memo_bytes`. The numbers are read
/// as maximal digit runs and must fit in a machine word, the label runs up
/// to the sentence-ending dot, and each id field up to the comma that
/// starts the next marker.
pub open spec fn parse_memo(s: Seq<u8>) -> Option<MemoParts> {
    let p0 = "Bet ".spec_bytes();
    if !p0.is_prefix_of(s) {
        None
    } else {
        let s1 = s.skip(p0.len() as int);
        let k1 = digit_run(s1);
        if k1 == 0 || dec_val(s1.take(k1)) > 0xffff_ffff_ffff_ffff {
            None
        } else {
            let sats = dec_val(s1.take(k1));
            let s2 = s1.skip(k1);
            let p1 = " sats that you will roll a number smaller than ".spec_bytes();
            if !p1.is_prefix_of(s2) {
                None
            } else {
                let s3 = s2.skip(p1.len() as int);
                let k2 = digit_run(s3);
                if k2 == 0 || dec_val(s3.take(k2)) > 0xffff_ffff_ffff_ffff {
                    None
                } else {
                    let threshold = dec_val(s3.take(k2));
                    let s4 = s3.skip(k2);
                    let p2 = ", to multiply your wager by ".spec_bytes();
                    if !p2.is_prefix_of(s4) {
                        None
                    } else {
                        let s5 = s4.skip(p2.len() as int);
                        let kl = find_pair(s5, 46, 32);
                        if kl >= s5.len() {
                            None
                        } else {
                            let label = s5.take(kl);
                            let s6 = s5.skip(kl);
                            parse_memo_ids(s6, sats, threshold, label)
                        }
                    }
                }
            }
        }
    }
}

/// Parses the tail of a bet memo: the five id fields and the index.
pub open spec fn parse_memo_ids(s6: Seq<u8>, sats: nat, threshold: nat, label: Seq<u8>) -> Option<
    MemoParts,
> {
    let p3 = ". nonce_commitment_note_id: ".spec_bytes();
    if !p3.is_prefix_of(s6) {
        None
    } else {
        let s7 = s6.skip(p3.len() as int);
        let ka = find_byte(s7, 44);
        if ka >= s7.len() {
            None
        } else {
            let note_id = s7.take(ka);
            let s8 = s7.skip(ka);
            let p4 = ", nonce_commitment: ".spec_bytes();
            if !p4.is_prefix_of(s8) {
                None
            } else {
                let s9 = s8.skip(p4.len() as int);
                let kb = find_byte(s9, 44);
                if kb >= s9.len() {
                    None
                } else {
                    let commitment = s9.take(kb);
                    let s10 = s9.skip(kb);
                    let p5 = ", multiplier_note_id: ".spec_bytes();
                    if !p5.is_prefix_of(s10) {
                        None
                    } else {
                        let s11 = s10.skip(p5.len() as int);
                        let kc = find_byte(s11, 44);
                        if kc >= s11.len() {
                            None
                        } else {
                            let mult_note_id = s11.take(kc);
                            let s12 = s11.skip(kc);
                            let p6 = ", roller_npub: ".spec_bytes();
                            if !p6.is_prefix_of(s12) {
                                None
                            } else {
                                let s13 = s12.skip(p6.len() as int);
                                let kd = find_byte(s13, 44);
                                if kd >= s13.len() {
                                    None
                                } else {
                                    let npub = s13.take(kd);
                                    let s14 = s13.skip(kd);
                                    let p7 = ", memo_hash: ".spec_bytes();
                                    if !p7.is_prefix_of(s14) {
                                        None
                                    } else {
                                        let s15 = s14.skip(p7.len() as int);
                                        let ke = find_byte(s15, 44);
                                        if ke >= s15.len() {
                                            None
                                        } else {
                                            let memo_hash = s15.take(ke);
                                            let s16 = s15.skip(ke);
                                            let p8 = ", index: ".spec_bytes();
                                            if !p8.is_prefix_of(s16) {
                                                None
                                            } else {
                                                let s17 = s16.skip(p8.len() as int);
                                                let kf = digit_run(s17);
                                                if kf == 0 || kf != s17.len() || dec_val(s17)
                                                    > 0xffff_ffff_ffff_ffff {
                                                    None
                                                } else {
                                                    Some(
                                                        (MemoParts {
                                                            sats,
                                                            threshold,
                                                            label,
                                                            nonce_commitment_note_id: note_id,
                                                            nonce_commitment: commitment,
                                                            multiplier_note_id: mult_note_id,
                                                            roller_npub: npub,
                                                            memo_hash,
                                                            index: dec_val(s17),
                                                        }),
                                                    )
                                                }
                                            }
                                        }
                                    }
                                }
                            }
                        }
                    }
                }
            }
        }
    }
}

/// Every byte within the leading digit run is a digit, and the run never
/// exceeds the sequence.
proof fn lemma_digit_run_digits(s: Seq<u8>)
    ensures
        0 <= digit_run(s) <= s.len(),
        forall|j: int| 0 <= j < digit_run(s) ==> is_digit(#[trigger] s[j]),
    decreases s.len(),
{
    if s.len() > 0 && is_digit(s[0]) {
        lemma_digit_run_digits(s.drop_first());
        assert forall|j: int| 0 <= j < digit_run(s) implies is_digit(#[trigger] s[j]) by {
            if j > 0 {
                assert(s.drop_first()[j - 1] == s[j]);
            }
        }
    }
}

/// A sequence that begins with digits has a digit run at least that long.
proof fn lemma_digit_run_at_least(s: Seq<u8>, m: int)
    requires
        0 <= m <= s.len(),
        forall|j: int| 0 <= j < m ==> is_digit(#[trigger] s[j]),
    ensures
        digit_run(s) >= m,
    decreases m,
{
    lemma_digit_run_digits(s);
    if m > 0 {
        assert(is_digit(s[0]));
        assert forall|j: int| 0 <= j < m - 1 implies is_digit(#[trigger] s.drop_first()[j]) by {
            assert(s.drop_first()[j] == s[j + 1]);
        }
        lemma_digit_run_at_least(s.drop_first(), m - 1);
    }
}

/// Reading more digits never shrinks the value.
proof fn lemma_dec_val_monotone(s: Seq<u8>, a: int, b: int)
    requires
        0 <= a <= b <= s.len(),
        forall|j: int| a <= j < b ==> #[trigger] s[j] >= 48,
    ensures
        dec_val(s.take(a)) <= dec_val(s.take(b)),
    decreases b - a,
{
    if a < b {
        lemma_dec_val_monotone(s, a, b - 1);
        assert(s.take(b).drop_last() =~= s.take(b - 1));
        assert(s.take(b).last() == s[b - 1]);
    }
}

/// A byte absent from a sequence is first found at its length.
proof fn lemma_find_byte_all(s: Seq<u8>, b: u8)
    requires
        forall|j: int| 0 <= j < s.len() ==> #[trigger] s[j] != b,
    ensures
        find_byte(s, b) == s.len(),
    decreases s.len(),
{
    if s.len() > 0 {
        assert forall|j: int| 0 <= j < s.drop_first().len() implies #[trigger] s.drop_first()[j]
            != b by {
            assert(s.drop_first()[j] == s[j + 1]);
        }
        lemma_find_byte_all(s.drop_first(), b);
    }
}

/// A pair absent from a sequence is first found at its length.
proof fn lemma_find_pair_all(s: Seq<u8>, a: u8, b: u8)
    requires
        forall|j: int| 0 <= j && j + 1 < s.len() ==> !(#[trigger] s[j] == a && s[j + 1] == b),
    ensures
        find_pair(s, a, b) == s.len(),
    decreases s.len(),
{
    if s.len() >= 2 {
        assert forall|j: int| 0 <= j && j + 1 < s.drop_first().len() implies !(
        #[trigger] s.drop_first()[j] == a && s.drop_first()[j + 1] == b) by {
            assert(s.drop_first()[j] == s[j + 1]);
            assert(s.drop_first()[j + 1] == s[j + 2]);
        }
        lemma_find_pair_all(s.drop_first(), a, b);
    }
}

/// Advances past an expected literal piece of the memo, or fails when the
/// memo does not continue with it.
fn expect_lit(s: &Vec<u8>, pos: usize, lit: &str) -> (r: Option<usize>)
    requires
        pos <= s@.len(),
    ensures
        match r {
            Some(p) => lit.spec_bytes().is_prefix_of(s@.skip(pos as int)) && p == pos
                + lit.spec_bytes().len() && p <= s@.len(),
            None => !lit.spec_bytes().is_prefix_of(s@.skip(pos as int)),
        },
{
    let ghost t = s@.skip(pos as int);
    let lit_bytes = lit.as_bytes_vec();
    if s.len() - pos < lit_bytes.len() {
        proof {
            assert(t.len() < lit_bytes@.len());
        }
        return None;
    }
    let mut i: usize = 0;
    while i < lit_bytes.len()
        invariant
            i <= lit_bytes@.len(),
            pos + lit_bytes@.len() <= s@.len(),
            s@.len() <= usize::MAX,
            lit_bytes@ == lit.spec_bytes(),
            t == s@.skip(pos as int),
            forall|j: int| 0 <= j < i ==> #[trigger] t[j] == lit_bytes@[j],
        decreases lit_bytes@.len() - i,
    {
        proof {
            assert(pos + i < s@.len());
        }
        if s[pos + i] != lit_bytes[i] {
            proof {
                assert(t[i as int] == s@[pos + i]);
                if lit_bytes@.is_prefix_of(t) {
                    assert(t.take(lit_bytes@.len() as int)[i as int] == t[i as int]);
                }
            }
            return None;
        }
        proof {
            assert(t[i as int] == s@[pos + i]);
        }
        i = i + 1;
    }
    proof {
        assert(t.take(lit_bytes@.len() as int) =~= lit_bytes@);
    }
    Some(pos + lit_bytes.len())
}

/// Reads a maximal run of digits as a number, or fails when no digit
/// follows or the number does not fit in a machine word.
fn scan_number(s: &Vec<u8>, pos: usize) -> (r: Option<(u64, usize)>)
    requires
        pos <= s@.len(),
    ensures
        match r {
            Some(vp) => ({
                let t = s@.skip(pos as int);
                let k = digit_run(t);
                &&& k > 0
                &&& vp.1 == pos + k
                &&& vp.1 <= s@.len()
                &&& vp.0 == dec_val(t.take(k))
            }),
            None => ({
                let t = s@.skip(pos as int);
                digit_run(t) == 0 || dec_val(t.take(digit_run(t))) > 0xffff_ffff_ffff_ffff
            }),
        },
{
    let ghost t = s@.skip(pos as int);
    let mut i: usize = pos;
    let mut v: u64 = 0;
    while i < s.len() && 48 <= s[i] && s[i] <= 57
        invariant
            pos <= i <= s@.len(),
            t == s@.skip(pos as int),
            forall|j: int| pos <= j < i ==> is_digit(#[trigger] s@[j]),
            v == dec_val(t.take(i - pos)),
        decreases s@.len() - i,
    {
        let d: u64 = (s[i] - 48) as u64;
        proof {
            assert(t.take(i + 1 - pos).drop_last() =~= t.take(i - pos));
            assert(t.take(i + 1 - pos).last() == t[i - pos] == s@[i as int]);
        }
        if v > (0xffff_ffff_ffff_ffffu64 - d) / 10 {
            proof {
                assert(v * 10 + d > 0xffff_ffff_ffff_ffffu64) by (nonlinear_arith)
                    requires
                        v > (0xffff_ffff_ffff_ffffu64 - d) / 10,
                        d <= 9,
                ;
                assert(dec_val(t.take(i + 1 - pos)) == v * 10 + d);
                assert forall|j: int| 0 <= j < i + 1 - pos implies is_digit(#[trigger] t[j]) by {
                    assert(t[j] == s@[pos + j]);
                }
                lemma_digit_run_at_least(t, i + 1 - pos);
                lemma_digit_run_digits(t);
                assert forall|j: int| i + 1 - pos <= j < digit_run(t) implies #[trigger] t[j]
                    >= 48 by {
                    assert(is_digit(t[j]));
                }
                lemma_dec_val_monotone(t, i + 1 - pos, digit_run(t));
            }
            return None;
        }
        proof {
            assert(v * 10 + d <= 0xffff_ffff_ffff_ffffu64) by (nonlinear_arith)
                requires
                    v <= (0xffff_ffff_ffff_ffffu64 - d) / 10,
                    d <= 9,
            ;
        }
        v = v * 10 + d;
        i = i + 1;
    }
    proof {
        assert forall|j: int| 0 <= j < i - pos implies is_digit(#[trigger] t[j]) by {
            assert(t[j] == s@[pos + j]);
        }
        if i < s.len() {
            assert(t[i - pos] == s@[i as int]);
        }
        lemma_digit_run_is(t, i - pos);
    }
    if i == pos {
        None
    } else {
        Some((v, i))
    }
}

/// Reads the bytes up to, but not including, the next occurrence of a
/// stop byte; fails when the stop byte never comes.
fn scan_until(s: &Vec<u8>, pos: usize, stop: u8) -> (r: Option<(Vec<u8>, usize)>)
    requires
        pos <= s@.len(),
    ensures
        match r {
            Some(segp) => ({
                let t = s@.skip(pos as int);
                let k = find_byte(t, stop);
                &&& 0 <= k < t.len()
                &&& segp.1 == pos + k
                &&& segp.1 <= s@.len()
                &&& segp.0@ == t.take(k)
            }),
            None => find_byte(s@.skip(pos as int), stop) == s@.skip(pos as int).len(),
        },
{
    let ghost t = s@.skip(pos as int);
    let mut seg: Vec<u8> = Vec::new();
    let mut i: usize = pos;
    while i < s.len() && s[i] != stop
        invariant
            pos <= i <= s@.len(),
            t == s@.skip(pos as int),
            forall|j: int| pos <= j < i ==> #[trigger] s@[j] != stop,
            seg@ =~= t.take(i - pos),
        decreases s@.len() - i,
    {
        let ghost seg_prev = seg@;
        seg.push(s[i]);
        proof {
            assert(t[i - pos] == s@[i as int]);
            assert(seg@ =~= t.take(i + 1 - pos));
        }
        i = i + 1;
    }
    proof {
        assert forall|j: int| 0 <= j < i - pos implies #[trigger] t[j] != stop by {
            assert(t[j] == s@[pos + j]);
        }
    }
    if i == s.len() {
        proof {
            lemma_find_byte_all(t, stop);
        }
        None
    } else {
        proof {
            assert(t[i - pos] == s@[i as int]);
            lemma_find_byte_is(t, stop, i - pos);
        }
        Some((seg, i))
    }
}

/// Reads the bytes up to, but not including, the next adjacent pair
/// `(a, b)`; fails when no such pair comes.
fn scan_until_pair(s: &Vec<u8>, pos: usize, a: u8, b: u8) -> (r: Option<(Vec<u8>, usize)>)
    requires
        pos <= s@.len(),
    ensures
        match r {
            Some(segp) => ({
                let t = s@.skip(pos as int);
                let k = find_pair(t, a, b);
                &&& 0 <= k < t.len()
                &&& segp.1 == pos + k
                &&& segp.1 <= s@.len()
                &&& segp.0@ == t.take(k)
            }),
            None => find_pair(s@.skip(pos as int), a, b) >= s@.skip(pos as int).len(),
        },
{
    let ghost t = s@.skip(pos as int);
    let mut seg: Vec<u8> = Vec::new();
    let mut i: usize = pos;
    while i < s.len() && i + 1 < s.len() && !(s[i] == a && s[i + 1] == b)
        invariant
            pos <= i,
            i <= s@.len(),
            t == s@.skip(pos as int),
            forall|j: int| pos <= j < i ==> !(#[trigger] s@[j] == a && s@[j + 1] == b),
            seg@ =~= t.take(i - pos),
        decreases s@.len() - i,
    {
        seg.push(s[i]);
        proof {
            assert(t[i - pos] == s@[i as int]);
            assert(seg@ =~= t.take(i + 1 - pos));
        }
        i = i + 1;
    }
    proof {
        assert forall|j: int| 0 <= j && j + 1 < i - pos implies !(#[trigger] t[j] == a && t[j + 1]
            == b) by {
            assert(t[j] == s@[pos + j]);
            assert(t[j + 1] == s@[pos + j + 1]);
        }
    }
    if i >= s.len() || i + 1 >= s.len() {
        proof {
            assert forall|j: int| 0 <= j && j + 1 < t.len() implies !(#[trigger] t[j] == a && t[j
                + 1] == b) by {
                assert(t[j] == s@[pos + j]);
                assert(t[j + 1] == s@[pos + j + 1]);
            }
            lemma_find_pair_all(t, a, b);
        }
        None
    } else {
        proof {
            assert(t[i - pos] == s@[i as int]);
            assert(t[i + 1 - pos] == s@[i + 1]);
            lemma_find_pair_is(t, a, b, i - pos);
        }
        Some((seg, i))
    }
}

/// The fields read back out of a bet memo.
#[derive(Debug)]
pub struct MemoFields {
    /// The wagered amount, in satoshis.
    pub sats: u64,
    /// The winning threshold the bet was taken at.
    pub threshold: u64,
    /// The multiplier's display label.
    pub label: Vec<u8>,
    /// The commitment id of the anchoring nonce.
    pub nonce_commitment_note_id: Vec<u8>,
    /// The commitment itself, in hex.
    pub nonce_commitment: Vec<u8>,
    /// The note id of the chosen multiplier.
    pub multiplier_note_id: Vec<u8>,
    /// The roller's npub.
    pub roller_npub: Vec<u8>,
    /// The hash of the roller's memo text, in hex.
    pub memo_hash: Vec<u8>,
    /// The index of the bet.
    pub index: u64,
}

/// Parses a bet memo back into its fields: the executable form of
/// `parse_memo`, succeeding on exactly the same inputs.
#[verifier::rlimit(100)]
pub fn parse_bet_memo(memo: &Vec<u8>) -> (r: Option<MemoFields>)
    ensures
        match r {
            Some(f) => parse_memo(memo@) == Some(
                (MemoParts {
                    sats: f.sats as nat,
                    threshold: f.threshold as nat,
                    label: f.label@,
                    nonce_commitment_note_id: f.nonce_commitment_note_id@,
                    nonce_commitment: f.nonce_commitment@,
                    multiplier_note_id: f.multiplier_note_id@,
                    roller_npub: f.roller_npub@,
                    memo_hash: f.memo_hash@,
                    index: f.index as nat,
                }),
            ),
            None => parse_memo(memo@) is None,
        },
{
    proof {
        assert(memo@.skip(0) =~= memo@);
    }
    let pos1 = match expect_lit(memo, 0, "Bet ") {
        None => {
            return None;
        },
        Some(p) => p,
    };
    proof {
        assert(memo@.take(pos1 as int) =~= "Bet ".spec_bytes());
        assert(memo@.skip(0).skip("Bet ".spec_bytes().len() as int) =~= memo@.skip(pos1 as int));
    }
    let (sats, pos2) = match scan_number(memo, pos1) {
        None => {
            return None;
        },
        Some(x) => x,
    };
    proof {
        assert(memo@.skip(pos1 as int).skip((pos2 - pos1) as int) =~= memo@.skip(pos2 as int));
    }
    let pos3 = match expect_lit(memo, pos2, " sats that you will roll a number smaller than ") {
        None => {
            return None;
        },
        Some(p) => p,
    };
    proof {
        assert(memo@.skip(pos2 as int).skip((pos3 - pos2) as int) =~= memo@.skip(pos3 as int));
    }
    let (threshold, pos4) = match scan_number(memo, pos3) {
        None => {
            return None;
        },
        Some(x) => x,
    };
    proof {
        assert(memo@.skip(pos3 as int).skip((pos4 - pos3) as int) =~= memo@.skip(pos4 as int));
    }
    let pos5 = match expect_lit(memo, pos4, ", to multiply your wager by ") {
        None => {
            return None;
        },
        Some(p) => p,
    };
    proof {
        assert(memo@.skip(pos4 as int).skip((pos5 - pos4) as int) =~= memo@.skip(pos5 as int));
    }
    let (label, pos6) = match scan_until_pair(memo, pos5, 46, 32) {
        None => {
            return None;
        },
        Some(x) => x,
    };
    proof {
        assert(memo@.skip(pos5 as int).skip((pos6 - pos5) as int) =~= memo@.skip(pos6 as int));
    }
    match parse_bet_memo_ids(memo, pos6, sats, threshold, label) {
        Some(f) => Some(f),
        None => None,
    }
}

/// Parses the tail of a bet memo: the executable form of
/// `parse_memo_ids`, succeeding on exactly the same inputs.
#[verifier::rlimit(100)]
fn parse_bet_memo_ids(memo: &Vec<u8>, pos6: usize, sats: u64, threshold: u64, label: Vec<u8>) -> (r:
    Option<MemoFields>)
    requires
        pos6 <= memo@.len(),
    ensures
        match r {
            Some(f) => parse_memo_ids(
                memo@.skip(pos6 as int),
                sats as nat,
                threshold as nat,
                label@,
            ) == Some(
                (MemoParts {
                    sats: f.sats as nat,
                    threshold: f.threshold as nat,
                    label: f.label@,
                    nonce_commitment_note_id: f.nonce_commitment_note_id@,
                    nonce_commitment: f.nonce_commitment@,
                    multiplier_note_id: f.multiplier_note_id@,
                    roller_npub: f.roller_npub@,
                    memo_hash: f.memo_hash@,
                    index: f.index as nat,
                }),
            ) && f.sats == sats && f.threshold == threshold && f.label@ == label@,
            None => parse_memo_ids(
                memo@.skip(pos6 as int),
                sats as nat,
                threshold as nat,
                label@,
            ) is None,
        },
{
    let pos7 = match expect_lit(memo, pos6, ". nonce_commitment_note_id: ") {
        None => {
            return None;
        },
        Some(p) => p,
    };
    proof {
        assert(memo@.skip(pos6 as int).skip((pos7 - pos6) as int) =~= memo@.skip(pos7 as int));
    }
    let (note_id, pos8) = match scan_until(memo, pos7, 44) {
        None => {
            return None;
        },
        Some(x) => x,
    };
    proof {
        assert(memo@.skip(pos7 as int).skip((pos8 - pos7) as int) =~= memo@.skip(pos8 as int));
    }
    let pos9 = match expect_lit(memo, pos8, ", nonce_commitment: ") {
        None => {
            return None;
        },
        Some(p) => p,
    };
    proof {
        assert(memo@.skip(pos8 as int).skip((pos9 - pos8) as int) =~= memo@.skip(pos9 as int));
    }
    let (commitment, pos10) = match scan_until(memo, pos9, 44) {
        None => {
            return None;
        },
        Some(x) => x,
    };
    proof {
        assert(memo@.skip(pos9 as int).skip((pos10 - pos9) as int) =~= memo@.skip(pos10 as int));
    }
    let pos11 = match expect_lit(memo, pos10, ", multiplier_note_id: ") {
        None => {
            return None;
        },
        Some(p) => p,
    };
    proof {
        assert(memo@.skip(pos10 as int).skip((pos11 - pos10) as int) =~= memo@.skip(pos11 as int));
    }
    let (mult_note_id, pos12) = match scan_until(memo, pos11, 44) {
        None => {
            return None;
        },
        Some(x) => x,
    };
    proof {
        assert(memo@.skip(pos11 as int).skip((pos12 - pos11) as int) =~= memo@.skip(pos12 as int));
    }
    let pos13 = match expect_lit(memo, pos12, ", roller_npub: ") {
        None => {
            return None;
        },
        Some(p) => p,
    };
    proof {
        assert(memo@.skip(pos12 as int).skip((pos13 - pos12) as int) =~= memo@.skip(pos13 as int));
    }
    let (npub, pos14) = match scan_until(memo, pos13, 44) {
        None => {
            return None;
        },
        Some(x) => x,
    };
    proof {
        assert(memo@.skip(pos13 as int).skip((pos14 - pos13) as int) =~= memo@.skip(pos14 as int));
    }
    let pos15 = match expect_lit(memo, pos14, ", memo_hash: ") {
        None => {
            return None;
        },
        Some(p) => p,
    };
    proof {
        assert(memo@.skip(pos14 as int).skip((pos15 - pos14) as int) =~= memo@.skip(pos15 as int));
    }
    let (memo_hash, pos16) = match scan_until(memo, pos15, 44) {
        None => {
            return None;
        },
        Some(x) => x,
    };
    proof {
        assert(memo@.skip(pos15 as int).skip((pos16 - pos15) as int) =~= memo@.skip(pos16 as int));
    }
    let pos17 = match expect_lit(memo, pos16, ", index: ") {
        None => {
            return None;
        },
        Some(p) => p,
    };
    proof {
        assert(memo@.skip(pos16 as int).skip((pos17 - pos16) as int) =~= memo@.skip(pos17 as int));
    }
    let (index, pos18) = match scan_number(memo, pos17) {
        None => {
            proof {
                let s17 = memo@.skip(pos17 as int);
                lemma_digit_run_digits(s17);
                if digit_run(s17) == s17.len() {
                    assert(s17.take(digit_run(s17)) =~= s17);
                }
            }
            return None;
        },
        Some(x) => x,
    };
    if pos18 != memo.len() {
        return None;
    }
    proof {
        let s17 = memo@.skip(pos17 as int);
        assert(s17.take(digit_run(s17)) =~= s17);
    }
    Some(
        MemoFields {
            sats,
            threshold,
            label,
            nonce_commitment_note_id: note_id,
            nonce_commitment: commitment,
            multiplier_note_id: mult_note_id,
            roller_npub: npub,
            memo_hash,
            index,
        },
    )
}


/// The bytes of an ASCII string are its characters, one byte each.
proof fn lemma_ascii_bytes(s: &str)
    requires
        vstd::utf8::is_ascii_chars(s@),
    ensures
        s.spec_bytes().len() == s@.len(),
        forall|i: int|
            #![trigger s.spec_bytes()[i]]
            0 <= i < s@.len() ==> s.spec_bytes()[i] == s@[i] as u8,
{
    vstd::utf8::is_ascii_chars_encode_utf8(s@);
}

/// Peeling a known prefix off a concatenation leaves the rest.
proof fn lemma_peel(p: Seq<u8>, rest: Seq<u8>)
    ensures
        p.is_prefix_of(p + rest),
        (p + rest).skip(p.len() as int) =~= rest,
{
    assert((p + rest).take(p.len() as int) =~= p);
}

/// Hex digits are never a comma.
proof fn lemma_hex_no_comma(x: Seq<u8>)
    ensures
        forall|j: int| #![trigger hex_of(x)[j]] 0 <= j < hex_of(x).len() ==> hex_of(x)[j] != 44,
{
    assert forall|j: int| 0 <= j < hex_of(x).len() implies hex_of(x)[j] != 44 by {
        if j % 2 == 0 {
            assert(hex_of(x)[j] == hex_digit((x[j / 2] / 16) as u8));
        } else {
            assert(hex_of(x)[j] == hex_digit((x[j / 2] % 16) as u8));
        }
    }
}

/// No multiplier label contains a dot followed by a space, and none is
/// empty.
proof fn lemma_label_bytes(m: Multiplier)
    ensures
        encode_utf8(m.label()).len() >= 1,
        forall|j: int|
            #![trigger encode_utf8(m.label())[j]]
            0 <= j && j + 1 < encode_utf8(m.label()).len() ==> !(encode_utf8(m.label())[j] == 46
                && encode_utf8(m.label())[j + 1] == 32),
{
    match m {
        Multiplier::X1_05 => {
            reveal_strlit("1.05x");
            assert(vstd::utf8::is_ascii_chars("1.05x"@));
            vstd::utf8::is_ascii_chars_encode_utf8("1.05x"@);
        },
        Multiplier::X1_1 => {
            reveal_strlit("1.1x");
            assert(vstd::utf8::is_ascii_chars("1.1x"@));
            vstd::utf8::is_ascii_chars_encode_utf8("1.1x"@);
        },
        Multiplier::X1_33 => {
            reveal_strlit("1.33x");
            assert(vstd::utf8::is_ascii_chars("1.33x"@));
            vstd::utf8::is_ascii_chars_encode_utf8("1.33x"@);
        },
        Multiplier::X1_5 => {
            reveal_strlit("1.5x");
            assert(vstd::utf8::is_ascii_chars("1.5x"@));
            vstd::utf8::is_ascii_chars_encode_utf8("1.5x"@);
        },
        Multiplier::X2 => {
            reveal_strlit("2x");
            assert(vstd::utf8::is_ascii_chars("2x"@));
            vstd::utf8::is_ascii_chars_encode_utf8("2x"@);
        },
        Multiplier::X3 => {
            reveal_strlit("3x");
            assert(vstd::utf8::is_ascii_chars("3x"@));
            vstd::utf8::is_ascii_chars_encode_utf8("3x"@);
        },
        Multiplier::X10 => {
            reveal_strlit("10x");
            assert(vstd::utf8::is_ascii_chars("10x"@));
            vstd::utf8::is_ascii_chars_encode_utf8("10x"@);
        },
        Multiplier::X25 => {
            reveal_strlit("25x");
            assert(vstd::utf8::is_ascii_chars("25x"@));
            vstd::utf8::is_ascii_chars_encode_utf8("25x"@);
        },
        Multiplier::X50 => {
            reveal_strlit("50x");
            assert(vstd::utf8::is_ascii_chars("50x"@));
            vstd::utf8::is_ascii_chars_encode_utf8("50x"@);
        },
        Multiplier::X100 => {
            reveal_strlit("100x");
            assert(vstd::utf8::is_ascii_chars("100x"@));
            vstd::utf8::is_ascii_chars_encode_utf8("100x"@);
        },
        Multiplier::X1000 => {
            reveal_strlit("1000x");
            assert(vstd::utf8::is_ascii_chars("1000x"@));
            vstd::utf8::is_ascii_chars_encode_utf8("1000x"@);
        },
    }
}

/// Concatenation reassociates.
proof fn lemma_assoc(a: Seq<u8>, b: Seq<u8>, c: Seq<u8>)
    ensures
        (a + b) + c == a + (b + c),
{
    assert((a + b) + c =~= a + (b + c));
}

/// Parsing the tail of a built memo yields exactly the id fields that
/// went in.
#[verifier::spinoff_prover]
#[verifier::rlimit(100)]
proof fn lemma_memo_ids_round_trip(
    sats: nat,
    threshold: nat,
    label: Seq<u8>,
    note_id: Seq<u8>,
    commitment: Seq<u8>,
    mult_note_id: Seq<u8>,
    npub: Seq<u8>,
    content: Seq<u8>,
    index: nat,
)
    requires
        index <= 0xffff_ffff_ffff_ffff,
        forall|j: int| 0 <= j < note_id.len() ==> #[trigger] note_id[j] != 44,
        forall|j: int| 0 <= j < mult_note_id.len() ==> #[trigger] mult_note_id[j] != 44,
        forall|j: int| 0 <= j < npub.len() ==> #[trigger] npub[j] != 44,
    ensures
        parse_memo_ids(
            ". nonce_commitment_note_id: ".spec_bytes() + (note_id
                + (", nonce_commitment: ".spec_bytes() + (hex_of(commitment)
                + (", multiplier_note_id: ".spec_bytes() + (mult_note_id
                + (", roller_npub: ".spec_bytes() + (npub + (", memo_hash: ".spec_bytes() + (hex_of(
                sha256_of(content),
            ) + (", index: ".spec_bytes() + dec_of(index))))))))))),
            sats,
            threshold,
            label,
        ) == Some(
            (MemoParts {
                sats,
                threshold,
                label,
                nonce_commitment_note_id: note_id,
                nonce_commitment: hex_of(commitment),
                multiplier_note_id: mult_note_id,
                roller_npub: npub,
                memo_hash: hex_of(sha256_of(content)),
                index,
            }),
        ),
{
    let p3 = ". nonce_commitment_note_id: ".spec_bytes();
    let p4 = ", nonce_commitment: ".spec_bytes();
    let p5 = ", multiplier_note_id: ".spec_bytes();
    let p6 = ", roller_npub: ".spec_bytes();
    let p7 = ", memo_hash: ".spec_bytes();
    let p8 = ", index: ".spec_bytes();
    reveal_strlit(". nonce_commitment_note_id: ");
    reveal_strlit(", nonce_commitment: ");
    reveal_strlit(", multiplier_note_id: ");
    reveal_strlit(", roller_npub: ");
    reveal_strlit(", memo_hash: ");
    reveal_strlit(", index: ");
    assert(vstd::utf8::is_ascii_chars(". nonce_commitment_note_id: "@));
    assert(vstd::utf8::is_ascii_chars(", nonce_commitment: "@));
    assert(vstd::utf8::is_ascii_chars(", multiplier_note_id: "@));
    assert(vstd::utf8::is_ascii_chars(", roller_npub: "@));
    assert(vstd::utf8::is_ascii_chars(", memo_hash: "@));
    assert(vstd::utf8::is_ascii_chars(", index: "@));
    lemma_ascii_bytes(". nonce_commitment_note_id: ");
    lemma_ascii_bytes(", nonce_commitment: ");
    lemma_ascii_bytes(", multiplier_note_id: ");
    lemma_ascii_bytes(", roller_npub: ");
    lemma_ascii_bytes(", memo_hash: ");
    lemma_ascii_bytes(", index: ");
    assert(p4[0] == 44 && p5[0] == 44 && p6[0] == 44 && p7[0] == 44 && p8[0] == 44);

    let h1 = hex_of(commitment);
    let h2 = hex_of(sha256_of(content));
    let d3 = dec_of(index);
    lemma_dec_of_digits(index);
    lemma_dec_val_of(index);
    lemma_hex_no_comma(commitment);
    lemma_hex_no_comma(sha256_of(content));

    let t17 = d3;
    let t16 = p8 + t17;
    let t15 = h2 + t16;
    let t14 = p7 + t15;
    let t13 = npub + t14;
    let t12 = p6 + t13;
    let t11 = mult_note_id + t12;
    let t10 = p5 + t11;
    let t9 = h1 + t10;
    let t8 = p4 + t9;
    let t7 = note_id + t8;
    let s6 = p3 + t7;

    lemma_peel(p3, t7);
    let s7 = s6.skip(p3.len() as int);
    assert(s7 =~= t7);

    assert forall|j: int| 0 <= j < note_id.len() implies #[trigger] t7[j] != 44 by {
        assert(t7[j] == note_id[j]);
    }
    assert(t7[note_id.len() as int] == p4[0]);
    lemma_find_byte_is(t7, 44, note_id.len() as int);
    assert(t7.take(note_id.len() as int) =~= note_id);
    assert(t7.skip(note_id.len() as int) =~= t8);
    let s8 = s7.skip(note_id.len() as int);
    assert(s8 =~= t8);

    lemma_peel(p4, t9);
    let s9 = s8.skip(p4.len() as int);
    assert(s9 =~= t9);

    assert forall|j: int| 0 <= j < h1.len() implies #[trigger] t9[j] != 44 by {
        assert(t9[j] == h1[j]);
    }
    assert(t9[h1.len() as int] == p5[0]);
    lemma_find_byte_is(t9, 44, h1.len() as int);
    assert(t9.take(h1.len() as int) =~= h1);
    assert(t9.skip(h1.len() as int) =~= t10);
    let s10 = s9.skip(h1.len() as int);
    assert(s10 =~= t10);

    lemma_peel(p5, t11);
    let s11 = s10.skip(p5.len() as int);
    assert(s11 =~= t11);

    assert forall|j: int| 0 <= j < mult_note_id.len() implies #[trigger] t11[j] != 44 by {
        assert(t11[j] == mult_note_id[j]);
    }
    assert(t11[mult_note_id.len() as int] == p6[0]);
    lemma_find_byte_is(t11, 44, mult_note_id.len() as int);
    assert(t11.take(mult_note_id.len() as int) =~= mult_note_id);
    assert(t11.skip(mult_note_id.len() as int) =~= t12);
    let s12 = s11.skip(mult_note_id.len() as int);
    assert(s12 =~= t12);

    lemma_peel(p6, t13);
    let s13 = s12.skip(p6.len() as int);
    assert(s13 =~= t13);

    assert forall|j: int| 0 <= j < npub.len() implies #[trigger] t13[j] != 44 by {
        assert(t13[j] == npub[j]);
    }
    assert(t13[npub.len() as int] == p7[0]);
    lemma_find_byte_is(t13, 44, npub.len() as int);
    assert(t13.take(npub.len() as int) =~= npub);
    assert(t13.skip(npub.len() as int) =~= t14);
    let s14 = s13.skip(npub.len() as int);
    assert(s14 =~= t14);

    lemma_peel(p7, t15);
    let s15 = s14.skip(p7.len() as int);
    assert(s15 =~= t15);

    assert forall|j: int| 0 <= j < h2.len() implies #[trigger] t15[j] != 44 by {
        assert(t15[j] == h2[j]);
    }
    assert(t15[h2.len() as int] == p8[0]);
    lemma_find_byte_is(t15, 44, h2.len() as int);
    assert(t15.take(h2.len() as int) =~= h2);
    assert(t15.skip(h2.len() as int) =~= t16);
    let s16 = s15.skip(h2.len() as int);
    assert(s16 =~= t16);

    lemma_peel(p8, t17);
    let s17 = s16.skip(p8.len() as int);
    assert(s17 =~= t17);

    assert forall|j: int| 0 <= j < d3.len() implies is_digit(#[trigger] s17[j]) by {
        assert(s17[j] == d3[j]);
    }
    lemma_digit_run_is(s17, d3.len() as int);
    assert(s17.take(d3.len() as int) =~= d3);
    assert(dec_val(s17) == index);
}

/// Parsing a built memo yields exactly the fields that went in: the memo
/// format round-trips. The id fields may not contain a comma, which no
/// note id or npub does.
#[verifier::rlimit(100)]
pub proof fn lemma_memo_round_trip(
    sats: nat,
    m: Multiplier,
    note_id: Seq<u8>,
    commitment: Seq<u8>,
    mult_note_id: Seq<u8>,
    npub: Seq<u8>,
    content: Seq<u8>,
    index: nat,
)
    requires
        sats <= 0xffff_ffff_ffff_ffff,
        index <= 0xffff_ffff_ffff_ffff,
        forall|j: int| 0 <= j < note_id.len() ==> #[trigger] note_id[j] != 44,
        forall|j: int| 0 <= j < mult_note_id.len() ==> #[trigger] mult_note_id[j] != 44,
        forall|j: int| 0 <= j < npub.len() ==> #[trigger] npub[j] != 44,
    ensures
        parse_memo(memo_bytes(sats, m, note_id, commitment, mult_note_id, npub, content, index))
            == Some(
            (MemoParts {
                sats,
                threshold: m.threshold() as nat,
                label: encode_utf8(m.label()),
                nonce_commitment_note_id: note_id,
                nonce_commitment: hex_of(commitment),
                multiplier_note_id: mult_note_id,
                roller_npub: npub,
                memo_hash: hex_of(sha256_of(content)),
                index,
            }),
        ),
{
    let p0 = "Bet ".spec_bytes();
    let q1 = " sats that you will roll a number smaller than ".spec_bytes();
    let q2 = ", to multiply your wager by ".spec_bytes();
    let p3 = ". nonce_commitment_note_id: ".spec_bytes();
    let p4 = ", nonce_commitment: ".spec_bytes();
    let p5 = ", multiplier_note_id: ".spec_bytes();
    let p6 = ", roller_npub: ".spec_bytes();
    let p7 = ", memo_hash: ".spec_bytes();
    let p8 = ", index: ".spec_bytes();
    reveal_strlit("Bet ");
    reveal_strlit(" sats that you will roll a number smaller than ");
    reveal_strlit(", to multiply your wager by ");
    reveal_strlit(". nonce_commitment_note_id: ");
    assert(vstd::utf8::is_ascii_chars("Bet "@));
    assert(vstd::utf8::is_ascii_chars(" sats that you will roll a number smaller than "@));
    assert(vstd::utf8::is_ascii_chars(", to multiply your wager by "@));
    assert(vstd::utf8::is_ascii_chars(". nonce_commitment_note_id: "@));
    lemma_ascii_bytes("Bet ");
    lemma_ascii_bytes(" sats that you will roll a number smaller than ");
    lemma_ascii_bytes(", to multiply your wager by ");
    lemma_ascii_bytes(". nonce_commitment_note_id: ");
    assert(q1[0] == 32 && !is_digit(32));
    assert(q2[0] == 44 && !is_digit(44));
    assert(p3[0] == 46 && p3[1] == 32);

    let d1 = dec_of(sats);
    let d2 = dec_of(m.threshold() as nat);
    let ll = encode_utf8(m.label());
    let h1 = hex_of(commitment);
    let h2 = hex_of(sha256_of(content));
    let d3 = dec_of(index);
    lemma_dec_of_digits(sats);
    lemma_dec_of_digits(m.threshold() as nat);
    lemma_dec_val_of(sats);
    lemma_dec_val_of(m.threshold() as nat);
    lemma_label_bytes(m);

    let t17 = d3;
    let t16 = p8 + t17;
    let t15 = h2 + t16;
    let t14 = p7 + t15;
    let t13 = npub + t14;
    let t12 = p6 + t13;
    let t11 = mult_note_id + t12;
    let t10 = p5 + t11;
    let t9 = h1 + t10;
    let t8 = p4 + t9;
    let t7 = note_id + t8;
    let t6 = p3 + t7;
    let t5 = ll + t6;
    let t4 = q2 + t5;
    let t3 = d2 + t4;
    let t2 = q1 + t3;
    let t1 = d1 + t2;
    let l1 = p0 + d1;
    let l2 = l1 + q1;
    let l3 = l2 + d2;
    let l4 = l3 + q2;
    let l5 = l4 + ll;
    let l6 = l5 + p3;
    let l7 = l6 + note_id;
    let l8 = l7 + p4;
    let l9 = l8 + h1;
    let l10 = l9 + p5;
    let l11 = l10 + mult_note_id;
    let l12 = l11 + p6;
    let l13 = l12 + npub;
    let l14 = l13 + p7;
    let l15 = l14 + h2;
    let l16 = l15 + p8;
    let s = memo_bytes(sats, m, note_id, commitment, mult_note_id, npub, content, index);
    assert(s == l16 + d3);
    lemma_assoc(l15, p8, t17);
    assert(s == l15 + t16);
    lemma_assoc(l14, h2, t16);
    assert(s == l14 + t15);
    lemma_assoc(l13, p7, t15);
    assert(s == l13 + t14);
    lemma_assoc(l12, npub, t14);
    assert(s == l12 + t13);
    lemma_assoc(l11, p6, t13);
    assert(s == l11 + t12);
    lemma_assoc(l10, mult_note_id, t12);
    assert(s == l10 + t11);
    lemma_assoc(l9, p5, t11);
    assert(s == l9 + t10);
    lemma_assoc(l8, h1, t10);
    assert(s == l8 + t9);
    lemma_assoc(l7, p4, t9);
    assert(s == l7 + t8);
    lemma_assoc(l6, note_id, t8);
    assert(s == l6 + t7);
    lemma_assoc(l5, p3, t7);
    assert(s == l5 + t6);
    lemma_assoc(l4, ll, t6);
    assert(s == l4 + t5);
    lemma_assoc(l3, q2, t5);
    assert(s == l3 + t4);
    lemma_assoc(l2, d2, t4);
    assert(s == l2 + t3);
    lemma_assoc(l1, q1, t3);
    assert(s == l1 + t2);
    lemma_assoc(p0, d1, t2);
    assert(s == p0 + t1);

    lemma_peel(p0, t1);
    let s1 = s.skip(p0.len() as int);
    assert(s1 =~= t1);

    assert forall|j: int| 0 <= j < d1.len() implies is_digit(#[trigger] t1[j]) by {
        assert(t1[j] == d1[j]);
    }
    assert(t1[d1.len() as int] == q1[0]);
    lemma_digit_run_is(t1, d1.len() as int);
    assert(t1.take(d1.len() as int) =~= d1);
    assert(t1.skip(d1.len() as int) =~= t2);
    let s2 = s1.skip(d1.len() as int);
    assert(s2 =~= t2);

    lemma_peel(q1, t3);
    let s3 = s2.skip(q1.len() as int);
    assert(s3 =~= t3);

    assert forall|j: int| 0 <= j < d2.len() implies is_digit(#[trigger] t3[j]) by {
        assert(t3[j] == d2[j]);
    }
    assert(t3[d2.len() as int] == q2[0]);
    lemma_digit_run_is(t3, d2.len() as int);
    assert(t3.take(d2.len() as int) =~= d2);
    assert(t3.skip(d2.len() as int) =~= t4);
    let s4 = s3.skip(d2.len() as int);
    assert(s4 =~= t4);

    lemma_peel(q2, t5);
    let s5 = s4.skip(q2.len() as int);
    assert(s5 =~= t5);

    assert forall|j: int| 0 <= j < ll.len() implies !(#[trigger] t5[j] == 46 && t5[j + 1] == 32)
        by {
        if j + 1 < ll.len() {
            assert(t5[j] == ll[j]);
            assert(t5[j + 1] == ll[j + 1]);
        } else {
            assert(t5[j + 1] == t6[0]);
            assert(t6[0] == p3[0]);
        }
    }
    assert(t5[ll.len() as int] == p3[0]);
    assert(t5[ll.len() as int + 1] == p3[1]);
    lemma_find_pair_is(t5, 46, 32, ll.len() as int);
    assert(t5.take(ll.len() as int) =~= ll);
    assert(t5.skip(ll.len() as int) =~= t6);
    let s6 = s5.skip(ll.len() as int);
    assert(s6 =~= t6);

    lemma_memo_ids_round_trip(
        sats,
        m.threshold() as nat,
        ll,
        note_id,
        commitment,
        mult_note_id,
        npub,
        content,
        index,
    );
    assert(parse_memo_ids(s6, sats, m.threshold() as nat, ll) == parse_memo_ids(
        t6,
        sats,
        m.threshold() as nat,
        ll,
    ));
}

} // verus!
