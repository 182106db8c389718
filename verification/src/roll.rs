use vstd::prelude::*;
use vstd::string::StringSliceAdditionalSpecFns;
use vstd::string::StrSliceExecFns;
use crate::multiplier::Multiplier;

verus! {

/// The SHA-256 digest of a byte sequence. The digest itself is computed by
/// an outside crate; only its length and its dependence on the input alone
/// are stated here.
pub uninterp spec fn sha256_of(data: Seq<u8>) -> Seq<u8>;

/// Relies on `bitcoin::hashes::sha256::Hash::hash`: the SHA-256 digest of
/// the input bytes, 32 bytes long, a function of the input alone.
#[verifier::external_body]
pub(crate) fn sha256(data: &[u8]) -> (r: [u8; 32])
    ensures
        r@ == sha256_of(data@),
{
    let h = <bitcoin::hashes::sha256::Hash as bitcoin::hashes::Hash>::hash(data);
    <bitcoin::hashes::sha256::Hash as bitcoin::hashes::Hash>::to_byte_array(h)
}

/// The ASCII code of the lowercase hex digit for a value below 16.
pub open spec fn hex_digit(n: u8) -> u8
    recommends
        n < 16,
{
    if n < 10 {
        (48 + n) as u8
    } else {
        (87 + n) as u8
    }
}

/// The lowercase hex encoding of a byte sequence: two digits per byte,
/// high nibble first.
pub open spec fn hex_of(data: Seq<u8>) -> Seq<u8> {
    Seq::new(
        2 * data.len(),
        |i: int|
            if i % 2 == 0 {
                hex_digit((data[i / 2] / 16) as u8)
            } else {
                hex_digit((data[i / 2] % 16) as u8)
            },
    )
}

/// Relies on `hex::encode`: the lowercase hex encoding of the bytes, two
/// digits per byte, high nibble first.
#[verifier::external_body]
pub(crate) fn hex_encode(data: &[u8]) -> (r: Vec<u8>)
    ensures
        r@ == hex_of(data@),
{
    hex::encode(data).into_bytes()
}

/// The decimal ASCII digits of a number, most significant first, without
/// leading zeros.
pub open spec fn dec_of(n: nat) -> Seq<u8>
    decreases n,
{
    if n < 10 {
        seq![(48 + n) as u8]
    } else {
        dec_of(n / 10) + seq![(48 + n % 10) as u8]
    }
}

/// Renders a number as decimal ASCII digits, most significant first.
pub fn u64_to_decimal(n: u64) -> (r: Vec<u8>)
    ensures
        r@ == dec_of(n as nat),
    decreases n,
{
    if n < 10 {
        let mut v: Vec<u8> = Vec::new();
        v.push((48 + n) as u8);
        proof {
            assert(v@ =~= dec_of(n as nat));
        }
        v
    } else {
        let mut v = u64_to_decimal(n / 10);
        v.push((48 + n % 10) as u8);
        proof {
            assert(v@ =~= dec_of(n as nat));
        }
        v
    }
}

/// The preimage hashed to determine a roll: the lowercase hex of the nonce,
/// then the roller's npub, then the memo, then the decimal index, all as
/// raw bytes.
pub open spec fn roll_message(nonce: Seq<u8>, index: nat, npub: Seq<u8>, memo: Seq<u8>) -> Seq<u8> {
    hex_of(nonce) + npub + memo + dec_of(index)
}

/// The roll for a bet: the unsigned big-endian value of the first two bytes
/// of the digest of the roll message.
pub open spec fn roll_of(nonce: Seq<u8>, index: nat, npub: Seq<u8>, memo: Seq<u8>) -> u16 {
    let h = sha256_of(roll_message(nonce, index, npub, memo));
    (h[0] * 256 + h[1]) as u16
}

/// Computes the roll for a bet: a pure function of the nonce, the bet index,
/// the roller's npub and the memo text.
pub fn generate_roll(nonce: [u8; 32], index: usize, roller_npub: &str, memo: &str) -> (r: u16)
    ensures
        r == roll_of(nonce@, index as nat, roller_npub.spec_bytes(), memo.spec_bytes()),
{
    let mut message: Vec<u8> = hex_encode(nonce.as_slice());
    let mut npub_bytes: Vec<u8> = roller_npub.as_bytes_vec();
    message.append(&mut npub_bytes);
    let mut memo_bytes: Vec<u8> = memo.as_bytes_vec();
    message.append(&mut memo_bytes);
    let mut index_bytes: Vec<u8> = u64_to_decimal(index as u64);
    message.append(&mut index_bytes);
    proof {
        assert(message@ =~= roll_message(
            nonce@,
            index as nat,
            roller_npub.spec_bytes(),
            memo.spec_bytes(),
        ));
    }
    let h = sha256(message.as_slice());
    let hi = h[0];
    let lo = h[1];
    (hi as u16) * 256 + (lo as u16)
}

/// Rolls with the same inputs are the same: the roll is a pure function.
pub proof fn lemma_roll_deterministic(
    nonce1: Seq<u8>,
    index1: nat,
    npub1: Seq<u8>,
    memo1: Seq<u8>,
    nonce2: Seq<u8>,
    index2: nat,
    npub2: Seq<u8>,
    memo2: Seq<u8>,
)
    requires
        nonce1 == nonce2,
        index1 == index2,
        npub1 == npub2,
        memo1 == memo2,
    ensures
        roll_of(nonce1, index1, npub1, memo1) == roll_of(nonce2, index2, npub2, memo2),
{
}

/// The payout in satoshis for a winning bet: the wagered amount in sats
/// times the payout factor, rounded down, computed exactly in hundredths.
pub open spec fn payout_sat(amount_msat: u64, m: Multiplier) -> int {
    (amount_msat * m.factor_hundredths()) / 100000
}

/// Computes the payout for a winning bet.
pub fn calculate_price_money(amount_msat: u64, multiplier: &Multiplier) -> (r: u64)
    ensures
        r == payout_sat(amount_msat, *multiplier),
{
    let f: u64 = multiplier.get_factor_hundredths();
    proof {
        assert((amount_msat as int) * (f as int) <= 0xFFFF_FFFF_FFFF_FFFFu64 * 100000)
            by (nonlinear_arith)
            requires
                amount_msat <= 0xFFFF_FFFF_FFFF_FFFFu64,
                f <= 100000,
        ;
    }
    let prod: u128 = (amount_msat as u128) * (f as u128);
    let sats: u128 = prod / 100000;
    proof {
        assert(sats <= amount_msat) by (nonlinear_arith)
            requires
                sats == ((amount_msat as u128) * (f as u128)) / 100000,
                f <= 100000,
        ;
    }
    sats as u64
}

} // verus!
