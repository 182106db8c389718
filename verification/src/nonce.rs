use vstd::prelude::*;
use crate::roll::sha256;
use crate::roll::sha256_of;
use crate::store::spec_find_nonce;
use crate::store::NonceRecord;
use crate::store::Round;
use crate::store::Store;

verus! {

/// The commitment to a nonce: its SHA-256 digest, published before any
/// bet against the nonce is accepted.
pub fn nonce_commitment(nonce: [u8; 32]) -> (c: [u8; 32])
    ensures
        c@ == sha256_of(nonce@),
{
    sha256(nonce.as_slice())
}

/// Relies on `rand::thread_rng`, a cryptographically secure generator:
/// 32 random bytes. Nothing is assumed of the value.
#[verifier::external_body]
fn random_bytes() -> [u8; 32] {
    let mut rng = rand::thread_rng();
    rand::Rng::gen::<[u8; 32]>(&mut rng)
}

/// Starts a round: draws a fresh random nonce and computes the commitment
/// under which it will be published. Whatever nonce was drawn, the
/// commitment is its digest.
pub fn new_round_nonce() -> (r: ([u8; 32], [u8; 32]))
    ensures
        r.1@ == sha256_of(r.0@),
{
    let nonce = random_bytes();
    let commitment = nonce_commitment(nonce);
    (nonce, commitment)
}

/// Startup recovery. First the active pointer is cleared, so that no bet
/// is taken against a nonce that may already have been revealed; then the
/// rounds to reveal are handed back: the formerly active round, if any,
/// followed by the latest expired round, if any. Revealing them again is
/// harmless, and no returned round is active when the call returns.
pub fn recover_on_startup(store: &mut Store) -> (reveals: Vec<Round>)
    requires
        old(store).wf(),
    ensures
        final(store).wf(),
        final(store).active_id() is None,
        final(store).nonces_seq() == old(store).nonces_seq(),
        final(store).expired_id() == old(store).expired_id(),
        final(store).zaps_seq() == old(store).zaps_seq(),
        reveals@.len() == (if old(store).active_id() is Some {
            1int
        } else {
            0
        }) + (if old(store).expired_id() is Some {
            1int
        } else {
            0
        }),
        old(store).active_id() matches Some(id) ==> reveals@[0].event_id@ == id
            && spec_find_nonce(old(store).nonces_seq(), id) == Some(
            (NonceRecord { event_id: reveals@[0].event_id, nonce: reveals@[0].nonce }),
        ),
        old(store).expired_id() matches Some(id) ==> reveals@.last().event_id@ == id
            && spec_find_nonce(old(store).nonces_seq(), id) == Some(
            (NonceRecord { event_id: reveals@.last().event_id, nonce: reveals@.last().nonce }),
        ),
        forall|i: int|
            0 <= i < reveals@.len() ==> final(store).active_id() != Some(
                #[trigger] reveals@[i].event_id@,
            ),
{
    let mut reveals: Vec<Round> = Vec::new();
    match store.unset_active_nonce() {
        Some(round) => {
            reveals.push(round);
        },
        None => {},
    }
    match store.get_latest_expired_nonce() {
        Some(round) => {
            reveals.push(round);
        },
        None => {},
    }
    reveals
}

} // verus!
