use vstd::prelude::*;
use vstd::utf8::encode_utf8;
use crate::bet::bet_step_ok;
use crate::bet::BetState;
use crate::multiplier::spec_get_multiplier_note;
use crate::multiplier::MultiplierNote;
use crate::multiplier::Multipliers;
use crate::roll::generate_roll;
use crate::roll::payout_sat;
use crate::roll::roll_of;
use crate::roll::calculate_price_money;
use crate::settlement::with_state;
use crate::store::spec_find_nonce;
use crate::store::lemma_find_at_index;
use crate::store::lemma_hashes_contains;
use crate::store::lemma_hashes_distinct;
use crate::store::lemma_hashes_member;
use crate::store::spec_find_zap;
use crate::store::spec_hashes_with_commitment;
use crate::store::Store;
use crate::store::Zap;

verus! {

/// What evaluating a paid bet leads to.
#[derive(Debug)]
pub enum RollOutcome {
    /// No bet is stored under the payment hash.
    NoBet,
    /// The bet is not in `ZapPaid`: nothing to evaluate. A terminal bet
    /// replayed here is left untouched.
    NotPayable,
    /// The bet is anchored to a commitment id that the nonce table does
    /// not hold.
    UnknownNonce,
    /// The anchoring nonce is still the active one: the bet must wait for
    /// the nonce to expire.
    Postponed,
    /// The bet names a note id that is not in the multiplier table.
    UnknownMultiplier,
    /// The roll was at or above the threshold: the bet is now `Loser`.
    Lost { roll: u16, threshold: u16 },
    /// The roll was below the threshold: the payout in satoshis must now
    /// be zapped to the roller, and the result recorded with
    /// `record_zap_result`.
    WonAwaitingPayout { roll: u16, threshold: u16, amount_sat: u64 },
}

/// The nonce recorded under a commitment id, as bytes.
pub open spec fn spec_nonce_of(store: Store, id: Seq<char>) -> Seq<u8> {
    match spec_find_nonce(store.nonces_seq(), id) {
        Some(rec) => rec.nonce@,
        None => Seq::empty(),
    }
}

/// The roll of a stored bet: determined by its anchoring nonce, its
/// index, its roller and its memo text, and by nothing else.
pub open spec fn bet_roll(store: Store, z: Zap) -> u16 {
    roll_of(
        spec_nonce_of(store, z.nonce_commitment_note_id@),
        z.index as nat,
        encode_utf8(z.roller@),
        encode_utf8(z.request_content@),
    )
}

/// Evaluates a paid bet against its revealed nonce.
///
/// Only a bet in `ZapPaid` is evaluated, and only once its anchoring
/// nonce is known and no longer active. A losing bet is recorded as
/// `Loser` at once. A winning bet stays in `ZapPaid` until the outbound
/// zap has been attempted and its result recorded, so that the payout is
/// made at most once.
pub fn roll_the_die(store: &mut Store, payment_hash: &String, multipliers: &Multipliers) -> (o:
    RollOutcome)
    requires
        old(store).wf(),
    ensures
        final(store).wf(),
        final(store).nonces_seq() == old(store).nonces_seq(),
        final(store).active_id() == old(store).active_id(),
        final(store).expired_id() == old(store).expired_id(),
        match o {
            RollOutcome::NoBet => spec_find_zap(old(store).zaps_seq(), payment_hash@) is None
                && *final(store) == *old(store),
            RollOutcome::NotPayable => (spec_find_zap(
                old(store).zaps_seq(),
                payment_hash@,
            ) matches Some(prev) && prev.bet_state != BetState::ZapPaid) && *final(store) == *old(
                store,
            ),
            RollOutcome::UnknownNonce => (spec_find_zap(
                old(store).zaps_seq(),
                payment_hash@,
            ) matches Some(prev) && prev.bet_state == BetState::ZapPaid && !old(store).has_nonce(
                prev.nonce_commitment_note_id@,
            )) && *final(store) == *old(store),
            RollOutcome::Postponed => (spec_find_zap(
                old(store).zaps_seq(),
                payment_hash@,
            ) matches Some(prev) && prev.bet_state == BetState::ZapPaid && old(store).has_nonce(
                prev.nonce_commitment_note_id@,
            ) && old(store).active_id() == Some(prev.nonce_commitment_note_id@)) && *final(store)
                == *old(store),
            RollOutcome::UnknownMultiplier => (spec_find_zap(
                old(store).zaps_seq(),
                payment_hash@,
            ) matches Some(prev) && prev.bet_state == BetState::ZapPaid && old(store).has_nonce(
                prev.nonce_commitment_note_id@,
            ) && old(store).active_id() != Some(prev.nonce_commitment_note_id@)
                && spec_get_multiplier_note(multipliers.0@, prev.multiplier_note_id@) is None)
                && *final(store) == *old(store),
            RollOutcome::Lost { roll, threshold } => (spec_find_zap(
                old(store).zaps_seq(),
                payment_hash@,
            ) matches Some(prev) && prev.bet_state == BetState::ZapPaid && old(store).has_nonce(
                prev.nonce_commitment_note_id@,
            ) && old(store).active_id() != Some(prev.nonce_commitment_note_id@)
                && (spec_get_multiplier_note(multipliers.0@, prev.multiplier_note_id@) matches Some(
                note,
            ) && roll == bet_roll(*old(store), prev) && threshold == note.multiplier.threshold()
                && roll >= threshold) && bet_step_ok(prev.bet_state, BetState::Loser) && (forall|
                h2: Seq<char>,
            |
                #[trigger] spec_find_zap(final(store).zaps_seq(), h2) == (if h2 == payment_hash@ {
                    Some(with_state(prev, BetState::Loser))
                } else {
                    spec_find_zap(old(store).zaps_seq(), h2)
                }))),
            RollOutcome::WonAwaitingPayout { roll, threshold, amount_sat } => (spec_find_zap(
                old(store).zaps_seq(),
                payment_hash@,
            ) matches Some(prev) && prev.bet_state == BetState::ZapPaid && old(store).has_nonce(
                prev.nonce_commitment_note_id@,
            ) && old(store).active_id() != Some(prev.nonce_commitment_note_id@)
                && (spec_get_multiplier_note(multipliers.0@, prev.multiplier_note_id@) matches Some(
                note,
            ) && roll == bet_roll(*old(store), prev) && threshold == note.multiplier.threshold()
                && roll < threshold && amount_sat == payout_sat(prev.amount_msat, note.multiplier)))
                && *final(store) == *old(store),
        },
{
    let zap = match store.get_zap(payment_hash) {
        None => {
            return RollOutcome::NoBet;
        },
        Some(z) => z,
    };
    match zap.bet_state {
        BetState::ZapPaid => {},
        _ => {
            return RollOutcome::NotPayable;
        },
    }
    let nonce = match store.get_nonce(&zap.nonce_commitment_note_id) {
        None => {
            return RollOutcome::UnknownNonce;
        },
        Some(n) => n,
    };
    let active = store.get_active_nonce();
    let is_active = match &active {
        Some(round) => round.event_id == zap.nonce_commitment_note_id,
        None => false,
    };
    if is_active {
        return RollOutcome::Postponed;
    }
    let note = match multipliers.get_multiplier_note(zap.multiplier_note_id.as_str()) {
        None => {
            return RollOutcome::UnknownMultiplier;
        },
        Some(note) => note,
    };
    let roll = generate_roll(nonce, zap.index, zap.roller.as_str(), zap.request_content.as_str());
    let threshold = note.multiplier.get_lower_than();
    if roll >= threshold {
        let ghost prev = zap;
        let mut loser = zap;
        loser.bet_state = BetState::Loser;
        proof {
            assert(store.commitment_ok(loser));
        }
        let res = store.upsert_zap(payment_hash.clone(), loser);
        match res {
            Ok(()) => RollOutcome::Lost { roll, threshold },
            Err(_) => {
                proof {
                    assert(false);
                }
                RollOutcome::NotPayable
            },
        }
    } else {
        let amount_sat = calculate_price_money(zap.amount_msat, &note.multiplier);
        RollOutcome::WonAwaitingPayout { roll, threshold, amount_sat }
    }
}

/// What the end-of-round evaluation does to one stored bet: a paid bet
/// whose anchoring nonce is recorded and no longer active, and whose
/// multiplier note is known, becomes `Loser` when its roll is at or above
/// the threshold. Every other bet is left as it stands; a winning bet in
/// particular stays `ZapPaid` until its payout result is recorded.
pub open spec fn spec_end_of_round(store: Store, table: Seq<MultiplierNote>, z: Zap) -> Zap {
    if z.bet_state == BetState::ZapPaid && store.has_nonce(z.nonce_commitment_note_id@)
        && store.active_id() != Some(z.nonce_commitment_note_id@) {
        match spec_get_multiplier_note(table, z.multiplier_note_id@) {
            Some(note) => if bet_roll(store, z) >= note.multiplier.threshold() {
                with_state(z, BetState::Loser)
            } else {
                z
            },
            None => z,
        }
    } else {
        z
    }
}

/// A bet that won its roll and now awaits its payout: paid, anchored to a
/// recorded nonce that is no longer active, with a known multiplier, and
/// rolled below the threshold.
pub open spec fn awaits_payout(store: Store, table: Seq<MultiplierNote>, z: Zap) -> bool {
    &&& z.bet_state == BetState::ZapPaid
    &&& store.has_nonce(z.nonce_commitment_note_id@)
    &&& store.active_id() != Some(z.nonce_commitment_note_id@)
    &&& (match spec_get_multiplier_note(table, z.multiplier_note_id@) {
        Some(note) => bet_roll(store, z) < note.multiplier.threshold(),
        None => false,
    })
}

/// The outcome reported for a bet is faithful: a bet that won its roll is
/// reported as awaiting its payout, with the exact roll, threshold and
/// amount owed.
pub open spec fn spec_round_outcome_ok(
    store: Store,
    table: Seq<MultiplierNote>,
    z: Zap,
    o: RollOutcome,
) -> bool {
    awaits_payout(store, table, z) ==> (match spec_get_multiplier_note(
        table,
        z.multiplier_note_id@,
    ) {
        Some(note) => o matches RollOutcome::WonAwaitingPayout { roll, threshold, amount_sat }
            && roll == bet_roll(store, z) && threshold == note.multiplier.threshold() && amount_sat
            == payout_sat(z.amount_msat, note.multiplier),
        None => true,
    })
}

/// End-of-round payout: evaluates every bet anchored to the given
/// commitment id, in store order.
///
/// Losing paid bets are recorded as `Loser`; winning paid bets keep
/// `ZapPaid` and are reported with the exact payout owed, so that the
/// caller can attempt each outbound zap and record its result. Bets
/// anchored to other commitments are untouched.
pub fn payout_round(store: &mut Store, event_id: &String, multipliers: &Multipliers) -> (outcomes:
    Vec<(String, RollOutcome)>)
    requires
        old(store).wf(),
    ensures
        final(store).wf(),
        final(store).nonces_seq() == old(store).nonces_seq(),
        final(store).active_id() == old(store).active_id(),
        final(store).expired_id() == old(store).expired_id(),
        forall|h: Seq<char>|
            #[trigger] spec_find_zap(final(store).zaps_seq(), h) == (match spec_find_zap(
                old(store).zaps_seq(),
                h,
            ) {
                Some(z) => if z.nonce_commitment_note_id@ == event_id@ {
                    Some(spec_end_of_round(*old(store), multipliers.0@, z))
                } else {
                    Some(z)
                },
                None => None::<Zap>,
            }),
        outcomes@.len() == spec_hashes_with_commitment(old(store).zaps_seq(), event_id@).len(),
        forall|j: int|
            0 <= j < outcomes@.len() ==> (#[trigger] outcomes@[j]).0@
                == spec_hashes_with_commitment(old(store).zaps_seq(), event_id@)[j],
        forall|j: int|
            0 <= j < outcomes@.len() ==> (spec_find_zap(
                old(store).zaps_seq(),
                (#[trigger] outcomes@[j]).0@,
            ) matches Some(z) && spec_round_outcome_ok(
                *old(store),
                multipliers.0@,
                z,
                outcomes@[j].1,
            )),
{
    let ghost old0 = *store;
    let hashes = store.get_hashes_by_event_id(event_id);
    let ghost hs = spec_hashes_with_commitment(old0.zaps_seq(), event_id@);
    proof {
        lemma_hashes_distinct(old0.zaps_seq(), event_id@);
    }
    let mut outcomes: Vec<(String, RollOutcome)> = Vec::new();
    let mut i: usize = 0;
    while i < hashes.len()
        invariant
            i <= hashes@.len(),
            old0.wf(),
            store.wf(),
            hashes@.map_values(|h: String| h@) == hs,
            hs == spec_hashes_with_commitment(old0.zaps_seq(), event_id@),
            store.nonces_seq() == old0.nonces_seq(),
            store.active_id() == old0.active_id(),
            store.expired_id() == old0.expired_id(),
            forall|a: int, b: int| 0 <= a < b < hs.len() ==> #[trigger] hs[a] != #[trigger] hs[b],
            forall|h: Seq<char>|
                #[trigger] spec_find_zap(store.zaps_seq(), h) == (if (exists|j: int|
                    0 <= j < i && hs[j] == h) {
                    match spec_find_zap(old0.zaps_seq(), h) {
                        Some(z) => Some(spec_end_of_round(old0, multipliers.0@, z)),
                        None => None::<Zap>,
                    }
                } else {
                    spec_find_zap(old0.zaps_seq(), h)
                }),
            outcomes@.len() == i,
            forall|j: int| 0 <= j < i ==> (#[trigger] outcomes@[j]).0@ == hs[j],
            forall|j: int|
                0 <= j < i ==> (spec_find_zap(old0.zaps_seq(), (#[trigger] outcomes@[j]).0@)
                    matches Some(z) && spec_round_outcome_ok(
                    old0,
                    multipliers.0@,
                    z,
                    outcomes@[j].1,
                )),
        decreases hashes@.len() - i,
    {
        let ghost h_cur = hs[i as int];
        proof {
            assert(hashes@[i as int]@ == hs[i as int]);
            lemma_hashes_member(old0.zaps_seq(), event_id@, i as int);
            let k = choose|k: int|
                0 <= k < old0.zaps_seq().len() && (#[trigger] old0.zaps_seq()[k]).payment_hash@
                    == hs[i as int] && old0.zaps_seq()[k].zap.nonce_commitment_note_id@
                    == event_id@;
            lemma_find_at_index(old0.zaps_seq(), k);
            assert(spec_find_zap(old0.zaps_seq(), h_cur) == Some(old0.zaps_seq()[k].zap));
            assert(!(exists|j: int| 0 <= j < i && hs[j] == h_cur));
            assert(spec_find_zap(store.zaps_seq(), h_cur) == spec_find_zap(
                old0.zaps_seq(),
                h_cur,
            ));
        }
        let ghost pre = *store;
        let ghost z_cur = spec_find_zap(old0.zaps_seq(), h_cur)->0;
        let outcome = roll_the_die(store, &hashes[i], multipliers);
        proof {
            assert(bet_roll(pre, z_cur) == bet_roll(old0, z_cur)) by {
                assert(spec_nonce_of(pre, z_cur.nonce_commitment_note_id@) == spec_nonce_of(
                    old0,
                    z_cur.nonce_commitment_note_id@,
                ));
            }
            assert(spec_find_zap(store.zaps_seq(), h_cur) == Some(
                spec_end_of_round(old0, multipliers.0@, z_cur),
            ));
            assert(spec_round_outcome_ok(old0, multipliers.0@, z_cur, outcome));
            assert forall|h: Seq<char>|
                #[trigger] spec_find_zap(store.zaps_seq(), h) == (if (exists|j: int|
                    0 <= j < i + 1 && hs[j] == h) {
                    match spec_find_zap(old0.zaps_seq(), h) {
                        Some(z) => Some(spec_end_of_round(old0, multipliers.0@, z)),
                        None => None::<Zap>,
                    }
                } else {
                    spec_find_zap(old0.zaps_seq(), h)
                }) by {
                if h == h_cur {
                    assert(hs[i as int] == h);
                } else {
                    if exists|j: int| 0 <= j < i && hs[j] == h {
                        let j = choose|j: int| 0 <= j < i && hs[j] == h;
                        assert(0 <= j < i + 1 && hs[j] == h);
                    }
                    if exists|j: int| 0 <= j < i + 1 && hs[j] == h {
                        let j = choose|j: int| 0 <= j < i + 1 && hs[j] == h;
                        assert(j != i);
                        assert(0 <= j < i && hs[j] == h);
                    }
                }
            }
        }
        let hash = hashes[i].clone();
        outcomes.push((hash, outcome));
        i = i + 1;
    }
    proof {
        assert forall|h: Seq<char>|
            #[trigger] spec_find_zap(store.zaps_seq(), h) == (match spec_find_zap(
                old0.zaps_seq(),
                h,
            ) {
                Some(z) => if z.nonce_commitment_note_id@ == event_id@ {
                    Some(spec_end_of_round(old0, multipliers.0@, z))
                } else {
                    Some(z)
                },
                None => None::<Zap>,
            }) by {
            match spec_find_zap(old0.zaps_seq(), h) {
                Some(z) => {
                    if z.nonce_commitment_note_id@ == event_id@ {
                        crate::store::lemma_find_zap_member(old0.zaps_seq(), h);
                        let k = choose|k: int|
                            0 <= k < old0.zaps_seq().len() && (#[trigger] old0.zaps_seq()[k]).payment_hash@
                                == h && spec_find_zap(old0.zaps_seq(), h) == Some(
                                old0.zaps_seq()[k].zap,
                            );
                        lemma_hashes_contains(old0.zaps_seq(), event_id@, k);
                        assert(exists|j: int| 0 <= j < i && hs[j] == h);
                    } else {
                        if exists|j: int| 0 <= j < i && hs[j] == h {
                            let j = choose|j: int| 0 <= j < i && hs[j] == h;
                            lemma_hashes_member(old0.zaps_seq(), event_id@, j);
                            let k = choose|k: int|
                                0 <= k < old0.zaps_seq().len() && (#[trigger] old0.zaps_seq()[k]).payment_hash@
                                    == hs[j] && old0.zaps_seq()[k].zap.nonce_commitment_note_id@
                                    == event_id@;
                            lemma_find_at_index(old0.zaps_seq(), k);
                        }
                    }
                },
                None => {
                    if exists|j: int| 0 <= j < i && hs[j] == h {
                        let j = choose|j: int| 0 <= j < i && hs[j] == h;
                        lemma_hashes_member(old0.zaps_seq(), event_id@, j);
                        let k = choose|k: int|
                            0 <= k < old0.zaps_seq().len() && (#[trigger] old0.zaps_seq()[k]).payment_hash@
                                == hs[j] && old0.zaps_seq()[k].zap.nonce_commitment_note_id@
                                == event_id@;
                        lemma_find_at_index(old0.zaps_seq(), k);
                    }
                },
            }
        }
    }
    outcomes
}

/// Records the result of the outbound zap for a winning bet: success
/// moves the bet to `PaidWinner`, failure to `ZapFailed`. A bet that is
/// not in `ZapPaid` — already terminal, or never paid — is left
/// untouched, so a replayed call is a no-op.
pub fn record_zap_result(store: &mut Store, payment_hash: &String, success: bool) -> (o: Option<
    BetState,
>)
    requires
        old(store).wf(),
    ensures
        final(store).wf(),
        final(store).nonces_seq() == old(store).nonces_seq(),
        final(store).active_id() == old(store).active_id(),
        final(store).expired_id() == old(store).expired_id(),
        match o {
            Some(state) => (spec_find_zap(old(store).zaps_seq(), payment_hash@) matches Some(prev)
                && prev.bet_state == BetState::ZapPaid && state == (if success {
                BetState::PaidWinner
            } else {
                BetState::ZapFailed
            }) && bet_step_ok(prev.bet_state, state) && (forall|h2: Seq<char>|
                #[trigger] spec_find_zap(final(store).zaps_seq(), h2) == (if h2 == payment_hash@ {
                    Some(with_state(prev, state))
                } else {
                    spec_find_zap(old(store).zaps_seq(), h2)
                }))),
            None => (spec_find_zap(old(store).zaps_seq(), payment_hash@) is None || (spec_find_zap(
                old(store).zaps_seq(),
                payment_hash@,
            ) matches Some(prev) && prev.bet_state != BetState::ZapPaid)) && *final(store) == *old(
                store,
            ),
        },
{
    let zap = match store.get_zap(payment_hash) {
        None => {
            return None;
        },
        Some(z) => z,
    };
    match zap.bet_state {
        BetState::ZapPaid => {},
        _ => {
            return None;
        },
    }
    let state = if success {
        BetState::PaidWinner
    } else {
        BetState::ZapFailed
    };
    let mut updated = zap;
    updated.bet_state = state;
    proof {
        crate::store::lemma_find_zap_member(store.zaps_seq(), payment_hash@);
        let i = choose|i: int|
            0 <= i < store.zaps_seq().len() && (#[trigger] store.zaps_seq()[i]).payment_hash@
                == payment_hash@ && spec_find_zap(store.zaps_seq(), payment_hash@) == Some(
                store.zaps_seq()[i].zap,
            );
        assert(store.commitment_ok(store.zaps_seq()[i].zap));
        assert(store.commitment_ok(updated));
    }
    let res = store.upsert_zap(payment_hash.clone(), updated);
    match res {
        Ok(()) => Some(state),
        Err(_) => {
            proof {
                assert(false);
            }
            None
        },
    }
}

} // verus!
