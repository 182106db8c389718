use vstd::prelude::*;
use vstd::string::StrSliceExecFns;
use vstd::string::StringSliceAdditionalSpecFns;
use vstd::utf8::encode_utf8;
use crate::bet::BetState;
use crate::multiplier::spec_get_multiplier_note;
use crate::multiplier::Multiplier;
use crate::multiplier::Multipliers;
use crate::roll::dec_of;
use crate::roll::u64_to_decimal;
use crate::store::Zap;

verus! {

impl Multiplier {
    /// The payout factor written out in decimal, as the summary posts
    /// show it.
    pub open spec fn factor_text(self) -> Seq<char> {
        match self {
            Multiplier::X1_05 => "1.05"@,
            Multiplier::X1_1 => "1.1"@,
            Multiplier::X1_33 => "1.33"@,
            Multiplier::X1_5 => "1.5"@,
            Multiplier::X2 => "2"@,
            Multiplier::X3 => "3"@,
            Multiplier::X10 => "10"@,
            Multiplier::X25 => "25"@,
            Multiplier::X50 => "50"@,
            Multiplier::X100 => "100"@,
            Multiplier::X1000 => "1000"@,
        }
    }

    /// The payout factor in decimal, as executable code.
    pub fn get_factor_text(&self) -> (r: String)
        ensures
            r@ == self.factor_text(),
    {
        match self {
            Multiplier::X1_05 => "1.05".to_owned(),
            Multiplier::X1_1 => "1.1".to_owned(),
            Multiplier::X1_33 => "1.33".to_owned(),
            Multiplier::X1_5 => "1.5".to_owned(),
            Multiplier::X2 => "2".to_owned(),
            Multiplier::X3 => "3".to_owned(),
            Multiplier::X10 => "10".to_owned(),
            Multiplier::X25 => "25".to_owned(),
            Multiplier::X50 => "50".to_owned(),
            Multiplier::X100 => "100".to_owned(),
            Multiplier::X1000 => "1000".to_owned(),
        }
    }
}

/// The bets in the given state whose multiplier note is known, reduced to
/// roller, multiplier and wagered amount, in order.
pub open spec fn spec_filter_zaps(
    table: Seq<crate::multiplier::MultiplierNote>,
    zaps: Seq<Zap>,
    state: BetState,
) -> Seq<(String, Multiplier, u64)>
    decreases zaps.len(),
{
    if zaps.len() == 0 {
        Seq::empty()
    } else {
        let last = zaps.last();
        spec_filter_zaps(table, zaps.drop_last(), state) + (if last.bet_state == state {
            match spec_get_multiplier_note(table, last.multiplier_note_id@) {
                Some(note) => seq![(last.roller, note.multiplier, last.amount_msat)],
                None => Seq::<(String, Multiplier, u64)>::empty(),
            }
        } else {
            Seq::<(String, Multiplier, u64)>::empty()
        })
    }
}

/// Reduces the bets in a given state to roller, multiplier and amount,
/// skipping bets whose multiplier note is unknown.
pub fn filter_zaps(multipliers: &Multipliers, zaps: &Vec<Zap>, state: BetState) -> (r: Vec<
    (String, Multiplier, u64),
>)
    ensures
        r@ =~= spec_filter_zaps(multipliers.0@, zaps@, state),
{
    let mut r: Vec<(String, Multiplier, u64)> = Vec::new();
    let mut i: usize = 0;
    while i < zaps.len()
        invariant
            i <= zaps@.len(),
            r@ =~= spec_filter_zaps(multipliers.0@, zaps@.take(i as int), state),
        decreases zaps@.len() - i,
    {
        proof {
            assert(zaps@.take(i + 1).drop_last() =~= zaps@.take(i as int));
            assert(zaps@.take(i + 1).last() == zaps@[i as int]);
        }
        let zap = &zaps[i];
        let same_state = zap.bet_state.eq_state(&state);
        if same_state {
            match multipliers.get_multiplier_note(zap.multiplier_note_id.as_str()) {
                Some(note) => {
                    r.push((zap.roller.clone(), note.multiplier, zap.amount_msat));
                },
                None => {},
            }
        }
        proof {
            assert(r@ =~= spec_filter_zaps(multipliers.0@, zaps@.take(i + 1), state));
        }
        i = i + 1;
    }
    proof {
        assert(zaps@.take(zaps@.len() as int) =~= zaps@);
    }
    r
}

/// One line of the winners list.
pub open spec fn winner_line(entry: (String, Multiplier, u64)) -> Seq<u8> {
    "- nostr:".spec_bytes() + encode_utf8(entry.0@) + ": won ".spec_bytes() + encode_utf8(
        entry.1.factor_text(),
    ) + " x ".spec_bytes() + dec_of((entry.2 / 1000) as nat) + "sats \n".spec_bytes()
}

/// The winners list, line by line.
pub open spec fn winner_lines(ws: Seq<(String, Multiplier, u64)>) -> Seq<u8>
    decreases ws.len(),
{
    if ws.len() == 0 {
        Seq::empty()
    } else {
        winner_lines(ws.drop_last()) + winner_line(ws.last())
    }
}

/// The winners section: empty without winners, else a heading and one
/// line per winner.
pub open spec fn winners_text(ws: Seq<(String, Multiplier, u64)>) -> Seq<u8> {
    if ws.len() == 0 {
        Seq::empty()
    } else {
        "Winners:\n".spec_bytes() + winner_lines(ws)
    }
}

/// Writes the winners section.
pub fn format_winners(winners: &Vec<(String, Multiplier, u64)>) -> (r: Vec<u8>)
    ensures
        r@ == winners_text(winners@),
{
    let mut r: Vec<u8> = Vec::new();
    if winners.len() == 0 {
        proof {
            assert(r@ =~= winners_text(winners@));
        }
        return r;
    }
    let mut header = "Winners:\n".as_bytes_vec();
    r.append(&mut header);
    let mut i: usize = 0;
    while i < winners.len()
        invariant
            i <= winners@.len(),
            winners@.len() > 0,
            r@ =~= "Winners:\n".spec_bytes() + winner_lines(winners@.take(i as int)),
        decreases winners@.len() - i,
    {
        proof {
            assert(winners@.take(i + 1).drop_last() =~= winners@.take(i as int));
            assert(winners@.take(i + 1).last() == winners@[i as int]);
        }
        let entry = &winners[i];
        let mut piece = "- nostr:".as_bytes_vec();
        r.append(&mut piece);
        let mut npub = entry.0.as_str().as_bytes_vec();
        r.append(&mut npub);
        let mut piece2 = ": won ".as_bytes_vec();
        r.append(&mut piece2);
        let factor = entry.1.get_factor_text();
        let mut factor_bytes = factor.as_str().as_bytes_vec();
        r.append(&mut factor_bytes);
        let mut piece3 = " x ".as_bytes_vec();
        r.append(&mut piece3);
        let mut sats = u64_to_decimal(entry.2 / 1000);
        r.append(&mut sats);
        let mut piece4 = "sats \n".as_bytes_vec();
        r.append(&mut piece4);
        proof {
            assert(r@ =~= "Winners:\n".spec_bytes() + winner_lines(winners@.take(i + 1)));
        }
        i = i + 1;
    }
    proof {
        assert(winners@.take(winners@.len() as int) =~= winners@);
    }
    r
}

/// One line of the losers list.
pub open spec fn loser_line(entry: (String, Multiplier, u64)) -> Seq<u8> {
    "- nostr:".spec_bytes() + encode_utf8(entry.0@) + "\n".spec_bytes()
}

/// The losers list, line by line.
pub open spec fn loser_lines(ls: Seq<(String, Multiplier, u64)>) -> Seq<u8>
    decreases ls.len(),
{
    if ls.len() == 0 {
        Seq::empty()
    } else {
        loser_lines(ls.drop_last()) + loser_line(ls.last())
    }
}

/// The losers section: empty without losers, else a heading and one line
/// per loser.
pub open spec fn losers_text(ls: Seq<(String, Multiplier, u64)>) -> Seq<u8> {
    if ls.len() == 0 {
        Seq::empty()
    } else {
        "Losers - please try again:\n".spec_bytes() + loser_lines(ls)
    }
}

/// Writes the losers section.
pub fn format_losers(players: &Vec<(String, Multiplier, u64)>) -> (r: Vec<u8>)
    ensures
        r@ == losers_text(players@),
{
    let mut r: Vec<u8> = Vec::new();
    if players.len() == 0 {
        proof {
            assert(r@ =~= losers_text(players@));
        }
        return r;
    }
    let mut header = "Losers - please try again:\n".as_bytes_vec();
    r.append(&mut header);
    let mut i: usize = 0;
    while i < players.len()
        invariant
            i <= players@.len(),
            players@.len() > 0,
            r@ =~= "Losers - please try again:\n".spec_bytes() + loser_lines(players@.take(i as int)),
        decreases players@.len() - i,
    {
        proof {
            assert(players@.take(i + 1).drop_last() =~= players@.take(i as int));
            assert(players@.take(i + 1).last() == players@[i as int]);
        }
        let entry = &players[i];
        let mut piece = "- nostr:".as_bytes_vec();
        r.append(&mut piece);
        let mut npub = entry.0.as_str().as_bytes_vec();
        r.append(&mut npub);
        let mut piece2 = "\n".as_bytes_vec();
        r.append(&mut piece2);
        proof {
            assert(r@ =~= "Losers - please try again:\n".spec_bytes() + loser_lines(
                players@.take(i + 1),
            ));
        }
        i = i + 1;
    }
    proof {
        assert(players@.take(players@.len() as int) =~= players@);
    }
    r
}

/// A bet feeds at most one of two different filters, so the two filtered
/// lists together are no longer than the bet list.
proof fn lemma_filter_disjoint_len(
    table: Seq<crate::multiplier::MultiplierNote>,
    zaps: Seq<Zap>,
    s1: BetState,
    s2: BetState,
)
    requires
        s1 != s2,
    ensures
        spec_filter_zaps(table, zaps, s1).len() + spec_filter_zaps(table, zaps, s2).len()
            <= zaps.len(),
    decreases zaps.len(),
{
    if zaps.len() > 0 {
        lemma_filter_disjoint_len(table, zaps.drop_last(), s1, s2);
    }
}

/// The summary posted when a window saw winners: a greeting with the
/// participation counts, the winners, the losers and a closing line
/// naming the game account and the nonce account.
pub open spec fn summary_text(
    ws: Seq<(String, Multiplier, u64)>,
    ls: Seq<(String, Multiplier, u64)>,
    minutes: u64,
    game_npub: Seq<char>,
    nonce_npub: Seq<char>,
) -> Seq<u8> {
    "Winner winner, chicken dinner! Thank you to everyone who played in the last ".spec_bytes()
        + dec_of(minutes as nat) + " minutes. Out of ".spec_bytes() + dec_of(
        (ws.len() + ls.len()) as nat,
    ) + " participants, ".spec_bytes() + dec_of(ws.len() as nat)
        + " of you won some sweet sats. Congrats!".spec_bytes() + " \n ".spec_bytes()
        + winners_text(ws) + "\n".spec_bytes() + losers_text(ls) + "\n".spec_bytes()
        + "Do you have what it takes? Follow nostr:".spec_bytes() + encode_utf8(game_npub)
        + " for another round and nostr:".spec_bytes() + encode_utf8(nonce_npub)
        + " for the published nonces".spec_bytes()
}

/// Assembles the periodic summary of a window of bets: nothing when the
/// window saw no winner, else the full summary message.
pub fn social_summary(
    multipliers: &Multipliers,
    zaps: &Vec<Zap>,
    time_window_minutes: u64,
    game_npub: &str,
    nonce_npub: &str,
) -> (r: Option<Vec<u8>>)
    ensures
        r is None <==> spec_filter_zaps(multipliers.0@, zaps@, BetState::PaidWinner).len() == 0,
        r matches Some(msg) ==> msg@ == summary_text(
            spec_filter_zaps(multipliers.0@, zaps@, BetState::PaidWinner),
            spec_filter_zaps(multipliers.0@, zaps@, BetState::Loser),
            time_window_minutes,
            game_npub@,
            nonce_npub@,
        ),
{
    let winners = filter_zaps(multipliers, zaps, BetState::PaidWinner);
    if winners.len() == 0 {
        return None;
    }
    let losers = filter_zaps(multipliers, zaps, BetState::Loser);
    let total_bets = zaps.len();
    proof {
        lemma_filter_disjoint_len(multipliers.0@, zaps@, BetState::PaidWinner, BetState::Loser);
        assert(winners@.len() + losers@.len() <= total_bets);
    }
    let participants: usize = winners.len() + losers.len();
    let mut msg: Vec<u8> =
        "Winner winner, chicken dinner! Thank you to everyone who played in the last ".as_bytes_vec();
    let mut minutes = u64_to_decimal(time_window_minutes);
    msg.append(&mut minutes);
    let mut piece = " minutes. Out of ".as_bytes_vec();
    msg.append(&mut piece);
    let mut count = u64_to_decimal(participants as u64);
    msg.append(&mut count);
    let mut piece2 = " participants, ".as_bytes_vec();
    msg.append(&mut piece2);
    let mut wins = u64_to_decimal(winners.len() as u64);
    msg.append(&mut wins);
    let mut piece3 = " of you won some sweet sats. Congrats!".as_bytes_vec();
    msg.append(&mut piece3);
    let mut sep = " \n ".as_bytes_vec();
    msg.append(&mut sep);
    let mut winners_section = format_winners(&winners);
    msg.append(&mut winners_section);
    let mut nl = "\n".as_bytes_vec();
    msg.append(&mut nl);
    let mut losers_section = format_losers(&losers);
    msg.append(&mut losers_section);
    let mut nl2 = "\n".as_bytes_vec();
    msg.append(&mut nl2);
    let mut closing = "Do you have what it takes? Follow nostr:".as_bytes_vec();
    msg.append(&mut closing);
    let mut game = game_npub.as_bytes_vec();
    msg.append(&mut game);
    let mut piece4 = " for another round and nostr:".as_bytes_vec();
    msg.append(&mut piece4);
    let mut nonce = nonce_npub.as_bytes_vec();
    msg.append(&mut nonce);
    let mut piece5 = " for the published nonces".as_bytes_vec();
    msg.append(&mut piece5);
    proof {
        assert(msg@ =~= summary_text(
            spec_filter_zaps(multipliers.0@, zaps@, BetState::PaidWinner),
            spec_filter_zaps(multipliers.0@, zaps@, BetState::Loser),
            time_window_minutes,
            game_npub@,
            nonce_npub@,
        ));
    }
    Some(msg)
}

impl BetState {
    /// Compares two states.
    pub fn eq_state(&self, other: &BetState) -> (r: bool)
        ensures
            r == (*self == *other),
    {
        match (self, other) {
            (BetState::GameZapInvoiceRequested, BetState::GameZapInvoiceRequested) => true,
            (BetState::ZapInvoiceRequested, BetState::ZapInvoiceRequested) => true,
            (BetState::ZapPaid, BetState::ZapPaid) => true,
            (BetState::ZapFailed, BetState::ZapFailed) => true,
            (BetState::PaidWinner, BetState::PaidWinner) => true,
            (BetState::Loser, BetState::Loser) => true,
            _ => false,
        }
    }
}

} // verus!
