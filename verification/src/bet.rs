use vstd::prelude::*;

verus! {

/// The state of a roller's bet.
///
/// `GameZapInvoiceRequested` and `ZapInvoiceRequested` are the intake
/// states for game bets and plain donations. A paid game bet moves to
/// `ZapPaid`, and from there the payout dispatcher moves it to exactly one
/// of the terminal states `Loser`, `PaidWinner` or `ZapFailed`.
#[derive(Clone, Copy, Debug, PartialEq, Eq, Structural)]
pub enum BetState {
    GameZapInvoiceRequested,
    ZapInvoiceRequested,
    ZapPaid,
    ZapFailed,
    PaidWinner,
    Loser,
}

impl BetState {
    /// A bet never leaves a terminal state.
    pub open spec fn is_terminal(self) -> bool {
        self == BetState::Loser || self == BetState::PaidWinner || self == BetState::ZapFailed
    }

    /// Executable check for a terminal state.
    pub fn terminal(&self) -> (r: bool)
        ensures
            r == self.is_terminal(),
    {
        match self {
            BetState::Loser => true,
            BetState::PaidWinner => true,
            BetState::ZapFailed => true,
            _ => false,
        }
    }
}

/// One legal move of the bet state machine: a requested game bet becomes
/// paid when its invoice settles, and a paid bet is resolved by the payout
/// dispatcher to exactly one terminal state.
pub open spec fn bet_step_ok(from: BetState, to: BetState) -> bool {
    ||| (from == BetState::GameZapInvoiceRequested && to == BetState::ZapPaid)
    ||| (from == BetState::ZapPaid && (to == BetState::Loser || to == BetState::PaidWinner || to
        == BetState::ZapFailed))
}

/// A sequence of observed states is a prefix of a valid path through the
/// state machine: every consecutive pair is a legal move.
pub open spec fn valid_bet_path(path: Seq<BetState>) -> bool {
    forall|i: int| 0 <= i && i + 1 < path.len() ==> #[trigger] bet_step_ok(path[i], path[i + 1])
}

/// Terminal states have no outgoing moves: once a bet is terminal, no
/// further transition is legal.
pub proof fn lemma_terminal_is_final(s: BetState, t: BetState)
    requires
        s.is_terminal(),
    ensures
        !bet_step_ok(s, t),
{
}

/// Extending a valid path by one legal move keeps it valid. Every store
/// update of a bet makes a legal move, so the states a bet passes through
/// are always a prefix of a valid path.
pub proof fn lemma_valid_path_extension(path: Seq<BetState>, next: BetState)
    requires
        valid_bet_path(path),
        path.len() > 0,
        bet_step_ok(path.last(), next),
    ensures
        valid_bet_path(path.push(next)),
{
    let extended = path.push(next);
    assert forall|i: int| 0 <= i && i + 1 < extended.len() implies #[trigger] bet_step_ok(
        extended[i],
        extended[i + 1],
    ) by {
        if i + 1 < path.len() {
            assert(bet_step_ok(path[i], path[i + 1]));
        } else {
            assert(extended[i] == path.last());
            assert(extended[i + 1] == next);
        }
    }
}

/// A valid path never continues past a terminal state: a terminal state can
/// only stand at the end of the path.
pub proof fn lemma_valid_path_terminal_last(path: Seq<BetState>, i: int)
    requires
        valid_bet_path(path),
        0 <= i < path.len(),
        path[i].is_terminal(),
    ensures
        i == path.len() - 1,
{
    if i + 1 < path.len() {
        assert(bet_step_ok(path[i], path[i + 1]));
    }
}

} // verus!
