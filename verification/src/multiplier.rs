use vstd::prelude::*;
use crate::request::str_eq;

verus! {

/// The closed table of payout multipliers a roller can bet on.
///
/// Each variant carries a payout factor (kept as hundredths, so that the
/// arithmetic stays exact), a winning threshold and a display label. A roll
/// strictly below the threshold wins.
#[derive(Clone, Copy, Debug, PartialEq, Eq, Structural)]
pub enum Multiplier {
    X1_05,
    X1_1,
    X1_33,
    X1_5,
    X2,
    X3,
    X10,
    X25,
    X50,
    X100,
    X1000,
}

impl Multiplier {
    /// The winning threshold of this multiplier: a roll wins iff it is
    /// strictly below this value.
    pub open spec fn threshold(self) -> u16 {
        match self {
            Multiplier::X1_05 => 60541,
            Multiplier::X1_1 => 57789,
            Multiplier::X1_33 => 47796,
            Multiplier::X1_5 => 42379,
            Multiplier::X2 => 31784,
            Multiplier::X3 => 21189,
            Multiplier::X10 => 6356,
            Multiplier::X25 => 2542,
            Multiplier::X50 => 1271,
            Multiplier::X100 => 635,
            Multiplier::X1000 => 64,
        }
    }

    /// The payout factor of this multiplier, in hundredths: a factor of
    /// 1.05 is stored as 105.
    pub open spec fn factor_hundredths(self) -> u64 {
        match self {
            Multiplier::X1_05 => 105,
            Multiplier::X1_1 => 110,
            Multiplier::X1_33 => 133,
            Multiplier::X1_5 => 150,
            Multiplier::X2 => 200,
            Multiplier::X3 => 300,
            Multiplier::X10 => 1000,
            Multiplier::X25 => 2500,
            Multiplier::X50 => 5000,
            Multiplier::X100 => 10000,
            Multiplier::X1000 => 100000,
        }
    }

    /// A roll strictly below this value wins.
    pub fn get_lower_than(&self) -> (t: u16)
        ensures
            t == self.threshold(),
    {
        match self {
            Multiplier::X1_05 => 60541,
            Multiplier::X1_1 => 57789,
            Multiplier::X1_33 => 47796,
            Multiplier::X1_5 => 42379,
            Multiplier::X2 => 31784,
            Multiplier::X3 => 21189,
            Multiplier::X10 => 6356,
            Multiplier::X25 => 2542,
            Multiplier::X50 => 1271,
            Multiplier::X100 => 635,
            Multiplier::X1000 => 64,
        }
    }

    /// The display label of this multiplier.
    pub open spec fn label(self) -> Seq<char> {
        match self {
            Multiplier::X1_05 => "1.05x"@,
            Multiplier::X1_1 => "1.1x"@,
            Multiplier::X1_33 => "1.33x"@,
            Multiplier::X1_5 => "1.5x"@,
            Multiplier::X2 => "2x"@,
            Multiplier::X3 => "3x"@,
            Multiplier::X10 => "10x"@,
            Multiplier::X25 => "25x"@,
            Multiplier::X50 => "50x"@,
            Multiplier::X100 => "100x"@,
            Multiplier::X1000 => "1000x"@,
        }
    }

    /// The largest acceptable bet for this multiplier, in satoshis. The
    /// caps are a deployment parameter; this table bounds the worst-case
    /// payout of a single bet to a million satoshis.
    pub open spec fn max_bet_sat(self) -> u64 {
        match self {
            Multiplier::X1_05 => 952380,
            Multiplier::X1_1 => 909090,
            Multiplier::X1_33 => 751879,
            Multiplier::X1_5 => 666666,
            Multiplier::X2 => 500000,
            Multiplier::X3 => 333333,
            Multiplier::X10 => 100000,
            Multiplier::X25 => 40000,
            Multiplier::X50 => 20000,
            Multiplier::X100 => 10000,
            Multiplier::X1000 => 1000,
        }
    }

    /// The display label, as executable code.
    pub fn get_content(&self) -> (r: String)
        ensures
            r@ == self.label(),
    {
        match self {
            Multiplier::X1_05 => "1.05x".to_owned(),
            Multiplier::X1_1 => "1.1x".to_owned(),
            Multiplier::X1_33 => "1.33x".to_owned(),
            Multiplier::X1_5 => "1.5x".to_owned(),
            Multiplier::X2 => "2x".to_owned(),
            Multiplier::X3 => "3x".to_owned(),
            Multiplier::X10 => "10x".to_owned(),
            Multiplier::X25 => "25x".to_owned(),
            Multiplier::X50 => "50x".to_owned(),
            Multiplier::X100 => "100x".to_owned(),
            Multiplier::X1000 => "1000x".to_owned(),
        }
    }

    /// The largest acceptable bet, as executable code.
    pub fn get_max_amount_sat(&self) -> (r: u64)
        ensures
            r == self.max_bet_sat(),
    {
        match self {
            Multiplier::X1_05 => 952380,
            Multiplier::X1_1 => 909090,
            Multiplier::X1_33 => 751879,
            Multiplier::X1_5 => 666666,
            Multiplier::X2 => 500000,
            Multiplier::X3 => 333333,
            Multiplier::X10 => 100000,
            Multiplier::X25 => 40000,
            Multiplier::X50 => 20000,
            Multiplier::X100 => 10000,
            Multiplier::X1000 => 1000,
        }
    }

    /// The payout factor in hundredths, as executable code.
    pub fn get_factor_hundredths(&self) -> (f: u64)
        ensures
            f == self.factor_hundredths(),
    {
        match self {
            Multiplier::X1_05 => 105,
            Multiplier::X1_1 => 110,
            Multiplier::X1_33 => 133,
            Multiplier::X1_5 => 150,
            Multiplier::X2 => 200,
            Multiplier::X3 => 300,
            Multiplier::X10 => 1000,
            Multiplier::X25 => 2500,
            Multiplier::X50 => 5000,
            Multiplier::X100 => 10000,
            Multiplier::X1000 => 100000,
        }
    }
}

/// A multiplier bound to the id of its published announcement note.
pub struct MultiplierNote {
    /// The multiplier itself.
    pub multiplier: Multiplier,
    /// The id of the published note that players zap to bet on it.
    pub note_id: String,
}

impl Clone for MultiplierNote {
    fn clone(&self) -> (r: Self)
        ensures
            r == *self,
    {
        MultiplierNote { multiplier: self.multiplier, note_id: self.note_id.clone() }
    }
}

/// The table of the eleven multiplier notes, loaded once at startup and
/// immutable thereafter.
pub struct Multipliers(pub [MultiplierNote; 11]);

/// The first multiplier note published under the given id, if any.
pub open spec fn spec_get_multiplier_note(s: Seq<MultiplierNote>, note_id: Seq<char>) -> Option<
    MultiplierNote,
>
    decreases s.len(),
{
    if s.len() == 0 {
        None
    } else if s[0].note_id@ == note_id {
        Some(s[0])
    } else {
        spec_get_multiplier_note(s.drop_first(), note_id)
    }
}

impl Multipliers {
    /// Looks a note id up in the table.
    pub fn get_multiplier_note(&self, note_id: &str) -> (r: Option<MultiplierNote>)
        ensures
            r == spec_get_multiplier_note(self.0@, note_id@),
    {
        proof {
            assert(self.0@.skip(0) =~= self.0@);
        }
        let mut i: usize = 0;
        while i < 11
            invariant
                i <= 11,
                self.0@.len() == 11,
                spec_get_multiplier_note(self.0@, note_id@) == spec_get_multiplier_note(
                    self.0@.skip(i as int),
                    note_id@,
                ),
            decreases 11 - i,
        {
            proof {
                assert(self.0@.skip(i as int)[0] == self.0@[i as int]);
                assert(self.0@.skip(i as int).drop_first() =~= self.0@.skip(i + 1));
            }
            if str_eq(self.0[i].note_id.as_str(), note_id) {
                let note = self.0[i].clone();
                return Some(note);
            }
            i = i + 1;
        }
        proof {
            assert(self.0@.skip(11).len() == 0);
        }
        None
    }
}

/// Of the 65536 equally likely rolls, exactly `threshold` win: under a
/// uniformly random nonce the winning chance of a multiplier is its
/// threshold divided by 65536.
pub proof fn lemma_win_fraction(m: Multiplier)
    ensures
        Set::new(|r: int| 0 <= r < 65536 && r < m.threshold()).len() == m.threshold(),
{
    let t = m.threshold() as int;
    assert(Set::new(|r: int| 0 <= r < 65536 && r < t) =~= vstd::set_lib::set_int_range(0, t));
    vstd::set_lib::lemma_int_range(0, t);
}

} // verus!
