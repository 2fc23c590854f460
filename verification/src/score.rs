//! The score counter: a single non-negative total, raised only by the
//! collision system and only by the fixed per-kill amount.

use vstd::prelude::*;

verus! {

/// Points awarded for each enemy destroyed.
pub const SCORE_PER_KILL: u32 = 10;

/// The running score.
#[derive(Clone, Copy, PartialEq, Eq, Structural, Debug)]
pub struct Score {
    pub value: u32,
}

impl Default for Score {
    /// A zero score.
    fn default() -> (r: Score)
        ensures
            r.value == 0,
    {
        Score { value: 0 }
    }
}

} // verus!
