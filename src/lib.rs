//! Tallying of votes: a weighted counter over arbitrary candidates, a ranking
//! of counted candidates with explicit tie rules, and the Borda family of
//! point-assignment rules built on both.
use vstd::prelude::*;

pub mod borda;
pub mod count;
pub mod fraction;
pub mod counter;
pub mod plurality;
pub mod result;

pub use result::RankedWinners;

verus! {

/// How many votes are needed to win, in relation to the total number of votes
/// cast.
pub enum Quota {
    /// Droop quota: `floor(total-votes / (total-seats + 1)) + 1`.
    Droop,
    /// Hagenbach-Bischoff quota: `total-votes / (total-seats + 1)`, which may
    /// hold a fraction.
    Hagenbach,
    /// Hare quota: `total-votes / total-seats`.
    Hare,
}

} // verus!
