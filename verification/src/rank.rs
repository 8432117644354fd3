//! Rank entries and their order: higher scores first, earlier rows first
//! among equal scores.

use std::cmp::Ordering;
use vstd::prelude::*;

verus! {

/// Identity of a stored row; minted from a counter and never reused.
pub type RowID = u64;

/// A user's key: compared by value, case and all.
pub type UserName = String;

/// A user's score; higher is better.
pub type Score = u64;

/// One entry of the rank index: a live row's score together with its identity.
#[derive(Clone, Copy, Debug, PartialEq, Eq, Structural)]
pub struct ScoreIdxRow {
    pub score: Score,
    pub row_id: RowID,
}

impl ScoreIdxRow {
    /// `self` ranks strictly before `other`: it has the higher score, or the
    /// same score and the smaller row identity.
    pub open spec fn precedes(self, other: ScoreIdxRow) -> bool {
        self.score > other.score || (self.score == other.score && self.row_id < other.row_id)
    }

    /// The rank order as a three-way comparison.
    pub open spec fn ordering(self, other: ScoreIdxRow) -> Ordering {
        if self.precedes(other) {
            Ordering::Less
        } else if other.precedes(self) {
            Ordering::Greater
        } else {
            Ordering::Equal
        }
    }

    /// Compares two entries in rank order: `Less` means that `self` comes first.
    pub fn cmp(&self, other: &ScoreIdxRow) -> (o: Ordering)
        ensures
            o == self.ordering(*other),
            o == Ordering::Less <==> self.precedes(*other),
            o == Ordering::Equal <==> *self == *other,
            o == Ordering::Greater <==> other.precedes(*self),
    {
        if self.score > other.score {
            Ordering::Less
        } else if self.score < other.score {
            Ordering::Greater
        } else if self.row_id < other.row_id {
            Ordering::Less
        } else if self.row_id > other.row_id {
            Ordering::Greater
        } else {
            Ordering::Equal
        }
    }
}

/// No entry precedes itself.
pub proof fn lemma_precedes_irreflexive(a: ScoreIdxRow)
    ensures
        !a.precedes(a),
{
}

/// Of two entries exactly one holds: the first precedes the second, they are
/// equal, or the second precedes the first.
pub proof fn lemma_precedes_trichotomy(a: ScoreIdxRow, b: ScoreIdxRow)
    ensures
        a.precedes(b) || a == b || b.precedes(a),
        !(a.precedes(b) && a == b),
        !(a.precedes(b) && b.precedes(a)),
        !(a == b && b.precedes(a)),
{
}

/// The rank order is transitive.
pub proof fn lemma_precedes_transitive(a: ScoreIdxRow, b: ScoreIdxRow, c: ScoreIdxRow)
    requires
        a.precedes(b),
        b.precedes(c),
    ensures
        a.precedes(c),
{
}

} // verus!
