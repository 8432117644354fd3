//! Rank entries as pairs of integers, whose standard order is the rank order.
//!
//! An ordered set of such pairs keeps the rank index: walking it in ascending
//! order visits the entries best first.

use crate::rank::ScoreIdxRow;
use std::cmp::Ordering;
use vstd::prelude::*;
use vstd::std_specs::btree::increasing_seq;
use vstd::std_specs::cmp::OrdSpec;

verus! {

/// The key under which an entry is filed in an ordered set of integer pairs.
pub type RankKey = (u64, u64);

/// Lexicographic order on keys: by the first component, then by the second.
pub open spec fn key_lt(a: RankKey, b: RankKey) -> bool {
    a.0 < b.0 || (a.0 == b.0 && a.1 < b.1)
}

impl ScoreIdxRow {
    /// The key of an entry: the score counted down from the largest score,
    /// then the row identity. Keys ascend exactly as entries rank.
    pub open spec fn key_spec(self) -> RankKey {
        ((u64::MAX - self.score) as u64, self.row_id)
    }

    /// The entry that a key stands for.
    pub open spec fn from_key_spec(k: RankKey) -> ScoreIdxRow {
        ScoreIdxRow { score: (u64::MAX - k.0) as u64, row_id: k.1 }
    }

    /// Computes the key of an entry.
    #[verifier::when_used_as_spec(key_spec)]
    pub fn key(self) -> (k: RankKey)
        ensures
            k == self.key_spec(),
    {
        (u64::MAX - self.score, self.row_id)
    }

    /// Recovers the entry from its key.
    #[verifier::when_used_as_spec(from_key_spec)]
    pub fn from_key(k: RankKey) -> (e: ScoreIdxRow)
        ensures
            e == ScoreIdxRow::from_key_spec(k),
    {
        ScoreIdxRow { score: u64::MAX - k.0, row_id: k.1 }
    }
}

/// An entry precedes another exactly when its key is the smaller one.
pub proof fn lemma_key_order(a: ScoreIdxRow, b: ScoreIdxRow)
    ensures
        a.precedes(b) <==> key_lt(a.key_spec(), b.key_spec()),
        a == b <==> a.key_spec() == b.key_spec(),
{
}

/// The order that the standard library gives to pairs of integers is
/// `key_lt`.
pub proof fn lemma_pair_order(a: RankKey, b: RankKey)
    ensures
        (a.cmp_spec(&b) == Ordering::Less) <==> key_lt(a, b),
{
}

/// A sequence of keys that ascends in the standard order of pairs ascends by
/// `key_lt`.
pub proof fn lemma_increasing_keys(s: Seq<&RankKey>)
    requires
        increasing_seq(s),
    ensures
        forall|i: int, j: int| 0 <= i < j < s.len() ==> key_lt(*#[trigger] s[i], *#[trigger] s[j]),
{
    broadcast use vstd::laws_cmp::group_laws_cmp;

    vstd::std_specs::btree::axiom_increasing_seq_meaning::<&RankKey>(s);
    assert forall|i: int, j: int| 0 <= i < j < s.len() implies key_lt(
        *#[trigger] s[i],
        *#[trigger] s[j],
    ) by {
        assert(OrdSpec::cmp_spec(&s[i], &s[j]) is Less);
        lemma_pair_order(*s[i], *s[j]);
    }
}

} // verus!
