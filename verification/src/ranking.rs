//! Rankings: the entries of a set laid out in rank order.

use crate::key::{key_lt, lemma_key_order, RankKey};
use crate::rank::ScoreIdxRow;
use vstd::prelude::*;

verus! {

/// `r` lists exactly the entries of `entries`, each before all that it
/// precedes.
pub open spec fn is_ranking(entries: Set<ScoreIdxRow>, r: Seq<ScoreIdxRow>) -> bool {
    &&& forall|e: ScoreIdxRow| entries.contains(e) <==> r.contains(e)
    &&& forall|i: int, j: int| 0 <= i < j < r.len() ==> (#[trigger] r[i]).precedes(#[trigger] r[j])
}

/// A set of entries has at most one ranking.
pub proof fn lemma_ranking_unique(
    entries: Set<ScoreIdxRow>,
    a: Seq<ScoreIdxRow>,
    b: Seq<ScoreIdxRow>,
)
    requires
        is_ranking(entries, a),
        is_ranking(entries, b),
    ensures
        a == b,
    decreases a.len(),
{
    if a.len() == 0 {
        if b.len() > 0 {
            assert(entries.contains(b[0]));
        }
    } else {
        // Each head occurs in the other ranking. Were both behind the other
        // head, each head would precede the other.
        assert(b.contains(a[0]));
        assert(a.contains(b[0]));
        let j = choose|j: int| 0 <= j < b.len() && b[j] == a[0];
        let i = choose|i: int| 0 <= i < a.len() && a[i] == b[0];
        assert(a[0] == b[0]);
        lemma_tail_ranking(entries, a);
        lemma_tail_ranking(entries, b);
        lemma_ranking_unique(entries.remove(a[0]), a.drop_first(), b.drop_first());
        assert(a =~= seq![a[0]] + a.drop_first());
        assert(b =~= seq![b[0]] + b.drop_first());
    }
}

/// Without its first entry, a ranking ranks the set without that entry.
proof fn lemma_tail_ranking(entries: Set<ScoreIdxRow>, r: Seq<ScoreIdxRow>)
    requires
        is_ranking(entries, r),
        r.len() > 0,
    ensures
        is_ranking(entries.remove(r[0]), r.drop_first()),
{
    let rest = entries.remove(r[0]);
    let t = r.drop_first();
    assert forall|e: ScoreIdxRow| rest.contains(e) <==> t.contains(e) by {
        if rest.contains(e) {
            let k = choose|k: int| 0 <= k < r.len() && r[k] == e;
            assert(t[k - 1] == e);
        }
        if t.contains(e) {
            let k = choose|k: int| 0 <= k < t.len() && t[k] == e;
            assert(r[0].precedes(r[k + 1]));
        }
    }
}

/// `m` is in `entries` and precedes every other entry of it.
spec fn is_first(entries: Set<ScoreIdxRow>, m: ScoreIdxRow) -> bool {
    &&& entries.contains(m)
    &&& forall|x: ScoreIdxRow| entries.contains(x) && x != m ==> m.precedes(x)
}

/// A finite set of entries that is not empty has a first entry in rank order.
proof fn lemma_first_exists(entries: Set<ScoreIdxRow>)
    requires
        entries.finite(),
        !entries.is_empty(),
    ensures
        exists|m: ScoreIdxRow| is_first(entries, m),
    decreases entries.len(),
{
    let e = entries.choose();
    let rest = entries.remove(e);
    if rest.is_empty() {
        assert forall|x: ScoreIdxRow| entries.contains(x) && x != e implies e.precedes(x) by {
            assert(rest.contains(x));
        }
        assert(is_first(entries, e));
    } else {
        lemma_first_exists(rest);
        let m = choose|m: ScoreIdxRow| is_first(rest, m);
        if e.precedes(m) {
            assert forall|x: ScoreIdxRow| entries.contains(x) && x != e implies e.precedes(x) by {
                assert(rest.contains(x));
            }
            assert(is_first(entries, e));
        } else {
            assert forall|x: ScoreIdxRow| entries.contains(x) && x != m implies m.precedes(x) by {
                assert(x == e || rest.contains(x));
            }
            assert(is_first(entries, m));
        }
    }
}

/// Every finite set of entries has a ranking.
pub proof fn lemma_ranking_exists(entries: Set<ScoreIdxRow>)
    requires
        entries.finite(),
    ensures
        exists|r: Seq<ScoreIdxRow>| is_ranking(entries, r),
    decreases entries.len(),
{
    if entries.is_empty() {
        let r = Seq::<ScoreIdxRow>::empty();
        assert(is_ranking(entries, r));
    } else {
        lemma_first_exists(entries);
        let m = choose|m: ScoreIdxRow| is_first(entries, m);
        let rest = entries.remove(m);
        lemma_ranking_exists(rest);
        let t = choose|t: Seq<ScoreIdxRow>| is_ranking(rest, t);
        let r = seq![m] + t;
        assert forall|e: ScoreIdxRow| entries.contains(e) <==> r.contains(e) by {
            if entries.contains(e) {
                if e == m {
                    assert(r[0] == e);
                } else {
                    let k = choose|k: int| 0 <= k < t.len() && t[k] == e;
                    assert(r[k + 1] == e);
                }
            }
            if r.contains(e) {
                let k = choose|k: int| 0 <= k < r.len() && r[k] == e;
                assert(k == 0 || t[k - 1] == e);
            }
        }
        assert forall|i: int, j: int| 0 <= i < j < r.len() implies (#[trigger] r[i]).precedes(
            #[trigger] r[j],
        ) by {
            assert(t.contains(t[j - 1]));
        }
        assert(is_ranking(entries, r));
    }
}

/// Decoding an ascending list of keys gives the ranking of the entries that
/// the keys stand for.
pub proof fn lemma_keys_rank(keys: Seq<RankKey>, entries: Set<ScoreIdxRow>)
    requires
        forall|i: int, j: int|
            0 <= i < j < keys.len() ==> key_lt(#[trigger] keys[i], #[trigger] keys[j]),
        forall|e: ScoreIdxRow| entries.contains(e) <==> keys.contains(e.key_spec()),
    ensures
        is_ranking(entries, keys.map_values(|k: RankKey| ScoreIdxRow::from_key_spec(k))),
{
    let r = keys.map_values(|k: RankKey| ScoreIdxRow::from_key_spec(k));
    assert forall|e: ScoreIdxRow| entries.contains(e) <==> r.contains(e) by {
        if entries.contains(e) {
            let i = choose|i: int| 0 <= i < keys.len() && keys[i] == e.key_spec();
            assert(r[i] == e);
        }
        if r.contains(e) {
            let i = choose|i: int| 0 <= i < r.len() && r[i] == e;
            assert(keys[i] == e.key_spec());
        }
    }
    assert forall|i: int, j: int| 0 <= i < j < r.len() implies (#[trigger] r[i]).precedes(
        #[trigger] r[j],
    ) by {
        assert(key_lt(keys[i], keys[j]));
        lemma_key_order(r[i], r[j]);
    }
}

} // verus!
