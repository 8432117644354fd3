//! The leaderboard as mathematics: a record store, a user index, a rank index
//! and an identity counter, with the invariant that binds them and the three
//! operations as functions from state to state.

use crate::rank::{RowID, Score, ScoreIdxRow};
use crate::ranking::{is_ranking, lemma_ranking_exists};
use vstd::prelude::*;

verus! {

/// What a record says: whose it is and what they scored.
pub struct RowView {
    pub username: Seq<char>,
    pub score: Score,
}

/// A change to a leaderboard.
pub enum Op {
    /// Give the user the score.
    Upsert { user: Seq<char>, score: Score },
    /// Remove the user's record.
    Delete { user: Seq<char> },
}

/// The state of a leaderboard.
pub struct BoardState {
    /// The record store: each live row identity with its record.
    pub rows: Map<RowID, RowView>,
    /// The user index: each user with the identity of their row.
    pub user_idx: Map<Seq<char>, RowID>,
    /// The rank index: one (score, identity) entry per live row.
    pub score_idx: Set<ScoreIdxRow>,
    /// The identity counter: the identity minted last, zero before the first.
    pub next_row_id: RowID,
}

impl BoardState {
    /// The board with no records, and the counter at zero.
    pub open spec fn empty() -> BoardState {
        BoardState {
            rows: Map::empty(),
            user_idx: Map::empty(),
            score_idx: Set::empty(),
            next_row_id: 0,
        }
    }

    /// The number of live records.
    pub open spec fn len(self) -> nat {
        self.rows.dom().len()
    }

    /// The rank entry that belongs to the record at `r`.
    pub open spec fn entry_of(self, r: RowID) -> ScoreIdxRow {
        ScoreIdxRow { score: self.rows[r].score, row_id: r }
    }

    /// The identity of `user`'s row, if the user has one.
    pub open spec fn row_of(self, user: Seq<char>) -> Option<RowID> {
        if self.user_idx.contains_key(user) {
            Some(self.user_idx[user])
        } else {
            None
        }
    }

    /// The users that own a record.
    pub open spec fn users(self) -> Set<Seq<char>> {
        Set::new(
            |u: Seq<char>|
                exists|r: RowID| self.rows.contains_key(r) && self.rows[r].username == u,
        )
    }

    /// The three structures agree, and no live identity is beyond the counter.
    pub open spec fn wf(self) -> bool {
        &&& self.rows.dom().finite()
        &&& self.score_idx.finite()
        &&& forall|u: Seq<char>| #[trigger]
            self.user_idx.contains_key(u) ==> self.rows.contains_key(self.user_idx[u])
                && self.rows[self.user_idx[u]].username == u
        &&& forall|r: RowID| #[trigger]
            self.rows.contains_key(r) ==> self.user_idx.contains_key(self.rows[r].username)
                && self.user_idx[self.rows[r].username] == r
        &&& forall|r: RowID| #[trigger]
            self.rows.contains_key(r) ==> self.score_idx.contains(self.entry_of(r))
        &&& forall|e: ScoreIdxRow| #[trigger]
            self.score_idx.contains(e) ==> self.rows.contains_key(e.row_id)
                && self.rows[e.row_id].score == e.score
        &&& forall|r: RowID| #[trigger] self.rows.contains_key(r) ==> 1 <= r <= self.next_row_id
    }

    /// The board without `user`'s record: the record leaves the store and both
    /// indexes. A board that has no such user is left as it is.
    pub open spec fn delete(self, user: Seq<char>) -> BoardState {
        if self.user_idx.contains_key(user) {
            let r = self.user_idx[user];
            BoardState {
                rows: self.rows.remove(r),
                user_idx: self.user_idx.remove(user),
                score_idx: self.score_idx.remove(self.entry_of(r)),
                next_row_id: self.next_row_id,
            }
        } else {
            self
        }
    }

    /// The board after `user` is given `score`: the user's former record, if
    /// any, is gone, and a record under the next identity takes its place.
    pub open spec fn upsert(self, user: Seq<char>, score: Score) -> BoardState {
        let base = self.delete(user);
        let id = (self.next_row_id + 1) as RowID;
        BoardState {
            rows: base.rows.insert(id, RowView { username: user, score }),
            user_idx: base.user_idx.insert(user, id),
            score_idx: base.score_idx.insert(ScoreIdxRow { score, row_id: id }),
            next_row_id: id,
        }
    }

    /// The board after one change.
    pub open spec fn apply(self, op: Op) -> BoardState {
        match op {
            Op::Upsert { user, score } => self.upsert(user, score),
            Op::Delete { user } => self.delete(user),
        }
    }

    /// The board after the changes `ops`, made in turn.
    pub open spec fn run(self, ops: Seq<Op>) -> BoardState
        decreases ops.len(),
    {
        if ops.len() == 0 {
            self
        } else {
            self.run(ops.drop_last()).apply(ops.last())
        }
    }

    /// The rank index laid out in rank order.
    pub open spec fn ranking(self) -> Seq<ScoreIdxRow> {
        choose|r: Seq<ScoreIdxRow>| is_ranking(self.score_idx, r)
    }

    /// The records of the `n` best users, best first; all of them where the
    /// board holds fewer than `n`.
    pub open spec fn top(self, n: nat) -> Seq<RowView> {
        let k = if n <= self.len() {
            n
        } else {
            self.len()
        };
        Seq::new(k, |i: int| self.rows[self.ranking()[i].row_id])
    }
}

/// The empty board is well formed.
pub proof fn lemma_empty_wf()
    ensures
        BoardState::empty().wf(),
{
}

/// Deleting keeps a board well formed, and leaves the counter alone.
pub proof fn lemma_delete_wf(s: BoardState, user: Seq<char>)
    requires
        s.wf(),
    ensures
        s.delete(user).wf(),
        s.delete(user).next_row_id == s.next_row_id,
{
}

/// Upserting keeps a board well formed while the counter has room, and mints
/// the identity that follows the counter.
pub proof fn lemma_upsert_wf(s: BoardState, user: Seq<char>, score: Score)
    requires
        s.wf(),
        s.next_row_id < u64::MAX,
    ensures
        s.upsert(user, score).wf(),
        s.upsert(user, score).next_row_id == s.next_row_id + 1,
{
    lemma_delete_wf(s, user);
}

/// Whatever changes are made to a well-formed board, in whatever order, it
/// stays well formed, and the counter never goes down: it rises by one with
/// each upsert. The counter must have room for as many identities as there
/// are changes.
pub proof fn lemma_run_wf(s: BoardState, ops: Seq<Op>)
    requires
        s.wf(),
        s.next_row_id + ops.len() <= u64::MAX,
    ensures
        s.run(ops).wf(),
        s.next_row_id <= s.run(ops).next_row_id <= s.next_row_id + ops.len(),
    decreases ops.len(),
{
    if ops.len() > 0 {
        let before = s.run(ops.drop_last());
        lemma_run_wf(s, ops.drop_last());
        match ops.last() {
            Op::Upsert { user, score } => lemma_upsert_wf(before, user, score),
            Op::Delete { user } => lemma_delete_wf(before, user),
        }
    }
}

/// After any changes to the empty board, in any order, the board is well
/// formed: the user index binds exactly the users of the records, each to
/// the identity of their record, and the rank index has one entry for each
/// record, with that record's score.
pub proof fn lemma_reachable_wf(ops: Seq<Op>)
    requires
        ops.len() <= u64::MAX,
    ensures
        BoardState::empty().run(ops).wf(),
        BoardState::empty().run(ops).user_idx.dom() == BoardState::empty().run(ops).users(),
        BoardState::empty().run(ops).score_idx.len() == BoardState::empty().run(ops).len(),
{
    lemma_empty_wf();
    lemma_run_wf(BoardState::empty(), ops);
    lemma_user_index_agrees(BoardState::empty().run(ops));
    lemma_rank_index_size(BoardState::empty().run(ops));
}

/// The rank index holds as many entries as the record store holds records,
/// and each entry gives the score of the record that it names.
pub proof fn lemma_rank_index_size(s: BoardState)
    requires
        s.wf(),
    ensures
        s.score_idx.len() == s.rows.dom().len(),
        forall|e: ScoreIdxRow| #[trigger]
            s.score_idx.contains(e) ==> s.rows.contains_key(e.row_id) && s.rows[e.row_id].score
                == e.score,
{
    let f = |r: RowID| s.entry_of(r);
    assert(s.rows.dom().map(f) =~= s.score_idx) by {
        assert forall|e: ScoreIdxRow| s.score_idx.contains(e) implies s.rows.dom().map(f).contains(
            e,
        ) by {
            assert(f(e.row_id) == e);
        }
    }
    assert(vstd::relations::injective_on(f, s.rows.dom())) by {
        assert forall|x: RowID, y: RowID|
            s.rows.dom().contains(x) && s.rows.dom().contains(y) && #[trigger] f(x) == #[trigger] f(
                y,
            ) implies x == y by {
            assert(f(x).row_id == x);
        }
    }
    vstd::set_lib::lemma_map_size(s.rows.dom(), s.score_idx, f);
}

/// On a well-formed board the ranking is a ranking of the rank index, and it
/// is as long as the board has records.
pub proof fn lemma_ranking(s: BoardState)
    requires
        s.wf(),
    ensures
        is_ranking(s.score_idx, s.ranking()),
        s.ranking().no_duplicates(),
        s.ranking().len() == s.len(),
        forall|i: int|
            0 <= i < s.ranking().len() ==> s.rows.contains_key((#[trigger] s.ranking()[i]).row_id),
{
    lemma_ranking_exists(s.score_idx);
    let r = s.ranking();
    assert forall|i: int, j: int| 0 <= i < r.len() && 0 <= j < r.len() && i != j implies r[i]
        != r[j] by {
        assert(r[i].precedes(r[j]) || r[j].precedes(r[i]));
    }
    r.unique_seq_to_set();
    assert(r.to_set() =~= s.score_idx);
    lemma_rank_index_size(s);
    assert forall|i: int| 0 <= i < r.len() implies s.rows.contains_key(
        (#[trigger] r[i]).row_id,
    ) by {
        assert(r.contains(r[i]));
    }
}

/// The user index binds exactly the users that own a record, and binds each
/// to the identity of that user's record.
pub proof fn lemma_user_index_agrees(s: BoardState)
    requires
        s.wf(),
    ensures
        s.user_idx.dom() == s.users(),
        forall|r: RowID| #[trigger]
            s.rows.contains_key(r) ==> s.user_idx[s.rows[r].username] == r,
        forall|u: Seq<char>| #[trigger]
            s.user_idx.contains_key(u) ==> s.rows.contains_key(s.user_idx[u])
                && s.rows[s.user_idx[u]].username == u,
{
    assert(s.user_idx.dom() =~= s.users());
}

/// No two users share a row, no two rows belong to one user, and an identity
/// minted after any further changes is greater than the counter and than the
/// identity of every record that the board holds now.
pub proof fn lemma_identities(s: BoardState, ops: Seq<Op>, user: Seq<char>, score: Score)
    requires
        s.wf(),
        s.next_row_id + ops.len() < u64::MAX,
    ensures
        forall|u: Seq<char>, v: Seq<char>|
            #![trigger s.user_idx[u], s.user_idx[v]]
            s.user_idx.contains_key(u) && s.user_idx.contains_key(v) && u != v ==> s.user_idx[u]
                != s.user_idx[v],
        forall|q: RowID, r: RowID|
            #![trigger s.rows[q], s.rows[r]]
            s.rows.contains_key(q) && s.rows.contains_key(r) && q != r ==> s.rows[q].username
                != s.rows[r].username,
        s.run(ops).upsert(user, score).next_row_id > s.next_row_id,
        forall|r: RowID| #[trigger]
            s.rows.contains_key(r) ==> r < s.run(ops).upsert(user, score).next_row_id,
{
    lemma_run_wf(s, ops);
    lemma_upsert_wf(s.run(ops), user, score);
}

/// The best `n` come out by descending score, and among equal scores by
/// ascending identity; each is the record of a user of the board.
pub proof fn lemma_top_sorted(s: BoardState, n: nat)
    requires
        s.wf(),
    ensures
        forall|i: int|
            0 <= i < s.top(n).len() ==> s.row_of((#[trigger] s.top(n)[i]).username) is Some,
        forall|i: int|
            0 <= i < s.top(n).len() ==> s.rows[s.user_idx[(#[trigger] s.top(n)[i]).username]]
                == s.top(n)[i],
        forall|i: int, j: int|
            0 <= i < j < s.top(n).len() ==> {
                let a = #[trigger] s.top(n)[i];
                let b = #[trigger] s.top(n)[j];
                a.score > b.score || (a.score == b.score && s.user_idx[a.username]
                    < s.user_idx[b.username])
            },
{
    lemma_ranking(s);
    let r = s.ranking();
    assert forall|i: int| 0 <= i < s.top(n).len() implies {
        &&& s.user_idx.contains_key((#[trigger] s.top(n)[i]).username)
        &&& s.user_idx[s.top(n)[i].username] == r[i].row_id
        &&& s.top(n)[i].score == r[i].score
    } by {
        assert(r.contains(r[i]));
    }
    assert forall|i: int, j: int| 0 <= i < j < s.top(n).len() implies {
        let a = #[trigger] s.top(n)[i];
        let b = #[trigger] s.top(n)[j];
        a.score > b.score || (a.score == b.score && s.user_idx[a.username] < s.user_idx[b.username])
    } by {
        assert(r[i].precedes(r[j]));
    }
}

/// The best `n` are `n` records where the board holds that many, and all of
/// its records where it holds fewer; the best none are none.
pub proof fn lemma_top_len(s: BoardState, n: nat)
    requires
        s.wf(),
    ensures
        s.top(n).len() == if n <= s.len() {
            n
        } else {
            s.len()
        },
        s.top(0) == Seq::<RowView>::empty(),
        n >= s.len() ==> forall|r: RowID| #[trigger]
            s.rows.contains_key(r) ==> s.top(n).contains(s.rows[r]),
{
    assert(s.top(0) =~= Seq::<RowView>::empty());
    if n >= s.len() {
        lemma_ranking(s);
        let ranked = s.ranking();
        assert forall|r: RowID| #[trigger] s.rows.contains_key(r) implies s.top(n).contains(
            s.rows[r],
        ) by {
            assert(ranked.contains(s.entry_of(r)));
            let i = choose|i: int| 0 <= i < ranked.len() && ranked[i] == s.entry_of(r);
            assert(s.top(n)[i] == s.rows[r]);
        }
    }
}

/// Deleting a user twice leaves the board as deleting once does, and the
/// second deletion finds no record.
pub proof fn lemma_delete_idempotent(s: BoardState, user: Seq<char>)
    ensures
        s.delete(user).delete(user) == s.delete(user),
        s.delete(user).row_of(user) is None,
{
}

/// Upserting is deleting and then inserting under a new identity.
pub proof fn lemma_upsert_is_delete_then_insert(s: BoardState, user: Seq<char>, score: Score)
    ensures
        s.upsert(user, score) == s.delete(user).upsert(user, score),
{
}

/// After an upsert the user has exactly one record, under the new identity
/// and with the new score; the identity of the record that the user had
/// before is in neither index and not in the store.
pub proof fn lemma_upsert_replaces(s: BoardState, user: Seq<char>, score: Score)
    requires
        s.wf(),
        s.next_row_id < u64::MAX,
    ensures
        ({
            let t = s.upsert(user, score);
            &&& t.row_of(user) == Some(t.next_row_id)
            &&& t.rows.contains_key(t.next_row_id)
            &&& t.rows[t.next_row_id] == RowView { username: user, score }
            &&& t.score_idx.contains(ScoreIdxRow { score, row_id: t.next_row_id })
            &&& forall|r: RowID| #[trigger]
                t.rows.contains_key(r) && t.rows[r].username == user ==> r == t.next_row_id
            &&& forall|e: ScoreIdxRow| #[trigger]
                t.score_idx.contains(e) && t.rows[e.row_id].username == user ==> e == ScoreIdxRow {
                    score,
                    row_id: t.next_row_id,
                }
            &&& s.row_of(user) matches Some(gone) ==> {
                &&& !t.rows.contains_key(gone)
                &&& forall|u: Seq<char>| #[trigger]
                    t.user_idx.contains_key(u) ==> t.user_idx[u] != gone
                &&& forall|e: ScoreIdxRow| #[trigger] t.score_idx.contains(e) ==> e.row_id != gone
            }
            &&& t.len() == if s.row_of(user) is Some {
                s.len()
            } else {
                s.len() + 1
            }
        }),
{
    lemma_delete_wf(s, user);
    lemma_upsert_wf(s, user, score);
}

/// Upserting a user again with the same score mints a new identity again.
pub proof fn lemma_upsert_again_is_fresh(s: BoardState, user: Seq<char>, score: Score)
    requires
        s.wf(),
        s.next_row_id + 1 < u64::MAX,
    ensures
        ({
            let once = s.upsert(user, score);
            let twice = once.upsert(user, score);
            &&& once.row_of(user) == Some(once.next_row_id)
            &&& twice.row_of(user) == Some(twice.next_row_id)
            &&& twice.next_row_id == once.next_row_id + 1
            &&& !twice.rows.contains_key(once.next_row_id)
        }),
{
    lemma_upsert_wf(s, user, score);
    lemma_upsert_replaces(s.upsert(user, score), user, score);
}

} // verus!
