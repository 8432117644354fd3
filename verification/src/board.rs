//! The executable leaderboard: a hash map of records, a hash map from user to
//! row, and an ordered set of rank keys, kept in step by every operation.

use crate::key::{lemma_increasing_keys, RankKey};
use crate::model::{
    lemma_delete_wf, lemma_empty_wf, lemma_ranking, lemma_upsert_wf, BoardState, RowView,
};
use crate::rank::{RowID, Score, ScoreIdxRow, UserName};
use crate::ranking::{lemma_keys_rank, lemma_ranking_unique};
use std::collections::BTreeSet;
use std::collections::HashMap;
use vstd::hash_map::StringHashMap;
use vstd::prelude::*;
use vstd::std_specs::btree::increasing_seq;
use vstd::std_specs::iter::IteratorSpec;

verus! {

/// A record as callers see it: the user and the score.
#[derive(Debug)]
pub struct DataRow {
    pub username: UserName,
    pub score: Score,
}

impl View for DataRow {
    type V = RowView;

    open spec fn view(&self) -> RowView {
        RowView { username: self.username@, score: self.score }
    }
}

impl Clone for DataRow {
    fn clone(&self) -> (out: DataRow)
        ensures
            out@ == self@,
    {
        DataRow { username: self.username.clone(), score: self.score }
    }
}

/// What a list of records says, record by record.
pub open spec fn row_views(rows: Seq<DataRow>) -> Seq<RowView> {
    rows.map_values(|d: DataRow| d@)
}

/// A leaderboard: one record per user, ranked by score.
pub struct ScoreBoard {
    rows: HashMap<RowID, DataRow>,
    user_idx: StringHashMap<RowID>,
    score_idx: BTreeSet<RankKey>,
    next_row_id: RowID,
}

impl View for ScoreBoard {
    type V = BoardState;

    closed spec fn view(&self) -> BoardState {
        BoardState {
            rows: Map::new(|r: RowID| self.rows@.contains_key(r), |r: RowID| self.rows@[r]@),
            user_idx: self.user_idx@,
            score_idx: Set::new(|e: ScoreIdxRow| self.score_idx@.contains(e.key_spec())),
            next_row_id: self.next_row_id,
        }
    }
}

impl ScoreBoard {
    /// The board's invariant: its state is well formed.
    pub open spec fn wf(&self) -> bool {
        self@.wf()
    }

    /// Makes an empty board.
    pub fn new() -> (sb: ScoreBoard)
        ensures
            sb@ == BoardState::empty(),
            sb.wf(),
    {
        let sb = ScoreBoard {
            user_idx: StringHashMap::new(),
            score_idx: BTreeSet::new(),
            rows: HashMap::new(),
            next_row_id: 0,
        };
        proof {
            assert(sb@.rows =~= Map::empty());
            assert(sb@.score_idx =~= Set::empty());
            lemma_empty_wf();
        }
        sb
    }

    /// Gives `user` the score `score` and returns the identity of the new
    /// record. A record that the user had before is replaced.
    pub fn insert_user(&mut self, user: &str, score: Score) -> (id: RowID)
        requires
            old(self).wf(),
            old(self)@.next_row_id < u64::MAX,
        ensures
            final(self).wf(),
            final(self)@ == old(self)@.upsert(user@, score),
            id == old(self)@.next_row_id + 1,
    {
        let ghost before = self@;
        let held: Option<RowID> = match self.user_idx.get(user) {
            Some(r) => Some(*r),
            None => None,
        };
        if let Some(row_id) = held {
            let data_row = self.rows.get(&row_id).unwrap();
            let stale: RankKey = ScoreIdxRow { score: data_row.score, row_id }.key();
            self.score_idx.remove(&stale);
            self.rows.remove(&row_id);
        }
        self.next_row_id += 1;
        self.rows.insert(self.next_row_id, DataRow { username: user.to_owned(), score });
        self.user_idx.insert(user.to_owned(), self.next_row_id);
        self.score_idx.insert(ScoreIdxRow { score, row_id: self.next_row_id }.key());
        proof {
            let after = before.upsert(user@, score);
            assert(self@.rows =~= after.rows);
            assert(self@.user_idx =~= after.user_idx);
            assert(self@.score_idx =~= after.score_idx);
            lemma_upsert_wf(before, user@, score);
        }
        self.next_row_id
    }

    /// Removes `user`'s record and returns its identity, or returns `None`
    /// and changes nothing where the user has no record.
    pub fn delete_user(&mut self, user: &str) -> (ret: Option<RowID>)
        requires
            old(self).wf(),
        ensures
            final(self).wf(),
            final(self)@ == old(self)@.delete(user@),
            ret == old(self)@.row_of(user@),
    {
        let ghost before = self@;
        let held: Option<RowID> = match self.user_idx.get(user) {
            Some(r) => Some(*r),
            None => None,
        };
        if let Some(row_id) = held {
            let data_row = self.rows.get(&row_id).unwrap();
            let stale: RankKey = ScoreIdxRow { score: data_row.score, row_id }.key();
            self.score_idx.remove(&stale);
            self.rows.remove(&row_id);
            self.user_idx.remove(user);
        }
        proof {
            let after = before.delete(user@);
            assert(self@.rows =~= after.rows);
            assert(self@.user_idx =~= after.user_idx);
            assert(self@.score_idx =~= after.score_idx);
            lemma_delete_wf(before, user@);
        }
        held
    }

    /// The keys of the rank index, read in ascending order, spell the ranking
    /// of the board, and there is one key for each record.
    proof fn lemma_keys_spell_ranking(&self, keys: Seq<&RankKey>)
        requires
            self.wf(),
            increasing_seq(keys),
            keys.unref().to_set() == self.score_idx@,
        ensures
            self@.ranking() == keys.unref().map_values(
                |key: RankKey| ScoreIdxRow::from_key_spec(key),
            ),
            keys.len() == self@.len(),
            self.rows@.len() == self@.len(),
            forall|j: int|
                0 <= j < keys.len() ==> self@.rows.contains_key(
                    (#[trigger] self@.ranking()[j]).row_id,
                ),
    {
        lemma_increasing_keys(keys);
        let plain = keys.unref();
        assert forall|e: ScoreIdxRow| self@.score_idx.contains(e) <==> plain.contains(
            e.key_spec(),
        ) by {
            assert(plain.to_set().contains(e.key_spec()) <==> plain.contains(e.key_spec()));
        }
        lemma_keys_rank(plain, self@.score_idx);
        lemma_ranking(self@);
        lemma_ranking_unique(
            self@.score_idx,
            self@.ranking(),
            plain.map_values(|key: RankKey| ScoreIdxRow::from_key_spec(key)),
        );
        assert(self@.rows.dom() =~= self.rows@.dom());
    }

    /// The number of live records.
    pub fn len(&self) -> (n: usize)
        ensures
            n == self@.len(),
    {
        assert(self@.rows.dom() =~= self.rows@.dom());
        self.rows.len()
    }

    /// The identity minted last; zero where none was minted yet.
    pub fn last_row_id(&self) -> (id: RowID)
        ensures
            id == self@.next_row_id,
    {
        self.next_row_id
    }

    /// The identity of `user`'s row, as the user index has it.
    pub fn row_of(&self, user: &str) -> (out: Option<RowID>)
        ensures
            out == self@.row_of(user@),
    {
        match self.user_idx.get(user) {
            Some(r) => Some(*r),
            None => None,
        }
    }

    /// A copy of the record that the store holds under `row_id`.
    pub fn row(&self, row_id: RowID) -> (out: Option<DataRow>)
        ensures
            match out {
                Some(d) => self@.rows.contains_key(row_id) && d@ == self@.rows[row_id],
                None => !self@.rows.contains_key(row_id),
            },
    {
        match self.rows.get(&row_id) {
            Some(d) => Some(d.clone()),
            None => None,
        }
    }

    /// The number of users that the user index binds.
    pub fn user_count(&self) -> (n: usize)
        ensures
            n == self@.user_idx.len(),
    {
        self.user_idx.len()
    }

    /// The entries of the rank index, in rank order.
    pub fn rank_entries(&self) -> (out: Vec<ScoreIdxRow>)
        requires
            self.wf(),
        ensures
            out@ == self@.ranking(),
    {
        let mut out: Vec<ScoreIdxRow> = Vec::new();
        let ghost keys = self.score_idx.iter().remaining();
        proof {
            self.lemma_keys_spell_ranking(keys);
        }
        for x in it: self.score_idx.iter()
            invariant
                it.seq() == keys,
                out@.len() == it.index(),
                forall|j: int|
                    0 <= j < out@.len() ==> #[trigger] out@[j] == ScoreIdxRow::from_key_spec(
                        *keys[j],
                    ),
        {
            out.push(ScoreIdxRow::from_key(*x));
        }
        out
    }

    /// Returns copies of the records of the `n` best users, best first. Where
    /// the board holds fewer than `n` records it returns them all.
    pub fn top_n(&self, n: usize) -> (out: Vec<DataRow>)
        requires
            self.wf(),
        ensures
            row_views(out@) == self@.top(n as nat),
            out@.len() == if n <= self@.len() {
                n as nat
            } else {
                self@.len()
            },
    {
        let live: usize = self.rows.len();
        let k: usize = if n <= live {
            n
        } else {
            live
        };
        let mut out: Vec<DataRow> = Vec::new();
        let ghost keys = self.score_idx.iter().remaining();
        let ghost ranked = self@.ranking();
        proof {
            self.lemma_keys_spell_ranking(keys);
        }
        for x in it: self.score_idx.iter()
            invariant_except_break
                out@.len() == it.index(),
            invariant
                k <= keys.len(),
                it.seq() == keys,
                ranked.len() == keys.len(),
                forall|j: int| 0 <= j < keys.len() ==> ranked[j].row_id == (#[trigger] keys[j]).1,
                forall|j: int|
                    0 <= j < ranked.len() ==> self@.rows.contains_key(
                        (#[trigger] ranked[j]).row_id,
                    ),
                out@.len() <= k,
                forall|j: int|
                    0 <= j < out@.len() ==> (#[trigger] out@[j])@ == self@.rows[ranked[j].row_id],
            ensures
                out@.len() == k,
        {
            if out.len() >= k {
                break;
            }
            let row = self.rows.get(&x.1).unwrap();
            out.push(row.clone());
        }
        out
    }
}

} // verus!
