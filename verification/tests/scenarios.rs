use scoreboard::board::{DataRow, ScoreBoard};
use scoreboard::rank::ScoreIdxRow;

fn pairs(rows: &[DataRow]) -> Vec<(String, u64)> {
    rows.iter().map(|r| (r.username.clone(), r.score)).collect()
}

fn three_users() -> ScoreBoard {
    let mut board = ScoreBoard::new();
    assert_eq!(board.insert_user("matt", 1200), 1);
    assert_eq!(board.insert_user("alex", 1500), 2);
    assert_eq!(board.insert_user("charlie", 1300), 3);
    board
}

#[test]
fn new_board_is_empty() {
    let board = ScoreBoard::new();
    assert_eq!(board.len(), 0);
    assert_eq!(board.user_count(), 0);
    assert_eq!(board.last_row_id(), 0);
    assert!(board.rank_entries().is_empty());
    assert!(board.top_n(10).is_empty());
}

#[test]
fn first_identity_is_one() {
    let mut board = ScoreBoard::new();
    assert_eq!(board.insert_user("solo", 7), 1);
    assert_eq!(board.last_row_id(), 1);
}

#[test]
fn top_two_of_three() {
    let board = three_users();
    assert_eq!(
        pairs(&board.top_n(2)),
        vec![("alex".to_string(), 1500), ("charlie".to_string(), 1300)]
    );
}

#[test]
fn delete_then_top_two() {
    let mut board = three_users();
    assert_eq!(board.delete_user("alex"), Some(2));
    assert_eq!(
        pairs(&board.top_n(2)),
        vec![("charlie".to_string(), 1300), ("matt".to_string(), 1200)]
    );
    assert_eq!(board.len(), 2);
    assert_eq!(board.row_of("alex"), None);
    assert!(board.row(2).is_none());
}

#[test]
fn ties_come_out_in_insertion_order() {
    let mut board = ScoreBoard::new();
    board.insert_user("a", 100);
    board.insert_user("b", 100);
    board.insert_user("c", 100);
    assert_eq!(
        pairs(&board.top_n(3)),
        vec![("a".to_string(), 100), ("b".to_string(), 100), ("c".to_string(), 100)]
    );
}

#[test]
fn upsert_replaces_the_record() {
    let mut board = ScoreBoard::new();
    assert_eq!(board.insert_user("u", 10), 1);
    assert_eq!(board.insert_user("u", 50), 2);
    assert_eq!(pairs(&board.top_n(1)), vec![("u".to_string(), 50)]);
    assert_eq!(board.rank_entries(), vec![ScoreIdxRow { score: 50, row_id: 2 }]);
    assert_eq!(board.len(), 1);
    assert_eq!(board.user_count(), 1);
    assert_eq!(board.row_of("u"), Some(2));
    assert!(board.row(1).is_none());
}

#[test]
fn delete_ghost_on_empty_board() {
    let mut board = ScoreBoard::new();
    assert_eq!(board.delete_user("ghost"), None);
    assert_eq!(board.len(), 0);
    assert_eq!(board.user_count(), 0);
    assert_eq!(board.last_row_id(), 0);
    assert!(board.rank_entries().is_empty());
    assert_eq!(board.insert_user("first", 1), 1);
}

#[test]
fn delete_unknown_user_changes_nothing() {
    let mut board = three_users();
    assert_eq!(board.delete_user("ghost"), None);
    assert_eq!(board.len(), 3);
    assert_eq!(board.last_row_id(), 3);
    assert_eq!(
        pairs(&board.top_n(3)),
        vec![
            ("alex".to_string(), 1500),
            ("charlie".to_string(), 1300),
            ("matt".to_string(), 1200)
        ]
    );
}

#[test]
fn top_zero_is_empty() {
    let board = three_users();
    assert!(board.top_n(0).is_empty());
}

#[test]
fn top_beyond_the_count_returns_all() {
    let board = three_users();
    assert_eq!(
        pairs(&board.top_n(100)),
        vec![
            ("alex".to_string(), 1500),
            ("charlie".to_string(), 1300),
            ("matt".to_string(), 1200)
        ]
    );
    assert_eq!(board.top_n(usize::MAX).len(), 3);
    assert_eq!(board.top_n(3).len(), 3);
}

#[test]
fn same_user_same_score_gets_fresh_identities() {
    let mut board = ScoreBoard::new();
    assert_eq!(board.insert_user("again", 5), 1);
    assert_eq!(board.insert_user("again", 5), 2);
    assert_eq!(board.insert_user("again", 5), 3);
    assert_eq!(board.len(), 1);
    assert_eq!(board.rank_entries(), vec![ScoreIdxRow { score: 5, row_id: 3 }]);
    assert_eq!(board.row_of("again"), Some(3));
}

#[test]
fn deleting_twice_is_deleting_once() {
    let mut board = three_users();
    assert_eq!(board.delete_user("matt"), Some(1));
    let entries = board.rank_entries();
    let top = pairs(&board.top_n(10));
    assert_eq!(board.delete_user("matt"), None);
    assert_eq!(board.rank_entries(), entries);
    assert_eq!(pairs(&board.top_n(10)), top);
    assert_eq!(board.len(), 2);
    assert_eq!(board.user_count(), 2);
    assert_eq!(board.last_row_id(), 3);
}

#[test]
fn identities_are_not_reused_after_delete() {
    let mut board = three_users();
    assert_eq!(board.delete_user("charlie"), Some(3));
    assert_eq!(board.insert_user("charlie", 1), 4);
    assert_eq!(board.delete_user("matt"), Some(1));
    assert_eq!(board.insert_user("dora", 2), 5);
}

#[test]
fn user_keys_are_case_sensitive() {
    let mut board = ScoreBoard::new();
    assert_eq!(board.insert_user("Ann", 1), 1);
    assert_eq!(board.insert_user("ann", 2), 2);
    assert_eq!(board.len(), 2);
    assert_eq!(board.delete_user("ANN"), None);
    assert_eq!(board.row_of("Ann"), Some(1));
    assert_eq!(board.row_of("ann"), Some(2));
}

#[test]
fn empty_user_key_is_a_key() {
    let mut board = ScoreBoard::new();
    assert_eq!(board.insert_user("", 9), 1);
    assert_eq!(pairs(&board.top_n(1)), vec![(String::new(), 9)]);
    assert_eq!(board.delete_user(""), Some(1));
    assert_eq!(board.len(), 0);
}

#[test]
fn extreme_scores_rank_at_the_ends() {
    let mut board = ScoreBoard::new();
    board.insert_user("zero", 0);
    board.insert_user("max", u64::MAX);
    board.insert_user("mid", 1 << 40);
    assert_eq!(
        pairs(&board.top_n(3)),
        vec![
            ("max".to_string(), u64::MAX),
            ("mid".to_string(), 1 << 40),
            ("zero".to_string(), 0)
        ]
    );
    assert_eq!(
        board.rank_entries(),
        vec![
            ScoreIdxRow { score: u64::MAX, row_id: 2 },
            ScoreIdxRow { score: 1 << 40, row_id: 3 },
            ScoreIdxRow { score: 0, row_id: 1 },
        ]
    );
}

#[test]
fn top_is_a_copy() {
    let mut board = three_users();
    let kept = board.top_n(2);
    board.delete_user("alex");
    board.insert_user("charlie", 1);
    assert_eq!(
        pairs(&kept),
        vec![("alex".to_string(), 1500), ("charlie".to_string(), 1300)]
    );
}

#[test]
fn lowering_a_score_moves_the_user_down() {
    let mut board = three_users();
    assert_eq!(board.insert_user("alex", 1000), 4);
    assert_eq!(
        pairs(&board.top_n(3)),
        vec![
            ("charlie".to_string(), 1300),
            ("matt".to_string(), 1200),
            ("alex".to_string(), 1000)
        ]
    );
}

#[test]
fn an_update_loses_the_tie_to_older_rows() {
    let mut board = ScoreBoard::new();
    board.insert_user("a", 100);
    board.insert_user("b", 100);
    board.insert_user("a", 100);
    assert_eq!(
        pairs(&board.top_n(2)),
        vec![("b".to_string(), 100), ("a".to_string(), 100)]
    );
}

#[test]
fn row_reads_the_store() {
    let board = three_users();
    let row = board.row(3).unwrap();
    assert_eq!(row.username, "charlie");
    assert_eq!(row.score, 1300);
    assert!(board.row(0).is_none());
    assert!(board.row(4).is_none());
    let copy = row.clone();
    assert_eq!(copy.username, "charlie");
    assert_eq!(copy.score, 1300);
}
