use scoreboard::board::ScoreBoard;
use scoreboard::rank::ScoreIdxRow;
use std::cmp::Ordering;

struct Lcg(u64);

impl Lcg {
    fn next(&mut self) -> u64 {
        self.0 = self.0.wrapping_mul(6364136223846793005).wrapping_add(1442695040888963407);
        self.0 >> 33
    }
}

fn check_structures(board: &ScoreBoard, users: &[String]) {
    let entries = board.rank_entries();
    assert_eq!(entries.len(), board.len());
    assert_eq!(board.user_count(), board.len());
    let mut live: usize = 0;
    for user in users {
        if let Some(row_id) = board.row_of(user) {
            live += 1;
            let row = board.row(row_id).unwrap();
            assert_eq!(&row.username, user);
            assert!(row_id >= 1 && row_id <= board.last_row_id());
            assert!(entries.contains(&ScoreIdxRow { score: row.score, row_id }));
        }
    }
    assert_eq!(live, board.len());
    for e in &entries {
        let row = board.row(e.row_id).unwrap();
        assert_eq!(row.score, e.score);
        assert_eq!(board.row_of(&row.username), Some(e.row_id));
    }
    for pair in entries.windows(2) {
        assert_eq!(pair[0].cmp(&pair[1]), Ordering::Less);
        assert!(
            pair[0].score > pair[1].score
                || (pair[0].score == pair[1].score && pair[0].row_id < pair[1].row_id)
        );
        assert_ne!(pair[0].row_id, pair[1].row_id);
    }
    let top = board.top_n(board.len());
    assert_eq!(top.len(), entries.len());
    for (row, e) in top.iter().zip(entries.iter()) {
        assert_eq!(row.score, e.score);
        assert_eq!(board.row_of(&row.username), Some(e.row_id));
    }
}

#[test]
fn a_thousand_random_users() {
    let mut rng = Lcg(0x5eed);
    let mut board = ScoreBoard::new();
    let mut users = Vec::new();
    let mut last = 0;
    for i in 0..1000 {
        let user = format!("user{}", i);
        let id = board.insert_user(&user, rng.next() % 500);
        assert!(id > last);
        last = id;
        users.push(user);
    }
    assert_eq!(board.len(), 1000);
    check_structures(&board, &users);
    let top = board.top_n(50);
    assert_eq!(top.len(), 50);
    for pair in top.windows(2) {
        let a = board.row_of(&pair[0].username).unwrap();
        let b = board.row_of(&pair[1].username).unwrap();
        assert!(pair[0].score > pair[1].score || (pair[0].score == pair[1].score && a < b));
    }
}

#[test]
fn random_upserts_and_deletes_keep_the_structures_in_step() {
    let mut rng = Lcg(42);
    let mut board = ScoreBoard::new();
    let users: Vec<String> = (0..40).map(|i| format!("u{}", i)).collect();
    let mut minted = 0;
    for step in 0..3000 {
        let user = &users[(rng.next() % 40) as usize];
        if rng.next() % 3 == 0 {
            let held = board.row_of(user);
            assert_eq!(board.delete_user(user), held);
            assert_eq!(board.row_of(user), None);
            assert_eq!(board.delete_user(user), None);
        } else {
            let gone = board.row_of(user);
            let score = rng.next() % 20;
            let id = board.insert_user(user, score);
            assert_eq!(id, minted + 1);
            minted = id;
            assert_eq!(board.row_of(user), Some(id));
            let row = board.row(id).unwrap();
            assert_eq!(&row.username, user);
            assert_eq!(row.score, score);
            if let Some(old) = gone {
                assert!(board.row(old).is_none());
                assert!(board.rank_entries().iter().all(|e| e.row_id != old));
            }
        }
        assert_eq!(board.last_row_id(), minted);
        if step % 100 == 0 {
            check_structures(&board, &users);
        }
    }
    check_structures(&board, &users);
}

#[test]
fn one_record_per_user_after_replacement() {
    let mut board = ScoreBoard::new();
    board.insert_user("a", 1);
    board.insert_user("b", 2);
    board.insert_user("a", 3);
    let entries = board.rank_entries();
    assert_eq!(
        entries,
        vec![ScoreIdxRow { score: 3, row_id: 3 }, ScoreIdxRow { score: 2, row_id: 2 }]
    );
    let top = board.top_n(10);
    assert_eq!(top.iter().filter(|r| r.username == "a").count(), 1);
    assert_eq!(top[0].username, "a");
    assert_eq!(top[0].score, 3);
}
