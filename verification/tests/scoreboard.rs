use parking_lot::Mutex;
use slack_bot::scoreboard::{Record, Scoreboard};
use std::sync::Arc;

fn record(user_id: &str, point: i64) -> Record {
    Record { user_id: user_id.to_string(), point }
}

#[test]
fn a_new_board_is_empty() {
    let mut board = Scoreboard::new();
    assert!(board.is_empty());
    assert_eq!(board.len(), 0);
    assert_eq!(board.score("anyone"), 0);
    assert_eq!(board.snapshot(), Vec::new());
    assert_eq!(board.flush(), Vec::new());
}

#[test]
fn the_first_point_puts_a_subject_on_the_board() {
    let mut board = Scoreboard::new();
    assert_eq!(board.increment("U1"), 1);
    assert!(!board.is_empty());
    assert_eq!(board.len(), 1);
    assert_eq!(board.score("U1"), 1);
    assert_eq!(board.score("U2"), 0);
}

#[test]
fn further_points_add_up() {
    let mut board = Scoreboard::new();
    assert_eq!(board.increment("U1"), 1);
    assert_eq!(board.increment("U2"), 1);
    assert_eq!(board.increment("U1"), 2);
    assert_eq!(board.increment("U1"), 3);
    assert_eq!(board.len(), 2);
    assert_eq!(board.snapshot(), vec![record("U1", 3), record("U2", 1)]);
}

#[test]
fn one_point_each_in_any_order() {
    let orders = [["a", "b", "c", "d"], ["d", "c", "b", "a"], ["b", "d", "a", "c"]];
    for order in orders {
        let mut board = Scoreboard::new();
        for subject in order {
            board.increment(subject);
        }
        assert_eq!(board.len(), 4);
        for subject in ["a", "b", "c", "d"] {
            assert_eq!(board.score(subject), 1);
        }
        let mut listed = board.snapshot();
        listed.sort_by(|x, y| x.user_id.cmp(&y.user_id));
        assert_eq!(listed, vec![record("a", 1), record("b", 1), record("c", 1), record("d", 1)]);
    }
}

#[test]
fn a_snapshot_leaves_the_board_alone() {
    let mut board = Scoreboard::new();
    board.increment("U1");
    assert_eq!(board.snapshot(), vec![record("U1", 1)]);
    assert_eq!(board.snapshot(), vec![record("U1", 1)]);
    assert_eq!(board.score("U1"), 1);
}

#[test]
fn a_flush_takes_everything_and_leaves_nothing() {
    let mut board = Scoreboard::new();
    board.increment("U1");
    board.increment("U2");
    board.increment("U2");
    assert_eq!(board.flush(), vec![record("U1", 1), record("U2", 2)]);
    assert!(board.is_empty());
    assert_eq!(board.len(), 0);
    assert_eq!(board.score("U2"), 0);
    assert_eq!(board.flush(), Vec::new());
    assert_eq!(board.increment("U2"), 1);
    assert_eq!(board.flush(), vec![record("U2", 1)]);
}

#[test]
fn subjects_are_told_apart_by_their_whole_name() {
    let mut board = Scoreboard::new();
    board.increment("U1");
    board.increment("U10");
    board.increment("");
    board.increment("u1");
    assert_eq!(board.len(), 4);
    assert_eq!(board.score("U1"), 1);
    assert_eq!(board.score(""), 1);
    assert_eq!(board.score("U"), 0);
}

#[test]
fn records_are_made_from_pairs_in_order() {
    let pairs = vec![("U2".to_string(), 5i64), ("U1".to_string(), -1), ("U2".to_string(), 0)];
    assert_eq!(Record::from_iter(&pairs), vec![record("U2", 5), record("U1", -1), record("U2", 0)]);
    assert_eq!(Record::from_iter(&Vec::new()), Vec::new());
}

#[test]
fn points_given_by_many_tasks_at_once_are_all_counted() {
    let board = Arc::new(Mutex::new(Scoreboard::new()));
    let runtime = tokio::runtime::Builder::new_multi_thread().worker_threads(4).build().unwrap();
    runtime.block_on(async {
        let mut tasks = Vec::new();
        for n in 0..64 {
            let board = board.clone();
            tasks.push(tokio::spawn(async move {
                tokio::task::yield_now().await;
                board.lock().increment(&format!("subject-{n}"));
            }));
        }
        for task in tasks {
            task.await.unwrap();
        }
    });
    let mut board = board.lock();
    assert_eq!(board.len(), 64);
    for n in 0..64 {
        assert_eq!(board.score(&format!("subject-{n}")), 1);
    }
    let drained = board.flush();
    assert_eq!(drained.len(), 64);
    assert!(drained.iter().all(|r| r.point == 1));
    assert!(board.is_empty());
}
