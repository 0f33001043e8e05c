use parking_lot::Mutex;
use slack_bot::cronjob::{
    conclude_shutdown, CronJobError, Dispatch, Executor, Signal, WaitOutcome,
};
use slack_bot::scoreboard::{Record, Scoreboard};
use std::sync::Arc;
use std::time::Duration;
use tokio::runtime::Runtime;
use tokio::sync::{mpsc, oneshot};

struct Runner {
    signals: mpsc::UnboundedSender<Signal>,
    ended: oneshot::Receiver<()>,
}

/// Starts an executor on `runtime`. Its task takes `task_ms`, then moves
/// what is on `board` to `saved`.
fn start(
    runtime: &Runtime,
    task_ms: u64,
    board: Arc<Mutex<Scoreboard>>,
    saved: Arc<Mutex<Vec<Vec<Record>>>>,
) -> Runner {
    let (signals, mut queue) = mpsc::unbounded_channel();
    let (ended_tx, ended) = oneshot::channel();
    runtime.spawn(async move {
        let mut executor = Executor::new();
        executor.start();
        loop {
            let dispatch = executor.on_signal(queue.recv().await);
            if dispatch == Dispatch::Stop {
                break;
            }
            tokio::time::sleep(Duration::from_millis(task_ms)).await;
            let records = board.lock().flush();
            saved.lock().push(records);
            if dispatch == Dispatch::RunLast {
                executor.last_run_done();
                break;
            }
        }
        ended_tx.send(()).ok();
    });
    Runner { signals, ended }
}

fn shutdown(runtime: &Runtime, runner: Runner, timeout_ms: u64) -> Result<(), CronJobError> {
    runtime.block_on(async move {
        runner.signals.send(Signal::Terminate).ok();
        let waited = tokio::time::timeout(Duration::from_millis(timeout_ms), runner.ended).await;
        conclude_shutdown(match waited {
            Err(_) => WaitOutcome::Elapsed,
            Ok(Err(_)) => WaitOutcome::Closed,
            Ok(Ok(())) => WaitOutcome::Finished,
        })
    })
}

fn runtime() -> Runtime {
    tokio::runtime::Builder::new_multi_thread().worker_threads(2).enable_time().build().unwrap()
}

fn board_with_one_point() -> Arc<Mutex<Scoreboard>> {
    let mut board = Scoreboard::new();
    board.increment("U1");
    Arc::new(Mutex::new(board))
}

#[test]
fn shutdown_with_time_to_spare_returns_after_the_last_flush() {
    let runtime = runtime();
    let board = board_with_one_point();
    let saved = Arc::new(Mutex::new(Vec::new()));
    let runner = start(&runtime, 100, board.clone(), saved.clone());
    assert_eq!(shutdown(&runtime, runner, 10_000), Ok(()));
    assert_eq!(*saved.lock(), vec![vec![Record { user_id: "U1".to_string(), point: 1 }]]);
    assert!(board.lock().is_empty());
}

#[test]
fn shutdown_with_too_little_time_times_out() {
    let runtime = runtime();
    let board = board_with_one_point();
    let saved = Arc::new(Mutex::new(Vec::new()));
    let runner = start(&runtime, 2_000, board.clone(), saved.clone());
    assert_eq!(shutdown(&runtime, runner, 50), Err(CronJobError::Timeout));
    assert!(saved.lock().is_empty());
    assert_eq!(board.lock().score("U1"), 1);
}

#[test]
fn an_executor_that_vanished_fails_the_shutdown() {
    let runtime = runtime();
    let (signals, queue) = mpsc::unbounded_channel();
    let (ended_tx, ended) = oneshot::channel::<()>();
    drop(queue);
    drop(ended_tx);
    let runner = Runner { signals, ended };
    assert_eq!(shutdown(&runtime, runner, 10_000), Err(CronJobError::TaskFailed));
}

#[test]
fn fires_before_the_terminate_are_run_first_and_in_order() {
    let runtime = runtime();
    let board = board_with_one_point();
    let saved = Arc::new(Mutex::new(Vec::new()));
    let runner = start(&runtime, 10, board.clone(), saved.clone());
    runner.signals.send(Signal::Fire).ok();
    runner.signals.send(Signal::Fire).ok();
    assert_eq!(shutdown(&runtime, runner, 10_000), Ok(()));
    assert_eq!(
        *saved.lock(),
        vec![vec![Record { user_id: "U1".to_string(), point: 1 }], vec![], vec![]]
    );
}
