//! Running a task on a fixed period, and stopping it gracefully.
//!
//! Two loops cooperate. The ticker wakes at its target times and signals
//! "fire"; its targets advance by exactly one period, so lateness never adds
//! up. The executor takes the signals in order and runs the task for each,
//! one at a time, and a last time on "terminate". The decisions of both are
//! made here; suspending, the queue of signals and the task are the
//! caller's.

use vstd::prelude::*;

verus! {

/// Why a shutdown did not end well.
#[derive(Clone, Copy, Debug, PartialEq, Eq, Structural)]
pub enum CronJobError {
    /// The last run did not finish within the time allowed. It may still be
    /// running.
    Timeout,
    /// The executor went away without saying that it finished.
    TaskFailed,
}

/// What the executor is told.
#[derive(Clone, Copy, Debug, PartialEq, Eq, Structural)]
pub enum Signal {
    /// A period has come round: run the task.
    Fire,
    /// Run the task a last time, then stop.
    Terminate,
}

/// The life of a runner. It only ever moves forward through these.
#[derive(Clone, Copy, Debug, PartialEq, Eq, Structural)]
pub enum RunnerState {
    Created,
    Running,
    ShuttingDown,
    Terminated,
}

/// What the executor does on a signal.
#[derive(Clone, Copy, Debug, PartialEq, Eq, Structural)]
pub enum Dispatch {
    /// Run the task to its end, then take the next signal.
    Run,
    /// Run the task to its end a last time, then report with
    /// [`Executor::last_run_done`] and say that the executor has finished.
    RunLast,
    /// Take no more signals; say that the executor has finished.
    Stop,
}

/// What came of waiting for the executor to finish.
#[derive(Clone, Copy, Debug, PartialEq, Eq, Structural)]
pub enum WaitOutcome {
    /// The executor said that it finished.
    Finished,
    /// The executor went away without a word.
    Closed,
    /// The time allowed ran out first.
    Elapsed,
}

/// What the ticker does after a poll.
#[derive(Clone, Copy, Debug, PartialEq, Eq, Structural)]
pub enum Pause {
    /// Suspend for this many milliseconds: until the target.
    Sleep(u64),
    /// The target that was just set is already past: the task takes longer
    /// than a period. The ticker must stop.
    Overrun,
}

// ---------------------------------------------------------------------------
// The ticker
// ---------------------------------------------------------------------------

/// Whether a ticker with target `next_ms` fires at `now_ms`: at the target
/// or after it, never before.
pub open spec fn fires_at(next_ms: int, now_ms: int) -> bool {
    now_ms >= next_ms
}

/// The target after a poll at `now_ms`: a ticker that fires advances its
/// target by exactly one period, not to one period from now.
pub open spec fn next_target(next_ms: int, period_ms: int, now_ms: int) -> int {
    if fires_at(next_ms, now_ms) {
        next_ms + period_ms
    } else {
        next_ms
    }
}

/// For how long to suspend at `now_ms` with target `next_ms`: until the
/// target. A target that was just advanced and is already past is an
/// overrun; one that was not advanced and has come up meanwhile is due.
pub open spec fn pause_at(next_ms: int, advanced: bool, now_ms: int) -> Pause {
    if now_ms <= next_ms {
        Pause::Sleep((next_ms - now_ms) as u64)
    } else if advanced {
        Pause::Overrun
    } else {
        Pause::Sleep(0)
    }
}

/// What `rounds` rounds of the ticker's loop come to when every wake-up is
/// on time. A round polls at `now_ms`, then suspends for as long as the
/// pause says. The result is how often the ticker fired, and the clock and
/// the target after the last round.
pub open spec fn on_time_run(next_ms: int, period_ms: int, now_ms: int, rounds: nat) -> (
    int,
    int,
    int,
)
    decreases rounds,
{
    if rounds == 0 {
        (0, now_ms, next_ms)
    } else {
        let fire = fires_at(next_ms, now_ms);
        let target = next_target(next_ms, period_ms, now_ms);
        let slept = match pause_at(target, fire, now_ms) {
            Pause::Sleep(ms) => ms as int,
            Pause::Overrun => 0,
        };
        let rest = on_time_run(target, period_ms, now_ms + slept, (rounds - 1) as nat);
        (
            if fire {
                rest.0 + 1
            } else {
                rest.0
            },
            rest.1,
            rest.2,
        )
    }
}

/// The state of the ticker: its period and the time at which it fires next.
pub struct Ticker {
    origin_ms: u64,
    period_ms: u64,
    next_ms: u64,
    advanced: bool,
    fired: Ghost<nat>,
}

impl Ticker {
    /// The time at which the ticker was started.
    pub closed spec fn origin_ms(&self) -> int {
        self.origin_ms as int
    }

    /// The period.
    pub closed spec fn period_ms(&self) -> int {
        self.period_ms as int
    }

    /// The target: the time at which the ticker fires next.
    pub closed spec fn next_ms(&self) -> int {
        self.next_ms as int
    }

    /// Whether the last poll fired and so advanced the target.
    pub closed spec fn advanced(&self) -> bool {
        self.advanced
    }

    /// How often the ticker has fired.
    pub closed spec fn fired(&self) -> nat {
        self.fired@
    }

    /// The invariant of the type: the target is the start plus one period
    /// for each time the ticker has fired, however late it was woken.
    pub open spec fn wf(&self) -> bool {
        self.next_ms() == self.origin_ms() + self.fired() * self.period_ms()
    }

    /// Whether the target can advance once more within the range of the
    /// clock.
    pub open spec fn can_advance(&self) -> bool {
        self.next_ms() + self.period_ms() <= u64::MAX
    }

    /// A ticker started at `now_ms`: it fires at once.
    pub fn new(now_ms: u64, period_ms: u64) -> (ticker: Ticker)
        ensures
            ticker.wf(),
            ticker.origin_ms() == now_ms,
            ticker.period_ms() == period_ms,
            ticker.next_ms() == now_ms,
            ticker.fired() == 0,
            !ticker.advanced(),
    {
        Ticker { origin_ms: now_ms, period_ms, next_ms: now_ms, advanced: false, fired: Ghost(0) }
    }

    /// The target.
    pub fn target_ms(&self) -> (at: u64)
        ensures
            at == self.next_ms(),
    {
        self.next_ms
    }

    /// Whether the target can advance once more.
    pub fn has_room(&self) -> (room: bool)
        ensures
            room == self.can_advance(),
    {
        self.next_ms <= u64::MAX - self.period_ms
    }

    /// Looks at the clock and says whether the ticker fires; see
    /// [`fires_at`] and [`next_target`]. The caller sends the fire signal.
    pub fn poll(&mut self, now_ms: u64) -> (fire: bool)
        requires
            old(self).wf(),
            old(self).can_advance(),
        ensures
            final(self).wf(),
            fire == fires_at(old(self).next_ms(), now_ms as int),
            final(self).next_ms() == next_target(
                old(self).next_ms(),
                old(self).period_ms(),
                now_ms as int,
            ),
            final(self).advanced() == fire,
            final(self).origin_ms() == old(self).origin_ms(),
            final(self).period_ms() == old(self).period_ms(),
            final(self).fired() == if fire {
                old(self).fired() + 1
            } else {
                old(self).fired()
            },
    {
        if now_ms >= self.next_ms {
            proof {
                assert((self.fired@ + 1) * (self.period_ms as int) == self.fired@ * (
                self.period_ms as int) + self.period_ms as int) by (nonlinear_arith);
            }
            self.next_ms = self.next_ms + self.period_ms;
            self.fired = Ghost(self.fired@ + 1);
            self.advanced = true;
            true
        } else {
            self.advanced = false;
            false
        }
    }

    /// Says for how long to suspend at `now_ms`; see [`pause_at`].
    pub fn pause(&self, now_ms: u64) -> (pause: Pause)
        ensures
            pause == pause_at(self.next_ms(), self.advanced(), now_ms as int),
    {
        if now_ms <= self.next_ms {
            Pause::Sleep(self.next_ms - now_ms)
        } else if self.advanced {
            Pause::Overrun
        } else {
            Pause::Sleep(0)
        }
    }

    /// The ticker never fires early: when it fires for the k-th time
    /// (counting from 0), at least k periods have passed since the start.
    pub proof fn lemma_never_early(&self, now_ms: int)
        requires
            self.wf(),
            fires_at(self.next_ms(), now_ms),
        ensures
            now_ms >= self.origin_ms() + self.fired() * self.period_ms(),
    {
    }
}

/// A ticker that is woken exactly at its target fires, and is then told to
/// suspend for exactly one period, which ends exactly at the new target.
pub proof fn lemma_on_time_round(next_ms: int, period_ms: int)
    requires
        0 <= period_ms <= u64::MAX,
    ensures
        fires_at(next_ms, next_ms),
        next_target(next_ms, period_ms, next_ms) == next_ms + period_ms,
        pause_at(next_ms + period_ms, true, next_ms) == Pause::Sleep(period_ms as u64),
{
}

/// With wake-ups on time, a ticker started at `origin_ms` fires in every
/// round: at the start and then once every period, neither faster nor
/// slower. After `rounds` rounds it has fired `rounds` times and the clock
/// stands at the target, `rounds` periods after the start. So in the time
/// of `p` periods it has fired `p + 1` times, and two fires in a row are
/// exactly one period apart.
pub proof fn lemma_on_time_run(origin_ms: int, period_ms: int, rounds: nat)
    requires
        0 <= period_ms <= u64::MAX,
    ensures
        on_time_run(origin_ms, period_ms, origin_ms, rounds) == (
            rounds as int,
            origin_ms + rounds * period_ms,
            origin_ms + rounds * period_ms,
        ),
    decreases rounds,
{
    if rounds == 0 {
        assert(rounds * period_ms == 0) by (nonlinear_arith)
            requires
                rounds == 0,
        ;
    } else {
        let left = (rounds - 1) as nat;
        lemma_on_time_round(origin_ms, period_ms);
        lemma_on_time_run(origin_ms + period_ms, period_ms, left);
        assert(origin_ms + period_ms + left * period_ms == origin_ms + rounds * period_ms)
            by (nonlinear_arith)
            requires
                left == rounds - 1,
        ;
        let target = next_target(origin_ms, period_ms, origin_ms);
        assert(target == origin_ms + period_ms);
        assert(pause_at(target, true, origin_ms) == Pause::Sleep(period_ms as u64));
        assert(on_time_run(origin_ms, period_ms, origin_ms, rounds).0 == on_time_run(
            target,
            period_ms,
            origin_ms + period_ms,
            left,
        ).0 + 1);
    }
}

// ---------------------------------------------------------------------------
// The executor
// ---------------------------------------------------------------------------

/// How far along its life a state is.
pub open spec fn rank(state: RunnerState) -> int {
    match state {
        RunnerState::Created => 0,
        RunnerState::Running => 1,
        RunnerState::ShuttingDown => 2,
        RunnerState::Terminated => 3,
    }
}

/// What a signal does to a runner in `state`; `None` says that the queue of
/// signals is closed. Only a running executor runs the task: once for a
/// fire, and a last time for a terminate. In every other state the signal is
/// not taken up.
pub open spec fn on_signal_spec(state: RunnerState, signal: Option<Signal>) -> (
    RunnerState,
    Dispatch,
) {
    match state {
        RunnerState::Running => match signal {
            Some(Signal::Fire) => (RunnerState::Running, Dispatch::Run),
            Some(Signal::Terminate) => (RunnerState::ShuttingDown, Dispatch::RunLast),
            None => (RunnerState::Terminated, Dispatch::Stop),
        },
        _ => (state, Dispatch::Stop),
    }
}

/// How often the task is run while a running executor takes `signals` from
/// its queue in order, and the state it is left in. Taking signals ends
/// with the first terminate.
pub open spec fn runs_for(state: RunnerState, signals: Seq<Signal>) -> (int, RunnerState)
    decreases signals.len(),
{
    if signals.len() == 0 {
        (0, state)
    } else {
        let (next, dispatch) = on_signal_spec(state, Some(signals.first()));
        match dispatch {
            Dispatch::Run => {
                let rest = runs_for(next, signals.drop_first());
                (rest.0 + 1, rest.1)
            },
            Dispatch::RunLast => (1, next),
            Dispatch::Stop => (0, next),
        }
    }
}

/// The executor's side of a runner.
pub struct Executor {
    state: RunnerState,
}

impl View for Executor {
    type V = RunnerState;

    closed spec fn view(&self) -> RunnerState {
        self.state
    }
}

impl Executor {
    /// A runner that has not been started.
    pub fn new() -> (executor: Executor)
        ensures
            executor@ == RunnerState::Created,
    {
        Executor { state: RunnerState::Created }
    }

    /// The state of the runner.
    pub fn state(&self) -> (state: RunnerState)
        ensures
            state == self@,
    {
        self.state
    }

    /// Starts the runner. Only a runner that was never started can be
    /// started; the answer says whether it was.
    pub fn start(&mut self) -> (started: bool)
        ensures
            started == (old(self)@ == RunnerState::Created),
            final(self)@ == if started {
                RunnerState::Running
            } else {
                old(self)@
            },
    {
        match self.state {
            RunnerState::Created => {
                self.state = RunnerState::Running;
                true
            },
            _ => false,
        }
    }

    /// Takes the next signal from the queue, or `None` where the queue is
    /// closed, and says what to do.
    pub fn on_signal(&mut self, signal: Option<Signal>) -> (dispatch: Dispatch)
        ensures
            (final(self)@, dispatch) == on_signal_spec(old(self)@, signal),
    {
        match self.state {
            RunnerState::Running => match signal {
                Some(Signal::Fire) => Dispatch::Run,
                Some(Signal::Terminate) => {
                    self.state = RunnerState::ShuttingDown;
                    Dispatch::RunLast
                },
                None => {
                    self.state = RunnerState::Terminated;
                    Dispatch::Stop
                },
            },
            _ => Dispatch::Stop,
        }
    }

    /// Takes note that the last run has ended. The answer says whether the
    /// runner was shutting down; it is terminated then.
    pub fn last_run_done(&mut self) -> (finished: bool)
        ensures
            finished == (old(self)@ == RunnerState::ShuttingDown),
            final(self)@ == if finished {
                RunnerState::Terminated
            } else {
                old(self)@
            },
    {
        match self.state {
            RunnerState::ShuttingDown => {
                self.state = RunnerState::Terminated;
                true
            },
            _ => false,
        }
    }
}

/// A runner only moves forward, and a terminated runner stays terminated
/// and runs nothing, whatever it is told: it cannot be started again.
pub proof fn lemma_runner_single_use(state: RunnerState, signal: Option<Signal>)
    ensures
        rank(on_signal_spec(state, signal).0) >= rank(state),
        state == RunnerState::Terminated ==> on_signal_spec(state, signal) == (
            RunnerState::Terminated,
            Dispatch::Stop,
        ),
        on_signal_spec(state, signal).1 != Dispatch::Stop ==> state == RunnerState::Running,
{
}

/// A running executor runs the task once for every fire in its queue, in
/// order, so a ticker that has fired `n` times has the task run `n` times.
pub proof fn lemma_one_run_for_each_fire(signals: Seq<Signal>)
    requires
        forall|i: int| 0 <= i < signals.len() ==> signals[i] == Signal::Fire,
    ensures
        runs_for(RunnerState::Running, signals) == (signals.len() as int, RunnerState::Running),
    decreases signals.len(),
{
    if signals.len() > 0 {
        assert forall|i: int| 0 <= i < signals.drop_first().len() implies signals.drop_first()[i]
            == Signal::Fire by {
            assert(signals.drop_first()[i] == signals[i + 1]);
        }
        lemma_one_run_for_each_fire(signals.drop_first());
    }
}

/// A terminate makes for one last run after the runs for the fires that came
/// before it; what is in the queue behind it is never run.
pub proof fn lemma_terminate_runs_once_more(fires: Seq<Signal>, behind: Seq<Signal>)
    requires
        forall|i: int| 0 <= i < fires.len() ==> fires[i] == Signal::Fire,
    ensures
        runs_for(RunnerState::Running, fires.push(Signal::Terminate) + behind) == (
            fires.len() as int + 1,
            RunnerState::ShuttingDown,
        ),
    decreases fires.len(),
{
    let all = fires.push(Signal::Terminate) + behind;
    if fires.len() == 0 {
        assert(all.first() == Signal::Terminate);
    } else {
        let rest = fires.drop_first();
        assert forall|i: int| 0 <= i < rest.len() implies rest[i] == Signal::Fire by {
            assert(rest[i] == fires[i + 1]);
        }
        lemma_terminate_runs_once_more(rest, behind);
        assert(all.first() == fires[0]);
        assert(all.drop_first() =~= rest.push(Signal::Terminate) + behind);
    }
}

/// A shutdown succeeds exactly when the executor said that it finished,
/// which it says only after the last run has ended.
pub proof fn lemma_shutdown_succeeds_when_finished(wait: WaitOutcome)
    ensures
        shutdown_result(wait) is Ok <==> wait == WaitOutcome::Finished,
        shutdown_result(wait) == Err::<(), CronJobError>(CronJobError::Timeout) <==> wait
            == WaitOutcome::Elapsed,
        shutdown_result(wait) == Err::<(), CronJobError>(CronJobError::TaskFailed) <==> wait
            == WaitOutcome::Closed,
{
}

/// What a shutdown returns.
pub open spec fn shutdown_result(wait: WaitOutcome) -> Result<(), CronJobError> {
    match wait {
        WaitOutcome::Finished => Ok(()),
        WaitOutcome::Closed => Err(CronJobError::TaskFailed),
        WaitOutcome::Elapsed => Err(CronJobError::Timeout),
    }
}

/// Turns what came of waiting for the executor into the result of the
/// shutdown: success exactly when the executor said that it finished, so
/// that the last run has ended before the shutdown returns.
pub fn conclude_shutdown(wait: WaitOutcome) -> (result: Result<(), CronJobError>)
    ensures
        result == shutdown_result(wait),
{
    match wait {
        WaitOutcome::Finished => Ok(()),
        WaitOutcome::Closed => Err(CronJobError::TaskFailed),
        WaitOutcome::Elapsed => Err(CronJobError::Timeout),
    }
}

} // verus!
