//! Carrying out one subject's timeline, step by step.
//!
//! The run decides what is next and for how long to suspend first; the
//! caller suspends, talks to the outside and reports what came of each send.
//! Outcomes wait in a queue until the check that belongs to them comes up.

use crate::scoreboard::Scoreboard;
use crate::timeline::{
    check_times, emit_times, lemma_times_push, lemma_times_split,
    lemma_well_formed_is_balanced, well_formed, Event, Timeline,
};
use crate::utils::time::{remaining_secs, secs_until};
use std::collections::VecDeque;
use vstd::prelude::*;

verus! {

/// How often a send or a read is tried before it counts as failed.
pub const ACTION_ATTEMPTS: usize = 3;

/// The pause between two tries of a send or a read, in milliseconds.
pub const ACTION_RETRY_DELAY_MS: u64 = 5000;

/// What the caller is to do next for a subject.
#[derive(Debug, PartialEq, Eq)]
pub enum Step<T> {
    /// Suspend for `wait_secs`, send the greeting, then report the outcome
    /// with [`SubjectRun::record_send`].
    Send { wait_secs: u64 },
    /// Suspend for `wait_secs`, then read what became of the message that
    /// `token` stands for.
    Read { wait_secs: u64, token: T },
    /// Suspend for `wait_secs` and do nothing: the send that this check
    /// belongs to had failed.
    Skip { wait_secs: u64 },
    /// The timeline is exhausted.
    Done,
}

/// The state of one subject's run: the timeline, how far it has come, and
/// the outcomes of sends that no check has looked at yet, oldest first.
pub struct SubjectRun<T> {
    timeline: Timeline,
    position: usize,
    pending: VecDeque<Option<T>>,
    reported: Ghost<Seq<Option<T>>>,
}

impl<T> SubjectRun<T> {
    /// The events of the run, in due order.
    pub closed spec fn timeline(&self) -> Seq<Event> {
        self.timeline@
    }

    /// How many events have been carried out.
    pub closed spec fn position(&self) -> int {
        self.position as int
    }

    /// The queue of outcomes that wait for their check.
    pub closed spec fn pending(&self) -> Seq<Option<T>> {
        self.pending@
    }

    /// Every outcome reported so far, in the order of the reports.
    pub closed spec fn reported(&self) -> Seq<Option<T>> {
        self.reported@
    }

    /// The number of emits carried out.
    pub open spec fn emits_done(&self) -> nat {
        emit_times(self.timeline().take(self.position())).len()
    }

    /// The number of checks carried out.
    pub open spec fn checks_done(&self) -> nat {
        check_times(self.timeline().take(self.position())).len()
    }

    /// The event that is next, if any is left.
    pub open spec fn upcoming(&self) -> Option<Event> {
        if 0 <= self.position() < self.timeline().len() {
            Some(self.timeline()[self.position()])
        } else {
            None
        }
    }

    /// The invariant of a run: one outcome was reported for each emit
    /// carried out, and the queue holds those that no check has taken yet,
    /// so its length is the emits carried out less the checks carried out.
    pub open spec fn wf(&self) -> bool {
        &&& well_formed(self.timeline())
        &&& 0 <= self.position() <= self.timeline().len()
        &&& self.reported().len() == self.emits_done()
        &&& self.checks_done() <= self.reported().len()
        &&& self.pending() == self.reported().skip(self.checks_done() as int)
    }

    /// Starts a run at the beginning of `timeline`.
    pub fn new(timeline: Timeline) -> (run: Self)
        requires
            timeline.wf(),
        ensures
            run.wf(),
            run.timeline() == timeline@,
            run.position() == 0,
            run.pending() == Seq::<Option<T>>::empty(),
            run.reported() == Seq::<Option<T>>::empty(),
    {
        let run = SubjectRun {
            timeline,
            position: 0,
            pending: VecDeque::new(),
            reported: Ghost(Seq::empty()),
        };
        proof {
            assert(run.timeline@.take(0) =~= Seq::<Event>::empty());
            assert(run.reported@.skip(0) =~= run.pending@);
        }
        run
    }

    /// Whether every event has been carried out.
    pub fn finished(&self) -> (done: bool)
        requires
            self.wf(),
        ensures
            done == (self.upcoming() is None),
    {
        self.position >= self.timeline.len()
    }

    /// Says what is next at time `now`.
    ///
    /// An emit is handed out and stays next until its outcome is reported.
    /// A check is carried out here: it takes the oldest waiting outcome,
    /// which is always there, and the run moves on.
    pub fn next_step(&mut self, now: i64) -> (step: Step<T>)
        requires
            old(self).wf(),
        ensures
            final(self).wf(),
            final(self).timeline() == old(self).timeline(),
            final(self).reported() == old(self).reported(),
            match old(self).upcoming() {
                None => {
                    &&& step is Done
                    &&& final(self).position() == old(self).position()
                    &&& final(self).pending() == old(self).pending()
                },
                Some(Event::Emit(ts)) => {
                    &&& step == (Step::<T>::Send {
                        wait_secs: remaining_secs(ts as int, now as int) as u64,
                    })
                    &&& final(self).position() == old(self).position()
                    &&& final(self).pending() == old(self).pending()
                },
                Some(Event::Check(ts)) => {
                    &&& old(self).pending().len() > 0
                    &&& final(self).position() == old(self).position() + 1
                    &&& final(self).pending() == old(self).pending().skip(1)
                    &&& step == match old(self).pending()[0] {
                        Some(token) => (Step::Read {
                            wait_secs: remaining_secs(ts as int, now as int) as u64,
                            token,
                        }),
                        None => (Step::Skip {
                            wait_secs: remaining_secs(ts as int, now as int) as u64,
                        }),
                    }
                },
            },
    {
        match self.timeline.get(self.position) {
            None => Step::Done,
            Some(Event::Emit(ts)) => Step::Send { wait_secs: secs_until(ts, now) },
            Some(Event::Check(ts)) => {
                let wait_secs = secs_until(ts, now);
                proof {
                    let s = self.timeline@;
                    let n = self.position as int;
                    self.timeline.lemma_len_fits();
                    lemma_well_formed_is_balanced(s);
                    assert(s.take(n + 1) =~= s.take(n).push(s[n]));
                    lemma_times_push(s.take(n), s[n]);
                    assert(check_times(s.take(n + 1)).len() <= emit_times(s.take(n + 1)).len());
                    assert(self.reported@.skip(self.checks_done() as int).skip(1)
                        =~= self.reported@.skip(self.checks_done() as int + 1));
                }
                let head = self.pending.pop_front();
                self.position = self.position + 1;
                match head {
                    Some(Some(token)) => Step::Read { wait_secs, token },
                    Some(None) => Step::Skip { wait_secs },
                    None => Step::Done,
                }
            },
        }
    }

    /// Reports what came of the send that was handed out last: the token of
    /// the message, or `None` where every try failed. The outcome joins the
    /// queue and the run moves past the emit. Where no emit is next, nothing
    /// changes and the answer is `false`.
    pub fn record_send(&mut self, outcome: Option<T>) -> (accepted: bool)
        requires
            old(self).wf(),
        ensures
            final(self).wf(),
            final(self).timeline() == old(self).timeline(),
            accepted == (old(self).upcoming() matches Some(Event::Emit(_))),
            accepted ==> {
                &&& final(self).position() == old(self).position() + 1
                &&& final(self).pending() == old(self).pending().push(outcome)
                &&& final(self).reported() == old(self).reported().push(outcome)
            },
            !accepted ==> {
                &&& final(self).position() == old(self).position()
                &&& final(self).pending() == old(self).pending()
                &&& final(self).reported() == old(self).reported()
            },
    {
        match self.timeline.get(self.position) {
            Some(Event::Emit(_)) => {
                proof {
                    let s = self.timeline@;
                    let n = self.position as int;
                    self.timeline.lemma_len_fits();
                    assert(s.take(n + 1) =~= s.take(n).push(s[n]));
                    lemma_times_push(s.take(n), s[n]);
                    assert(self.reported@.skip(self.checks_done() as int).push(outcome)
                        =~= self.reported@.push(outcome).skip(self.checks_done() as int));
                }
                self.reported = Ghost(self.reported@.push(outcome));
                self.pending.push_back(outcome);
                self.position = self.position + 1;
                true
            },
            _ => false,
        }
    }

    /// The outcome that a check takes is the one reported for its own emit:
    /// the k-th check takes the k-th report, and the k-th emit was due
    /// exactly one day before it. So no check runs before its emit has put
    /// an outcome in the queue.
    pub proof fn lemma_check_takes_own_outcome(&self)
        requires
            self.wf(),
            self.upcoming() matches Some(Event::Check(_)),
        ensures
            self.checks_done() < self.emits_done(),
            self.pending().len() > 0,
            self.pending()[0] == self.reported()[self.checks_done() as int],
            self.checks_done() < emit_times(self.timeline()).len(),
            emit_times(self.timeline())[self.checks_done() as int] + 86400
                == self.upcoming().unwrap().due(),
    {
        let s = self.timeline();
        let n = self.position();
        let k = self.checks_done() as int;
        lemma_well_formed_is_balanced(s);
        assert(s.take(n + 1) =~= s.take(n).push(s[n]));
        lemma_times_push(s.take(n), s[n]);
        assert(check_times(s.take(n + 1)).len() <= emit_times(s.take(n + 1)).len());
        lemma_times_split(s, n + 1);
        assert(check_times(s)[k] == check_times(s.take(n + 1))[k]);
        assert(check_times(s)[k] == emit_times(s)[k] + 86400);
    }

    /// When the timeline is exhausted, every outcome has been taken by its
    /// check: nothing waits in the queue.
    pub proof fn lemma_done_leaves_nothing(&self)
        requires
            self.wf(),
            self.upcoming() is None,
        ensures
            self.pending() == Seq::<Option<T>>::empty(),
            self.reported().len() == emit_times(self.timeline()).len(),
    {
        let s = self.timeline();
        assert(s.take(s.len() as int) =~= s);
        assert(self.pending() =~= Seq::<Option<T>>::empty());
    }

    /// The queue is as long as the emits carried out less the checks
    /// carried out.
    pub proof fn lemma_pending_len(&self)
        requires
            self.wf(),
        ensures
            self.pending().len() == self.emits_done() - self.checks_done(),
    {
    }
}

/// What follows from reading the outcome of a message.
#[derive(Clone, Copy, Debug, PartialEq, Eq, Structural)]
pub enum FollowUp {
    /// There was an answer: the subject scores, and is told so.
    Confirm,
    /// The read worked and found no answer: the subject is told so.
    NotFound,
    /// The read failed: nothing more happens.
    Nothing,
}

/// The greeting that an emit sends.
pub fn greeting() -> (text: &'static str)
    ensures
        text@ == "hello"@,
{
    "hello"
}

impl FollowUp {
    /// The text that the subject is sent, if any.
    pub fn text(&self) -> (text: Option<&'static str>)
        ensures
            match *self {
                FollowUp::Confirm => text matches Some(t) && t@ == "got msg!!!"@,
                FollowUp::NotFound => text matches Some(t) && t@
                    == "cannot find your reaction QQ"@,
                FollowUp::Nothing => text is None,
            },
    {
        match self {
            FollowUp::Confirm => Some("got msg!!!"),
            FollowUp::NotFound => Some("cannot find your reaction QQ"),
            FollowUp::Nothing => None,
        }
    }
}

/// What follows from the outcome `read` of reading a message's answers:
/// `Ok` with the number of answers found, or `Err` where every try failed.
pub open spec fn follow_up_of(read: Result<usize, ()>) -> FollowUp {
    match read {
        Ok(found) => if found > 0 {
            FollowUp::Confirm
        } else {
            FollowUp::NotFound
        },
        Err(_) => FollowUp::Nothing,
    }
}

/// Settles a check for `subject`: the subject scores one point exactly when
/// the read found an answer. Returns what follows.
pub fn settle_check(board: &mut Scoreboard, subject: &str, read: Result<usize, ()>) -> (next:
    FollowUp)
    requires
        old(board).wf(),
        old(board).score_of(subject@) < i64::MAX,
    ensures
        final(board).wf(),
        next == follow_up_of(read),
        final(board)@ == if next == FollowUp::Confirm {
            crate::scoreboard::bump(old(board)@, subject@)
        } else {
            old(board)@
        },
{
    match read {
        Ok(found) => {
            if found > 0 {
                board.increment(subject);
                FollowUp::Confirm
            } else {
                FollowUp::NotFound
            }
        },
        Err(_) => FollowUp::Nothing,
    }
}

} // verus!
