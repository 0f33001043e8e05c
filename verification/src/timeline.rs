//! The timeline of one subject: pairs of an emit and its check one day
//! later, at randomly drawn moments, merged into one sequence in due order.

use crate::utils::time::{clock_secs, day_start_after, next_day_start, CLOCK_LIMIT_SECS, SEC_PER_DAY};
use vstd::multiset::*;
use vstd::prelude::*;
use vstd::relations::*;
use vstd::seq_lib::*;

verus! {

/// Emits fall in the first eight hours of their day.
pub const EMIT_WINDOW_SECS: i64 = 28_800;

/// A moment at which something is due for a subject, in seconds since the
/// epoch: either the ping itself or the look at its answer.
#[derive(Clone, Copy, Debug, PartialEq, Eq, Structural)]
pub enum Event {
    Emit(i64),
    Check(i64),
}

/// The two random numbers behind one emit: `day_seed` picks the day (by its
/// remainder modulo the span), `time_offset` the second within that day.
#[derive(Clone, Copy, Debug, PartialEq, Eq, Structural)]
pub struct Draw {
    pub day_seed: u64,
    pub time_offset: i64,
}

impl Event {
    /// The due time of the event.
    pub open spec fn due(self) -> int {
        match self {
            Event::Emit(ts) => ts as int,
            Event::Check(ts) => ts as int,
        }
    }

    /// The due time of the event.
    pub fn get_ts(&self) -> (ts: i64)
        ensures
            ts == self.due(),
    {
        match self {
            Event::Emit(ts) => *ts,
            Event::Check(ts) => *ts,
        }
    }

    /// Whether this is an emit.
    pub fn is_emit(&self) -> (yes: bool)
        ensures
            yes == (*self is Emit),
    {
        match self {
            Event::Emit(_) => true,
            Event::Check(_) => false,
        }
    }
}

/// Picks the due time of an emit and nothing of a check.
pub open spec fn emit_due() -> spec_fn(Event) -> Option<int> {
    |e: Event|
        match e {
            Event::Emit(ts) => Some(ts as int),
            Event::Check(_) => None,
        }
}

/// Picks the due time of a check and nothing of an emit.
pub open spec fn check_due() -> spec_fn(Event) -> Option<int> {
    |e: Event|
        match e {
            Event::Emit(_) => None,
            Event::Check(ts) => Some(ts as int),
        }
}

/// Moves a time one day on.
pub open spec fn day_later() -> spec_fn(int) -> Option<int> {
    |t: int| Some(t + 86400)
}

/// Selects the events due exactly at `t`.
pub open spec fn due_at(t: int) -> spec_fn(Event) -> bool {
    |e: Event| e.due() == t
}

/// The due times of the emits of `s`, in the order in which they occur.
pub open spec fn emit_times(s: Seq<Event>) -> Seq<int> {
    s.filter_map(emit_due())
}

/// The due times of the checks of `s`, in the order in which they occur.
pub open spec fn check_times(s: Seq<Event>) -> Seq<int> {
    s.filter_map(check_due())
}

/// Due times never go down along `s`.
pub open spec fn sorted_by_due(s: Seq<Event>) -> bool {
    forall|i: int, j: int| 0 <= i < j < s.len() ==> s[i].due() <= s[j].due()
}

/// There are as many checks as emits, and the k-th check is due exactly one
/// day after the k-th emit.
pub open spec fn paired(s: Seq<Event>) -> bool {
    &&& check_times(s).len() == emit_times(s).len()
    &&& forall|k: int|
        0 <= k < emit_times(s).len() ==> #[trigger] check_times(s)[k] == emit_times(s)[k] + 86400
}

/// At no point along `s` have more checks come up than emits.
pub open spec fn balanced(s: Seq<Event>) -> bool {
    forall|n: int|
        0 <= n <= s.len() ==> check_times(#[trigger] s.take(n)).len() <= emit_times(
            s.take(n),
        ).len()
}

/// What a timeline has to be: in due order, with every check paired.
pub open spec fn well_formed(s: Seq<Event>) -> bool {
    sorted_by_due(s) && paired(s)
}

/// `s` holds the events of `g` in due order, and events due at the same time
/// stand in `s` as they stood in `g`.
pub open spec fn stable_sort_of(s: Seq<Event>, g: Seq<Event>) -> bool {
    &&& sorted_by_due(s)
    &&& s.to_multiset() == g.to_multiset()
    &&& forall|t: int| #[trigger] s.filter(due_at(t)) == g.filter(due_at(t))
}

/// When the emit of draw `d` is due: `start`, plus whole days by the seed's
/// remainder modulo `days`, plus the offset into the day.
pub open spec fn emit_time(start: int, days: int, d: Draw) -> int {
    start + 86400 * ((d.day_seed as int) % days) + d.time_offset
}

/// The events in the order in which they are drawn: each emit followed at
/// once by its own check.
pub open spec fn planned(start: int, days: int, draws: Seq<Draw>) -> Seq<Event>
    decreases draws.len(),
{
    if draws.len() == 0 {
        Seq::empty()
    } else {
        let t = emit_time(start, days, draws.last());
        planned(start, days, draws.drop_last()).push(Event::Emit(t as i64)).push(
            Event::Check((t + 86400) as i64),
        )
    }
}

/// Every offset lies within the emit window.
pub open spec fn draws_in_window(draws: Seq<Draw>) -> bool {
    forall|i: int| 0 <= i < draws.len() ==> 0 <= (#[trigger] draws[i]).time_offset < 28800
}

/// A span of `days` days after the day of `now` can be scheduled without
/// leaving the range of a timestamp: neither the length of the span in
/// seconds nor the last possible check does.
pub open spec fn span_fits(now: int, days: int) -> bool {
    &&& 0 < days
    &&& 86400 * days <= i64::MAX
    &&& i64::MIN + 86400 <= now
    &&& now + 86400 * (days + 1) + 28800 <= i64::MAX
}

// ---------------------------------------------------------------------------
// Selecting from sequences
// ---------------------------------------------------------------------------

/// Selecting from a sequence with one more element selects from that
/// element last.
proof fn lemma_filter_map_push<A, B>(s: Seq<A>, a: A, f: spec_fn(A) -> Option<B>)
    ensures
        s.push(a).filter_map(f) == match f(a) {
            Some(b) => s.filter_map(f).push(b),
            None => s.filter_map(f),
        },
{
    assert(s.push(a).drop_last() =~= s);
    match f(a) {
        Some(b) => {
            assert(s.filter_map(f) + seq![b] =~= s.filter_map(f).push(b));
        },
        None => {},
    }
}

/// Selecting from two sequences in a row selects from each in turn.
proof fn lemma_filter_map_add<A, B>(a: Seq<A>, b: Seq<A>, f: spec_fn(A) -> Option<B>)
    ensures
        (a + b).filter_map(f) == a.filter_map(f) + b.filter_map(f),
    decreases b.len(),
{
    if b.len() == 0 {
        assert(a + b =~= a);
        assert(a.filter_map(f) + b.filter_map(f) =~= a.filter_map(f));
    } else {
        lemma_filter_map_add(a, b.drop_last(), f);
        assert((a + b).drop_last() =~= a + b.drop_last());
        match f(b.last()) {
            Some(x) => {
                assert((a.filter_map(f) + b.drop_last().filter_map(f)) + seq![x] =~= a.filter_map(
                    f,
                ) + (b.drop_last().filter_map(f) + seq![x]));
            },
            None => {},
        }
    }
}

/// Selecting from a sequence with an element put in puts what is selected
/// from that element in, behind what comes from the elements before it.
proof fn lemma_filter_map_insert<A, B>(s: Seq<A>, p: int, a: A, f: spec_fn(A) -> Option<B>)
    requires
        0 <= p <= s.len(),
    ensures
        s.insert(p, a).filter_map(f) == match f(a) {
            Some(b) => s.filter_map(f).insert(s.take(p).filter_map(f).len() as int, b),
            None => s.filter_map(f),
        },
        s.take(p).filter_map(f).len() <= s.filter_map(f).len(),
{
    let l = s.take(p);
    let r = s.skip(p);
    assert(s =~= l + r);
    assert(s.insert(p, a) =~= l.push(a) + r);
    lemma_filter_map_add(l, r, f);
    lemma_filter_map_add(l.push(a), r, f);
    lemma_filter_map_push(l, a, f);
    match f(a) {
        Some(b) => {
            let fl = l.filter_map(f);
            let fr = r.filter_map(f);
            assert(fl.push(b) + fr =~= (fl + fr).insert(fl.len() as int, b));
        },
        None => {},
    }
}

/// Selecting from two sequences with the same elements gives two sequences
/// with the same elements.
proof fn lemma_filter_map_permutation<A, B>(s: Seq<A>, t: Seq<A>, f: spec_fn(A) -> Option<B>)
    requires
        s.to_multiset() == t.to_multiset(),
    ensures
        s.filter_map(f).to_multiset() == t.filter_map(f).to_multiset(),
    decreases s.len(),
{
    broadcast use {group_to_multiset_ensures, group_multiset_axioms};

    to_multiset_len(s);
    to_multiset_len(t);
    if s.len() == 0 {
        assert(s =~= t);
    } else {
        let x = s.last();
        let s1 = s.drop_last();
        assert(s =~= s1.push(x));
        assert(s[s.len() - 1] == x);
        assert(s.contains(x));
        assert(t.to_multiset().count(x) > 0);
        assert(t.contains(x));
        let j = choose|j: int| 0 <= j < t.len() && t[j] == x;
        let t1 = t.remove(j);
        assert(t =~= t1.insert(j, x));
        assert(s.to_multiset() =~= s1.to_multiset().insert(x));
        assert(s1.to_multiset() =~= s.to_multiset().remove(x));
        assert(t1.to_multiset() =~= t.to_multiset().remove(x));
        lemma_filter_map_permutation(s1, t1, f);
        lemma_filter_map_push(s1, x, f);
        lemma_filter_map_insert(t1, j, x, f);
        match f(x) {
            Some(b) => {
                let k = t1.take(j).filter_map(f).len() as int;
                assert(s.filter_map(f).to_multiset() =~= s1.filter_map(f).to_multiset().insert(b));
                assert(t.filter_map(f).to_multiset() =~= t1.filter_map(f).insert(
                    k,
                    b,
                ).to_multiset());
            },
            None => {},
        }
    }
}

/// What is selected from an event is its due time, for emits and for checks.
spec fn picks_due(f: spec_fn(Event) -> Option<int>) -> bool {
    forall|e: Event, t: int| f(e) == Some(t) ==> t == e.due()
}

/// The due times selected from events in due order are in order, and none
/// is later than the last event.
proof fn lemma_picked_times_sorted(s: Seq<Event>, f: spec_fn(Event) -> Option<int>)
    requires
        sorted_by_due(s),
        picks_due(f),
    ensures
        forall|i: int, j: int|
            0 <= i < j < s.filter_map(f).len() ==> s.filter_map(f)[i] <= s.filter_map(f)[j],
        forall|i: int|
            0 <= i < s.filter_map(f).len() && s.len() > 0 ==> s.filter_map(f)[i] <= s.last().due(),
    decreases s.len(),
{
    if s.len() > 0 {
        let r = s.drop_last();
        lemma_picked_times_sorted(r, f);
        lemma_filter_map_push(r, s.last(), f);
        assert(s =~= r.push(s.last()));
        assert forall|i: int| 0 <= i < r.filter_map(f).len() implies r.filter_map(f)[i]
            <= s.last().due() by {
            let v = r.filter_map(f)[i];
            assert(r.filter_map(f).contains(v));
            r.lemma_filter_map_contains(f, v);
            let x = choose|x: Event| #[trigger] r.contains(x) && f(x) == Some(v);
            let k = choose|k: int| 0 <= k < r.len() && r[k] == x;
            assert(s[k] == x);
            assert(s[k].due() <= s[s.len() - 1].due());
        }
    }
}

/// Moving every time one day on keeps their number and their order.
proof fn lemma_day_later(a: Seq<int>)
    ensures
        a.filter_map(day_later()).len() == a.len(),
        forall|k: int| 0 <= k < a.len() ==> #[trigger] a.filter_map(day_later())[k] == a[k] + 86400,
    decreases a.len(),
{
    if a.len() > 0 {
        lemma_day_later(a.drop_last());
        lemma_filter_map_push(a.drop_last(), a.last(), day_later());
        assert(a =~= a.drop_last().push(a.last()));
    }
}

/// Every event is an emit or a check.
proof fn lemma_event_is_emit_or_check(s: Seq<Event>)
    ensures
        s.len() == emit_times(s).len() + check_times(s).len(),
    decreases s.len(),
{
    if s.len() > 0 {
        lemma_event_is_emit_or_check(s.drop_last());
        lemma_filter_map_push(s.drop_last(), s.last(), emit_due());
        lemma_filter_map_push(s.drop_last(), s.last(), check_due());
        assert(s =~= s.drop_last().push(s.last()));
    }
}

// ---------------------------------------------------------------------------
// Laws of timelines
// ---------------------------------------------------------------------------

/// One more event adds its due time to the emits or to the checks.
pub proof fn lemma_times_push(s: Seq<Event>, e: Event)
    ensures
        emit_times(s.push(e)) == match e {
            Event::Emit(ts) => emit_times(s).push(ts as int),
            Event::Check(_) => emit_times(s),
        },
        check_times(s.push(e)) == match e {
            Event::Emit(_) => check_times(s),
            Event::Check(ts) => check_times(s).push(ts as int),
        },
{
    lemma_filter_map_push(s, e, emit_due());
    lemma_filter_map_push(s, e, check_due());
}

/// The emits of a sequence are those of any front part followed by those of
/// the rest, and so are the checks.
pub proof fn lemma_times_split(s: Seq<Event>, n: int)
    requires
        0 <= n <= s.len(),
    ensures
        emit_times(s) == emit_times(s.take(n)) + emit_times(s.skip(n)),
        check_times(s) == check_times(s.take(n)) + check_times(s.skip(n)),
{
    assert(s =~= s.take(n) + s.skip(n));
    lemma_filter_map_add(s.take(n), s.skip(n), emit_due());
    lemma_filter_map_add(s.take(n), s.skip(n), check_due());
}

/// A sequence holds exactly its emits and its checks; where these are
/// paired, it holds twice as many events as emits.
pub proof fn lemma_paired_counts(s: Seq<Event>)
    ensures
        s.len() == emit_times(s).len() + check_times(s).len(),
        paired(s) ==> s.len() == 2 * emit_times(s).len(),
{
    lemma_event_is_emit_or_check(s);
}

/// Putting paired events into due order keeps them paired: after sorting,
/// the k-th check is still the one that belongs to the k-th emit, whatever
/// the order among events that are due at the same time.
pub proof fn lemma_sorting_keeps_pairs(s: Seq<Event>, g: Seq<Event>)
    requires
        sorted_by_due(s),
        s.to_multiset() == g.to_multiset(),
        paired(g),
    ensures
        paired(s),
{
    let a = emit_times(s);
    let b = check_times(s);
    let ag = emit_times(g);
    let bg = check_times(g);
    lemma_filter_map_permutation(s, g, emit_due());
    lemma_filter_map_permutation(s, g, check_due());
    lemma_filter_map_permutation(a, ag, day_later());
    lemma_day_later(a);
    lemma_day_later(ag);
    let a1 = a.filter_map(day_later());
    assert(bg =~= ag.filter_map(day_later()));
    assert(b.to_multiset() == a1.to_multiset());
    assert(picks_due(emit_due()));
    assert(picks_due(check_due()));
    lemma_picked_times_sorted(s, emit_due());
    lemma_picked_times_sorted(s, check_due());
    let leq = |x: int, y: int| x <= y;
    assert(total_ordering(leq));
    assert(sorted_by(b, leq));
    assert(sorted_by(a1, leq));
    lemma_sorted_unique(b, a1, leq);
}

/// In a well-formed timeline no check comes up before the emit it belongs
/// to: along the sequence the checks never outnumber the emits.
pub proof fn lemma_well_formed_is_balanced(s: Seq<Event>)
    requires
        well_formed(s),
    ensures
        balanced(s),
{
    assert forall|n: int| 0 <= n <= s.len() implies check_times(#[trigger] s.take(n)).len()
        <= emit_times(s.take(n)).len() by {
        let p = s.take(n);
        let q = s.skip(n);
        let c = check_times(p).len() as int;
        let m = emit_times(p).len() as int;
        if c > m {
            assert(s =~= p + q);
            lemma_filter_map_add(p, q, emit_due());
            lemma_filter_map_add(p, q, check_due());
            let late = check_times(s)[m];
            let early = emit_times(s)[m];
            assert(late == early + 86400);
            assert(late == check_times(p)[m]);
            assert(early == emit_times(q)[0]);
            assert(check_times(p).contains(late));
            p.lemma_filter_map_contains(check_due(), late);
            let x = choose|x: Event| #[trigger] p.contains(x) && check_due()(x) == Some(late);
            let i = choose|i: int| 0 <= i < p.len() && p[i] == x;
            assert(emit_times(q).contains(early));
            q.lemma_filter_map_contains(emit_due(), early);
            let y = choose|y: Event| #[trigger] q.contains(y) && emit_due()(y) == Some(early);
            let j = choose|j: int| 0 <= j < q.len() && q[j] == y;
            assert(s[i] == x);
            assert(s[n + j] == y);
            assert(s[i].due() <= s[n + j].due());
            assert(false);
        }
    }
}

/// The events as they are drawn are paired, two for each draw, and the k-th
/// emit is due at the time that the k-th draw gives.
pub proof fn lemma_planned(start: int, days: int, draws: Seq<Draw>)
    requires
        0 < days,
        draws_in_window(draws),
        i64::MIN <= start,
        start + 86400 * days + 28800 <= i64::MAX,
    ensures
        planned(start, days, draws).len() == 2 * draws.len(),
        emit_times(planned(start, days, draws)).len() == draws.len(),
        forall|k: int|
            0 <= k < draws.len() ==> #[trigger] emit_times(planned(start, days, draws))[k]
                == emit_time(start, days, draws[k]),
        paired(planned(start, days, draws)),
    decreases draws.len(),
{
    if draws.len() > 0 {
        let rest = draws.drop_last();
        let d = draws.last();
        let t = emit_time(start, days, d);
        lemma_planned(start, days, rest);
        assert(0 <= (d.day_seed as int) % days < days);
        assert(86400 * ((d.day_seed as int) % days) <= 86400 * (days - 1));
        assert(0 <= draws[draws.len() - 1].time_offset < 28800);
        let g0 = planned(start, days, rest);
        let g1 = g0.push(Event::Emit(t as i64));
        let g2 = g1.push(Event::Check((t + 86400) as i64));
        lemma_filter_map_push(g0, Event::Emit(t as i64), emit_due());
        lemma_filter_map_push(g1, Event::Check((t + 86400) as i64), emit_due());
        lemma_filter_map_push(g0, Event::Emit(t as i64), check_due());
        lemma_filter_map_push(g1, Event::Check((t + 86400) as i64), check_due());
        assert(emit_times(g2) == emit_times(g0).push(t));
        assert(check_times(g2) == check_times(g0).push(t + 86400));
    }
}

/// Every event as drawn lies in the span: an emit on one of its days,
/// within the window, and a check one day after that.
pub proof fn lemma_planned_range(start: int, days: int, draws: Seq<Draw>, i: int)
    requires
        0 < days,
        draws_in_window(draws),
        i64::MIN <= start,
        start + 86400 * days + 28800 <= i64::MAX,
        0 <= i < planned(start, days, draws).len(),
    ensures
        match planned(start, days, draws)[i] {
            Event::Emit(ts) => start <= ts < start + 86400 * (days - 1) + 28800,
            Event::Check(ts) => start + 86400 <= ts < start + 86400 * days + 28800,
        },
    decreases draws.len(),
{
    if draws.len() > 0 {
        let rest = draws.drop_last();
        let d = draws.last();
        lemma_planned(start, days, rest);
        assert(0 <= (d.day_seed as int) % days < days);
        assert(0 <= draws[draws.len() - 1].time_offset < 28800);
        if i < planned(start, days, rest).len() {
            lemma_planned_range(start, days, rest, i);
        }
    }
}

/// No event of a timeline is due in the past: everything that is built at
/// `now` is due after the day of `now` has ended, and before the span and
/// one more day have.
pub proof fn lemma_events_lie_ahead(s: Seq<Event>, now: int, days: int, draws: Seq<Draw>, i: int)
    requires
        span_fits(now, days),
        draws_in_window(draws),
        stable_sort_of(s, planned(next_day_start(now), days, draws)),
        0 <= i < s.len(),
    ensures
        now < next_day_start(now) <= s[i].due() < next_day_start(now) + 86400 * days + 28800,
{
    broadcast use group_to_multiset_ensures;

    let start = next_day_start(now);
    let g = planned(start, days, draws);
    assert(s.contains(s[i]));
    assert(g.to_multiset().count(s[i]) > 0);
    assert(g.contains(s[i]));
    let j = choose|j: int| 0 <= j < g.len() && g[j] == s[i];
    lemma_planned_range(start, days, draws, j);
}

// ---------------------------------------------------------------------------
// Sorting
// ---------------------------------------------------------------------------

/// Where no event is due at `t`, none is selected.
proof fn lemma_filter_nothing(s: Seq<Event>, t: int)
    requires
        forall|i: int| 0 <= i < s.len() ==> s[i].due() != t,
    ensures
        s.filter(due_at(t)) == Seq::<Event>::empty(),
{
    let f = s.filter(due_at(t));
    if f.len() > 0 {
        s.lemma_filter_pred(due_at(t), 0);
        assert(f.contains(f[0]));
        s.lemma_filter_contains_rev(due_at(t), f[0]);
        let i = choose|i: int| 0 <= i < s.len() && s[i] == f[0];
        assert(s[i].due() != t);
    }
    assert(f =~= Seq::<Event>::empty());
}

/// One more event joins the events due at `t` exactly if it is due then.
proof fn lemma_filter_push(s: Seq<Event>, e: Event, t: int)
    ensures
        s.push(e).filter(due_at(t)) == if e.due() == t {
            s.filter(due_at(t)).push(e)
        } else {
            s.filter(due_at(t))
        },
{
    reveal(Seq::filter);
    assert(s.push(e).drop_last() =~= s);
}

/// Putting `e` behind everything that is due no later than it, and before
/// everything that is due later, keeps a stable sort stable.
proof fn lemma_stable_insert(s: Seq<Event>, g: Seq<Event>, p: int, e: Event)
    requires
        stable_sort_of(s, g),
        0 <= p <= s.len(),
        forall|k: int| 0 <= k < p ==> s[k].due() <= e.due(),
        forall|k: int| p <= k < s.len() ==> s[k].due() > e.due(),
    ensures
        stable_sort_of(s.insert(p, e), g.push(e)),
{
    broadcast use group_to_multiset_ensures;

    let s2 = s.insert(p, e);
    assert(s2.len() == s.len() + 1);
    assert forall|i: int, j: int| 0 <= i < j < s2.len() implies s2[i].due() <= s2[j].due() by {
        let a = if i < p { s[i] } else if i == p { e } else { s[i - 1] };
        let b = if j < p { s[j] } else if j == p { e } else { s[j - 1] };
        assert(s2[i] == a);
        assert(s2[j] == b);
    }
    assert(s2.to_multiset() =~= g.push(e).to_multiset());
    assert forall|t: int| #[trigger] s2.filter(due_at(t)) == g.push(e).filter(due_at(t)) by {
        let l = s.take(p);
        let r = s.skip(p);
        assert(s =~= l + r);
        assert(s2 =~= l.push(e) + r);
        Seq::filter_distributes_over_add(l, r, due_at(t));
        Seq::filter_distributes_over_add(l.push(e), r, due_at(t));
        lemma_filter_push(l, e, t);
        lemma_filter_push(g, e, t);
        assert(s.filter(due_at(t)) == g.filter(due_at(t)));
        if e.due() == t {
            lemma_filter_nothing(r, t);
            assert(l.filter(due_at(t)) + r.filter(due_at(t)) =~= l.filter(due_at(t)));
            assert(l.filter(due_at(t)).push(e) + r.filter(due_at(t)) =~= l.filter(due_at(t)).push(
                e,
            ));
        }
    }
}

/// There is only one way to sort stably: two stable sorts of the same
/// events are the same sequence.
pub proof fn lemma_stable_sort_is_unique(a: Seq<Event>, b: Seq<Event>, g: Seq<Event>)
    requires
        stable_sort_of(a, g),
        stable_sort_of(b, g),
    ensures
        a == b,
{
    to_multiset_len(a);
    to_multiset_len(b);
    assert forall|t: int| #[trigger] a.filter(due_at(t)) == b.filter(due_at(t)) by {
        assert(a.filter(due_at(t)) == g.filter(due_at(t)));
        assert(b.filter(due_at(t)) == g.filter(due_at(t)));
    }
    lemma_same_classes_same_order(a, b);
}

/// Of two sequences with the same events due at each time, the last event
/// of one is due no later than the last of the other, if that one is in
/// due order.
proof fn lemma_last_is_latest(s: Seq<Event>, other: Seq<Event>)
    requires
        s.len() > 0,
        other.len() > 0,
        sorted_by_due(other),
        s.filter(due_at(s.last().due())) == other.filter(due_at(s.last().due())),
    ensures
        s.last().due() <= other.last().due(),
{
    let t = s.last().due();
    let class = other.filter(due_at(t));
    lemma_filter_push(s.drop_last(), s.last(), t);
    assert(s =~= s.drop_last().push(s.last()));
    assert(class.len() > 0);
    other.lemma_filter_pred(due_at(t), 0);
    assert(class.contains(class[0]));
    other.lemma_filter_contains_rev(due_at(t), class[0]);
    let j = choose|j: int| 0 <= j < other.len() && other[j] == class[0];
    assert(other[j].due() <= other[other.len() - 1].due());
}

/// Two sequences in due order that agree on the events due at each time,
/// and on their order, are the same.
proof fn lemma_same_classes_same_order(a: Seq<Event>, b: Seq<Event>)
    requires
        sorted_by_due(a),
        sorted_by_due(b),
        a.len() == b.len(),
        forall|t: int| #[trigger] a.filter(due_at(t)) == b.filter(due_at(t)),
    ensures
        a == b,
    decreases a.len(),
{
    if a.len() == 0 {
        assert(a =~= b);
    } else {
        let a0 = a.drop_last();
        let b0 = b.drop_last();
        let latest = a.last().due();
        assert(a.filter(due_at(latest)) == b.filter(due_at(latest)));
        assert(a.filter(due_at(b.last().due())) == b.filter(due_at(b.last().due())));
        lemma_last_is_latest(a, b);
        lemma_last_is_latest(b, a);
        assert(a =~= a0.push(a.last()));
        assert(b =~= b0.push(b.last()));
        assert forall|t: int| #[trigger] a0.filter(due_at(t)) == b0.filter(due_at(t)) by {
            lemma_filter_push(a0, a.last(), t);
            lemma_filter_push(b0, b.last(), t);
            assert(a.filter(due_at(t)) == b.filter(due_at(t)));
            if t == latest {
                let fa = a0.filter(due_at(t));
                let fb = b0.filter(due_at(t));
                assert(fa.push(a.last()) == fb.push(b.last()));
                assert(fa.push(a.last()).drop_last() =~= fa);
                assert(fb.push(b.last()).drop_last() =~= fb);
            }
        }
        lemma_filter_push(a0, a.last(), latest);
        lemma_filter_push(b0, b.last(), latest);
        assert(a0.filter(due_at(latest)).push(a.last()).last() == a.last());
        assert(b0.filter(due_at(latest)).push(b.last()).last() == b.last());
        assert(a.last() == b.last());
        assert(sorted_by_due(a0)) by {
            assert forall|i: int, j: int| 0 <= i < j < a0.len() implies a0[i].due()
                <= a0[j].due() by {
                assert(a[i].due() <= a[j].due());
            }
        }
        assert(sorted_by_due(b0)) by {
            assert forall|i: int, j: int| 0 <= i < j < b0.len() implies b0[i].due()
                <= b0[j].due() by {
                assert(b[i].due() <= b[j].due());
            }
        }
        lemma_same_classes_same_order(a0, b0);
    }
}

/// Sorts events by due time; events due at the same time keep their order.
pub fn sort_by_due(events: &Vec<Event>) -> (sorted: Vec<Event>)
    ensures
        stable_sort_of(sorted@, events@),
{
    let mut sorted: Vec<Event> = Vec::new();
    let mut i: usize = 0;
    proof {
        assert(events@.take(0) =~= Seq::<Event>::empty());
        assert(sorted@ =~= events@.take(0));
    }
    while i < events.len()
        invariant
            i <= events.len(),
            stable_sort_of(sorted@, events@.take(i as int)),
        decreases events.len() - i,
    {
        let e = events[i];
        let mut p: usize = sorted.len();
        while p > 0 && sorted[p - 1].get_ts() > e.get_ts()
            invariant
                p <= sorted.len(),
                forall|k: int| p <= k < sorted.len() ==> sorted[k].due() > e.due(),
            decreases p,
        {
            p -= 1;
        }
        proof {
            assert forall|k: int| 0 <= k < p implies sorted[k].due() <= e.due() by {
                assert(sorted[k].due() <= sorted[p - 1].due());
            }
            lemma_stable_insert(sorted@, events@.take(i as int), p as int, e);
            assert(events@.take(i + 1) =~= events@.take(i as int).push(e));
        }
        sorted.insert(p, e);
        i += 1;
    }
    proof {
        assert(events@.take(events.len() as int) =~= events@);
    }
    sorted
}

// ---------------------------------------------------------------------------
// Timelines
// ---------------------------------------------------------------------------

/// The events of one subject in the order in which they are carried out.
/// Built once; never changed afterwards.
pub struct Timeline {
    events: Vec<Event>,
}

impl View for Timeline {
    type V = Seq<Event>;

    closed spec fn view(&self) -> Seq<Event> {
        self.events@
    }
}

impl Timeline {
    /// The invariant of the type: due order, and every check paired.
    pub open spec fn wf(&self) -> bool {
        well_formed(self@)
    }

    /// Builds the timeline that the given draws stand for, as seen at `now`:
    /// the emits start with the next full day.
    pub fn from_draws(now: i64, days: usize, draws: &Vec<Draw>) -> (tl: Timeline)
        requires
            span_fits(now as int, days as int),
            draws_in_window(draws@),
            2 * draws.len() <= usize::MAX,
        ensures
            stable_sort_of(tl@, planned(next_day_start(now as int), days as int, draws@)),
            tl.wf(),
            tl@.len() == 2 * draws.len(),
    {
        let start = day_start_after(now);
        let ghost first = start as int;
        let ghost span = days as int;
        let mut plan: Vec<Event> = Vec::new();
        let mut i: usize = 0;
        proof {
            assert(draws@.take(0) =~= Seq::<Draw>::empty());
        }
        while i < draws.len()
            invariant
                i <= draws.len(),
                first == start,
                span == days,
                first == next_day_start(now as int),
                span_fits(now as int, span),
                draws_in_window(draws@),
                2 * draws.len() <= usize::MAX,
                plan@ == planned(first, span, draws@.take(i as int)),
                plan@.len() == 2 * i,
            decreases draws.len() - i,
        {
            let d = draws[i];
            let day = (d.day_seed % (days as u64)) as i64;
            proof {
                assert(0 <= day < span);
                assert(day == (d.day_seed as int) % span);
                assert(now < first <= now + 86400);
            }
            let ts = start + SEC_PER_DAY * day + d.time_offset;
            plan.push(Event::Emit(ts));
            plan.push(Event::Check(ts + SEC_PER_DAY));
            proof {
                assert(draws@.take(i + 1).drop_last() =~= draws@.take(i as int));
                assert(draws@.take(i + 1).last() == d);
                assert(ts == emit_time(first, span, d));
            }
            i += 1;
        }
        let events = sort_by_due(&plan);
        proof {
            assert(draws@.take(draws.len() as int) =~= draws@);
            lemma_planned(first, span, draws@);
            lemma_sorting_keeps_pairs(events@, plan@);
            lemma_paired_counts(events@);
            vstd::seq_lib::to_multiset_len(events@);
            vstd::seq_lib::to_multiset_len(plan@);
        }
        Timeline { events }
    }

    /// Whether `count` emits over `days` days can be generated: there is at
    /// least one day, the last check that may come up is still a timestamp
    /// whatever the clock says, and the events can be counted.
    pub open spec fn can_generate(count: int, days: int) -> bool {
        &&& 0 < days
        &&& CLOCK_LIMIT_SECS + 86400 * (days + 1) + 28800 <= i64::MAX
        &&& 2 * count <= usize::MAX
    }

    /// Computes [`Timeline::can_generate`].
    pub fn supports(count: usize, days: usize) -> (yes: bool)
        ensures
            yes == Self::can_generate(count as int, days as int),
    {
        let span = days as i128;
        0 < days && count <= usize::MAX / 2 && (span + 1) * 86400 + 28800 + CLOCK_LIMIT_SECS as i128
            <= i64::MAX as i128
    }

    /// Draws `count` emits over `days` days, starting with the day after
    /// today, and builds their timeline.
    pub fn generate(count: usize, days: usize) -> (tl: Timeline)
        requires
            Self::can_generate(count as int, days as int),
        ensures
            tl.wf(),
            tl@.len() == 2 * count,
            exists|now: int, draws: Seq<Draw>|
                {
                    &&& 0 <= now < CLOCK_LIMIT_SECS
                    &&& draws.len() == count
                    &&& draws_in_window(draws)
                    &&& #[trigger] stable_sort_of(
                        tl@,
                        planned(next_day_start(now), days as int, draws),
                    )
                },
    {
        let now = clock_secs();
        let mut draws: Vec<Draw> = Vec::new();
        let mut i: usize = 0;
        while i < count
            invariant
                i <= count,
                draws@.len() == i,
                draws_in_window(draws@),
            decreases count - i,
        {
            let day_seed = random_seed();
            let time_offset = random_between(0, EMIT_WINDOW_SECS);
            draws.push(Draw { day_seed, time_offset });
            i += 1;
        }
        let tl = Timeline::from_draws(now, days, &draws);
        proof {
            assert(stable_sort_of(tl@, planned(next_day_start(now as int), days as int, draws@)));
        }
        tl
    }

    /// A timeline is held in memory, so its length is that of a vector.
    pub proof fn lemma_len_fits(&self)
        ensures
            self@.len() <= usize::MAX,
    {
        vstd::std_specs::vec::axiom_spec_len(&self.events);
    }

    /// The number of events.
    pub fn len(&self) -> (n: usize)
        ensures
            n == self@.len(),
    {
        self.events.len()
    }

    /// The event at place `i` in due order.
    pub fn get(&self, i: usize) -> (e: Option<Event>)
        ensures
            e == if i < self@.len() {
                Some(self@[i as int])
            } else {
                None
            },
    {
        if i < self.events.len() {
            Some(self.events[i])
        } else {
            None
        }
    }

    /// All events, in due order.
    pub fn events(&self) -> (all: Vec<Event>)
        ensures
            all@ == self@,
    {
        let mut all: Vec<Event> = Vec::new();
        let mut i: usize = 0;
        while i < self.events.len()
            invariant
                i <= self.events.len(),
                all@ == self.events@.take(i as int),
            decreases self.events.len() - i,
        {
            all.push(self.events[i]);
            proof {
                assert(self.events@.take(i + 1) =~= self.events@.take(i as int).push(
                    self.events@[i as int],
                ));
            }
            i += 1;
        }
        proof {
            assert(self.events@.take(self.events.len() as int) =~= self.events@);
        }
        all
    }
}

// ---------------------------------------------------------------------------
// Random numbers
// ---------------------------------------------------------------------------

/// Draws a number with `rand::random`, from the generator of the thread.
///
/// Trusted: nothing is claimed of the number.
#[verifier::external_body]
fn random_seed() -> u64 {
    rand::random()
}

/// Draws a number from `low..high` with `rand::random_range`.
///
/// Trusted: the result lies in the range that was asked for. An empty range
/// makes `random_range` panic, hence the precondition.
#[verifier::external_body]
fn random_between(low: i64, high: i64) -> (r: i64)
    requires
        low < high,
    ensures
        low <= r < high,
{
    rand::random_range(low..high)
}

} // verus!
