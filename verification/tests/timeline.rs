use slack_bot::time::{day_start_after, secs_until, SEC_PER_DAY};
use slack_bot::timeline::{sort_by_due, Draw, Event, Timeline, EMIT_WINDOW_SECS};

const NOW: i64 = 1_700_000_000;
const START: i64 = 1_700_006_400;

fn emits(events: &[Event]) -> Vec<i64> {
    events.iter().filter(|e| e.is_emit()).map(|e| e.get_ts()).collect()
}

fn checks(events: &[Event]) -> Vec<i64> {
    events.iter().filter(|e| !e.is_emit()).map(|e| e.get_ts()).collect()
}

#[test]
fn day_start_is_the_next_midnight() {
    assert_eq!(SEC_PER_DAY, 86400);
    assert_eq!(day_start_after(NOW), START);
    assert_eq!(day_start_after(0), 86400);
    assert_eq!(day_start_after(86399), 86400);
    assert_eq!(day_start_after(86400), 172800);
}

#[test]
fn day_start_floors_before_the_epoch() {
    assert_eq!(day_start_after(-1), 0);
    assert_eq!(day_start_after(-86400), 0);
    assert_eq!(day_start_after(-86401), -86400);
}

#[test]
fn waiting_time_is_what_remains() {
    assert_eq!(secs_until(100, 40), 60);
    assert_eq!(secs_until(100, 100), 0);
    assert_eq!(secs_until(i64::MAX, i64::MIN), u64::MAX);
}

#[test]
fn a_due_time_that_has_passed_means_no_wait() {
    assert_eq!(secs_until(40, 100), 0);
    assert_eq!(secs_until(i64::MIN, i64::MAX), 0);
}

#[test]
fn event_reports_its_due_time_and_kind() {
    assert_eq!(Event::Emit(5).get_ts(), 5);
    assert_eq!(Event::Check(-7).get_ts(), -7);
    assert!(Event::Emit(5).is_emit());
    assert!(!Event::Check(5).is_emit());
}

#[test]
fn one_draw_gives_an_emit_and_its_check() {
    let draws = vec![Draw { day_seed: 0, time_offset: 100 }];
    let tl = Timeline::from_draws(NOW, 1, &draws);
    assert_eq!(tl.len(), 2);
    assert_eq!(tl.events(), vec![Event::Emit(START + 100), Event::Check(START + 100 + 86400)]);
}

#[test]
fn the_day_is_the_seed_modulo_the_span() {
    let draws = vec![Draw { day_seed: 7, time_offset: 3600 }];
    let tl = Timeline::from_draws(NOW, 3, &draws);
    assert_eq!(tl.events(), vec![Event::Emit(1_700_096_400), Event::Check(1_700_182_800)]);
    let draws = vec![Draw { day_seed: u64::MAX, time_offset: 0 }];
    let tl = Timeline::from_draws(NOW, 10, &draws);
    assert_eq!(tl.get(0), Some(Event::Emit(START + 5 * 86400)));
    assert_eq!(tl.get(1), Some(Event::Check(START + 6 * 86400)));
    assert_eq!(tl.get(2), None);
}

#[test]
fn no_draws_give_an_empty_timeline() {
    let tl = Timeline::from_draws(NOW, 4, &Vec::new());
    assert_eq!(tl.len(), 0);
    assert_eq!(tl.events(), Vec::new());
    assert_eq!(tl.get(0), None);
}

#[test]
fn events_come_out_in_due_order() {
    let draws = vec![
        Draw { day_seed: 2, time_offset: 10 },
        Draw { day_seed: 0, time_offset: 20 },
        Draw { day_seed: 1, time_offset: 5 },
    ];
    let tl = Timeline::from_draws(NOW, 3, &draws);
    assert_eq!(
        tl.events(),
        vec![
            Event::Emit(START + 20),
            Event::Emit(START + 86400 + 5),
            Event::Check(START + 86400 + 20),
            Event::Check(START + 2 * 86400 + 5),
            Event::Emit(START + 2 * 86400 + 10),
            Event::Check(START + 3 * 86400 + 10),
        ]
    );
}

#[test]
fn events_due_together_keep_the_order_of_the_draws() {
    let later_first =
        vec![Draw { day_seed: 1, time_offset: 0 }, Draw { day_seed: 0, time_offset: 0 }];
    let tl = Timeline::from_draws(NOW, 2, &later_first);
    assert_eq!(
        tl.events(),
        vec![
            Event::Emit(START),
            Event::Emit(START + 86400),
            Event::Check(START + 86400),
            Event::Check(START + 2 * 86400),
        ]
    );
    let earlier_first =
        vec![Draw { day_seed: 0, time_offset: 0 }, Draw { day_seed: 1, time_offset: 0 }];
    let tl = Timeline::from_draws(NOW, 2, &earlier_first);
    assert_eq!(
        tl.events(),
        vec![
            Event::Emit(START),
            Event::Check(START + 86400),
            Event::Emit(START + 86400),
            Event::Check(START + 2 * 86400),
        ]
    );
}

#[test]
fn sorting_is_stable() {
    let events = vec![
        Event::Check(30),
        Event::Emit(10),
        Event::Check(10),
        Event::Emit(30),
        Event::Emit(20),
        Event::Check(10),
        Event::Emit(-5),
    ];
    assert_eq!(
        sort_by_due(&events),
        vec![
            Event::Emit(-5),
            Event::Emit(10),
            Event::Check(10),
            Event::Check(10),
            Event::Emit(20),
            Event::Check(30),
            Event::Emit(30),
        ]
    );
    assert_eq!(sort_by_due(&Vec::new()), Vec::new());
}

#[test]
fn every_check_is_one_day_after_its_emit() {
    let draws = vec![
        Draw { day_seed: 9, time_offset: 28_799 },
        Draw { day_seed: 4, time_offset: 0 },
        Draw { day_seed: 4, time_offset: 0 },
        Draw { day_seed: 1, time_offset: 17 },
        Draw { day_seed: 3, time_offset: 17 },
    ];
    let events = Timeline::from_draws(NOW, 5, &draws).events();
    let sent = emits(&events);
    let looked = checks(&events);
    assert_eq!(sent.len(), 5);
    assert_eq!(looked.len(), 5);
    for k in 0..5 {
        assert_eq!(looked[k], sent[k] + 86400);
    }
}

#[test]
fn a_generated_timeline_is_paired_and_sorted() {
    let tl = Timeline::generate(40, 10);
    let events = tl.events();
    assert_eq!(events.len(), 80);
    for pair in events.windows(2) {
        assert!(pair[0].get_ts() <= pair[1].get_ts());
    }
    let sent = emits(&events);
    let looked = checks(&events);
    assert_eq!(sent.len(), looked.len());
    for k in 0..sent.len() {
        assert_eq!(looked[k], sent[k] + 86400);
    }
}

#[test]
fn generated_emits_fall_in_the_window_of_a_day_of_the_span() {
    let before = chrono::Utc::now().timestamp();
    let events = Timeline::generate(200, 3).events();
    let after = chrono::Utc::now().timestamp();
    assert_eq!(EMIT_WINDOW_SECS, 8 * 3600);
    let mut seen_offset_nonzero = false;
    for ts in emits(&events) {
        assert!(ts >= day_start_after(before));
        assert!(ts < day_start_after(after) + 3 * 86400);
        assert!(ts.rem_euclid(86400) < EMIT_WINDOW_SECS);
        seen_offset_nonzero = seen_offset_nonzero || ts.rem_euclid(86400) != 0;
    }
    assert!(seen_offset_nonzero);
}

#[test]
fn checks_never_outnumber_emits_along_a_generated_timeline() {
    let events = Timeline::generate(60, 2).events();
    let mut open = 0i64;
    for e in events {
        if e.is_emit() {
            open += 1;
        } else {
            open -= 1;
        }
        assert!(open >= 0);
    }
    assert_eq!(open, 0);
}

#[test]
fn generating_nothing_gives_nothing() {
    assert_eq!(Timeline::generate(0, 1).len(), 0);
}

#[test]
fn what_can_be_generated() {
    assert!(Timeline::supports(5, 10));
    assert!(Timeline::supports(0, 1));
    assert!(!Timeline::supports(5, 0));
    assert!(!Timeline::supports(usize::MAX, 10));
    assert!(Timeline::supports(usize::MAX / 2, 10));
    assert!(Timeline::supports(5, 106749843683651));
    assert!(!Timeline::supports(5, 106749843683652));
}
