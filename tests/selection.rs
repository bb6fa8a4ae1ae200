use schoolday::content::{fixed_match, sort_by_interval_desc};
use schoolday::model::{Action, Effects, Event, FixedEvent, Parameter};
use schoolday::selector::{AppState, ConfigError, MIN_SITUATIONS, RETRIES};

fn effects(a: i8) -> Effects {
    Effects { administration: a, colleagues: -a, parents: 0, students: 1, free_time: -1 }
}

fn event(name: &str) -> Event {
    Event {
        description: name.to_string(),
        actions: vec![
            Action { description: format!("{} / accept", name), effects: effects(2) },
            Action { description: format!("{} / refuse", name), effects: effects(-3) },
        ],
    }
}

fn fixed(interval: usize) -> FixedEvent {
    FixedEvent {
        interval,
        description: format!("every {} days", interval),
        actions: vec![Action { description: "ok".to_string(), effects: effects(1) }],
    }
}

fn parameter(id: &str, value: i8) -> Parameter {
    Parameter {
        label: format!("label {}", id),
        id: id.to_string(),
        value,
        message: format!("message {}", id),
        warn: format!("warn {}", id),
        color: "#ff0000".to_string(),
    }
}

fn situations(n: usize) -> Vec<Event> {
    (0..n).map(|i| event(&format!("situation {}", i))).collect()
}

fn parameters() -> Vec<Parameter> {
    vec![
        parameter("administration", 50),
        parameter("colleagues", -20),
        parameter("parents", 127),
        parameter("students", -128),
        parameter("freeTime", 0),
    ]
}

fn state(n: usize, intervals: &[usize]) -> AppState {
    let fixed_events = intervals.iter().map(|&i| fixed(i)).collect();
    AppState::new(situations(n), fixed_events, parameters()).expect("valid content")
}

fn intervals(s: &AppState) -> Vec<usize> {
    s.fixed_events().iter().map(|f| f.interval).collect()
}

fn index_of(s: &AppState, e: &Event) -> usize {
    s.situations().iter().position(|x| x == e).expect("a situation of the pool")
}

#[test]
fn two_situations_fail_to_load() {
    let r = AppState::new(situations(2), vec![fixed(7)], parameters());
    assert!(matches!(r, Err(ConfigError::TooFewSituations { found: 2 })));
}

#[test]
fn empty_pool_fails_to_load() {
    let r = AppState::new(Vec::new(), Vec::new(), Vec::new());
    assert!(matches!(r, Err(ConfigError::TooFewSituations { found: 0 })));
}

#[test]
fn three_situations_load() {
    let r = AppState::new(situations(3), Vec::new(), parameters());
    assert!(r.is_ok());
    let s = r.unwrap();
    assert_eq!(s.situations().len(), MIN_SITUATIONS);
    assert_eq!(s.previous_index(), None);
}

#[test]
fn load_sorts_fixed_events_descending() {
    let s = state(3, &[7, 30, 1]);
    assert_eq!(intervals(&s), vec![30, 7, 1]);
    assert_eq!(s.fixed_events()[0], fixed(30));
}

#[test]
fn sort_keeps_every_entry() {
    let r = sort_by_interval_desc(vec![fixed(2), fixed(9), fixed(2), fixed(0), fixed(5)]);
    let got: Vec<usize> = r.iter().map(|f| f.interval).collect();
    assert_eq!(got, vec![9, 5, 2, 2, 0]);
    assert!(sort_by_interval_desc(Vec::new()).is_empty());
}

#[test]
fn day_divisible_by_both_intervals_gets_the_larger() {
    let mut s = state(3, &[7, 30]);
    let e = s.get_event(30);
    assert_eq!(e.description, "every 30 days");
    let e = s.get_event(210);
    assert_eq!(e.description, "every 30 days");
    assert_eq!(e.actions, fixed(30).actions);
    assert_eq!(s.previous_index(), None);
}

#[test]
fn day_210_resolves_to_interval_30() {
    let mut s = state(3, &[7, 30, 1]);
    assert_eq!(s.get_event(210).description, "every 30 days");
    assert_eq!(s.get_event(14).description, "every 7 days");
    assert_eq!(s.get_event(13).description, "every 1 days");
}

#[test]
fn day_zero_samples_randomly() {
    let mut s = state(3, &[7, 30, 1]);
    let e = s.get_event(0);
    let i = index_of(&s, &e);
    assert_eq!(s.previous_index(), Some(i));
}

#[test]
fn fixed_match_cases() {
    let v = vec![fixed(30), fixed(7), fixed(1)];
    assert_eq!(fixed_match(&v, 210), Some(0));
    assert_eq!(fixed_match(&v, 14), Some(1));
    assert_eq!(fixed_match(&v, 13), Some(2));
    assert_eq!(fixed_match(&v, 0), None);
    assert_eq!(fixed_match(&vec![fixed(30), fixed(7)], 13), None);
    assert_eq!(fixed_match(&Vec::new(), 5), None);
}

#[test]
fn zero_interval_never_triggers() {
    let v = vec![fixed(0)];
    assert_eq!(fixed_match(&v, 5), None);
    let mut s = state(3, &[0]);
    let e = s.get_event(10);
    assert!(e.description.starts_with("situation"));
}

#[test]
fn consecutive_random_picks_differ() {
    let mut s = state(3, &[]);
    let first = s.get_event(1);
    let mut last = index_of(&s, &first);
    for day in 2..200 {
        let before = s.previous_index();
        let e = s.get_event(day);
        let i = index_of(&s, &e);
        if s.previous_index() == before {
            assert_eq!(i, 0);
        } else {
            assert_ne!(i, last);
            assert_eq!(s.previous_index(), Some(i));
            last = i;
        }
    }
}

#[test]
fn first_fresh_draw_is_taken() {
    let mut s = state(4, &[]);
    let draws = vec![3, 3, 3, 3, 3, 3, 3, 3, 3, 3];
    assert_eq!(draws.len(), RETRIES);
    let e = s.select_event(1, &draws);
    assert_eq!(e, event("situation 3"));
    assert_eq!(s.previous_index(), Some(3));
    let draws = vec![3, 3, 2, 1, 3, 3, 3, 3, 3, 3];
    let e = s.select_event(1, &draws);
    assert_eq!(e, event("situation 2"));
    assert_eq!(s.previous_index(), Some(2));
}

#[test]
fn all_draws_repeating_fall_back_to_first() {
    let mut s = state(4, &[]);
    s.select_event(1, &vec![3, 0, 0, 0, 0, 0, 0, 0, 0, 0]);
    assert_eq!(s.previous_index(), Some(3));
    let e = s.select_event(1, &vec![3; 10]);
    assert_eq!(e, event("situation 0"));
    assert_eq!(s.previous_index(), Some(3));
}

#[test]
fn fixed_event_ignores_draws() {
    let mut s = state(4, &[5]);
    let e = s.select_event(10, &vec![2; 10]);
    assert_eq!(e.description, "every 5 days");
    assert_eq!(s.previous_index(), None);
    let e = s.select_event(0, &vec![2; 10]);
    assert_eq!(e, event("situation 2"));
}

#[test]
fn parameters_pass_through() {
    let s = state(3, &[7]);
    let p = s.get_parameters();
    assert_eq!(p, parameters());
    assert_eq!(p.len(), 5);
    assert_eq!(p[3].value, -128);
    assert_eq!(p[4].id, "freeTime");
}

#[test]
fn parameter_reads_are_idempotent() {
    let mut s = state(3, &[7]);
    let a = s.get_parameters();
    let b = s.get_parameters();
    assert_eq!(a, b);
    s.get_event(7);
    s.get_event(3);
    assert_eq!(s.get_parameters(), a);
}

#[test]
fn copies_are_equal() {
    let e = event("x");
    assert_eq!(e.duplicate(), e);
    let f = fixed(4);
    let g = f.to_event();
    assert_eq!(g.description, f.description);
    assert_eq!(g.actions, f.actions);
    let p = parameter("students", 3);
    assert_eq!(p.duplicate(), p);
}

#[test]
fn equal_intervals_keep_their_order() {
    let mut a = fixed(6);
    a.description = "first six".to_string();
    let mut b = fixed(6);
    b.description = "second six".to_string();
    let s = AppState::new(situations(3), vec![fixed(2), a, fixed(12), b], parameters());
    let mut s = s.expect("valid content");
    let names: Vec<String> = s.fixed_events().iter().map(|f| f.description.clone()).collect();
    assert_eq!(names, vec!["every 12 days", "first six", "second six", "every 2 days"]);
    assert_eq!(s.get_event(18).description, "first six");
    assert_eq!(s.get_event(24).description, "every 12 days");
    assert_eq!(s.get_event(4).description, "every 2 days");
}
