use auto_discover::model::{changes, AutoDiscoverConfig, Changes};
use auto_discover::schedule::{add_interval, interval_of, schedule, Schedule, DEFAULT_INTERVAL};
use auto_discover::status::{AutoDiscoverStatus, DiscoverOutcome};

fn config(interval: Option<u64>) -> AutoDiscoverConfig {
    AutoDiscoverConfig { add_new_bindings: true, evolve_incompatible_collections: false, interval }
}

fn outcome(ts: u64) -> DiscoverOutcome {
    let none = Changes { added: Vec::new(), modified: changes(&[]), removed: Vec::new() };
    DiscoverOutcome::of(ts, &none, None)
}

fn discovered_at(ts: u64, interval: Option<u64>) -> Option<AutoDiscoverStatus> {
    let mut status = AutoDiscoverStatus::new();
    status.interval = interval;
    status.record_success(outcome(ts));
    Some(status)
}

#[test]
fn the_default_interval_is_two_hours() {
    assert_eq!(DEFAULT_INTERVAL, 2 * 60 * 60 * 1000);
}

#[test]
fn without_configuration_a_capture_is_never_due() {
    let mut status = discovered_at(0, None);
    let decision = schedule(&None, false, &mut status, u64::MAX);
    assert_eq!(decision, Schedule { due: false, next_run: None });
    assert_eq!(status, None);
    let mut status = None;
    assert_eq!(schedule(&None, true, &mut status, 5), Schedule { due: false, next_run: None });
    assert_eq!(status, None);
}

#[test]
fn with_disabled_shards_a_capture_is_never_due_and_loses_its_status() {
    let mut status = discovered_at(0, None);
    let decision = schedule(&Some(config(Some(1))), true, &mut status, u64::MAX);
    assert_eq!(decision, Schedule { due: false, next_run: None });
    assert_eq!(status, None);
}

#[test]
fn the_first_discover_is_due_at_once() {
    let mut status = None;
    let decision = schedule(&Some(config(None)), false, &mut status, 1_000);
    assert_eq!(decision, Schedule { due: true, next_run: Some(1_000) });
    assert_eq!(status, Some(AutoDiscoverStatus::new()));
    // A status without any discover yet is as good as none.
    let decision = schedule(&Some(config(None)), false, &mut status, 1_001);
    assert_eq!(decision, Schedule { due: true, next_run: Some(1_001) });
    assert_eq!(status, Some(AutoDiscoverStatus::new()));
}

#[test]
fn a_capture_is_due_when_the_interval_has_passed() {
    let c = Some(config(Some(100)));
    let before = discovered_at(1_000, None);
    for (now, due, next) in [
        (1_000, false, 1_100),
        (1_099, false, 1_100),
        (1_100, true, 1_100),
        (1_101, true, 1_101),
        (5_000, true, 5_000),
        (0, false, 1_100),
    ] {
        let mut status = before.clone();
        let decision = schedule(&c, false, &mut status, now);
        assert_eq!(decision, Schedule { due, next_run: Some(next) }, "at {}", now);
        assert_eq!(status, before);
    }
}

#[test]
fn a_failure_counts_as_an_attempt() {
    let mut status = discovered_at(1_000, None);
    status.as_mut().unwrap().record_failure(outcome(1_050));
    let decision = schedule(&Some(config(Some(100))), false, &mut status, 1_120);
    assert_eq!(decision, Schedule { due: false, next_run: Some(1_150) });
    let decision = schedule(&Some(config(Some(100))), false, &mut status, 1_150);
    assert_eq!(decision, Schedule { due: true, next_run: Some(1_150) });
}

#[test]
fn the_interval_of_the_status_comes_first() {
    let status = AutoDiscoverStatus::new();
    assert_eq!(interval_of(&config(None), &status), DEFAULT_INTERVAL);
    assert_eq!(interval_of(&config(Some(42_000)), &status), 42_000);
    let mut tuned = AutoDiscoverStatus::new();
    tuned.interval = Some(15);
    assert_eq!(interval_of(&config(Some(42_000)), &tuned), 15);
    assert_eq!(interval_of(&config(None), &tuned), 15);

    let mut status = discovered_at(1_000, Some(15));
    let decision = schedule(&Some(config(Some(42_000))), false, &mut status, 1_015);
    assert_eq!(decision, Schedule { due: true, next_run: Some(1_015) });
    let mut status = discovered_at(1_000, None);
    let decision = schedule(&Some(config(None)), false, &mut status, 1_015);
    assert_eq!(decision, Schedule { due: false, next_run: Some(1_000 + DEFAULT_INTERVAL) });
}

#[test]
fn an_interval_of_nothing_is_always_due() {
    let mut status = discovered_at(1_000, Some(0));
    let decision = schedule(&Some(config(None)), false, &mut status, 1_000);
    assert_eq!(decision, Schedule { due: true, next_run: Some(1_000) });
}

#[test]
fn time_ends_at_the_largest_number() {
    assert_eq!(add_interval(0, 0), 0);
    assert_eq!(add_interval(40, 2), 42);
    assert_eq!(add_interval(u64::MAX - 1, 1), u64::MAX);
    assert_eq!(add_interval(u64::MAX - 1, 2), u64::MAX);
    assert_eq!(add_interval(u64::MAX, u64::MAX), u64::MAX);
    // An interval that never passes: the capture is never due again.
    let mut status = discovered_at(10, Some(u64::MAX));
    let decision = schedule(&Some(config(None)), false, &mut status, u64::MAX);
    assert_eq!(decision, Schedule { due: false, next_run: Some(u64::MAX) });
}
