use auto_discover::model::{changes, Changes, DiscoverChange};
use auto_discover::publication::{classify, publication_detail, Verdict};
use auto_discover::status::{
    push_history, AutoDiscoverStatus, ChangeReason, DiscoverOutcome, ErrorRecord,
    IncompatibleCollection, JobStatus, PublicationHistoryEntry,
};

fn some_changes(added: usize, modified: usize, removed: usize) -> Changes {
    let make = |n: usize| -> Vec<DiscoverChange> {
        (0..n).flat_map(|_| changes(&[(&["r"], "t/r", false)])).collect()
    };
    Changes { added: make(added), modified: make(modified), removed: make(removed) }
}

fn outcome(ts: u64) -> DiscoverOutcome {
    DiscoverOutcome::of(ts, &some_changes(0, 1, 0), None)
}

fn entry(id: u64) -> PublicationHistoryEntry {
    PublicationHistoryEntry {
        id,
        created: id * 10,
        completed: id * 10 + 1,
        detail: format!("publication {}", id),
        result: JobStatus::Success,
        errors: Vec::new(),
    }
}

fn incompatible(name: &str, reasons: Vec<ChangeReason>) -> IncompatibleCollection {
    IncompatibleCollection { collection: name.to_string(), requires_recreation: reasons }
}

#[test]
fn a_new_status_is_empty() {
    let status = AutoDiscoverStatus::new();
    assert_eq!(status.interval, None);
    assert_eq!(status.last_success, None);
    assert_eq!(status.failure, None);
    assert_eq!(status.last_attempt(), None);
    assert!(status.can_fail());
}

#[test]
fn failures_are_counted_and_a_success_forgets_them() {
    let mut status = AutoDiscoverStatus::new();
    status.interval = Some(15);
    status.record_success(outcome(10));
    for (n, ts) in [(1, 20), (2, 30), (3, 40)] {
        status.record_failure(outcome(ts));
        let failure = status.failure.as_ref().unwrap();
        assert_eq!(failure.count, n);
        assert_eq!(failure.first_ts, 20);
        assert_eq!(failure.last_outcome, outcome(ts));
        assert_eq!(status.last_success, Some(outcome(10)));
        assert_eq!(status.last_attempt(), Some(ts));
    }
    status.record_success(outcome(50));
    assert_eq!(status.failure, None);
    assert_eq!(status.last_success, Some(outcome(50)));
    assert_eq!(status.interval, Some(15));
    // A new streak starts anew.
    status.record_failure(outcome(60));
    let failure = status.failure.as_ref().unwrap();
    assert_eq!(failure.count, 1);
    assert_eq!(failure.first_ts, 60);
}

#[test]
fn the_last_attempt_is_the_later_of_success_and_failure() {
    let mut status = AutoDiscoverStatus::new();
    status.record_failure(outcome(7));
    assert_eq!(status.last_attempt(), Some(7));
    status.last_success = Some(outcome(9));
    assert_eq!(status.last_attempt(), Some(9));
    status.last_success = Some(outcome(3));
    assert_eq!(status.last_attempt(), Some(7));
    status.last_success = Some(outcome(7));
    assert_eq!(status.last_attempt(), Some(7));
}

#[test]
fn the_failure_count_has_a_limit() {
    let mut status = AutoDiscoverStatus::new();
    status.record_failure(outcome(1));
    status.failure.as_mut().unwrap().count = u32::MAX - 1;
    assert!(status.can_fail());
    status.record_failure(outcome(2));
    assert_eq!(status.failure.as_ref().unwrap().count, u32::MAX);
    assert!(!status.can_fail());
}

#[test]
fn outcomes_are_made_of_changes_or_of_an_error() {
    let made = DiscoverOutcome::of(5, &some_changes(2, 0, 1), Some(JobStatus::TestFailed));
    assert_eq!(made.ts, 5);
    assert_eq!(made.added.len(), 2);
    assert!(made.modified.is_empty());
    assert_eq!(made.removed, changes(&[(&["r"], "t/r", false)]));
    assert!(made.errors.is_empty());
    assert_eq!(made.publish_result, Some(JobStatus::TestFailed));

    let error = ErrorRecord {
        scope: "s".to_string(),
        catalog_name: "c".to_string(),
        detail: "d".to_string(),
    };
    let failed = DiscoverOutcome::of_error(6, error.clone());
    assert_eq!(failed.ts, 6);
    assert!(failed.added.is_empty() && failed.modified.is_empty() && failed.removed.is_empty());
    assert_eq!(failed.errors, vec![error]);
    assert_eq!(failed.publish_result, None);
}

#[test]
fn the_history_has_the_newest_first_and_is_bounded() {
    let mut history: Vec<PublicationHistoryEntry> = Vec::new();
    for id in 1..=4 {
        push_history(&mut history, entry(id), 3);
    }
    let ids: Vec<u64> = history.iter().map(|e| e.id).collect();
    assert_eq!(ids, vec![4, 3, 2]);
    assert_eq!(history[0], entry(4));

    push_history(&mut history, entry(5), 10);
    let ids: Vec<u64> = history.iter().map(|e| e.id).collect();
    assert_eq!(ids, vec![5, 4, 3, 2]);

    push_history(&mut history, entry(6), 1);
    let ids: Vec<u64> = history.iter().map(|e| e.id).collect();
    assert_eq!(ids, vec![6]);

    push_history(&mut history, entry(7), 0);
    assert!(history.is_empty());
}

#[test]
fn the_detail_counts_the_changes() {
    assert_eq!(
        publication_detail(&some_changes(0, 0, 0), 0),
        "auto-discover changes (0 added, 0 modified, 0 removed)"
    );
    assert_eq!(
        publication_detail(&some_changes(2, 0, 0), 0),
        "auto-discover changes (2 added, 0 modified, 0 removed)"
    );
    assert_eq!(
        publication_detail(&some_changes(1, 12, 3), 0),
        "auto-discover changes (1 added, 12 modified, 3 removed)"
    );
    assert_eq!(
        publication_detail(&some_changes(0, 2, 1), 1),
        "auto-discover changes (0 added, 2 modified, 1 removed), and re-creating 1 collections"
    );
    assert_eq!(
        publication_detail(&some_changes(0, 1, 0), 10),
        "auto-discover changes (0 added, 1 modified, 0 removed), and re-creating 10 collections"
    );
}

#[test]
fn results_are_classified() {
    assert_eq!(classify(&JobStatus::Success), Verdict::Success);
    assert_eq!(
        classify(&JobStatus::BuildFailed {
            incompatible_collections: vec![incompatible("a", vec![ChangeReason::KeyChange])]
        }),
        Verdict::Incompatible
    );
    assert_eq!(
        classify(&JobStatus::BuildFailed {
            incompatible_collections: vec![incompatible("a", Vec::new())]
        }),
        Verdict::Incompatible
    );
    assert_eq!(
        classify(&JobStatus::BuildFailed { incompatible_collections: Vec::new() }),
        Verdict::Failure
    );
    assert_eq!(classify(&JobStatus::TestFailed), Verdict::Failure);
    assert_eq!(classify(&JobStatus::PublishFailed), Verdict::Failure);
    assert_eq!(classify(&JobStatus::EmptyDraft), Verdict::Failure);
}

#[test]
fn only_success_is_a_success() {
    assert!(JobStatus::Success.is_success());
    assert!(!JobStatus::TestFailed.is_success());
    assert!(!JobStatus::PublishFailed.is_success());
    assert!(!JobStatus::EmptyDraft.is_success());
    assert!(!JobStatus::BuildFailed { incompatible_collections: Vec::new() }.is_success());
}

#[test]
fn a_copy_of_a_status_is_equal() {
    let all = [
        JobStatus::Success,
        JobStatus::TestFailed,
        JobStatus::PublishFailed,
        JobStatus::EmptyDraft,
        JobStatus::BuildFailed { incompatible_collections: Vec::new() },
        JobStatus::BuildFailed {
            incompatible_collections: vec![
                incompatible("a", vec![ChangeReason::KeyChange, ChangeReason::PartitionChange]),
                incompatible("b", Vec::new()),
            ],
        },
    ];
    for status in all {
        assert_eq!(status.clone(), status);
    }
    let one = incompatible("a", vec![ChangeReason::PartitionChange]);
    assert_eq!(one.clone(), one);
}
