use auto_discover::config::ResourceConfig;
use auto_discover::cycle::{
    step, taken_names, Capture, CycleAction, CycleEvent, CycleState, HISTORY_LIMIT,
};
use auto_discover::model::{
    changes, AutoDiscoverConfig, Binding, CaptureBinding, DiscoveredResource,
};
use auto_discover::status::{
    AutoDiscoverStatus, ChangeReason, DiscoverOutcome, ErrorRecord, IncompatibleCollection,
    JobStatus,
};

fn strings(items: &[&str]) -> Vec<String> {
    items.iter().map(|s| s.to_string()).collect()
}

fn live(id: &str, target: &str) -> CaptureBinding {
    CaptureBinding {
        binding: Binding {
            resource_identity: strings(&[id]),
            resource_config: ResourceConfig::parse(&format!(r#"{{"id":"{}"}}"#, id)).unwrap(),
            target_collection: target.to_string(),
            disable: false,
            backfill: 0,
        },
        document_schema: r#"{"v":1}"#.to_string(),
        key: strings(&["/id"]),
    }
}

fn reported(id: &str, schema: &str, key: &[&str]) -> DiscoveredResource {
    DiscoveredResource {
        recommended_name: id.to_string(),
        resource_config: format!(r#"{{"id":"{}"}}"#, id),
        document_schema: schema.to_string(),
        key: strings(key),
        disable: false,
        resource_identity: Vec::new(),
    }
}

fn capture(add_new_bindings: bool, evolve: bool, bindings: Vec<CaptureBinding>) -> Capture {
    Capture {
        name: "t/capture".to_string(),
        tenant: "t".to_string(),
        config: Some(AutoDiscoverConfig {
            add_new_bindings,
            evolve_incompatible_collections: evolve,
            interval: Some(100),
        }),
        shards_disabled: false,
        identity_fields: strings(&["id"]),
        bindings,
        names_in_use: Vec::new(),
        status: None,
        history: Vec::new(),
    }
}

fn published(id: u64, result: JobStatus) -> CycleEvent {
    CycleEvent::Published { id, created: id, completed: id + 1, result, errors: Vec::new() }
}

fn incompatible(name: &str, reasons: Vec<ChangeReason>) -> JobStatus {
    JobStatus::BuildFailed {
        incompatible_collections: vec![IncompatibleCollection {
            collection: name.to_string(),
            requires_recreation: reasons,
        }],
    }
}

fn to_publishing(capture: &mut Capture, now: u64, resources: Vec<DiscoveredResource>) -> CycleState {
    let (state, action) = step(capture, CycleState::Idle, CycleEvent::Start { now });
    assert_eq!(action, CycleAction::Discover);
    let (state, action) = step(capture, state, CycleEvent::Discovered { resources, now });
    assert!(matches!(action, CycleAction::Publish { .. }), "{:?}", action);
    assert!(matches!(state, CycleState::Publishing { .. }));
    state
}

fn failures(capture: &Capture) -> u32 {
    capture.status.as_ref().unwrap().failure.as_ref().map_or(0, |f| f.count)
}

#[test]
fn a_capture_that_is_not_due_waits() {
    let mut c = capture(true, true, vec![live("a", "t/a")]);
    let (state, action) = step(&mut c, CycleState::Idle, CycleEvent::Start { now: 1_000 });
    assert_eq!(state, CycleState::Discovering);
    assert_eq!(action, CycleAction::Discover);
    let (state, action) = step(
        &mut c,
        state,
        CycleEvent::Discovered { resources: vec![reported("a", r#"{"v":1}"#, &["/id"])], now: 1_000 },
    );
    assert_eq!(state, CycleState::NoOpSuccess);
    assert_eq!(action, CycleAction::Finish { next_run: Some(1_100), recreated: Vec::new() });

    let before = c.clone();
    let (state, action) = step(&mut c, CycleState::Idle, CycleEvent::Start { now: 1_099 });
    assert_eq!(state, CycleState::Idle);
    assert_eq!(action, CycleAction::Wait { next_run: Some(1_100) });
    assert_eq!(c, before);
    let (state, action) = step(&mut c, CycleState::Idle, CycleEvent::Start { now: 1_100 });
    assert_eq!(state, CycleState::Discovering);
    assert_eq!(action, CycleAction::Discover);
    assert_eq!(c, before);
}

#[test]
fn a_start_clears_the_status_of_a_capture_that_is_switched_off() {
    let mut c = capture(true, true, Vec::new());
    c.status = Some(AutoDiscoverStatus::new());
    c.shards_disabled = true;
    let (state, action) = step(&mut c, CycleState::Idle, CycleEvent::Start { now: 5 });
    assert_eq!((state, action), (CycleState::Idle, CycleAction::Wait { next_run: None }));
    assert_eq!(c.status, None);

    let mut c = capture(true, true, Vec::new());
    c.status = Some(AutoDiscoverStatus::new());
    c.config = None;
    let (state, action) = step(&mut c, CycleState::Idle, CycleEvent::Start { now: 5 });
    assert_eq!((state, action), (CycleState::Idle, CycleAction::Wait { next_run: None }));
    assert_eq!(c.status, None);
}

#[test]
fn an_event_that_does_not_belong_is_ignored() {
    let mut c = capture(true, true, vec![live("a", "t/a")]);
    c.status = Some(AutoDiscoverStatus::new());
    let before = c.clone();
    let start = || CycleEvent::Start { now: 1 };
    let answer = || CycleEvent::Discovered { resources: Vec::new(), now: 1 };
    let error = || CycleEvent::DiscoverFailed {
        error: ErrorRecord { scope: String::new(), catalog_name: String::new(), detail: String::new() },
        now: 1,
    };
    let done = || published(1, JobStatus::Success);

    let publishing = to_publishing(&mut c.clone(), 1, vec![reported("a", r#"{"v":2}"#, &["/id"])]);
    let cases: Vec<(CycleState, Vec<CycleEvent>)> = vec![
        (CycleState::Idle, vec![answer(), error(), done()]),
        (CycleState::Discovering, vec![start(), done()]),
        (publishing, vec![start(), answer(), error()]),
        (CycleState::DiscoverFailed, vec![start(), answer(), error(), done()]),
        (CycleState::NoOpSuccess, vec![start(), answer(), error(), done()]),
        (CycleState::PublishSuccess, vec![start(), answer(), error(), done()]),
        (CycleState::ReportedFailure, vec![start(), answer(), error(), done()]),
        (CycleState::OtherFailure, vec![start(), answer(), error(), done()]),
    ];
    for (state, events) in cases {
        for event in events {
            let (after, action) = step(&mut c, state.clone(), event.clone());
            assert_eq!(action, CycleAction::Ignore, "{:?} on {:?}", state, event);
            assert_eq!(after, state);
            assert_eq!(c, before);
        }
    }
}

#[test]
fn without_configuration_or_status_answers_are_ignored() {
    let answer = CycleEvent::Discovered { resources: Vec::new(), now: 1 };
    let mut c = capture(true, true, vec![live("a", "t/a")]);
    let before = c.clone();
    let (state, action) = step(&mut c, CycleState::Discovering, answer.clone());
    assert_eq!((state, action), (CycleState::Discovering, CycleAction::Ignore));
    assert_eq!(c, before);

    c.status = Some(AutoDiscoverStatus::new());
    c.config = None;
    let before = c.clone();
    let (state, action) = step(&mut c, CycleState::Discovering, answer);
    assert_eq!((state, action), (CycleState::Discovering, CycleAction::Ignore));
    assert_eq!(c, before);
}

#[test]
fn an_answer_that_cannot_be_merged_is_a_failed_discover() {
    let cases = vec![
        (
            vec![reported("a", r#"{"v":1}"#, &["/id"]), reported("a", r#"{"v":1}"#, &["/id"])],
            "discovered resource 1: another resource has the same identity",
        ),
        (
            vec![reported("a", "no schema", &["/id"])],
            "discovered resource 0: the document schema is not JSON",
        ),
        (
            vec![reported("a", "{}", &["/id"]), {
                let mut r = reported("b", "{}", &["/id"]);
                r.resource_config = "[]".to_string();
                r
            }],
            "discovered resource 1: the resource configuration is not a JSON object",
        ),
        (
            vec![{
                let mut r = reported("b", "{}", &["/id"]);
                r.resource_config = r#"{"name": "b"}"#.to_string();
                r
            }],
            "discovered resource 0: no identity was given and none can be derived",
        ),
    ];
    for (resources, detail) in cases {
        let mut c = capture(true, true, vec![live("a", "t/a")]);
        let (state, _) = step(&mut c, CycleState::Idle, CycleEvent::Start { now: 7 });
        let (state, action) = step(&mut c, state, CycleEvent::Discovered { resources, now: 7 });
        assert_eq!(state, CycleState::DiscoverFailed);
        assert_eq!(action, CycleAction::Finish { next_run: Some(107), recreated: Vec::new() });
        let status = c.status.as_ref().unwrap();
        assert_eq!(status.last_success, None);
        let failure = status.failure.as_ref().unwrap();
        assert_eq!(failure.count, 1);
        assert_eq!(failure.first_ts, 7);
        assert_eq!(
            failure.last_outcome,
            DiscoverOutcome::of_error(
                7,
                ErrorRecord {
                    scope: "t/capture".to_string(),
                    catalog_name: "t/capture".to_string(),
                    detail: detail.to_string(),
                }
            )
        );
        assert_eq!(c.bindings, vec![live("a", "t/a")]);
        assert!(c.history.is_empty());
    }
}

#[test]
fn a_failed_publication_leaves_the_bindings_and_counts() {
    for result in [
        JobStatus::BuildFailed { incompatible_collections: Vec::new() },
        JobStatus::TestFailed,
        JobStatus::PublishFailed,
        JobStatus::EmptyDraft,
    ] {
        let mut c = capture(true, true, vec![live("a", "t/a")]);
        let state = to_publishing(&mut c, 50, vec![reported("a", r#"{"v":2}"#, &["/id"])]);
        let (state, action) = step(&mut c, state, published(3, result.clone()));
        assert_eq!(state, CycleState::OtherFailure);
        assert_eq!(action, CycleAction::Finish { next_run: Some(150), recreated: Vec::new() });
        assert_eq!(c.bindings, vec![live("a", "t/a")]);
        assert_eq!(failures(&c), 1);
        let failure = c.status.as_ref().unwrap().failure.as_ref().unwrap();
        assert_eq!(failure.last_outcome.ts, 50);
        assert_eq!(failure.last_outcome.modified, changes(&[(&["a"], "t/a", false)]));
        assert_eq!(failure.last_outcome.publish_result, Some(result.clone()));
        assert_eq!(c.history.len(), 1);
        assert_eq!(c.history[0].id, 3);
        assert_eq!(c.history[0].created, 3);
        assert_eq!(c.history[0].completed, 4);
        assert_eq!(c.history[0].result, result);
    }
}

#[test]
fn incompatible_collections_are_reported_where_nothing_is_recreated() {
    let key_change = || incompatible("t/a", vec![ChangeReason::KeyChange]);
    let cases = vec![
        // The capture does not allow it.
        (false, key_change()),
        // The collection need not be re-created.
        (true, incompatible("t/a", Vec::new())),
        // The collection is none of this capture.
        (true, incompatible("t/b", vec![ChangeReason::KeyChange])),
    ];
    for (evolve, result) in cases {
        let mut c = capture(true, evolve, vec![live("a", "t/a")]);
        let state = to_publishing(&mut c, 50, vec![reported("a", r#"{"v":1}"#, &["/id", "/n"])]);
        let (state, action) = step(&mut c, state, published(1, result.clone()));
        assert_eq!(state, CycleState::ReportedFailure);
        assert_eq!(action, CycleAction::Finish { next_run: Some(150), recreated: Vec::new() });
        assert_eq!(c.bindings, vec![live("a", "t/a")]);
        assert_eq!(failures(&c), 1);
        assert_eq!(c.history.len(), 1);
        assert_eq!(c.history[0].result, result);
    }
}

#[test]
fn an_evolved_draft_is_published_once() {
    for second in [incompatible("t/a_v2", vec![ChangeReason::KeyChange]), JobStatus::TestFailed] {
        let mut c = capture(true, true, vec![live("a", "t/a")]);
        let state = to_publishing(&mut c, 50, vec![reported("a", r#"{"v":1}"#, &["/id", "/n"])]);
        let (state, action) =
            step(&mut c, state, published(1, incompatible("t/a", vec![ChangeReason::KeyChange])));
        assert!(matches!(state, CycleState::EvolveAndRepublish { .. }));
        match &action {
            CycleAction::Publish { bindings, detail } => {
                assert_eq!(bindings.len(), 1);
                assert_eq!(bindings[0].binding.target_collection, "t/a_v2");
                assert_eq!(bindings[0].key, strings(&["/id", "/n"]));
                assert_eq!(
                    detail,
                    "auto-discover changes (0 added, 1 modified, 0 removed), and re-creating 1 collections"
                );
            }
            other => panic!("expected the evolved draft, got {:?}", other),
        }
        // So far only the history knows.
        assert_eq!(c.history.len(), 1);
        assert_eq!(c.status, Some(AutoDiscoverStatus::new()));
        assert_eq!(c.bindings, vec![live("a", "t/a")]);

        let (state, action) = step(&mut c, state, published(2, second.clone()));
        assert_eq!(state, CycleState::OtherFailure);
        assert_eq!(action, CycleAction::Finish { next_run: Some(150), recreated: Vec::new() });
        assert_eq!(c.bindings, vec![live("a", "t/a")]);
        assert_eq!(failures(&c), 1);
        let details: Vec<&str> = c.history.iter().map(|e| e.detail.as_str()).collect();
        assert_eq!(
            details,
            vec![
                "auto-discover changes (0 added, 1 modified, 0 removed), and re-creating 1 collections",
                "auto-discover changes (0 added, 1 modified, 0 removed)"
            ]
        );
        assert_eq!(c.history[0].result, second);
    }
}

#[test]
fn the_history_keeps_the_last_publications() {
    let mut c = capture(true, true, vec![live("a", "t/a")]);
    let mut now = 0;
    for round in 0..(HISTORY_LIMIT as u64 + 3) {
        now += 100;
        let schema = format!(r#"{{"v":{}}}"#, round + 2);
        let state = to_publishing(&mut c, now, vec![reported("a", &schema, &["/id"])]);
        let (state, _) = step(&mut c, state, published(round, JobStatus::Success));
        assert_eq!(state, CycleState::PublishSuccess);
        assert_eq!(c.bindings[0].document_schema, schema);
    }
    assert_eq!(HISTORY_LIMIT, 5);
    let ids: Vec<u64> = c.history.iter().map(|e| e.id).collect();
    assert_eq!(ids, vec![7, 6, 5, 4, 3]);
}

#[test]
fn the_names_that_are_taken_are_those_in_use_and_the_targets() {
    let bindings = vec![live("a", "t/a"), live("b", "t/b")];
    assert_eq!(taken_names(&strings(&["x", "t/a"]), &bindings), strings(&["x", "t/a", "t/a", "t/b"]));
    assert_eq!(taken_names(&Vec::new(), &Vec::new()), Vec::<String>::new());
}

#[test]
fn names_in_use_elsewhere_are_not_given() {
    let mut c = capture(true, true, vec![live("a", "t/a")]);
    c.names_in_use = strings(&["t/b", "t/a_v2"]);
    let state = to_publishing(
        &mut c,
        10,
        vec![reported("a", r#"{"v":1}"#, &["/k"]), reported("b", r#"{"v":1}"#, &["/id"])],
    );
    let (state, action) =
        step(&mut c, state, published(1, incompatible("t/a", vec![ChangeReason::KeyChange])));
    match action {
        CycleAction::Publish { bindings, detail } => {
            let targets: Vec<&str> =
                bindings.iter().map(|b| b.binding.target_collection.as_str()).collect();
            assert_eq!(targets, vec!["t/a_v3", "t/b_2"]);
            assert_eq!(
                detail,
                "auto-discover changes (1 added, 1 modified, 0 removed), and re-creating 1 collections"
            );
        }
        other => panic!("expected the evolved draft, got {:?}", other),
    }
    let (state, _) = step(&mut c, state, published(2, JobStatus::Success));
    assert_eq!(state, CycleState::PublishSuccess);
    let status = c.status.as_ref().unwrap();
    let success = status.last_success.as_ref().unwrap();
    assert_eq!(success.added, changes(&[(&["b"], "t/b_2", false)]));
    assert_eq!(success.modified, changes(&[(&["a"], "t/a", false)]));
    assert_eq!(success.publish_result, Some(JobStatus::Success));
}

#[test]
fn a_step_needs_room_in_the_failure_count() {
    let mut c = capture(true, true, Vec::new());
    assert!(c.check_step());
    let mut status = AutoDiscoverStatus::new();
    assert!({
        c.status = Some(status.clone());
        c.check_step()
    });
    status.record_failure(DiscoverOutcome::of_error(
        1,
        ErrorRecord { scope: String::new(), catalog_name: String::new(), detail: String::new() },
    ));
    status.failure.as_mut().unwrap().count = u32::MAX;
    c.status = Some(status);
    assert!(!c.check_step());
}

#[test]
fn copies_of_states_events_and_actions_are_equal() {
    let mut c = capture(true, true, vec![live("a", "t/a")]);
    c.names_in_use = strings(&["t/z"]);
    let publishing = to_publishing(
        &mut c,
        10,
        vec![reported("a", r#"{"v":1}"#, &["/k"]), reported("b", r#"{"v":1}"#, &["/id"])],
    );
    assert_eq!(publishing.clone(), publishing);
    let event = published(1, incompatible("t/a", vec![ChangeReason::KeyChange]));
    assert_eq!(event.clone(), event);
    let (evolving, action) = step(&mut c, publishing, event);
    assert_eq!(evolving.clone(), evolving);
    assert_eq!(action.clone(), action);
    assert_eq!(c.clone(), c);
    let (_, finish) = step(&mut c, evolving, published(2, JobStatus::Success));
    assert_eq!(finish.clone(), finish);
    assert_eq!(c.clone(), c);
    assert_eq!(c.status.clone(), c.status);
    assert_eq!(c.history[0].clone(), c.history[0]);

    for state in [
        CycleState::Idle,
        CycleState::Discovering,
        CycleState::DiscoverFailed,
        CycleState::NoOpSuccess,
        CycleState::PublishSuccess,
        CycleState::ReportedFailure,
        CycleState::OtherFailure,
    ] {
        assert_eq!(state.clone(), state);
    }
    let error = ErrorRecord {
        scope: "s".to_string(),
        catalog_name: "c".to_string(),
        detail: "d".to_string(),
    };
    for event in [
        CycleEvent::Start { now: 3 },
        CycleEvent::Discovered { resources: vec![reported("a", "{}", &["/id"])], now: 4 },
        CycleEvent::DiscoverFailed { error: error.clone(), now: 5 },
        CycleEvent::Published {
            id: 1,
            created: 2,
            completed: 3,
            result: JobStatus::TestFailed,
            errors: vec![error],
        },
    ] {
        assert_eq!(event.clone(), event);
    }
    for action in
        [CycleAction::Wait { next_run: Some(1) }, CycleAction::Discover, CycleAction::Ignore]
    {
        assert_eq!(action.clone(), action);
    }
}
