//! One cycle of a capture's controller, as a state machine.
//!
//! The cycle waits twice for the world outside: for the connector's answer
//! to a discover, and for the result of a publication. The caller does the
//! waiting. It hands each answer in as an event, and [`step`] says what
//! the state is then and what the caller is to do next.
//!
//! ```text
//! Idle -> Discovering -> DiscoverFailed
//!                     -> NoOpSuccess
//!                     -> Publishing -> PublishSuccess
//!                                   -> OtherFailure
//!                                   -> ReportedFailure
//!                                   -> EvolveAndRepublish -> PublishSuccess
//!                                                         -> OtherFailure
//! ```
//!
//! Only the steps that end a cycle change the status of the capture and
//! its live bindings.

use vstd::prelude::*;
use crate::evolution::{
    clone_recreations, evolve, evolve_spec, recreations_view, Evolved, EvolvedView, Recreation,
    RecreationView,
};
use crate::identity::{resolve_resources, resolved_all};
use crate::merge::{merge_bindings, merge_outcome, targets, Merged, MergedView};
use crate::model::{
    capture_view, clone_bindings, clone_discovered, discovered_view, AutoDiscoverConfig,
    CaptureBinding, CaptureBindingView, Changes, ChangesView, DiscoverError, DiscoveredResource,
    DiscoveredView,
};
use crate::publication::{
    classify, detail_of, publication_detail, publication_needed, verdict_of, Verdict,
};
use crate::schedule::{
    add_interval, effective_interval, interval_of, schedule, schedule_of, scheduled_status,
    status_view, time_after,
};
use crate::status::{
    clone_errors, clone_history, error_outcome, errors_view, history_view, history_with, outcome_of,
    push_history, AutoDiscoverStatus, DiscoverOutcome, EntryView, ErrorRecord, ErrorView,
    IncompatibleView, JobStatus, JobStatusView, PublicationHistoryEntry, StatusView,
};
use crate::text::{clone_strings, strings_view};

verus! {

/// How many publications the history keeps.
pub const HISTORY_LIMIT: usize = 5;

/// What the controller knows of its capture.
#[derive(Debug, PartialEq, Eq)]
pub struct Capture {
    /// The name of the capture in the catalog.
    pub name: String,
    /// The tenant that owns the capture; new collections are named under it.
    pub tenant: String,
    /// How auto-discover is configured; `None` where it is switched off.
    pub config: Option<AutoDiscoverConfig>,
    /// Whether the shards of the capture are disabled.
    pub shards_disabled: bool,
    /// The members of a resource configuration that identify the resource.
    pub identity_fields: Vec<String>,
    /// The live bindings.
    pub bindings: Vec<CaptureBinding>,
    /// The collection names that are taken in the catalog.
    pub names_in_use: Vec<String>,
    /// What is kept of earlier discovers; `None` while the capture is not
    /// discovered automatically.
    pub status: Option<AutoDiscoverStatus>,
    /// The publications made for this capture, the newest first.
    pub history: Vec<PublicationHistoryEntry>,
}

/// The mathematical value of a [`Capture`].
pub struct CaptureView {
    pub name: Seq<char>,
    pub tenant: Seq<char>,
    pub config: Option<AutoDiscoverConfig>,
    pub shards_disabled: bool,
    pub identity_fields: Seq<Seq<char>>,
    pub bindings: Seq<CaptureBindingView>,
    pub names_in_use: Seq<Seq<char>>,
    pub status: Option<StatusView>,
    pub history: Seq<EntryView>,
}

impl View for Capture {
    type V = CaptureView;

    open spec fn view(&self) -> CaptureView {
        CaptureView {
            name: self.name@,
            tenant: self.tenant@,
            config: self.config,
            shards_disabled: self.shards_disabled,
            identity_fields: strings_view(self.identity_fields@),
            bindings: capture_view(self.bindings@),
            names_in_use: strings_view(self.names_in_use@),
            status: status_view(self.status),
            history: history_view(self.history@),
        }
    }
}

/// Where a cycle stands.
#[derive(Debug, PartialEq, Eq)]
pub enum CycleState {
    /// No cycle is under way.
    Idle,
    /// The connector has been asked and has not answered yet.
    Discovering,
    /// The cycle ended: the discover failed.
    DiscoverFailed,
    /// The cycle ended: the discover found nothing to publish.
    NoOpSuccess,
    /// The changes have been submitted and the result is not in yet.
    Publishing { merged: Merged, discovered_at: u64 },
    /// The cycle ended: the changes are live.
    PublishSuccess,
    /// The changes were found incompatible, collections are re-created,
    /// and the evolved draft has been submitted.
    EvolveAndRepublish { changes: Changes, evolved: Evolved, discovered_at: u64 },
    /// The cycle ended: the changes are incompatible, and nothing was done
    /// about it.
    ReportedFailure,
    /// The cycle ended: the publication failed.
    OtherFailure,
}

/// The mathematical value of a [`CycleState`].
pub enum CycleStateView {
    Idle,
    Discovering,
    DiscoverFailed,
    NoOpSuccess,
    Publishing { merged: MergedView, discovered_at: u64 },
    PublishSuccess,
    EvolveAndRepublish { changes: ChangesView, evolved: EvolvedView, discovered_at: u64 },
    ReportedFailure,
    OtherFailure,
}

impl View for CycleState {
    type V = CycleStateView;

    open spec fn view(&self) -> CycleStateView {
        match self {
            CycleState::Idle => CycleStateView::Idle,
            CycleState::Discovering => CycleStateView::Discovering,
            CycleState::DiscoverFailed => CycleStateView::DiscoverFailed,
            CycleState::NoOpSuccess => CycleStateView::NoOpSuccess,
            CycleState::Publishing { merged, discovered_at } => CycleStateView::Publishing {
                merged: merged@,
                discovered_at: *discovered_at,
            },
            CycleState::PublishSuccess => CycleStateView::PublishSuccess,
            CycleState::EvolveAndRepublish {
                changes,
                evolved,
                discovered_at,
            } => CycleStateView::EvolveAndRepublish {
                changes: changes@,
                evolved: evolved@,
                discovered_at: *discovered_at,
            },
            CycleState::ReportedFailure => CycleStateView::ReportedFailure,
            CycleState::OtherFailure => CycleStateView::OtherFailure,
        }
    }
}

impl CycleStateView {
    /// Whether the cycle has ended.
    pub open spec fn is_end(self) -> bool {
        self is DiscoverFailed || self is NoOpSuccess || self is PublishSuccess
            || self is ReportedFailure || self is OtherFailure
    }
}

/// What happened outside.
#[derive(Debug, PartialEq, Eq)]
pub enum CycleEvent {
    /// The controller was woken up at the time `now`.
    Start { now: u64 },
    /// The connector answered at the time `now` with these resources.
    Discovered { resources: Vec<DiscoveredResource>, now: u64 },
    /// The connector answered at the time `now` with an error.
    DiscoverFailed { error: ErrorRecord, now: u64 },
    /// The publication `id`, made at `created`, ended at `completed`.
    Published {
        id: u64,
        created: u64,
        completed: u64,
        result: JobStatus,
        errors: Vec<ErrorRecord>,
    },
}

/// The mathematical value of a [`CycleEvent`].
pub enum EventView {
    Start { now: u64 },
    Discovered { resources: Seq<DiscoveredView>, now: u64 },
    DiscoverFailed { error: ErrorView, now: u64 },
    Published {
        id: u64,
        created: u64,
        completed: u64,
        result: JobStatusView,
        errors: Seq<ErrorView>,
    },
}

impl View for CycleEvent {
    type V = EventView;

    open spec fn view(&self) -> EventView {
        match self {
            CycleEvent::Start { now } => EventView::Start { now: *now },
            CycleEvent::Discovered { resources, now } => EventView::Discovered {
                resources: discovered_view(resources@),
                now: *now,
            },
            CycleEvent::DiscoverFailed { error, now } => EventView::DiscoverFailed {
                error: error@,
                now: *now,
            },
            CycleEvent::Published { id, created, completed, result, errors } => EventView::Published {
                id: *id,
                created: *created,
                completed: *completed,
                result: result@,
                errors: errors_view(errors@),
            },
        }
    }
}

/// What the caller is to do next.
#[derive(Debug, PartialEq, Eq)]
pub enum CycleAction {
    /// Nothing now. Wake the controller at `next_run`, if there is one.
    Wait { next_run: Option<u64> },
    /// Ask the connector which resources there are.
    Discover,
    /// Submit a draft with these bindings of the capture.
    Publish { bindings: Vec<CaptureBinding>, detail: String },
    /// The cycle is over. Keep the capture as it is now, tell the
    /// materializations that read a re-created collection, and wake the
    /// controller at `next_run`.
    Finish { next_run: Option<u64>, recreated: Vec<Recreation> },
    /// The event does not belong to the state; nothing has changed.
    Ignore,
}

/// The mathematical value of a [`CycleAction`].
pub enum ActionView {
    Wait { next_run: Option<u64> },
    Discover,
    Publish { bindings: Seq<CaptureBindingView>, detail: Seq<char> },
    Finish { next_run: Option<u64>, recreated: Seq<RecreationView> },
    Ignore,
}

impl View for CycleAction {
    type V = ActionView;

    open spec fn view(&self) -> ActionView {
        match self {
            CycleAction::Wait { next_run } => ActionView::Wait { next_run: *next_run },
            CycleAction::Discover => ActionView::Discover,
            CycleAction::Publish { bindings, detail } => ActionView::Publish {
                bindings: capture_view(bindings@),
                detail: detail@,
            },
            CycleAction::Finish { next_run, recreated } => ActionView::Finish {
                next_run: *next_run,
                recreated: recreations_view(recreated@),
            },
            CycleAction::Ignore => ActionView::Ignore,
        }
    }
}

/// A step: the capture, the state and the action that it leads to.
pub struct StepView {
    pub capture: CaptureView,
    pub state: CycleStateView,
    pub action: ActionView,
}

/// The error record for a discover that could not be merged.
pub open spec fn merge_error(capture: CaptureView, e: DiscoverError) -> ErrorView {
    ErrorView { scope: capture.name, catalog_name: capture.name, detail: e.text() }
}

/// The end of a cycle that was discovered at `ts`: the capture with its
/// new status, and the next run one interval after `ts`.
pub open spec fn finished(
    capture: CaptureView,
    config: AutoDiscoverConfig,
    status: StatusView,
    state: CycleStateView,
    ts: u64,
    recreated: Seq<RecreationView>,
) -> StepView {
    StepView {
        capture: CaptureView { status: Some(status), ..capture },
        state,
        action: ActionView::Finish {
            next_run: Some(time_after(ts, effective_interval(config, status))),
            recreated,
        },
    }
}

/// The step from `Idle`: the scheduler decides. A capture that is due is
/// discovered; any other waits.
pub open spec fn start_step(capture: CaptureView, now: u64) -> StepView {
    let decision = schedule_of(capture.config, capture.shards_disabled, capture.status, now);
    let next = CaptureView {
        status: scheduled_status(capture.config, capture.shards_disabled, capture.status),
        ..capture
    };
    if decision.due {
        StepView { capture: next, state: CycleStateView::Discovering, action: ActionView::Discover }
    } else {
        StepView {
            capture: next,
            state: CycleStateView::Idle,
            action: ActionView::Wait { next_run: decision.next_run },
        }
    }
}

/// The step on an answer of the connector that cannot be used, or on its
/// error: the failure is recorded and the cycle ends.
pub open spec fn discover_failed_step(
    capture: CaptureView,
    config: AutoDiscoverConfig,
    status: StatusView,
    error: ErrorView,
    now: u64,
) -> StepView {
    finished(
        capture,
        config,
        status.failed(error_outcome(now, error)),
        CycleStateView::DiscoverFailed,
        now,
        Seq::empty(),
    )
}

/// The step on the connector's answer. The resources are resolved and
/// merged into the live bindings. Without changes the cycle ends with a
/// success that publishes nothing; with changes they are submitted.
pub open spec fn discovered_step(
    capture: CaptureView,
    config: AutoDiscoverConfig,
    status: StatusView,
    resources: Seq<DiscoveredView>,
    now: u64,
) -> StepView {
    match resolved_all(resources, capture.identity_fields) {
        Err(e) => discover_failed_step(capture, config, status, merge_error(capture, e), now),
        Ok(found) => match merge_outcome(
            capture.bindings,
            found,
            config.add_new_bindings,
            capture.tenant,
            capture.names_in_use,
        ) {
            Err(e) => discover_failed_step(capture, config, status, merge_error(capture, e), now),
            Ok(merged) => if merged.changes.is_empty() {
                finished(
                    capture,
                    config,
                    status.succeeded(outcome_of(now, merged.changes, None)),
                    CycleStateView::NoOpSuccess,
                    now,
                    Seq::empty(),
                )
            } else {
                StepView {
                    capture: CaptureView { status: Some(status), ..capture },
                    state: CycleStateView::Publishing { merged, discovered_at: now },
                    action: ActionView::Publish {
                        bindings: merged.bindings,
                        detail: detail_of(merged.changes, 0),
                    },
                }
            },
        },
    }
}

/// The collections that a result lists as incompatible.
pub open spec fn incompatible_of(result: JobStatusView) -> Seq<IncompatibleView> {
    match result {
        JobStatusView::BuildFailed { incompatible_collections } => incompatible_collections,
        _ => Seq::empty(),
    }
}

/// The step on the result of the first publication.
///
/// The publication enters the history. On success the merged bindings
/// are live and the cycle ends. Where the changes are incompatible and the
/// capture allows it, collections are re-created and the evolved draft is
/// submitted; where it does not allow it, or nothing can be re-created,
/// the failure is recorded and the cycle ends, as it does on any other
/// failure.
pub open spec fn published_step(
    capture: CaptureView,
    config: AutoDiscoverConfig,
    status: StatusView,
    merged: MergedView,
    discovered_at: u64,
    entry: EntryView,
) -> StepView {
    let recorded = CaptureView {
        history: history_with(capture.history, entry, HISTORY_LIMIT as nat),
        ..capture
    };
    let outcome = outcome_of(discovered_at, merged.changes, Some(entry.result));
    match verdict_of(entry.result) {
        Verdict::Success => finished(
            CaptureView { bindings: merged.bindings, ..recorded },
            config,
            status.succeeded(outcome),
            CycleStateView::PublishSuccess,
            discovered_at,
            Seq::empty(),
        ),
        Verdict::Incompatible => {
            let evolved = evolve_spec(
                merged.bindings,
                incompatible_of(entry.result),
                capture.names_in_use + targets(capture.bindings),
            );
            if config.evolve_incompatible_collections && evolved.recreated.len() > 0 {
                StepView {
                    capture: CaptureView { status: Some(status), ..recorded },
                    state: CycleStateView::EvolveAndRepublish {
                        changes: merged.changes,
                        evolved,
                        discovered_at,
                    },
                    action: ActionView::Publish {
                        bindings: evolved.bindings,
                        detail: detail_of(merged.changes, evolved.recreated.len()),
                    },
                }
            } else {
                finished(
                    recorded,
                    config,
                    status.failed(outcome),
                    CycleStateView::ReportedFailure,
                    discovered_at,
                    Seq::empty(),
                )
            }
        },
        Verdict::Failure => finished(
            recorded,
            config,
            status.failed(outcome),
            CycleStateView::OtherFailure,
            discovered_at,
            Seq::empty(),
        ),
    }
}

/// The step on the result of the publication of an evolved draft. The
/// publication enters the history and the cycle ends: on success with the
/// evolved bindings live, else with the failure recorded. Nothing is
/// evolved a second time.
pub open spec fn republished_step(
    capture: CaptureView,
    config: AutoDiscoverConfig,
    status: StatusView,
    changes: ChangesView,
    evolved: EvolvedView,
    discovered_at: u64,
    entry: EntryView,
) -> StepView {
    let recorded = CaptureView {
        history: history_with(capture.history, entry, HISTORY_LIMIT as nat),
        ..capture
    };
    let outcome = outcome_of(discovered_at, changes, Some(entry.result));
    if verdict_of(entry.result) == Verdict::Success {
        finished(
            CaptureView { bindings: evolved.bindings, ..recorded },
            config,
            status.succeeded(outcome),
            CycleStateView::PublishSuccess,
            discovered_at,
            evolved.recreated,
        )
    } else {
        finished(
            recorded,
            config,
            status.failed(outcome),
            CycleStateView::OtherFailure,
            discovered_at,
            Seq::empty(),
        )
    }
}

/// The state machine of a cycle: what an event leads to in a state.
///
/// A cycle begins in `Idle` with `Start`. An event that does not belong to
/// the state is ignored, and so is every event but `Start` while the
/// capture has no configuration or no status.
pub open spec fn step_spec(
    capture: CaptureView,
    state: CycleStateView,
    event: EventView,
) -> StepView {
    let ignored = StepView { capture, state, action: ActionView::Ignore };
    match (state, event) {
        (CycleStateView::Idle, EventView::Start { now }) => start_step(capture, now),
        (CycleStateView::Discovering, EventView::DiscoverFailed { error, now }) => match (
            capture.config,
            capture.status,
        ) {
            (Some(config), Some(status)) => discover_failed_step(
                capture,
                config,
                status,
                error,
                now,
            ),
            _ => ignored,
        },
        (CycleStateView::Discovering, EventView::Discovered { resources, now }) => match (
            capture.config,
            capture.status,
        ) {
            (Some(config), Some(status)) => discovered_step(
                capture,
                config,
                status,
                resources,
                now,
            ),
            _ => ignored,
        },
        (
            CycleStateView::Publishing { merged, discovered_at },
            EventView::Published { id, created, completed, result, errors },
        ) => match (capture.config, capture.status) {
            (Some(config), Some(status)) => published_step(
                capture,
                config,
                status,
                merged,
                discovered_at,
                EntryView {
                    id,
                    created,
                    completed,
                    detail: detail_of(merged.changes, 0),
                    result,
                    errors,
                },
            ),
            _ => ignored,
        },
        (
            CycleStateView::EvolveAndRepublish { changes, evolved, discovered_at },
            EventView::Published { id, created, completed, result, errors },
        ) => match (capture.config, capture.status) {
            (Some(config), Some(status)) => republished_step(
                capture,
                config,
                status,
                changes,
                evolved,
                discovered_at,
                EntryView {
                    id,
                    created,
                    completed,
                    detail: detail_of(changes, evolved.recreated.len()),
                    result,
                    errors,
                },
            ),
            _ => ignored,
        },
        _ => ignored,
    }
}

impl CycleStateView {
    /// Whether the cycle has ended with a failure.
    pub open spec fn is_failure(self) -> bool {
        self is DiscoverFailed || self is ReportedFailure || self is OtherFailure
    }

    /// Whether the cycle has ended with a success.
    pub open spec fn is_success(self) -> bool {
        self is NoOpSuccess || self is PublishSuccess
    }
}

/// How many failures in a row a capture has counted.
pub open spec fn failures(capture: CaptureView) -> nat {
    match capture.status {
        Some(StatusView { failure: Some(f), .. }) => f.count,
        _ => 0,
    }
}

/// The failure count over the cycles. A step that ends a cycle with a
/// failure leaves the count one higher than it was, and the last success
/// as it was. A step that ends a cycle with a success leaves no failure,
/// and a last success.
pub proof fn lemma_cycle_end_counts(capture: CaptureView, state: CycleStateView, event: EventView)
    requires
        step_spec(capture, state, event).action is Finish,
    ensures
        ({
            let after = step_spec(capture, state, event);
            &&& after.state.is_end()
            &&& capture.status is Some
            &&& after.capture.status is Some
            &&& after.state.is_failure() ==> failures(after.capture) == failures(capture) + 1
                && after.capture.status->0.last_success == capture.status->0.last_success
                && after.capture.bindings == capture.bindings
            &&& after.state.is_success() ==> after.capture.status->0.failure is None
                && after.capture.status->0.last_success is Some
        }),
{
}

/// Only the end of a cycle changes what is kept. A step that does not end
/// the cycle leaves the live bindings as they are, and, but for the step
/// from `Idle`, which sets the status up or clears it, the status too.
pub proof fn lemma_cycle_steps_keep(capture: CaptureView, state: CycleStateView, event: EventView)
    requires
        !(step_spec(capture, state, event).action is Finish),
    ensures
        step_spec(capture, state, event).capture.bindings == capture.bindings,
        !(state is Idle) ==> step_spec(capture, state, event).capture.status == capture.status,
        step_spec(capture, state, event).action is Ignore ==> step_spec(capture, state, event)
            == (StepView { capture, state, action: ActionView::Ignore }),
{
}

/// A discover that finds nothing publishes nothing. Where the merge of
/// the connector's answer has no changes, the cycle ends at once with a
/// success: no draft is submitted, the history and the live bindings stay
/// as they are, and the last success is the discover, with no changes and
/// no publication.
pub proof fn lemma_nothing_found(
    capture: CaptureView,
    config: AutoDiscoverConfig,
    status: StatusView,
    resources: Seq<DiscoveredView>,
    now: u64,
)
    requires
        capture.config == Some(config),
        capture.status == Some(status),
        resolved_all(resources, capture.identity_fields) matches Ok(found) && merge_outcome(
            capture.bindings,
            found,
            config.add_new_bindings,
            capture.tenant,
            capture.names_in_use,
        ) matches Ok(merged) && merged.changes.is_empty(),
    ensures
        ({
            let after = step_spec(
                capture,
                CycleStateView::Discovering,
                EventView::Discovered { resources, now },
            );
            &&& after.state is NoOpSuccess
            &&& after.action is Finish
            &&& after.capture.history == capture.history
            &&& after.capture.bindings == capture.bindings
            &&& after.capture.status->0.failure is None
            &&& after.capture.status->0.last_success matches Some(o) && o.ts == now
                && o.added.len() == 0 && o.modified.len() == 0 && o.removed.len() == 0
                && o.publish_result is None
        }),
{
}

/// Nothing is evolved twice. The result of the publication of an evolved
/// draft ends the cycle, whatever it is.
pub proof fn lemma_one_evolution(
    capture: CaptureView,
    changes: ChangesView,
    evolved: EvolvedView,
    discovered_at: u64,
    event: EventView,
)
    requires
        capture.config is Some,
        capture.status is Some,
        event is Published,
    ensures
        step_spec(
            capture,
            CycleStateView::EvolveAndRepublish { changes, evolved, discovered_at },
            event,
        ).state.is_end(),
{
}

/// The step that an exec function took.
pub open spec fn step_view(capture: Capture, r: (CycleState, CycleAction)) -> StepView {
    StepView { capture: capture@, state: r.0@, action: r.1@ }
}

/// The names that are taken: those in `names_in_use`, and the targets of
/// the bindings.
pub fn taken_names(names_in_use: &Vec<String>, bindings: &Vec<CaptureBinding>) -> (r: Vec<String>)
    ensures
        strings_view(r@) == strings_view(names_in_use@) + targets(capture_view(bindings@)),
{
    let ghost views = capture_view(bindings@);
    let mut r = clone_strings(names_in_use);
    let mut i: usize = 0;
    assert(targets(views.take(0)) =~= Seq::<Seq<char>>::empty());
    assert(strings_view(r@) =~= strings_view(names_in_use@) + targets(views.take(0)));
    while i < bindings.len()
        invariant
            i <= bindings@.len(),
            views == capture_view(bindings@),
            strings_view(r@) == strings_view(names_in_use@) + targets(views.take(i as int)),
        decreases bindings@.len() - i,
    {
        let ghost before = strings_view(r@);
        r.push(bindings[i].binding.target_collection.clone());
        proof {
            let target = bindings@[i as int]@.binding.target_collection;
            assert(views[i as int] == bindings@[i as int]@);
            assert(strings_view(r@) =~= before.push(target));
            assert(targets(views.take(i + 1)) =~= targets(views.take(i as int)).push(target));
        }
        i += 1;
    }
    assert(views.take(bindings@.len() as int) =~= views);
    r
}

/// Ends the cycle: keeps the status and says when the next run is.
fn finish(
    capture: &mut Capture,
    config: &AutoDiscoverConfig,
    status: AutoDiscoverStatus,
    state: CycleState,
    ts: u64,
    recreated: Vec<Recreation>,
) -> (r: (CycleState, CycleAction))
    ensures
        step_view(*final(capture), r) == finished(
            old(capture)@,
            *config,
            status@,
            state@,
            ts,
            recreations_view(recreated@),
        ),
{
    let next = add_interval(ts, interval_of(config, &status));
    capture.status = Some(status);
    (state, CycleAction::Finish { next_run: Some(next), recreated })
}

/// Ends the cycle with a discover that failed.
fn fail_discover(
    capture: &mut Capture,
    config: &AutoDiscoverConfig,
    status: AutoDiscoverStatus,
    error: ErrorRecord,
    now: u64,
) -> (r: (CycleState, CycleAction))
    requires
        status@.can_fail(),
    ensures
        step_view(*final(capture), r) == discover_failed_step(
            old(capture)@,
            *config,
            status@,
            error@,
            now,
        ),
{
    let mut status = status;
    status.record_failure(DiscoverOutcome::of_error(now, error));
    let recreated: Vec<Recreation> = Vec::new();
    assert(recreations_view(recreated@) =~= Seq::<RecreationView>::empty());
    finish(capture, config, status, CycleState::DiscoverFailed, now, recreated)
}

/// The error record for a discover that could not be merged.
fn error_record(capture: &Capture, e: DiscoverError) -> (r: ErrorRecord)
    ensures
        r@ == merge_error(capture@, e),
{
    ErrorRecord {
        scope: capture.name.clone(),
        catalog_name: capture.name.clone(),
        detail: e.message(),
    }
}

/// Takes the step on the connector's answer.
fn on_discovered(
    capture: &mut Capture,
    config: &AutoDiscoverConfig,
    status: AutoDiscoverStatus,
    resources: &Vec<DiscoveredResource>,
    now: u64,
) -> (r: (CycleState, CycleAction))
    requires
        status@.can_fail(),
    ensures
        step_view(*final(capture), r) == discovered_step(
            old(capture)@,
            *config,
            status@,
            discovered_view(resources@),
            now,
        ),
{
    let found = match resolve_resources(resources, &capture.identity_fields) {
        Ok(found) => found,
        Err(e) => {
            let error = error_record(capture, e);
            return fail_discover(capture, config, status, error, now);
        },
    };
    let merged = match merge_bindings(
        &capture.bindings,
        &found,
        config.add_new_bindings,
        capture.tenant.as_str(),
        &capture.names_in_use,
    ) {
        Ok(merged) => merged,
        Err(e) => {
            let error = error_record(capture, e);
            return fail_discover(capture, config, status, error, now);
        },
    };
    if !publication_needed(&merged.changes) {
        let mut status = status;
        status.record_success(DiscoverOutcome::of(now, &merged.changes, None));
        let recreated: Vec<Recreation> = Vec::new();
        assert(recreations_view(recreated@) =~= Seq::<RecreationView>::empty());
        finish(capture, config, status, CycleState::NoOpSuccess, now, recreated)
    } else {
        let bindings = clone_bindings(&merged.bindings);
        let detail = publication_detail(&merged.changes, 0);
        capture.status = Some(status);
        (
            CycleState::Publishing { merged, discovered_at: now },
            CycleAction::Publish { bindings, detail },
        )
    }
}

/// Takes the step on the result of the first publication.
fn on_published(
    capture: &mut Capture,
    config: &AutoDiscoverConfig,
    status: AutoDiscoverStatus,
    merged: Merged,
    discovered_at: u64,
    entry: PublicationHistoryEntry,
) -> (r: (CycleState, CycleAction))
    requires
        status@.can_fail(),
    ensures
        step_view(*final(capture), r) == published_step(
            old(capture)@,
            *config,
            status@,
            merged@,
            discovered_at,
            entry@,
        ),
{
    let mut status = status;
    let Merged { changes, bindings } = merged;
    let result = entry.result.clone();
    let verdict = classify(&result);
    let names = taken_names(&capture.names_in_use, &capture.bindings);
    let evolved = match &result {
        JobStatus::BuildFailed { incompatible_collections } => {
            if config.evolve_incompatible_collections && incompatible_collections.len() > 0 {
                Some(evolve(&bindings, incompatible_collections, &names))
            } else {
                None
            }
        },
        _ => None,
    };
    push_history(&mut capture.history, entry, HISTORY_LIMIT);
    let nothing: Vec<Recreation> = Vec::new();
    assert(recreations_view(nothing@) =~= Seq::<RecreationView>::empty());
    match verdict {
        Verdict::Success => {
            status.record_success(DiscoverOutcome::of(discovered_at, &changes, Some(result)));
            capture.bindings = bindings;
            finish(capture, config, status, CycleState::PublishSuccess, discovered_at, nothing)
        },
        Verdict::Incompatible => {
            match evolved {
                Some(evolved) if evolved.recreated.len() > 0 => {
                    let draft = clone_bindings(&evolved.bindings);
                    let detail = publication_detail(&changes, evolved.recreated.len());
                    capture.status = Some(status);
                    (
                        CycleState::EvolveAndRepublish { changes, evolved, discovered_at },
                        CycleAction::Publish { bindings: draft, detail },
                    )
                },
                _ => {
                    status.record_failure(
                        DiscoverOutcome::of(discovered_at, &changes, Some(result)),
                    );
                    finish(
                        capture,
                        config,
                        status,
                        CycleState::ReportedFailure,
                        discovered_at,
                        nothing,
                    )
                },
            }
        },
        Verdict::Failure => {
            status.record_failure(DiscoverOutcome::of(discovered_at, &changes, Some(result)));
            finish(capture, config, status, CycleState::OtherFailure, discovered_at, nothing)
        },
    }
}

/// Takes the step on the result of the publication of an evolved draft.
fn on_republished(
    capture: &mut Capture,
    config: &AutoDiscoverConfig,
    status: AutoDiscoverStatus,
    changes: Changes,
    evolved: Evolved,
    discovered_at: u64,
    entry: PublicationHistoryEntry,
) -> (r: (CycleState, CycleAction))
    requires
        status@.can_fail(),
    ensures
        step_view(*final(capture), r) == republished_step(
            old(capture)@,
            *config,
            status@,
            changes@,
            evolved@,
            discovered_at,
            entry@,
        ),
{
    let mut status = status;
    let result = entry.result.clone();
    push_history(&mut capture.history, entry, HISTORY_LIMIT);
    match classify(&result) {
        Verdict::Success => {
            let Evolved { bindings, recreated } = evolved;
            status.record_success(DiscoverOutcome::of(discovered_at, &changes, Some(result)));
            capture.bindings = bindings;
            finish(capture, config, status, CycleState::PublishSuccess, discovered_at, recreated)
        },
        _ => {
            let nothing: Vec<Recreation> = Vec::new();
            assert(recreations_view(nothing@) =~= Seq::<RecreationView>::empty());
            status.record_failure(DiscoverOutcome::of(discovered_at, &changes, Some(result)));
            finish(capture, config, status, CycleState::OtherFailure, discovered_at, nothing)
        },
    }
}

impl Capture {
    /// Whether [`step`] may be called: whether one more failure can be
    /// counted.
    pub open spec fn can_step(self) -> bool {
        match self@.status {
            Some(s) => s.can_fail(),
            None => true,
        }
    }

    /// Whether [`step`] may be called.
    pub fn check_step(&self) -> (r: bool)
        ensures
            r == self.can_step(),
    {
        match &self.status {
            Some(s) => s.can_fail(),
            None => true,
        }
    }
}

/// Takes one step of the cycle: brings the capture to what the event
/// leads to in the state, and returns the new state and what the caller
/// is to do next.
pub fn step(capture: &mut Capture, state: CycleState, event: CycleEvent) -> (r: (
    CycleState,
    CycleAction,
))
    requires
        old(capture).can_step(),
    ensures
        step_view(*final(capture), r) == step_spec(old(capture)@, state@, event@),
{
    let config = capture.config;
    match (state, event) {
        (CycleState::Idle, CycleEvent::Start { now }) => {
            let decision = schedule(&config, capture.shards_disabled, &mut capture.status, now);
            if decision.due {
                (CycleState::Discovering, CycleAction::Discover)
            } else {
                (CycleState::Idle, CycleAction::Wait { next_run: decision.next_run })
            }
        },
        (CycleState::Discovering, CycleEvent::DiscoverFailed { error, now }) => {
            match (config, capture.status.take()) {
                (Some(config), Some(status)) => fail_discover(capture, &config, status, error, now),
                (_, status) => {
                    capture.status = status;
                    (CycleState::Discovering, CycleAction::Ignore)
                },
            }
        },
        (CycleState::Discovering, CycleEvent::Discovered { resources, now }) => {
            match (config, capture.status.take()) {
                (Some(config), Some(status)) => on_discovered(
                    capture,
                    &config,
                    status,
                    &resources,
                    now,
                ),
                (_, status) => {
                    capture.status = status;
                    (CycleState::Discovering, CycleAction::Ignore)
                },
            }
        },
        (
            CycleState::Publishing { merged, discovered_at },
            CycleEvent::Published { id, created, completed, result, errors },
        ) => {
            match (config, capture.status.take()) {
                (Some(config), Some(status)) => {
                    let detail = publication_detail(&merged.changes, 0);
                    let entry = PublicationHistoryEntry {
                        id,
                        created,
                        completed,
                        detail,
                        result,
                        errors,
                    };
                    on_published(capture, &config, status, merged, discovered_at, entry)
                },
                (_, status) => {
                    capture.status = status;
                    (CycleState::Publishing { merged, discovered_at }, CycleAction::Ignore)
                },
            }
        },
        (
            CycleState::EvolveAndRepublish { changes, evolved, discovered_at },
            CycleEvent::Published { id, created, completed, result, errors },
        ) => {
            match (config, capture.status.take()) {
                (Some(config), Some(status)) => {
                    let detail = publication_detail(&changes, evolved.recreated.len());
                    let entry = PublicationHistoryEntry {
                        id,
                        created,
                        completed,
                        detail,
                        result,
                        errors,
                    };
                    on_republished(
                        capture,
                        &config,
                        status,
                        changes,
                        evolved,
                        discovered_at,
                        entry,
                    )
                },
                (_, status) => {
                    capture.status = status;
                    (
                        CycleState::EvolveAndRepublish { changes, evolved, discovered_at },
                        CycleAction::Ignore,
                    )
                },
            }
        },
        (state, _) => (state, CycleAction::Ignore),
    }
}

impl Clone for Capture {
    fn clone(&self) -> (r: Capture)
        ensures
            r@ == self@,
    {
        Capture {
            name: self.name.clone(),
            tenant: self.tenant.clone(),
            config: self.config,
            shards_disabled: self.shards_disabled,
            identity_fields: clone_strings(&self.identity_fields),
            bindings: clone_bindings(&self.bindings),
            names_in_use: clone_strings(&self.names_in_use),
            status: match &self.status {
                Some(s) => Some(s.clone()),
                None => None,
            },
            history: clone_history(&self.history),
        }
    }
}

impl Clone for CycleState {
    fn clone(&self) -> (r: CycleState)
        ensures
            r@ == self@,
    {
        match self {
            CycleState::Idle => CycleState::Idle,
            CycleState::Discovering => CycleState::Discovering,
            CycleState::DiscoverFailed => CycleState::DiscoverFailed,
            CycleState::NoOpSuccess => CycleState::NoOpSuccess,
            CycleState::Publishing { merged, discovered_at } => CycleState::Publishing {
                merged: merged.clone(),
                discovered_at: *discovered_at,
            },
            CycleState::PublishSuccess => CycleState::PublishSuccess,
            CycleState::EvolveAndRepublish {
                changes,
                evolved,
                discovered_at,
            } => CycleState::EvolveAndRepublish {
                changes: changes.clone(),
                evolved: evolved.clone(),
                discovered_at: *discovered_at,
            },
            CycleState::ReportedFailure => CycleState::ReportedFailure,
            CycleState::OtherFailure => CycleState::OtherFailure,
        }
    }
}

impl Clone for CycleEvent {
    fn clone(&self) -> (r: CycleEvent)
        ensures
            r@ == self@,
    {
        match self {
            CycleEvent::Start { now } => CycleEvent::Start { now: *now },
            CycleEvent::Discovered { resources, now } => CycleEvent::Discovered {
                resources: clone_discovered(resources),
                now: *now,
            },
            CycleEvent::DiscoverFailed { error, now } => CycleEvent::DiscoverFailed {
                error: error.clone(),
                now: *now,
            },
            CycleEvent::Published { id, created, completed, result, errors } => CycleEvent::Published {
                id: *id,
                created: *created,
                completed: *completed,
                result: result.clone(),
                errors: clone_errors(errors),
            },
        }
    }
}

impl Clone for CycleAction {
    fn clone(&self) -> (r: CycleAction)
        ensures
            r@ == self@,
    {
        match self {
            CycleAction::Wait { next_run } => CycleAction::Wait { next_run: *next_run },
            CycleAction::Discover => CycleAction::Discover,
            CycleAction::Publish { bindings, detail } => CycleAction::Publish {
                bindings: clone_bindings(bindings),
                detail: detail.clone(),
            },
            CycleAction::Finish { next_run, recreated } => CycleAction::Finish {
                next_run: *next_run,
                recreated: clone_recreations(recreated),
            },
            CycleAction::Ignore => CycleAction::Ignore,
        }
    }
}

} // verus!
