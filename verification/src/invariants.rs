//! What every step of a cycle keeps.
//!
//! A state that carries a draft was reached by merging an answer of the
//! connector into the live bindings of the capture; such a state *fits*
//! the capture. Every step from a state that fits leads to a state that
//! fits, and keeps what the bindings of a capture are held to: no two of
//! one identity, all in the order of their targets, and none enabled
//! again that was disabled.

use vstd::prelude::*;
use crate::cycle::{
    incompatible_of, step_spec, CaptureView, CycleStateView, EventView, HISTORY_LIMIT,
};
use crate::evolution::{
    evolve_pass, evolve_spec, lemma_evolution_keeps, same_but_target, EvolvedView,
};
use crate::identity::resolved_all;
use crate::laws::{
    distinct_bindings, lemma_disable_is_sticky, lemma_merge_keeps_bindings_apart,
    lemma_merge_settles, lemma_settled_bindings_stay, other_identity, settled,
};
use crate::merge::{bound_to, distinct_identities, merge_spec, targets, MergedView};
use crate::search::{any, lemma_any};
use crate::model::{CaptureBindingView, DiscoveredView, ResolvedView};
use crate::order::{lemma_sort_ordered, lemma_sort_pairwise, sort_by_target, targets_ordered};
use crate::schedule::{effective_interval, time_after};
use crate::status::{history_with, EntryView, IncompatibleView, StatusView};

verus! {

/// Whether `merged` is the merge of some resources into the live
/// bindings of the capture.
pub open spec fn is_merge_for(capture: CaptureView, merged: MergedView) -> bool {
    exists|found: Seq<ResolvedView>|
        distinct_identities(found) && capture.config is Some && merged == #[trigger] merge_spec(
            capture.bindings,
            found,
            capture.config->0.add_new_bindings,
            capture.tenant,
            capture.names_in_use,
        )
}

/// Whether `evolved` is an evolution of some merge into the live bindings
/// of the capture.
pub open spec fn is_evolution_for(capture: CaptureView, evolved: EvolvedView) -> bool {
    exists|merged: MergedView, incompatible: Seq<IncompatibleView>, names: Seq<Seq<char>>|
        is_merge_for(capture, merged) && evolved == #[trigger] evolve_spec(
            merged.bindings,
            incompatible,
            names,
        )
}

/// Whether the state fits the capture: whether the draft that it carries,
/// if it carries one, was made from the live bindings of the capture.
pub open spec fn fits(capture: CaptureView, state: CycleStateView) -> bool {
    match state {
        CycleStateView::Publishing { merged, .. } => is_merge_for(capture, merged),
        CycleStateView::EvolveAndRepublish { evolved, .. } => is_evolution_for(capture, evolved),
        _ => true,
    }
}

/// An evolution keeps the bindings apart: where no two bindings have the
/// same identity before, no two have after.
pub proof fn lemma_evolution_keeps_apart(
    bindings: Seq<CaptureBindingView>,
    incompatible: Seq<IncompatibleView>,
    names_in_use: Seq<Seq<char>>,
)
    requires
        distinct_bindings(bindings),
    ensures
        distinct_bindings(evolve_spec(bindings, incompatible, names_in_use).bindings),
{
    let used = names_in_use + targets(bindings);
    let end = evolve_pass(incompatible, bindings, used).bindings;
    let result = sort_by_target(end);
    crate::evolution::lemma_evolve_pass_keeps(incompatible, bindings, used);
    assert forall|i: int, j: int|
        0 <= i < end.len() && 0 <= j < end.len() && i != j implies other_identity()(
        end[i],
        end[j],
    ) by {
        assert(same_but_target(end[i], bindings[i]));
        assert(same_but_target(end[j], bindings[j]));
        if i < j {
            assert(bindings[i].binding.resource_identity != bindings[j].binding.resource_identity);
        } else {
            assert(bindings[j].binding.resource_identity != bindings[i].binding.resource_identity);
        }
    }
    lemma_sort_pairwise(end, other_identity());
    assert forall|i: int, j: int| 0 <= i < j < result.len() implies (
    #[trigger] result[i]).binding.resource_identity != (
    #[trigger] result[j]).binding.resource_identity by {
        assert(other_identity()(result[i], result[j]));
    }
}

/// Every step leads from a state that fits to a state that fits.
pub proof fn lemma_step_fits(capture: CaptureView, state: CycleStateView, event: EventView)
    requires
        fits(capture, state),
    ensures
        fits(step_spec(capture, state, event).capture, step_spec(capture, state, event).state),
{
    let after = step_spec(capture, state, event);
    match (state, event) {
        (CycleStateView::Discovering, EventView::Discovered { resources, now }) => {
            if after.state is Publishing {
                let found = resolved_all(resources, capture.identity_fields)->Ok_0;
                assert(after.state->Publishing_merged == merge_spec(
                    after.capture.bindings,
                    found,
                    after.capture.config->0.add_new_bindings,
                    after.capture.tenant,
                    after.capture.names_in_use,
                ));
            }
        },
        (CycleStateView::Publishing { merged, .. }, EventView::Published { result, .. }) => {
            if after.state is EvolveAndRepublish {
                let found = choose|found: Seq<ResolvedView>|
                    distinct_identities(found) && capture.config is Some && merged
                        == #[trigger] merge_spec(
                        capture.bindings,
                        found,
                        capture.config->0.add_new_bindings,
                        capture.tenant,
                        capture.names_in_use,
                    );
                assert(merged == merge_spec(
                    after.capture.bindings,
                    found,
                    after.capture.config->0.add_new_bindings,
                    after.capture.tenant,
                    after.capture.names_in_use,
                ));
                assert(is_merge_for(after.capture, merged));
                assert(after.state->EvolveAndRepublish_evolved == evolve_spec(
                    merged.bindings,
                    crate::cycle::incompatible_of(result),
                    capture.names_in_use + targets(capture.bindings),
                ));
            }
        },
        _ => {},
    }
}

/// Every step keeps the bindings apart and in order. From a state that
/// fits, where no two live bindings have the same identity before a step,
/// no two have after it; and where the live bindings stand in the order
/// of their targets before, they do after.
pub proof fn lemma_step_keeps_bindings(
    capture: CaptureView,
    state: CycleStateView,
    event: EventView,
)
    requires
        fits(capture, state),
    ensures
        distinct_bindings(capture.bindings) ==> distinct_bindings(
            step_spec(capture, state, event).capture.bindings,
        ),
        targets_ordered(capture.bindings) ==> targets_ordered(
            step_spec(capture, state, event).capture.bindings,
        ),
{
    let after = step_spec(capture, state, event);
    if after.capture.bindings != capture.bindings {
        match state {
            CycleStateView::Publishing { merged, .. } => {
                let found = choose|found: Seq<ResolvedView>|
                    distinct_identities(found) && capture.config is Some && merged
                        == #[trigger] merge_spec(
                        capture.bindings,
                        found,
                        capture.config->0.add_new_bindings,
                        capture.tenant,
                        capture.names_in_use,
                    );
                lemma_merge_ordered(capture, found);
                if distinct_bindings(capture.bindings) {
                    lemma_merge_keeps_bindings_apart(
                        capture.bindings,
                        found,
                        capture.config->0.add_new_bindings,
                        capture.tenant,
                        capture.names_in_use,
                    );
                }
            },
            CycleStateView::EvolveAndRepublish { evolved, .. } => {
                let (merged, incompatible, names) = choose|
                    merged: MergedView,
                    incompatible: Seq<IncompatibleView>,
                    names: Seq<Seq<char>>,
                |
                    is_merge_for(capture, merged) && evolved == #[trigger] evolve_spec(
                        merged.bindings,
                        incompatible,
                        names,
                    );
                let found = choose|found: Seq<ResolvedView>|
                    distinct_identities(found) && capture.config is Some && merged
                        == #[trigger] merge_spec(
                        capture.bindings,
                        found,
                        capture.config->0.add_new_bindings,
                        capture.tenant,
                        capture.names_in_use,
                    );
                lemma_sort_ordered(
                    evolve_pass(
                        incompatible,
                        merged.bindings,
                        names + targets(merged.bindings),
                    ).bindings,
                );
                if distinct_bindings(capture.bindings) {
                    lemma_merge_keeps_bindings_apart(
                        capture.bindings,
                        found,
                        capture.config->0.add_new_bindings,
                        capture.tenant,
                        capture.names_in_use,
                    );
                    lemma_evolution_keeps_apart(merged.bindings, incompatible, names);
                }
            },
            _ => {},
        }
    }
}

/// A merge gives the bindings in the order of their targets.
proof fn lemma_merge_ordered(capture: CaptureView, found: Seq<ResolvedView>)
    requires
        capture.config is Some,
    ensures
        targets_ordered(
            merge_spec(
                capture.bindings,
                found,
                capture.config->0.add_new_bindings,
                capture.tenant,
                capture.names_in_use,
            ).bindings,
        ),
{
    let kept = crate::merge::live_pass(capture.bindings, found).kept;
    let new = if capture.config->0.add_new_bindings {
        crate::merge::add_pass(
            found,
            capture.bindings,
            capture.tenant,
            capture.names_in_use + targets(capture.bindings),
        ).bindings
    } else {
        Seq::empty()
    };
    lemma_sort_ordered(kept + new);
}

/// No step enables a binding that was disabled. From a state that fits
/// and with no two live bindings of one identity: where a live binding is
/// disabled before a step, the live binding of its identity after the
/// step, if there is one, is disabled.
pub proof fn lemma_step_keeps_disabled(
    capture: CaptureView,
    state: CycleStateView,
    event: EventView,
    i: int,
    x: CaptureBindingView,
)
    requires
        fits(capture, state),
        distinct_bindings(capture.bindings),
        0 <= i < capture.bindings.len(),
        capture.bindings[i].binding.disable,
        step_spec(capture, state, event).capture.bindings.contains(x),
        x.binding.resource_identity == capture.bindings[i].binding.resource_identity,
    ensures
        x.binding.disable,
{
    let after = step_spec(capture, state, event);
    if after.capture.bindings == capture.bindings {
        let j = choose|j: int| 0 <= j < capture.bindings.len() && capture.bindings[j] == x;
        assert(i == j);
    } else {
        match state {
            CycleStateView::Publishing { merged, .. } => {
                let found = choose|found: Seq<ResolvedView>|
                    distinct_identities(found) && capture.config is Some && merged
                        == #[trigger] merge_spec(
                        capture.bindings,
                        found,
                        capture.config->0.add_new_bindings,
                        capture.tenant,
                        capture.names_in_use,
                    );
                lemma_disable_is_sticky(
                    capture.bindings,
                    found,
                    capture.config->0.add_new_bindings,
                    capture.tenant,
                    capture.names_in_use,
                    i,
                    x,
                );
            },
            CycleStateView::EvolveAndRepublish { evolved, .. } => {
                let (merged, incompatible, names) = choose|
                    merged: MergedView,
                    incompatible: Seq<IncompatibleView>,
                    names: Seq<Seq<char>>,
                |
                    is_merge_for(capture, merged) && evolved == #[trigger] evolve_spec(
                        merged.bindings,
                        incompatible,
                        names,
                    );
                let found = choose|found: Seq<ResolvedView>|
                    distinct_identities(found) && capture.config is Some && merged
                        == #[trigger] merge_spec(
                        capture.bindings,
                        found,
                        capture.config->0.add_new_bindings,
                        capture.tenant,
                        capture.names_in_use,
                    );
                lemma_evolution_keeps(merged.bindings, incompatible, names);
                let k = choose|k: int|
                    0 <= k < merged.bindings.len() && same_but_target(
                        x,
                        #[trigger] merged.bindings[k],
                    );
                let y = merged.bindings[k];
                assert(merged.bindings.contains(y));
                lemma_disable_is_sticky(
                    capture.bindings,
                    found,
                    capture.config->0.add_new_bindings,
                    capture.tenant,
                    capture.names_in_use,
                    i,
                    y,
                );
            },
            _ => {},
        }
    }
}

/// The history is only added to, and stays bounded. A step leaves the
/// history as it is or puts one publication in front of it; and where the
/// history holds no more than [`HISTORY_LIMIT`] publications before a
/// step, it holds no more after, and no fewer.
pub proof fn lemma_step_adds_to_history(
    capture: CaptureView,
    state: CycleStateView,
    event: EventView,
)
    ensures
        step_spec(capture, state, event).capture.history == capture.history || exists|
            entry: EntryView,
        |
            step_spec(capture, state, event).capture.history == #[trigger] history_with(
                capture.history,
                entry,
                HISTORY_LIMIT as nat,
            ),
        capture.history.len() <= HISTORY_LIMIT ==> capture.history.len() <= step_spec(
            capture,
            state,
            event,
        ).capture.history.len() <= HISTORY_LIMIT,
{
    let after = step_spec(capture, state, event);
    if after.capture.history != capture.history {
        match (state, event) {
            (
                CycleStateView::Publishing { merged, .. },
                EventView::Published { id, created, completed, result, errors },
            ) => {
                let entry = EntryView {
                    id,
                    created,
                    completed,
                    detail: crate::publication::detail_of(merged.changes, 0),
                    result,
                    errors,
                };
                assert(after.capture.history == history_with(
                    capture.history,
                    entry,
                    HISTORY_LIMIT as nat,
                ));
            },
            (
                CycleStateView::EvolveAndRepublish { changes, evolved, .. },
                EventView::Published { id, created, completed, result, errors },
            ) => {
                let entry = EntryView {
                    id,
                    created,
                    completed,
                    detail: crate::publication::detail_of(changes, evolved.recreated.len()),
                    result,
                    errors,
                };
                assert(after.capture.history == history_with(
                    capture.history,
                    entry,
                    HISTORY_LIMIT as nat,
                ));
            },
            _ => {},
        }
    }
}

/// When the discover was made that the status last recorded: the failed
/// one where the last discover failed, else the last success.
pub open spec fn last_recorded(status: StatusView) -> Option<u64> {
    match status.failure {
        Some(f) => Some(f.last_outcome.ts),
        None => match status.last_success {
            Some(o) => Some(o.ts),
            None => None,
        },
    }
}

/// The interval is fixed. However a cycle ends and however many failures
/// came before, the next run is one interval after the discover of the
/// cycle was made.
pub proof fn lemma_next_run_is_an_interval_on(
    capture: CaptureView,
    state: CycleStateView,
    event: EventView,
)
    requires
        step_spec(capture, state, event).action is Finish,
    ensures
        ({
            let after = step_spec(capture, state, event);
            &&& after.capture.config is Some
            &&& after.capture.status is Some
            &&& last_recorded(after.capture.status->0) is Some
            &&& after.action->Finish_next_run == Some(
                time_after(
                    last_recorded(after.capture.status->0)->0,
                    effective_interval(after.capture.config->0, after.capture.status->0),
                ),
            )
        }),
{
}

/// An evolution leaves the bindings settled. Where the bindings that a
/// merge gave are evolved, whatever collections are re-created, and the
/// resources of the merge are merged once more into the evolved bindings,
/// nothing is added, modified or removed, and the bindings stay as they
/// are: a binding is found again by its identity, whatever its target is
/// called by then.
pub proof fn lemma_evolved_bindings_stay(
    live: Seq<CaptureBindingView>,
    discovered: Seq<ResolvedView>,
    add_new: bool,
    tenant: Seq<char>,
    names_in_use: Seq<Seq<char>>,
    incompatible: Seq<IncompatibleView>,
    names_then: Seq<Seq<char>>,
    names_after: Seq<Seq<char>>,
)
    requires
        distinct_identities(discovered),
    ensures
        ({
            let merged = merge_spec(live, discovered, add_new, tenant, names_in_use);
            let evolved = evolve_spec(merged.bindings, incompatible, names_then);
            let again = merge_spec(evolved.bindings, discovered, add_new, tenant, names_after);
            again.changes.is_empty() && again.bindings == evolved.bindings
        }),
{
    let merged = merge_spec(live, discovered, add_new, tenant, names_in_use).bindings;
    let end = evolve_pass(incompatible, merged, names_then + targets(merged)).bindings;
    let evolved = evolve_spec(merged, incompatible, names_then).bindings;
    lemma_merge_settles(live, discovered, add_new, tenant, names_in_use);
    crate::evolution::lemma_evolve_pass_keeps(incompatible, merged, names_then + targets(merged));
    lemma_sort_ordered(end);
    assert forall|i: int| 0 <= i < evolved.len() implies settled(
        #[trigger] evolved[i],
        discovered,
    ) by {
        assert(evolved.contains(evolved[i]));
        crate::order::lemma_sort_contains(end, evolved[i]);
        let k = choose|k: int| 0 <= k < end.len() && end[k] == evolved[i];
        assert(same_but_target(end[k], merged[k]));
        assert(settled(merged[k], discovered));
    }
    if add_new {
        assert forall|d: int| 0 <= d < discovered.len() implies any(
            evolved,
            bound_to((#[trigger] discovered[d]).resource_identity),
        ) by {
            let wanted = bound_to(discovered[d].resource_identity);
            lemma_any(merged, wanted);
            lemma_any(evolved, wanted);
            let k = choose|k: int| 0 <= k < merged.len() && wanted(merged[k]);
            assert(same_but_target(end[k], merged[k]));
            assert(end.contains(end[k]));
            crate::order::lemma_sort_contains(end, end[k]);
            let at = choose|at: int| 0 <= at < evolved.len() && evolved[at] == end[k];
            assert(wanted(evolved[at]));
        }
    }
    lemma_settled_bindings_stay(evolved, discovered, add_new, tenant, names_after);
}

/// Discovering the same again publishes nothing. Where the changes of a
/// discover were published with success, at once or after an evolution,
/// and the connector gives the same answer to the next discover, that
/// discover ends with a success that publishes nothing.
pub proof fn lemma_rediscover_publishes_nothing(
    capture: CaptureView,
    resources: Seq<DiscoveredView>,
    now: u64,
    first: EventView,
    second: EventView,
    later: u64,
)
    requires
        capture.config is Some,
        capture.status is Some,
        first is Published,
        second is Published,
    ensures
        ({
            let answer = EventView::Discovered { resources, now };
            let again = EventView::Discovered { resources, now: later };
            let discovered = step_spec(capture, CycleStateView::Discovering, answer);
            let published = step_spec(discovered.capture, discovered.state, first);
            let republished = step_spec(published.capture, published.state, second);
            &&& discovered.state is Publishing && published.state is PublishSuccess ==> step_spec(
                published.capture,
                CycleStateView::Discovering,
                again,
            ).state is NoOpSuccess
            &&& discovered.state is Publishing && published.state is EvolveAndRepublish
                && republished.state is PublishSuccess ==> step_spec(
                republished.capture,
                CycleStateView::Discovering,
                again,
            ).state is NoOpSuccess
        }),
{
    let config = capture.config->0;
    let answer = EventView::Discovered { resources, now };
    let discovered = step_spec(capture, CycleStateView::Discovering, answer);
    if discovered.state is Publishing {
        let found = resolved_all(resources, capture.identity_fields)->Ok_0;
        let published = step_spec(discovered.capture, discovered.state, first);
        if published.state is PublishSuccess {
            crate::laws::lemma_merge_is_idempotent(
                capture.bindings,
                found,
                config.add_new_bindings,
                capture.tenant,
                capture.names_in_use,
                capture.names_in_use,
            );
        } else if published.state is EvolveAndRepublish {
            lemma_evolved_bindings_stay(
                capture.bindings,
                found,
                config.add_new_bindings,
                capture.tenant,
                capture.names_in_use,
                incompatible_of(first->Published_result),
                capture.names_in_use + targets(capture.bindings),
                capture.names_in_use,
            );
        }
    }
}

} // verus!
