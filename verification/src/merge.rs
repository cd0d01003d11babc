//! The merge of what a connector discovered into the bindings of a capture.

use vstd::prelude::*;
use crate::config::{merge_config, merged_fields};
use crate::model::{
    capture_view, change_of, changes_view, clone_bindings, resolved_view, Binding, BindingView,
    CaptureBinding, CaptureBindingView, ChangeView, Changes, ChangesView, DiscoverChange,
    DiscoverError, ResolvedResource, ResolvedView,
};
use crate::naming::{fresh_collection_name, name_new_collection};
use crate::order::{insert_sorted, lemma_sort_ordered, sort_by_target, targets_ordered};
use crate::search::{any, find_first, lemma_found_first, lemma_found_none};
use crate::text::{clone_strings, strings_equal, strings_view};

verus! {

/// The condition of being the resource of that identity.
pub open spec fn has_identity(identity: Seq<Seq<char>>) -> spec_fn(ResolvedView) -> bool {
    |r: ResolvedView| r.resource_identity == identity
}

/// The condition of being the binding of the resource of that identity.
pub open spec fn bound_to(identity: Seq<Seq<char>>) -> spec_fn(CaptureBindingView) -> bool {
    |b: CaptureBindingView| b.binding.resource_identity == identity
}

/// No two resources have the same identity.
pub open spec fn distinct_identities(discovered: Seq<ResolvedView>) -> bool {
    forall|i: int, j: int|
        0 <= i < j < discovered.len() ==> (#[trigger] discovered[i]).resource_identity != (
        #[trigger] discovered[j]).resource_identity
}

/// The resource at `i` has the identity of an earlier one.
pub open spec fn repeats(discovered: Seq<ResolvedView>, i: int) -> bool {
    0 <= i < discovered.len() && exists|j: int|
        0 <= j < i && (#[trigger] discovered[j]).resource_identity == discovered[i].resource_identity
}

/// A live binding after the merge with the resource that it is bound to.
/// The live members of the configuration stay and discovered ones are
/// added; schema and key are the discovered ones; the binding is disabled
/// if it was, or if the connector says so.
pub open spec fn merged_binding(
    live: CaptureBindingView,
    found: ResolvedView,
) -> CaptureBindingView {
    CaptureBindingView {
        binding: BindingView {
            resource_identity: live.binding.resource_identity,
            resource_config: merged_fields(live.binding.resource_config, found.resource_config),
            target_collection: live.binding.target_collection,
            disable: live.binding.disable || found.disable,
            backfill: live.binding.backfill,
        },
        document_schema: found.document_schema,
        key: found.key,
    }
}

/// Whether the merge with its resource changes what is reported of a live
/// binding: its schema, its key, or its disable flag.
pub open spec fn is_modified(live: CaptureBindingView, found: ResolvedView) -> bool {
    live.document_schema != found.document_schema || live.key != found.key || (
    !live.binding.disable && found.disable)
}

/// The binding for a newly discovered resource.
pub open spec fn new_binding(found: ResolvedView, target: Seq<char>) -> CaptureBindingView {
    CaptureBindingView {
        binding: BindingView {
            resource_identity: found.resource_identity,
            resource_config: found.resource_config,
            target_collection: target,
            disable: found.disable,
            backfill: 0,
        },
        document_schema: found.document_schema,
        key: found.key,
    }
}

/// What the pass over the live bindings gives.
pub struct LivePass {
    /// The bindings whose resource is still there, merged with it.
    pub kept: Seq<CaptureBindingView>,
    /// A report of each kept binding that the merge has modified.
    pub modified: Seq<ChangeView>,
    /// A report of each binding whose resource is gone.
    pub removed: Seq<ChangeView>,
}

/// The pass over the live bindings, in their order. A binding whose
/// identity some discovered resource has is merged with the first such
/// resource and kept; any other binding is removed.
pub open spec fn live_pass(live: Seq<CaptureBindingView>, discovered: Seq<ResolvedView>) -> LivePass
    decreases live.len(),
{
    if live.len() == 0 {
        LivePass { kept: Seq::empty(), modified: Seq::empty(), removed: Seq::empty() }
    } else {
        let front = live_pass(live.drop_last(), discovered);
        let b = live.last();
        match find_first(discovered, has_identity(b.binding.resource_identity)) {
            Some(i) => {
                let merged = merged_binding(b, discovered[i]);
                LivePass {
                    kept: front.kept.push(merged),
                    modified: if is_modified(b, discovered[i]) {
                        front.modified.push(change_of(merged.binding))
                    } else {
                        front.modified
                    },
                    removed: front.removed,
                }
            },
            None => LivePass {
                kept: front.kept,
                modified: front.modified,
                removed: front.removed.push(change_of(b.binding)),
            },
        }
    }
}

/// What the pass over the discovered resources gives.
pub struct AddPass {
    /// The bindings for the resources that had none.
    pub bindings: Seq<CaptureBindingView>,
    /// A report of each of these bindings.
    pub added: Seq<ChangeView>,
    /// The collection names that are taken.
    pub used: Seq<Seq<char>>,
}

/// The pass over the discovered resources, in their order. A resource
/// whose identity no live binding has gets a binding to a collection of a
/// name that is not taken, and that name is taken from then on.
pub open spec fn add_pass(
    discovered: Seq<ResolvedView>,
    live: Seq<CaptureBindingView>,
    tenant: Seq<char>,
    used: Seq<Seq<char>>,
) -> AddPass
    decreases discovered.len(),
{
    if discovered.len() == 0 {
        AddPass { bindings: Seq::empty(), added: Seq::empty(), used }
    } else {
        let front = add_pass(discovered.drop_last(), live, tenant, used);
        let found = discovered.last();
        if any(live, bound_to(found.resource_identity)) {
            front
        } else {
            let target = fresh_collection_name(tenant, found.recommended_name, front.used);
            let b = new_binding(found, target);
            AddPass {
                bindings: front.bindings.push(b),
                added: front.added.push(change_of(b.binding)),
                used: front.used.push(target),
            }
        }
    }
}

/// The target names of the bindings.
pub open spec fn targets(bindings: Seq<CaptureBindingView>) -> Seq<Seq<char>> {
    bindings.map_values(|b: CaptureBindingView| b.binding.target_collection)
}

/// The result of a merge: what changed, and the bindings as they are to be.
#[derive(Debug, PartialEq, Eq)]
pub struct Merged {
    pub changes: Changes,
    /// The bindings after the merge, in the order of their target names.
    pub bindings: Vec<CaptureBinding>,
}

/// The mathematical value of [`Merged`].
pub struct MergedView {
    pub changes: ChangesView,
    pub bindings: Seq<CaptureBindingView>,
}

impl View for Merged {
    type V = MergedView;

    open spec fn view(&self) -> MergedView {
        MergedView { changes: self.changes@, bindings: capture_view(self.bindings@) }
    }
}

/// The merge of the discovered resources into the live bindings.
///
/// Bindings and resources are matched by identity. A matched binding is
/// merged with its resource; a binding without resource is removed; a
/// resource without binding gets one if `add_new` says so, and is passed
/// over if not. The collection of a new binding is named after the
/// tenant and the resource, and differently from every name in
/// `names_in_use`, from every live target and from the new targets before
/// it. The bindings come out in the order of their target names.
pub open spec fn merge_spec(
    live: Seq<CaptureBindingView>,
    discovered: Seq<ResolvedView>,
    add_new: bool,
    tenant: Seq<char>,
    names_in_use: Seq<Seq<char>>,
) -> MergedView {
    let kept = live_pass(live, discovered);
    let new = if add_new {
        add_pass(discovered, live, tenant, names_in_use + targets(live))
    } else {
        AddPass { bindings: Seq::empty(), added: Seq::empty(), used: names_in_use + targets(live) }
    };
    MergedView {
        changes: ChangesView { added: new.added, modified: kept.modified, removed: kept.removed },
        bindings: sort_by_target(kept.kept + new.bindings),
    }
}

/// The position of the first resource that has the identity of an
/// earlier one, where there is such a resource.
pub open spec fn first_repeat_index(discovered: Seq<ResolvedView>) -> int {
    choose|i: int| repeats(discovered, i) && forall|j: int| 0 <= j < i ==> !repeats(discovered, j)
}

/// At or before a resource that repeats an identity there is a first one
/// that does.
proof fn lemma_least_repeat(discovered: Seq<ResolvedView>, i: int)
    requires
        repeats(discovered, i),
    ensures
        exists|least: int|
            0 <= least <= i && #[trigger] repeats(discovered, least) && forall|j: int|
                0 <= j < least ==> !repeats(discovered, j),
    decreases i,
{
    if exists|k: int| 0 <= k < i && repeats(discovered, k) {
        let k = choose|k: int| 0 <= k < i && repeats(discovered, k);
        lemma_least_repeat(discovered, k);
    }
}

/// Where two resources have the same identity, there is a first resource
/// that has the identity of an earlier one, and `first_repeat_index` is
/// its position.
pub proof fn lemma_first_repeat(discovered: Seq<ResolvedView>)
    requires
        !distinct_identities(discovered),
    ensures
        0 < first_repeat_index(discovered) < discovered.len(),
        repeats(discovered, first_repeat_index(discovered)),
        forall|j: int| 0 <= j < first_repeat_index(discovered) ==> !repeats(discovered, j),
{
    let (i, j) = choose|i: int, j: int|
        0 <= i < j < discovered.len() && (#[trigger] discovered[i]).resource_identity == (
        #[trigger] discovered[j]).resource_identity;
    assert(repeats(discovered, j));
    lemma_least_repeat(discovered, j);
}

/// What a merge gives: an error where two discovered resources have the
/// same identity, which names the first resource that has the identity
/// of an earlier one; and otherwise the merge.
pub open spec fn merge_outcome(
    live: Seq<CaptureBindingView>,
    discovered: Seq<ResolvedView>,
    add_new: bool,
    tenant: Seq<char>,
    names_in_use: Seq<Seq<char>>,
) -> Result<MergedView, DiscoverError> {
    if distinct_identities(discovered) {
        Ok(merge_spec(live, discovered, add_new, tenant, names_in_use))
    } else {
        Err(DiscoverError::DuplicateIdentity(first_repeat_index(discovered) as usize))
    }
}

/// The view of what a merge gives.
pub open spec fn merge_view(r: Result<Merged, DiscoverError>) -> Result<MergedView, DiscoverError> {
    match r {
        Ok(merged) => Ok(merged@),
        Err(e) => Err(e),
    }
}

/// The position of the first resource of that identity.
pub fn find_resource(discovered: &Vec<ResolvedResource>, identity: &Vec<String>) -> (r: Option<
    usize,
>)
    ensures
        match r {
            Some(i) => find_first(resolved_view(discovered@), has_identity(strings_view(identity@)))
                == Some(i as int) && i < discovered@.len(),
            None => find_first(resolved_view(discovered@), has_identity(strings_view(identity@)))
                is None,
        },
{
    let ghost views = resolved_view(discovered@);
    let ghost wanted = has_identity(strings_view(identity@));
    let mut i: usize = 0;
    while i < discovered.len()
        invariant
            i <= discovered@.len(),
            views == resolved_view(discovered@),
            wanted == has_identity(strings_view(identity@)),
            forall|j: int| 0 <= j < i ==> !wanted(views[j]),
        decreases discovered@.len() - i,
    {
        assert(views[i as int] == discovered@[i as int]@);
        if strings_equal(&discovered[i].resource_identity, identity) {
            proof {
                lemma_found_first(views, wanted, i as int);
            }
            return Some(i);
        }
        i += 1;
    }
    proof {
        lemma_found_none(views, wanted);
    }
    None
}

/// Whether some binding has that identity.
pub fn is_bound(live: &Vec<CaptureBinding>, identity: &Vec<String>) -> (r: bool)
    ensures
        r == any(capture_view(live@), bound_to(strings_view(identity@))),
{
    let ghost views = capture_view(live@);
    let ghost wanted = bound_to(strings_view(identity@));
    let mut i: usize = 0;
    while i < live.len()
        invariant
            i <= live@.len(),
            views == capture_view(live@),
            wanted == bound_to(strings_view(identity@)),
            forall|j: int| 0 <= j < i ==> !wanted(views[j]),
        decreases live@.len() - i,
    {
        assert(views[i as int] == live@[i as int]@);
        if strings_equal(&live[i].binding.resource_identity, identity) {
            proof {
                lemma_found_first(views, wanted, i as int);
            }
            return true;
        }
        i += 1;
    }
    proof {
        lemma_found_none(views, wanted);
    }
    false
}

/// The position of the first resource that has the identity of an
/// earlier one.
pub fn first_repeat(discovered: &Vec<ResolvedResource>) -> (r: Option<usize>)
    ensures
        match r {
            Some(i) => repeats(resolved_view(discovered@), i as int) && forall|j: int|
                0 <= j < i ==> !repeats(resolved_view(discovered@), j),
            None => distinct_identities(resolved_view(discovered@)),
        },
{
    let ghost views = resolved_view(discovered@);
    let mut i: usize = 0;
    while i < discovered.len()
        invariant
            i <= discovered@.len(),
            views == resolved_view(discovered@),
            forall|a: int, b: int|
                0 <= a < b < i ==> (#[trigger] views[a]).resource_identity != (
                #[trigger] views[b]).resource_identity,
        decreases discovered@.len() - i,
    {
        let mut j: usize = 0;
        while j < i
            invariant
                j <= i < discovered@.len(),
                views == resolved_view(discovered@),
                forall|a: int, b: int|
                    0 <= a < b < i ==> (#[trigger] views[a]).resource_identity != (
                    #[trigger] views[b]).resource_identity,
                forall|a: int|
                    0 <= a < j ==> (#[trigger] views[a]).resource_identity
                        != views[i as int].resource_identity,
            decreases i - j,
        {
            assert(views[i as int] == discovered@[i as int]@);
            assert(views[j as int] == discovered@[j as int]@);
            if strings_equal(&discovered[j].resource_identity, &discovered[i].resource_identity) {
                proof {
                    assert(repeats(views, i as int));
                    assert forall|b: int| 0 <= b < i implies !repeats(views, b) by {
                        if repeats(views, b) {
                            let a = choose|a: int|
                                0 <= a < b && (#[trigger] views[a]).resource_identity
                                    == views[b].resource_identity;
                            assert(views[a].resource_identity != views[b].resource_identity);
                        }
                    }
                }
                return Some(i);
            }
            j += 1;
        }
        i += 1;
    }
    None
}

/// Merges a live binding with the resource that it is bound to.
pub fn merge_pair(live: &CaptureBinding, found: &ResolvedResource) -> (r: CaptureBinding)
    ensures
        r@ == merged_binding(live@, found@),
{
    CaptureBinding {
        binding: Binding {
            resource_identity: clone_strings(&live.binding.resource_identity),
            resource_config: merge_config(&live.binding.resource_config, &found.resource_config),
            target_collection: live.binding.target_collection.clone(),
            disable: live.binding.disable || found.disable,
            backfill: live.binding.backfill,
        },
        document_schema: found.document_schema.clone(),
        key: clone_strings(&found.key),
    }
}

/// Whether the merge with its resource modifies a live binding.
pub fn pair_modified(live: &CaptureBinding, found: &ResolvedResource) -> (r: bool)
    ensures
        r == is_modified(live@, found@),
{
    live.document_schema != found.document_schema || !strings_equal(&live.key, &found.key) || (
    !live.binding.disable && found.disable)
}

/// Makes the binding of a newly discovered resource to the collection
/// `target`.
pub fn bind_new(found: &ResolvedResource, target: String) -> (r: CaptureBinding)
    ensures
        r@ == new_binding(found@, target@),
{
    CaptureBinding {
        binding: Binding {
            resource_identity: clone_strings(&found.resource_identity),
            resource_config: found.resource_config.clone(),
            target_collection: target,
            disable: found.disable,
            backfill: 0,
        },
        document_schema: found.document_schema.clone(),
        key: clone_strings(&found.key),
    }
}

/// Merges what the connector discovered into the live bindings of a
/// capture.
///
/// Two discovered resources of one identity are an error, and nothing is
/// merged then. Otherwise the result is that of [`merge_spec`].
pub fn merge_bindings(
    live: &Vec<CaptureBinding>,
    discovered: &Vec<ResolvedResource>,
    add_new_bindings: bool,
    tenant: &str,
    names_in_use: &Vec<String>,
) -> (r: Result<Merged, DiscoverError>)
    ensures
        merge_view(r) == merge_outcome(
            capture_view(live@),
            resolved_view(discovered@),
            add_new_bindings,
            tenant@,
            strings_view(names_in_use@),
        ),
        r matches Ok(merged) ==> targets_ordered(merged@.bindings),
{
    match first_repeat(discovered) {
        Some(i) => {
            proof {
                let views = resolved_view(discovered@);
                let first = first_repeat_index(views);
                assert(repeats(views, first) && forall|j: int|
                    0 <= j < first ==> !repeats(views, j));
                assert(first == i);
                let j = choose|j: int|
                    0 <= j < i && (#[trigger] views[j]).resource_identity
                        == views[i as int].resource_identity;
                assert(!distinct_identities(views));
            }
            return Err(DiscoverError::DuplicateIdentity(i));
        },
        None => {},
    }
    let ghost old_bindings = capture_view(live@);
    let ghost found = resolved_view(discovered@);
    let ghost names = strings_view(names_in_use@);
    let mut bindings: Vec<CaptureBinding> = Vec::new();
    let mut modified: Vec<DiscoverChange> = Vec::new();
    let mut removed: Vec<DiscoverChange> = Vec::new();
    let mut used = clone_strings(names_in_use);
    let mut i: usize = 0;
    proof {
        assert(old_bindings.take(0) =~= Seq::<CaptureBindingView>::empty());
        assert(capture_view(bindings@) =~= Seq::<CaptureBindingView>::empty());
        assert(changes_view(modified@) =~= Seq::<ChangeView>::empty());
        assert(changes_view(removed@) =~= Seq::<ChangeView>::empty());
        assert(strings_view(used@) =~= names + targets(old_bindings.take(0)));
    }
    while i < live.len()
        invariant
            i <= live@.len(),
            old_bindings == capture_view(live@),
            found == resolved_view(discovered@),
            capture_view(bindings@) == sort_by_target(
                live_pass(old_bindings.take(i as int), found).kept,
            ),
            changes_view(modified@) == live_pass(old_bindings.take(i as int), found).modified,
            changes_view(removed@) == live_pass(old_bindings.take(i as int), found).removed,
            strings_view(used@) == names + targets(old_bindings.take(i as int)),
        decreases live@.len() - i,
    {
        let b = &live[i];
        proof {
            assert(old_bindings.take(i + 1).drop_last() =~= old_bindings.take(i as int));
            assert(old_bindings.take(i + 1).last() == b@);
            assert(targets(old_bindings.take(i + 1)) =~= targets(old_bindings.take(i as int)).push(
                b@.binding.target_collection,
            ));
        }
        let ghost used_before = strings_view(used@);
        used.push(b.binding.target_collection.clone());
        assert(strings_view(used@) =~= used_before.push(b@.binding.target_collection));
        match find_resource(discovered, &b.binding.resource_identity) {
            Some(j) => {
                assert(found[j as int] == discovered@[j as int]@);
                let merged = merge_pair(b, &discovered[j]);
                if pair_modified(b, &discovered[j]) {
                    let ghost before = changes_view(modified@);
                    modified.push(DiscoverChange::of(&merged.binding));
                    assert(changes_view(modified@) =~= before.push(change_of(merged@.binding)));
                }
                proof {
                    let front = live_pass(old_bindings.take(i as int), found).kept;
                    assert(front.push(merged@).drop_last() =~= front);
                }
                insert_sorted(&mut bindings, merged);
            },
            None => {
                let ghost before = changes_view(removed@);
                removed.push(DiscoverChange::of(&b.binding));
                assert(changes_view(removed@) =~= before.push(change_of(b@.binding)));
            },
        }
        i += 1;
    }
    assert(old_bindings.take(live@.len() as int) =~= old_bindings);
    let ghost kept = live_pass(old_bindings, found).kept;
    let ghost used0 = names + targets(old_bindings);
    let mut added: Vec<DiscoverChange> = Vec::new();
    proof {
        assert(changes_view(added@) =~= Seq::<ChangeView>::empty());
        assert(kept + Seq::<CaptureBindingView>::empty() =~= kept);
    }
    if add_new_bindings {
        let mut k: usize = 0;
        assert(found.take(0) =~= Seq::<ResolvedView>::empty());
        while k < discovered.len()
            invariant
                k <= discovered@.len(),
                old_bindings == capture_view(live@),
                found == resolved_view(discovered@),
                capture_view(bindings@) == sort_by_target(
                    kept + add_pass(found.take(k as int), old_bindings, tenant@, used0).bindings,
                ),
                changes_view(added@) == add_pass(
                    found.take(k as int),
                    old_bindings,
                    tenant@,
                    used0,
                ).added,
                strings_view(used@) == add_pass(
                    found.take(k as int),
                    old_bindings,
                    tenant@,
                    used0,
                ).used,
            decreases discovered@.len() - k,
        {
            let d = &discovered[k];
            proof {
                assert(found.take(k + 1).drop_last() =~= found.take(k as int));
                assert(found.take(k + 1).last() == d@);
            }
            if !is_bound(live, &d.resource_identity) {
                let ghost front = add_pass(found.take(k as int), old_bindings, tenant@, used0);
                let target = name_new_collection(tenant, d.recommended_name.as_str(), &used);
                let ghost used_before = strings_view(used@);
                used.push(target.clone());
                assert(strings_view(used@) =~= used_before.push(target@));
                let b = bind_new(d, target);
                let ghost before = changes_view(added@);
                added.push(DiscoverChange::of(&b.binding));
                assert(changes_view(added@) =~= before.push(change_of(b@.binding)));
                proof {
                    let all = kept + front.bindings.push(b@);
                    assert(all.drop_last() =~= kept + front.bindings);
                    assert(all.last() == b@);
                }
                insert_sorted(&mut bindings, b);
            }
            k += 1;
        }
        assert(found.take(discovered@.len() as int) =~= found);
    }
    proof {
        let m = merge_spec(old_bindings, found, add_new_bindings, tenant@, names);
        lemma_sort_ordered(
            live_pass(old_bindings, found).kept + (if add_new_bindings {
                add_pass(found, old_bindings, tenant@, used0).bindings
            } else {
                Seq::empty()
            }),
        );
    }
    Ok(Merged { changes: Changes { added, modified, removed }, bindings })
}

impl Clone for Merged {
    fn clone(&self) -> (r: Merged)
        ensures
            r@ == self@,
    {
        Merged { changes: self.changes.clone(), bindings: clone_bindings(&self.bindings) }
    }
}

} // verus!
