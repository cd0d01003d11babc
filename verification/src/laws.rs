//! What holds of every merge.

use vstd::prelude::*;
use crate::config::{
    field_named, has_field, lemma_merge_idempotent, lemma_merge_nothing_new, merged_fields,
    FieldView,
};
use crate::merge::{
    add_pass, bound_to, distinct_identities, has_identity, is_modified, live_pass, merge_spec,
    merged_binding, new_binding, targets, AddPass, LivePass, MergedView,
};
use crate::model::{change_of, CaptureBindingView, ChangesView, ResolvedView};
use crate::naming::{collection_name, fresh_collection_name, lemma_unused_name};
use crate::order::{
    lemma_sort_contains, lemma_sort_of_ordered, lemma_sort_ordered, lemma_sort_pairwise, pairwise,
};
use crate::search::{any, find_first, lemma_any, lemma_found_first};

verus! {

/// What a live binding is kept as: merged with the first resource of its
/// identity; `None` where there is no such resource.
pub open spec fn kept_as(b: CaptureBindingView, discovered: Seq<ResolvedView>) -> Option<
    CaptureBindingView,
> {
    match find_first(discovered, has_identity(b.binding.resource_identity)) {
        Some(j) => Some(merged_binding(b, discovered[j])),
        None => None,
    }
}

/// Whether `x` is the binding that was made for the resource `found`.
pub open spec fn is_new_for(x: CaptureBindingView, found: ResolvedView) -> bool {
    x == new_binding(found, x.binding.target_collection)
}

/// What a sequence holds after one more element is appended.
proof fn lemma_push_contains<T>(s: Seq<T>, x: T, y: T)
    ensures
        s.push(x).contains(y) <==> s.contains(y) || y == x,
{
    let t = s.push(x);
    assert(t[s.len() as int] == x);
    assert(forall|i: int| 0 <= i < s.len() ==> t[i] == s[i]);
    if s.contains(y) {
        let i = choose|i: int| 0 <= i < s.len() && s[i] == y;
        assert(t[i] == y);
    }
}

/// What two sequences hold one after the other.
proof fn lemma_concat_contains<T>(a: Seq<T>, b: Seq<T>, y: T)
    ensures
        (a + b).contains(y) <==> a.contains(y) || b.contains(y),
{
    let t = a + b;
    if a.contains(y) {
        let i = choose|i: int| 0 <= i < a.len() && a[i] == y;
        assert(t[i] == y);
    }
    if b.contains(y) {
        let i = choose|i: int| 0 <= i < b.len() && b[i] == y;
        assert(t[a.len() + i] == y);
    }
    if t.contains(y) {
        let i = choose|i: int| 0 <= i < t.len() && t[i] == y;
        if i < a.len() {
            assert(a[i] == y);
        } else {
            assert(b[i - a.len()] == y);
        }
    }
}

/// The kept bindings are the live bindings that have a resource, each
/// merged with it.
pub proof fn lemma_kept(
    live: Seq<CaptureBindingView>,
    discovered: Seq<ResolvedView>,
    x: CaptureBindingView,
)
    ensures
        live_pass(live, discovered).kept.contains(x) <==> exists|i: int|
            0 <= i < live.len() && kept_as(#[trigger] live[i], discovered) == Some(x),
    decreases live.len(),
{
    if live.len() > 0 {
        let front = live.drop_last();
        let b = live.last();
        lemma_kept(front, discovered, x);
        assert(forall|i: int| 0 <= i < front.len() ==> front[i] == live[i]);
        let before = live_pass(front, discovered).kept;
        match kept_as(b, discovered) {
            Some(m) => {
                lemma_push_contains(before, m, x);
            },
            None => {},
        }
        if live_pass(live, discovered).kept.contains(x) {
            if before.contains(x) {
                let i = choose|i: int|
                    0 <= i < front.len() && kept_as(#[trigger] front[i], discovered) == Some(x);
                assert(kept_as(live[i], discovered) == Some(x));
            } else {
                assert(kept_as(live[live.len() - 1], discovered) == Some(x));
            }
        }
        if exists|i: int| 0 <= i < live.len() && kept_as(#[trigger] live[i], discovered) == Some(x) {
            let i = choose|i: int|
                0 <= i < live.len() && kept_as(#[trigger] live[i], discovered) == Some(x);
            if i < front.len() {
                assert(kept_as(front[i], discovered) == Some(x));
            }
        }
    }
}

/// The added bindings are those made for the resources that no live
/// binding is bound to.
pub proof fn lemma_added(
    discovered: Seq<ResolvedView>,
    live: Seq<CaptureBindingView>,
    tenant: Seq<char>,
    used: Seq<Seq<char>>,
    x: CaptureBindingView,
)
    ensures
        add_pass(discovered, live, tenant, used).bindings.contains(x) ==> exists|k: int|
            0 <= k < discovered.len() && !any(live, bound_to(discovered[k].resource_identity))
                && is_new_for(x, #[trigger] discovered[k]),
    decreases discovered.len(),
{
    if discovered.len() > 0 {
        let front = discovered.drop_last();
        let found = discovered.last();
        lemma_added(front, live, tenant, used, x);
        assert(forall|k: int| 0 <= k < front.len() ==> front[k] == discovered[k]);
        let before = add_pass(front, live, tenant, used);
        if add_pass(discovered, live, tenant, used).bindings.contains(x) {
            if before.bindings.contains(x) {
                let k = choose|k: int|
                    0 <= k < front.len() && !any(live, bound_to(front[k].resource_identity))
                        && is_new_for(x, #[trigger] front[k]);
                assert(is_new_for(x, discovered[k]));
            } else {
                let target = crate::naming::fresh_collection_name(
                    tenant,
                    found.recommended_name,
                    before.used,
                );
                lemma_push_contains(before.bindings, new_binding(found, target), x);
                assert(is_new_for(x, discovered[discovered.len() - 1]));
            }
        }
    }
}

/// Every resource that no live binding is bound to has a binding among
/// the added ones.
pub proof fn lemma_added_all(
    discovered: Seq<ResolvedView>,
    live: Seq<CaptureBindingView>,
    tenant: Seq<char>,
    used: Seq<Seq<char>>,
    k: int,
)
    requires
        0 <= k < discovered.len(),
        !any(live, bound_to(discovered[k].resource_identity)),
    ensures
        exists|x: CaptureBindingView|
            #[trigger] add_pass(discovered, live, tenant, used).bindings.contains(x) && is_new_for(
                x,
                discovered[k],
            ),
    decreases discovered.len(),
{
    let front = discovered.drop_last();
    let found = discovered.last();
    let before = add_pass(front, live, tenant, used);
    let after = add_pass(discovered, live, tenant, used);
    if k < front.len() {
        assert(front[k] == discovered[k]);
        lemma_added_all(front, live, tenant, used, k);
        let x = choose|x: CaptureBindingView|
            #[trigger] before.bindings.contains(x) && is_new_for(x, front[k]);
        if !any(live, bound_to(found.resource_identity)) {
            let target = crate::naming::fresh_collection_name(
                tenant,
                found.recommended_name,
                before.used,
            );
            lemma_push_contains(before.bindings, new_binding(found, target), x);
        }
        assert(after.bindings.contains(x));
    } else {
        let target = fresh_collection_name(tenant, found.recommended_name, before.used);
        let x = new_binding(found, target);
        lemma_push_contains(before.bindings, x, x);
        assert(after.bindings.contains(x) && is_new_for(x, discovered[k]));
    }
}

/// The condition of having a resource among `discovered`.
pub open spec fn has_resource(discovered: Seq<ResolvedView>) -> spec_fn(CaptureBindingView) -> bool {
    |b: CaptureBindingView| kept_as(b, discovered) is Some
}

/// The condition of having no resource among `discovered`.
pub open spec fn lost(discovered: Seq<ResolvedView>) -> spec_fn(CaptureBindingView) -> bool {
    |b: CaptureBindingView| kept_as(b, discovered) is None
}

/// The condition of being modified by the merge with one's resource.
pub open spec fn changed(discovered: Seq<ResolvedView>) -> spec_fn(CaptureBindingView) -> bool {
    |b: CaptureBindingView|
        match find_first(discovered, has_identity(b.binding.resource_identity)) {
            Some(j) => is_modified(b, discovered[j]),
            None => false,
        }
}

/// What the pass over the live bindings gives, list by list. The kept
/// bindings are the live bindings that have a resource, each merged with
/// it; the modifications report those of them that the merge modifies, as
/// they are after it; and the removals report the live bindings that have
/// no resource. Each list is in the order of the live bindings.
pub proof fn lemma_live_pass_lists(live: Seq<CaptureBindingView>, discovered: Seq<ResolvedView>)
    ensures
        live_pass(live, discovered).kept == live.filter(has_resource(discovered)).map_values(
            |b: CaptureBindingView| kept_as(b, discovered)->0,
        ),
        live_pass(live, discovered).modified == live.filter(changed(discovered)).map_values(
            |b: CaptureBindingView| change_of(kept_as(b, discovered)->0.binding),
        ),
        live_pass(live, discovered).removed == live.filter(lost(discovered)).map_values(
            |b: CaptureBindingView| change_of(b.binding),
        ),
    decreases live.len(),
{
    let merge = |b: CaptureBindingView| kept_as(b, discovered)->0;
    let report = |b: CaptureBindingView| change_of(kept_as(b, discovered)->0.binding);
    let gone = |b: CaptureBindingView| change_of(b.binding);
    if live.len() == 0 {
        assert(live.filter(has_resource(discovered)) =~= Seq::empty()) by {
            live.lemma_filter_len(has_resource(discovered));
        }
        assert(live.filter(changed(discovered)) =~= Seq::empty()) by {
            live.lemma_filter_len(changed(discovered));
        }
        assert(live.filter(lost(discovered)) =~= Seq::empty()) by {
            live.lemma_filter_len(lost(discovered));
        }
        assert(live_pass(live, discovered).kept =~= Seq::<CaptureBindingView>::empty().map_values(
            merge,
        ));
        assert(live_pass(live, discovered).modified =~= Seq::<CaptureBindingView>::empty().map_values(
            report,
        ));
        assert(live_pass(live, discovered).removed =~= Seq::<CaptureBindingView>::empty().map_values(
            gone,
        ));
    } else {
        let front = live.drop_last();
        let b = live.last();
        lemma_live_pass_lists(front, discovered);
        assert(front.push(b) =~= live);
        front.lemma_filter_push(b, has_resource(discovered));
        front.lemma_filter_push(b, changed(discovered));
        front.lemma_filter_push(b, lost(discovered));
        let kept = front.filter(has_resource(discovered));
        let modified = front.filter(changed(discovered));
        let removed = front.filter(lost(discovered));
        assert(kept.push(b).map_values(merge) =~= kept.map_values(merge).push(merge(b)));
        assert(modified.push(b).map_values(report) =~= modified.map_values(report).push(report(b)));
        assert(removed.push(b).map_values(gone) =~= removed.map_values(gone).push(gone(b)));
    }
}

/// Every binding that a merge gives is a kept live binding or one made
/// for a resource that no live binding is bound to.
pub proof fn lemma_merged_origin(
    live: Seq<CaptureBindingView>,
    discovered: Seq<ResolvedView>,
    add_new: bool,
    tenant: Seq<char>,
    names_in_use: Seq<Seq<char>>,
    x: CaptureBindingView,
)
    requires
        merge_spec(live, discovered, add_new, tenant, names_in_use).bindings.contains(x),
    ensures
        (exists|i: int| 0 <= i < live.len() && kept_as(#[trigger] live[i], discovered) == Some(x)) || (
        add_new && exists|k: int|
            0 <= k < discovered.len() && !any(live, bound_to(discovered[k].resource_identity))
                && is_new_for(x, #[trigger] discovered[k])),
{
    let kept = live_pass(live, discovered).kept;
    let used = names_in_use + targets(live);
    let new = if add_new {
        add_pass(discovered, live, tenant, used).bindings
    } else {
        Seq::empty()
    };
    lemma_sort_contains(kept + new, x);
    lemma_concat_contains(kept, new, x);
    lemma_kept(live, discovered, x);
    if add_new {
        lemma_added(discovered, live, tenant, used, x);
    }
}

/// No two live bindings have the same identity.
pub open spec fn distinct_bindings(live: Seq<CaptureBindingView>) -> bool {
    forall|i: int, j: int|
        0 <= i < j < live.len() ==> (#[trigger] live[i]).binding.resource_identity != (
        #[trigger] live[j]).binding.resource_identity
}

/// Disable is sticky. Whatever the connector reports, and whether or not
/// new bindings are added: after a merge, the binding of the identity of
/// a disabled live binding is disabled.
pub proof fn lemma_disable_is_sticky(
    live: Seq<CaptureBindingView>,
    discovered: Seq<ResolvedView>,
    add_new: bool,
    tenant: Seq<char>,
    names_in_use: Seq<Seq<char>>,
    i: int,
    x: CaptureBindingView,
)
    requires
        distinct_bindings(live),
        0 <= i < live.len(),
        live[i].binding.disable,
        merge_spec(live, discovered, add_new, tenant, names_in_use).bindings.contains(x),
        x.binding.resource_identity == live[i].binding.resource_identity,
    ensures
        x.binding.disable,
{
    lemma_merged_origin(live, discovered, add_new, tenant, names_in_use, x);
    if exists|j: int| 0 <= j < live.len() && kept_as(#[trigger] live[j], discovered) == Some(x) {
        let j = choose|j: int|
            0 <= j < live.len() && kept_as(#[trigger] live[j], discovered) == Some(x);
        assert(live[j].binding.resource_identity == live[i].binding.resource_identity);
        assert(i == j);
    } else {
        let k = choose|k: int|
            0 <= k < discovered.len() && !any(live, bound_to(discovered[k].resource_identity))
                && is_new_for(x, #[trigger] discovered[k]);
        lemma_any(live, bound_to(discovered[k].resource_identity));
        assert(bound_to(discovered[k].resource_identity)(live[i]));
    }
}

/// Additions are gated. Where new bindings are not to be added, a merge
/// reports none as added, and every binding that it gives has the
/// identity of a live binding: a resource that no live binding is bound
/// to does not appear.
pub proof fn lemma_additions_gated(
    live: Seq<CaptureBindingView>,
    discovered: Seq<ResolvedView>,
    tenant: Seq<char>,
    names_in_use: Seq<Seq<char>>,
)
    ensures
        merge_spec(live, discovered, false, tenant, names_in_use).changes.added.len() == 0,
        forall|x: CaptureBindingView|
            #[trigger] merge_spec(live, discovered, false, tenant, names_in_use).bindings.contains(x)
                ==> any(live, bound_to(x.binding.resource_identity)),
{
    let merged = merge_spec(live, discovered, false, tenant, names_in_use);
    assert forall|x: CaptureBindingView| #[trigger] merged.bindings.contains(x) implies any(
        live,
        bound_to(x.binding.resource_identity),
    ) by {
        lemma_merged_origin(live, discovered, false, tenant, names_in_use, x);
        let i = choose|i: int|
            0 <= i < live.len() && kept_as(#[trigger] live[i], discovered) == Some(x);
        lemma_any(live, bound_to(x.binding.resource_identity));
        assert(bound_to(x.binding.resource_identity)(live[i]));
    }
}

/// Whether a merge with `discovered` leaves the binding as it is and
/// reports nothing of it: it has a resource, is equal to its merge with
/// that resource, and is not modified by it.
pub open spec fn settled(x: CaptureBindingView, discovered: Seq<ResolvedView>) -> bool {
    match find_first(discovered, has_identity(x.binding.resource_identity)) {
        Some(j) => merged_binding(x, discovered[j]) == x && !is_modified(x, discovered[j]),
        None => false,
    }
}

/// A configuration merged with itself is itself.
proof fn lemma_merge_with_itself(fields: Seq<FieldView>)
    ensures
        merged_fields(fields, fields) == fields,
{
    assert forall|i: int| 0 <= i < fields.len() implies has_field(
        fields,
        #[trigger] fields[i].name,
    ) by {
        lemma_any(fields, field_named(fields[i].name));
        assert(field_named(fields[i].name)(fields[i]));
    }
    lemma_merge_nothing_new(fields, fields);
}

/// A binding that was merged with a resource is settled with it.
pub proof fn lemma_merged_is_settled(b: CaptureBindingView, found: ResolvedView)
    ensures
        merged_binding(merged_binding(b, found), found) == merged_binding(b, found),
        !is_modified(merged_binding(b, found), found),
{
    lemma_merge_idempotent(b.binding.resource_config, found.resource_config);
}

/// A binding that was made for a resource is settled with it.
pub proof fn lemma_new_is_settled(found: ResolvedView, target: Seq<char>)
    ensures
        merged_binding(new_binding(found, target), found) == new_binding(found, target),
        !is_modified(new_binding(found, target), found),
{
    lemma_merge_with_itself(found.resource_config);
}

/// The pass over bindings that are settled keeps them as they are.
proof fn lemma_pass_over_settled(bindings: Seq<CaptureBindingView>, discovered: Seq<ResolvedView>)
    requires
        forall|i: int| 0 <= i < bindings.len() ==> settled(#[trigger] bindings[i], discovered),
    ensures
        live_pass(bindings, discovered) == (LivePass {
            kept: bindings,
            modified: Seq::empty(),
            removed: Seq::empty(),
        }),
    decreases bindings.len(),
{
    if bindings.len() > 0 {
        let front = bindings.drop_last();
        assert(forall|i: int| 0 <= i < front.len() ==> front[i] == bindings[i]);
        lemma_pass_over_settled(front, discovered);
        assert(settled(bindings[bindings.len() - 1], discovered));
        assert(front.push(bindings.last()) =~= bindings);
    } else {
        assert(bindings =~= Seq::<CaptureBindingView>::empty());
    }
}

/// The pass over resources that are all bound adds nothing.
proof fn lemma_pass_over_bound(
    discovered: Seq<ResolvedView>,
    bindings: Seq<CaptureBindingView>,
    tenant: Seq<char>,
    used: Seq<Seq<char>>,
)
    requires
        forall|k: int|
            0 <= k < discovered.len() ==> any(
                bindings,
                bound_to((#[trigger] discovered[k]).resource_identity),
            ),
    ensures
        add_pass(discovered, bindings, tenant, used) == (AddPass {
            bindings: Seq::empty(),
            added: Seq::empty(),
            used,
        }),
    decreases discovered.len(),
{
    if discovered.len() > 0 {
        let front = discovered.drop_last();
        assert(forall|k: int| 0 <= k < front.len() ==> front[k] == discovered[k]);
        lemma_pass_over_bound(front, bindings, tenant, used);
        assert(any(bindings, bound_to(discovered[discovered.len() - 1].resource_identity)));
    }
}

/// A merge of what is already there changes nothing. Where every binding
/// is settled with the discovered resources, the bindings stand in the
/// order of their targets, and every resource is bound or none is to be
/// added, a merge adds, modifies and removes nothing, and gives the
/// bindings as they are.
pub proof fn lemma_settled_bindings_stay(
    live: Seq<CaptureBindingView>,
    discovered: Seq<ResolvedView>,
    add_new: bool,
    tenant: Seq<char>,
    names_in_use: Seq<Seq<char>>,
)
    requires
        forall|i: int| 0 <= i < live.len() ==> settled(#[trigger] live[i], discovered),
        crate::order::targets_ordered(live),
        add_new ==> forall|k: int|
            0 <= k < discovered.len() ==> any(
                live,
                bound_to((#[trigger] discovered[k]).resource_identity),
            ),
    ensures
        merge_spec(live, discovered, add_new, tenant, names_in_use) == (MergedView {
            changes: ChangesView {
                added: Seq::empty(),
                modified: Seq::empty(),
                removed: Seq::empty(),
            },
            bindings: live,
        }),
{
    lemma_pass_over_settled(live, discovered);
    lemma_sort_of_ordered(live);
    assert(live + Seq::<CaptureBindingView>::empty() =~= live);
    if add_new {
        lemma_pass_over_bound(discovered, live, tenant, names_in_use + targets(live));
    }
}

/// A merge settles the bindings. Every binding that a merge gives is
/// settled with the resources of the merge; where new bindings are to be
/// added, every resource is bound after the merge; and the bindings stand
/// in the order of their targets.
pub proof fn lemma_merge_settles(
    live: Seq<CaptureBindingView>,
    discovered: Seq<ResolvedView>,
    add_new: bool,
    tenant: Seq<char>,
    names_in_use: Seq<Seq<char>>,
)
    requires
        distinct_identities(discovered),
    ensures
        ({
            let result = merge_spec(live, discovered, add_new, tenant, names_in_use).bindings;
            &&& forall|i: int| 0 <= i < result.len() ==> settled(#[trigger] result[i], discovered)
            &&& add_new ==> forall|k: int|
                0 <= k < discovered.len() ==> any(
                    result,
                    bound_to((#[trigger] discovered[k]).resource_identity),
                )
            &&& crate::order::targets_ordered(result)
        }),
{
    let result = merge_spec(live, discovered, add_new, tenant, names_in_use).bindings;
    let kept = live_pass(live, discovered).kept;
    let used = names_in_use + targets(live);
    let new = if add_new {
        add_pass(discovered, live, tenant, used).bindings
    } else {
        Seq::empty()
    };
    assert forall|i: int| 0 <= i < result.len() implies settled(
        #[trigger] result[i],
        discovered,
    ) by {
        let x = result[i];
        assert(result.contains(x));
        lemma_merged_origin(live, discovered, add_new, tenant, names_in_use, x);
        if exists|j: int| 0 <= j < live.len() && kept_as(#[trigger] live[j], discovered) == Some(x) {
            let j = choose|j: int|
                0 <= j < live.len() && kept_as(#[trigger] live[j], discovered) == Some(x);
            let at = find_first(discovered, has_identity(live[j].binding.resource_identity))->0;
            lemma_merged_is_settled(live[j], discovered[at]);
        } else {
            let k = choose|k: int|
                0 <= k < discovered.len() && !any(live, bound_to(discovered[k].resource_identity))
                    && is_new_for(x, #[trigger] discovered[k]);
            let same = has_identity(discovered[k].resource_identity);
            assert(same(discovered[k]));
            assert forall|j: int| 0 <= j < k implies !same(discovered[j]) by {
                assert(discovered[j].resource_identity != discovered[k].resource_identity);
            }
            lemma_found_first(discovered, same, k);
            lemma_new_is_settled(discovered[k], x.binding.target_collection);
        }
    }
    lemma_sort_ordered(kept + new);
    if add_new {
        assert forall|k: int| 0 <= k < discovered.len() implies any(
            result,
            bound_to((#[trigger] discovered[k]).resource_identity),
        ) by {
            let identity = discovered[k].resource_identity;
            lemma_any(live, bound_to(identity));
            lemma_any(result, bound_to(identity));
            let x = if any(live, bound_to(identity)) {
                let j = choose|j: int| 0 <= j < live.len() && bound_to(identity)(live[j]);
                assert(has_identity(identity)(discovered[k]));
                lemma_any(discovered, has_identity(identity));
                let x = kept_as(live[j], discovered)->0;
                lemma_kept(live, discovered, x);
                x
            } else {
                lemma_added_all(discovered, live, tenant, used, k);
                choose|x: CaptureBindingView|
                    #[trigger] add_pass(discovered, live, tenant, used).bindings.contains(x)
                        && is_new_for(x, discovered[k])
            };
            lemma_concat_contains(kept, new, x);
            lemma_sort_contains(kept + new, x);
            let at = choose|at: int| 0 <= at < result.len() && result[at] == x;
            assert(bound_to(identity)(result[at]));
        }
    }
}

/// A merge is idempotent. Where the resources of a merge are merged once
/// more into the bindings that the merge gave, whatever names are taken
/// by then, nothing is added, modified or removed, and the bindings stay
/// as they are, so that there is nothing to publish.
pub proof fn lemma_merge_is_idempotent(
    live: Seq<CaptureBindingView>,
    discovered: Seq<ResolvedView>,
    add_new: bool,
    tenant: Seq<char>,
    names_in_use: Seq<Seq<char>>,
    names_after: Seq<Seq<char>>,
)
    requires
        distinct_identities(discovered),
    ensures
        ({
            let first = merge_spec(live, discovered, add_new, tenant, names_in_use);
            let second = merge_spec(first.bindings, discovered, add_new, tenant, names_after);
            second.changes.is_empty() && second.bindings == first.bindings
        }),
{
    let first = merge_spec(live, discovered, add_new, tenant, names_in_use);
    lemma_merge_settles(live, discovered, add_new, tenant, names_in_use);
    lemma_settled_bindings_stay(first.bindings, discovered, add_new, tenant, names_after);
}

/// The relation of having different identities.
pub open spec fn other_identity() -> spec_fn(CaptureBindingView, CaptureBindingView) -> bool {
    |a: CaptureBindingView, b: CaptureBindingView|
        a.binding.resource_identity != b.binding.resource_identity
}

/// The relation of having different targets.
pub open spec fn other_target() -> spec_fn(CaptureBindingView, CaptureBindingView) -> bool {
    |a: CaptureBindingView, b: CaptureBindingView|
        a.binding.target_collection != b.binding.target_collection
}

/// No two bindings have the same target.
pub open spec fn distinct_targets(bindings: Seq<CaptureBindingView>) -> bool {
    forall|i: int, j: int|
        0 <= i < j < bindings.len() ==> (#[trigger] bindings[i]).binding.target_collection != (
        #[trigger] bindings[j]).binding.target_collection
}

/// The name of a new collection is not taken.
pub proof fn lemma_fresh_collection_name(
    tenant: Seq<char>,
    recommended: Seq<char>,
    used: Seq<Seq<char>>,
)
    ensures
        !used.contains(fresh_collection_name(tenant, recommended, used)),
{
    lemma_unused_name(collection_name(tenant, recommended), seq!['_'], used, 2);
}

/// The names that the pass over the discovered resources gives: each new
/// binding has a target that was not taken at the start, no two of them
/// have the same, and at the end the targets of the new bindings are
/// taken besides what was.
pub proof fn lemma_added_targets(
    discovered: Seq<ResolvedView>,
    live: Seq<CaptureBindingView>,
    tenant: Seq<char>,
    used: Seq<Seq<char>>,
)
    ensures
        ({
            let new = add_pass(discovered, live, tenant, used);
            &&& new.used == used + targets(new.bindings)
            &&& new.added.len() == new.bindings.len()
            &&& forall|i: int|
                0 <= i < new.bindings.len() ==> !used.contains(
                    (#[trigger] new.bindings[i]).binding.target_collection,
                )
            &&& distinct_targets(new.bindings)
        }),
    decreases discovered.len(),
{
    if discovered.len() > 0 {
        let front = add_pass(discovered.drop_last(), live, tenant, used);
        let new = add_pass(discovered, live, tenant, used);
        let found = discovered.last();
        lemma_added_targets(discovered.drop_last(), live, tenant, used);
        if !any(live, bound_to(found.resource_identity)) {
            let target = fresh_collection_name(tenant, found.recommended_name, front.used);
            lemma_fresh_collection_name(tenant, found.recommended_name, front.used);
            assert(new.bindings == front.bindings.push(new_binding(found, target)));
            assert(targets(new.bindings) =~= targets(front.bindings).push(target));
            assert(new.used =~= used + targets(new.bindings));
            assert forall|i: int| 0 <= i < new.bindings.len() implies !used.contains(
                (#[trigger] new.bindings[i]).binding.target_collection,
            ) by {
                if i < front.bindings.len() {
                    assert(new.bindings[i] == front.bindings[i]);
                } else if used.contains(target) {
                    let k = choose|k: int| 0 <= k < used.len() && used[k] == target;
                    assert(front.used[k] == target);
                }
            }
            assert forall|i: int, j: int| 0 <= i < j < new.bindings.len() implies (
            #[trigger] new.bindings[i]).binding.target_collection != (
            #[trigger] new.bindings[j]).binding.target_collection by {
                assert(new.bindings[i] == front.bindings[i]);
                if j < front.bindings.len() {
                    assert(new.bindings[j] == front.bindings[j]);
                } else {
                    assert(front.used[used.len() + i] == targets(front.bindings)[i]);
                }
            }
        }
    } else {
        assert(used + targets(Seq::<CaptureBindingView>::empty()) =~= used);
    }
}

/// The kept bindings are as far apart as the live bindings were.
proof fn lemma_kept_keeps(live: Seq<CaptureBindingView>, discovered: Seq<ResolvedView>)
    requires
        distinct_bindings(live),
    ensures
        pairwise(live_pass(live, discovered).kept, other_identity()),
        distinct_targets(live) ==> pairwise(live_pass(live, discovered).kept, other_target()),
    decreases live.len(),
{
    if live.len() > 0 {
        let front = live.drop_last();
        let b = live.last();
        assert(forall|i: int| 0 <= i < front.len() ==> front[i] == live[i]);
        lemma_kept_keeps(front, discovered);
        let before = live_pass(front, discovered).kept;
        let after = live_pass(live, discovered).kept;
        match kept_as(b, discovered) {
            Some(m) => {
                assert(after == before.push(m));
                assert forall|i: int| 0 <= i < before.len() implies other_identity()(before[i], m)
                    && other_identity()(m, before[i]) && (distinct_targets(live) ==> other_target()(
                    before[i],
                    m,
                ) && other_target()(m, before[i])) by {
                    assert(before.contains(before[i]));
                    lemma_kept(front, discovered, before[i]);
                    let k = choose|k: int|
                        0 <= k < front.len() && kept_as(#[trigger] front[k], discovered) == Some(
                            before[i],
                        );
                    assert(live[k].binding.resource_identity != live[live.len()
                        - 1].binding.resource_identity);
                    if distinct_targets(live) {
                        assert(live[k].binding.target_collection != live[live.len()
                            - 1].binding.target_collection);
                    }
                }
                assert forall|i: int, j: int|
                    0 <= i < after.len() && 0 <= j < after.len() && i != j implies other_identity()(
                    after[i],
                    after[j],
                ) && (distinct_targets(live) ==> other_target()(after[i], after[j])) by {
                    if i < before.len() && j < before.len() {
                        assert(after[i] == before[i] && after[j] == before[j]);
                        assert(other_identity()(before[i], before[j]));
                    } else if i < before.len() {
                        assert(after[i] == before[i]);
                    } else {
                        assert(after[j] == before[j]);
                    }
                }
            },
            None => {},
        }
    }
}

/// No two added bindings have the same identity.
proof fn lemma_added_keeps(
    discovered: Seq<ResolvedView>,
    live: Seq<CaptureBindingView>,
    tenant: Seq<char>,
    used: Seq<Seq<char>>,
)
    requires
        distinct_identities(discovered),
    ensures
        pairwise(add_pass(discovered, live, tenant, used).bindings, other_identity()),
    decreases discovered.len(),
{
    if discovered.len() > 0 {
        let rest = discovered.drop_last();
        let found = discovered.last();
        assert(forall|k: int| 0 <= k < rest.len() ==> rest[k] == discovered[k]);
        lemma_added_keeps(rest, live, tenant, used);
        let before = add_pass(rest, live, tenant, used).bindings;
        let after = add_pass(discovered, live, tenant, used).bindings;
        if !any(live, bound_to(found.resource_identity)) {
            let target = fresh_collection_name(
                tenant,
                found.recommended_name,
                add_pass(rest, live, tenant, used).used,
            );
            let b = new_binding(found, target);
            assert(after == before.push(b));
            assert forall|i: int| 0 <= i < before.len() implies other_identity()(before[i], b)
                && other_identity()(b, before[i]) by {
                assert(before.contains(before[i]));
                lemma_added(rest, live, tenant, used, before[i]);
                let k = choose|k: int|
                    0 <= k < rest.len() && !any(live, bound_to(rest[k].resource_identity))
                        && is_new_for(before[i], #[trigger] rest[k]);
                assert(discovered[k].resource_identity != discovered[discovered.len()
                    - 1].resource_identity);
            }
            assert forall|i: int, j: int|
                0 <= i < after.len() && 0 <= j < after.len() && i != j implies other_identity()(
                after[i],
                after[j],
            ) by {
                if i < before.len() && j < before.len() {
                    assert(after[i] == before[i] && after[j] == before[j]);
                    assert(other_identity()(before[i], before[j]));
                } else if i < before.len() {
                    assert(after[i] == before[i]);
                } else {
                    assert(after[j] == before[j]);
                }
            }
        }
    }
}

/// A merge keeps the bindings apart. Where no two live bindings have the
/// same identity, and no two discovered resources, no two bindings of the
/// merge have the same identity; and where besides no two live bindings
/// have the same target, no two bindings of the merge have.
pub proof fn lemma_merge_keeps_bindings_apart(
    live: Seq<CaptureBindingView>,
    discovered: Seq<ResolvedView>,
    add_new: bool,
    tenant: Seq<char>,
    names_in_use: Seq<Seq<char>>,
)
    requires
        distinct_bindings(live),
        distinct_identities(discovered),
    ensures
        distinct_bindings(merge_spec(live, discovered, add_new, tenant, names_in_use).bindings),
        distinct_targets(live) ==> distinct_targets(
            merge_spec(live, discovered, add_new, tenant, names_in_use).bindings,
        ),
{
    let kept = live_pass(live, discovered).kept;
    let used = names_in_use + targets(live);
    let new = if add_new {
        add_pass(discovered, live, tenant, used).bindings
    } else {
        Seq::empty()
    };
    let all = kept + new;
    let result = merge_spec(live, discovered, add_new, tenant, names_in_use).bindings;
    lemma_kept_keeps(live, discovered);
    if add_new {
        lemma_added_keeps(discovered, live, tenant, used);
        lemma_added_targets(discovered, live, tenant, used);
    }
    assert forall|i: int, j: int|
        0 <= i < all.len() && 0 <= j < all.len() && i != j implies other_identity()(all[i], all[j])
        && (distinct_targets(live) ==> other_target()(all[i], all[j])) by {
        if i < kept.len() && j < kept.len() {
            assert(other_identity()(kept[i], kept[j]));
        } else if i >= kept.len() && j >= kept.len() {
            let a = i - kept.len();
            let b = j - kept.len();
            assert(other_identity()(new[a], new[b]));
            if a < b {
                assert(new[a].binding.target_collection != new[b].binding.target_collection);
            } else {
                assert(new[b].binding.target_collection != new[a].binding.target_collection);
            }
        } else {
            let (k, n) = if i < kept.len() {
                (i, j - kept.len())
            } else {
                (j, i - kept.len())
            };
            assert(kept.contains(kept[k]));
            lemma_kept(live, discovered, kept[k]);
            let at = choose|at: int|
                0 <= at < live.len() && kept_as(#[trigger] live[at], discovered) == Some(kept[k]);
            assert(new.contains(new[n]));
            lemma_added(discovered, live, tenant, used, new[n]);
            let d = choose|d: int|
                0 <= d < discovered.len() && !any(live, bound_to(discovered[d].resource_identity))
                    && is_new_for(new[n], #[trigger] discovered[d]);
            lemma_any(live, bound_to(discovered[d].resource_identity));
            assert(!bound_to(discovered[d].resource_identity)(live[at]));
            assert(!used.contains(new[n].binding.target_collection));
            assert(used[names_in_use.len() + at] == live[at].binding.target_collection);
        }
    }
    lemma_sort_pairwise(all, other_identity());
    assert forall|i: int, j: int| 0 <= i < j < result.len() implies (
    #[trigger] result[i]).binding.resource_identity != (
    #[trigger] result[j]).binding.resource_identity by {
        assert(other_identity()(result[i], result[j]));
    }
    if distinct_targets(live) {
        lemma_sort_pairwise(all, other_target());
        assert forall|i: int, j: int| 0 <= i < j < result.len() implies (
        #[trigger] result[i]).binding.target_collection != (
        #[trigger] result[j]).binding.target_collection by {
            assert(other_target()(result[i], result[j]));
        }
    }
}

} // verus!
