//! What a materialization does with the changes of the capture that it
//! reads from.

use vstd::prelude::*;
use crate::config::ResourceConfig;
use crate::model::{
    bindings_view, capture_view, Binding, BindingView, CaptureBinding, CaptureBindingView,
};
use crate::search::{any, find_first, lemma_found_first, lemma_found_none};
use crate::text::{same_text, strings_view};

verus! {

/// A materialization binding after the collection `old_name` was
/// re-created as `new_name`: if it read the old collection, it reads the
/// new one, and its backfill counter is one higher.
pub open spec fn backfilled(
    b: BindingView,
    old_name: Seq<char>,
    new_name: Seq<char>,
) -> BindingView {
    if b.target_collection == old_name {
        BindingView {
            resource_identity: b.resource_identity,
            resource_config: b.resource_config,
            target_collection: new_name,
            disable: b.disable,
            backfill: b.backfill + 1,
        }
    } else {
        b
    }
}

/// The bindings of a materialization after a re-creation, each in its
/// place.
pub open spec fn all_backfilled(
    bindings: Seq<BindingView>,
    old_name: Seq<char>,
    new_name: Seq<char>,
) -> Seq<BindingView> {
    bindings.map_values(|b: BindingView| backfilled(b, old_name, new_name))
}

/// Whether each binding that reads `old_name` can count one more backfill.
pub open spec fn can_backfill(bindings: Seq<BindingView>, old_name: Seq<char>) -> bool {
    forall|i: int|
        0 <= i < bindings.len() && (#[trigger] bindings[i]).target_collection == old_name
            ==> bindings[i].backfill < u32::MAX
}

/// What a re-creation does to the bindings of a materialization: every
/// binding that read the old collection reads the new one and has one
/// backfill more; every other binding is as it was.
pub proof fn lemma_recreation_backfills(
    bindings: Seq<BindingView>,
    old_name: Seq<char>,
    new_name: Seq<char>,
    i: int,
)
    requires
        0 <= i < bindings.len(),
    ensures
        all_backfilled(bindings, old_name, new_name).len() == bindings.len(),
        bindings[i].target_collection == old_name ==> {
            let after = all_backfilled(bindings, old_name, new_name)[i];
            &&& after.target_collection == new_name
            &&& after.backfill == bindings[i].backfill + 1
            &&& after.resource_identity == bindings[i].resource_identity
            &&& after.resource_config == bindings[i].resource_config
            &&& after.disable == bindings[i].disable
        },
        bindings[i].target_collection != old_name ==> all_backfilled(bindings, old_name, new_name)[i]
            == bindings[i],
{
}

/// Tells the bindings of a materialization that the collection
/// `old_name` was re-created as `new_name`: each binding that read the
/// old collection reads the new one and counts one more backfill.
pub fn apply_recreation(bindings: &mut Vec<Binding>, old_name: &str, new_name: &str)
    requires
        can_backfill(bindings_view(old(bindings)@), old_name@),
    ensures
        bindings_view(final(bindings)@) == all_backfilled(
            bindings_view(old(bindings)@),
            old_name@,
            new_name@,
        ),
{
    let ghost before = bindings_view(bindings@);
    let mut i: usize = 0;
    while i < bindings.len()
        invariant
            i <= bindings@.len(),
            bindings@.len() == before.len(),
            can_backfill(before, old_name@),
            forall|j: int|
                0 <= j < i ==> bindings@[j]@ == backfilled(before[j], old_name@, new_name@),
            forall|j: int| i <= j < before.len() ==> bindings@[j]@ == before[j],
        decreases bindings@.len() - i,
    {
        if same_text(bindings[i].target_collection.as_str(), old_name) {
            assert(before[i as int].target_collection == old_name@);
            let mut b = bindings[i].clone();
            b.target_collection = new_name.to_owned();
            b.backfill = b.backfill + 1;
            bindings[i] = b;
        }
        i += 1;
    }
    assert(bindings_view(bindings@) =~= all_backfilled(before, old_name@, new_name@));
}

/// Whether each binding that reads `old_name` can count one more backfill.
pub fn check_backfill(bindings: &Vec<Binding>, old_name: &str) -> (r: bool)
    ensures
        r == can_backfill(bindings_view(bindings@), old_name@),
{
    let ghost views = bindings_view(bindings@);
    let mut i: usize = 0;
    while i < bindings.len()
        invariant
            i <= bindings@.len(),
            views == bindings_view(bindings@),
            forall|j: int|
                0 <= j < i && (#[trigger] views[j]).target_collection == old_name@
                    ==> views[j].backfill < u32::MAX,
        decreases bindings@.len() - i,
    {
        assert(views[i as int] == bindings@[i as int]@);
        if same_text(bindings[i].target_collection.as_str(), old_name) && bindings[i].backfill
            == u32::MAX {
            return false;
        }
        i += 1;
    }
    true
}

/// The condition of writing to the collection `name`.
pub open spec fn writing(name: Seq<char>) -> spec_fn(CaptureBindingView) -> bool {
    |b: CaptureBindingView| b.binding.target_collection == name
}

/// The binding of a capture by the collection it writes to: the first
/// binding whose target is `name`.
pub open spec fn binding_by_target(
    bindings: Seq<CaptureBindingView>,
    name: Seq<char>,
) -> Option<CaptureBindingView> {
    match find_first(bindings, writing(name)) {
        Some(i) => Some(bindings[i]),
        None => None,
    }
}

/// Looks a binding of a capture up by the collection it writes to.
pub fn binding_for_target<'a>(bindings: &'a Vec<CaptureBinding>, name: &str) -> (r: Option<
    &'a CaptureBinding,
>)
    ensures
        match r {
            Some(b) => binding_by_target(capture_view(bindings@), name@) == Some(b@),
            None => binding_by_target(capture_view(bindings@), name@) is None,
        },
{
    let ghost views = capture_view(bindings@);
    let ghost wanted = writing(name@);
    let mut i: usize = 0;
    while i < bindings.len()
        invariant
            i <= bindings@.len(),
            views == capture_view(bindings@),
            wanted == writing(name@),
            forall|j: int| 0 <= j < i ==> !wanted(views[j]),
        decreases bindings@.len() - i,
    {
        assert(views[i as int] == bindings@[i as int]@);
        if same_text(bindings[i].binding.target_collection.as_str(), name) {
            proof {
                lemma_found_first(views, wanted, i as int);
            }
            return Some(&bindings[i]);
        }
        i += 1;
    }
    proof {
        lemma_found_none(views, wanted);
    }
    None
}

/// The condition of reading the collection `name`.
pub open spec fn reading(name: Seq<char>) -> spec_fn(BindingView) -> bool {
    |b: BindingView| b.target_collection == name
}

/// The binding with which a materialization starts to read the
/// collection `name`: identified by the name, enabled, and without
/// configuration or backfill.
pub open spec fn source_binding(name: Seq<char>) -> BindingView {
    BindingView {
        resource_identity: seq![name],
        resource_config: Seq::empty(),
        target_collection: name,
        disable: false,
        backfill: 0,
    }
}

/// The bindings of a materialization that reads all that a capture
/// writes: the bindings that were there, followed by a binding for each
/// target of the capture that none of the bindings before it reads, in
/// the order of the capture's bindings.
pub open spec fn with_sources(
    bindings: Seq<BindingView>,
    capture: Seq<CaptureBindingView>,
) -> Seq<BindingView>
    decreases capture.len(),
{
    if capture.len() == 0 {
        bindings
    } else {
        let front = with_sources(bindings, capture.drop_last());
        let name = capture.last().binding.target_collection;
        if any(front, reading(name)) {
            front
        } else {
            front.push(source_binding(name))
        }
    }
}

/// Whether some binding reads the collection `name`.
pub fn reads(bindings: &Vec<Binding>, name: &str) -> (r: bool)
    ensures
        r == any(bindings_view(bindings@), reading(name@)),
{
    let ghost views = bindings_view(bindings@);
    let ghost wanted = reading(name@);
    let mut i: usize = 0;
    while i < bindings.len()
        invariant
            i <= bindings@.len(),
            views == bindings_view(bindings@),
            wanted == reading(name@),
            forall|j: int| 0 <= j < i ==> !wanted(views[j]),
        decreases bindings@.len() - i,
    {
        assert(views[i as int] == bindings@[i as int]@);
        if same_text(bindings[i].target_collection.as_str(), name) {
            proof {
                lemma_found_first(views, wanted, i as int);
            }
            return true;
        }
        i += 1;
    }
    proof {
        lemma_found_none(views, wanted);
    }
    false
}

/// Lets a materialization read every collection that the capture writes
/// to: each target that no binding reads yet gets a binding.
pub fn add_source_bindings(bindings: &mut Vec<Binding>, capture: &Vec<CaptureBinding>)
    ensures
        bindings_view(final(bindings)@) == with_sources(
            bindings_view(old(bindings)@),
            capture_view(capture@),
        ),
{
    let ghost before = bindings_view(bindings@);
    let ghost written = capture_view(capture@);
    let mut i: usize = 0;
    assert(written.take(0) =~= Seq::<CaptureBindingView>::empty());
    while i < capture.len()
        invariant
            i <= capture@.len(),
            written == capture_view(capture@),
            bindings_view(bindings@) == with_sources(before, written.take(i as int)),
        decreases capture@.len() - i,
    {
        let name = &capture[i].binding.target_collection;
        proof {
            assert(written.take(i + 1).drop_last() =~= written.take(i as int));
            assert(written.take(i + 1).last() == capture@[i as int]@);
        }
        if !reads(bindings, name.as_str()) {
            let ghost front = bindings_view(bindings@);
            let mut resource_identity: Vec<String> = Vec::new();
            resource_identity.push(name.clone());
            assert(strings_view(resource_identity@) =~= seq![name@]);
            let b = Binding {
                resource_identity,
                resource_config: ResourceConfig::empty(),
                target_collection: name.clone(),
                disable: false,
                backfill: 0,
            };
            bindings.push(b);
            assert(bindings_view(bindings@) =~= front.push(source_binding(name@)));
        }
        i += 1;
    }
    assert(written.take(capture@.len() as int) =~= written);
}

} // verus!
