//! The re-creation of collections that a discovered change has made
//! incompatible with what they hold.

use vstd::prelude::*;
use crate::merge::targets;
use crate::model::{capture_view, clone_bindings, BindingView, CaptureBinding, CaptureBindingView};
use crate::naming::{lemma_unused_name, name_next_version, next_version_name};
use crate::order::{insert_sorted, lemma_sort_ordered, sort_by_target, targets_ordered};
use crate::status::{incompatible_view, IncompatibleCollection, IncompatibleView};
use crate::text::{clone_strings, same_text, strings_view};

verus! {

/// A collection that was re-created, and the name it has now.
#[derive(Debug, PartialEq, Eq)]
pub struct Recreation {
    pub old_name: String,
    pub new_name: String,
}

/// The mathematical value of a [`Recreation`].
pub struct RecreationView {
    pub old_name: Seq<char>,
    pub new_name: Seq<char>,
}

impl View for Recreation {
    type V = RecreationView;

    open spec fn view(&self) -> RecreationView {
        RecreationView { old_name: self.old_name@, new_name: self.new_name@ }
    }
}

/// The views of a sequence of re-creations.
pub open spec fn recreations_view(recreated: Seq<Recreation>) -> Seq<RecreationView> {
    recreated.map_values(|r: Recreation| r@)
}

/// A capture binding after the collection `old_name` was re-created as
/// `new_name`: it writes to the new collection if it wrote to the old one.
pub open spec fn retarget(
    b: CaptureBindingView,
    old_name: Seq<char>,
    new_name: Seq<char>,
) -> CaptureBindingView {
    if b.binding.target_collection == old_name {
        CaptureBindingView {
            binding: BindingView {
                resource_identity: b.binding.resource_identity,
                resource_config: b.binding.resource_config,
                target_collection: new_name,
                disable: b.binding.disable,
                backfill: b.binding.backfill,
            },
            document_schema: b.document_schema,
            key: b.key,
        }
    } else {
        b
    }
}

/// The capture bindings after a re-creation, each in its place.
pub open spec fn retargeted(
    bindings: Seq<CaptureBindingView>,
    old_name: Seq<char>,
    new_name: Seq<char>,
) -> Seq<CaptureBindingView> {
    bindings.map_values(|b: CaptureBindingView| retarget(b, old_name, new_name))
}

/// Where an evolution stands.
pub struct EvolutionView {
    /// The capture bindings, retargeted so far.
    pub bindings: Seq<CaptureBindingView>,
    /// The collections re-created so far.
    pub recreated: Seq<RecreationView>,
    /// The collection names that are taken.
    pub used: Seq<Seq<char>>,
}

/// Whether the collection is re-created: it has to be, and a binding
/// writes to it.
pub open spec fn is_recreated(c: IncompatibleView, bindings: Seq<CaptureBindingView>) -> bool {
    c.requires_recreation.len() > 0 && targets(bindings).contains(c.collection)
}

/// The pass over the incompatible collections, in their order. A
/// collection that is re-created gets its next version name that is not
/// taken; the bindings that wrote to it write to the new collection, and
/// the new name is taken from then on.
pub open spec fn evolve_pass(
    incompatible: Seq<IncompatibleView>,
    bindings: Seq<CaptureBindingView>,
    used: Seq<Seq<char>>,
) -> EvolutionView
    decreases incompatible.len(),
{
    if incompatible.len() == 0 {
        EvolutionView { bindings, recreated: Seq::empty(), used }
    } else {
        let front = evolve_pass(incompatible.drop_last(), bindings, used);
        let c = incompatible.last();
        if is_recreated(c, front.bindings) {
            let new_name = next_version_name(c.collection, front.used);
            EvolutionView {
                bindings: retargeted(front.bindings, c.collection, new_name),
                recreated: front.recreated.push(
                    RecreationView { old_name: c.collection, new_name },
                ),
                used: front.used.push(new_name),
            }
        } else {
            front
        }
    }
}

/// The result of an evolution.
#[derive(Debug, PartialEq, Eq)]
pub struct Evolved {
    /// The capture bindings after the evolution, in the order of their
    /// target names.
    pub bindings: Vec<CaptureBinding>,
    /// The collections that were re-created, in the order in which they
    /// were.
    pub recreated: Vec<Recreation>,
}

/// The mathematical value of [`Evolved`].
pub struct EvolvedView {
    pub bindings: Seq<CaptureBindingView>,
    pub recreated: Seq<RecreationView>,
}

impl View for Evolved {
    type V = EvolvedView;

    open spec fn view(&self) -> EvolvedView {
        EvolvedView {
            bindings: capture_view(self.bindings@),
            recreated: recreations_view(self.recreated@),
        }
    }
}

/// The evolution of a capture's bindings. The names that are taken at the
/// start are those in `names_in_use` and the targets of the bindings.
pub open spec fn evolve_spec(
    bindings: Seq<CaptureBindingView>,
    incompatible: Seq<IncompatibleView>,
    names_in_use: Seq<Seq<char>>,
) -> EvolvedView {
    let end = evolve_pass(incompatible, bindings, names_in_use + targets(bindings));
    EvolvedView { bindings: sort_by_target(end.bindings), recreated: end.recreated }
}

/// No new name of the pass was taken before, no two of them are the same,
/// and what is taken stays taken.
proof fn lemma_evolve_names(
    incompatible: Seq<IncompatibleView>,
    bindings: Seq<CaptureBindingView>,
    used: Seq<Seq<char>>,
)
    ensures
        ({
            let end = evolve_pass(incompatible, bindings, used);
            &&& forall|i: int|
                0 <= i < end.recreated.len() ==> !used.contains(
                    (#[trigger] end.recreated[i]).new_name,
                )
            &&& forall|i: int, j: int|
                0 <= i < j < end.recreated.len() ==> (#[trigger] end.recreated[i]).new_name != (
                #[trigger] end.recreated[j]).new_name
            &&& forall|i: int|
                0 <= i < end.recreated.len() ==> end.used.contains(
                    (#[trigger] end.recreated[i]).new_name,
                )
            &&& forall|name: Seq<char>| used.contains(name) ==> end.used.contains(name)
        }),
    decreases incompatible.len(),
{
    if incompatible.len() > 0 {
        let front = evolve_pass(incompatible.drop_last(), bindings, used);
        let c = incompatible.last();
        lemma_evolve_names(incompatible.drop_last(), bindings, used);
        if is_recreated(c, front.bindings) {
            let new_name = next_version_name(c.collection, front.used);
            let (base, version) = crate::naming::version_split(c.collection);
            lemma_unused_name(
                base,
                seq!['_', 'v'],
                front.used,
                if version < 1 {
                    2
                } else {
                    version + 1
                },
            );
            let end = evolve_pass(incompatible, bindings, used);
            let last = RecreationView { old_name: c.collection, new_name };
            assert(end.recreated == front.recreated.push(last));
            assert(end.used == front.used.push(new_name));
            assert(end.used[front.used.len() as int] == new_name);
            assert forall|name: Seq<char>| front.used.contains(name) implies end.used.contains(
                name,
            ) by {
                let k = choose|k: int| 0 <= k < front.used.len() && front.used[k] == name;
                assert(end.used[k] == name);
            }
            assert forall|i: int| 0 <= i < end.recreated.len() implies !used.contains(
                (#[trigger] end.recreated[i]).new_name,
            ) by {
                if i < front.recreated.len() {
                    assert(end.recreated[i] == front.recreated[i]);
                }
            }
            assert forall|i: int, j: int| 0 <= i < j < end.recreated.len() implies (
            #[trigger] end.recreated[i]).new_name != (#[trigger] end.recreated[j]).new_name by {
                assert(end.recreated[i] == front.recreated[i]);
                if j < front.recreated.len() {
                    assert(end.recreated[j] == front.recreated[j]);
                } else {
                    assert(front.used.contains(front.recreated[i].new_name));
                }
            }
            assert forall|i: int| 0 <= i < end.recreated.len() implies end.used.contains(
                (#[trigger] end.recreated[i]).new_name,
            ) by {
                if i < front.recreated.len() {
                    assert(end.recreated[i] == front.recreated[i]);
                    assert(front.used.contains(front.recreated[i].new_name));
                }
            }
        }
    }
}

/// The names that an evolution gives. Each re-created collection gets a
/// name that is determined by the collection's name, by the names that
/// are taken and by the collections re-created before it; that name is
/// none of `names_in_use`, the target of no binding, and the new name of
/// no other collection.
pub proof fn lemma_evolution_names(
    bindings: Seq<CaptureBindingView>,
    incompatible: Seq<IncompatibleView>,
    names_in_use: Seq<Seq<char>>,
)
    ensures
        ({
            let recreated = evolve_spec(bindings, incompatible, names_in_use).recreated;
            &&& forall|i: int|
                0 <= i < recreated.len() ==> !names_in_use.contains(
                    (#[trigger] recreated[i]).new_name,
                ) && !targets(bindings).contains(recreated[i].new_name)
            &&& forall|i: int, j: int|
                0 <= i < j < recreated.len() ==> (#[trigger] recreated[i]).new_name != (
                #[trigger] recreated[j]).new_name
        }),
{
    let used = names_in_use + targets(bindings);
    lemma_evolve_names(incompatible, bindings, used);
    let recreated = evolve_spec(bindings, incompatible, names_in_use).recreated;
    assert forall|i: int| 0 <= i < recreated.len() implies !names_in_use.contains(
        (#[trigger] recreated[i]).new_name,
    ) && !targets(bindings).contains(recreated[i].new_name) by {
        let name = recreated[i].new_name;
        if names_in_use.contains(name) {
            let k = choose|k: int| 0 <= k < names_in_use.len() && names_in_use[k] == name;
            assert(used[k] == name);
        }
        if targets(bindings).contains(name) {
            let k = choose|k: int|
                0 <= k < targets(bindings).len() && targets(bindings)[k] == name;
            assert(used[names_in_use.len() + k] == name);
        }
    }
}

/// Every collection that an evolution re-creates is one that it was told
/// of, and its new name is a version name of the old one: the first name
/// of the collection, `_v`, and a version of 2 or more that is above the
/// collection's own.
pub proof fn lemma_evolution_versions(
    incompatible: Seq<IncompatibleView>,
    bindings: Seq<CaptureBindingView>,
    used: Seq<Seq<char>>,
    i: int,
)
    requires
        0 <= i < evolve_pass(incompatible, bindings, used).recreated.len(),
    ensures
        ({
            let r = evolve_pass(incompatible, bindings, used).recreated[i];
            &&& exists|c: int|
                0 <= c < incompatible.len() && (#[trigger] incompatible[c]).collection == r.old_name
                    && incompatible[c].requires_recreation.len() > 0
            &&& exists|k: nat|
                k >= 2 && k > crate::naming::version_split(r.old_name).1 && r.new_name
                    == #[trigger] crate::naming::versioned(
                    crate::naming::version_split(r.old_name).0,
                    k,
                )
        }),
    decreases incompatible.len(),
{
    if incompatible.len() > 0 {
        let rest = incompatible.drop_last();
        let front = evolve_pass(rest, bindings, used);
        let end = evolve_pass(incompatible, bindings, used);
        let last = incompatible.last();
        let r = end.recreated[i];
        assert(forall|c: int| 0 <= c < rest.len() ==> rest[c] == incompatible[c]);
        if i < front.recreated.len() {
            lemma_evolution_versions(rest, bindings, used, i);
            assert(r == front.recreated[i]);
            let c = choose|c: int|
                0 <= c < rest.len() && (#[trigger] rest[c]).collection == r.old_name
                    && rest[c].requires_recreation.len() > 0;
            assert(incompatible[c].collection == r.old_name);
            let k = choose|k: nat|
                k >= 2 && k > crate::naming::version_split(r.old_name).1 && r.new_name
                    == #[trigger] crate::naming::versioned(
                    crate::naming::version_split(r.old_name).0,
                    k,
                );
            assert(r.new_name == crate::naming::versioned(
                crate::naming::version_split(r.old_name).0,
                k,
            ));
        } else {
            crate::naming::lemma_next_version_name(last.collection, front.used);
            assert(is_recreated(last, front.bindings));
            assert(r.old_name == last.collection);
            assert(r.new_name == next_version_name(last.collection, front.used));
            assert(incompatible[incompatible.len() - 1].collection == r.old_name);
        }
    }
}

/// Whether `x` is `b` but for its target.
pub open spec fn same_but_target(x: CaptureBindingView, b: CaptureBindingView) -> bool {
    x == retarget(b, b.binding.target_collection, x.binding.target_collection)
}

/// The pass over the incompatible collections leaves every binding in its
/// place and changes at most its target.
pub proof fn lemma_evolve_pass_keeps(
    incompatible: Seq<IncompatibleView>,
    bindings: Seq<CaptureBindingView>,
    used: Seq<Seq<char>>,
)
    ensures
        evolve_pass(incompatible, bindings, used).bindings.len() == bindings.len(),
        forall|i: int|
            0 <= i < bindings.len() ==> same_but_target(
                #[trigger] evolve_pass(incompatible, bindings, used).bindings[i],
                bindings[i],
            ),
    decreases incompatible.len(),
{
    if incompatible.len() > 0 {
        lemma_evolve_pass_keeps(incompatible.drop_last(), bindings, used);
        let front = evolve_pass(incompatible.drop_last(), bindings, used);
        let end = evolve_pass(incompatible, bindings, used);
        assert forall|i: int| 0 <= i < bindings.len() implies same_but_target(
            #[trigger] end.bindings[i],
            bindings[i],
        ) by {
            assert(same_but_target(front.bindings[i], bindings[i]));
        }
    }
}

/// An evolution changes targets and nothing else. It gives as many
/// bindings as it was given, and each of them is one of those but for its
/// target: identity, configuration, disable flag, schema and key are as
/// they were.
pub proof fn lemma_evolution_keeps(
    bindings: Seq<CaptureBindingView>,
    incompatible: Seq<IncompatibleView>,
    names_in_use: Seq<Seq<char>>,
)
    ensures
        evolve_spec(bindings, incompatible, names_in_use).bindings.len() == bindings.len(),
        forall|x: CaptureBindingView|
            #[trigger] evolve_spec(bindings, incompatible, names_in_use).bindings.contains(x)
                ==> exists|i: int|
                0 <= i < bindings.len() && same_but_target(x, #[trigger] bindings[i]),
{
    let used = names_in_use + targets(bindings);
    let end = evolve_pass(incompatible, bindings, used).bindings;
    lemma_evolve_pass_keeps(incompatible, bindings, used);
    lemma_sort_ordered(end);
    assert forall|x: CaptureBindingView| #[trigger] sort_by_target(end).contains(x) implies exists|
        i: int,
    | 0 <= i < bindings.len() && same_but_target(x, #[trigger] bindings[i]) by {
        crate::order::lemma_sort_contains(end, x);
        let i = choose|i: int| 0 <= i < end.len() && end[i] == x;
        assert(same_but_target(end[i], bindings[i]));
    }
}

/// Whether some binding writes to the collection `name`.
pub fn writes_to(bindings: &Vec<CaptureBinding>, name: &str) -> (r: bool)
    ensures
        r == targets(capture_view(bindings@)).contains(name@),
{
    let ghost names = targets(capture_view(bindings@));
    let mut i: usize = 0;
    while i < bindings.len()
        invariant
            i <= bindings@.len(),
            names == targets(capture_view(bindings@)),
            forall|j: int| 0 <= j < i ==> names[j] != name@,
        decreases bindings@.len() - i,
    {
        assert(names[i as int] == bindings@[i as int]@.binding.target_collection);
        if same_text(bindings[i].binding.target_collection.as_str(), name) {
            return true;
        }
        i += 1;
    }
    false
}

/// Lets every binding that wrote to `old_name` write to `new_name`.
pub fn retarget_bindings(bindings: &mut Vec<CaptureBinding>, old_name: &str, new_name: &str)
    ensures
        capture_view(final(bindings)@) == retargeted(
            capture_view(old(bindings)@),
            old_name@,
            new_name@,
        ),
{
    let ghost before = capture_view(bindings@);
    let mut i: usize = 0;
    while i < bindings.len()
        invariant
            i <= bindings@.len(),
            bindings@.len() == before.len(),
            forall|j: int|
                0 <= j < i ==> bindings@[j]@ == retarget(before[j], old_name@, new_name@),
            forall|j: int| i <= j < before.len() ==> bindings@[j]@ == before[j],
        decreases bindings@.len() - i,
    {
        if same_text(bindings[i].binding.target_collection.as_str(), old_name) {
            let mut b = bindings[i].clone();
            b.binding.target_collection = new_name.to_owned();
            bindings[i] = b;
        }
        i += 1;
    }
    assert(capture_view(bindings@) =~= retargeted(before, old_name@, new_name@));
}

/// Re-creates the collections that have to be, in the order in which
/// `incompatible` lists them.
///
/// A listed collection is re-created if its list of reasons is not empty
/// and a binding writes to it. It then gets its next version name, one
/// that is neither in `names_in_use` nor the target of a binding nor a
/// name given before, and the bindings that wrote to it write to the new
/// collection. The bindings come out in the order of their target names.
pub fn evolve(
    bindings: &Vec<CaptureBinding>,
    incompatible: &Vec<IncompatibleCollection>,
    names_in_use: &Vec<String>,
) -> (r: Evolved)
    ensures
        r@ == evolve_spec(
            capture_view(bindings@),
            incompatible_view(incompatible@),
            strings_view(names_in_use@),
        ),
        targets_ordered(r@.bindings),
{
    let ghost start = capture_view(bindings@);
    let ghost listed = incompatible_view(incompatible@);
    let ghost used0 = strings_view(names_in_use@) + targets(start);
    let mut used = clone_strings(names_in_use);
    let mut current: Vec<CaptureBinding> = Vec::new();
    let mut i: usize = 0;
    while i < bindings.len()
        invariant
            i <= bindings@.len(),
            start == capture_view(bindings@),
            capture_view(current@) == start.take(i as int),
            strings_view(used@) == strings_view(names_in_use@) + targets(start.take(i as int)),
        decreases bindings@.len() - i,
    {
        let ghost used_before = strings_view(used@);
        let ghost current_before = capture_view(current@);
        used.push(bindings[i].binding.target_collection.clone());
        current.push(bindings[i].clone());
        proof {
            assert(start[i as int] == bindings@[i as int]@);
            assert(capture_view(current@) =~= current_before.push(start[i as int]));
            assert(start.take(i + 1) =~= start.take(i as int).push(start[i as int]));
            assert(strings_view(used@) =~= used_before.push(
                start[i as int].binding.target_collection,
            ));
            assert(targets(start.take(i + 1)) =~= targets(start.take(i as int)).push(
                start[i as int].binding.target_collection,
            ));
        }
        i += 1;
    }
    assert(start.take(bindings@.len() as int) =~= start);
    let mut recreated: Vec<Recreation> = Vec::new();
    let mut k: usize = 0;
    proof {
        assert(listed.take(0) =~= Seq::<IncompatibleView>::empty());
        assert(recreations_view(recreated@) =~= Seq::<RecreationView>::empty());
    }
    while k < incompatible.len()
        invariant
            k <= incompatible@.len(),
            listed == incompatible_view(incompatible@),
            capture_view(current@) == evolve_pass(listed.take(k as int), start, used0).bindings,
            recreations_view(recreated@) == evolve_pass(
                listed.take(k as int),
                start,
                used0,
            ).recreated,
            strings_view(used@) == evolve_pass(listed.take(k as int), start, used0).used,
        decreases incompatible@.len() - k,
    {
        let c = &incompatible[k];
        proof {
            assert(listed.take(k + 1).drop_last() =~= listed.take(k as int));
            assert(listed.take(k + 1).last() == c@);
        }
        if c.requires_recreation.len() > 0 && writes_to(&current, c.collection.as_str()) {
            let new_name = name_next_version(c.collection.as_str(), &used);
            retarget_bindings(&mut current, c.collection.as_str(), new_name.as_str());
            let ghost used_before = strings_view(used@);
            used.push(new_name.clone());
            assert(strings_view(used@) =~= used_before.push(new_name@));
            let ghost recreated_before = recreations_view(recreated@);
            let recreation = Recreation { old_name: c.collection.clone(), new_name };
            recreated.push(recreation);
            assert(recreations_view(recreated@) =~= recreated_before.push(
                RecreationView { old_name: c@.collection, new_name: new_name@ },
            ));
        }
        k += 1;
    }
    assert(listed.take(incompatible@.len() as int) =~= listed);
    let ghost end = capture_view(current@);
    let mut sorted: Vec<CaptureBinding> = Vec::new();
    let mut j: usize = 0;
    proof {
        assert(end.take(0) =~= Seq::<CaptureBindingView>::empty());
        assert(capture_view(sorted@) =~= Seq::<CaptureBindingView>::empty());
    }
    while j < current.len()
        invariant
            j <= current@.len(),
            end == capture_view(current@),
            capture_view(sorted@) == sort_by_target(end.take(j as int)),
        decreases current@.len() - j,
    {
        proof {
            assert(end.take(j + 1).drop_last() =~= end.take(j as int));
            assert(end.take(j + 1).last() == current@[j as int]@);
        }
        insert_sorted(&mut sorted, current[j].clone());
        j += 1;
    }
    proof {
        assert(end.take(current@.len() as int) =~= end);
        lemma_sort_ordered(end);
    }
    Evolved { bindings: sorted, recreated }
}

impl Clone for Recreation {
    fn clone(&self) -> (r: Recreation)
        ensures
            r@ == self@,
    {
        Recreation { old_name: self.old_name.clone(), new_name: self.new_name.clone() }
    }
}

/// A copy of a list of re-creations.
pub fn clone_recreations(recreated: &Vec<Recreation>) -> (r: Vec<Recreation>)
    ensures
        recreations_view(r@) == recreations_view(recreated@),
{
    let mut r: Vec<Recreation> = Vec::new();
    let mut i: usize = 0;
    while i < recreated.len()
        invariant
            i <= recreated@.len(),
            r@.len() == i,
            forall|j: int| 0 <= j < i ==> r@[j]@ == recreated@[j]@,
        decreases recreated@.len() - i,
    {
        r.push(recreated[i].clone());
        i += 1;
    }
    assert(recreations_view(r@) =~= recreations_view(recreated@));
    r
}

impl Clone for Evolved {
    fn clone(&self) -> (r: Evolved)
        ensures
            r@ == self@,
    {
        Evolved {
            bindings: clone_bindings(&self.bindings),
            recreated: clone_recreations(&self.recreated),
        }
    }
}

} // verus!
