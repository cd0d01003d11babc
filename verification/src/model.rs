//! The data that a reconciliation works on: bindings, discovered
//! resources, and the changes that a discover reports.

use vstd::prelude::*;
use crate::config::{FieldView, ResourceConfig};
use vstd::string::*;
use crate::text::{clone_strings, decimal, decimal_string, strings_view};

verus! {

/// How auto-discover is configured for a capture. A capture without this
/// configuration is never discovered automatically.
#[derive(Clone, Copy, Debug, PartialEq, Eq, Structural)]
pub struct AutoDiscoverConfig {
    /// Whether a discovered resource without a binding gets one.
    pub add_new_bindings: bool,
    /// Whether a collection that a discovered change made incompatible is
    /// re-created under a new name.
    pub evolve_incompatible_collections: bool,
    /// The time between two discovers, in milliseconds, where the capture
    /// sets one.
    pub interval: Option<u64>,
}

/// One binding of a capture or of a materialization: a resource of the
/// external system, and the collection it is bound to.
#[derive(Debug, PartialEq, Eq)]
pub struct Binding {
    /// The stable key of the resource in the external system.
    pub resource_identity: Vec<String>,
    /// What tells the connector which resource is meant.
    pub resource_config: ResourceConfig,
    /// The collection that the resource is bound to.
    pub target_collection: String,
    /// Whether the binding is switched off.
    pub disable: bool,
    /// How often the binding was told to start over. Only materializations
    /// count it.
    pub backfill: u32,
}

/// The mathematical value of a [`Binding`].
pub struct BindingView {
    pub resource_identity: Seq<Seq<char>>,
    pub resource_config: Seq<FieldView>,
    pub target_collection: Seq<char>,
    pub disable: bool,
    pub backfill: nat,
}

impl View for Binding {
    type V = BindingView;

    open spec fn view(&self) -> BindingView {
        BindingView {
            resource_identity: strings_view(self.resource_identity@),
            resource_config: self.resource_config@,
            target_collection: self.target_collection@,
            disable: self.disable,
            backfill: self.backfill as nat,
        }
    }
}

/// The views of a sequence of bindings.
pub open spec fn bindings_view(bindings: Seq<Binding>) -> Seq<BindingView> {
    bindings.map_values(|b: Binding| b@)
}

impl Clone for Binding {
    fn clone(&self) -> (r: Binding)
        ensures
            r@ == self@,
    {
        Binding {
            resource_identity: clone_strings(&self.resource_identity),
            resource_config: self.resource_config.clone(),
            target_collection: self.target_collection.clone(),
            disable: self.disable,
            backfill: self.backfill,
        }
    }
}

/// A binding of a capture together with the schema and the key of the
/// collection that it writes to.
#[derive(Debug, PartialEq, Eq)]
pub struct CaptureBinding {
    pub binding: Binding,
    /// The collection's document schema, as compact JSON text.
    pub document_schema: String,
    /// The collection's key: JSON pointers into its documents.
    pub key: Vec<String>,
}

/// The mathematical value of a [`CaptureBinding`].
pub struct CaptureBindingView {
    pub binding: BindingView,
    pub document_schema: Seq<char>,
    pub key: Seq<Seq<char>>,
}

impl View for CaptureBinding {
    type V = CaptureBindingView;

    open spec fn view(&self) -> CaptureBindingView {
        CaptureBindingView {
            binding: self.binding@,
            document_schema: self.document_schema@,
            key: strings_view(self.key@),
        }
    }
}

/// The views of a sequence of capture bindings.
pub open spec fn capture_view(bindings: Seq<CaptureBinding>) -> Seq<CaptureBindingView> {
    bindings.map_values(|b: CaptureBinding| b@)
}

impl Clone for CaptureBinding {
    fn clone(&self) -> (r: CaptureBinding)
        ensures
            r@ == self@,
    {
        CaptureBinding {
            binding: self.binding.clone(),
            document_schema: self.document_schema.clone(),
            key: clone_strings(&self.key),
        }
    }
}

/// A resource as the connector reports it.
#[derive(Debug, PartialEq, Eq)]
pub struct DiscoveredResource {
    /// The name that the connector recommends for the resource's collection.
    pub recommended_name: String,
    /// The resource configuration, as JSON text.
    pub resource_config: String,
    /// The schema of the resource's documents, as JSON text.
    pub document_schema: String,
    /// The key of the resource's documents: JSON pointers.
    pub key: Vec<String>,
    /// Whether the connector recommends to leave the resource switched off.
    pub disable: bool,
    /// The stable key of the resource; empty where the connector gives none.
    pub resource_identity: Vec<String>,
}

/// The mathematical value of a [`DiscoveredResource`].
pub struct DiscoveredView {
    pub recommended_name: Seq<char>,
    pub resource_config: Seq<char>,
    pub document_schema: Seq<char>,
    pub key: Seq<Seq<char>>,
    pub disable: bool,
    pub resource_identity: Seq<Seq<char>>,
}

impl View for DiscoveredResource {
    type V = DiscoveredView;

    open spec fn view(&self) -> DiscoveredView {
        DiscoveredView {
            recommended_name: self.recommended_name@,
            resource_config: self.resource_config@,
            document_schema: self.document_schema@,
            key: strings_view(self.key@),
            disable: self.disable,
            resource_identity: strings_view(self.resource_identity@),
        }
    }
}

/// The views of a sequence of discovered resources.
pub open spec fn discovered_view(resources: Seq<DiscoveredResource>) -> Seq<DiscoveredView> {
    resources.map_values(|r: DiscoveredResource| r@)
}

/// A discovered resource whose identity is settled and whose JSON is read.
#[derive(Debug, PartialEq, Eq)]
pub struct ResolvedResource {
    pub recommended_name: String,
    /// The stable key of the resource.
    pub resource_identity: Vec<String>,
    pub resource_config: ResourceConfig,
    /// The schema of the resource's documents, as compact JSON text.
    pub document_schema: String,
    pub key: Vec<String>,
    pub disable: bool,
}

/// The mathematical value of a [`ResolvedResource`].
pub struct ResolvedView {
    pub recommended_name: Seq<char>,
    pub resource_identity: Seq<Seq<char>>,
    pub resource_config: Seq<FieldView>,
    pub document_schema: Seq<char>,
    pub key: Seq<Seq<char>>,
    pub disable: bool,
}

impl View for ResolvedResource {
    type V = ResolvedView;

    open spec fn view(&self) -> ResolvedView {
        ResolvedView {
            recommended_name: self.recommended_name@,
            resource_identity: strings_view(self.resource_identity@),
            resource_config: self.resource_config@,
            document_schema: self.document_schema@,
            key: strings_view(self.key@),
            disable: self.disable,
        }
    }
}

/// The views of a sequence of resolved resources.
pub open spec fn resolved_view(resources: Seq<ResolvedResource>) -> Seq<ResolvedView> {
    resources.map_values(|r: ResolvedResource| r@)
}

/// One difference that a discover found.
#[derive(Debug, PartialEq, Eq)]
pub struct DiscoverChange {
    pub resource_identity: Vec<String>,
    pub target_collection: String,
    pub disable: bool,
}

/// The mathematical value of a [`DiscoverChange`].
pub struct ChangeView {
    pub resource_identity: Seq<Seq<char>>,
    pub target_collection: Seq<char>,
    pub disable: bool,
}

impl View for DiscoverChange {
    type V = ChangeView;

    open spec fn view(&self) -> ChangeView {
        ChangeView {
            resource_identity: strings_view(self.resource_identity@),
            target_collection: self.target_collection@,
            disable: self.disable,
        }
    }
}

/// The views of a sequence of changes.
pub open spec fn changes_view(changes: Seq<DiscoverChange>) -> Seq<ChangeView> {
    changes.map_values(|c: DiscoverChange| c@)
}

/// The change that reports a binding.
pub open spec fn change_of(binding: BindingView) -> ChangeView {
    ChangeView {
        resource_identity: binding.resource_identity,
        target_collection: binding.target_collection,
        disable: binding.disable,
    }
}

impl DiscoverChange {
    /// The change that reports `binding`.
    pub fn of(binding: &Binding) -> (r: DiscoverChange)
        ensures
            r@ == change_of(binding@),
    {
        DiscoverChange {
            resource_identity: clone_strings(&binding.resource_identity),
            target_collection: binding.target_collection.clone(),
            disable: binding.disable,
        }
    }

}

impl Clone for DiscoverChange {
    fn clone(&self) -> (r: DiscoverChange)
        ensures
            r@ == self@,
    {
        DiscoverChange {
            resource_identity: clone_strings(&self.resource_identity),
            target_collection: self.target_collection.clone(),
            disable: self.disable,
        }
    }
}

/// The texts of a sequence of string slices.
pub open spec fn texts(path: Seq<&str>) -> Seq<Seq<char>> {
    path.map_values(|s: &str| s@)
}

/// The change that a triple of identity, target and disable flag stands
/// for.
pub open spec fn change_from(c: (&[&str], &str, bool)) -> ChangeView {
    ChangeView { resource_identity: texts(c.0@), target_collection: c.1@, disable: c.2 }
}

/// The changes that a list of triples stands for: each triple gives the
/// identity of a resource, the collection it is bound to, and whether the
/// binding is disabled.
pub fn changes(c: &[(&[&str], &str, bool)]) -> (r: Vec<DiscoverChange>)
    ensures
        r@.len() == c@.len(),
        forall|i: int| 0 <= i < c@.len() ==> (#[trigger] r@[i])@ == change_from(c@[i]),
{
    let mut r: Vec<DiscoverChange> = Vec::new();
    let mut i: usize = 0;
    while i < c.len()
        invariant
            i <= c@.len(),
            r@.len() == i,
            forall|j: int| 0 <= j < i ==> (#[trigger] r@[j])@ == change_from(c@[j]),
        decreases c@.len() - i,
    {
        let (path, target, disable) = c[i];
        let mut resource_identity: Vec<String> = Vec::new();
        let mut k: usize = 0;
        while k < path.len()
            invariant
                k <= path@.len(),
                resource_identity@.len() == k,
                forall|j: int| 0 <= j < k ==> (#[trigger] resource_identity@[j])@ == path@[j]@,
            decreases path@.len() - k,
        {
            resource_identity.push(path[k].to_owned());
            k += 1;
        }
        assert(strings_view(resource_identity@) =~= texts(path@));
        r.push(DiscoverChange { resource_identity, target_collection: target.to_owned(), disable });
        i += 1;
    }
    r
}

/// A copy of a list of changes.
pub fn clone_changes(changes: &Vec<DiscoverChange>) -> (r: Vec<DiscoverChange>)
    ensures
        changes_view(r@) == changes_view(changes@),
{
    let mut r: Vec<DiscoverChange> = Vec::new();
    let mut i: usize = 0;
    while i < changes.len()
        invariant
            i <= changes@.len(),
            r@.len() == i,
            forall|j: int| 0 <= j < i ==> r@[j]@ == changes@[j]@,
        decreases changes@.len() - i,
    {
        r.push(changes[i].clone());
        i += 1;
    }
    assert(changes_view(r@) =~= changes_view(changes@));
    r
}

/// What a discover found to be different, by kind.
#[derive(Debug, PartialEq, Eq)]
pub struct Changes {
    /// The bindings that were added for newly discovered resources.
    pub added: Vec<DiscoverChange>,
    /// The bindings whose schema, key or disable flag changed.
    pub modified: Vec<DiscoverChange>,
    /// The bindings whose resource is gone.
    pub removed: Vec<DiscoverChange>,
}

/// The mathematical value of [`Changes`].
pub struct ChangesView {
    pub added: Seq<ChangeView>,
    pub modified: Seq<ChangeView>,
    pub removed: Seq<ChangeView>,
}

impl View for Changes {
    type V = ChangesView;

    open spec fn view(&self) -> ChangesView {
        ChangesView {
            added: changes_view(self.added@),
            modified: changes_view(self.modified@),
            removed: changes_view(self.removed@),
        }
    }
}

impl ChangesView {
    /// Whether nothing changed.
    pub open spec fn is_empty(self) -> bool {
        self.added.len() == 0 && self.modified.len() == 0 && self.removed.len() == 0
    }
}

impl Changes {
    /// Whether nothing changed.
    pub fn is_empty(&self) -> (r: bool)
        ensures
            r == self@.is_empty(),
    {
        self.added.len() == 0 && self.modified.len() == 0 && self.removed.len() == 0
    }
}

impl Clone for Changes {
    fn clone(&self) -> (r: Changes)
        ensures
            r@ == self@,
    {
        Changes {
            added: clone_changes(&self.added),
            modified: clone_changes(&self.modified),
            removed: clone_changes(&self.removed),
        }
    }
}

/// Why the resources that a connector reported cannot be merged.
#[derive(Clone, Copy, Debug, PartialEq, Eq, Structural)]
pub enum DiscoverError {
    /// The resource configuration of the resource at this position is not
    /// a JSON object.
    MalformedConfig(usize),
    /// The document schema of the resource at this position is not JSON.
    MalformedSchema(usize),
    /// The resource at this position came without an identity, and none
    /// can be derived from its configuration.
    UnresolvedIdentity(usize),
    /// The resource at this position has the identity of an earlier one.
    DuplicateIdentity(usize),
}

impl DiscoverError {
    /// The error in words.
    pub open spec fn text(self) -> Seq<char> {
        match self {
            DiscoverError::MalformedConfig(i) => "discovered resource "@ + decimal(i as nat)
                + ": the resource configuration is not a JSON object"@,
            DiscoverError::MalformedSchema(i) => "discovered resource "@ + decimal(i as nat)
                + ": the document schema is not JSON"@,
            DiscoverError::UnresolvedIdentity(i) => "discovered resource "@ + decimal(i as nat)
                + ": no identity was given and none can be derived"@,
            DiscoverError::DuplicateIdentity(i) => "discovered resource "@ + decimal(i as nat)
                + ": another resource has the same identity"@,
        }
    }

    /// Says the error in words.
    pub fn message(&self) -> (r: String)
        ensures
            r@ == self.text(),
    {
        let (i, what) = match self {
            DiscoverError::MalformedConfig(i) => (
                *i,
                ": the resource configuration is not a JSON object",
            ),
            DiscoverError::MalformedSchema(i) => (*i, ": the document schema is not JSON"),
            DiscoverError::UnresolvedIdentity(i) => (
                *i,
                ": no identity was given and none can be derived",
            ),
            DiscoverError::DuplicateIdentity(i) => (*i, ": another resource has the same identity"),
        };
        let mut r = "discovered resource ".to_owned();
        r.append(decimal_string(i as u128).as_str());
        r.append(what);
        assert(r@ =~= self.text());
        r
    }
}

/// A copy of a list of capture bindings.
pub fn clone_bindings(bindings: &Vec<CaptureBinding>) -> (r: Vec<CaptureBinding>)
    ensures
        capture_view(r@) == capture_view(bindings@),
{
    let mut r: Vec<CaptureBinding> = Vec::new();
    let mut i: usize = 0;
    while i < bindings.len()
        invariant
            i <= bindings@.len(),
            r@.len() == i,
            forall|j: int| 0 <= j < i ==> r@[j]@ == bindings@[j]@,
        decreases bindings@.len() - i,
    {
        r.push(bindings[i].clone());
        i += 1;
    }
    assert(capture_view(r@) =~= capture_view(bindings@));
    r
}

impl Clone for DiscoveredResource {
    fn clone(&self) -> (r: DiscoveredResource)
        ensures
            r@ == self@,
    {
        DiscoveredResource {
            recommended_name: self.recommended_name.clone(),
            resource_config: self.resource_config.clone(),
            document_schema: self.document_schema.clone(),
            key: clone_strings(&self.key),
            disable: self.disable,
            resource_identity: clone_strings(&self.resource_identity),
        }
    }
}

impl Clone for ResolvedResource {
    fn clone(&self) -> (r: ResolvedResource)
        ensures
            r@ == self@,
    {
        ResolvedResource {
            recommended_name: self.recommended_name.clone(),
            resource_identity: clone_strings(&self.resource_identity),
            resource_config: self.resource_config.clone(),
            document_schema: self.document_schema.clone(),
            key: clone_strings(&self.key),
            disable: self.disable,
        }
    }
}

/// A copy of a list of discovered resources.
pub fn clone_discovered(resources: &Vec<DiscoveredResource>) -> (r: Vec<DiscoveredResource>)
    ensures
        discovered_view(r@) == discovered_view(resources@),
{
    let mut r: Vec<DiscoveredResource> = Vec::new();
    let mut i: usize = 0;
    while i < resources.len()
        invariant
            i <= resources@.len(),
            r@.len() == i,
            forall|j: int| 0 <= j < i ==> r@[j]@ == resources@[j]@,
        decreases resources@.len() - i,
    {
        r.push(resources[i].clone());
        i += 1;
    }
    assert(discovered_view(r@) =~= discovered_view(resources@));
    r
}

} // verus!
