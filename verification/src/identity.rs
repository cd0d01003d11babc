//! The identity of a discovered resource: the key by which it is found
//! again among the bindings, whatever its collection is called by then.

use vstd::prelude::*;
use crate::config::{config_view, lookup, FieldView, ResourceConfig};
use crate::json::{compact_view, json_compact, json_object, read_compact};
use crate::model::{
    discovered_view, resolved_view, DiscoverError, DiscoveredResource, DiscoveredView,
    ResolvedResource, ResolvedView,
};
use crate::text::{clone_strings, strings_view};

verus! {

/// The strings that the members called `names` hold, in the order of
/// `names`; `None` where a member is missing or holds no string.
pub open spec fn projected(fields: Seq<FieldView>, names: Seq<Seq<char>>) -> Option<
    Seq<Seq<char>>,
>
    decreases names.len(),
{
    if names.len() == 0 {
        Some(Seq::empty())
    } else {
        match (projected(fields, names.drop_last()), lookup(fields, names.last())) {
            (Some(front), Some(field)) => match field.string {
                Some(s) => Some(front.push(s)),
                None => None,
            },
            _ => None,
        }
    }
}

/// The identity that a configuration gives: what its identity members
/// hold. There is none without identity members.
pub open spec fn derived_identity(fields: Seq<FieldView>, names: Seq<Seq<char>>) -> Option<
    Seq<Seq<char>>,
> {
    if names.len() == 0 {
        None
    } else {
        projected(fields, names)
    }
}

/// The identity of a resource: the one that the connector supplied, or
/// else the one that its configuration gives.
pub open spec fn resolved_identity(
    supplied: Seq<Seq<char>>,
    fields: Seq<FieldView>,
    names: Seq<Seq<char>>,
) -> Option<Seq<Seq<char>>> {
    if supplied.len() > 0 {
        Some(supplied)
    } else {
        derived_identity(fields, names)
    }
}

/// A projection has one string for each name.
pub proof fn lemma_projected_len(fields: Seq<FieldView>, names: Seq<Seq<char>>)
    ensures
        projected(fields, names) matches Some(p) ==> p.len() == names.len(),
    decreases names.len(),
{
    if names.len() > 0 {
        lemma_projected_len(fields, names.drop_last());
    }
}

/// An identity is never empty.
pub proof fn lemma_resolved_identity_nonempty(
    supplied: Seq<Seq<char>>,
    fields: Seq<FieldView>,
    names: Seq<Seq<char>>,
)
    ensures
        resolved_identity(supplied, fields, names) matches Some(identity) ==> identity.len() > 0,
{
    lemma_projected_len(fields, names);
}

/// The derived identity is stable: two configurations in which every
/// identity member is the same give the same identity, whatever else they
/// hold and in whatever order.
pub proof fn lemma_identity_stable(a: Seq<FieldView>, b: Seq<FieldView>, names: Seq<Seq<char>>)
    requires
        forall|i: int|
            0 <= i < names.len() ==> lookup(a, #[trigger] names[i]) == lookup(b, names[i]),
    ensures
        derived_identity(a, names) == derived_identity(b, names),
    decreases names.len(),
{
    if names.len() > 0 {
        let front = names.drop_last();
        assert(forall|i: int| 0 <= i < front.len() ==> front[i] == names[i]);
        if front.len() > 0 {
            lemma_identity_stable(a, b, front);
        }
        assert(lookup(a, names[names.len() - 1]) == lookup(b, names[names.len() - 1]));
    }
}

/// Where some of the first names cannot be projected, all of them cannot.
proof fn lemma_projected_prefix(fields: Seq<FieldView>, names: Seq<Seq<char>>, i: int)
    requires
        0 <= i <= names.len(),
        projected(fields, names.take(i)) is None,
    ensures
        projected(fields, names) is None,
    decreases names.len() - i,
{
    if i < names.len() {
        assert(names.take(i + 1).drop_last() =~= names.take(i));
        lemma_projected_prefix(fields, names, i + 1);
    } else {
        assert(names.take(i) =~= names);
    }
}

/// Derives an identity from a resource configuration: the strings of its
/// members `identity_fields`. There is none where `identity_fields` is
/// empty, or where one of these members is missing or holds no string.
pub fn derive_identity(config: &ResourceConfig, identity_fields: &Vec<String>) -> (r: Option<
    Vec<String>,
>)
    ensures
        match r {
            Some(identity) => derived_identity(config@, strings_view(identity_fields@)) == Some(
                strings_view(identity@),
            ),
            None => derived_identity(config@, strings_view(identity_fields@)) is None,
        },
{
    let ghost names = strings_view(identity_fields@);
    if identity_fields.len() == 0 {
        return None;
    }
    let mut identity: Vec<String> = Vec::new();
    let mut i: usize = 0;
    assert(names.take(0) =~= Seq::<Seq<char>>::empty());
    assert(strings_view(identity@) =~= Seq::<Seq<char>>::empty());
    while i < identity_fields.len()
        invariant
            names == strings_view(identity_fields@),
            names.len() == identity_fields@.len(),
            i <= names.len(),
            projected(config@, names.take(i as int)) == Some(strings_view(identity@)),
        decreases names.len() - i,
    {
        proof {
            assert(names.take(i + 1).drop_last() =~= names.take(i as int));
            assert(names.take(i + 1).last() == identity_fields@[i as int]@);
        }
        let found = match config.get(identity_fields[i].as_str()) {
            Some(field) => match &field.string {
                Some(s) => Some(s.clone()),
                None => None,
            },
            None => None,
        };
        match found {
            Some(s) => {
                let ghost before = strings_view(identity@);
                identity.push(s);
                assert(strings_view(identity@) =~= before.push(s@));
            },
            None => {
                proof {
                    lemma_projected_prefix(config@, names, i + 1);
                }
                return None;
            },
        }
        i += 1;
    }
    assert(names.take(names.len() as int) =~= names);
    Some(identity)
}

/// Settles the identity of a resource. What the connector supplied is
/// taken as it is; where it supplied nothing, the identity is derived from
/// the configuration.
pub fn resolve_identity(
    supplied: &Vec<String>,
    config: &ResourceConfig,
    identity_fields: &Vec<String>,
) -> (r: Option<Vec<String>>)
    ensures
        match r {
            Some(identity) => resolved_identity(
                strings_view(supplied@),
                config@,
                strings_view(identity_fields@),
            ) == Some(strings_view(identity@)) && identity@.len() > 0,
            None => resolved_identity(
                strings_view(supplied@),
                config@,
                strings_view(identity_fields@),
            ) is None,
        },
{
    proof {
        lemma_resolved_identity_nonempty(
            strings_view(supplied@),
            config@,
            strings_view(identity_fields@),
        );
    }
    if supplied.len() > 0 {
        Some(clone_strings(supplied))
    } else {
        derive_identity(config, identity_fields)
    }
}

/// What becomes of the discovered resource at `position`, given what its
/// two JSON texts were read as.
pub open spec fn assembled(
    resource: DiscoveredView,
    config: Option<Seq<FieldView>>,
    schema: Option<Seq<char>>,
    names: Seq<Seq<char>>,
    position: usize,
) -> Result<ResolvedView, DiscoverError> {
    match config {
        None => Err(DiscoverError::MalformedConfig(position)),
        Some(fields) => match schema {
            None => Err(DiscoverError::MalformedSchema(position)),
            Some(compact) => match resolved_identity(resource.resource_identity, fields, names) {
                None => Err(DiscoverError::UnresolvedIdentity(position)),
                Some(identity) => Ok(
                    ResolvedView {
                        recommended_name: resource.recommended_name,
                        resource_identity: identity,
                        resource_config: fields,
                        document_schema: compact,
                        key: resource.key,
                        disable: resource.disable,
                    },
                ),
            },
        },
    }
}

/// What becomes of the discovered resource at `position`.
pub open spec fn resolved(
    resource: DiscoveredView,
    names: Seq<Seq<char>>,
    position: usize,
) -> Result<ResolvedView, DiscoverError> {
    assembled(
        resource,
        json_object(resource.resource_config),
        json_compact(resource.document_schema),
        names,
        position,
    )
}

/// The view of what resolving a resource gives.
pub open spec fn resolved_one(r: Result<ResolvedResource, DiscoverError>) -> Result<
    ResolvedView,
    DiscoverError,
> {
    match r {
        Ok(resource) => Ok(resource@),
        Err(e) => Err(e),
    }
}

/// Puts a resolved resource together from a discovered one and from what
/// its resource configuration and its document schema were read as
/// (`None` for a text that could not be read).
pub fn assemble_resource(
    resource: &DiscoveredResource,
    config: Option<ResourceConfig>,
    schema: Option<String>,
    identity_fields: &Vec<String>,
    position: usize,
) -> (r: Result<ResolvedResource, DiscoverError>)
    ensures
        resolved_one(r) == assembled(
            resource@,
            config_view(config),
            compact_view(schema),
            strings_view(identity_fields@),
            position,
        ),
        r matches Ok(res) ==> res.resource_identity@.len() > 0,
{
    let config = match config {
        Some(c) => c,
        None => {
            return Err(DiscoverError::MalformedConfig(position));
        },
    };
    let schema = match schema {
        Some(s) => s,
        None => {
            return Err(DiscoverError::MalformedSchema(position));
        },
    };
    match resolve_identity(&resource.resource_identity, &config, identity_fields) {
        None => Err(DiscoverError::UnresolvedIdentity(position)),
        Some(identity) => Ok(
            ResolvedResource {
                recommended_name: resource.recommended_name.clone(),
                resource_identity: identity,
                resource_config: config,
                document_schema: schema,
                key: clone_strings(&resource.key),
                disable: resource.disable,
            },
        ),
    }
}

/// Reads the JSON of a discovered resource and settles its identity.
pub fn resolve_resource(
    resource: &DiscoveredResource,
    identity_fields: &Vec<String>,
    position: usize,
) -> (r: Result<ResolvedResource, DiscoverError>)
    ensures
        resolved_one(r) == resolved(resource@, strings_view(identity_fields@), position),
        r matches Ok(res) ==> res.resource_identity@.len() > 0,
{
    let config = ResourceConfig::parse(resource.resource_config.as_str());
    let schema = read_compact(resource.document_schema.as_str());
    assemble_resource(resource, config, schema, identity_fields, position)
}

/// What becomes of all the discovered resources: each resolved, in
/// order; or the error of the first that cannot be resolved.
pub open spec fn resolved_all(resources: Seq<DiscoveredView>, names: Seq<Seq<char>>) -> Result<
    Seq<ResolvedView>,
    DiscoverError,
>
    decreases resources.len(),
{
    if resources.len() == 0 {
        Ok(Seq::empty())
    } else {
        match resolved_all(resources.drop_last(), names) {
            Err(e) => Err(e),
            Ok(front) => match resolved(
                resources.last(),
                names,
                (resources.len() - 1) as usize,
            ) {
                Ok(r) => Ok(front.push(r)),
                Err(e) => Err(e),
            },
        }
    }
}

/// What resolving all resources gives, resource by resource. Where it is
/// `Ok`, each resource is resolved, in its place; where it is an error, it
/// is the error of the first resource that cannot be resolved.
pub proof fn lemma_resolved_all(resources: Seq<DiscoveredView>, names: Seq<Seq<char>>)
    ensures
        match resolved_all(resources, names) {
            Ok(all) => all.len() == resources.len() && forall|i: int|
                0 <= i < resources.len() ==> resolved(#[trigger] resources[i], names, i as usize)
                    == Ok::<ResolvedView, DiscoverError>(all[i]),
            Err(e) => exists|i: int|
                0 <= i < resources.len() && resolved(#[trigger] resources[i], names, i as usize)
                    == Err::<ResolvedView, DiscoverError>(e) && forall|j: int|
                    0 <= j < i ==> resolved(#[trigger] resources[j], names, j as usize) is Ok,
        },
    decreases resources.len(),
{
    if resources.len() > 0 {
        let front = resources.drop_last();
        let last = resolved(resources.last(), names, (resources.len() - 1) as usize);
        lemma_resolved_all(front, names);
        assert(forall|i: int| 0 <= i < front.len() ==> front[i] == resources[i]);
        match resolved_all(front, names) {
            Ok(all) => {
                match last {
                    Ok(r) => {
                        assert forall|i: int| 0 <= i < resources.len() implies resolved(
                            #[trigger] resources[i],
                            names,
                            i as usize,
                        ) == Ok::<ResolvedView, DiscoverError>(all.push(r)[i]) by {
                            if i < front.len() {
                                assert(resolved(front[i], names, i as usize) == Ok::<
                                    ResolvedView,
                                    DiscoverError,
                                >(all[i]));
                            }
                        }
                    },
                    Err(e) => {
                        let i = resources.len() - 1;
                        assert(resolved(resources[i], names, i as usize) == Err::<
                            ResolvedView,
                            DiscoverError,
                        >(e));
                        assert forall|j: int| 0 <= j < i implies resolved(
                            #[trigger] resources[j],
                            names,
                            j as usize,
                        ) is Ok by {
                            assert(resolved(front[j], names, j as usize) is Ok);
                        }
                    },
                }
            },
            Err(e) => {
                let i = choose|i: int|
                    0 <= i < front.len() && resolved(#[trigger] front[i], names, i as usize) == Err::<
                        ResolvedView,
                        DiscoverError,
                    >(e) && forall|j: int|
                        0 <= j < i ==> resolved(#[trigger] front[j], names, j as usize) is Ok;
                assert(resolved(resources[i], names, i as usize) == Err::<
                    ResolvedView,
                    DiscoverError,
                >(e));
                assert forall|j: int| 0 <= j < i implies resolved(
                    #[trigger] resources[j],
                    names,
                    j as usize,
                ) is Ok by {
                    assert(resolved(front[j], names, j as usize) is Ok);
                }
            },
        }
    }
}

/// An error among the first resources is the error of all of them.
proof fn lemma_resolved_all_prefix(resources: Seq<DiscoveredView>, names: Seq<Seq<char>>, i: int)
    requires
        0 <= i <= resources.len(),
        resolved_all(resources.take(i), names) is Err,
    ensures
        resolved_all(resources, names) == resolved_all(resources.take(i), names),
    decreases resources.len() - i,
{
    if i < resources.len() {
        assert(resources.take(i + 1).drop_last() =~= resources.take(i));
        lemma_resolved_all_prefix(resources, names, i + 1);
    } else {
        assert(resources.take(i) =~= resources);
    }
}

/// The view of what resolving gives.
pub open spec fn resolution_view(r: Result<Vec<ResolvedResource>, DiscoverError>) -> Result<
    Seq<ResolvedView>,
    DiscoverError,
> {
    match r {
        Ok(all) => Ok(resolved_view(all@)),
        Err(e) => Err(e),
    }
}

/// Resolves every discovered resource, in order. The first resource that
/// cannot be resolved gives the error, and then nothing is resolved.
pub fn resolve_resources(resources: &Vec<DiscoveredResource>, identity_fields: &Vec<String>) -> (r:
    Result<Vec<ResolvedResource>, DiscoverError>)
    ensures
        resolution_view(r) == resolved_all(
            discovered_view(resources@),
            strings_view(identity_fields@),
        ),
        r matches Ok(all) ==> forall|i: int|
            0 <= i < all@.len() ==> (#[trigger] all@[i]).resource_identity@.len() > 0,
{
    let ghost names = strings_view(identity_fields@);
    let ghost views = discovered_view(resources@);
    let mut all: Vec<ResolvedResource> = Vec::new();
    let mut i: usize = 0;
    proof {
        assert(views.take(0) =~= Seq::<DiscoveredView>::empty());
        assert(resolved_view(all@) =~= Seq::<ResolvedView>::empty());
    }
    while i < resources.len()
        invariant
            names == strings_view(identity_fields@),
            views == discovered_view(resources@),
            i <= resources@.len(),
            resolved_all(views.take(i as int), names) == Ok::<Seq<ResolvedView>, DiscoverError>(
                resolved_view(all@),
            ),
            forall|j: int|
                0 <= j < all@.len() ==> (#[trigger] all@[j]).resource_identity@.len() > 0,
        decreases resources@.len() - i,
    {
        proof {
            assert(views.take(i + 1).drop_last() =~= views.take(i as int));
            assert(views.take(i + 1).last() == resources@[i as int]@);
        }
        match resolve_resource(&resources[i], identity_fields, i) {
            Ok(resource) => {
                let ghost before = resolved_view(all@);
                all.push(resource);
                assert(resolved_view(all@) =~= before.push(resource@));
            },
            Err(e) => {
                proof {
                    lemma_resolved_all_prefix(views, names, i + 1);
                }
                return Err(e);
            },
        }
        i += 1;
    }
    assert(views.take(resources@.len() as int) =~= views);
    Ok(all)
}

} // verus!
