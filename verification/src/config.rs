//! Resource configurations: the JSON object by which a binding tells the
//! connector which resource it means, kept member by member.

use vstd::prelude::*;
use vstd::string::*;
use crate::json::{json_object, read_object};
use crate::text::same_text;
use crate::search::{
    any, find_first, lemma_find_first, lemma_find_first_push, lemma_found_first, lemma_found_none,
};

verus! {

/// One member of a resource configuration.
#[derive(Debug, PartialEq, Eq)]
pub struct ConfigField {
    /// The member's name.
    pub name: String,
    /// The member's value, as compact JSON text.
    pub json: String,
    /// The string that the value holds, where it is a JSON string.
    pub string: Option<String>,
}

/// The mathematical value of a [`ConfigField`].
pub struct FieldView {
    pub name: Seq<char>,
    pub json: Seq<char>,
    pub string: Option<Seq<char>>,
}

impl View for ConfigField {
    type V = FieldView;

    open spec fn view(&self) -> FieldView {
        FieldView {
            name: self.name@,
            json: self.json@,
            string: match self.string {
                Some(s) => Some(s@),
                None => None,
            },
        }
    }
}

/// The views of a sequence of fields.
pub open spec fn fields_view(fields: Seq<ConfigField>) -> Seq<FieldView> {
    fields.map_values(|f: ConfigField| f@)
}

/// The condition of having the name `name`.
pub open spec fn field_named(name: Seq<char>) -> spec_fn(FieldView) -> bool {
    |f: FieldView| f.name == name
}

/// Whether `fields` holds a member of that name.
pub open spec fn has_field(fields: Seq<FieldView>, name: Seq<char>) -> bool {
    any(fields, field_named(name))
}

/// The first member of that name.
pub open spec fn lookup(fields: Seq<FieldView>, name: Seq<char>) -> Option<FieldView> {
    match find_first(fields, field_named(name)) {
        Some(i) => Some(fields[i]),
        None => None,
    }
}

/// No two members share a name.
pub open spec fn distinct_names(fields: Seq<FieldView>) -> bool {
    forall|i: int, j: int|
        0 <= i < j < fields.len() ==> (#[trigger] fields[i]).name != (#[trigger] fields[j]).name
}

/// The merge of a live configuration with a discovered one: the live
/// members as they are, followed by each discovered member whose name is
/// not there yet, in the discovered order.
pub open spec fn merged_fields(live: Seq<FieldView>, discovered: Seq<FieldView>) -> Seq<FieldView>
    decreases discovered.len(),
{
    if discovered.len() == 0 {
        live
    } else {
        let merged = merged_fields(live, discovered.drop_last());
        if has_field(merged, discovered.last().name) {
            merged
        } else {
            merged.push(discovered.last())
        }
    }
}

/// Precedence in a merge: a name that the live configuration has keeps its
/// live member; a name that only the discovered configuration has gets the
/// discovered member; and the merge has no other names.
pub proof fn lemma_merge_precedence(
    live: Seq<FieldView>,
    discovered: Seq<FieldView>,
    name: Seq<char>,
)
    ensures
        has_field(live, name) ==> lookup(merged_fields(live, discovered), name) == lookup(
            live,
            name,
        ),
        !has_field(live, name) ==> lookup(merged_fields(live, discovered), name) == lookup(
            discovered,
            name,
        ),
        has_field(merged_fields(live, discovered), name) <==> has_field(live, name) || has_field(
            discovered,
            name,
        ),
    decreases discovered.len(),
{
    if discovered.len() > 0 {
        let rest = discovered.drop_last();
        let last = discovered.last();
        let merged = merged_fields(live, rest);
        lemma_merge_precedence(live, rest, name);
        lemma_merge_precedence(live, rest, last.name);
        assert(rest.push(last) =~= discovered);
        lemma_find_first_push(rest, last, field_named(name));
        lemma_find_first_push(merged, last, field_named(name));
        lemma_find_first(rest, field_named(name));
        lemma_find_first(merged, field_named(name));
        assert(forall|i: int| 0 <= i < rest.len() ==> rest[i] == discovered[i]);
        assert(forall|i: int| 0 <= i < merged.len() ==> merged.push(last)[i] == merged[i]);
    }
}

/// A merge leaves the live members where they were.
pub proof fn lemma_merge_extends(live: Seq<FieldView>, discovered: Seq<FieldView>)
    ensures
        live.len() <= merged_fields(live, discovered).len(),
        merged_fields(live, discovered).take(live.len() as int) == live,
    decreases discovered.len(),
{
    if discovered.len() > 0 {
        lemma_merge_extends(live, discovered.drop_last());
        let merged = merged_fields(live, discovered.drop_last());
        assert(merged.push(discovered.last()).take(live.len() as int) =~= merged.take(
            live.len() as int,
        ));
    } else {
        assert(live.take(live.len() as int) =~= live);
    }
}

/// A merge keeps the names apart: where no two live members share a name,
/// no two members of the merge do.
pub proof fn lemma_merge_keeps_names_distinct(live: Seq<FieldView>, discovered: Seq<FieldView>)
    requires
        distinct_names(live),
    ensures
        distinct_names(merged_fields(live, discovered)),
    decreases discovered.len(),
{
    if discovered.len() > 0 {
        let merged = merged_fields(live, discovered.drop_last());
        let last = discovered.last();
        lemma_merge_keeps_names_distinct(live, discovered.drop_last());
        if !has_field(merged, last.name) {
            lemma_find_first(merged, field_named(last.name));
            let all = merged.push(last);
            assert forall|i: int, j: int| 0 <= i < j < all.len() implies (#[trigger] all[i]).name != (
            #[trigger] all[j]).name by {
                assert(all[i] == merged[i]);
                if j < merged.len() {
                    assert(all[j] == merged[j]);
                } else {
                    assert(!field_named(last.name)(merged[i]));
                }
            }
        }
    }
}

/// A merge changes nothing where every discovered name is there already.
pub proof fn lemma_merge_nothing_new(live: Seq<FieldView>, discovered: Seq<FieldView>)
    requires
        forall|i: int| 0 <= i < discovered.len() ==> has_field(live, #[trigger] discovered[i].name),
    ensures
        merged_fields(live, discovered) == live,
    decreases discovered.len(),
{
    if discovered.len() > 0 {
        let rest = discovered.drop_last();
        assert(forall|i: int| 0 <= i < rest.len() ==> rest[i] == discovered[i]);
        lemma_merge_nothing_new(live, rest);
        assert(has_field(live, discovered[discovered.len() - 1].name));
    }
}

/// Merging the same discovered configuration a second time changes nothing.
pub proof fn lemma_merge_idempotent(live: Seq<FieldView>, discovered: Seq<FieldView>)
    ensures
        merged_fields(merged_fields(live, discovered), discovered) == merged_fields(
            live,
            discovered,
        ),
{
    let merged = merged_fields(live, discovered);
    assert forall|i: int| 0 <= i < discovered.len() implies has_field(
        merged,
        #[trigger] discovered[i].name,
    ) by {
        let name = discovered[i].name;
        lemma_merge_precedence(live, discovered, name);
        assert(field_named(name)(discovered[i]));
        crate::search::lemma_any(discovered, field_named(name));
    }
    lemma_merge_nothing_new(merged, discovered);
}

/// The view of a configuration that may be absent.
pub open spec fn config_view(config: Option<ResourceConfig>) -> Option<Seq<FieldView>> {
    match config {
        Some(c) => Some(c@),
        None => None,
    }
}

/// A resource configuration: the members of a JSON object.
#[derive(Debug, PartialEq, Eq)]
pub struct ResourceConfig {
    pub fields: Vec<ConfigField>,
}

impl View for ResourceConfig {
    type V = Seq<FieldView>;

    open spec fn view(&self) -> Seq<FieldView> {
        fields_view(self.fields@)
    }
}

impl Clone for ConfigField {
    fn clone(&self) -> (r: ConfigField)
        ensures
            r@ == self@,
    {
        ConfigField {
            name: self.name.clone(),
            json: self.json.clone(),
            string: match &self.string {
                Some(s) => Some(s.clone()),
                None => None,
            },
        }
    }
}

impl ResourceConfig {
    /// The configuration without members.
    pub fn empty() -> (r: ResourceConfig)
        ensures
            r@ == Seq::<FieldView>::empty(),
    {
        let r = ResourceConfig { fields: Vec::new() };
        assert(r@ =~= Seq::<FieldView>::empty());
        r
    }

    /// Reads a configuration from JSON text. The text must be a JSON
    /// object; any other text gives `None`.
    pub fn parse(text: &str) -> (r: Option<ResourceConfig>)
        ensures
            config_view(r) == json_object(text@),
    {
        match read_object(text) {
            Some(fields) => Some(ResourceConfig { fields }),
            None => None,
        }
    }

    /// The position of the first member of that name.
    pub fn position(&self, name: &str) -> (r: Option<usize>)
        ensures
            match r {
                Some(i) => find_first(self@, field_named(name@)) == Some(i as int),
                None => find_first(self@, field_named(name@)) is None,
            },
    {
        let mut i: usize = 0;
        while i < self.fields.len()
            invariant
                i <= self.fields@.len(),
                self@.len() == self.fields@.len(),
                forall|j: int| 0 <= j < i ==> self@[j].name != name@,
            decreases self.fields@.len() - i,
        {
            assert(self@[i as int] == self.fields@[i as int]@);
            if same_text(self.fields[i].name.as_str(), name) {
                proof {
                    lemma_found_first(self@, field_named(name@), i as int);
                }
                return Some(i);
            }
            i += 1;
        }
        proof {
            lemma_found_none(self@, field_named(name@));
        }
        None
    }

    /// Whether there is a member of that name.
    pub fn has(&self, name: &str) -> (r: bool)
        ensures
            r == has_field(self@, name@),
    {
        self.position(name).is_some()
    }

    /// The first member of that name.
    pub fn get(&self, name: &str) -> (r: Option<&ConfigField>)
        ensures
            match r {
                Some(f) => lookup(self@, name@) == Some(f@),
                None => lookup(self@, name@) is None,
            },
    {
        match self.position(name) {
            Some(i) => {
                proof {
                    lemma_find_first(self@, field_named(name@));
                }
                Some(&self.fields[i])
            },
            None => None,
        }
    }
}

impl Clone for ResourceConfig {
    fn clone(&self) -> (r: ResourceConfig)
        ensures
            r@ == self@,
    {
        let mut fields: Vec<ConfigField> = Vec::new();
        let mut i: usize = 0;
        while i < self.fields.len()
            invariant
                i <= self.fields@.len(),
                fields@.len() == i,
                forall|j: int| 0 <= j < i ==> fields@[j]@ == self.fields@[j]@,
            decreases self.fields@.len() - i,
        {
            fields.push(self.fields[i].clone());
            i += 1;
        }
        let r = ResourceConfig { fields };
        assert(r@ =~= self@);
        r
    }
}

/// Merges a discovered configuration into a live one. Every live member
/// stays as it is; a discovered member is added where the live
/// configuration has none of its name.
pub fn merge_config(live: &ResourceConfig, discovered: &ResourceConfig) -> (r: ResourceConfig)
    ensures
        r@ == merged_fields(live@, discovered@),
        distinct_names(live@) ==> distinct_names(r@),
{
    proof {
        if distinct_names(live@) {
            lemma_merge_keeps_names_distinct(live@, discovered@);
        }
    }
    let mut merged = live.clone();
    let mut i: usize = 0;
    assert(discovered@.take(0) =~= Seq::<FieldView>::empty());
    while i < discovered.fields.len()
        invariant
            i <= discovered.fields@.len(),
            merged@ == merged_fields(live@, discovered@.take(i as int)),
        decreases discovered.fields@.len() - i,
    {
        let field = &discovered.fields[i];
        proof {
            assert(discovered@.take(i + 1).drop_last() =~= discovered@.take(i as int));
            assert(discovered@.take(i + 1).last() == field@);
        }
        if !merged.has(field.name.as_str()) {
            let ghost before = merged@;
            merged.fields.push(field.clone());
            assert(merged@ =~= before.push(field@));
        }
        i += 1;
    }
    assert(discovered@.take(discovered@.len() as int) =~= discovered@);
    merged
}

} // verus!
