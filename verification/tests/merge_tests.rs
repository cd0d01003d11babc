use auto_discover::config::ResourceConfig;
use auto_discover::merge::{
    bind_new, find_resource, first_repeat, is_bound, merge_bindings, merge_pair, pair_modified,
};
use auto_discover::model::{
    changes, clone_bindings, clone_changes, Binding, CaptureBinding, Changes, DiscoverChange,
    DiscoverError, ResolvedResource,
};
use auto_discover::order::insert_sorted;
use auto_discover::publication::publication_needed;

fn strings(items: &[&str]) -> Vec<String> {
    items.iter().map(|s| s.to_string()).collect()
}

fn binding(id: &str, config: &str, target: &str, disable: bool) -> CaptureBinding {
    CaptureBinding {
        binding: Binding {
            resource_identity: strings(&[id]),
            resource_config: ResourceConfig::parse(config).unwrap(),
            target_collection: target.to_string(),
            disable,
            backfill: 0,
        },
        document_schema: r#"{"v":1}"#.to_string(),
        key: strings(&["/id"]),
    }
}

fn found(id: &str, config: &str, schema: &str, key: &[&str], disable: bool) -> ResolvedResource {
    ResolvedResource {
        recommended_name: id.to_string(),
        resource_identity: strings(&[id]),
        resource_config: ResourceConfig::parse(config).unwrap(),
        document_schema: schema.to_string(),
        key: strings(key),
        disable,
    }
}

fn same(id: &str) -> ResolvedResource {
    found(id, "{}", r#"{"v":1}"#, &["/id"], false)
}

fn targets(bindings: &[CaptureBinding]) -> Vec<&str> {
    bindings.iter().map(|b| b.binding.target_collection.as_str()).collect()
}

fn nothing() -> Vec<DiscoverChange> {
    Vec::new()
}

#[test]
fn a_matched_binding_takes_schema_and_key_and_keeps_its_configuration() {
    let live = binding("grass", r#"{"id": "grass", "mode": "fast"}"#, "t/alpine", false);
    let resource =
        found("grass", r#"{"id": "other", "new": 1}"#, r#"{"v":2}"#, &["/id", "/n"], false);
    assert!(pair_modified(&live, &resource));
    let merged = merge_pair(&live, &resource);
    assert_eq!(merged.document_schema, r#"{"v":2}"#);
    assert_eq!(merged.key, strings(&["/id", "/n"]));
    assert_eq!(merged.binding.target_collection, "t/alpine");
    assert_eq!(merged.binding.resource_identity, strings(&["grass"]));
    assert!(!merged.binding.disable);
    assert_eq!(merged.binding.backfill, 0);
    let config = &merged.binding.resource_config;
    assert_eq!(config.get("id").unwrap().json, r#""grass""#);
    assert_eq!(config.get("mode").unwrap().json, r#""fast""#);
    assert_eq!(config.get("new").unwrap().json, "1");
}

#[test]
fn disable_goes_one_way() {
    let enabled = binding("a", "{}", "t/a", false);
    let disabled = binding("a", "{}", "t/a", true);
    let says_enabled = found("a", "{}", r#"{"v":1}"#, &["/id"], false);
    let says_disabled = found("a", "{}", r#"{"v":1}"#, &["/id"], true);

    assert!(!merge_pair(&enabled, &says_enabled).binding.disable);
    assert!(merge_pair(&enabled, &says_disabled).binding.disable);
    assert!(merge_pair(&disabled, &says_enabled).binding.disable);
    assert!(merge_pair(&disabled, &says_disabled).binding.disable);

    assert!(!pair_modified(&enabled, &says_enabled));
    assert!(pair_modified(&enabled, &says_disabled));
    assert!(!pair_modified(&disabled, &says_enabled));
    assert!(!pair_modified(&disabled, &says_disabled));
}

#[test]
fn a_change_of_configuration_alone_is_not_a_modification() {
    let live = binding("a", r#"{"id": "a"}"#, "t/a", false);
    let resource = found("a", r#"{"id": "a", "more": true}"#, r#"{"v":1}"#, &["/id"], false);
    assert!(!pair_modified(&live, &resource));
    let merged =
        merge_bindings(&vec![live.clone()], &vec![resource], true, "t", &Vec::new()).unwrap();
    assert!(merged.changes.is_empty());
    assert!(!publication_needed(&merged.changes));
    assert_eq!(merged.bindings.len(), 1);
    assert!(merged.bindings[0].binding.resource_config.has("more"));
}

#[test]
fn a_change_of_schema_or_key_is_a_modification() {
    let live = binding("a", "{}", "t/a", false);
    assert!(pair_modified(&live, &found("a", "{}", r#"{"v":2}"#, &["/id"], false)));
    assert!(pair_modified(&live, &found("a", "{}", r#"{"v":1}"#, &["/id", "/x"], false)));
    assert!(pair_modified(&live, &found("a", "{}", r#"{"v":1}"#, &[], false)));
    assert!(!pair_modified(&live, &found("a", "{}", r#"{"v":1}"#, &["/id"], false)));
}

#[test]
fn a_new_binding_is_what_the_connector_reports() {
    let resource = found("moss", r#"{"id": "moss"}"#, r#"{"v":3}"#, &["/k"], true);
    let made = bind_new(&resource, "t/moss".to_string());
    assert_eq!(made.binding.resource_identity, strings(&["moss"]));
    assert_eq!(made.binding.resource_config, resource.resource_config);
    assert_eq!(made.binding.target_collection, "t/moss");
    assert!(made.binding.disable);
    assert_eq!(made.binding.backfill, 0);
    assert_eq!(made.document_schema, r#"{"v":3}"#);
    assert_eq!(made.key, strings(&["/k"]));
}

#[test]
fn resources_and_bindings_are_found_by_identity() {
    let resources = vec![same("a"), same("b"), same("a")];
    assert_eq!(find_resource(&resources, &strings(&["a"])), Some(0));
    assert_eq!(find_resource(&resources, &strings(&["b"])), Some(1));
    assert_eq!(find_resource(&resources, &strings(&["c"])), None);
    assert_eq!(find_resource(&resources, &strings(&["a", "b"])), None);
    assert_eq!(find_resource(&resources, &strings(&[])), None);
    let live = vec![binding("a", "{}", "t/a", false)];
    assert!(is_bound(&live, &strings(&["a"])));
    assert!(!is_bound(&live, &strings(&["t/a"])));
    assert!(!is_bound(&Vec::new(), &strings(&["a"])));
}

#[test]
fn a_repeated_identity_is_found() {
    assert_eq!(first_repeat(&Vec::new()), None);
    assert_eq!(first_repeat(&vec![same("a"), same("b"), same("c")]), None);
    assert_eq!(first_repeat(&vec![same("a"), same("b"), same("a")]), Some(2));
    assert_eq!(first_repeat(&vec![same("a"), same("b"), same("b"), same("a")]), Some(2));
    assert_eq!(first_repeat(&vec![same("a"), same("a"), same("a")]), Some(1));
}

#[test]
fn two_resources_of_one_identity_are_an_error() {
    let live = vec![binding("a", "{}", "t/a", false)];
    let resources = vec![same("b"), same("a"), same("b"), same("a")];
    for add_new in [false, true] {
        assert_eq!(
            merge_bindings(&live, &resources, add_new, "t", &Vec::new()),
            Err(DiscoverError::DuplicateIdentity(2))
        );
    }
}

#[test]
fn bindings_are_kept_added_and_removed() {
    let live = vec![
        binding("stay", "{}", "t/stay", false),
        binding("gone", "{}", "t/gone", true),
        binding("drift", "{}", "t/drift", false),
    ];
    let resources = vec![
        found("new", r#"{"id": "new"}"#, r#"{"v":1}"#, &["/id"], false),
        found("drift", "{}", r#"{"v":2}"#, &["/id"], false),
        same("stay"),
        found("also", "{}", r#"{"v":1}"#, &["/id"], true),
    ];
    let merged = merge_bindings(&live, &resources, true, "t", &Vec::new()).unwrap();
    assert_eq!(
        merged.changes.added,
        changes(&[(&["new"], "t/new", false), (&["also"], "t/also", true)])
    );
    assert_eq!(merged.changes.modified, changes(&[(&["drift"], "t/drift", false)]));
    assert_eq!(merged.changes.removed, changes(&[(&["gone"], "t/gone", true)]));
    assert!(publication_needed(&merged.changes));
    assert_eq!(targets(&merged.bindings), vec!["t/also", "t/drift", "t/new", "t/stay"]);
    assert_eq!(merged.bindings[1].document_schema, r#"{"v":2}"#);
    assert_eq!(merged.bindings[3], live[0]);
}

#[test]
fn without_leave_to_add_nothing_is_added() {
    let live = vec![binding("stay", "{}", "t/stay", false), binding("gone", "{}", "t/gone", false)];
    let resources = vec![same("new"), same("stay"), same("other")];
    let merged = merge_bindings(&live, &resources, false, "t", &Vec::new()).unwrap();
    assert_eq!(merged.changes.added, nothing());
    assert_eq!(merged.changes.modified, nothing());
    // Removal does not depend on the leave to add.
    assert_eq!(merged.changes.removed, changes(&[(&["gone"], "t/gone", false)]));
    assert_eq!(targets(&merged.bindings), vec!["t/stay"]);
}

#[test]
fn an_empty_answer_removes_every_binding() {
    let live = vec![binding("a", "{}", "t/a", false), binding("b", "{}", "t/b", true)];
    for add_new in [false, true] {
        let merged = merge_bindings(&live, &Vec::new(), add_new, "t", &Vec::new()).unwrap();
        assert!(merged.bindings.is_empty());
        assert_eq!(
            merged.changes.removed,
            changes(&[(&["a"], "t/a", false), (&["b"], "t/b", true)])
        );
    }
    let merged = merge_bindings(&Vec::new(), &Vec::new(), true, "t", &Vec::new()).unwrap();
    assert!(merged.changes.is_empty());
    assert!(merged.bindings.is_empty());
}

#[test]
fn a_disabled_binding_stays_disabled_in_a_merge() {
    let live = vec![binding("a", "{}", "t/a", true), binding("b", "{}", "t/b", true)];
    let resources = vec![
        found("a", "{}", r#"{"v":1}"#, &["/id"], false),
        found("b", "{}", r#"{"v":9}"#, &["/id"], false),
    ];
    for add_new in [false, true] {
        let merged = merge_bindings(&live, &resources, add_new, "t", &Vec::new()).unwrap();
        assert!(merged.bindings.iter().all(|b| b.binding.disable));
        assert_eq!(merged.changes.modified, changes(&[(&["b"], "t/b", true)]));
    }
}

#[test]
fn a_name_that_is_taken_is_not_given_again() {
    let live = vec![binding("old", "{}", "t/grass", false)];
    let mut grass = same("grass");
    grass.recommended_name = "grass".to_string();
    let mut twin = same("twin");
    twin.recommended_name = "grass".to_string();
    let mut moss = same("moss");
    moss.recommended_name = "moss".to_string();
    let merged = merge_bindings(
        &live,
        &vec![grass, twin, moss, same("old")],
        true,
        "t",
        &strings(&["t/moss", "t/grass_2"]),
    )
    .unwrap();
    assert_eq!(
        merged.changes.added,
        changes(&[
            (&["grass"], "t/grass_3", false),
            (&["twin"], "t/grass_4", false),
            (&["moss"], "t/moss_2", false)
        ])
    );
    assert_eq!(targets(&merged.bindings), vec!["t/grass", "t/grass_3", "t/grass_4", "t/moss_2"]);
}

#[test]
fn the_target_of_a_removed_binding_is_still_taken() {
    let live = vec![binding("old", "{}", "t/grass", false)];
    let merged = merge_bindings(&live, &vec![same("grass")], true, "t", &Vec::new()).unwrap();
    assert_eq!(merged.changes.added, changes(&[(&["grass"], "t/grass_2", false)]));
    assert_eq!(merged.changes.removed, changes(&[(&["old"], "t/grass", false)]));
}

#[test]
fn bindings_are_matched_by_identity_and_not_by_target() {
    let live = vec![binding("grass", "{}", "t/renamed_v7", false)];
    let mut resource = same("grass");
    resource.recommended_name = "grass".to_string();
    let merged = merge_bindings(&live, &vec![resource], true, "t", &Vec::new()).unwrap();
    assert!(merged.changes.is_empty());
    assert_eq!(targets(&merged.bindings), vec!["t/renamed_v7"]);
}

#[test]
fn the_result_is_in_the_order_of_the_targets() {
    let live = vec![
        binding("1", "{}", "t/m", false),
        binding("2", "{}", "t/c", false),
        binding("3", "{}", "t/x", false),
        binding("4", "{}", "t/c", false),
    ];
    let resources = vec![same("4"), same("zz"), same("1"), same("2"), same("3"), same("a")];
    let merged = merge_bindings(&live, &resources, true, "t", &Vec::new()).unwrap();
    assert_eq!(targets(&merged.bindings), vec!["t/a", "t/c", "t/c", "t/m", "t/x", "t/zz"]);
    // Bindings of one target keep the order they had.
    assert_eq!(merged.bindings[1].binding.resource_identity, strings(&["2"]));
    assert_eq!(merged.bindings[2].binding.resource_identity, strings(&["4"]));
}

#[test]
fn merging_the_same_resources_again_changes_nothing() {
    let live = vec![
        binding("stay", r#"{"id": "stay"}"#, "t/stay", false),
        binding("gone", "{}", "t/gone", true),
        binding("drift", "{}", "t/drift", false),
    ];
    let resources = vec![
        found("new", r#"{"id": "new"}"#, r#"{"v":1}"#, &["/id"], false),
        found("drift", r#"{"more": 1}"#, r#"{"v":2}"#, &["/k"], true),
        found("stay", r#"{"id": "else", "x": null}"#, r#"{"v":1}"#, &["/id"], false),
    ];
    for add_new in [false, true] {
        let first = merge_bindings(&live, &resources, add_new, "t", &Vec::new()).unwrap();
        assert!(!first.changes.is_empty());
        let second = merge_bindings(
            &first.bindings,
            &resources,
            add_new,
            "t",
            &strings(&["t/new", "t/whatever"]),
        )
        .unwrap();
        assert!(second.changes.is_empty());
        assert!(!publication_needed(&second.changes));
        assert_eq!(second.bindings, first.bindings);
    }
}

#[test]
fn insertion_keeps_the_order() {
    let mut list: Vec<CaptureBinding> = Vec::new();
    for (id, target) in [("1", "m"), ("2", "a"), ("3", "z"), ("4", "m"), ("5", "b"), ("6", "")] {
        insert_sorted(&mut list, binding(id, "{}", target, false));
    }
    assert_eq!(targets(&list), vec!["", "a", "b", "m", "m", "z"]);
    let ids: Vec<&str> = list.iter().map(|b| b.binding.resource_identity[0].as_str()).collect();
    assert_eq!(ids, vec!["6", "2", "5", "1", "4", "3"]);
}

#[test]
fn changes_are_built_from_triples() {
    let built = changes(&[(&["grass"], "pikas/alpine-grass", false), (&["a", "b"], "x", true), (&[], "", false)]);
    assert_eq!(
        built,
        vec![
            DiscoverChange {
                resource_identity: strings(&["grass"]),
                target_collection: "pikas/alpine-grass".to_string(),
                disable: false,
            },
            DiscoverChange {
                resource_identity: strings(&["a", "b"]),
                target_collection: "x".to_string(),
                disable: true,
            },
            DiscoverChange {
                resource_identity: Vec::new(),
                target_collection: String::new(),
                disable: false,
            },
        ]
    );
    assert_eq!(changes(&[]), nothing());
    assert_eq!(
        DiscoverChange::of(&binding("a", "{}", "t/a", true).binding),
        changes(&[(&["a"], "t/a", true)])[0]
    );
}

#[test]
fn copies_are_equal() {
    let list = vec![binding("a", r#"{"id": "a"}"#, "t/a", true), binding("b", "{}", "t/b", false)];
    assert_eq!(clone_bindings(&list), list);
    assert_eq!(list[0].clone(), list[0]);
    assert_eq!(list[0].binding.clone(), list[0].binding);
    let some = changes(&[(&["a"], "t/a", true), (&["b"], "t/b", false)]);
    assert_eq!(clone_changes(&some), some);
    assert_eq!(some[0].clone(), some[0]);
    let all = Changes { added: some.clone(), modified: Vec::new(), removed: some };
    assert_eq!(all.clone(), all);
    assert!(!all.is_empty());
    assert!(Changes { added: nothing(), modified: nothing(), removed: nothing() }.is_empty());
    assert!(!Changes { added: nothing(), modified: changes(&[(&[], "", false)]), removed: nothing() }
        .is_empty());
}
