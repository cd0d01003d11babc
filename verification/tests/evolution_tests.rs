use auto_discover::config::ResourceConfig;
use auto_discover::evolution::{evolve, retarget_bindings, writes_to, Recreation};
use auto_discover::materialization::{
    add_source_bindings, apply_recreation, binding_for_target, check_backfill, reads,
};
use auto_discover::model::{Binding, CaptureBinding};
use auto_discover::status::{ChangeReason, IncompatibleCollection};

fn strings(items: &[&str]) -> Vec<String> {
    items.iter().map(|s| s.to_string()).collect()
}

fn binding(id: &str, target: &str, backfill: u32) -> Binding {
    Binding {
        resource_identity: strings(&[id]),
        resource_config: ResourceConfig::parse(r#"{"id": 1}"#).unwrap(),
        target_collection: target.to_string(),
        disable: false,
        backfill,
    }
}

fn writes(id: &str, target: &str) -> CaptureBinding {
    CaptureBinding {
        binding: binding(id, target, 0),
        document_schema: "{}".to_string(),
        key: strings(&["/id"]),
    }
}

fn key_change(name: &str) -> IncompatibleCollection {
    IncompatibleCollection {
        collection: name.to_string(),
        requires_recreation: vec![ChangeReason::KeyChange],
    }
}

fn recreation(old_name: &str, new_name: &str) -> Recreation {
    Recreation { old_name: old_name.to_string(), new_name: new_name.to_string() }
}

fn targets(bindings: &[CaptureBinding]) -> Vec<&str> {
    bindings.iter().map(|b| b.binding.target_collection.as_str()).collect()
}

#[test]
fn an_incompatible_collection_is_recreated_under_its_next_version() {
    let bindings = vec![writes("grass", "pikas/alpine-grass"), writes("moss", "pikas/moss")];
    let evolved = evolve(&bindings, &vec![key_change("pikas/alpine-grass")], &Vec::new());
    assert_eq!(evolved.recreated, vec![recreation("pikas/alpine-grass", "pikas/alpine-grass_v2")]);
    assert_eq!(targets(&evolved.bindings), vec!["pikas/alpine-grass_v2", "pikas/moss"]);
    // But for its target the binding is as it was.
    let mut expected = bindings[0].clone();
    expected.binding.target_collection = "pikas/alpine-grass_v2".to_string();
    assert_eq!(evolved.bindings[0], expected);
    assert_eq!(evolved.bindings[1], bindings[1]);
}

#[test]
fn the_new_name_is_none_that_is_taken() {
    let bindings = vec![writes("a", "t/a"), writes("b", "t/a_v2"), writes("c", "t/c_v4")];
    let evolved = evolve(
        &bindings,
        &vec![key_change("t/a"), key_change("t/c_v4")],
        &strings(&["t/a_v3", "t/c_v5", "t/c_v2"]),
    );
    assert_eq!(
        evolved.recreated,
        vec![recreation("t/a", "t/a_v4"), recreation("t/c_v4", "t/c_v6")]
    );
    assert_eq!(targets(&evolved.bindings), vec!["t/a_v2", "t/a_v4", "t/c_v6"]);
}

#[test]
fn two_collections_of_one_first_name_get_different_names() {
    let bindings = vec![writes("a", "t/a"), writes("b", "t/a_v2")];
    let evolved = evolve(&bindings, &vec![key_change("t/a"), key_change("t/a_v2")], &Vec::new());
    assert_eq!(
        evolved.recreated,
        vec![recreation("t/a", "t/a_v3"), recreation("t/a_v2", "t/a_v4")]
    );
    assert_eq!(targets(&evolved.bindings), vec!["t/a_v3", "t/a_v4"]);
}

#[test]
fn what_need_not_be_recreated_is_left_alone() {
    let bindings = vec![writes("a", "t/a"), writes("b", "t/b")];
    let listed = vec![
        IncompatibleCollection { collection: "t/a".to_string(), requires_recreation: Vec::new() },
        key_change("t/elsewhere"),
    ];
    let evolved = evolve(&bindings, &listed, &Vec::new());
    assert!(evolved.recreated.is_empty());
    assert_eq!(evolved.bindings, bindings);
    let evolved = evolve(&bindings, &Vec::new(), &strings(&["t/a_v2"]));
    assert!(evolved.recreated.is_empty());
    assert_eq!(evolved.bindings, bindings);
}

#[test]
fn a_collection_listed_twice_is_recreated_once() {
    let bindings = vec![writes("a", "t/a")];
    let listed = vec![
        key_change("t/a"),
        IncompatibleCollection {
            collection: "t/a".to_string(),
            requires_recreation: vec![ChangeReason::PartitionChange],
        },
    ];
    let evolved = evolve(&bindings, &listed, &Vec::new());
    assert_eq!(evolved.recreated, vec![recreation("t/a", "t/a_v2")]);
    assert_eq!(targets(&evolved.bindings), vec!["t/a_v2"]);
}

#[test]
fn every_binding_of_the_collection_is_retargeted_and_the_order_is_kept() {
    let bindings =
        vec![writes("1", "t/b"), writes("2", "t/c"), writes("3", "t/c"), writes("4", "t/d")];
    let evolved = evolve(&bindings, &vec![key_change("t/b")], &strings(&["t/b_v2", "t/b_v3"]));
    assert_eq!(evolved.recreated, vec![recreation("t/b", "t/b_v4")]);
    assert_eq!(targets(&evolved.bindings), vec!["t/b_v4", "t/c", "t/c", "t/d"]);

    let bindings = vec![writes("1", "t/a_v9"), writes("2", "t/a_v9"), writes("3", "t/a_v10")];
    let evolved = evolve(&bindings, &vec![key_change("t/a_v9")], &Vec::new());
    assert_eq!(evolved.recreated, vec![recreation("t/a_v9", "t/a_v11")]);
    assert_eq!(targets(&evolved.bindings), vec!["t/a_v10", "t/a_v11", "t/a_v11"]);
    let ids: Vec<&str> =
        evolved.bindings.iter().map(|b| b.binding.resource_identity[0].as_str()).collect();
    assert_eq!(ids, vec!["3", "1", "2"]);
}

#[test]
fn bindings_are_retargeted_in_place() {
    let mut bindings = vec![writes("1", "t/z"), writes("2", "t/a"), writes("3", "t/z")];
    assert!(writes_to(&bindings, "t/z"));
    assert!(!writes_to(&bindings, "t/y"));
    assert!(!writes_to(&Vec::new(), "t/z"));
    retarget_bindings(&mut bindings, "t/z", "t/y");
    assert_eq!(targets(&bindings), vec!["t/y", "t/a", "t/y"]);
    retarget_bindings(&mut bindings, "t/none", "t/other");
    assert_eq!(targets(&bindings), vec!["t/y", "t/a", "t/y"]);
}

#[test]
fn a_materialization_follows_a_recreation_and_backfills() {
    let mut bindings = vec![
        binding("grass", "pikas/alpine-grass", 0),
        binding("moss", "pikas/moss", 4),
        binding("again", "pikas/alpine-grass", 7),
    ];
    assert!(check_backfill(&bindings, "pikas/alpine-grass"));
    apply_recreation(&mut bindings, "pikas/alpine-grass", "pikas/alpine-grass_v2");
    assert_eq!(
        bindings,
        vec![
            binding("grass", "pikas/alpine-grass_v2", 1),
            binding("moss", "pikas/moss", 4),
            binding("again", "pikas/alpine-grass_v2", 8),
        ]
    );
    // A recreation of what it does not read leaves it as it is.
    let before = bindings.clone();
    apply_recreation(&mut bindings, "pikas/alpine-grass", "pikas/alpine-grass_v3");
    assert_eq!(bindings, before);
}

#[test]
fn a_backfill_counter_at_its_limit_cannot_count_on() {
    let bindings = vec![binding("a", "t/a", u32::MAX), binding("b", "t/b", u32::MAX - 1)];
    assert!(!check_backfill(&bindings, "t/a"));
    assert!(check_backfill(&bindings, "t/b"));
    assert!(check_backfill(&bindings, "t/c"));
    let mut bindings = bindings;
    apply_recreation(&mut bindings, "t/b", "t/b_v2");
    assert_eq!(bindings[1].backfill, u32::MAX);
    assert!(!check_backfill(&bindings, "t/b_v2"));
}

#[test]
fn a_materialization_gains_a_binding_for_each_new_collection() {
    let mut bindings = vec![binding("moss", "marmots/moss", 2)];
    assert!(reads(&bindings, "marmots/moss"));
    assert!(!reads(&bindings, "marmots/grass"));
    let capture = vec![
        writes("grass", "marmots/grass"),
        writes("moss", "marmots/moss"),
        writes("twin", "marmots/grass"),
        writes("fern", "marmots/fern"),
    ];
    add_source_bindings(&mut bindings, &capture);
    assert_eq!(bindings.len(), 3);
    assert_eq!(bindings[0], binding("moss", "marmots/moss", 2));
    for (at, name) in [(1, "marmots/grass"), (2, "marmots/fern")] {
        assert_eq!(
            bindings[at],
            Binding {
                resource_identity: strings(&[name]),
                resource_config: ResourceConfig::empty(),
                target_collection: name.to_string(),
                disable: false,
                backfill: 0,
            }
        );
    }
    let before = bindings.clone();
    add_source_bindings(&mut bindings, &capture);
    assert_eq!(bindings, before);
    add_source_bindings(&mut bindings, &Vec::new());
    assert_eq!(bindings, before);
}

#[test]
fn a_binding_is_found_by_the_collection_it_writes_to() {
    let bindings = vec![writes("1", "t/a"), writes("2", "t/b"), writes("3", "t/a")];
    assert_eq!(binding_for_target(&bindings, "t/a"), Some(&bindings[0]));
    assert_eq!(binding_for_target(&bindings, "t/b"), Some(&bindings[1]));
    assert_eq!(binding_for_target(&bindings, "t/c"), None);
    assert_eq!(binding_for_target(&bindings, "t"), None);
    assert_eq!(binding_for_target(&Vec::new(), "t/a"), None);
}
