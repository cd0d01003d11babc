use auto_discover::config::{merge_config, ResourceConfig};

#[test]
fn parse_reads_members_in_name_order() {
    let config = ResourceConfig::parse(r#"{"id": "grass", "extra": 7}"#).unwrap();
    assert_eq!(config.fields.len(), 2);
    assert_eq!(config.fields[0].name, "extra");
    assert_eq!(config.fields[0].json, "7");
    assert_eq!(config.fields[0].string, None);
    assert_eq!(config.fields[1].name, "id");
    assert_eq!(config.fields[1].json, "\"grass\"");
    assert_eq!(config.fields[1].string, Some("grass".to_string()));
}

#[test]
fn merge_keeps_live_members_and_adds_discovered_ones() {
    let live = ResourceConfig::parse(r#"{"id": "moss", "extra": "moss"}"#).unwrap();
    let discovered =
        ResourceConfig::parse(r#"{"id": "other", "expect": "added"}"#).unwrap();
    let merged = merge_config(&live, &discovered);
    assert_eq!(merged.fields.len(), 3);
    assert_eq!(merged.get("id").unwrap().json, "\"moss\"");
    assert_eq!(merged.get("extra").unwrap().json, "\"moss\"");
    assert_eq!(merged.get("expect").unwrap().json, "\"added\"");
}

#[test]
fn parse_takes_objects_only() {
    assert!(ResourceConfig::parse("{}").unwrap().fields.is_empty());
    for text in ["", "[]", "7", "\"id\"", "null", "{", "{\"id\": }", "{} {}"] {
        assert!(ResourceConfig::parse(text).is_none(), "{:?}", text);
    }
}

#[test]
fn parse_keeps_values_as_compact_json() {
    let config = ResourceConfig::parse(
        "{\"a\": {\"y\": [1, 2.5, \"z\"], \"x\": null}, \"b\": \"two\\nlines\", \"c\": -0.0}",
    )
    .unwrap();
    assert_eq!(config.get("a").unwrap().json, r#"{"x":null,"y":[1,2.5,"z"]}"#);
    assert_eq!(config.get("a").unwrap().string, None);
    assert_eq!(config.get("b").unwrap().json, "\"two\\nlines\"");
    assert_eq!(config.get("b").unwrap().string, Some("two\nlines".to_string()));
    assert_eq!(config.get("c").unwrap().json, "-0.0");
}

#[test]
fn a_repeated_name_is_read_once() {
    let config = ResourceConfig::parse(r#"{"id": "first", "id": "second"}"#).unwrap();
    assert_eq!(config.fields.len(), 1);
    assert_eq!(config.get("id").unwrap().string, Some("second".to_string()));
}

#[test]
fn members_are_found_by_name() {
    let config = ResourceConfig::parse(r#"{"id": "grass", "extra": 7}"#).unwrap();
    assert_eq!(config.position("extra"), Some(0));
    assert_eq!(config.position("id"), Some(1));
    assert_eq!(config.position("ID"), None);
    assert_eq!(config.position(""), None);
    assert!(config.has("id"));
    assert!(!config.has("i"));
    assert!(config.get("none").is_none());
    assert!(!ResourceConfig::empty().has("id"));
}

#[test]
fn merge_with_nothing_changes_nothing() {
    let live = ResourceConfig::parse(r#"{"id": "moss", "extra": "moss"}"#).unwrap();
    assert_eq!(merge_config(&live, &ResourceConfig::empty()), live);
    assert_eq!(merge_config(&ResourceConfig::empty(), &live), live);
    assert_eq!(merge_config(&live, &live), live);
}

#[test]
fn merge_keeps_the_live_order_and_appends_in_discovered_order() {
    let live = ResourceConfig::parse(r#"{"m": 1, "k": 2}"#).unwrap();
    let discovered = ResourceConfig::parse(r#"{"z": 3, "k": 4, "a": 5}"#).unwrap();
    let merged = merge_config(&live, &discovered);
    let names: Vec<&str> = merged.fields.iter().map(|f| f.name.as_str()).collect();
    assert_eq!(names, vec!["k", "m", "a", "z"]);
    let values: Vec<&str> = merged.fields.iter().map(|f| f.json.as_str()).collect();
    assert_eq!(values, vec!["2", "1", "5", "3"]);
}

#[test]
fn merging_twice_is_merging_once() {
    let live = ResourceConfig::parse(r#"{"id": "moss"}"#).unwrap();
    let discovered = ResourceConfig::parse(r#"{"id": "x", "expect": 1, "more": 2}"#).unwrap();
    let once = merge_config(&live, &discovered);
    assert_eq!(merge_config(&once, &discovered), once);
}

#[test]
fn a_copy_is_equal() {
    let config = ResourceConfig::parse(r#"{"id": "grass", "extra": 7}"#).unwrap();
    assert_eq!(config.clone(), config);
    assert_eq!(config.fields[0].clone(), config.fields[0]);
}
