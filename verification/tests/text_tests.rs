use auto_discover::text::{
    clone_strings, contains_name, decimal_string, name_precedes, same_text, strings_equal,
};

fn strings(items: &[&str]) -> Vec<String> {
    items.iter().map(|s| s.to_string()).collect()
}

#[test]
fn names_are_ordered_like_str() {
    let names = ["", "a", "a/b", "a/b_v2", "ab", "b", "é", "pikas/moss", "pikas/alpine-grass", "Z"];
    for a in names {
        for b in names {
            assert_eq!(name_precedes(a, b), a <= b, "{:?} and {:?}", a, b);
        }
    }
}

#[test]
fn a_prefix_comes_first() {
    assert!(name_precedes("marmots/grass", "marmots/grass_v2"));
    assert!(!name_precedes("marmots/grass_v2", "marmots/grass"));
    assert!(name_precedes("same", "same"));
}

#[test]
fn same_text_compares_contents() {
    assert!(same_text("", ""));
    assert!(same_text("grass", "grass"));
    assert!(!same_text("grass", "gras"));
    assert!(!same_text("grass", "grasz"));
    assert!(same_text("é/ü", "é/ü"));
    assert!(!same_text("e", "é"));
}

#[test]
fn string_lists_are_equal_item_by_item() {
    assert!(strings_equal(&strings(&[]), &strings(&[])));
    assert!(strings_equal(&strings(&["a", "b"]), &strings(&["a", "b"])));
    assert!(!strings_equal(&strings(&["a", "b"]), &strings(&["b", "a"])));
    assert!(!strings_equal(&strings(&["a"]), &strings(&["a", "b"])));
    assert!(!strings_equal(&strings(&["ab"]), &strings(&["a", "b"])));
}

#[test]
fn clone_strings_copies() {
    let list = strings(&["/id", "/squeaks", ""]);
    assert_eq!(clone_strings(&list), list);
    assert_eq!(clone_strings(&Vec::new()), Vec::<String>::new());
}

#[test]
fn numbers_are_written_in_decimal() {
    assert_eq!(decimal_string(0), "0");
    assert_eq!(decimal_string(7), "7");
    assert_eq!(decimal_string(9), "9");
    assert_eq!(decimal_string(10), "10");
    assert_eq!(decimal_string(42), "42");
    assert_eq!(decimal_string(1_000_000), "1000000");
    assert_eq!(decimal_string(1234567890), "1234567890");
    assert_eq!(decimal_string(u128::MAX), u128::MAX.to_string());
}

#[test]
fn contains_name_finds_whole_names_only() {
    let names = strings(&["marmots/grass", "marmots/moss"]);
    assert!(contains_name(&names, "marmots/grass"));
    assert!(contains_name(&names, "marmots/moss"));
    assert!(!contains_name(&names, "marmots"));
    assert!(!contains_name(&names, "marmots/grass_v2"));
    assert!(!contains_name(&Vec::new(), ""));
}
