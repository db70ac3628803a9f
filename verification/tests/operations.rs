use multidict::{MultiDict, MultiElement, KEY_NOT_FOUND};

fn element(key: &str, value: &str) -> MultiElement {
    MultiElement {
        key: key.to_string(),
        value: value.to_string(),
    }
}

fn pairs(map: &MultiDict) -> Vec<(String, String)> {
    map.keys()
        .into_iter()
        .cloned()
        .zip(map.values().into_iter().cloned())
        .collect()
}

fn owned(items: &[(&str, &str)]) -> Vec<(String, String)> {
    items
        .iter()
        .map(|(k, v)| (k.to_string(), v.to_string()))
        .collect()
}

#[test]
fn get_returns_first_of_duplicate_keys() {
    let mut map = MultiDict::new();
    map.add(element("a", "1"));
    map.add(element("a", "2"));
    let first = map.get("a").unwrap();
    assert_eq!(first.key, "a");
    assert_eq!(first.value, "1");
}

#[test]
fn getall_returns_every_match_in_order() {
    let mut map = MultiDict::new();
    map.add(element("a", "1"));
    map.add(element("a", "2"));
    let all = map.getall("a").unwrap();
    assert_eq!(pairs(&all), owned(&[("a", "1"), ("a", "2")]));
}

#[test]
fn popone_removes_first_of_duplicate_keys() {
    let mut map = MultiDict::new();
    map.add(element("a", "1"));
    map.add(element("a", "2"));
    let taken = map.popone("a").unwrap();
    assert_eq!(taken.key, "a");
    assert_eq!(taken.value, "1");
    assert_eq!(map.keys(), vec!["a"]);
    assert_eq!(map.values(), vec!["2"]);
}

#[test]
fn update_keeps_position_of_key() {
    let mut map = MultiDict::new();
    map.add(element("x", "1"));
    map.add(element("y", "2"));
    map.update(element("x", "9"));
    assert_eq!(map.keys(), vec!["x", "y"]);
    assert_eq!(map.values(), vec!["9", "2"]);
}

#[test]
fn update_replaces_every_entry_with_key() {
    let mut map = MultiDict::new();
    map.add(element("k", "1"));
    map.add(element("k", "2"));
    map.update(element("k", "Z"));
    assert_eq!(pairs(&map), owned(&[("k", "Z"), ("k", "Z")]));
    assert_eq!(map.values(), vec!["Z", "Z"]);
}

#[test]
fn popone_on_empty_finds_no_key() {
    let mut map = MultiDict::new();
    assert_eq!(map.popone("missing").err(), Some(KEY_NOT_FOUND));
    assert_eq!(map.len(), 0);
}

#[test]
fn update_on_empty_is_silent() {
    let mut map = MultiDict::new();
    map.update(element("missing", "v"));
    assert_eq!(map.len(), 0);
    assert!(map.is_empty());
}

#[test]
fn missing_key_message_is_fixed_text() {
    assert_eq!(KEY_NOT_FOUND, "No matching key found");
    let mut map = MultiDict::new();
    map.add(element("some_key", "some_value_1"));
    map.add(element("some_key", "some_value_2"));
    assert_eq!(map.get("some_other_key").err(), Some("No matching key found"));
    assert_eq!(
        map.getall("some_other_key").err(),
        Some("No matching key found")
    );
    assert_eq!(
        map.popone("some_other_key").err(),
        Some("No matching key found")
    );
    assert_eq!(
        pairs(&map),
        owned(&[("some_key", "some_value_1"), ("some_key", "some_value_2")])
    );
}

#[test]
fn get_fails_only_for_absent_key() {
    let mut map = MultiDict::new();
    map.add(element("some_key", "some_value_1"));
    map.add(element("some_other_key", "some_value_3"));
    assert!(map.get("some_key").is_ok());
    assert_eq!(map.get("some_other_key").unwrap().value, "some_value_3");
    assert!(map.get("some").is_err());
    assert!(map.get("some_key_").is_err());
    assert!(map.get("").is_err());
}

#[test]
fn getall_skips_other_keys() {
    let mut map = MultiDict::new();
    map.add(element("some_key", "some_value_1"));
    map.add(element("some_other_key", "some_value_3"));
    map.add(element("some_key", "some_value_2"));
    let all = map.getall("some_key").unwrap();
    assert_eq!(
        pairs(&all),
        owned(&[("some_key", "some_value_1"), ("some_key", "some_value_2")])
    );
    assert_eq!(map.len(), 3);
}

#[test]
fn contains_tells_present_from_absent() {
    let mut map = MultiDict::new();
    map.add(element("some_key", "some_value_1"));
    map.add(element("some_key", "some_value_2"));
    assert!(map.contains("some_key"));
    assert!(!map.contains("some_other_key"));
}

#[test]
fn keys_and_values_list_duplicates() {
    let mut map = MultiDict::new();
    map.add(element("some_key", "some_value_1"));
    map.add(element("some_key", "some_value_2"));
    map.add(element("some_other_key", "some_value_3"));
    assert_eq!(map.keys(), vec!["some_key", "some_key", "some_other_key"]);
    assert_eq!(
        map.values(),
        vec!["some_value_1", "some_value_2", "some_value_3"]
    );
}

#[test]
fn update_touches_only_matching_key() {
    let mut map = MultiDict::new();
    map.add(element("some_key", "some_value_1"));
    map.add(element("some_other_key", "some_value_2"));
    map.update(element("some_other_key", "some_value_3"));
    assert_eq!(
        pairs(&map),
        owned(&[
            ("some_key", "some_value_1"),
            ("some_other_key", "some_value_3")
        ])
    );
}

#[test]
fn update_between_other_keys() {
    let mut map = MultiDict::new();
    map.add(element("a", "1"));
    map.add(element("b", "2"));
    map.add(element("a", "3"));
    map.add(element("c", "4"));
    map.add(element("a", "5"));
    map.update(element("a", "0"));
    assert_eq!(
        pairs(&map),
        owned(&[("a", "0"), ("b", "2"), ("a", "0"), ("c", "4"), ("a", "0")])
    );
}

#[test]
fn popone_in_the_middle_keeps_order_of_rest() {
    let mut map = MultiDict::new();
    map.add(element("a", "1"));
    map.add(element("b", "2"));
    map.add(element("c", "3"));
    map.add(element("b", "4"));
    let taken = map.popone("b").unwrap();
    assert_eq!((taken.key.as_str(), taken.value.as_str()), ("b", "2"));
    assert_eq!(pairs(&map), owned(&[("a", "1"), ("c", "3"), ("b", "4")]));
    let taken = map.popone("b").unwrap();
    assert_eq!((taken.key.as_str(), taken.value.as_str()), ("b", "4"));
    assert_eq!(pairs(&map), owned(&[("a", "1"), ("c", "3")]));
    assert!(map.popone("b").is_err());
}

#[test]
fn new_capacity_gives_empty_dictionary_that_grows() {
    let mut map = MultiDict::new_capacity(&2);
    assert_eq!(map.len(), 0);
    assert!(map.is_empty());
    map.add(element("some_key", "some_value_1"));
    map.add(element("some_key", "some_value_2"));
    assert_eq!(map.len(), 2);
    map.add(element("some_other_key", "some_value_3"));
    assert_eq!(map.len(), 3);
}

#[test]
fn new_capacity_takes_any_hint() {
    assert!(MultiDict::new_capacity(&0).is_empty());
    let mut map = MultiDict::new_capacity(&usize::MAX);
    assert!(map.is_empty());
    map.add(element("k", "v"));
    assert_eq!(map.len(), 1);
}

#[test]
fn len_and_is_empty_follow_additions() {
    let mut map = MultiDict::new();
    assert!(map.is_empty());
    map.add(element("some_key", "some_value_1"));
    map.add(element("some_key", "some_value_2"));
    assert_eq!(map.len(), 2);
    assert!(!map.is_empty());
}

#[test]
fn element_new_takes_key_then_value() {
    let made = MultiElement::new(["some_key".to_string(), "some_value".to_string()]);
    assert_eq!(made.key, "some_key");
    assert_eq!(made.value, "some_value");
}

#[test]
fn default_dictionary_is_empty() {
    let map = MultiDict::default();
    assert_eq!(map.len(), 0);
    assert!(map.keys().is_empty());
}
