use http_echo::{
    headers_as_map, querys_as_map, record_header, record_query, HeaderMap, QueryMap, QueryValue,
    SortedMap,
};

fn fold_fields(list: &[(&str, &str)]) -> Vec<(String, String)> {
    list.iter().map(|(k, v)| (k.to_string(), v.to_string())).collect()
}

fn fold_list(list: &[&str]) -> QueryValue {
    QueryValue::Multi(list.iter().map(|v| v.to_string()).collect())
}

#[test]
fn empty_fields_give_empty_map() {
    let map = querys_as_map(&Vec::new());
    assert_eq!(map.len(), 0);
    assert_eq!(map.get("x"), None);
    assert_eq!(map.position("x"), (0, false));
}

#[test]
fn unseen_key_becomes_scalar() {
    let mut map: QueryMap = SortedMap::new();
    record_query(&mut map, String::from("k"), String::from("v"));
    assert_eq!(map.len(), 1);
    assert_eq!(map.get("k"), Some(&QueryValue::Single(String::from("v"))));
}

#[test]
fn second_occurrence_promotes_scalar_to_list() {
    let mut map: QueryMap = SortedMap::new();
    record_query(&mut map, String::from("k"), String::from("first"));
    record_query(&mut map, String::from("k"), String::from("second"));
    assert_eq!(map.len(), 1);
    assert_eq!(map.get("k"), Some(&fold_list(&["first", "second"])));
}

#[test]
fn later_occurrences_append_to_list() {
    let mut map: QueryMap = SortedMap::new();
    for value in ["1", "2", "3", "4"] {
        record_query(&mut map, String::from("k"), String::from(value));
    }
    assert_eq!(map.len(), 1);
    assert_eq!(map.get("k"), Some(&fold_list(&["1", "2", "3", "4"])));
}

#[test]
fn fold_keeps_keys_apart() {
    let map = querys_as_map(&fold_fields(&[
        ("x", "1"),
        ("y", "2"),
        ("x", "3"),
        ("z", "4"),
        ("y", "5"),
        ("x", "6"),
    ]));
    assert_eq!(map.len(), 3);
    assert_eq!(map.get("x"), Some(&fold_list(&["1", "3", "6"])));
    assert_eq!(map.get("y"), Some(&fold_list(&["2", "5"])));
    assert_eq!(map.get("z"), Some(&QueryValue::Single(String::from("4"))));
    assert_eq!(map.get("w"), None);
}

#[test]
fn fold_never_holds_a_one_element_list() {
    let map = querys_as_map(&fold_fields(&[("a", "1"), ("b", "1"), ("b", "2"), ("c", "1")]));
    for i in 0..map.len() {
        match map.value_at(i) {
            QueryValue::Single(_) => {}
            QueryValue::Multi(list) => assert!(list.len() >= 2),
        }
    }
}

#[test]
fn fold_walks_keys_in_ascending_order() {
    let map = querys_as_map(&fold_fields(&[
        ("delta", "1"),
        ("alpha", "2"),
        ("charlie", "3"),
        ("bravo", "4"),
        ("alpha", "5"),
    ]));
    let keys: Vec<&str> = (0..map.len()).map(|i| map.key_at(i).as_str()).collect();
    assert_eq!(keys, vec!["alpha", "bravo", "charlie", "delta"]);
    assert_eq!(map.value_at(0), &fold_list(&["2", "5"]));
    assert_eq!(map.value_at(3), &QueryValue::Single(String::from("1")));
}

#[test]
fn fold_agrees_with_btree_map_order() {
    let keys = ["b", "", "a", "ab", "B", "é", "z", "~", "a\u{0}", "zz", "日本", "0", "10", "9"];
    let fields: Vec<(String, String)> =
        keys.iter().map(|k| (k.to_string(), String::from("v"))).collect();
    let map = querys_as_map(&fields);
    let mut expected = std::collections::BTreeMap::new();
    for key in keys {
        expected.insert(key.to_string(), ());
    }
    let walked: Vec<String> = (0..map.len()).map(|i| map.key_at(i).clone()).collect();
    let sorted: Vec<String> = expected.keys().cloned().collect();
    assert_eq!(walked, sorted);
}

#[test]
fn position_finds_present_and_absent_keys() {
    let map = querys_as_map(&fold_fields(&[("b", "1"), ("d", "2"), ("f", "3")]));
    assert_eq!(map.position("a"), (0, false));
    assert_eq!(map.position("b"), (0, true));
    assert_eq!(map.position("c"), (1, false));
    assert_eq!(map.position("d"), (1, true));
    assert_eq!(map.position("e"), (2, false));
    assert_eq!(map.position("f"), (2, true));
    assert_eq!(map.position("g"), (3, false));
}

#[test]
fn headers_map_last_value_wins() {
    let map = headers_as_map(&fold_fields(&[
        ("Host", "one"),
        ("Accept", "a"),
        ("Host", "two"),
        ("Host", "three"),
    ]));
    assert_eq!(map.len(), 2);
    assert_eq!(map.key_at(0), "Accept");
    assert_eq!(map.key_at(1), "Host");
    assert_eq!(map.get("Host"), Some(&String::from("three")));
    assert_eq!(map.get("Accept"), Some(&String::from("a")));
}

#[test]
fn record_header_sets_and_replaces() {
    let mut map: HeaderMap = SortedMap::new();
    record_header(&mut map, String::from("n"), String::from("1"));
    assert_eq!(map.get("n"), Some(&String::from("1")));
    record_header(&mut map, String::from("n"), String::from("2"));
    assert_eq!(map.len(), 1);
    assert_eq!(map.get("n"), Some(&String::from("2")));
    record_header(&mut map, String::from("m"), String::from("3"));
    assert_eq!(map.len(), 2);
    assert_eq!(map.key_at(0), "m");
}

#[test]
fn absent_headers_give_empty_map() {
    let map = headers_as_map(&Vec::new());
    assert_eq!(map.len(), 0);
    assert_eq!(map, SortedMap::new());
}

#[test]
fn absorb_promotes_and_appends() {
    let one = QueryValue::Single(String::from("a")).absorb(String::from("b"));
    assert_eq!(one, fold_list(&["a", "b"]));
    let two = one.absorb(String::from("a"));
    assert_eq!(two, fold_list(&["a", "b", "a"]));
}
