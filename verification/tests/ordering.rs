use http_echo::{compare_keys, KeyOrder};

#[test]
fn equal_keys_are_the_same() {
    assert_eq!(compare_keys("", ""), KeyOrder::Same);
    assert_eq!(compare_keys("abc", "abc"), KeyOrder::Same);
    assert_eq!(compare_keys("é", "é"), KeyOrder::Same);
}

#[test]
fn first_differing_byte_decides() {
    assert_eq!(compare_keys("a", "b"), KeyOrder::Before);
    assert_eq!(compare_keys("b", "a"), KeyOrder::After);
    assert_eq!(compare_keys("abc", "abd"), KeyOrder::Before);
    assert_eq!(compare_keys("abd", "abcz"), KeyOrder::After);
}

#[test]
fn prefix_sorts_before_longer_key() {
    assert_eq!(compare_keys("", "a"), KeyOrder::Before);
    assert_eq!(compare_keys("a", ""), KeyOrder::After);
    assert_eq!(compare_keys("ab", "abc"), KeyOrder::Before);
    assert_eq!(compare_keys("abc", "ab"), KeyOrder::After);
}

#[test]
fn upper_case_sorts_before_lower_case() {
    assert_eq!(compare_keys("Z", "a"), KeyOrder::Before);
    assert_eq!(compare_keys("a", "Z"), KeyOrder::After);
    assert_eq!(compare_keys("10", "9"), KeyOrder::Before);
}

#[test]
fn compare_keys_agrees_with_str_order() {
    let keys = ["", "a", "A", "ab", "b", "é", "z", "~", "日本", "\u{10348}", "a\u{0}", "\u{7f}"];
    for one in keys {
        for two in keys {
            let expected = if one < two {
                KeyOrder::Before
            } else if one == two {
                KeyOrder::Same
            } else {
                KeyOrder::After
            };
            assert_eq!(compare_keys(one, two), expected);
        }
    }
}
