use http_echo::{
    encode, encoding_outcome, frame_array, frame_object, frame_record, headers_as_map,
    headers_json, queries_json, querys_as_map, value_json, EchoError, QueryValue,
};

fn json_strings(list: &[&str]) -> Vec<String> {
    list.iter().map(|v| v.to_string()).collect()
}

fn json_fields(list: &[(&str, &str)]) -> Vec<(String, String)> {
    list.iter().map(|(k, v)| (k.to_string(), v.to_string())).collect()
}

#[test]
fn encode_puts_text_in_quotes() {
    assert_eq!(encode("BODY"), Ok(String::from("\"BODY\"")));
    assert_eq!(encode(""), Ok(String::from("\"\"")));
    assert_eq!(encode("text/plain"), Ok(String::from("\"text/plain\"")));
}

#[test]
fn encode_escapes_quotes_backslashes_and_controls() {
    assert_eq!(encode("\""), Ok(String::from("\"\\\"\"")));
    assert_eq!(encode("\\"), Ok(String::from("\"\\\\\"")));
    assert_eq!(encode("\n\r\t"), Ok(String::from("\"\\n\\r\\t\"")));
    assert_eq!(encode("\u{8}\u{c}"), Ok(String::from("\"\\b\\f\"")));
    assert_eq!(encode("\u{0}\u{1f}"), Ok(String::from("\"\\u0000\\u001f\"")));
    assert_eq!(encode("/é日本\u{7f}"), Ok(String::from("\"/é日本\u{7f}\"")));
}

#[test]
fn encode_agrees_with_the_encoder() {
    for text in ["", "plain", "a\"b", "tab\there", "\u{1}", "ünï", "back\\slash"] {
        assert_eq!(encode(text).unwrap(), serde_json::to_string(text).unwrap());
    }
}

#[test]
fn encoder_error_becomes_encoding_failure() {
    let failed = serde_json::from_str::<serde_json::Value>("{").unwrap_err();
    assert_eq!(encoding_outcome(Err(failed)), Err(EchoError::EncodingFailure));
}

#[test]
fn encoder_text_passes_through() {
    assert_eq!(encoding_outcome(Ok(String::from("\"x\""))), Ok(String::from("\"x\"")));
}

#[test]
fn frame_array_joins_items_with_commas() {
    assert_eq!(frame_array(&json_strings(&[])), "[]");
    assert_eq!(frame_array(&json_strings(&["\"1\""])), "[\"1\"]");
    assert_eq!(frame_array(&json_strings(&["\"1\"", "\"3\""])), "[\"1\",\"3\"]");
    assert_eq!(frame_array(&json_strings(&["a", "b", "c"])), "[a,b,c]");
}

#[test]
fn frame_object_joins_members_with_commas() {
    assert_eq!(frame_object(&json_fields(&[])), "{}");
    assert_eq!(frame_object(&json_fields(&[("\"k\"", "\"v\"")])), "{\"k\":\"v\"}");
    assert_eq!(
        frame_object(&json_fields(&[("\"x\"", "[\"1\",\"3\"]"), ("\"y\"", "\"2\"")])),
        "{\"x\":[\"1\",\"3\"],\"y\":\"2\"}"
    );
}

#[test]
fn frame_record_keeps_member_order() {
    assert_eq!(
        frame_record("M", "P", "Q", "H", "B"),
        "{\"method\":M,\"path\":P,\"queries\":Q,\"headers\":H,\"body\":B}"
    );
    assert_eq!(
        frame_record("\"GET\"", "\"/\"", "{}", "{}", "\"BODY\""),
        "{\"method\":\"GET\",\"path\":\"/\",\"queries\":{},\"headers\":{},\"body\":\"BODY\"}"
    );
}

#[test]
fn value_json_scalar_is_a_string() {
    assert_eq!(value_json(&QueryValue::Single(String::from("v"))), Ok(String::from("\"v\"")));
}

#[test]
fn value_json_list_is_an_array() {
    assert_eq!(
        value_json(&QueryValue::Multi(json_strings(&["1", "1", "a\"b"]))),
        Ok(String::from("[\"1\",\"1\",\"a\\\"b\"]"))
    );
}

#[test]
fn queries_json_renders_sorted_object() {
    let map = querys_as_map(&json_fields(&[("y", "2"), ("x", "1"), ("x", "3")]));
    assert_eq!(queries_json(&map), Ok(String::from("{\"x\":[\"1\",\"3\"],\"y\":\"2\"}")));
    assert_eq!(queries_json(&querys_as_map(&Vec::new())), Ok(String::from("{}")));
}

#[test]
fn headers_json_renders_sorted_object() {
    let map = headers_as_map(&json_fields(&[("b", "2"), ("a", "1"), ("b", "3")]));
    assert_eq!(headers_json(&map), Ok(String::from("{\"a\":\"1\",\"b\":\"3\"}")));
    assert_eq!(headers_json(&headers_as_map(&Vec::new())), Ok(String::from("{}")));
}
