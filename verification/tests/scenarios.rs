use http_echo::{echo, project, to_json, EchoError, Method, QueryValue, Request};

fn scenario_fields(list: &[(&str, &str)]) -> Vec<(String, String)> {
    list.iter().map(|(k, v)| (k.to_string(), v.to_string())).collect()
}

fn scenario_request(
    method: Method,
    path: &str,
    query: &[(&str, &str)],
    headers: &[(&str, &str)],
) -> Request {
    Request {
        method,
        path: path.to_string(),
        query: scenario_fields(query),
        headers: scenario_fields(headers),
    }
}

#[test]
fn get_with_repeated_key_and_one_header() {
    let request = scenario_request(
        Method::Get,
        "/a/b",
        &[("x", "1"), ("y", "2"), ("x", "3")],
        &[("Accept", "text/plain")],
    );
    assert_eq!(
        echo(&request),
        Ok(String::from(
            "{\"method\":\"GET\",\"path\":\"/a/b\",\"queries\":{\"x\":[\"1\",\"3\"],\"y\":\"2\"},\"headers\":{\"Accept\":\"text/plain\"},\"body\":\"BODY\"}"
        ))
    );
}

#[test]
fn delete_root_without_query_or_headers() {
    let request = scenario_request(Method::Delete, "/", &[], &[]);
    assert_eq!(
        echo(&request),
        Ok(String::from(
            "{\"method\":\"DELETE\",\"path\":\"/\",\"queries\":{},\"headers\":{},\"body\":\"BODY\"}"
        ))
    );
}

#[test]
fn post_with_duplicate_identical_values() {
    let request = scenario_request(Method::Post, "/x", &[("a", "1"), ("a", "1")], &[]);
    let record = project(&request);
    assert_eq!(
        record.queries.get("a"),
        Some(&QueryValue::Multi(vec![String::from("1"), String::from("1")]))
    );
    assert_eq!(
        echo(&request),
        Ok(String::from(
            "{\"method\":\"POST\",\"path\":\"/x\",\"queries\":{\"a\":[\"1\",\"1\"]},\"headers\":{},\"body\":\"BODY\"}"
        ))
    );
}

#[test]
fn no_query_string_gives_empty_queries_object() {
    for method in [Method::Get, Method::Put, Method::Patch] {
        let request = scenario_request(method, "/deep/er/path", &[], &[("Host", "h")]);
        let record = project(&request);
        assert_eq!(record.queries.len(), 0);
        let text = echo(&request).unwrap();
        assert!(text.contains("\"queries\":{},"));
    }
}

#[test]
fn single_occurrence_is_a_json_string() {
    let request = scenario_request(Method::Get, "/", &[("k", "v")], &[]);
    let record = project(&request);
    assert_eq!(record.queries.get("k"), Some(&QueryValue::Single(String::from("v"))));
    let text = echo(&request).unwrap();
    assert!(text.contains("\"queries\":{\"k\":\"v\"}"));
    assert!(!text.contains("[\"v\"]"));
}

#[test]
fn repeated_key_is_a_json_array_in_arrival_order() {
    let request = scenario_request(
        Method::Get,
        "/",
        &[("k", "c"), ("other", "x"), ("k", "a"), ("k", "b"), ("k", "a")],
        &[],
    );
    let text = echo(&request).unwrap();
    assert!(text.contains("\"k\":[\"c\",\"a\",\"b\",\"a\"]"));
    assert!(text.contains("\"other\":\"x\""));
}

#[test]
fn keys_are_rendered_in_lexicographic_order() {
    let request = scenario_request(
        Method::Get,
        "/",
        &[("zeta", "1"), ("alpha", "2"), ("mid", "3"), ("alpha", "4"), ("Zed", "5")],
        &[("X-B", "1"), ("Accept", "2"), ("x-a", "3")],
    );
    assert_eq!(
        echo(&request),
        Ok(String::from(
            "{\"method\":\"GET\",\"path\":\"/\",\"queries\":{\"Zed\":\"5\",\"alpha\":[\"2\",\"4\"],\"mid\":\"3\",\"zeta\":\"1\"},\"headers\":{\"Accept\":\"2\",\"X-B\":\"1\",\"x-a\":\"3\"},\"body\":\"BODY\"}"
        ))
    );
}

#[test]
fn key_order_does_not_depend_on_arrival_order() {
    let one = scenario_request(Method::Get, "/", &[("b", "1"), ("a", "2"), ("c", "3")], &[]);
    let two = scenario_request(Method::Get, "/", &[("c", "3"), ("b", "1"), ("a", "2")], &[]);
    assert_eq!(echo(&one), echo(&two));
    assert_eq!(project(&one).queries, project(&two).queries);
}

#[test]
fn body_is_always_the_placeholder() {
    for method in [
        Method::Get,
        Method::Put,
        Method::Post,
        Method::Delete,
        Method::Options,
        Method::Head,
        Method::Trace,
        Method::Connect,
        Method::Patch,
    ] {
        let request = scenario_request(method, "/p", &[("body", "other")], &[("body", "x")]);
        let record = project(&request);
        assert_eq!(record.body, "BODY");
        let text = echo(&request).unwrap();
        assert!(text.ends_with(",\"body\":\"BODY\"}"));
    }
}

#[test]
fn top_level_members_stand_in_fixed_order() {
    let request = scenario_request(
        Method::Options,
        "/o",
        &[("path", "q"), ("method", "q")],
        &[("queries", "h")],
    );
    let text = echo(&request).unwrap();
    assert!(text.starts_with("{\"method\":\"OPTIONS\",\"path\":\"/o\",\"queries\":{"));
    let method = text.find("\"method\":\"OPTIONS\"").unwrap();
    let path = text.find("\"path\":\"/o\"").unwrap();
    let queries = text.find("\"queries\":{").unwrap();
    let headers = text.find("\"headers\":{").unwrap();
    let body = text.find("\"body\":\"BODY\"").unwrap();
    assert!(method < path && path < queries && queries < headers && headers < body);
}

#[test]
fn project_copies_method_and_path() {
    let request = scenario_request(Method::Trace, "/some/where", &[], &[]);
    let record = project(&request);
    assert_eq!(record.method, "TRACE");
    assert_eq!(record.path, "/some/where");
    assert_eq!(record.headers.len(), 0);
    assert_eq!(to_json(&record), echo(&request));
}

#[test]
fn header_that_arrives_twice_keeps_its_last_value() {
    let request = scenario_request(
        Method::Get,
        "/",
        &[],
        &[("Accept", "text/html"), ("Host", "h"), ("Accept", "text/plain")],
    );
    let record = project(&request);
    assert_eq!(record.headers.len(), 2);
    assert_eq!(record.headers.get("Accept"), Some(&String::from("text/plain")));
    let text = echo(&request).unwrap();
    assert!(text.contains("\"headers\":{\"Accept\":\"text/plain\",\"Host\":\"h\"}"));
}

#[test]
fn header_names_keep_their_case() {
    let request =
        scenario_request(Method::Get, "/", &[], &[("accept", "a"), ("Accept", "b")]);
    let record = project(&request);
    assert_eq!(record.headers.len(), 2);
    assert_eq!(record.headers.get("accept"), Some(&String::from("a")));
    assert_eq!(record.headers.get("Accept"), Some(&String::from("b")));
}

#[test]
fn strings_are_escaped_as_json() {
    let request = scenario_request(
        Method::Get,
        "/a\"b\\c",
        &[("k\n", "v\t"), ("q", "\u{1}"), ("q", "é\u{7f}")],
        &[("H\"", "\r")],
    );
    assert_eq!(
        echo(&request),
        Ok(String::from(
            "{\"method\":\"GET\",\"path\":\"/a\\\"b\\\\c\",\"queries\":{\"k\\n\":\"v\\t\",\"q\":[\"\\u0001\",\"é\u{7f}\"]},\"headers\":{\"H\\\"\":\"\\r\"},\"body\":\"BODY\"}"
        ))
    );
}

#[test]
fn output_parses_back_to_the_same_values() {
    let request = scenario_request(
        Method::Put,
        "/a b/\"c\"",
        &[("x", "1"), ("y", "two\nlines"), ("x", "3")],
        &[("Accept", "*/*")],
    );
    let text = echo(&request).unwrap();
    let value: serde_json::Value = serde_json::from_str(&text).unwrap();
    assert_eq!(value["method"], serde_json::Value::String(String::from("PUT")));
    assert_eq!(value["path"], serde_json::Value::String(String::from("/a b/\"c\"")));
    assert_eq!(
        value["queries"]["x"],
        serde_json::Value::Array(vec![
            serde_json::Value::String(String::from("1")),
            serde_json::Value::String(String::from("3")),
        ])
    );
    assert_eq!(value["queries"]["y"], serde_json::Value::String(String::from("two\nlines")));
    assert_eq!(value["headers"]["Accept"], serde_json::Value::String(String::from("*/*")));
    assert_eq!(value["body"], serde_json::Value::String(String::from("BODY")));
    assert_eq!(value.as_object().unwrap().len(), 5);
}

#[test]
fn echo_does_not_fail_on_empty_strings() {
    let request = scenario_request(Method::Get, "", &[("", "")], &[("", "")]);
    assert_eq!(
        echo(&request),
        Ok(String::from(
            "{\"method\":\"GET\",\"path\":\"\",\"queries\":{\"\":\"\"},\"headers\":{\"\":\"\"},\"body\":\"BODY\"}"
        ))
    );
    assert_ne!(echo(&request), Err(EchoError::EncodingFailure));
}
