//! The serializer: an echo record as one line of compact JSON.
//!
//! The object has the members `method`, `path`, `queries`, `headers` and
//! `body`, in this order. `queries` and `headers` are objects whose members
//! stand in ascending key order. A scalar query value is a string, a list
//! is an array of strings in the recorded order.

use crate::fields::{pairs, FieldText};
use crate::headers::HeaderMap;
use crate::json::{
    array_text, delivers, encodable, encode, frame_array, frame_object, frame_record,
    object_text, quoted, record_text, EchoError,
};
use crate::query::{QueryMap, QueryValue, QueryValueText};
use crate::record::{project, projection, EchoRecord, EchoRecordText, Request};
use crate::sorted_map::{ordered_keys, texts};
use vstd::prelude::*;

verus! {

/// The encoder accepts every text of the list.
pub open spec fn all_encodable(list: Seq<Seq<char>>) -> bool {
    forall|i: int| 0 <= i < list.len() ==> encodable(#[trigger] list[i])
}

/// The JSON string literal of each text of the list.
pub open spec fn quoted_all(list: Seq<Seq<char>>) -> Seq<Seq<char>> {
    Seq::new(list.len(), |i: int| quoted(list[i]))
}

/// The encoder accepts every string of the value.
pub open spec fn value_encodable(value: QueryValueText) -> bool {
    match value {
        QueryValueText::Single(text) => encodable(text),
        QueryValueText::Multi(list) => all_encodable(list),
    }
}

/// The JSON of a query value: a string for a scalar, an array of strings in
/// the recorded order for a list.
pub open spec fn value_text(value: QueryValueText) -> Seq<char> {
    match value {
        QueryValueText::Single(text) => quoted(text),
        QueryValueText::Multi(list) => array_text(quoted_all(list)),
    }
}

/// The encoder accepts every key and every value of the query map.
pub open spec fn queries_encodable(map: Map<Seq<char>, QueryValueText>) -> bool {
    forall|key: Seq<char>| #[trigger]
        map.contains_key(key) ==> encodable(key) && value_encodable(map[key])
}

/// The members of the `queries` object, in ascending key order.
pub open spec fn queries_members(map: Map<Seq<char>, QueryValueText>) -> Seq<FieldText> {
    let keys = ordered_keys(map);
    Seq::new(keys.len(), |i: int| (quoted(keys[i]), value_text(map[keys[i]])))
}

/// The JSON of the `queries` object.
pub open spec fn queries_text(map: Map<Seq<char>, QueryValueText>) -> Seq<char> {
    object_text(queries_members(map))
}

/// The encoder accepts every name and every value of the header map.
pub open spec fn headers_encodable(map: Map<Seq<char>, Seq<char>>) -> bool {
    forall|name: Seq<char>| #[trigger]
        map.contains_key(name) ==> encodable(name) && encodable(map[name])
}

/// The members of the `headers` object, in ascending name order.
pub open spec fn headers_members(map: Map<Seq<char>, Seq<char>>) -> Seq<FieldText> {
    let names = ordered_keys(map);
    Seq::new(names.len(), |i: int| (quoted(names[i]), quoted(map[names[i]])))
}

/// The JSON of the `headers` object.
pub open spec fn headers_text(map: Map<Seq<char>, Seq<char>>) -> Seq<char> {
    object_text(headers_members(map))
}

/// The encoder accepts every string of the record.
pub open spec fn record_encodable(record: EchoRecordText) -> bool {
    &&& encodable(record.method)
    &&& encodable(record.path)
    &&& queries_encodable(record.queries)
    &&& headers_encodable(record.headers)
    &&& encodable(record.body)
}

/// The JSON of a record whose strings the encoder accepts.
pub open spec fn echo_text(record: EchoRecordText) -> Seq<char> {
    record_text(
        quoted(record.method),
        quoted(record.path),
        queries_text(record.queries),
        headers_text(record.headers),
        quoted(record.body),
    )
}

/// The JSON of a record, or nothing where the encoder refuses one of its
/// strings.
pub open spec fn json_of(record: EchoRecordText) -> Option<Seq<char>> {
    if record_encodable(record) {
        Some(echo_text(record))
    } else {
        None
    }
}

/// The JSON of a query value, or nothing where the encoder refuses one of
/// its strings.
pub open spec fn value_json_of(value: QueryValueText) -> Option<Seq<char>> {
    if value_encodable(value) {
        Some(value_text(value))
    } else {
        None
    }
}

/// Renders a query value: a scalar as a JSON string, a list as a JSON array
/// of strings in the recorded order.
pub fn value_json(value: &QueryValue) -> (r: Result<String, EchoError>)
    ensures
        delivers(value_json_of(value@), r),
{
    match value {
        QueryValue::Single(text) => encode(text.as_str()),
        QueryValue::Multi(list) => {
            let ghost all = texts(list@);
            let mut items: Vec<String> = Vec::new();
            let mut i: usize = 0;
            assert(texts(items@) =~= quoted_all(all).take(0));
            while i < list.len()
                invariant
                    i <= list.len(),
                    all == texts(list@),
                    value@ == QueryValueText::Multi(all),
                    forall|j: int| 0 <= j < i ==> encodable(#[trigger] all[j]),
                    items@.len() == i,
                    texts(items@) == quoted_all(all).take(i as int),
                decreases list.len() - i,
            {
                match encode(list[i].as_str()) {
                    Ok(item) => {
                        proof {
                            let grown = texts(items@.push(item));
                            assert forall|j: int| 0 <= j < grown.len() implies grown[j]
                                == quoted_all(all).take(i + 1)[j] by {
                                if j < i {
                                    assert(texts(items@)[j] == quoted_all(all).take(i as int)[j]);
                                }
                            }
                            assert(grown =~= quoted_all(all).take(i + 1));
                        }
                        items.push(item);
                    },
                    Err(failure) => {
                        assert(!encodable(all[i as int]));
                        return Err(failure);
                    },
                }
                i += 1;
            }
            assert(quoted_all(all).take(list.len() as int) =~= quoted_all(all));
            Ok(frame_array(&items))
        },
    }
}

/// Renders the query map as a JSON object with its members in ascending
/// key order.
pub fn queries_json(map: &QueryMap) -> (r: Result<String, EchoError>)
    requires
        map.wf(),
    ensures
        delivers(
            if queries_encodable(map@) {
                Some(queries_text(map@))
            } else {
                None
            },
            r,
        ),
{
    proof {
        map.lemma_walk();
    }
    let ghost keys = map.keys();
    let ghost all = queries_members(map@);
    let mut members: Vec<(String, String)> = Vec::new();
    let mut i: usize = 0;
    assert(pairs(members@) =~= all.take(0));
    while i < map.len()
        invariant
            map.wf(),
            i <= keys.len(),
            keys == map.keys(),
            keys == ordered_keys(map@),
            all == queries_members(map@),
            all.len() == keys.len(),
            forall|j: int| 0 <= j < keys.len() ==> map@.contains_key(#[trigger] keys[j]),
            forall|j: int|
                0 <= j < keys.len() ==> map.values()[j] == map@[#[trigger] keys[j]],
            forall|j: int|
                0 <= j < i ==> encodable(#[trigger] keys[j]) && value_encodable(map@[keys[j]]),
            members@.len() == i,
            pairs(members@) == all.take(i as int),
        decreases keys.len() - i,
    {
        let name = match encode(map.key_at(i).as_str()) {
            Ok(name) => name,
            Err(failure) => {
                assert(!encodable(keys[i as int]));
                return Err(failure);
            },
        };
        let value = match value_json(map.value_at(i)) {
            Ok(value) => value,
            Err(failure) => {
                assert(!value_encodable(map@[keys[i as int]]));
                return Err(failure);
            },
        };
        proof {
            let grown = pairs(members@.push((name, value)));
            assert forall|j: int| 0 <= j < grown.len() implies grown[j] == all.take(i + 1)[j] by {
                if j < i {
                    assert(pairs(members@)[j] == all.take(i as int)[j]);
                } else {
                    assert(all[i as int].0 == name@);
                    assert(all[i as int].1 == value@);
                }
            }
            assert(grown =~= all.take(i + 1));
        }
        members.push((name, value));
        i += 1;
    }
    assert(all.take(keys.len() as int) =~= all);
    assert forall|key: Seq<char>| #[trigger] map@.contains_key(key) implies encodable(key)
        && value_encodable(map@[key]) by {
        let j = keys.index_of(key);
        assert(keys[j] == key);
    }
    Ok(frame_object(&members))
}

/// Renders the header map as a JSON object with its members in ascending
/// name order.
pub fn headers_json(map: &HeaderMap) -> (r: Result<String, EchoError>)
    requires
        map.wf(),
    ensures
        delivers(
            if headers_encodable(map@) {
                Some(headers_text(map@))
            } else {
                None
            },
            r,
        ),
{
    proof {
        map.lemma_walk();
    }
    let ghost names = map.keys();
    let ghost all = headers_members(map@);
    let mut members: Vec<(String, String)> = Vec::new();
    let mut i: usize = 0;
    assert(pairs(members@) =~= all.take(0));
    while i < map.len()
        invariant
            map.wf(),
            i <= names.len(),
            names == map.keys(),
            names == ordered_keys(map@),
            all == headers_members(map@),
            all.len() == names.len(),
            forall|j: int| 0 <= j < names.len() ==> map@.contains_key(#[trigger] names[j]),
            forall|j: int|
                0 <= j < names.len() ==> map.values()[j] == map@[#[trigger] names[j]],
            forall|j: int|
                0 <= j < i ==> encodable(#[trigger] names[j]) && encodable(map@[names[j]]),
            members@.len() == i,
            pairs(members@) == all.take(i as int),
        decreases names.len() - i,
    {
        let name = match encode(map.key_at(i).as_str()) {
            Ok(name) => name,
            Err(failure) => {
                assert(!encodable(names[i as int]));
                return Err(failure);
            },
        };
        let value = match encode(map.value_at(i).as_str()) {
            Ok(value) => value,
            Err(failure) => {
                assert(!encodable(map@[names[i as int]]));
                return Err(failure);
            },
        };
        proof {
            let grown = pairs(members@.push((name, value)));
            assert forall|j: int| 0 <= j < grown.len() implies grown[j] == all.take(i + 1)[j] by {
                if j < i {
                    assert(pairs(members@)[j] == all.take(i as int)[j]);
                } else {
                    assert(all[i as int].0 == name@);
                    assert(all[i as int].1 == value@);
                }
            }
            assert(grown =~= all.take(i + 1));
        }
        members.push((name, value));
        i += 1;
    }
    assert(all.take(names.len() as int) =~= all);
    assert forall|name: Seq<char>| #[trigger] map@.contains_key(name) implies encodable(name)
        && encodable(map@[name]) by {
        let j = names.index_of(name);
        assert(names[j] == name);
    }
    Ok(frame_object(&members))
}

/// Renders a record as compact JSON.
///
/// It fails exactly where the encoder refuses one of the record's strings.
pub fn to_json(record: &EchoRecord) -> (r: Result<String, EchoError>)
    requires
        record.wf(),
    ensures
        delivers(json_of(record@), r),
{
    let method = match encode(record.method.as_str()) {
        Ok(method) => method,
        Err(failure) => {
            return Err(failure);
        },
    };
    let path = match encode(record.path.as_str()) {
        Ok(path) => path,
        Err(failure) => {
            return Err(failure);
        },
    };
    let queries = match queries_json(&record.queries) {
        Ok(queries) => queries,
        Err(failure) => {
            return Err(failure);
        },
    };
    let headers = match headers_json(&record.headers) {
        Ok(headers) => headers,
        Err(failure) => {
            return Err(failure);
        },
    };
    let body = match encode(record.body.as_str()) {
        Ok(body) => body,
        Err(failure) => {
            return Err(failure);
        },
    };
    Ok(
        frame_record(
            method.as_str(),
            path.as_str(),
            queries.as_str(),
            headers.as_str(),
            body.as_str(),
        ),
    )
}

/// Answers a request: projects it onto its record and renders the record.
pub fn echo(request: &Request) -> (r: Result<String, EchoError>)
    ensures
        delivers(json_of(projection(request@)), r),
{
    let record = project(request);
    to_json(&record)
}

} // verus!
