//! An HTTP echo service's core: a request is projected onto a canonical
//! record (method, path, folded query parameters, headers, a placeholder
//! body) and the record is rendered as one line of JSON.
//!
//! Everything here is a pure function of its arguments. The transport that
//! accepts connections and parses requests hands this crate plain values and
//! takes the rendered text back.

pub mod key_order;
pub mod sorted_map;
pub mod fields;
pub mod query;
pub mod headers;
pub mod json;
pub mod record;
pub mod render;
pub mod routes;
pub mod laws;

pub use crate::headers::{headers_as_map, record_header, HeaderMap};
pub use crate::json::{
    encode, encoding_outcome, frame_array, frame_object, frame_record, EchoError,
};
pub use crate::key_order::{compare_keys, KeyOrder};
pub use crate::query::{querys_as_map, record_query, QueryMap, QueryValue};
pub use crate::record::{project, EchoRecord, Method, Request};
pub use crate::render::{echo, headers_json, queries_json, to_json, value_json};
pub use crate::routes::{rocket, route_for, Launch, Route};
pub use crate::sorted_map::SortedMap;
