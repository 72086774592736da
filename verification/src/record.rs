//! The request as the transport hands it over, the canonical record of it,
//! and the projection from the one to the other.

use crate::fields::{pairs, FieldText};
use crate::headers::{headers_as_map, latest, HeaderMap};
use crate::query::{folded, querys_as_map, QueryMap, QueryValueText};
use vstd::prelude::*;
use vstd::string::*;

verus! {

/// The HTTP methods that the service answers.
#[derive(Clone, Copy, Debug, PartialEq, Eq)]
pub enum Method {
    Get,
    Put,
    Post,
    Delete,
    Options,
    Head,
    Trace,
    Connect,
    Patch,
}

/// The upper-case verb of a method.
pub open spec fn method_name(method: Method) -> Seq<char> {
    match method {
        Method::Get => "GET"@,
        Method::Put => "PUT"@,
        Method::Post => "POST"@,
        Method::Delete => "DELETE"@,
        Method::Options => "OPTIONS"@,
        Method::Head => "HEAD"@,
        Method::Trace => "TRACE"@,
        Method::Connect => "CONNECT"@,
        Method::Patch => "PATCH"@,
    }
}

impl Method {
    /// The upper-case verb of the method.
    pub fn name(&self) -> (verb: &'static str)
        ensures
            verb@ == method_name(*self),
    {
        match self {
            Method::Get => "GET",
            Method::Put => "PUT",
            Method::Post => "POST",
            Method::Delete => "DELETE",
            Method::Options => "OPTIONS",
            Method::Head => "HEAD",
            Method::Trace => "TRACE",
            Method::Connect => "CONNECT",
            Method::Patch => "PATCH",
        }
    }
}

/// The placeholder that stands for the body of every request.
pub open spec fn body_placeholder() -> Seq<char> {
    "BODY"@
}

/// A parsed request: what the transport has read of it. The payload is not
/// part of it, since it is never looked at.
#[derive(Debug, Clone, PartialEq, Eq)]
pub struct Request {
    /// The method of the request.
    pub method: Method,
    /// The path component of the URI, without query string or host.
    pub path: String,
    /// The fields of the query string, in the order of the URI.
    pub query: Vec<(String, String)>,
    /// The header fields, in the order of arrival.
    pub headers: Vec<(String, String)>,
}

/// A request as plain text.
pub struct RequestText {
    pub method: Method,
    pub path: Seq<char>,
    pub query: Seq<FieldText>,
    pub headers: Seq<FieldText>,
}

impl View for Request {
    type V = RequestText;

    open spec fn view(&self) -> RequestText {
        RequestText {
            method: self.method,
            path: self.path@,
            query: pairs(self.query@),
            headers: pairs(self.headers@),
        }
    }
}

/// The canonical snapshot of one request.
#[derive(Debug, Clone, PartialEq, Eq)]
pub struct EchoRecord {
    /// The upper-case verb of the method.
    pub method: String,
    /// The path of the request.
    pub path: String,
    /// The folded query parameters, in ascending key order.
    pub queries: QueryMap,
    /// The headers, in ascending name order.
    pub headers: HeaderMap,
    /// The placeholder for the body.
    pub body: String,
}

/// An echo record as plain text and mathematical maps.
pub struct EchoRecordText {
    pub method: Seq<char>,
    pub path: Seq<char>,
    pub queries: Map<Seq<char>, QueryValueText>,
    pub headers: Map<Seq<char>, Seq<char>>,
    pub body: Seq<char>,
}

impl View for EchoRecord {
    type V = EchoRecordText;

    open spec fn view(&self) -> EchoRecordText {
        EchoRecordText {
            method: self.method@,
            path: self.path@,
            queries: self.queries@,
            headers: self.headers@,
            body: self.body@,
        }
    }
}

impl EchoRecord {
    /// Both maps of the record are well formed.
    pub open spec fn wf(&self) -> bool {
        &&& self.queries.wf()
        &&& self.headers.wf()
    }
}

/// The record of a request: its verb, its path, its query fields folded,
/// its headers with the last value of each name, and the placeholder body.
pub open spec fn projection(request: RequestText) -> EchoRecordText {
    EchoRecordText {
        method: method_name(request.method),
        path: request.path,
        queries: folded(request.query),
        headers: latest(request.headers),
        body: body_placeholder(),
    }
}

/// Projects a request onto its canonical record.
pub fn project(request: &Request) -> (record: EchoRecord)
    ensures
        record.wf(),
        record@ == projection(request@),
        record.body@ == "BODY"@,
{
    EchoRecord {
        method: String::from_str(request.method.name()),
        path: request.path.clone(),
        queries: querys_as_map(&request.query),
        headers: headers_as_map(&request.headers),
        body: String::from_str("BODY"),
    }
}

} // verus!
