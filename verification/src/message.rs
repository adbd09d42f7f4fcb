//! Core HTTP value types: methods, versions, requests, responses, and the
//! parser's error taxonomy.  Header names, values, paths and bodies are all
//! plain byte vectors, exactly as they appear on the wire.

use vstd::prelude::*;

use crate::bytes::lower;

verus! {

/// The known HTTP method tokens.
#[derive(Clone, Copy, Debug, PartialEq, Eq, Structural)]
pub enum Method {
    Get,
    Post,
    Put,
    Delete,
    Patch,
    Head,
    Options,
    Connect,
    Trace,
}

/// The HTTP versions whose literal tokens the parser accepts.
#[derive(Clone, Copy, Debug, PartialEq, Eq, Structural)]
pub enum Version {
    Http10,
    Http11,
    Http20,
}

/// Why a byte stream failed to parse as an HTTP request.
#[derive(Clone, Copy, Debug, PartialEq, Eq, Structural)]
pub enum ParseError {
    /// The request line did not hold a known method and a target.
    MalformedRequestLine,
    /// The version token was not one of the accepted literals.
    UnsupportedVersion,
    /// A header line held no colon.
    MalformedHeader,
    /// The `Content-Length` value was empty, non-numeric, or above the
    /// configured maximum.
    InvalidContentLength,
    /// The stream ended before a full line or a full declared body arrived.
    UnexpectedEof,
}

/// The wire token of a method, e.g. `GET`.
pub open spec fn spec_method_token(m: Method) -> Seq<u8> {
    match m {
        Method::Get => seq![71u8, 69u8, 84u8],
        Method::Post => seq![80u8, 79u8, 83u8, 84u8],
        Method::Put => seq![80u8, 85u8, 84u8],
        Method::Delete => seq![68u8, 69u8, 76u8, 69u8, 84u8, 69u8],
        Method::Patch => seq![80u8, 65u8, 84u8, 67u8, 72u8],
        Method::Head => seq![72u8, 69u8, 65u8, 68u8],
        Method::Options => seq![79u8, 80u8, 84u8, 73u8, 79u8, 78u8, 83u8],
        Method::Connect => seq![67u8, 79u8, 78u8, 78u8, 69u8, 67u8, 84u8],
        Method::Trace => seq![84u8, 82u8, 65u8, 67u8, 69u8],
    }
}

/// The method whose wire token is `t`, if any.
pub open spec fn spec_method_of_token(t: Seq<u8>) -> Option<Method> {
    if t == spec_method_token(Method::Get) {
        Some(Method::Get)
    } else if t == spec_method_token(Method::Post) {
        Some(Method::Post)
    } else if t == spec_method_token(Method::Put) {
        Some(Method::Put)
    } else if t == spec_method_token(Method::Delete) {
        Some(Method::Delete)
    } else if t == spec_method_token(Method::Patch) {
        Some(Method::Patch)
    } else if t == spec_method_token(Method::Head) {
        Some(Method::Head)
    } else if t == spec_method_token(Method::Options) {
        Some(Method::Options)
    } else if t == spec_method_token(Method::Connect) {
        Some(Method::Connect)
    } else if t == spec_method_token(Method::Trace) {
        Some(Method::Trace)
    } else {
        None
    }
}

impl Method {
    /// The wire token of this method as bytes (e.g. `GET`).
    pub fn token(self) -> (r: Vec<u8>)
        ensures
            r@ == spec_method_token(self),
    {
        let r: Vec<u8> = match self {
            Method::Get => vec![71u8, 69u8, 84u8],
            Method::Post => vec![80u8, 79u8, 83u8, 84u8],
            Method::Put => vec![80u8, 85u8, 84u8],
            Method::Delete => vec![68u8, 69u8, 76u8, 69u8, 84u8, 69u8],
            Method::Patch => vec![80u8, 65u8, 84u8, 67u8, 72u8],
            Method::Head => vec![72u8, 69u8, 65u8, 68u8],
            Method::Options => vec![79u8, 80u8, 84u8, 73u8, 79u8, 78u8, 83u8],
            Method::Connect => vec![67u8, 79u8, 78u8, 78u8, 69u8, 67u8, 84u8],
            Method::Trace => vec![84u8, 82u8, 65u8, 67u8, 69u8],
        };
        proof {
            assert(r@ =~= spec_method_token(self));
        }
        r
    }

    /// The method whose wire token is `tok`, if any.
    pub fn from_token(tok: &Vec<u8>) -> (r: Option<Method>)
        ensures
            r == spec_method_of_token(tok@),
    {
        if crate::bytes::bytes_eq(tok, &Method::Get.token()) {
            return Some(Method::Get);
        }
        if crate::bytes::bytes_eq(tok, &Method::Post.token()) {
            return Some(Method::Post);
        }
        if crate::bytes::bytes_eq(tok, &Method::Put.token()) {
            return Some(Method::Put);
        }
        if crate::bytes::bytes_eq(tok, &Method::Delete.token()) {
            return Some(Method::Delete);
        }
        if crate::bytes::bytes_eq(tok, &Method::Patch.token()) {
            return Some(Method::Patch);
        }
        if crate::bytes::bytes_eq(tok, &Method::Head.token()) {
            return Some(Method::Head);
        }
        if crate::bytes::bytes_eq(tok, &Method::Options.token()) {
            return Some(Method::Options);
        }
        if crate::bytes::bytes_eq(tok, &Method::Connect.token()) {
            return Some(Method::Connect);
        }
        if crate::bytes::bytes_eq(tok, &Method::Trace.token()) {
            return Some(Method::Trace);
        }
        None
    }
}

/// The wire token of a version, e.g. `HTTP/1.1`.
pub open spec fn spec_version_token(v: Version) -> Seq<u8> {
    match v {
        Version::Http10 => seq![72u8, 84u8, 84u8, 80u8, 47u8, 49u8, 46u8, 48u8],
        Version::Http11 => seq![72u8, 84u8, 84u8, 80u8, 47u8, 49u8, 46u8, 49u8],
        Version::Http20 => seq![72u8, 84u8, 84u8, 80u8, 47u8, 50u8, 46u8, 48u8],
    }
}

/// The version whose wire token is `t`, if any.
pub open spec fn spec_version_of_token(t: Seq<u8>) -> Option<Version> {
    if t == spec_version_token(Version::Http10) {
        Some(Version::Http10)
    } else if t == spec_version_token(Version::Http11) {
        Some(Version::Http11)
    } else if t == spec_version_token(Version::Http20) {
        Some(Version::Http20)
    } else {
        None
    }
}

impl Version {
    /// The wire token of this version as bytes (e.g. `HTTP/1.1`).
    pub fn token(self) -> (r: Vec<u8>)
        ensures
            r@ == spec_version_token(self),
    {
        let r: Vec<u8> = match self {
            Version::Http10 => vec![72u8, 84u8, 84u8, 80u8, 47u8, 49u8, 46u8, 48u8],
            Version::Http11 => vec![72u8, 84u8, 84u8, 80u8, 47u8, 49u8, 46u8, 49u8],
            Version::Http20 => vec![72u8, 84u8, 84u8, 80u8, 47u8, 50u8, 46u8, 48u8],
        };
        proof {
            assert(r@ =~= spec_version_token(self));
        }
        r
    }

    /// The version whose wire token is `tok`, if any.
    pub fn from_token(tok: &Vec<u8>) -> (r: Option<Version>)
        ensures
            r == spec_version_of_token(tok@),
    {
        if crate::bytes::bytes_eq(tok, &Version::Http10.token()) {
            return Some(Version::Http10);
        }
        if crate::bytes::bytes_eq(tok, &Version::Http11.token()) {
            return Some(Version::Http11);
        }
        if crate::bytes::bytes_eq(tok, &Version::Http20.token()) {
            return Some(Version::Http20);
        }
        None
    }
}

/// Byte-level view of a header or parameter list: each name and value as a
/// byte sequence, in order.
pub open spec fn pairs_view(h: Seq<(Vec<u8>, Vec<u8>)>) -> Seq<(Seq<u8>, Seq<u8>)> {
    h.map_values(|p: (Vec<u8>, Vec<u8>)| (p.0@, p.1@))
}

/// Mathematical view of a request.
pub ghost struct ReqModel {
    pub method: Method,
    pub path: Seq<u8>,
    pub query: Seq<u8>,
    pub version: Version,
    pub headers: Seq<(Seq<u8>, Seq<u8>)>,
    pub body: Seq<u8>,
    pub params: Seq<(Seq<u8>, Seq<u8>)>,
}

/// One parsed HTTP request.  The target is stored as the path before any
/// `?` and the query after it; headers keep wire order; `params` is the
/// attachment map that the router fills with path parameters.
#[derive(Clone, Debug, PartialEq, Eq)]
pub struct Request {
    pub method: Method,
    pub path: Vec<u8>,
    pub query: Vec<u8>,
    pub version: Version,
    pub headers: Vec<(Vec<u8>, Vec<u8>)>,
    pub body: Vec<u8>,
    pub params: Vec<(Vec<u8>, Vec<u8>)>,
}

impl View for Request {
    type V = ReqModel;

    open spec fn view(&self) -> ReqModel {
        ReqModel {
            method: self.method,
            path: self.path@,
            query: self.query@,
            version: self.version,
            headers: pairs_view(self.headers@),
            body: self.body@,
            params: pairs_view(self.params@),
        }
    }
}

/// Mathematical view of a response.
pub ghost struct RespModel {
    pub status: u16,
    pub version: Version,
    pub headers: Seq<(Seq<u8>, Seq<u8>)>,
    pub body: Seq<u8>,
}

/// One HTTP response, as a handler builds it and the serializer writes it.
#[derive(Clone, Debug, PartialEq, Eq)]
pub struct Response {
    pub status: u16,
    pub version: Version,
    pub headers: Vec<(Vec<u8>, Vec<u8>)>,
    pub body: Vec<u8>,
}

impl View for Response {
    type V = RespModel;

    open spec fn view(&self) -> RespModel {
        RespModel {
            status: self.status,
            version: self.version,
            headers: pairs_view(self.headers@),
            body: self.body@,
        }
    }
}

/// Value of the first header whose lower-cased name is `lname`; later
/// duplicates are kept in the list but do not shadow the first.
pub open spec fn spec_header_lookup(
    headers: Seq<(Seq<u8>, Seq<u8>)>,
    lname: Seq<u8>,
) -> Option<Seq<u8>>
    decreases headers.len(),
{
    if headers.len() == 0 {
        None
    } else if lower(headers[0].0) == lname {
        Some(headers[0].1)
    } else {
        spec_header_lookup(headers.skip(1), lname)
    }
}

/// A byte-for-byte copy of `v`.
pub fn copy_bytes(v: &Vec<u8>) -> (r: Vec<u8>)
    ensures
        r@ == v@,
{
    let mut r: Vec<u8> = Vec::new();
    let mut i: usize = 0;
    while i < v.len()
        invariant
            i <= v.len(),
            r@ == v@.take(i as int),
        decreases v.len() - i,
    {
        let b = v[i];
        r.push(b);
        proof {
            assert(r@ =~= v@.take(i + 1));
        }
        i += 1;
    }
    proof {
        assert(v@.take(v@.len() as int) =~= v@);
    }
    r
}

/// Case-insensitive lookup of a header: `lname` must already be lower case.
pub fn header_lookup(headers: &Vec<(Vec<u8>, Vec<u8>)>, lname: &Vec<u8>) -> (r: Option<Vec<u8>>)
    ensures
        match r {
            Some(v) => spec_header_lookup(pairs_view(headers@), lname@) == Some(v@),
            None => spec_header_lookup(pairs_view(headers@), lname@) is None,
        },
{
    let ghost full = pairs_view(headers@);
    let mut i: usize = 0;
    proof {
        assert(full.skip(0) =~= full);
    }
    while i < headers.len()
        invariant
            i <= headers.len(),
            full == pairs_view(headers@),
            spec_header_lookup(full.skip(i as int), lname@) == spec_header_lookup(full, lname@),
        decreases headers.len() - i,
    {
        proof {
            assert(full.skip(i as int)[0] == (headers@[i as int].0@, headers@[i as int].1@));
        }
        let lowered = crate::bytes::lower_vec(&headers[i].0);
        if crate::bytes::bytes_eq(&lowered, lname) {
            let value = copy_bytes(&headers[i].1);
            return Some(value);
        }
        proof {
            assert(full.skip(i as int).skip(1) =~= full.skip(i + 1));
        }
        i += 1;
    }
    proof {
        assert(full.skip(headers@.len() as int) =~= Seq::<(Seq<u8>, Seq<u8>)>::empty());
    }
    None
}

/// Bytes of `"content-length"`.
pub open spec fn spec_content_length_lower() -> Seq<u8> {
    seq![99u8, 111u8, 110u8, 116u8, 101u8, 110u8, 116u8, 45u8, 108u8, 101u8, 110u8, 103u8, 116u8, 104u8]
}

/// Bytes of `"content-length"`.
pub fn content_length_lower() -> (r: Vec<u8>)
    ensures
        r@ == spec_content_length_lower(),
{
    let r: Vec<u8> = vec![99u8, 111u8, 110u8, 116u8, 101u8, 110u8, 116u8, 45u8, 108u8, 101u8, 110u8, 103u8, 116u8, 104u8];
    proof {
        assert(r@ =~= spec_content_length_lower());
    }
    r
}

/// Bytes of `"Content-Length"`.
pub open spec fn spec_content_length_name() -> Seq<u8> {
    seq![67u8, 111u8, 110u8, 116u8, 101u8, 110u8, 116u8, 45u8, 76u8, 101u8, 110u8, 103u8, 116u8, 104u8]
}

/// Bytes of `"Content-Length"`.
pub fn content_length_name() -> (r: Vec<u8>)
    ensures
        r@ == spec_content_length_name(),
{
    let r: Vec<u8> = vec![67u8, 111u8, 110u8, 116u8, 101u8, 110u8, 116u8, 45u8, 76u8, 101u8, 110u8, 103u8, 116u8, 104u8];
    proof {
        assert(r@ =~= spec_content_length_name());
    }
    r
}

/// Bytes of `"Content-Type"`.
pub open spec fn spec_content_type_name() -> Seq<u8> {
    seq![67u8, 111u8, 110u8, 116u8, 101u8, 110u8, 116u8, 45u8, 84u8, 121u8, 112u8, 101u8]
}

/// Bytes of `"Content-Type"`.
pub fn content_type_name() -> (r: Vec<u8>)
    ensures
        r@ == spec_content_type_name(),
{
    let r: Vec<u8> = vec![67u8, 111u8, 110u8, 116u8, 101u8, 110u8, 116u8, 45u8, 84u8, 121u8, 112u8, 101u8];
    proof {
        assert(r@ =~= spec_content_type_name());
    }
    r
}

/// Bytes of `"text/plain"`.
pub open spec fn spec_text_plain() -> Seq<u8> {
    seq![116u8, 101u8, 120u8, 116u8, 47u8, 112u8, 108u8, 97u8, 105u8, 110u8]
}

/// Bytes of `"text/plain"`.
pub fn text_plain() -> (r: Vec<u8>)
    ensures
        r@ == spec_text_plain(),
{
    let r: Vec<u8> = vec![116u8, 101u8, 120u8, 116u8, 47u8, 112u8, 108u8, 97u8, 105u8, 110u8];
    proof {
        assert(r@ =~= spec_text_plain());
    }
    r
}

/// Bytes of `"Not Found"`.
pub open spec fn spec_not_found_body() -> Seq<u8> {
    seq![78u8, 111u8, 116u8, 32u8, 70u8, 111u8, 117u8, 110u8, 100u8]
}

/// Bytes of `"Not Found"`.
pub fn not_found_body() -> (r: Vec<u8>)
    ensures
        r@ == spec_not_found_body(),
{
    let r: Vec<u8> = vec![78u8, 111u8, 116u8, 32u8, 70u8, 111u8, 117u8, 110u8, 100u8];
    proof {
        assert(r@ =~= spec_not_found_body());
    }
    r
}

/// The canonical reason phrase of a status code, empty for a code the
/// table does not know.
pub open spec fn spec_reason(status: u16) -> Seq<u8> {
    if status == 100 {
        seq![67u8, 111u8, 110u8, 116u8, 105u8, 110u8, 117u8, 101u8]
    } else if status == 101 {
        seq![83u8, 119u8, 105u8, 116u8, 99u8, 104u8, 105u8, 110u8, 103u8, 32u8, 80u8, 114u8, 111u8, 116u8, 111u8, 99u8, 111u8, 108u8, 115u8]
    } else if status == 200 {
        seq![79u8, 75u8]
    } else if status == 201 {
        seq![67u8, 114u8, 101u8, 97u8, 116u8, 101u8, 100u8]
    } else if status == 202 {
        seq![65u8, 99u8, 99u8, 101u8, 112u8, 116u8, 101u8, 100u8]
    } else if status == 204 {
        seq![78u8, 111u8, 32u8, 67u8, 111u8, 110u8, 116u8, 101u8, 110u8, 116u8]
    } else if status == 301 {
        seq![77u8, 111u8, 118u8, 101u8, 100u8, 32u8, 80u8, 101u8, 114u8, 109u8, 97u8, 110u8, 101u8, 110u8, 116u8, 108u8, 121u8]
    } else if status == 302 {
        seq![70u8, 111u8, 117u8, 110u8, 100u8]
    } else if status == 303 {
        seq![83u8, 101u8, 101u8, 32u8, 79u8, 116u8, 104u8, 101u8, 114u8]
    } else if status == 304 {
        seq![78u8, 111u8, 116u8, 32u8, 77u8, 111u8, 100u8, 105u8, 102u8, 105u8, 101u8, 100u8]
    } else if status == 307 {
        seq![84u8, 101u8, 109u8, 112u8, 111u8, 114u8, 97u8, 114u8, 121u8, 32u8, 82u8, 101u8, 100u8, 105u8, 114u8, 101u8, 99u8, 116u8]
    } else if status == 308 {
        seq![80u8, 101u8, 114u8, 109u8, 97u8, 110u8, 101u8, 110u8, 116u8, 32u8, 82u8, 101u8, 100u8, 105u8, 114u8, 101u8, 99u8, 116u8]
    } else if status == 400 {
        seq![66u8, 97u8, 100u8, 32u8, 82u8, 101u8, 113u8, 117u8, 101u8, 115u8, 116u8]
    } else if status == 401 {
        seq![85u8, 110u8, 97u8, 117u8, 116u8, 104u8, 111u8, 114u8, 105u8, 122u8, 101u8, 100u8]
    } else if status == 403 {
        seq![70u8, 111u8, 114u8, 98u8, 105u8, 100u8, 100u8, 101u8, 110u8]
    } else if status == 404 {
        seq![78u8, 111u8, 116u8, 32u8, 70u8, 111u8, 117u8, 110u8, 100u8]
    } else if status == 405 {
        seq![77u8, 101u8, 116u8, 104u8, 111u8, 100u8, 32u8, 78u8, 111u8, 116u8, 32u8, 65u8, 108u8, 108u8, 111u8, 119u8, 101u8, 100u8]
    } else if status == 408 {
        seq![82u8, 101u8, 113u8, 117u8, 101u8, 115u8, 116u8, 32u8, 84u8, 105u8, 109u8, 101u8, 111u8, 117u8, 116u8]
    } else if status == 411 {
        seq![76u8, 101u8, 110u8, 103u8, 116u8, 104u8, 32u8, 82u8, 101u8, 113u8, 117u8, 105u8, 114u8, 101u8, 100u8]
    } else if status == 413 {
        seq![80u8, 97u8, 121u8, 108u8, 111u8, 97u8, 100u8, 32u8, 84u8, 111u8, 111u8, 32u8, 76u8, 97u8, 114u8, 103u8, 101u8]
    } else if status == 414 {
        seq![85u8, 82u8, 73u8, 32u8, 84u8, 111u8, 111u8, 32u8, 76u8, 111u8, 110u8, 103u8]
    } else if status == 500 {
        seq![73u8, 110u8, 116u8, 101u8, 114u8, 110u8, 97u8, 108u8, 32u8, 83u8, 101u8, 114u8, 118u8, 101u8, 114u8, 32u8, 69u8, 114u8, 114u8, 111u8, 114u8]
    } else if status == 501 {
        seq![78u8, 111u8, 116u8, 32u8, 73u8, 109u8, 112u8, 108u8, 101u8, 109u8, 101u8, 110u8, 116u8, 101u8, 100u8]
    } else if status == 502 {
        seq![66u8, 97u8, 100u8, 32u8, 71u8, 97u8, 116u8, 101u8, 119u8, 97u8, 121u8]
    } else if status == 503 {
        seq![83u8, 101u8, 114u8, 118u8, 105u8, 99u8, 101u8, 32u8, 85u8, 110u8, 97u8, 118u8, 97u8, 105u8, 108u8, 97u8, 98u8, 108u8, 101u8]
    } else if status == 505 {
        seq![72u8, 84u8, 84u8, 80u8, 32u8, 86u8, 101u8, 114u8, 115u8, 105u8, 111u8, 110u8, 32u8, 78u8, 111u8, 116u8, 32u8, 83u8, 117u8, 112u8, 112u8, 111u8, 114u8, 116u8, 101u8, 100u8]
    } else {
        Seq::empty()
    }
}

/// The canonical reason phrase of a status code, empty when unknown.
pub fn reason_phrase(status: u16) -> (r: Vec<u8>)
    ensures
        r@ == spec_reason(status),
{
    if status == 100 {
        let r: Vec<u8> = vec![67u8, 111u8, 110u8, 116u8, 105u8, 110u8, 117u8, 101u8];
        proof {
            assert(r@ =~= spec_reason(status));
        }
        return r;
    }
    if status == 101 {
        let r: Vec<u8> = vec![83u8, 119u8, 105u8, 116u8, 99u8, 104u8, 105u8, 110u8, 103u8, 32u8, 80u8, 114u8, 111u8, 116u8, 111u8, 99u8, 111u8, 108u8, 115u8];
        proof {
            assert(r@ =~= spec_reason(status));
        }
        return r;
    }
    if status == 200 {
        let r: Vec<u8> = vec![79u8, 75u8];
        proof {
            assert(r@ =~= spec_reason(status));
        }
        return r;
    }
    if status == 201 {
        let r: Vec<u8> = vec![67u8, 114u8, 101u8, 97u8, 116u8, 101u8, 100u8];
        proof {
            assert(r@ =~= spec_reason(status));
        }
        return r;
    }
    if status == 202 {
        let r: Vec<u8> = vec![65u8, 99u8, 99u8, 101u8, 112u8, 116u8, 101u8, 100u8];
        proof {
            assert(r@ =~= spec_reason(status));
        }
        return r;
    }
    if status == 204 {
        let r: Vec<u8> = vec![78u8, 111u8, 32u8, 67u8, 111u8, 110u8, 116u8, 101u8, 110u8, 116u8];
        proof {
            assert(r@ =~= spec_reason(status));
        }
        return r;
    }
    if status == 301 {
        let r: Vec<u8> = vec![77u8, 111u8, 118u8, 101u8, 100u8, 32u8, 80u8, 101u8, 114u8, 109u8, 97u8, 110u8, 101u8, 110u8, 116u8, 108u8, 121u8];
        proof {
            assert(r@ =~= spec_reason(status));
        }
        return r;
    }
    if status == 302 {
        let r: Vec<u8> = vec![70u8, 111u8, 117u8, 110u8, 100u8];
        proof {
            assert(r@ =~= spec_reason(status));
        }
        return r;
    }
    if status == 303 {
        let r: Vec<u8> = vec![83u8, 101u8, 101u8, 32u8, 79u8, 116u8, 104u8, 101u8, 114u8];
        proof {
            assert(r@ =~= spec_reason(status));
        }
        return r;
    }
    if status == 304 {
        let r: Vec<u8> = vec![78u8, 111u8, 116u8, 32u8, 77u8, 111u8, 100u8, 105u8, 102u8, 105u8, 101u8, 100u8];
        proof {
            assert(r@ =~= spec_reason(status));
        }
        return r;
    }
    if status == 307 {
        let r: Vec<u8> = vec![84u8, 101u8, 109u8, 112u8, 111u8, 114u8, 97u8, 114u8, 121u8, 32u8, 82u8, 101u8, 100u8, 105u8, 114u8, 101u8, 99u8, 116u8];
        proof {
            assert(r@ =~= spec_reason(status));
        }
        return r;
    }
    if status == 308 {
        let r: Vec<u8> = vec![80u8, 101u8, 114u8, 109u8, 97u8, 110u8, 101u8, 110u8, 116u8, 32u8, 82u8, 101u8, 100u8, 105u8, 114u8, 101u8, 99u8, 116u8];
        proof {
            assert(r@ =~= spec_reason(status));
        }
        return r;
    }
    if status == 400 {
        let r: Vec<u8> = vec![66u8, 97u8, 100u8, 32u8, 82u8, 101u8, 113u8, 117u8, 101u8, 115u8, 116u8];
        proof {
            assert(r@ =~= spec_reason(status));
        }
        return r;
    }
    if status == 401 {
        let r: Vec<u8> = vec![85u8, 110u8, 97u8, 117u8, 116u8, 104u8, 111u8, 114u8, 105u8, 122u8, 101u8, 100u8];
        proof {
            assert(r@ =~= spec_reason(status));
        }
        return r;
    }
    if status == 403 {
        let r: Vec<u8> = vec![70u8, 111u8, 114u8, 98u8, 105u8, 100u8, 100u8, 101u8, 110u8];
        proof {
            assert(r@ =~= spec_reason(status));
        }
        return r;
    }
    if status == 404 {
        let r: Vec<u8> = vec![78u8, 111u8, 116u8, 32u8, 70u8, 111u8, 117u8, 110u8, 100u8];
        proof {
            assert(r@ =~= spec_reason(status));
        }
        return r;
    }
    if status == 405 {
        let r: Vec<u8> = vec![77u8, 101u8, 116u8, 104u8, 111u8, 100u8, 32u8, 78u8, 111u8, 116u8, 32u8, 65u8, 108u8, 108u8, 111u8, 119u8, 101u8, 100u8];
        proof {
            assert(r@ =~= spec_reason(status));
        }
        return r;
    }
    if status == 408 {
        let r: Vec<u8> = vec![82u8, 101u8, 113u8, 117u8, 101u8, 115u8, 116u8, 32u8, 84u8, 105u8, 109u8, 101u8, 111u8, 117u8, 116u8];
        proof {
            assert(r@ =~= spec_reason(status));
        }
        return r;
    }
    if status == 411 {
        let r: Vec<u8> = vec![76u8, 101u8, 110u8, 103u8, 116u8, 104u8, 32u8, 82u8, 101u8, 113u8, 117u8, 105u8, 114u8, 101u8, 100u8];
        proof {
            assert(r@ =~= spec_reason(status));
        }
        return r;
    }
    if status == 413 {
        let r: Vec<u8> = vec![80u8, 97u8, 121u8, 108u8, 111u8, 97u8, 100u8, 32u8, 84u8, 111u8, 111u8, 32u8, 76u8, 97u8, 114u8, 103u8, 101u8];
        proof {
            assert(r@ =~= spec_reason(status));
        }
        return r;
    }
    if status == 414 {
        let r: Vec<u8> = vec![85u8, 82u8, 73u8, 32u8, 84u8, 111u8, 111u8, 32u8, 76u8, 111u8, 110u8, 103u8];
        proof {
            assert(r@ =~= spec_reason(status));
        }
        return r;
    }
    if status == 500 {
        let r: Vec<u8> = vec![73u8, 110u8, 116u8, 101u8, 114u8, 110u8, 97u8, 108u8, 32u8, 83u8, 101u8, 114u8, 118u8, 101u8, 114u8, 32u8, 69u8, 114u8, 114u8, 111u8, 114u8];
        proof {
            assert(r@ =~= spec_reason(status));
        }
        return r;
    }
    if status == 501 {
        let r: Vec<u8> = vec![78u8, 111u8, 116u8, 32u8, 73u8, 109u8, 112u8, 108u8, 101u8, 109u8, 101u8, 110u8, 116u8, 101u8, 100u8];
        proof {
            assert(r@ =~= spec_reason(status));
        }
        return r;
    }
    if status == 502 {
        let r: Vec<u8> = vec![66u8, 97u8, 100u8, 32u8, 71u8, 97u8, 116u8, 101u8, 119u8, 97u8, 121u8];
        proof {
            assert(r@ =~= spec_reason(status));
        }
        return r;
    }
    if status == 503 {
        let r: Vec<u8> = vec![83u8, 101u8, 114u8, 118u8, 105u8, 99u8, 101u8, 32u8, 85u8, 110u8, 97u8, 118u8, 97u8, 105u8, 108u8, 97u8, 98u8, 108u8, 101u8];
        proof {
            assert(r@ =~= spec_reason(status));
        }
        return r;
    }
    if status == 505 {
        let r: Vec<u8> = vec![72u8, 84u8, 84u8, 80u8, 32u8, 86u8, 101u8, 114u8, 115u8, 105u8, 111u8, 110u8, 32u8, 78u8, 111u8, 116u8, 32u8, 83u8, 117u8, 112u8, 112u8, 111u8, 114u8, 116u8, 101u8, 100u8];
        proof {
            assert(r@ =~= spec_reason(status));
        }
        return r;
    }
    Vec::new()
}

} // verus!
