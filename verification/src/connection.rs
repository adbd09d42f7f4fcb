//! The connection abstraction and the per-connection request cycle.
//!
//! `AsyncConnection` is the capability the engine needs from a transport:
//! hand over the request bytes the peer sent, and carry response bytes
//! back.  The embedding application implements it over its plain or
//! TLS-wrapped sockets (reading until the peer's request is complete and
//! suspending on I/O as it sees fit); `BufferConnection` implements it in
//! memory.  Each connection serves exactly one request/response cycle.

use vstd::prelude::*;

use crate::bytes::{spec_split, SLASH};
use crate::message::{
    pairs_view, spec_content_length_name, spec_content_type_name, spec_reason, RespModel,
    Response, Version,
};
use crate::parser::spec_parse_request;
use crate::router::{
    spec_find_route, spec_not_found, spec_outcome_response, RequestHandler, Router,
};
use crate::serializer::spec_serialize_response;

verus! {

/// One duplex byte stream serving one request/response cycle, owned
/// exclusively by whoever handles the connection.
pub trait AsyncConnection {
    /// The request bytes the peer sends on this connection.
    spec fn incoming(&self) -> Seq<u8>;

    /// The bytes written back to the peer so far.
    spec fn outgoing(&self) -> Seq<u8>;

    /// Hands over the peer's request bytes.
    fn read_request_bytes(&mut self) -> (r: Vec<u8>)
        ensures
            r@ == old(self).incoming(),
            final(self).incoming() == old(self).incoming(),
            final(self).outgoing() == old(self).outgoing(),
    ;

    /// Sends bytes to the peer.
    fn write_bytes(&mut self, bytes: &Vec<u8>)
        ensures
            final(self).incoming() == old(self).incoming(),
            final(self).outgoing() == old(self).outgoing() + bytes@,
    ;
}

/// An in-memory connection: the request bytes it was created with, and
/// the response bytes written to it.
pub struct BufferConnection {
    pub request_bytes: Vec<u8>,
    pub response_bytes: Vec<u8>,
}

impl BufferConnection {
    /// A connection that will serve these request bytes.
    pub fn new(request_bytes: Vec<u8>) -> (r: BufferConnection)
        ensures
            r.incoming() == request_bytes@,
            r.outgoing() == Seq::<u8>::empty(),
    {
        let r = BufferConnection { request_bytes, response_bytes: Vec::new() };
        proof {
            assert(r.response_bytes@ =~= Seq::<u8>::empty());
        }
        r
    }
}

impl AsyncConnection for BufferConnection {
    open spec fn incoming(&self) -> Seq<u8> {
        self.request_bytes@
    }

    open spec fn outgoing(&self) -> Seq<u8> {
        self.response_bytes@
    }

    fn read_request_bytes(&mut self) -> (r: Vec<u8>) {
        crate::message::copy_bytes(&self.request_bytes)
    }

    fn write_bytes(&mut self, bytes: &Vec<u8>) {
        crate::serializer::append_bytes(&mut self.response_bytes, bytes);
    }
}

/// The best-effort response for bytes that do not parse as a request:
/// a plain-text 400 whose body is the 400 reason phrase.
pub open spec fn spec_bad_request() -> RespModel {
    RespModel {
        status: 400,
        version: Version::Http11,
        headers: seq![
            (spec_content_type_name(), crate::message::spec_text_plain()),
            (
                spec_content_length_name(),
                crate::bytes::dec_of(spec_reason(400).len() as nat),
            ),
        ],
        body: spec_reason(400),
    }
}

/// Builds the fixed 400 response for unparsable request bytes.
pub fn bad_request_response() -> (r: Response)
    ensures
        r@ == spec_bad_request(),
{
    let body = crate::message::reason_phrase(400);
    let mut headers: Vec<(Vec<u8>, Vec<u8>)> = Vec::new();
    headers.push((crate::message::content_type_name(), crate::message::text_plain()));
    headers.push((crate::message::content_length_name(), crate::bytes::format_dec(body.len())));
    let r = Response { status: 400, version: Version::Http11, headers, body };
    proof {
        assert(r@.headers =~~= spec_bad_request().headers);
        assert(r@ =~~= spec_bad_request());
    }
    r
}

/// What one connection's response bytes are, given its request bytes:
/// the serialized 400 when the bytes do not parse; the serialized 404
/// when no route accepts the request; otherwise the serialized rendering
/// of some handler outcome of the matched route.
pub open spec fn spec_response_bytes_ok(
    routes_found: Option<int>,
    parse: Result<crate::message::ReqModel, crate::message::ParseError>,
    out: Seq<u8>,
) -> bool {
    match parse {
        Err(_) => out == spec_serialize_response(spec_bad_request()),
        Ok(req) => match routes_found {
            None => out == spec_serialize_response(spec_not_found()),
            Some(_) => exists|outcome: Result<RespModel, Seq<u8>>|
                out == spec_serialize_response(spec_outcome_response(outcome)),
        },
    }
}

/// The route lookup a request model leads to.
pub open spec fn spec_route_of<H>(routes: Seq<crate::router::Route<H>>, parse: Result<
    crate::message::ReqModel,
    crate::message::ParseError,
>) -> Option<int> {
    match parse {
        Err(_) => None,
        Ok(req) => spec_find_route(routes, req.method, spec_split(req.path, SLASH)),
    }
}

/// Computes the response bytes for one request's bytes: parse, route,
/// serialize.  Parse failures become the 400 response, a missing route
/// the 404 response, a handler failure a 500 response; the cycle itself
/// never fails.
pub fn respond_bytes<H: RequestHandler>(
    router: &Router<H>,
    input: &Vec<u8>,
    max_body: usize,
) -> (out: Vec<u8>)
    ensures
        spec_response_bytes_ok(
            spec_route_of(router.routes@, spec_parse_request(input@, max_body as int)),
            spec_parse_request(input@, max_body as int),
            out@,
        ),
{
    match crate::parser::parse_request(input, max_body) {
        Err(_) => {
            let resp = bad_request_response();
            crate::serializer::serialize_response(&resp)
        },
        Ok(request) => {
            let ghost req_model = request@;
            let resp = router.route(request);
            let out = crate::serializer::serialize_response(&resp);
            proof {
                match spec_find_route(
                    router.routes@,
                    req_model.method,
                    spec_split(req_model.path, SLASH),
                ) {
                    None => {},
                    Some(_) => {
                        let o = choose|o: Result<RespModel, Seq<u8>>|
                            resp@ == spec_outcome_response(o);
                        assert(out@ == spec_serialize_response(spec_outcome_response(o)));
                    },
                }
            }
            out
        },
    }
}

/// Serves one connection: reads its request bytes, computes the
/// response, writes it back.  The connection's incoming bytes are left
/// as they are and exactly one response is appended to its outgoing
/// bytes.
pub fn handle_connection<C: AsyncConnection, H: RequestHandler>(
    router: &Router<H>,
    conn: &mut C,
    max_body: usize,
)
    ensures
        final(conn).incoming() == old(conn).incoming(),
        spec_response_bytes_ok(
            spec_route_of(
                router.routes@,
                spec_parse_request(old(conn).incoming(), max_body as int),
            ),
            spec_parse_request(old(conn).incoming(), max_body as int),
            final(conn).outgoing().skip(old(conn).outgoing().len() as int),
        ),
        final(conn).outgoing().len() >= old(conn).outgoing().len(),
{
    let input = conn.read_request_bytes();
    let out = respond_bytes(router, &input, max_body);
    conn.write_bytes(&out);
    proof {
        assert((old(conn).outgoing() + out@).skip(old(conn).outgoing().len() as int) =~= out@);
    }
}

} // verus!
