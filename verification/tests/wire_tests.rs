use http_server::{
    handle_connection, parse_response, respond_bytes, serialize_response, BufferConnection,
    HandlerError, Method, Request, RequestHandler, Response, Router, Version,
};

const MAX: usize = 1 << 20;

fn text_response(status: u16, body: &[u8]) -> Response {
    Response {
        status,
        version: Version::Http11,
        headers: vec![(b"Content-Type".to_vec(), b"text/plain".to_vec())],
        body: body.to_vec(),
    }
}

/// A handler answering 200 with a fixed body, or failing when built
/// without one.
struct FixedHandler {
    body: Option<Vec<u8>>,
}

impl RequestHandler for FixedHandler {
    fn handle(&self, _request: &Request) -> Result<Response, HandlerError> {
        match &self.body {
            Some(b) => Ok(text_response(200, b)),
            None => Err(HandlerError { message: b"handler failed".to_vec() }),
        }
    }
}

/// A handler that answers with the request's own path as the body.
struct PathEcho;

impl RequestHandler for PathEcho {
    fn handle(&self, request: &Request) -> Result<Response, HandlerError> {
        Ok(text_response(200, &request.path))
    }
}

#[test]
fn serializer_writes_exact_bytes_and_auto_content_length() {
    let resp = text_response(200, b"Hello, World!");
    let out = serialize_response(&resp);
    assert_eq!(
        out,
        b"HTTP/1.1 200 OK\r\nContent-Type: text/plain\r\nContent-Length: 13\r\n\r\nHello, World!"
            .to_vec()
    );
}

#[test]
fn serializer_keeps_an_explicit_content_length() {
    let resp = Response {
        status: 204,
        version: Version::Http10,
        headers: vec![(b"Content-Length".to_vec(), b"0".to_vec())],
        body: Vec::new(),
    };
    let out = serialize_response(&resp);
    assert_eq!(out, b"HTTP/1.0 204 No Content\r\nContent-Length: 0\r\n\r\n".to_vec());
}

#[test]
fn serializer_leaves_reason_empty_for_unknown_status() {
    let resp = Response {
        status: 299,
        version: Version::Http11,
        headers: Vec::new(),
        body: b"x".to_vec(),
    };
    let out = serialize_response(&resp);
    assert_eq!(out, b"HTTP/1.1 299 \r\nContent-Length: 1\r\n\r\nx".to_vec());
}

#[test]
fn response_round_trips_through_a_client_parse() {
    let resp = Response {
        status: 404,
        version: Version::Http11,
        headers: vec![
            (b"Content-Type".to_vec(), b"text/plain".to_vec()),
            (b"X-Trace".to_vec(), b"abc:def".to_vec()),
        ],
        body: b"Not Found".to_vec(),
    };
    let out = serialize_response(&resp);
    let (parsed, reason) = parse_response(&out).unwrap();
    assert_eq!(parsed.status, 404);
    assert_eq!(parsed.version, Version::Http11);
    assert_eq!(reason, b"Not Found".to_vec());
    assert_eq!(
        parsed.headers,
        vec![
            (b"Content-Type".to_vec(), b"text/plain".to_vec()),
            (b"X-Trace".to_vec(), b"abc:def".to_vec()),
            (b"Content-Length".to_vec(), b"9".to_vec()),
        ]
    );
    assert_eq!(parsed.body, b"Not Found".to_vec());
}

#[test]
fn respond_bytes_serves_a_routed_request() {
    let mut router: Router<FixedHandler> = Router::new();
    router.add_route(Method::Get, &b"/greet".to_vec(), FixedHandler { body: Some(b"hi".to_vec()) });
    let input = b"GET /greet HTTP/1.1\r\nHost: h\r\n\r\n".to_vec();
    let out = respond_bytes(&router, &input, MAX);
    let (parsed, _) = parse_response(&out).unwrap();
    assert_eq!(parsed.status, 200);
    assert_eq!(parsed.body, b"hi".to_vec());
}

#[test]
fn respond_bytes_answers_400_for_unparsable_bytes() {
    let router: Router<FixedHandler> = Router::new();
    let input = b"garbage without structure".to_vec();
    let out = respond_bytes(&router, &input, MAX);
    let (parsed, _) = parse_response(&out).unwrap();
    assert_eq!(parsed.status, 400);
    assert_eq!(parsed.body, b"Bad Request".to_vec());
}

#[test]
fn respond_bytes_answers_404_for_an_unrouted_request() {
    let router: Router<FixedHandler> = Router::new();
    let input = b"GET /missing HTTP/1.1\r\n\r\n".to_vec();
    let out = respond_bytes(&router, &input, MAX);
    let (parsed, _) = parse_response(&out).unwrap();
    assert_eq!(parsed.status, 404);
    assert_eq!(parsed.body, b"Not Found".to_vec());
}

#[test]
fn failed_handler_yields_500_and_serving_goes_on() {
    let mut router: Router<FixedHandler> = Router::new();
    router.add_route(Method::Get, &b"/boom".to_vec(), FixedHandler { body: None });
    router.add_route(Method::Get, &b"/fine".to_vec(), FixedHandler { body: Some(b"ok".to_vec()) });
    let out = respond_bytes(&router, &b"GET /boom HTTP/1.1\r\n\r\n".to_vec(), MAX);
    let (parsed, _) = parse_response(&out).unwrap();
    assert_eq!(parsed.status, 500);
    assert_eq!(parsed.body, b"handler failed".to_vec());
    // The engine keeps serving later connections.
    let out = respond_bytes(&router, &b"GET /fine HTTP/1.1\r\n\r\n".to_vec(), MAX);
    let (parsed, _) = parse_response(&out).unwrap();
    assert_eq!(parsed.status, 200);
    assert_eq!(parsed.body, b"ok".to_vec());
}

#[test]
fn handle_connection_writes_exactly_one_response() {
    let mut router: Router<PathEcho> = Router::new();
    router.add_route(Method::Get, &b"/:name".to_vec(), PathEcho);
    let mut conn = BufferConnection::new(b"GET /alpha HTTP/1.1\r\n\r\n".to_vec());
    handle_connection(&router, &mut conn, MAX);
    let (parsed, _) = parse_response(&conn.response_bytes).unwrap();
    assert_eq!(parsed.status, 200);
    assert_eq!(parsed.body, b"/alpha".to_vec());
}

#[test]
fn many_connections_each_get_their_own_response() {
    let mut router: Router<PathEcho> = Router::new();
    router.add_route(Method::Get, &b"/:name".to_vec(), PathEcho);
    let mut conns: Vec<BufferConnection> = Vec::new();
    for i in 0..16 {
        let path = format!("/client{}", i);
        let input = format!("GET {} HTTP/1.1\r\nHost: h\r\n\r\n", path);
        conns.push(BufferConnection::new(input.into_bytes()));
    }
    for conn in conns.iter_mut() {
        handle_connection(&router, conn, MAX);
    }
    for (i, conn) in conns.iter().enumerate() {
        let (parsed, _) = parse_response(&conn.response_bytes).unwrap();
        assert_eq!(parsed.status, 200);
        assert_eq!(parsed.body, format!("/client{}", i).into_bytes());
        // Nothing beyond the one response was written.
        assert_eq!(serialize_response(&parsed), conn.response_bytes);
    }
}

#[test]
fn decimal_helpers_round_trip() {
    let v = http_server::bytes::format_dec(65535);
    assert_eq!(v, b"65535".to_vec());
    assert_eq!(http_server::bytes::parse_dec(&v, usize::MAX), Some(65535));
    assert_eq!(http_server::bytes::parse_dec(&b"007".to_vec(), usize::MAX), Some(7));
    assert_eq!(http_server::bytes::parse_dec(&b"".to_vec(), usize::MAX), None);
    assert_eq!(http_server::bytes::parse_dec(&b"12a".to_vec(), usize::MAX), None);
    assert_eq!(http_server::bytes::parse_dec(&b"100".to_vec(), 99), None);
}

#[test]
fn reason_phrases_cover_the_statuses_the_engine_sends() {
    assert_eq!(http_server::message::reason_phrase(200), b"OK".to_vec());
    assert_eq!(http_server::message::reason_phrase(400), b"Bad Request".to_vec());
    assert_eq!(http_server::message::reason_phrase(404), b"Not Found".to_vec());
    assert_eq!(http_server::message::reason_phrase(500), b"Internal Server Error".to_vec());
    assert_eq!(http_server::message::reason_phrase(299), Vec::<u8>::new());
}
