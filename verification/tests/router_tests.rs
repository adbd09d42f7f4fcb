use std::cell::Cell;

use http_server::{HandlerError, Method, Request, RequestHandler, Response, Router, Version};

fn get(path: &[u8]) -> Request {
    Request {
        method: Method::Get,
        path: path.to_vec(),
        query: Vec::new(),
        version: Version::Http11,
        headers: Vec::new(),
        body: Vec::new(),
        params: Vec::new(),
    }
}

fn text_response(status: u16, body: &[u8]) -> Response {
    Response {
        status,
        version: Version::Http11,
        headers: vec![(b"Content-Type".to_vec(), b"text/plain".to_vec())],
        body: body.to_vec(),
    }
}

/// A handler that counts its calls and answers with a fixed body.
struct CountingHandler {
    body: Vec<u8>,
    calls: Cell<u32>,
}

impl CountingHandler {
    fn new(body: &[u8]) -> CountingHandler {
        CountingHandler { body: body.to_vec(), calls: Cell::new(0) }
    }
}

impl RequestHandler for CountingHandler {
    fn handle(&self, _request: &Request) -> Result<Response, HandlerError> {
        self.calls.set(self.calls.get() + 1);
        Ok(text_response(200, &self.body))
    }
}

/// A handler that echoes the attached path parameters into the body as
/// `name=value` lines.
struct ParamEcho;

impl RequestHandler for ParamEcho {
    fn handle(&self, request: &Request) -> Result<Response, HandlerError> {
        let mut body = Vec::new();
        for (name, value) in &request.params {
            body.extend_from_slice(name);
            body.push(b'=');
            body.extend_from_slice(value);
            body.push(b'\n');
        }
        Ok(text_response(200, &body))
    }
}

/// A handler that always fails.
struct FailingHandler;

impl RequestHandler for FailingHandler {
    fn handle(&self, _request: &Request) -> Result<Response, HandlerError> {
        Err(HandlerError { message: b"database is down".to_vec() })
    }
}

#[test]
fn literal_route_dispatches_exactly_once() {
    let mut router: Router<CountingHandler> = Router::new();
    router.add_route(Method::Get, &b"/hello".to_vec(), CountingHandler::new(b"hi"));
    router.add_route(Method::Get, &b"/other".to_vec(), CountingHandler::new(b"no"));
    let resp = router.route(get(b"/hello"));
    assert_eq!(resp.status, 200);
    assert_eq!(resp.body, b"hi".to_vec());
    assert_eq!(router.routes[0].handler.calls.get(), 1);
    assert_eq!(router.routes[1].handler.calls.get(), 0);
}

#[test]
fn method_must_match_too() {
    let mut router: Router<CountingHandler> = Router::new();
    router.add_route(Method::Post, &b"/hello".to_vec(), CountingHandler::new(b"hi"));
    let resp = router.route(get(b"/hello"));
    assert_eq!(resp.status, 404);
    assert_eq!(router.routes[0].handler.calls.get(), 0);
}

#[test]
fn path_parameter_is_captured() {
    let mut router: Router<ParamEcho> = Router::new();
    router.add_route(Method::Get, &b"/users/:id".to_vec(), ParamEcho);
    let resp = router.route(get(b"/users/42"));
    assert_eq!(resp.status, 200);
    assert_eq!(resp.body, b"id=42\n".to_vec());
}

#[test]
fn longer_path_does_not_match_parameter_pattern() {
    let mut router: Router<ParamEcho> = Router::new();
    router.add_route(Method::Get, &b"/users/:id".to_vec(), ParamEcho);
    let resp = router.route(get(b"/users/42/extra"));
    assert_eq!(resp.status, 404);
}

#[test]
fn empty_segment_does_not_match_parameter() {
    let mut router: Router<ParamEcho> = Router::new();
    router.add_route(Method::Get, &b"/users/:id".to_vec(), ParamEcho);
    let resp = router.route(get(b"/users/"));
    assert_eq!(resp.status, 404);
}

#[test]
fn several_parameters_are_captured_in_order() {
    let mut router: Router<ParamEcho> = Router::new();
    router.add_route(Method::Get, &b"/a/:x/b/:y".to_vec(), ParamEcho);
    let resp = router.route(get(b"/a/1/b/2"));
    assert_eq!(resp.body, b"x=1\ny=2\n".to_vec());
}

#[test]
fn unregistered_path_yields_404_with_plain_text_body() {
    let router: Router<CountingHandler> = Router::new();
    let resp = router.route(get(b"/nowhere"));
    assert_eq!(resp.status, 404);
    assert_eq!(resp.version, Version::Http11);
    assert!(!resp.body.is_empty());
    assert_eq!(resp.body, b"Not Found".to_vec());
    assert_eq!(
        resp.headers,
        vec![
            (b"Content-Type".to_vec(), b"text/plain".to_vec()),
            (b"Content-Length".to_vec(), b"9".to_vec()),
        ]
    );
}

#[test]
fn failing_handler_yields_500_with_rendered_failure() {
    let mut router: Router<FailingHandler> = Router::new();
    router.add_route(Method::Get, &b"/boom".to_vec(), FailingHandler);
    let resp = router.route(get(b"/boom"));
    assert_eq!(resp.status, 500);
    assert_eq!(resp.body, b"database is down".to_vec());
    assert_eq!(
        resp.headers,
        vec![
            (b"Content-Type".to_vec(), b"text/plain".to_vec()),
            (b"Content-Length".to_vec(), b"16".to_vec()),
        ]
    );
}

#[test]
fn first_matching_route_in_registration_order_wins() {
    let mut router: Router<CountingHandler> = Router::new();
    router.add_route(Method::Get, &b"/:anything".to_vec(), CountingHandler::new(b"param"));
    router.add_route(Method::Get, &b"/x".to_vec(), CountingHandler::new(b"literal"));
    let resp = router.route(get(b"/x"));
    assert_eq!(resp.body, b"param".to_vec());
    assert_eq!(router.routes[0].handler.calls.get(), 1);
    assert_eq!(router.routes[1].handler.calls.get(), 0);
}

#[test]
fn duplicate_registration_overwrites_handler_in_place() {
    let mut router: Router<CountingHandler> = Router::new();
    router.add_route(Method::Get, &b"/x".to_vec(), CountingHandler::new(b"first"));
    router.add_route(Method::Get, &b"/y".to_vec(), CountingHandler::new(b"second"));
    router.add_route(Method::Get, &b"/x".to_vec(), CountingHandler::new(b"replacement"));
    assert_eq!(router.routes.len(), 2);
    let resp = router.route(get(b"/x"));
    assert_eq!(resp.body, b"replacement".to_vec());
}

#[test]
fn add_routes_registers_in_order() {
    let mut router: Router<CountingHandler> = Router::new();
    router.add_routes(vec![
        (Method::Get, b"/a".to_vec(), CountingHandler::new(b"a")),
        (Method::Post, b"/b".to_vec(), CountingHandler::new(b"b")),
    ]);
    assert_eq!(router.routes.len(), 2);
    let resp = router.route(get(b"/a"));
    assert_eq!(resp.body, b"a".to_vec());
    let mut post = get(b"/b");
    post.method = Method::Post;
    let resp = router.route(post);
    assert_eq!(resp.body, b"b".to_vec());
}

#[test]
fn find_route_reports_index_and_parameters() {
    let mut router: Router<ParamEcho> = Router::new();
    router.add_route(Method::Get, &b"/static".to_vec(), ParamEcho);
    router.add_route(Method::Get, &b"/users/:id".to_vec(), ParamEcho);
    let hit = router.find_route(Method::Get, &b"/users/7".to_vec()).unwrap();
    assert_eq!(hit.0, 1);
    assert_eq!(hit.1, vec![(b"id".to_vec(), b"7".to_vec())]);
    assert!(router.find_route(Method::Post, &b"/static".to_vec()).is_none());
}
