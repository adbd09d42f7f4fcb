use http_server::{parse_request, Method, ParseError, Version};

fn req(text: &[u8]) -> Vec<u8> {
    text.to_vec()
}

const MAX: usize = 1 << 20;

#[test]
fn parses_request_with_body_exactly() {
    let input = req(b"POST /items?id=7 HTTP/1.1\r\nHost: example\r\nContent-Length: 5\r\n\r\nhello");
    let r = parse_request(&input, MAX).unwrap();
    assert_eq!(r.method, Method::Post);
    assert_eq!(r.path, b"/items".to_vec());
    assert_eq!(r.query, b"id=7".to_vec());
    assert_eq!(r.version, Version::Http11);
    assert_eq!(
        r.headers,
        vec![
            (b"Host".to_vec(), b"example".to_vec()),
            (b"Content-Length".to_vec(), b"5".to_vec()),
        ]
    );
    assert_eq!(r.body, b"hello".to_vec());
    assert!(r.params.is_empty());
}

#[test]
fn parses_request_without_body() {
    let input = req(b"GET /index.html HTTP/1.0\r\nAccept: */*\r\n\r\n");
    let r = parse_request(&input, MAX).unwrap();
    assert_eq!(r.method, Method::Get);
    assert_eq!(r.path, b"/index.html".to_vec());
    assert_eq!(r.query, Vec::<u8>::new());
    assert_eq!(r.version, Version::Http10);
    assert_eq!(r.body, Vec::<u8>::new());
}

#[test]
fn header_order_is_preserved_and_duplicates_kept() {
    let input = req(b"GET / HTTP/1.1\r\nX-A: 1\r\nX-B: 2\r\nX-A: 3\r\n\r\n");
    let r = parse_request(&input, MAX).unwrap();
    assert_eq!(
        r.headers,
        vec![
            (b"X-A".to_vec(), b"1".to_vec()),
            (b"X-B".to_vec(), b"2".to_vec()),
            (b"X-A".to_vec(), b"3".to_vec()),
        ]
    );
}

#[test]
fn content_length_lookup_is_case_insensitive() {
    let input = req(b"PUT /x HTTP/1.1\r\ncOnTeNt-LeNgTh: 3\r\n\r\nabc");
    let r = parse_request(&input, MAX).unwrap();
    assert_eq!(r.body, b"abc".to_vec());
}

#[test]
fn header_name_and_value_are_trimmed() {
    let input = req(b"GET / HTTP/1.1\r\n  Host  :   some.where  \r\n\r\n");
    let r = parse_request(&input, MAX).unwrap();
    assert_eq!(r.headers, vec![(b"Host".to_vec(), b"some.where".to_vec())]);
}

#[test]
fn truncated_body_fails_with_unexpected_eof() {
    let input = req(b"POST / HTTP/1.1\r\nContent-Length: 10\r\n\r\nhello");
    assert_eq!(parse_request(&input, MAX), Err(ParseError::UnexpectedEof));
}

#[test]
fn missing_tokens_fail_as_malformed_request_line() {
    let input = req(b"GET /\r\n\r\n");
    assert_eq!(parse_request(&input, MAX), Err(ParseError::MalformedRequestLine));
}

#[test]
fn unknown_method_fails_as_malformed_request_line() {
    let input = req(b"BREW /pot HTTP/1.1\r\n\r\n");
    assert_eq!(parse_request(&input, MAX), Err(ParseError::MalformedRequestLine));
}

#[test]
fn unknown_version_token_fails_as_unsupported_version() {
    let input = req(b"GET / HTTP/9.9\r\n\r\n");
    assert_eq!(parse_request(&input, MAX), Err(ParseError::UnsupportedVersion));
}

#[test]
fn http2_version_token_is_accepted() {
    let input = req(b"GET / HTTP/2.0\r\n\r\n");
    let r = parse_request(&input, MAX).unwrap();
    assert_eq!(r.version, Version::Http20);
}

#[test]
fn header_line_without_colon_fails_as_malformed_header() {
    let input = req(b"GET / HTTP/1.1\r\nNoColonHere\r\n\r\n");
    assert_eq!(parse_request(&input, MAX), Err(ParseError::MalformedHeader));
}

#[test]
fn non_numeric_content_length_fails() {
    let input = req(b"POST / HTTP/1.1\r\nContent-Length: abc\r\n\r\n");
    assert_eq!(parse_request(&input, MAX), Err(ParseError::InvalidContentLength));
}

#[test]
fn empty_content_length_fails() {
    let input = req(b"POST / HTTP/1.1\r\nContent-Length: \r\n\r\n");
    assert_eq!(parse_request(&input, MAX), Err(ParseError::InvalidContentLength));
}

#[test]
fn content_length_above_the_maximum_fails_fast() {
    let input = req(b"POST / HTTP/1.1\r\nContent-Length: 1000\r\n\r\n");
    assert_eq!(parse_request(&input, 999), Err(ParseError::InvalidContentLength));
}

#[test]
fn huge_content_length_fails_rather_than_allocating() {
    let input = req(b"POST / HTTP/1.1\r\nContent-Length: 99999999999999999999999999\r\n\r\n");
    assert_eq!(parse_request(&input, MAX), Err(ParseError::InvalidContentLength));
}

#[test]
fn stream_without_line_terminator_fails_with_unexpected_eof() {
    let input = req(b"GET / HTTP/1.1");
    assert_eq!(parse_request(&input, MAX), Err(ParseError::UnexpectedEof));
}

#[test]
fn stream_ending_inside_headers_fails_with_unexpected_eof() {
    let input = req(b"GET / HTTP/1.1\r\nHost: x");
    assert_eq!(parse_request(&input, MAX), Err(ParseError::UnexpectedEof));
}

#[test]
fn leading_zeros_in_content_length_are_read_as_decimal() {
    let input = req(b"POST / HTTP/1.1\r\nContent-Length: 0005\r\n\r\nhello");
    let r = parse_request(&input, MAX).unwrap();
    assert_eq!(r.body, b"hello".to_vec());
}

#[test]
fn extra_request_line_tokens_are_ignored() {
    let input = req(b"GET / HTTP/1.1 surplus\r\n\r\n");
    let r = parse_request(&input, MAX).unwrap();
    assert_eq!(r.method, Method::Get);
    assert_eq!(r.path, b"/".to_vec());
}

#[test]
fn method_tokens_round_trip() {
    for m in [
        Method::Get,
        Method::Post,
        Method::Put,
        Method::Delete,
        Method::Patch,
        Method::Head,
        Method::Options,
        Method::Connect,
        Method::Trace,
    ] {
        let tok = m.token();
        assert_eq!(Method::from_token(&tok), Some(m));
    }
    assert_eq!(Method::from_token(&b"get".to_vec()), None);
}

#[test]
fn version_tokens_round_trip() {
    for v in [Version::Http10, Version::Http11, Version::Http20] {
        let tok = v.token();
        assert_eq!(Version::from_token(&tok), Some(v));
    }
    assert_eq!(Version::from_token(&b"HTTP/3.0".to_vec()), None);
}
