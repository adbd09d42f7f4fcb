//! The byte-level HTTP/1.1 request parser.
//!
//! `spec_parse_request` says what any byte sequence means as a request;
//! `parse_request` computes exactly that.  Lines end with CRLF, the request
//! line holds method, target and version, headers run until a bare CRLF,
//! and a declared `Content-Length` selects the body bytes.
//!
//! Transfer encodings (chunked among them) are deliberately unsupported:
//! a `Transfer-Encoding` header is kept as an ordinary header and only
//! `Content-Length` ever selects a body.

use vstd::prelude::*;

use crate::bytes::{
    all_digits, dec_val, spec_find, spec_take_line, spec_token, spec_trim, COLON, QUESTION,
};
use crate::message::{
    pairs_view, spec_content_length_lower, spec_header_lookup, spec_method_of_token,
    spec_version_of_token, Method, ParseError, ReqModel, Request, Version,
};

verus! {

/// The path part of a request target: the bytes before the first `?`.
pub open spec fn spec_target_path(t: Seq<u8>) -> Seq<u8> {
    match spec_find(t, QUESTION) {
        None => t,
        Some(i) => t.take(i),
    }
}

/// The query part of a request target: the bytes after the first `?`.
pub open spec fn spec_target_query(t: Seq<u8>) -> Seq<u8> {
    match spec_find(t, QUESTION) {
        None => Seq::empty(),
        Some(i) => t.skip(i + 1),
    }
}

/// Reads a request line: the first three whitespace-separated tokens as
/// method, target and version.  Missing tokens or an unknown method fail
/// as a malformed request line; a known method with an unknown version
/// token fails as an unsupported version.
pub open spec fn spec_parse_request_line(line: Seq<u8>) -> Result<
    (Method, Seq<u8>, Seq<u8>, Version),
    ParseError,
> {
    let m = spec_token(line);
    let t = spec_token(m.1);
    let v = spec_token(t.1);
    if m.0.len() == 0 || t.0.len() == 0 || v.0.len() == 0 {
        Err(ParseError::MalformedRequestLine)
    } else {
        match spec_method_of_token(m.0) {
            None => Err(ParseError::MalformedRequestLine),
            Some(method) => match spec_version_of_token(v.0) {
                None => Err(ParseError::UnsupportedVersion),
                Some(version) => Ok(
                    (method, spec_target_path(t.0), spec_target_query(t.0), version),
                ),
            },
        }
    }
}

/// Reads one header line: the text before the first colon is the name and
/// the text after it the value, both trimmed.  A line without a colon is
/// no header.
pub open spec fn spec_parse_header_line(line: Seq<u8>) -> Option<(Seq<u8>, Seq<u8>)> {
    match spec_find(line, COLON) {
        None => None,
        Some(i) => Some((spec_trim(line.take(i)), spec_trim(line.skip(i + 1)))),
    }
}

/// Reads header lines until a bare CRLF, returning the headers in wire
/// order and the bytes after the blank line.
pub open spec fn spec_parse_headers(s: Seq<u8>) -> Result<
    (Seq<(Seq<u8>, Seq<u8>)>, Seq<u8>),
    ParseError,
>
    decreases s.len() via spec_parse_headers_dec
{
    match spec_take_line(s) {
        None => Err(ParseError::UnexpectedEof),
        Some(p) => if p.0.len() == 0 {
            Ok((Seq::empty(), p.1))
        } else {
            match spec_parse_header_line(p.0) {
                None => Err(ParseError::MalformedHeader),
                Some(h) => match spec_parse_headers(p.1) {
                    Ok(r) => Ok((seq![h] + r.0, r.1)),
                    Err(e) => Err(e),
                },
            }
        },
    }
}

#[via_fn]
proof fn spec_parse_headers_dec(s: Seq<u8>) {
    crate::bytes::lemma_take_line_parts(s);
}

/// What a byte sequence means as an HTTP request, with bodies limited to
/// `max_body` bytes: the request line, the headers, and — when a
/// `Content-Length` header is declared — exactly that many body bytes.
/// Without the header the body is empty.  The attachment map of a freshly
/// parsed request is empty.
pub open spec fn spec_parse_request(s: Seq<u8>, max_body: int) -> Result<ReqModel, ParseError> {
    match spec_take_line(s) {
        None => Err(ParseError::UnexpectedEof),
        Some(p) => match spec_parse_request_line(p.0) {
            Err(e) => Err(e),
            Ok(rl) => match spec_parse_headers(p.1) {
                Err(e) => Err(e),
                Ok(hs) => match spec_header_lookup(hs.0, spec_content_length_lower()) {
                    None => Ok(
                        ReqModel {
                            method: rl.0,
                            path: rl.1,
                            query: rl.2,
                            version: rl.3,
                            headers: hs.0,
                            body: Seq::empty(),
                            params: Seq::empty(),
                        },
                    ),
                    Some(lv) => if !(lv.len() > 0 && all_digits(lv) && dec_val(lv) <= max_body) {
                        Err(ParseError::InvalidContentLength)
                    } else if hs.1.len() < dec_val(lv) {
                        Err(ParseError::UnexpectedEof)
                    } else {
                        Ok(
                            ReqModel {
                                method: rl.0,
                                path: rl.1,
                                query: rl.2,
                                version: rl.3,
                                headers: hs.0,
                                body: hs.1.take(dec_val(lv)),
                                params: Seq::empty(),
                            },
                        )
                    },
                },
            },
        },
    }
}

/// Reads the header section of `input` starting at byte `start`.
pub(crate) fn parse_headers(input: &Vec<u8>, start: usize) -> (r: Result<
    (Vec<(Vec<u8>, Vec<u8>)>, usize),
    ParseError,
>)
    requires
        start <= input.len(),
    ensures
        match r {
            Ok(p) => spec_parse_headers(input@.skip(start as int)) == Ok::<
                (Seq<(Seq<u8>, Seq<u8>)>, Seq<u8>),
                ParseError,
            >((pairs_view(p.0@), input@.skip(p.1 as int))) && start <= p.1 <= input.len(),
            Err(e) => spec_parse_headers(input@.skip(start as int)) == Err::<
                (Seq<(Seq<u8>, Seq<u8>)>, Seq<u8>),
                ParseError,
            >(e),
        },
{
    let mut collected: Vec<(Vec<u8>, Vec<u8>)> = Vec::new();
    let mut pos: usize = start;
    proof {
        assert(pairs_view(collected@) =~= Seq::<(Seq<u8>, Seq<u8>)>::empty());
    }
    loop
        invariant
            start <= pos <= input.len(),
            match spec_parse_headers(input@.skip(pos as int)) {
                Ok(hr) => spec_parse_headers(input@.skip(start as int)) == Ok::<
                    (Seq<(Seq<u8>, Seq<u8>)>, Seq<u8>),
                    ParseError,
                >((pairs_view(collected@) + hr.0, hr.1)),
                Err(e) => spec_parse_headers(input@.skip(start as int)) == Err::<
                    (Seq<(Seq<u8>, Seq<u8>)>, Seq<u8>),
                    ParseError,
                >(e),
            },
        decreases input.len() - pos,
    {
        let ghost rem = input@.skip(pos as int);
        match crate::bytes::take_line(input, pos) {
            None => {
                return Err(ParseError::UnexpectedEof);
            },
            Some((line, newpos)) => {
                if line.len() == 0 {
                    proof {
                        assert(spec_parse_headers(rem) == Ok::<
                            (Seq<(Seq<u8>, Seq<u8>)>, Seq<u8>),
                            ParseError,
                        >((Seq::empty(), input@.skip(newpos as int))));
                        assert(pairs_view(collected@) + Seq::<(Seq<u8>, Seq<u8>)>::empty()
                            =~= pairs_view(collected@));
                    }
                    return Ok((collected, newpos));
                }
                match crate::bytes::find_byte(&line, COLON) {
                    None => {
                        return Err(ParseError::MalformedHeader);
                    },
                    Some(ci) => {
                        let raw_name = crate::bytes::sub_vec(&line, 0, ci);
                        let raw_value = crate::bytes::sub_vec(&line, ci + 1, line.len());
                        let name = crate::bytes::trim(&raw_name);
                        let value = crate::bytes::trim(&raw_value);
                        proof {
                            assert(raw_name@ =~= line@.take(ci as int));
                            assert(raw_value@ =~= line@.skip(ci + 1));
                            assert(spec_parse_header_line(line@) == Some(
                                (name@, value@),
                            ));
                        }
                        let ghost old_pairs = pairs_view(collected@);
                        collected.push((name, value));
                        proof {
                            assert(pairs_view(collected@) =~~= old_pairs + seq![
                                (name@, value@),
                            ]);
                            let h = (name@, value@);
                            match spec_parse_headers(input@.skip(newpos as int)) {
                                Ok(hr) => {
                                    assert(spec_parse_headers(rem) == Ok::<
                                        (Seq<(Seq<u8>, Seq<u8>)>, Seq<u8>),
                                        ParseError,
                                    >((seq![h] + hr.0, hr.1)));
                                    assert((old_pairs + seq![h]) + hr.0 =~~= old_pairs + (seq![h]
                                        + hr.0));
                                },
                                Err(_) => {},
                            }
                        }
                        pos = newpos;
                    },
                }
            },
        }
    }
}

/// Parses one HTTP request out of `input`, allowing at most `max_body`
/// body bytes.  Returns exactly what `spec_parse_request` assigns to the
/// bytes: the structured request, or the first failure the byte stream
/// shows.
pub fn parse_request(input: &Vec<u8>, max_body: usize) -> (r: Result<Request, ParseError>)
    ensures
        match r {
            Ok(req) => spec_parse_request(input@, max_body as int) == Ok::<
                ReqModel,
                ParseError,
            >(req@),
            Err(e) => spec_parse_request(input@, max_body as int) == Err::<ReqModel, ParseError>(
                e,
            ),
        },
{
    proof {
        assert(input@.skip(0) =~= input@);
    }
    let first = crate::bytes::take_line(input, 0);
    let (line, after_line) = match first {
        None => {
            return Err(ParseError::UnexpectedEof);
        },
        Some(p) => p,
    };
    // Request line: method, target, version.
    proof {
        assert(line@.skip(0) =~= line@);
    }
    let (m_tok, p1) = crate::bytes::next_token(&line, 0);
    let (t_tok, p2) = crate::bytes::next_token(&line, p1);
    let (v_tok, _p3) = crate::bytes::next_token(&line, p2);
    if m_tok.len() == 0 || t_tok.len() == 0 || v_tok.len() == 0 {
        return Err(ParseError::MalformedRequestLine);
    }
    let method = match Method::from_token(&m_tok) {
        None => {
            return Err(ParseError::MalformedRequestLine);
        },
        Some(m) => m,
    };
    let version = match Version::from_token(&v_tok) {
        None => {
            return Err(ParseError::UnsupportedVersion);
        },
        Some(v) => v,
    };
    let (path, query) = match crate::bytes::find_byte(&t_tok, QUESTION) {
        None => {
            let path = crate::message::copy_bytes(&t_tok);
            proof {
                assert(path@ =~= spec_target_path(t_tok@));
                assert(Seq::<u8>::empty() =~= spec_target_query(t_tok@));
            }
            (path, Vec::new())
        },
        Some(qi) => {
            let path = crate::bytes::sub_vec(&t_tok, 0, qi);
            let query = crate::bytes::sub_vec(&t_tok, qi + 1, t_tok.len());
            proof {
                assert(path@ =~= spec_target_path(t_tok@));
                assert(query@ =~= spec_target_query(t_tok@));
            }
            (path, query)
        },
    };
    // Header section.
    let (headers, body_start) = match parse_headers(input, after_line) {
        Err(e) => {
            return Err(e);
        },
        Ok(p) => p,
    };
    // Body, when a Content-Length header declares one.
    let cl_name = crate::message::content_length_lower();
    let body = match crate::message::header_lookup(&headers, &cl_name) {
        None => Vec::new(),
        Some(lv) => {
            let n = match crate::bytes::parse_dec(&lv, max_body) {
                None => {
                    return Err(ParseError::InvalidContentLength);
                },
                Some(n) => n,
            };
            if input.len() - body_start < n {
                return Err(ParseError::UnexpectedEof);
            }
            let body = crate::bytes::sub_vec(input, body_start, body_start + n);
            proof {
                assert(body@ =~= input@.skip(body_start as int).take(n as int));
            }
            body
        },
    };
    let request = Request {
        method,
        path,
        query,
        version,
        headers,
        body,
        params: Vec::new(),
    };
    proof {
        assert(pairs_view(Seq::<(Vec<u8>, Vec<u8>)>::empty()) =~= Seq::<(Seq<u8>, Seq<u8>)>::empty());
        match spec_parse_request(input@, max_body as int) {
            Ok(model) => {
                assert(request@ =~~= model);
            },
            Err(_) => {},
        }
    }
    Ok(request)
}

} // verus!
