//! The library's general laws, proved once and for all: round trips
//! between the serializer and the parsers, the parser's failure on
//! truncated bodies, and the router's treatment of literal patterns.

use vstd::prelude::*;

use crate::bytes::{
    all_digits, dec_of, dec_val, is_ws, lower, spec_skip_ws, spec_take_line, spec_token,
    spec_trim, spec_split, CR, LF, SP, COLON, SLASH,
};
use crate::message::{
    spec_content_length_lower, spec_content_length_name, spec_header_lookup, spec_method_of_token,
    spec_method_token, spec_reason, spec_version_of_token, spec_version_token, Method, ParseError,
    ReqModel, Version,
};
use crate::parser::{
    spec_parse_header_line, spec_parse_headers, spec_parse_request, spec_parse_request_line,
    spec_target_path, spec_target_query,
};
use crate::serializer::{spec_header_block, spec_header_line};

verus! {

/// Text that can stand inside one wire line: no CR, no LF.
pub open spec fn wire_text(s: Seq<u8>) -> bool {
    forall|i: int| 0 <= i < s.len() ==> s[i] != CR && s[i] != LF
}

/// Text without surrounding whitespace.
pub open spec fn trimmed(s: Seq<u8>) -> bool {
    s.len() > 0 ==> (!is_ws(s[0]) && !is_ws(s[s.len() - 1]))
}

/// Text without a colon, as a header name must be to survive the wire.
pub open spec fn no_colon(s: Seq<u8>) -> bool {
    forall|i: int| 0 <= i < s.len() ==> s[i] != COLON
}

/// A header that serializes to a line the parser reads back unchanged:
/// the name free of colons, both sides free of CR and LF and of
/// surrounding whitespace.
pub open spec fn wf_header(h: (Seq<u8>, Seq<u8>)) -> bool {
    wire_text(h.0) && trimmed(h.0) && no_colon(h.0) && wire_text(h.1) && trimmed(h.1)
}

pub open spec fn wf_headers(hs: Seq<(Seq<u8>, Seq<u8>)>) -> bool {
    forall|i: int| 0 <= i < hs.len() ==> wf_header(#[trigger] hs[i])
}

/// Trimming trimmed text changes nothing.
pub proof fn lemma_trim_of_trimmed(s: Seq<u8>)
    requires
        trimmed(s),
    ensures
        spec_trim(s) == s,
{
    crate::bytes::lemma_skip_ws_at(s, 0);
    assert(s.skip(0) =~= s);
    crate::bytes::lemma_trim_end_at(s, s.len() as int);
    assert(s.take(s.len() as int) =~= s);
}

/// A well-formed header's wire line reads back as exactly that header.
pub proof fn lemma_header_line_reads_back(h: (Seq<u8>, Seq<u8>))
    requires
        wf_header(h),
    ensures
        spec_parse_header_line(h.0 + seq![COLON, SP] + h.1) == Some(h),
        wire_text(h.0 + seq![COLON, SP] + h.1),
        (h.0 + seq![COLON, SP] + h.1).len() >= 2,
{
    let line = h.0 + seq![COLON, SP] + h.1;
    assert(forall|j: int| 0 <= j < h.0.len() ==> line[j] == h.0[j] && line[j] != COLON);
    assert(line[h.0.len() as int] == COLON);
    crate::bytes::lemma_find_at(line, COLON, h.0.len() as int);
    assert(line.take(h.0.len() as int) =~= h.0);
    lemma_trim_of_trimmed(h.0);
    let after = line.skip(h.0.len() + 1int);
    assert(after =~= seq![SP] + h.1);
    if h.1.len() == 0 {
        assert(after =~= seq![SP]);
        crate::bytes::lemma_skip_ws_at(after, 1);
        assert(after.skip(1) =~= Seq::<u8>::empty());
        assert(spec_skip_ws(after) =~= Seq::<u8>::empty());
        assert(spec_trim(after) =~= h.1);
    } else {
        crate::bytes::lemma_skip_ws_at(after, 1);
        assert(after.skip(1) =~= h.1);
        crate::bytes::lemma_trim_end_at(h.1, h.1.len() as int);
        assert(h.1.take(h.1.len() as int) =~= h.1);
    }
}

/// Header blocks concatenate.
pub proof fn lemma_header_block_append(a: Seq<(Seq<u8>, Seq<u8>)>, b: Seq<(Seq<u8>, Seq<u8>)>)
    ensures
        spec_header_block(a + b) == spec_header_block(a) + spec_header_block(b),
    decreases a.len(),
{
    if a.len() == 0 {
        assert(a + b =~= b);
        assert(Seq::<u8>::empty() + spec_header_block(b) =~= spec_header_block(b));
    } else {
        lemma_header_block_append(a.skip(1), b);
        assert((a + b)[0] == a[0]);
        assert((a + b).skip(1) =~~= a.skip(1) + b);
        assert(spec_header_line(a[0]) + (spec_header_block(a.skip(1)) + spec_header_block(b))
            =~= (spec_header_line(a[0]) + spec_header_block(a.skip(1))) + spec_header_block(b));
    }
}

/// Looking a name up in concatenated header lists reads the first list
/// first.
pub proof fn lemma_header_lookup_append(
    a: Seq<(Seq<u8>, Seq<u8>)>,
    b: Seq<(Seq<u8>, Seq<u8>)>,
    lname: Seq<u8>,
)
    ensures
        spec_header_lookup(a + b, lname) == (match spec_header_lookup(a, lname) {
            Some(v) => Some(v),
            None => spec_header_lookup(b, lname),
        }),
    decreases a.len(),
{
    if a.len() == 0 {
        assert(a + b =~~= b);
    } else {
        lemma_header_lookup_append(a.skip(1), b, lname);
        assert((a + b)[0] == a[0]);
        assert((a + b).skip(1) =~~= a.skip(1) + b);
    }
}

/// A block of well-formed header lines followed by a blank line reads
/// back as exactly those headers, leaving the bytes after the blank
/// line.
pub proof fn lemma_parse_headers_of_block(hs: Seq<(Seq<u8>, Seq<u8>)>, rest: Seq<u8>)
    requires
        wf_headers(hs),
    ensures
        spec_parse_headers(spec_header_block(hs) + seq![CR, LF] + rest) == Ok::<
            (Seq<(Seq<u8>, Seq<u8>)>, Seq<u8>),
            ParseError,
        >((hs, rest)),
    decreases hs.len(),
{
    let s = spec_header_block(hs) + seq![CR, LF] + rest;
    if hs.len() == 0 {
        assert(s =~= Seq::<u8>::empty() + seq![CR, LF] + rest);
        crate::bytes::lemma_take_line_of_append(Seq::empty(), rest);
        assert(spec_take_line(s) == Some((Seq::<u8>::empty(), rest)));
        assert(hs =~= Seq::<(Seq<u8>, Seq<u8>)>::empty());
    } else {
        let h0 = hs[0];
        assert(wf_header(h0));
        let content = h0.0 + seq![COLON, SP] + h0.1;
        lemma_header_line_reads_back(h0);
        let tail = spec_header_block(hs.skip(1)) + seq![CR, LF] + rest;
        assert(s =~= content + seq![CR, LF] + tail) by {
            assert(spec_header_block(hs) == spec_header_line(h0) + spec_header_block(hs.skip(1)));
            assert(spec_header_line(h0) =~= content + seq![CR, LF]);
        }
        crate::bytes::lemma_take_line_of_append(content, tail);
        assert(spec_take_line(s) == Some((content, tail)));
        assert(content.len() != 0);
        assert(wf_headers(hs.skip(1))) by {
            assert(forall|i: int|
                0 <= i < hs.skip(1).len() ==> #[trigger] hs.skip(1)[i] == hs[i + 1]);
        }
        lemma_parse_headers_of_block(hs.skip(1), rest);
        assert(spec_parse_headers(s) == Ok::<(Seq<(Seq<u8>, Seq<u8>)>, Seq<u8>), ParseError>(
            (seq![h0] + hs.skip(1), rest),
        ));
        assert(seq![h0] + hs.skip(1) =~= hs);
    }
}

/// The first token of `tok + rest` is `tok`, when `tok` is non-empty,
/// whitespace-free text and `rest` opens with whitespace or is empty.
pub proof fn lemma_token_prefix(tok: Seq<u8>, rest: Seq<u8>)
    requires
        tok.len() > 0,
        forall|i: int| 0 <= i < tok.len() ==> !is_ws(tok[i]),
        rest.len() > 0 ==> is_ws(rest[0]),
    ensures
        spec_token(tok + rest).0 == tok,
        spec_token(tok + rest).1 == rest,
{
    let s = tok + rest;
    crate::bytes::lemma_skip_ws_at(s, 0);
    assert(s.skip(0) =~= s);
    assert(forall|j: int| 0 <= j < tok.len() ==> s[j] == tok[j]);
    if rest.len() > 0 {
        assert(s[tok.len() as int] == rest[0]);
    }
    crate::bytes::lemma_take_tok_at(s, tok.len() as int);
    assert(s.take(tok.len() as int) =~= tok);
    assert(s.skip(tok.len() as int) =~= rest);
}

/// The first token after one leading space, likewise.
pub proof fn lemma_token_after_sp(tok: Seq<u8>, rest: Seq<u8>)
    requires
        tok.len() > 0,
        forall|i: int| 0 <= i < tok.len() ==> !is_ws(tok[i]),
        rest.len() > 0 ==> is_ws(rest[0]),
    ensures
        spec_token(seq![SP] + tok + rest).0 == tok,
        spec_token(seq![SP] + tok + rest).1 == rest,
{
    let s = seq![SP] + tok + rest;
    crate::bytes::lemma_skip_ws_at(s, 1);
    let t = s.skip(1);
    assert(t =~= tok + rest);
    lemma_token_prefix(tok, rest);
    assert(spec_skip_ws(s) == t);
    assert(spec_skip_ws(t) == t) by {
        crate::bytes::lemma_skip_ws_at(t, 0);
        assert(t.skip(0) =~= t);
    }
    assert(spec_token(s).0 == spec_token(t).0);
    assert(spec_token(s).1 == spec_token(t).1);
}

/// Digit strings are line-safe: no CR, LF, colon or whitespace.
pub proof fn lemma_digits_wire_safe(s: Seq<u8>)
    requires
        all_digits(s),
    ensures
        wire_text(s),
        trimmed(s),
        no_colon(s),
        forall|i: int| 0 <= i < s.len() ==> !is_ws(s[i]),
{
    assert(forall|i: int| 0 <= i < s.len() ==> crate::bytes::is_digit(#[trigger] s[i]));
}

/// The `Content-Length` header name is line-safe and lower-cases to the
/// name the lookup uses.
pub proof fn lemma_content_length_name_wf()
    ensures
        wire_text(spec_content_length_name()),
        trimmed(spec_content_length_name()),
        no_colon(spec_content_length_name()),
        lower(spec_content_length_name()) == spec_content_length_lower(),
{
    assert(lower(spec_content_length_name()) =~= spec_content_length_lower());
}

/// Method tokens are non-empty, whitespace-free line text.
pub proof fn lemma_method_token_wf(m: Method)
    ensures
        spec_method_token(m).len() > 0,
        forall|i: int|
            0 <= i < spec_method_token(m).len() ==> !is_ws(#[trigger] spec_method_token(m)[i])
                && spec_method_token(m)[i] != CR && spec_method_token(m)[i] != LF,
        spec_method_of_token(spec_method_token(m)) == Some(m),
{
    let t = spec_method_token(m);
    match m {
        Method::Put => {
            assert(t[0] != spec_method_token(Method::Get)[0]);
        },
        Method::Head => {
            assert(t[0] != spec_method_token(Method::Post)[0]);
        },
        Method::Connect => {
            assert(t[0] != spec_method_token(Method::Options)[0]);
        },
        Method::Trace => {
            assert(t[0] != spec_method_token(Method::Patch)[0]);
        },
        _ => {},
    }
}

/// Version tokens are non-empty, whitespace-free line text.
pub proof fn lemma_version_token_wf(v: Version)
    ensures
        spec_version_token(v).len() > 0,
        forall|i: int|
            0 <= i < spec_version_token(v).len() ==> !is_ws(#[trigger] spec_version_token(v)[i])
                && spec_version_token(v)[i] != CR && spec_version_token(v)[i] != LF,
        spec_version_of_token(spec_version_token(v)) == Some(v),
{
    let t = spec_version_token(v);
    match v {
        Version::Http11 => {
            assert(t[7] != spec_version_token(Version::Http10)[7]);
        },
        Version::Http20 => {
            assert(t[5] != spec_version_token(Version::Http10)[5]);
            assert(t[5] != spec_version_token(Version::Http11)[5]);
        },
        _ => {},
    }
}

/// Reason phrases are line text without surrounding whitespace.
pub proof fn lemma_reason_wf(status: u16)
    ensures
        wire_text(spec_reason(status)),
        trimmed(spec_reason(status)),
{
}

} // verus!

verus! {

/// A request target as it can stand on a request line: non-empty text
/// without whitespace, CR or LF.
pub open spec fn wf_target(t: Seq<u8>) -> bool {
    t.len() > 0 && (forall|i: int|
        0 <= i < t.len() ==> !is_ws(#[trigger] t[i]) && t[i] != CR && t[i] != LF)
}

/// The canonical wire form of a request: request line, header block,
/// blank line, body.
pub open spec fn spec_request_wire(
    m: Method,
    target: Seq<u8>,
    v: Version,
    hs: Seq<(Seq<u8>, Seq<u8>)>,
    body: Seq<u8>,
) -> Seq<u8> {
    spec_method_token(m) + seq![SP] + target + seq![SP] + spec_version_token(v) + seq![CR, LF]
        + spec_header_block(hs) + seq![CR, LF] + body
}

/// The request model a wire form parses to, for a given body.
pub open spec fn spec_wire_model(
    m: Method,
    target: Seq<u8>,
    v: Version,
    hs: Seq<(Seq<u8>, Seq<u8>)>,
    body: Seq<u8>,
) -> ReqModel {
    ReqModel {
        method: m,
        path: spec_target_path(target),
        query: spec_target_query(target),
        version: v,
        headers: hs,
        body: body,
        params: Seq::empty(),
    }
}

/// What parsing a canonical request wire yields, for every declared
/// `Content-Length`: the reconstructed request when the declaration is a
/// sound length covered by the bytes present, and the exact failure
/// otherwise.
pub proof fn lemma_request_wire_parses(
    m: Method,
    target: Seq<u8>,
    v: Version,
    hs: Seq<(Seq<u8>, Seq<u8>)>,
    body: Seq<u8>,
    max_body: int,
)
    requires
        wf_target(target),
        wf_headers(hs),
    ensures
        spec_parse_request(spec_request_wire(m, target, v, hs, body), max_body) == (
        match spec_header_lookup(hs, spec_content_length_lower()) {
            None => Ok::<ReqModel, ParseError>(spec_wire_model(m, target, v, hs, Seq::empty())),
            Some(lv) => if !(lv.len() > 0 && all_digits(lv) && dec_val(lv) <= max_body) {
                Err::<ReqModel, ParseError>(ParseError::InvalidContentLength)
            } else if body.len() < dec_val(lv) {
                Err::<ReqModel, ParseError>(ParseError::UnexpectedEof)
            } else {
                Ok::<ReqModel, ParseError>(
                    spec_wire_model(m, target, v, hs, body.take(dec_val(lv))),
                )
            },
        }),
{
    let wire = spec_request_wire(m, target, v, hs, body);
    let mt = spec_method_token(m);
    let vt = spec_version_token(v);
    let rl = mt + seq![SP] + target + seq![SP] + vt;
    let tail = spec_header_block(hs) + seq![CR, LF] + body;
    lemma_method_token_wf(m);
    lemma_version_token_wf(v);
    assert(wire =~= rl + seq![CR, LF] + tail);
    assert(forall|j: int| 0 <= j < rl.len() ==> #[trigger] rl[j] != LF);
    crate::bytes::lemma_take_line_of_append(rl, tail);
    assert(spec_take_line(wire) == Some((rl, tail)));
    // The three request-line tokens.
    let rest1 = seq![SP] + target + seq![SP] + vt;
    assert(rl =~= mt + rest1);
    lemma_token_prefix(mt, rest1);
    let rest2 = seq![SP] + vt;
    assert(rest1 =~= seq![SP] + target + rest2);
    lemma_token_after_sp(target, rest2);
    assert(rest2 =~= seq![SP] + vt + Seq::<u8>::empty());
    lemma_token_after_sp(vt, Seq::empty());
    assert(spec_parse_request_line(rl) == Ok::<(Method, Seq<u8>, Seq<u8>, Version), ParseError>(
        (m, spec_target_path(target), spec_target_query(target), v),
    ));
    // The header block and the remaining body bytes.
    lemma_parse_headers_of_block(hs, body);
    assert(spec_parse_headers(tail) == Ok::<(Seq<(Seq<u8>, Seq<u8>)>, Seq<u8>), ParseError>(
        (hs, body),
    ));
}

/// Parsing the canonical wire form of a request whose `Content-Length`
/// declares exactly the body's length reconstructs the method, the path
/// and query, the headers in order, and the body, whole.
pub proof fn lemma_request_round_trip(
    m: Method,
    target: Seq<u8>,
    v: Version,
    hs: Seq<(Seq<u8>, Seq<u8>)>,
    body: Seq<u8>,
    max_body: int,
)
    requires
        wf_target(target),
        wf_headers(hs),
        spec_header_lookup(hs, spec_content_length_lower()) == Some(
            dec_of(body.len() as nat),
        ),
        body.len() <= max_body,
    ensures
        spec_parse_request(spec_request_wire(m, target, v, hs, body), max_body) == Ok::<
            ReqModel,
            ParseError,
        >(spec_wire_model(m, target, v, hs, body)),
{
    lemma_request_wire_parses(m, target, v, hs, body, max_body);
    crate::bytes::lemma_dec_of_val(body.len() as nat);
    assert(body.take(body.len() as int) =~= body);
}

/// A request whose declared `Content-Length` exceeds the body bytes
/// present fails with `UnexpectedEof`; no truncated body comes back.
pub proof fn lemma_truncated_body_fails(
    m: Method,
    target: Seq<u8>,
    v: Version,
    hs: Seq<(Seq<u8>, Seq<u8>)>,
    body: Seq<u8>,
    declared: nat,
    max_body: int,
)
    requires
        wf_target(target),
        wf_headers(hs),
        spec_header_lookup(hs, spec_content_length_lower()) == Some(dec_of(declared)),
        body.len() < declared,
        declared <= max_body,
    ensures
        spec_parse_request(spec_request_wire(m, target, v, hs, body), max_body) == Err::<
            ReqModel,
            ParseError,
        >(ParseError::UnexpectedEof),
{
    lemma_request_wire_parses(m, target, v, hs, body, max_body);
    crate::bytes::lemma_dec_of_val(declared);
}

} // verus!

verus! {

/// A response whose serialization a client reads back exactly: headers
/// well formed, and no `Content-Length` of its own (the serializer adds
/// the correct one).
pub open spec fn wf_response(r: crate::message::RespModel) -> bool {
    wf_headers(r.headers) && spec_header_lookup(r.headers, spec_content_length_lower()) is None
}

/// Serializing a response and re-parsing the bytes as a client
/// reproduces the status, the version, the reason phrase, the headers —
/// with the auto-computed `Content-Length` appended — and the body,
/// byte for byte.
pub proof fn lemma_response_round_trip(r: crate::message::RespModel)
    requires
        wf_response(r),
    ensures
        ({
            let parsed = crate::serializer::spec_parse_response(
                crate::serializer::spec_serialize_response(r),
            );
            &&& parsed is Some
            &&& parsed.unwrap().status == r.status
            &&& parsed.unwrap().version == r.version
            &&& parsed.unwrap().reason == spec_reason(r.status)
            &&& parsed.unwrap().headers == r.headers + seq![
                (spec_content_length_name(), dec_of(r.body.len() as nat)),
            ]
            &&& parsed.unwrap().body == r.body
        }),
{
    let clh = (spec_content_length_name(), dec_of(r.body.len() as nat));
    let wire = crate::serializer::spec_serialize_response(r);
    let vt = spec_version_token(r.version);
    let sd = dec_of(r.status as nat);
    let reason = spec_reason(r.status);
    let slc = vt + seq![SP] + sd + seq![SP] + reason;
    let hs2 = r.headers + seq![clh];
    let tail = spec_header_block(hs2) + seq![CR, LF] + r.body;
    lemma_version_token_wf(r.version);
    crate::bytes::lemma_dec_of_val(r.body.len() as nat);
    crate::bytes::lemma_dec_of_val(r.status as nat);
    lemma_digits_wire_safe(sd);
    lemma_digits_wire_safe(dec_of(r.body.len() as nat));
    lemma_reason_wf(r.status);
    lemma_content_length_name_wf();
    // The serialized bytes are the status line, then the header block
    // with the computed Content-Length as its last line, then the blank
    // line and the body.
    lemma_header_block_append(r.headers, seq![clh]);
    assert(spec_header_block(seq![clh]) =~= spec_header_line(clh)) by {
        reveal_with_fuel(spec_header_block, 3);
        assert(seq![clh].skip(1) =~= Seq::<(Seq<u8>, Seq<u8>)>::empty());
    }
    assert(wire =~= slc + seq![CR, LF] + tail);
    assert(forall|j: int| 0 <= j < slc.len() ==> #[trigger] slc[j] != LF);
    crate::bytes::lemma_take_line_of_append(slc, tail);
    assert(spec_take_line(wire) == Some((slc, tail)));
    // Status-line tokens: version, status digits, reason.
    let rest1 = seq![SP] + sd + seq![SP] + reason;
    assert(slc =~= vt + rest1);
    lemma_token_prefix(vt, rest1);
    let rest2 = seq![SP] + reason;
    assert(rest1 =~= seq![SP] + sd + rest2);
    lemma_token_after_sp(sd, rest2);
    crate::bytes::lemma_skip_ws_at(rest2, 1);
    assert(rest2.skip(1) =~= reason);
    assert(spec_skip_ws(rest2) == reason);
    // The header section: every line well formed, Content-Length last.
    assert(wf_header(clh));
    assert(wf_headers(hs2)) by {
        assert(forall|i: int| 0 <= i < r.headers.len() ==> hs2[i] == r.headers[i]);
        assert(hs2[hs2.len() - 1] == clh);
    }
    lemma_parse_headers_of_block(hs2, r.body);
    assert(spec_parse_headers(tail) == Ok::<(Seq<(Seq<u8>, Seq<u8>)>, Seq<u8>), ParseError>(
        (hs2, r.body),
    ));
    // The lookup finds the appended Content-Length.
    lemma_header_lookup_append(r.headers, seq![clh], spec_content_length_lower());
    assert(spec_header_lookup(seq![clh], spec_content_length_lower()) == Some(clh.1)) by {
        assert(seq![clh][0] == clh);
    }
    assert(spec_header_lookup(hs2, spec_content_length_lower()) == Some(clh.1));
    assert(r.body.take(r.body.len() as int) =~= r.body);
}

} // verus!

verus! {

/// A pattern text none of whose segments is a parameter marker.
pub open spec fn literal_pattern(p: Seq<u8>) -> bool {
    forall|i: int|
        0 <= i < spec_split(p, SLASH).len() ==> !(#[trigger] crate::router::spec_pattern_of(
            p,
        )[i]).0
}

/// A literal pattern accepts exactly its own text as a path.
pub proof fn lemma_literal_pattern_self_match(p: Seq<u8>)
    requires
        literal_pattern(p),
    ensures
        crate::router::pattern_matches(crate::router::spec_pattern_of(p), spec_split(p, SLASH)),
{
    let parts = spec_split(p, SLASH);
    let pat = crate::router::spec_pattern_of(p);
    assert(forall|i: int|
        0 <= i < pat.len() ==> crate::router::seg_matches(#[trigger] pat[i], parts[i])) by {
        assert(forall|i: int|
            0 <= i < pat.len() ==> #[trigger] pat[i] == crate::router::spec_segment_of(
                parts[i],
            ));
    }
}

/// The lookup returns the first matching route.
pub proof fn lemma_find_route_at<H>(
    routes: Seq<crate::router::Route<H>>,
    method: Method,
    parts: Seq<Seq<u8>>,
    i: int,
)
    requires
        0 <= i < routes.len(),
        routes[i].method == method,
        crate::router::pattern_matches(
            crate::router::segs_view(routes[i].segments@),
            parts,
        ),
        forall|j: int|
            0 <= j < i ==> !((#[trigger] routes[j]).method == method
                && crate::router::pattern_matches(
                crate::router::segs_view(routes[j].segments@),
                parts,
            )),
    ensures
        crate::router::spec_find_route(routes, method, parts) == Some(i),
    decreases i,
{
    if i == 0 {
    } else {
        let t = routes.skip(1);
        assert(forall|j: int| 0 <= j < t.len() ==> #[trigger] t[j] == routes[j + 1]);
        lemma_find_route_at(t, method, parts, i - 1);
    }
}

/// A request whose method and path equal a registered literal route's,
/// with no earlier route accepting it, dispatches to exactly that
/// route: the lookup returns its index, so its handler — and no other —
/// runs once.
pub proof fn lemma_literal_route_dispatch<H>(
    routes: Seq<crate::router::Route<H>>,
    i: int,
    method: Method,
    path: Seq<u8>,
)
    requires
        0 <= i < routes.len(),
        routes[i].method == method,
        crate::router::segs_view(routes[i].segments@) == crate::router::spec_pattern_of(path),
        literal_pattern(path),
        forall|j: int|
            0 <= j < i ==> !((#[trigger] routes[j]).method == method
                && crate::router::pattern_matches(
                crate::router::segs_view(routes[j].segments@),
                spec_split(path, SLASH),
            )),
    ensures
        crate::router::spec_find_route(routes, method, spec_split(path, SLASH)) == Some(i),
{
    lemma_literal_pattern_self_match(path);
    lemma_find_route_at(routes, method, spec_split(path, SLASH), i);
}

/// The 404 response for an unrouted request is a plain-text response
/// with a non-empty body.
pub proof fn lemma_not_found_shape()
    ensures
        crate::router::spec_not_found().status == 404,
        crate::router::spec_not_found().body.len() > 0,
        crate::router::spec_not_found().headers[0] == (
            crate::message::spec_content_type_name(),
            crate::message::spec_text_plain(),
        ),
{
}

} // verus!
