//! The response serializer, and the client-side reading of response bytes.
//!
//! A response is written as its status line, each header as
//! `Name: Value` CRLF-terminated, an auto-inserted `Content-Length` when
//! the response does not already carry one, a blank line, then the body
//! bytes.  `spec_parse_response` reads such bytes back the way a client
//! would.

use vstd::prelude::*;

use crate::bytes::{
    all_digits, dec_of, dec_val, spec_skip_ws, spec_take_line, spec_token, CR, LF, SP, COLON,
};
use crate::message::{
    pairs_view, spec_content_length_lower, spec_content_length_name, spec_header_lookup,
    spec_reason, spec_version_of_token, spec_version_token, RespModel, Response, Version,
};
use crate::parser::spec_parse_headers;

verus! {

/// The status line of a response: version, status code and reason
/// phrase, space-separated and CRLF-terminated.
pub open spec fn spec_status_line(version: Version, status: u16) -> Seq<u8> {
    spec_version_token(version) + seq![SP] + dec_of(status as nat) + seq![SP] + spec_reason(status)
        + seq![CR, LF]
}

/// One header on the wire: `Name: Value` and CRLF.
pub open spec fn spec_header_line(h: (Seq<u8>, Seq<u8>)) -> Seq<u8> {
    h.0 + seq![COLON, SP] + h.1 + seq![CR, LF]
}

/// All headers on the wire, in order.
pub open spec fn spec_header_block(hs: Seq<(Seq<u8>, Seq<u8>)>) -> Seq<u8>
    decreases hs.len(),
{
    if hs.len() == 0 {
        Seq::empty()
    } else {
        spec_header_line(hs[0]) + spec_header_block(hs.skip(1))
    }
}

/// Whether a header list already declares a content length.
pub open spec fn spec_has_content_length(hs: Seq<(Seq<u8>, Seq<u8>)>) -> bool {
    spec_header_lookup(hs, spec_content_length_lower()) is Some
}

/// The wire bytes of a response: status line, headers in insertion
/// order, an auto-computed `Content-Length` equal to the body length when
/// none is set, a blank line, and the body.
pub open spec fn spec_serialize_response(r: RespModel) -> Seq<u8> {
    spec_status_line(r.version, r.status) + spec_header_block(r.headers) + (
    if spec_has_content_length(r.headers) {
        Seq::<u8>::empty()
    } else {
        spec_header_line((spec_content_length_name(), dec_of(r.body.len() as nat)))
    }) + seq![CR, LF] + r.body
}

pub proof fn lemma_header_block_take(hs: Seq<(Seq<u8>, Seq<u8>)>, i: int)
    requires
        0 <= i < hs.len(),
    ensures
        spec_header_block(hs.take(i + 1)) == spec_header_block(hs.take(i)) + spec_header_line(
            hs[i],
        ),
    decreases i,
{
    if i == 0 {
        reveal_with_fuel(spec_header_block, 3);
        assert(hs.take(1) =~= seq![hs[0]]);
        assert(hs.take(1).skip(1) =~= Seq::<(Seq<u8>, Seq<u8>)>::empty());
        assert(hs.take(0) =~= Seq::<(Seq<u8>, Seq<u8>)>::empty());
        assert(spec_header_block(hs.take(1)) =~= spec_header_line(hs[0]));
        assert(spec_header_block(hs.take(0)) + spec_header_line(hs[0]) =~= spec_header_line(
            hs[0],
        ));
    } else {
        let t = hs.skip(1);
        lemma_header_block_take(t, i - 1);
        assert(hs.take(i + 1)[0] == hs[0]);
        assert(hs.take(i + 1).skip(1) =~~= t.take(i));
        assert(hs.take(i).skip(1) =~~= t.take(i - 1));
        assert(hs.take(i)[0] == hs[0]);
        assert(t[i - 1] == hs[i]);
        assert(spec_header_block(hs.take(i + 1)) == spec_header_line(hs[0]) + (
        spec_header_block(t.take(i - 1)) + spec_header_line(hs[i])));
        assert(spec_header_line(hs[0]) + (spec_header_block(t.take(i - 1)) + spec_header_line(
            hs[i],
        )) =~= (spec_header_line(hs[0]) + spec_header_block(t.take(i - 1))) + spec_header_line(
            hs[i],
        ));
    }
}

/// Appends `piece` to `out`.
pub fn append_bytes(out: &mut Vec<u8>, piece: &Vec<u8>)
    ensures
        final(out)@ == old(out)@ + piece@,
{
    let mut i: usize = 0;
    while i < piece.len()
        invariant
            i <= piece.len(),
            out@ == old(out)@ + piece@.take(i as int),
        decreases piece.len() - i,
    {
        let b = piece[i];
        out.push(b);
        proof {
            assert(old(out)@ + piece@.take(i as int) + seq![piece@[i as int]] =~= old(out)@
                + piece@.take(i + 1));
        }
        i += 1;
    }
    proof {
        assert(piece@.take(piece@.len() as int) =~= piece@);
    }
}

/// Serializes a response to wire bytes, exactly as
/// `spec_serialize_response` lays them out.
pub fn serialize_response(resp: &Response) -> (out: Vec<u8>)
    ensures
        out@ == spec_serialize_response(resp@),
{
    let mut out: Vec<u8> = Vec::new();
    // Status line.
    let vt = resp.version.token();
    append_bytes(&mut out, &vt);
    out.push(SP);
    let sd = crate::bytes::format_dec(resp.status as usize);
    append_bytes(&mut out, &sd);
    out.push(SP);
    let rp = crate::message::reason_phrase(resp.status);
    append_bytes(&mut out, &rp);
    out.push(CR);
    out.push(LF);
    let ghost sline = spec_status_line(resp.version, resp.status);
    proof {
        assert(out@ =~= sline);
    }
    // Headers, in insertion order.
    let ghost hs = pairs_view(resp.headers@);
    let mut i: usize = 0;
    proof {
        assert(hs.take(0) =~= Seq::<(Seq<u8>, Seq<u8>)>::empty());
        assert(out@ =~= sline + spec_header_block(hs.take(0)));
    }
    while i < resp.headers.len()
        invariant
            i <= resp.headers.len(),
            hs == pairs_view(resp.headers@),
            sline == spec_status_line(resp.version, resp.status),
            out@ == sline + spec_header_block(hs.take(i as int)),
        decreases resp.headers.len() - i,
    {
        let ghost before = out@;
        append_bytes(&mut out, &resp.headers[i].0);
        out.push(COLON);
        out.push(SP);
        append_bytes(&mut out, &resp.headers[i].1);
        out.push(CR);
        out.push(LF);
        proof {
            assert(hs[i as int] == (resp.headers@[i as int].0@, resp.headers@[i as int].1@));
            assert(out@ =~= before + spec_header_line(hs[i as int]));
            lemma_header_block_take(hs, i as int);
            assert(out@ =~= sline + spec_header_block(hs.take(i + 1)));
        }
        i += 1;
    }
    proof {
        assert(hs.take(hs.len() as int) =~= hs);
    }
    // Auto-computed Content-Length when the response carries none.
    let cl_lower = crate::message::content_length_lower();
    let has_cl = match crate::message::header_lookup(&resp.headers, &cl_lower) {
        Some(_) => true,
        None => false,
    };
    let ghost with_cl = sline + spec_header_block(hs) + (
    if spec_has_content_length(hs) {
        Seq::<u8>::empty()
    } else {
        spec_header_line((spec_content_length_name(), dec_of(resp.body@.len() as nat)))
    });
    if !has_cl {
        let ghost before = out@;
        let cl_name = crate::message::content_length_name();
        append_bytes(&mut out, &cl_name);
        out.push(COLON);
        out.push(SP);
        let cl_val = crate::bytes::format_dec(resp.body.len());
        append_bytes(&mut out, &cl_val);
        out.push(CR);
        out.push(LF);
        proof {
            assert(out@ =~= before + spec_header_line(
                (spec_content_length_name(), dec_of(resp.body@.len() as nat)),
            ));
        }
    }
    proof {
        assert(out@ =~= with_cl);
    }
    // Blank line and body.
    out.push(CR);
    out.push(LF);
    append_bytes(&mut out, &resp.body);
    proof {
        assert(out@ =~= spec_serialize_response(resp@));
    }
    out
}

/// What a client reads out of response bytes: the status line fields,
/// the headers, and a body of exactly the declared content length.
pub ghost struct RespWire {
    pub version: Version,
    pub status: int,
    pub reason: Seq<u8>,
    pub headers: Seq<(Seq<u8>, Seq<u8>)>,
    pub body: Seq<u8>,
}

/// Reads response bytes the way a client would: a status line holding a
/// known version token, a decimal status of at most three digits' worth
/// (at most 65535), and a reason; then headers; then exactly the number
/// of body bytes the `Content-Length` header declares.
pub open spec fn spec_parse_response(s: Seq<u8>) -> Option<RespWire> {
    match spec_take_line(s) {
        None => None,
        Some(p) => {
            let vt = spec_token(p.0);
            let st = spec_token(vt.1);
            let reason = spec_skip_ws(st.1);
            if vt.0.len() == 0 || st.0.len() == 0 {
                None
            } else {
                match spec_version_of_token(vt.0) {
                    None => None,
                    Some(version) => if !(all_digits(st.0) && dec_val(st.0) <= 0xffff) {
                        None
                    } else {
                        match spec_parse_headers(p.1) {
                            Err(_) => None,
                            Ok(hs) => match spec_header_lookup(
                                hs.0,
                                spec_content_length_lower(),
                            ) {
                                None => None,
                                Some(lv) => if !(lv.len() > 0 && all_digits(lv) && dec_val(lv)
                                    <= hs.1.len()) {
                                    None
                                } else {
                                    Some(
                                        RespWire {
                                            version,
                                            status: dec_val(st.0),
                                            reason,
                                            headers: hs.0,
                                            body: hs.1.take(dec_val(lv)),
                                        },
                                    )
                                },
                            },
                        }
                    },
                }
            }
        },
    }
}

} // verus!

verus! {

/// Reads response bytes as a client: on success the response (status,
/// version, headers, body) and the reason phrase, exactly as
/// `spec_parse_response` assigns them.
pub fn parse_response(input: &Vec<u8>) -> (r: Option<(Response, Vec<u8>)>)
    ensures
        match r {
            Some(p) => spec_parse_response(input@) == Some(
                RespWire {
                    version: p.0.version,
                    status: p.0.status as int,
                    reason: p.1@,
                    headers: pairs_view(p.0.headers@),
                    body: p.0.body@,
                },
            ),
            None => spec_parse_response(input@) is None,
        },
{
    proof {
        assert(input@.skip(0) =~= input@);
    }
    let first = crate::bytes::take_line(input, 0);
    let (line, after_line) = match first {
        None => {
            return None;
        },
        Some(p) => p,
    };
    proof {
        assert(line@.skip(0) =~= line@);
    }
    let (vt_tok, p1) = crate::bytes::next_token(&line, 0);
    let (st_tok, p2) = crate::bytes::next_token(&line, p1);
    if vt_tok.len() == 0 || st_tok.len() == 0 {
        return None;
    }
    let version = match Version::from_token(&vt_tok) {
        None => {
            return None;
        },
        Some(v) => v,
    };
    let status_n = match crate::bytes::parse_dec(&st_tok, 0xffff) {
        None => {
            return None;
        },
        Some(n) => n,
    };
    // The reason phrase: the rest of the line with leading blanks dropped.
    let mut a: usize = p2;
    while a < line.len() && (line[a] == SP || line[a] == crate::bytes::TAB)
        invariant
            p2 <= a <= line.len(),
            forall|j: int| p2 <= j < a ==> crate::bytes::is_ws(line@[j]),
        decreases line.len() - a,
    {
        a += 1;
    }
    let reason = crate::bytes::sub_vec(&line, a, line.len());
    proof {
        let t = line@.skip(p2 as int);
        assert(forall|j2: int| 0 <= j2 < t.len() ==> #[trigger] t[j2] == line@[p2 + j2]);
        crate::bytes::lemma_skip_ws_at(t, a - p2);
        assert(spec_skip_ws(t) == t.skip(a - p2));
        assert(reason@ =~= t.skip(a - p2));
    }
    // Headers and body.
    let (headers, body_start) = match crate::parser::parse_headers(input, after_line) {
        Err(_) => {
            return None;
        },
        Ok(p) => p,
    };
    let cl_lower = crate::message::content_length_lower();
    let lv = match crate::message::header_lookup(&headers, &cl_lower) {
        None => {
            return None;
        },
        Some(lv) => lv,
    };
    let n = match crate::bytes::parse_dec(&lv, input.len() - body_start) {
        None => {
            return None;
        },
        Some(n) => n,
    };
    let body = crate::bytes::sub_vec(input, body_start, body_start + n);
    proof {
        assert(body@ =~= input@.skip(body_start as int).take(n as int));
    }
    let resp = Response { status: status_n as u16, version, headers, body };
    proof {
        let sw = spec_parse_response(input@).unwrap();
        assert(sw.status == status_n as int);
        assert(sw == RespWire {
            version: resp.version,
            status: resp.status as int,
            reason: reason@,
            headers: pairs_view(resp.headers@),
            body: resp.body@,
        });
    }
    Some((resp, reason))
}

} // verus!
