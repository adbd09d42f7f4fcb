//! The router: a registry of (method, path pattern, handler) routes.
//!
//! A pattern is the `/`-split of its text; a segment starting with `:`
//! names a parameter that matches any single non-empty path segment, any
//! other segment matches its own bytes only.  Lookup walks the routes in
//! registration order and the first match wins; registering the same
//! method and pattern text again overwrites that route's handler.

use vstd::prelude::*;

use crate::bytes::{spec_split, COLON, SLASH};
use crate::message::{
    pairs_view, spec_content_length_name, spec_content_type_name, spec_not_found_body,
    spec_text_plain, Method, Request, RespModel, Response, Version,
};

verus! {

/// One compiled pattern segment.
pub enum Segment {
    /// Matches exactly these bytes.
    Literal(Vec<u8>),
    /// Matches any one non-empty segment, capturing it under this name.
    Param(Vec<u8>),
}

impl View for Segment {
    /// A segment viewed as (is-parameter, text).
    type V = (bool, Seq<u8>);

    open spec fn view(&self) -> (bool, Seq<u8>) {
        match self {
            Segment::Literal(t) => (false, t@),
            Segment::Param(n) => (true, n@),
        }
    }
}

/// View of a segment list.
pub open spec fn segs_view(v: Seq<Segment>) -> Seq<(bool, Seq<u8>)> {
    v.map_values(|s: Segment| s@)
}

/// The segment a pattern part compiles to: a `:`-prefixed part is a
/// parameter named by the rest, anything else a literal.
pub open spec fn spec_segment_of(part: Seq<u8>) -> (bool, Seq<u8>) {
    if part.len() > 0 && part[0] == COLON {
        (true, part.skip(1))
    } else {
        (false, part)
    }
}

/// The compiled form of a pattern text: its `/`-split, segment by segment.
pub open spec fn spec_pattern_of(path: Seq<u8>) -> Seq<(bool, Seq<u8>)> {
    spec_split(path, SLASH).map_values(|p: Seq<u8>| spec_segment_of(p))
}

/// Whether one segment accepts one path part.
pub open spec fn seg_matches(seg: (bool, Seq<u8>), part: Seq<u8>) -> bool {
    if seg.0 {
        part.len() > 0
    } else {
        part == seg.1
    }
}

/// Whether a pattern accepts a split path: equal length, every segment
/// accepting its part.
pub open spec fn pattern_matches(pat: Seq<(bool, Seq<u8>)>, parts: Seq<Seq<u8>>) -> bool {
    pat.len() == parts.len() && (forall|i: int|
        0 <= i < pat.len() ==> seg_matches(pat[i], parts[i]))
}

/// The name-value bindings a pattern captures from a split path, in
/// segment order.
pub open spec fn spec_captures(pat: Seq<(bool, Seq<u8>)>, parts: Seq<Seq<u8>>) -> Seq<
    (Seq<u8>, Seq<u8>),
>
    decreases pat.len(),
{
    if pat.len() == 0 {
        Seq::empty()
    } else {
        let rest = spec_captures(pat.skip(1), parts.skip(1));
        if pat[0].0 {
            seq![(pat[0].1, parts[0])] + rest
        } else {
            rest
        }
    }
}

/// Compiles a pattern text into its segments.
pub fn parse_pattern(pattern: &Vec<u8>) -> (r: Vec<Segment>)
    ensures
        segs_view(r@) == spec_pattern_of(pattern@),
{
    let parts = crate::bytes::split_byte(pattern, SLASH);
    let mut segs: Vec<Segment> = Vec::new();
    let mut i: usize = 0;
    while i < parts.len()
        invariant
            i <= parts.len(),
            parts.deep_view() == spec_split(pattern@, SLASH),
            segs@.len() == i,
            forall|j: int| 0 <= j < i ==> #[trigger] segs@[j]@ == spec_pattern_of(pattern@)[j],
        decreases parts.len() - i,
    {
        let part = &parts[i];
        proof {
            assert(parts.deep_view()[i as int] == part@);
            assert(spec_pattern_of(pattern@)[i as int] == spec_segment_of(part@));
        }
        if part.len() > 0 && part[0] == COLON {
            let name = crate::bytes::sub_vec(part, 1, part.len());
            proof {
                assert(name@ =~= part@.skip(1));
            }
            segs.push(Segment::Param(name));
            proof {
                assert(segs@[i as int]@ == spec_segment_of(part@));
            }
        } else {
            let text = crate::message::copy_bytes(part);
            segs.push(Segment::Literal(text));
            proof {
                assert(segs@[i as int]@ == spec_segment_of(part@));
            }
        }
        i += 1;
    }
    proof {
        assert(spec_pattern_of(pattern@).len() == parts.deep_view().len());
        assert(segs_view(segs@) =~~= spec_pattern_of(pattern@));
    }
    segs
}

/// Matches a compiled pattern against a split path; on success the
/// captured parameters, in segment order.
pub fn pattern_match(segs: &Vec<Segment>, parts: &Vec<Vec<u8>>) -> (r: Option<
    Vec<(Vec<u8>, Vec<u8>)>,
>)
    ensures
        match r {
            Some(ps) => pattern_matches(segs_view(segs@), parts.deep_view()) && pairs_view(ps@)
                == spec_captures(segs_view(segs@), parts.deep_view()),
            None => !pattern_matches(segs_view(segs@), parts.deep_view()),
        },
{
    let ghost sv = segs_view(segs@);
    let ghost pv = parts.deep_view();
    if segs.len() != parts.len() {
        return None;
    }
    let mut acc: Vec<(Vec<u8>, Vec<u8>)> = Vec::new();
    let mut i: usize = 0;
    proof {
        assert(sv.skip(0) =~= sv);
        assert(pv.skip(0) =~~= pv);
        assert(pairs_view(acc@) + spec_captures(sv.skip(0), pv.skip(0)) =~~= spec_captures(
            sv,
            pv,
        ));
    }
    while i < segs.len()
        invariant
            i <= segs.len(),
            segs.len() == parts.len(),
            sv == segs_view(segs@),
            pv == parts.deep_view(),
            sv.len() == segs.len(),
            pv.len() == parts.len(),
            forall|j: int| 0 <= j < i ==> seg_matches(sv[j], pv[j]),
            spec_captures(sv, pv) == pairs_view(acc@) + spec_captures(
                sv.skip(i as int),
                pv.skip(i as int),
            ),
        decreases segs.len() - i,
    {
        proof {
            assert(sv.skip(i as int)[0] == sv[i as int]);
            assert(pv.skip(i as int)[0] == pv[i as int]);
            assert(sv.skip(i as int).skip(1) =~= sv.skip(i + 1));
            assert(pv.skip(i as int).skip(1) =~~= pv.skip(i + 1));
            assert(pv[i as int] == parts@[i as int]@);
        }
        let ghost old_acc = pairs_view(acc@);
        match &segs[i] {
            Segment::Literal(text) => {
                if !crate::bytes::bytes_eq(text, &parts[i]) {
                    proof {
                        assert(!seg_matches(sv[i as int], pv[i as int]));
                    }
                    return None;
                }
                proof {
                    assert(seg_matches(sv[i as int], pv[i as int]));
                    assert(spec_captures(sv.skip(i as int), pv.skip(i as int))
                        == spec_captures(sv.skip(i + 1), pv.skip(i + 1)));
                }
            },
            Segment::Param(name) => {
                if parts[i].len() == 0 {
                    proof {
                        assert(!seg_matches(sv[i as int], pv[i as int]));
                    }
                    return None;
                }
                let n = crate::message::copy_bytes(name);
                let v = crate::message::copy_bytes(&parts[i]);
                acc.push((n, v));
                proof {
                    assert(seg_matches(sv[i as int], pv[i as int]));
                    assert(pairs_view(acc@) =~~= old_acc + seq![(sv[i as int].1, pv[i as int])]);
                    assert(spec_captures(sv.skip(i as int), pv.skip(i as int)) == seq![
                        (sv[i as int].1, pv[i as int]),
                    ] + spec_captures(sv.skip(i + 1), pv.skip(i + 1)));
                    assert(old_acc + spec_captures(sv.skip(i as int), pv.skip(i as int))
                        =~~= pairs_view(acc@) + spec_captures(sv.skip(i + 1), pv.skip(i + 1)));
                }
            },
        }
        i += 1;
    }
    proof {
        assert(sv.skip(sv.len() as int) =~= Seq::<(bool, Seq<u8>)>::empty());
        assert(spec_captures(sv, pv) =~~= pairs_view(acc@));
    }
    Some(acc)
}

/// A handler's typed failure: its rendering becomes the body of a 500
/// response.
pub struct HandlerError {
    pub message: Vec<u8>,
}

/// An application-supplied handler: maps a request (with path parameters
/// attached) to a response, or fails.
pub trait RequestHandler {
    /// Handles one request.
    fn handle(&self, request: &Request) -> Result<Response, HandlerError>;
}

/// One registered route.
pub struct Route<H> {
    pub method: Method,
    /// The pattern text as registered, used to detect re-registration.
    pub raw_pattern: Vec<u8>,
    /// The compiled pattern.
    pub segments: Vec<Segment>,
    pub handler: H,
}

/// A route is well formed when its segments are the compiled form of its
/// pattern text.
pub open spec fn route_wf<H>(route: Route<H>) -> bool {
    segs_view(route.segments@) == spec_pattern_of(route.raw_pattern@)
}

/// The registry of routes, matched in registration order.
pub struct Router<H> {
    pub routes: Vec<Route<H>>,
}

/// The first route whose method equals `method` and whose pattern accepts
/// the split path, in registration order.
pub open spec fn spec_find_route<H>(
    routes: Seq<Route<H>>,
    method: Method,
    parts: Seq<Seq<u8>>,
) -> Option<int>
    decreases routes.len(),
{
    if routes.len() == 0 {
        None
    } else if routes[0].method == method && pattern_matches(
        segs_view(routes[0].segments@),
        parts,
    ) {
        Some(0)
    } else {
        match spec_find_route(routes.skip(1), method, parts) {
            Some(i) => Some(i + 1),
            None => None,
        }
    }
}

/// The first route registered under exactly this method and pattern text.
pub open spec fn spec_route_index<H>(
    routes: Seq<Route<H>>,
    method: Method,
    raw: Seq<u8>,
) -> Option<int>
    decreases routes.len(),
{
    if routes.len() == 0 {
        None
    } else if routes[0].method == method && routes[0].raw_pattern@ == raw {
        Some(0)
    } else {
        match spec_route_index(routes.skip(1), method, raw) {
            Some(i) => Some(i + 1),
            None => None,
        }
    }
}

/// The fixed plain-text response for a request no route accepts.
pub open spec fn spec_not_found() -> RespModel {
    RespModel {
        status: 404,
        version: Version::Http11,
        headers: seq![
            (spec_content_type_name(), spec_text_plain()),
            (
                spec_content_length_name(),
                crate::bytes::dec_of(spec_not_found_body().len() as nat),
            ),
        ],
        body: spec_not_found_body(),
    }
}

/// The plain-text 500 response rendering a handler failure.
pub open spec fn spec_error_response(msg: Seq<u8>) -> RespModel {
    RespModel {
        status: 500,
        version: Version::Http11,
        headers: seq![
            (spec_content_type_name(), spec_text_plain()),
            (spec_content_length_name(), crate::bytes::dec_of(msg.len() as nat)),
        ],
        body: msg,
    }
}

/// The response a handler outcome becomes: a success verbatim, a failure
/// as a 500 whose body renders the failure.
pub open spec fn spec_outcome_response(outcome: Result<RespModel, Seq<u8>>) -> RespModel {
    match outcome {
        Ok(m) => m,
        Err(msg) => spec_error_response(msg),
    }
}

/// Builds the fixed 404 response.
pub fn not_found_response() -> (r: Response)
    ensures
        r@ == spec_not_found(),
{
    let body = crate::message::not_found_body();
    let mut headers: Vec<(Vec<u8>, Vec<u8>)> = Vec::new();
    headers.push((crate::message::content_type_name(), crate::message::text_plain()));
    headers.push((crate::message::content_length_name(), crate::bytes::format_dec(body.len())));
    let r = Response { status: 404, version: Version::Http11, headers, body };
    proof {
        assert(r@.headers =~~= spec_not_found().headers);
        assert(r@ =~~= spec_not_found());
    }
    r
}

/// Builds the 500 response for a handler failure.
pub fn error_response(msg: Vec<u8>) -> (r: Response)
    ensures
        r@ == spec_error_response(msg@),
{
    let mut headers: Vec<(Vec<u8>, Vec<u8>)> = Vec::new();
    headers.push((crate::message::content_type_name(), crate::message::text_plain()));
    headers.push((crate::message::content_length_name(), crate::bytes::format_dec(msg.len())));
    let r = Response { status: 500, version: Version::Http11, headers, body: msg };
    proof {
        assert(r@.headers =~~= spec_error_response(r.body@).headers);
        assert(r@ =~~= spec_error_response(r.body@));
    }
    r
}

/// Turns a handler outcome into the response sent: a success verbatim, a
/// failure as the 500 response rendering it.
pub fn response_for_outcome(outcome: Result<Response, HandlerError>) -> (r: Response)
    ensures
        r@ == spec_outcome_response(
            match outcome {
                Ok(resp) => Ok::<RespModel, Seq<u8>>(resp@),
                Err(e) => Err::<RespModel, Seq<u8>>(e.message@),
            },
        ),
{
    match outcome {
        Ok(resp) => resp,
        Err(failure) => error_response(failure.message),
    }
}

impl<H: RequestHandler> Router<H> {
    /// An empty registry.
    pub fn new() -> (r: Router<H>)
        ensures
            r.routes@.len() == 0,
    {
        Router { routes: Vec::new() }
    }

    /// Registers a route.  A route already registered under the same
    /// method and pattern text keeps its place but gets the new handler;
    /// otherwise the route is appended.
    pub fn add_route(&mut self, method: Method, pattern: &Vec<u8>, handler: H)
        ensures
            match spec_route_index(old(self).routes@, method, pattern@) {
                Some(j) => {
                    &&& final(self).routes@.len() == old(self).routes@.len()
                    &&& forall|k: int|
                        0 <= k < final(self).routes@.len() && k != j ==> final(self).routes@[k] == old(self).routes@[k]
                    &&& final(self).routes@[j].method == method
                    &&& final(self).routes@[j].raw_pattern@ == pattern@
                    &&& segs_view(final(self).routes@[j].segments@) == spec_pattern_of(pattern@)
                    &&& final(self).routes@[j].handler == handler
                },
                None => {
                    &&& final(self).routes@.len() == old(self).routes@.len() + 1
                    &&& forall|k: int|
                        0 <= k < old(self).routes@.len() ==> final(self).routes@[k] == old(self).routes@[k]
                    &&& final(self).routes@.last().method == method
                    &&& final(self).routes@.last().raw_pattern@ == pattern@
                    &&& segs_view(final(self).routes@.last().segments@) == spec_pattern_of(pattern@)
                    &&& final(self).routes@.last().handler == handler
                },
            },
    {
        let segments = parse_pattern(pattern);
        let raw_pattern = crate::message::copy_bytes(pattern);
        let route = Route { method, raw_pattern, segments, handler };
        let ghost orig = self.routes@;
        let mut i: usize = 0;
        proof {
            assert(orig.skip(0) =~= orig);
        }
        while i < self.routes.len()
            invariant
                i <= self.routes@.len(),
                self.routes@ == orig,
                orig == old(self).routes@,
                route.method == method,
                route.raw_pattern@ == pattern@,
                segs_view(route.segments@) == spec_pattern_of(pattern@),
                route.handler == handler,
                match spec_route_index(orig.skip(i as int), method, pattern@) {
                    Some(k) => spec_route_index(orig, method, pattern@) == Some(k + i),
                    None => spec_route_index(orig, method, pattern@) is None,
                },
            decreases self.routes@.len() - i,
        {
            proof {
                assert(orig.skip(i as int)[0] == orig[i as int]);
                assert(orig.skip(i as int).skip(1) =~= orig.skip(i + 1));
            }
            let same_method = self.routes[i].method == method;
            if same_method && crate::bytes::bytes_eq(&self.routes[i].raw_pattern, pattern) {
                proof {
                    assert(spec_route_index(orig.skip(i as int), method, pattern@) == Some(0int));
                    assert(spec_route_index(orig, method, pattern@) == Some(i as int));
                }
                let ghost groute = route;
                self.routes[i] = route;
                proof {
                    assert(self.routes@ == orig.update(i as int, groute));
                    assert(self.routes@[i as int].method == method);
                    assert(self.routes@[i as int].raw_pattern@ == pattern@);
                    assert(self.routes@[i as int].handler == handler);
                }
                return ;
            }
            i += 1;
        }
        proof {
            assert(orig.skip(orig.len() as int) =~= Seq::<Route<H>>::empty());
        }
        self.routes.push(route);
    }

    /// Registers each (method, pattern, handler) triple in order, as
    /// `add_route` does.  When the triples' (method, pattern) keys are
    /// pairwise distinct and none is registered yet, they all land at the
    /// end of the registry, in order and compiled.
    pub fn add_routes(&mut self, routes: Vec<(Method, Vec<u8>, H)>)
        ensures
            ({
                let orig = old(self).routes@;
                let list = routes@;
                ((forall|a: int, b: int|
                    0 <= a < b < list.len() ==> !(#[trigger] list[a].0 == #[trigger] list[b].0
                        && list[a].1@ == list[b].1@)) && (forall|a: int|
                    0 <= a < list.len() ==> spec_route_index(
                        orig,
                        (#[trigger] list[a]).0,
                        list[a].1@,
                    ) is None)) ==> {
                    &&& final(self).routes@.len() == orig.len() + list.len()
                    &&& (forall|k: int|
                        0 <= k < orig.len() ==> #[trigger] final(self).routes@[k] == orig[k])
                    &&& (forall|a: int|
                        0 <= a < list.len() ==> {
                            let r = #[trigger] final(self).routes@[orig.len() + a];
                            &&& r.method == list[a].0
                            &&& r.raw_pattern@ == list[a].1@
                            &&& segs_view(r.segments@) == spec_pattern_of(list[a].1@)
                            &&& r.handler == list[a].2
                        })
                }
            }),
    {
        let ghost orig = self.routes@;
        let ghost list = routes@;
        let ghost fresh = (forall|a: int, b: int|
            0 <= a < b < list.len() ==> !(#[trigger] list[a].0 == #[trigger] list[b].0
                && list[a].1@ == list[b].1@)) && (forall|a: int|
            0 <= a < list.len() ==> spec_route_index(
                orig,
                (#[trigger] list[a]).0,
                list[a].1@,
            ) is None);
        let mut rest = routes;
        let mut done: usize = 0;
        let fits = rest.len();
        proof {
            assert(rest@.len() == fits as int);
        }
        while rest.len() > 0
            invariant
                done + rest@.len() == list.len(),
                done + rest@.len() <= usize::MAX,
                forall|j: int| 0 <= j < rest@.len() ==> #[trigger] rest@[j] == list[done + j],
                fresh == ((forall|a: int, b: int|
                    0 <= a < b < list.len() ==> !(#[trigger] list[a].0 == #[trigger] list[b].0
                        && list[a].1@ == list[b].1@)) && (forall|a: int|
                    0 <= a < list.len() ==> spec_route_index(
                        orig,
                        (#[trigger] list[a]).0,
                        list[a].1@,
                    ) is None)),
                fresh ==> {
                    &&& self.routes@.len() == orig.len() + done
                    &&& (forall|k: int|
                        0 <= k < orig.len() ==> #[trigger] self.routes@[k] == orig[k])
                    &&& (forall|a: int|
                        0 <= a < done ==> {
                            let r = #[trigger] self.routes@[orig.len() + a];
                            &&& r.method == list[a].0
                            &&& r.raw_pattern@ == list[a].1@
                            &&& segs_view(r.segments@) == spec_pattern_of(list[a].1@)
                            &&& r.handler == list[a].2
                        })
                },
            decreases rest@.len(),
        {
            let (method, pattern, handler) = rest.remove(0);
            proof {
                if fresh {
                    lemma_route_index_none_when_fresh(
                        self.routes@,
                        orig,
                        list,
                        done as int,
                        method,
                        pattern@,
                    );
                }
            }
            self.add_route(method, &pattern, handler);
            done += 1;
        }
    }

    /// The first route accepting this method and path, with the path
    /// parameters the match captures.
    pub fn find_route(&self, method: Method, path: &Vec<u8>) -> (r: Option<
        (usize, Vec<(Vec<u8>, Vec<u8>)>),
    >)
        ensures
            ({
                let parts = spec_split(path@, SLASH);
                match r {
                    Some(p) => {
                        &&& spec_find_route(self.routes@, method, parts) == Some(p.0 as int)
                        &&& p.0 < self.routes@.len()
                        &&& pairs_view(p.1@) == spec_captures(
                            segs_view(self.routes@[p.0 as int].segments@),
                            parts,
                        )
                    },
                    None => spec_find_route(self.routes@, method, parts) is None,
                }
            }),
    {
        let parts = crate::bytes::split_byte(path, SLASH);
        let ghost pv = spec_split(path@, SLASH);
        let mut i: usize = 0;
        proof {
            assert(self.routes@.skip(0) =~= self.routes@);
        }
        while i < self.routes.len()
            invariant
                i <= self.routes@.len(),
                pv == parts.deep_view(),
                pv == spec_split(path@, SLASH),
                match spec_find_route(self.routes@.skip(i as int), method, pv) {
                    Some(k) => spec_find_route(self.routes@, method, pv) == Some(k + i),
                    None => spec_find_route(self.routes@, method, pv) is None,
                },
            decreases self.routes@.len() - i,
        {
            proof {
                assert(self.routes@.skip(i as int)[0] == self.routes@[i as int]);
                assert(self.routes@.skip(i as int).skip(1) =~= self.routes@.skip(i + 1));
            }
            if self.routes[i].method == method {
                match pattern_match(&self.routes[i].segments, &parts) {
                    Some(params) => {
                        proof {
                            assert(spec_find_route(self.routes@.skip(i as int), method, pv)
                                == Some(0int));
                            assert(spec_find_route(self.routes@, method, pv) == Some(i as int));
                            assert(pairs_view(params@) == spec_captures(
                                segs_view(self.routes@[i as int].segments@),
                                pv,
                            ));
                        }
                        return Some((i, params));
                    },
                    None => {},
                }
            }
            i += 1;
        }
        proof {
            assert(self.routes@.skip(self.routes@.len() as int) =~= Seq::<Route<H>>::empty());
        }
        None
    }

    /// Dispatches a request: the first matching route's handler runs with
    /// the captured path parameters attached, a failure becoming a 500
    /// response; with no matching route the fixed 404 response comes
    /// back.  Dispatch itself never fails.
    pub fn route(&self, request: Request) -> (r: Response)
        ensures
            ({
                let parts = spec_split(request.path@, SLASH);
                match spec_find_route(self.routes@, request.method, parts) {
                    None => r@ == spec_not_found(),
                    Some(i) => exists|outcome: Result<RespModel, Seq<u8>>|
                        r@ == spec_outcome_response(outcome),
                }
            }),
    {
        match self.find_route(request.method, &request.path) {
            None => not_found_response(),
            Some((i, params)) => {
                let mut request = request;
                request.params = params;
                let outcome = self.routes[i].handler.handle(&request);
                let ghost model_outcome = (match &outcome {
                    Ok(resp) => Ok::<RespModel, Seq<u8>>(resp@),
                    Err(e) => Err::<RespModel, Seq<u8>>(e.message@),
                });
                let resp = response_for_outcome(outcome);
                proof {
                    assert(resp@ == spec_outcome_response(model_outcome));
                }
                resp
            },
        }
    }
}

/// When a key is neither in the original registry nor among the routes
/// already appended after it, it is not in the current registry.
proof fn lemma_route_index_none_when_fresh<H>(
    current: Seq<Route<H>>,
    orig: Seq<Route<H>>,
    list: Seq<(Method, Vec<u8>, H)>,
    done: int,
    method: Method,
    raw: Seq<u8>,
)
    requires
        0 <= done < list.len(),
        list[done].0 == method,
        list[done].1@ == raw,
        current.len() == orig.len() + done,
        forall|k: int| 0 <= k < orig.len() ==> #[trigger] current[k] == orig[k],
        forall|a: int|
            0 <= a < done ==> {
                let r = #[trigger] current[orig.len() + a];
                r.method == list[a].0 && r.raw_pattern@ == list[a].1@
            },
        spec_route_index(orig, method, raw) is None,
        forall|a: int, b: int|
            0 <= a < b < list.len() ==> !(#[trigger] list[a].0 == #[trigger] list[b].0
                && list[a].1@ == list[b].1@),
    ensures
        spec_route_index(current, method, raw) is None,
{
    lemma_route_index_props(orig, method, raw);
    assert(forall|k: int|
        0 <= k < current.len() ==> !((#[trigger] current[k]).method == method
            && current[k].raw_pattern@ == raw)) by {
        assert(forall|k: int|
            0 <= k < orig.len() ==> !((#[trigger] current[k]).method == method
                && current[k].raw_pattern@ == raw));
        assert(forall|a: int|
            0 <= a < done ==> !(#[trigger] list[a].0 == method && list[a].1@ == raw));
        assert forall|k: int|
            orig.len() <= k < current.len() implies !((#[trigger] current[k]).method == method
            && current[k].raw_pattern@ == raw) by {
            let a = k - orig.len();
            assert(current[orig.len() + a] == current[k]);
            assert(current[orig.len() + a].method == list[a].0 && current[orig.len()
                + a].raw_pattern@ == list[a].1@);
            assert(!(list[a].0 == method && list[a].1@ == raw));
        }
    }
    lemma_route_index_none(current, method, raw);
}

/// A registry without the key has no index for it.
proof fn lemma_route_index_none<H>(routes: Seq<Route<H>>, method: Method, raw: Seq<u8>)
    requires
        forall|k: int|
            0 <= k < routes.len() ==> !((#[trigger] routes[k]).method == method
                && routes[k].raw_pattern@ == raw),
    ensures
        spec_route_index(routes, method, raw) is None,
    decreases routes.len(),
{
    if routes.len() > 0 {
        let t = routes.skip(1);
        assert(forall|j: int| 0 <= j < t.len() ==> #[trigger] t[j] == routes[j + 1]);
        lemma_route_index_none(t, method, raw);
    }
}

/// An index-less registry holds the key nowhere.
proof fn lemma_route_index_props<H>(routes: Seq<Route<H>>, method: Method, raw: Seq<u8>)
    requires
        spec_route_index(routes, method, raw) is None,
    ensures
        forall|k: int|
            0 <= k < routes.len() ==> !((#[trigger] routes[k]).method == method
                && routes[k].raw_pattern@ == raw),
    decreases routes.len(),
{
    if routes.len() > 0 {
        let t = routes.skip(1);
        assert(forall|j: int| 0 <= j < t.len() ==> #[trigger] t[j] == routes[j + 1]);
        lemma_route_index_props(t, method, raw);
        assert(forall|k: int| 1 <= k < routes.len() ==> #[trigger] routes[k] == t[k - 1]);
    }
}

} // verus!
