//! Splitting a request target into path segments and query pairs, and the
//! routing decision over them.

use crate::http_method::HttpMethod;
use crate::http_response::header_views;
use crate::http_response::HttpResponse;
use crate::scan::ascii;
use crate::scan::ascii_bytes;
use crate::scan::bytes_eq;
use crate::scan::first_sep;
use crate::scan::lemma_filter_push;
use crate::scan::lemma_first_sep;
use crate::scan::rows;
use crate::scan::split_on;
use crate::scan::AMP;
use crate::scan::EQUALS;
use crate::scan::QMARK;
use crate::scan::SLASH;
use crate::scan::find_byte;
use crate::scan::split_bytes;
use vstd::prelude::*;
use vstd::slice::{slice_subrange, slice_to_vec};

verus! {

/// The non-empty `/`-separated segments of the path portion of a request
/// target, everything from the first `?` on ignored. Leading, trailing and
/// repeated slashes collapse.
pub open spec fn spec_segments(s: Seq<u8>) -> Seq<Seq<u8>> {
    split_on(s.take(first_sep(s, QMARK)), SLASH).filter(|t: Seq<u8>| t.len() > 0)
}

/// One query chunk split on its first `=`: a two-element key/value pair, or a
/// single element when the chunk holds no `=`.
pub open spec fn spec_chunk_pair(c: Seq<u8>) -> Seq<Seq<u8>> {
    let i = first_sep(c, EQUALS);
    if i < c.len() {
        seq![c.take(i), c.skip(i + 1)]
    } else {
        seq![c]
    }
}

/// The query pairs of a request target: the portion after the first `?`,
/// split on `&`, each chunk split on its first `=`. A target with no `?`, or
/// with nothing after it, has no pairs; empty chunks are kept.
pub open spec fn spec_query(s: Seq<u8>) -> Seq<Seq<Seq<u8>>> {
    let q = first_sep(s, QMARK);
    if q == s.len() {
        Seq::empty()
    } else {
        let qp = s.skip(q + 1);
        if qp.len() == 0 {
            Seq::empty()
        } else {
            split_on(qp, AMP).map_values(|c: Seq<u8>| spec_chunk_pair(c))
        }
    }
}

/// The views of a vector of query pairs.
pub open spec fn pair_rows(v: Seq<Vec<Vec<u8>>>) -> Seq<Seq<Seq<u8>>> {
    Seq::new(v.len(), |i: int| rows(v[i]@))
}

/// The non-empty path segments of a request target.
pub fn filter_endpoint(path: &[u8]) -> (segs: Vec<Vec<u8>>)
    ensures
        rows(segs@) == spec_segments(path@),
{
    let q = find_byte(path, QMARK);
    proof {
        lemma_first_sep(path@, QMARK);
    }
    let path_part = slice_subrange(path, 0, q);
    let raw = split_bytes(path_part, SLASH);
    let ghost pred = |t: Seq<u8>| t.len() > 0;
    let mut segs: Vec<Vec<u8>> = Vec::new();
    let mut i: usize = 0;
    proof {
        assert(rows(raw@).take(0) =~= Seq::<Seq<u8>>::empty());
        reveal_with_fuel(Seq::filter, 1);
        assert(rows(segs@) =~= Seq::<Seq<u8>>::empty().filter(pred));
    }
    while i < raw.len()
        invariant
            0 <= i <= raw@.len(),
            rows(raw@) == split_on(path@.take(first_sep(path@, QMARK)), SLASH),
            pred == (|t: Seq<u8>| t.len() > 0),
            rows(segs@) == rows(raw@).take(i as int).filter(pred),
        decreases raw@.len() - i,
    {
        let t = slice_to_vec(raw[i].as_slice());
        proof {
            lemma_filter_push(rows(raw@).take(i as int), raw@[i as int]@, pred);
            assert(rows(raw@).take(i as int) + seq![raw@[i as int]@] =~= rows(raw@).take(
                i as int + 1,
            ));
            if t@.len() > 0 {
                assert(rows(segs@.push(t)) =~= rows(segs@) + seq![raw@[i as int]@]);
            }
        }
        if t.len() > 0 {
            segs.push(t);
        } else {
            proof {
                assert(rows(segs@) =~= rows(segs@) + Seq::<Seq<u8>>::empty());
            }
        }
        i += 1;
    }
    proof {
        assert(rows(raw@).take(raw@.len() as int) =~= rows(raw@));
    }
    segs
}

/// The query pairs of a request target.
pub fn filter_query(target: &[u8]) -> (q: Vec<Vec<Vec<u8>>>)
    ensures
        pair_rows(q@) == spec_query(target@),
{
    let qi = find_byte(target, QMARK);
    proof {
        lemma_first_sep(target@, QMARK);
    }
    if qi == target.len() {
        let out: Vec<Vec<Vec<u8>>> = Vec::new();
        proof {
            assert(pair_rows(out@) =~= Seq::<Seq<Seq<u8>>>::empty());
        }
        return out;
    }
    let qp = slice_subrange(target, qi + 1, target.len());
    if qp.len() == 0 {
        let out: Vec<Vec<Vec<u8>>> = Vec::new();
        proof {
            assert(pair_rows(out@) =~= Seq::<Seq<Seq<u8>>>::empty());
        }
        return out;
    }
    let chunks = split_bytes(qp, AMP);
    let ghost mapped = split_on(qp@, AMP).map_values(|c: Seq<u8>| spec_chunk_pair(c));
    let mut out: Vec<Vec<Vec<u8>>> = Vec::new();
    let mut i: usize = 0;
    proof {
        assert(pair_rows(out@) =~= mapped.take(0));
    }
    while i < chunks.len()
        invariant
            0 <= i <= chunks@.len(),
            rows(chunks@) == split_on(qp@, AMP),
            mapped == split_on(qp@, AMP).map_values(|c: Seq<u8>| spec_chunk_pair(c)),
            pair_rows(out@) == mapped.take(i as int),
        decreases chunks@.len() - i,
    {
        let c = chunks[i].as_slice();
        assert(c@ == rows(chunks@)[i as int]);
        let ei = find_byte(c, EQUALS);
        proof {
            lemma_first_sep(c@, EQUALS);
        }
        let mut pair: Vec<Vec<u8>> = Vec::new();
        if ei < c.len() {
            pair.push(slice_to_vec(slice_subrange(c, 0, ei)));
            pair.push(slice_to_vec(slice_subrange(c, ei + 1, c.len())));
            proof {
                assert(rows(pair@) =~= spec_chunk_pair(c@));
            }
        } else {
            pair.push(slice_to_vec(c));
            proof {
                assert(rows(pair@) =~= spec_chunk_pair(c@));
            }
        }
        proof {
            assert(pair_rows(out@.push(pair)) =~= pair_rows(out@) + seq![rows(pair@)]);
            assert(mapped.take(i as int) + seq![mapped[i as int]] =~= mapped.take(i as int + 1));
        }
        out.push(pair);
        i += 1;
    }
    proof {
        assert(mapped.take(chunks@.len() as int) =~= mapped);
    }
    out
}

/// The body of the fixed index page.
pub open spec fn index_body() -> Seq<u8> {
    ascii("<h1>Welcome to the Index page</h1>"@)
}

/// The body of the fixed posts page.
pub open spec fn posts_body() -> Seq<u8> {
    ascii("<h1>Welcome to the Posts page</h1>"@)
}

/// The body sent for a path that matches no route.
pub open spec fn not_found_body() -> Seq<u8> {
    ascii("<h1>Page does not exist</h1>"@)
}

/// The body sent for a request the router refuses outright: an unrecognized
/// method, or a path with no segment to dispatch on.
pub open spec fn bad_request_body() -> Seq<u8> {
    ascii("<h1>Bad Request</h1>"@)
}

/// The one header the HTML pages carry.
pub open spec fn html_header() -> (Seq<u8>, Seq<u8>) {
    (ascii("Content-Type"@), ascii("text/html"@))
}

/// What handles a matched top-level route.
#[derive(Clone, Copy, PartialEq, Eq, Structural, Debug)]
pub enum Handler {
    /// The fixed index page.
    IndexPage,
    /// The fixed posts page.
    PostsPage,
    /// The method-keyed API sub-router.
    Api,
}

/// A declared route: a top-level path prefix and the handler it maps to.
pub struct Route {
    pub prefix: Vec<u8>,
    pub handler: Handler,
}

/// The static dispatch table, fixed at startup and read-only afterwards.
pub open spec fn spec_route_table() -> Seq<(Seq<u8>, Handler)> {
    seq![
        (ascii("api"@), Handler::Api),
        (ascii("index"@), Handler::IndexPage),
        (ascii("posts"@), Handler::PostsPage),
    ]
}

/// The declared routes, in declaration order.
pub fn route_table() -> (t: Vec<Route>)
    ensures
        t@.len() == spec_route_table().len(),
        forall|k: int|
            0 <= k < t@.len() ==> ((#[trigger] t@[k]).prefix@, t@[k].handler)
                == spec_route_table()[k],
{
    proof {
        reveal_strlit("api");
        reveal_strlit("index");
        reveal_strlit("posts");
    }
    let mut t: Vec<Route> = Vec::new();
    t.push(Route { prefix: ascii_bytes("api"), handler: Handler::Api });
    t.push(Route { prefix: ascii_bytes("index"), handler: Handler::IndexPage });
    t.push(Route { prefix: ascii_bytes("posts"), handler: Handler::PostsPage });
    t
}

/// Whether the API sub-router accepts this verb.
pub open spec fn api_allowed(m: HttpMethod) -> bool {
    ||| m == HttpMethod::GET
    ||| m == HttpMethod::POST
    ||| m == HttpMethod::PUT
    ||| m == HttpMethod::PATCH
    ||| m == HttpMethod::DELETE
}

/// The routing decision, as a (code, headers, body) triple. The dispatch key
/// is the first path segment; `api` delegates to the method-keyed API
/// sub-router; a request with no segments has nothing to dispatch on and gets
/// 400, as does an unrecognized method outside the API sub-router.
pub open spec fn spec_route(m: HttpMethod, segs: Seq<Seq<u8>>) -> (
    u16,
    Seq<(Seq<u8>, Seq<u8>)>,
    Seq<u8>,
) {
    if segs.len() == 0 {
        (400, seq![html_header()], bad_request_body())
    } else if segs[0] == ascii("api"@) {
        if api_allowed(m) {
            (200, Seq::empty(), Seq::empty())
        } else {
            (404, Seq::empty(), Seq::empty())
        }
    } else if m == HttpMethod::UNKNOWN {
        (400, seq![html_header()], bad_request_body())
    } else if segs[0] == ascii("index"@) {
        (200, seq![html_header()], index_body())
    } else if segs[0] == ascii("posts"@) {
        (200, seq![html_header()], posts_body())
    } else {
        (404, seq![html_header()], not_found_body())
    }
}

/// An HTML page response: the given code and body, one `Content-Type` header.
pub(crate) fn html_page(code: u16, body: Vec<u8>) -> (r: HttpResponse)
    ensures
        r.model() == (code, seq![html_header()], body@),
{
    proof {
        reveal_strlit("Content-Type");
        reveal_strlit("text/html");
    }
    let mut headers: Vec<(Vec<u8>, Vec<u8>)> = Vec::new();
    headers.push((ascii_bytes("Content-Type"), ascii_bytes("text/html")));
    let r = HttpResponse { code, headers, body };
    proof {
        assert(header_views(r.headers@) =~= seq![html_header()]);
    }
    r
}

/// A response with no headers and no body, only a status code.
fn bare_response(code: u16) -> (r: HttpResponse)
    ensures
        r.model() == (code, Seq::<(Seq<u8>, Seq<u8>)>::empty(), Seq::<u8>::empty()),
{
    let r = HttpResponse { code, headers: Vec::new(), body: Vec::new() };
    proof {
        assert(header_views(r.headers@) =~= Seq::<(Seq<u8>, Seq<u8>)>::empty());
    }
    r
}

/// The API sub-router: keyed by HTTP method alone. The five verbs with
/// handlers get an empty 200; any other verb is refused with an empty 404.
pub fn route_action(method: HttpMethod) -> (r: Result<HttpResponse, HttpResponse>)
    ensures
        api_allowed(method) ==> (r matches Ok(a) && a.model() == (
            200u16,
            Seq::<(Seq<u8>, Seq<u8>)>::empty(),
            Seq::<u8>::empty(),
        )),
        !api_allowed(method) ==> (r matches Err(e) && e.model() == (
            404u16,
            Seq::<(Seq<u8>, Seq<u8>)>::empty(),
            Seq::<u8>::empty(),
        )),
{
    match method {
        HttpMethod::GET => Ok(bare_response(200)),
        HttpMethod::POST => Ok(bare_response(200)),
        HttpMethod::PUT => Ok(bare_response(200)),
        HttpMethod::PATCH => Ok(bare_response(200)),
        HttpMethod::DELETE => Ok(bare_response(200)),
        _ => Err(bare_response(404)),
    }
}

/// Routing is idempotent: any two responses that meet `route`'s contract for
/// the same method and the same segments are structurally identical — same
/// code, same headers, same body. Issuing the same request twice therefore
/// yields two structurally identical responses.
pub proof fn lemma_route_idempotent(
    m: HttpMethod,
    segs: Seq<Seq<u8>>,
    r1: HttpResponse,
    r2: HttpResponse,
)
    requires
        r1.model() == spec_route(m, segs),
        r2.model() == spec_route(m, segs),
    ensures
        r1.code == r2.code,
        header_views(r1.headers@) == header_views(r2.headers@),
        r1.body@ == r2.body@,
{
}

/// Select the one handler the parsed request falls to and return its
/// response; every outcome is pinned down by `spec_route`.
pub fn route(method: HttpMethod, segs: &Vec<Vec<u8>>) -> (resp: HttpResponse)
    ensures
        resp.model() == spec_route(method, rows(segs@)),
{
    proof {
        reveal_strlit("api");
        reveal_strlit("index");
        reveal_strlit("posts");
        reveal_strlit("<h1>Welcome to the Index page</h1>");
        reveal_strlit("<h1>Welcome to the Posts page</h1>");
        reveal_strlit("<h1>Page does not exist</h1>");
        reveal_strlit("<h1>Bad Request</h1>");
    }
    if segs.len() == 0 {
        return html_page(400, ascii_bytes("<h1>Bad Request</h1>"));
    }
    let table = route_table();
    let first = segs[0].as_slice();
    let mut handler: Option<Handler> = None;
    let mut i: usize = 0;
    while i < table.len() && handler.is_none()
        invariant
            0 <= i <= table@.len(),
            table@.len() == spec_route_table().len(),
            forall|k: int|
                0 <= k < table@.len() ==> ((#[trigger] table@[k]).prefix@, table@[k].handler)
                    == spec_route_table()[k],
            segs@.len() > 0,
            first@ == rows(segs@)[0],
            handler is None ==> forall|k: int|
                0 <= k < i ==> rows(segs@)[0] != (#[trigger] spec_route_table()[k]).0,
            handler matches Some(h) ==> exists|k: int|
                0 <= k < table@.len() && rows(segs@)[0] == (#[trigger] spec_route_table()[k]).0
                    && h == spec_route_table()[k].1,
        decreases table@.len() - i,
    {
        if bytes_eq(first, table[i].prefix.as_slice()) {
            handler = Some(table[i].handler);
        }
        i += 1;
    }
    proof {
        reveal_strlit("api");
        reveal_strlit("index");
        reveal_strlit("posts");
        reveal_strlit("<h1>Welcome to the Index page</h1>");
        reveal_strlit("<h1>Welcome to the Posts page</h1>");
        reveal_strlit("<h1>Page does not exist</h1>");
        reveal_strlit("<h1>Bad Request</h1>");
        assert(ascii("api"@).len() == 3);
        assert(ascii("index"@).len() == 5);
        assert(ascii("posts"@).len() == 5);
        assert(ascii("index"@)[0] == 105u8);
        assert(ascii("posts"@)[0] == 112u8);
    }
    match handler {
        Some(Handler::Api) => match route_action(method) {
            Ok(r) => r,
            Err(r) => r,
        },
        Some(h) => {
            if method == HttpMethod::UNKNOWN {
                html_page(400, ascii_bytes("<h1>Bad Request</h1>"))
            } else if h == Handler::IndexPage {
                html_page(200, ascii_bytes("<h1>Welcome to the Index page</h1>"))
            } else {
                html_page(200, ascii_bytes("<h1>Welcome to the Posts page</h1>"))
            }
        },
        None => {
            if method == HttpMethod::UNKNOWN {
                html_page(400, ascii_bytes("<h1>Bad Request</h1>"))
            } else {
                html_page(404, ascii_bytes("<h1>Page does not exist</h1>"))
            }
        },
    }
}

} // verus!
