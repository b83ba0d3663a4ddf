//! One connection's worth of decisions: decode the bytes read from the
//! socket, parse the request line, route it, and render the response. The
//! socket itself is handled by the caller, which hands the read bytes in and
//! carries the decided outcome out.

use crate::http_method::method_of;
use crate::http_method::HttpMethod;
use crate::http_response::build_response;
use crate::http_response::render;
use crate::router::bad_request_body;
use crate::router::filter_endpoint;
use crate::router::filter_query;
use crate::router::html_header;
use crate::router::html_page;
use crate::router::pair_rows;
use crate::router::route;
use crate::router::spec_query;
use crate::router::spec_route;
use crate::router::spec_segments;
use crate::scan::ascii_bytes;
use crate::scan::first_sep;
use crate::scan::find_byte;
use crate::scan::lemma_first_sep;
use crate::scan::rows;
use crate::scan::split_bytes;
use crate::scan::split_on;
use crate::scan::CR;
use crate::scan::LF;
use crate::scan::SPACE;
use vstd::prelude::*;
use vstd::slice::{slice_subrange, slice_to_vec};
use vstd::utf8::valid_utf8;

verus! {

/// A parsed request line: the verb, the non-empty path segments, the query
/// pairs, and the protocol-version token, which is kept but not validated.
pub struct Request {
    pub method: HttpMethod,
    pub path: Vec<Vec<u8>>,
    pub query: Vec<Vec<Vec<u8>>>,
    pub http_version: Vec<u8>,
}

/// Why a request line failed to parse.
#[derive(Clone, Copy, PartialEq, Eq, Structural, Debug)]
pub enum ParseError {
    /// Fewer than two space-separated tokens on the request line.
    MalformedRequestLine,
}

/// The space-separated tokens of a request line, empty tokens kept.
pub open spec fn spec_tokens(line: Seq<u8>) -> Seq<Seq<u8>> {
    split_on(line, SPACE)
}

/// A request line parses when it has at least a method token and a target
/// token.
pub open spec fn parse_ok(line: Seq<u8>) -> bool {
    spec_tokens(line).len() >= 2
}

/// The version token: the third token when present, otherwise empty.
pub open spec fn spec_version(line: Seq<u8>) -> Seq<u8> {
    if spec_tokens(line).len() >= 3 {
        spec_tokens(line)[2]
    } else {
        Seq::empty()
    }
}

/// Parse the text of a request line (`<METHOD> <TARGET> <VERSION>`) into a
/// request. A line with fewer than two tokens is malformed; an unrecognized
/// method token is not an error and parses as `UNKNOWN`.
pub fn parse_request_line(line: &[u8]) -> (r: Result<Request, ParseError>)
    ensures
        parse_ok(line@) ==> (r matches Ok(req) && req.method == method_of(spec_tokens(line@)[0])
            && rows(req.path@) == spec_segments(spec_tokens(line@)[1]) && pair_rows(req.query@)
            == spec_query(spec_tokens(line@)[1]) && req.http_version@ == spec_version(line@)),
        !parse_ok(line@) ==> (r matches Err(e) && e == ParseError::MalformedRequestLine),
{
    let tokens = split_bytes(line, SPACE);
    if tokens.len() < 2 {
        return Err(ParseError::MalformedRequestLine);
    }
    let method = HttpMethod::from(tokens[0].as_slice());
    let target = tokens[1].as_slice();
    let path = filter_endpoint(target);
    let query = filter_query(target);
    let http_version: Vec<u8> = if tokens.len() >= 3 {
        slice_to_vec(tokens[2].as_slice())
    } else {
        Vec::new()
    };
    proof {
        if spec_tokens(line@).len() < 3 {
            assert(http_version@ =~= Seq::<u8>::empty());
        }
    }
    Ok(Request { method, path, query, http_version })
}

/// The first line of the read bytes: everything up to the first LF, with a
/// trailing CR dropped.
pub open spec fn spec_first_line(s: Seq<u8>) -> Seq<u8> {
    let l = s.take(first_sep(s, LF));
    if l.len() > 0 && l[l.len() - 1] == CR {
        l.drop_last()
    } else {
        l
    }
}

/// The first line of the read bytes.
pub fn first_line(s: &[u8]) -> (line: Vec<u8>)
    ensures
        line@ == spec_first_line(s@),
{
    let e = find_byte(s, LF);
    proof {
        lemma_first_sep(s@, LF);
    }
    let l = slice_subrange(s, 0, e);
    if l.len() > 0 && l[l.len() - 1] == CR {
        let line = slice_to_vec(slice_subrange(l, 0, l.len() - 1));
        proof {
            assert(line@ =~= spec_first_line(s@));
        }
        line
    } else {
        slice_to_vec(l)
    }
}

/// Relies on std's `str::from_utf8`: it succeeds exactly on the byte
/// sequences that are valid UTF-8, which vstd's `valid_utf8` formalizes.
#[verifier::external_body]
fn utf8_ok(bytes: &[u8]) -> (r: bool)
    ensures
        r == valid_utf8(bytes@),
{
    std::str::from_utf8(bytes).is_ok()
}

/// Why a connection is abandoned with no response written.
#[derive(Clone, Copy, PartialEq, Eq, Structural, Debug)]
pub enum AbortReason {
    /// The read returned zero bytes: the peer closed without sending.
    EmptyRead,
    /// The bytes read are not valid text.
    DecodeFailure,
}

/// What the connection handler decides from one read.
pub enum HandleOutcome {
    /// Close without responding; the reason is recorded as an operational
    /// event.
    Abort(AbortReason),
    /// The request line was malformed: write these wire bytes back, record an
    /// operational warning, close.
    Reject(Vec<u8>),
    /// Write these wire bytes back and record an access event carrying the
    /// raw method token and target of the request line.
    Respond { wire: Vec<u8>, method_token: Vec<u8>, target: Vec<u8> },
}

/// Decide a connection's outcome from the `n` bytes one bounded read put in
/// `buf`: an empty read or undecodable bytes abort the connection; a
/// malformed request line is refused with a 400; anything else is routed and
/// answered with the rendered response, access-logged under its raw method
/// and target tokens.
pub fn handle_read(buf: &[u8], n: usize) -> (out: HandleOutcome)
    requires
        n <= buf@.len(),
    ensures
        ({
            let data = buf@.take(n as int);
            let line = spec_first_line(data);
            let toks = spec_tokens(line);
            &&& (n == 0 ==> out == HandleOutcome::Abort(AbortReason::EmptyRead))
            &&& (n > 0 && !valid_utf8(data) ==> out == HandleOutcome::Abort(
                AbortReason::DecodeFailure,
            ))
            &&& (n > 0 && valid_utf8(data) && !parse_ok(line) ==> (out matches HandleOutcome::Reject(wire)
                && wire@ == render(400, seq![html_header()], bad_request_body())))
            &&& (n > 0 && valid_utf8(data) && parse_ok(line) ==> (out matches HandleOutcome::Respond {
                wire,
                method_token,
                target,
            } && {
                let t = spec_route(method_of(toks[0]), spec_segments(toks[1]));
                &&& wire@ == render(t.0, t.1, t.2)
                &&& method_token@ == toks[0]
                &&& target@ == toks[1]
            }))
        }),
{
    if n == 0 {
        return HandleOutcome::Abort(AbortReason::EmptyRead);
    }
    let data = slice_subrange(buf, 0, n);
    if !utf8_ok(data) {
        return HandleOutcome::Abort(AbortReason::DecodeFailure);
    }
    let line = first_line(data);
    match parse_request_line(line.as_slice()) {
        Err(_) => {
            proof {
                reveal_strlit("<h1>Bad Request</h1>");
            }
            let resp = html_page(400, ascii_bytes("<h1>Bad Request</h1>"));
            let wire = build_response(&resp);
            HandleOutcome::Reject(wire)
        },
        Ok(req) => {
            let resp = route(req.method, &req.path);
            let wire = build_response(&resp);
            let tokens = split_bytes(line.as_slice(), SPACE);
            let method_token = slice_to_vec(tokens[0].as_slice());
            let target = slice_to_vec(tokens[1].as_slice());
            HandleOutcome::Respond { wire, method_token, target }
        },
    }
}

} // verus!
