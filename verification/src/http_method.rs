//! The HTTP verbs the server recognizes, and the one canonical parsing of a
//! method token, shared by the request parser and the router.

use crate::scan::ascii;
use crate::scan::ascii_bytes;
use crate::scan::bytes_eq;
use vstd::prelude::*;

verus! {

/// An HTTP verb. A token that matches none of the named verbs parses as
/// `UNKNOWN`, which is a valid parse result; rejecting it is the router's
/// decision.
#[derive(Clone, Copy, PartialEq, Eq, Structural, Debug)]
pub enum HttpMethod {
    GET,
    POST,
    PUT,
    DELETE,
    HEAD,
    OPTIONS,
    TRACE,
    CONNECT,
    PATCH,
    UNKNOWN,
}

/// The verb a method token denotes, matched case-sensitively.
pub open spec fn method_of(t: Seq<u8>) -> HttpMethod {
    if t == ascii("GET"@) {
        HttpMethod::GET
    } else if t == ascii("POST"@) {
        HttpMethod::POST
    } else if t == ascii("PUT"@) {
        HttpMethod::PUT
    } else if t == ascii("DELETE"@) {
        HttpMethod::DELETE
    } else if t == ascii("HEAD"@) {
        HttpMethod::HEAD
    } else if t == ascii("OPTIONS"@) {
        HttpMethod::OPTIONS
    } else if t == ascii("TRACE"@) {
        HttpMethod::TRACE
    } else if t == ascii("CONNECT"@) {
        HttpMethod::CONNECT
    } else if t == ascii("PATCH"@) {
        HttpMethod::PATCH
    } else {
        HttpMethod::UNKNOWN
    }
}

impl HttpMethod {
    /// Parse a method token, case-sensitively.
    pub fn from(token: &[u8]) -> (m: HttpMethod)
        ensures
            m == method_of(token@),
    {
        proof {
            reveal_strlit("GET");
            reveal_strlit("POST");
            reveal_strlit("PUT");
            reveal_strlit("DELETE");
            reveal_strlit("HEAD");
            reveal_strlit("OPTIONS");
            reveal_strlit("TRACE");
            reveal_strlit("CONNECT");
            reveal_strlit("PATCH");
        }
        if bytes_eq(token, ascii_bytes("GET").as_slice()) {
            HttpMethod::GET
        } else if bytes_eq(token, ascii_bytes("POST").as_slice()) {
            HttpMethod::POST
        } else if bytes_eq(token, ascii_bytes("PUT").as_slice()) {
            HttpMethod::PUT
        } else if bytes_eq(token, ascii_bytes("DELETE").as_slice()) {
            HttpMethod::DELETE
        } else if bytes_eq(token, ascii_bytes("HEAD").as_slice()) {
            HttpMethod::HEAD
        } else if bytes_eq(token, ascii_bytes("OPTIONS").as_slice()) {
            HttpMethod::OPTIONS
        } else if bytes_eq(token, ascii_bytes("TRACE").as_slice()) {
            HttpMethod::TRACE
        } else if bytes_eq(token, ascii_bytes("CONNECT").as_slice()) {
            HttpMethod::CONNECT
        } else if bytes_eq(token, ascii_bytes("PATCH").as_slice()) {
            HttpMethod::PATCH
        } else {
            HttpMethod::UNKNOWN
        }
    }
}

} // verus!
