//! The protocol family a scheme token denotes.

use crate::scan::ascii;
use crate::scan::ascii_bytes;
use crate::scan::bytes_eq;
use vstd::prelude::*;

verus! {

/// Plain or TLS HTTP. An unrecognized token falls back to plain `HTTP`.
#[derive(Clone, Copy, PartialEq, Eq, Structural, Debug)]
pub enum HttpType {
    HTTP,
    HTTPS,
}

/// The protocol family a scheme token denotes; anything but `https` is `HTTP`.
pub open spec fn http_type_of(t: Seq<u8>) -> HttpType {
    if t == ascii("https"@) {
        HttpType::HTTPS
    } else {
        HttpType::HTTP
    }
}

impl HttpType {
    /// Parse a scheme token.
    pub fn from(token: &[u8]) -> (h: HttpType)
        ensures
            h == http_type_of(token@),
    {
        proof {
            reveal_strlit("https");
        }
        if bytes_eq(token, ascii_bytes("https").as_slice()) {
            HttpType::HTTPS
        } else {
            HttpType::HTTP
        }
    }
}

} // verus!
