//! A minimal HTTP server core: request-line parsing, routing against a small
//! set of known endpoints, and plain-text response rendering, all verified.
//! Socket handling and log persistence live outside this crate; the functions
//! here are pure and take and return plain values.

pub mod http_method;
pub mod http_response;
pub mod http_type;
pub mod router;
pub mod scan;
pub mod server;
