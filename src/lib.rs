//! A forward HTTP proxy's parsing and decision logic: an incremental
//! delimiter scanner over bytes, and the per-connection request pipeline
//! built on it.
use vstd::prelude::*;

pub mod scanner;
pub mod wire;
pub mod http;
pub mod headers;
pub mod session;

pub use scanner::Parser;

verus! {

/// Why a connection is aborted.
#[derive(Debug, Clone, Copy, PartialEq, Eq, Structural)]
pub enum ProxyError {
    /// The input ran out before a delimiter was found.
    IncompleteData,
    /// The method token is not one the proxy serves.
    UnsupportedMethod,
    /// A `Content-Length` value is not an unsigned integer.
    MalformedContentLength,
}

} // verus!
