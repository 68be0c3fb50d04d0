//! The HTTP pieces of the request pipeline: methods, header lines and their
//! filtering, the header map, the body length, the target URI and the
//! outgoing request.
use vstd::prelude::*;
use crate::ProxyError;
use crate::scanner::{Parser, scan_token, scan_rest, scan_end, skip_ws};
use crate::wire::{
    lower, append, bytes_eq, eq_ignore_case, starts_with_ignore_case, colon, colon_bytes,
    scheme_sep, scheme_sep_bytes, slash, slash_bytes, lower_host, lower_host_bytes,
    lower_connection, lower_connection_bytes, lower_proxy_prefix, lower_proxy_prefix_bytes,
};

verus! {

/// The request methods the proxy serves.
#[derive(Debug, Clone, Copy, PartialEq, Eq, Structural)]
pub enum Method {
    Connect,
    Get,
    Post,
    Put,
    Patch,
    Delete,
}

/// The method a request line names.
pub open spec fn method_name(m: Method) -> Seq<u8> {
    match m {
        Method::Connect => seq![67u8, 79u8, 78u8, 78u8, 69u8, 67u8, 84u8],
        Method::Get => seq![71u8, 69u8, 84u8],
        Method::Post => seq![80u8, 79u8, 83u8, 84u8],
        Method::Put => seq![80u8, 85u8, 84u8],
        Method::Patch => seq![80u8, 65u8, 84u8, 67u8, 72u8],
        Method::Delete => seq![68u8, 69u8, 76u8, 69u8, 84u8, 69u8],
    }
}

/// The method whose name is `t`, compared exactly.
pub open spec fn method_of(t: Seq<u8>) -> Option<Method> {
    if t == method_name(Method::Connect) {
        Some(Method::Connect)
    } else if t == method_name(Method::Get) {
        Some(Method::Get)
    } else if t == method_name(Method::Post) {
        Some(Method::Post)
    } else if t == method_name(Method::Put) {
        Some(Method::Put)
    } else if t == method_name(Method::Patch) {
        Some(Method::Patch)
    } else if t == method_name(Method::Delete) {
        Some(Method::Delete)
    } else {
        None
    }
}

impl Method {
    /// The method's name as it stands in a request line.
    pub fn name(&self) -> (r: Vec<u8>)
        ensures
            r@ == method_name(*self),
    {
        match self {
            Method::Connect => vec![67u8, 79u8, 78u8, 78u8, 69u8, 67u8, 84u8],
            Method::Get => vec![71u8, 69u8, 84u8],
            Method::Post => vec![80u8, 79u8, 83u8, 84u8],
            Method::Put => vec![80u8, 85u8, 84u8],
            Method::Patch => vec![80u8, 65u8, 84u8, 67u8, 72u8],
            Method::Delete => vec![68u8, 69u8, 76u8, 69u8, 84u8, 69u8],
        }
    }

    /// Classifies a method token; any other token is `UnsupportedMethod`.
    pub fn from_token(t: &[u8]) -> (r: Result<Method, ProxyError>)
        ensures
            r == (match method_of(t@) {
                Some(m) => Ok(m),
                None => Err(ProxyError::UnsupportedMethod),
            }),
    {
        let all = [
            Method::Connect,
            Method::Get,
            Method::Post,
            Method::Put,
            Method::Patch,
            Method::Delete,
        ];
        let mut i: usize = 0;
        while i < 6
            invariant
                i <= 6,
                all@ == seq![
                    Method::Connect,
                    Method::Get,
                    Method::Post,
                    Method::Put,
                    Method::Patch,
                    Method::Delete,
                ],
                forall|j: int| 0 <= j < i ==> t@ != method_name(#[trigger] all@[j]),
            decreases 6 - i,
        {
            let name = all[i].name();
            if bytes_eq(t, name.as_slice()) {
                return Ok(all[i]);
            }
            i = i + 1;
        }
        assert(t@ != method_name(all@[0]));
        assert(t@ != method_name(all@[1]));
        assert(t@ != method_name(all@[2]));
        assert(t@ != method_name(all@[3]));
        assert(t@ != method_name(all@[4]));
        assert(t@ != method_name(all@[5]));
        Err(ProxyError::UnsupportedMethod)
    }
}

/// Whether a header of this name is passed on to the origin: not `Host`,
/// not `Connection`, and not starting with `Proxy-`, in any letter case.
pub open spec fn forwarded(name: Seq<u8>) -> bool {
    &&& lower(name) != lower_host()
    &&& lower(name) != lower_connection()
    &&& !(lower_proxy_prefix().len() <= name.len() && lower(name).take(
        lower_proxy_prefix().len() as int,
    ) == lower_proxy_prefix())
}

pub fn is_forwarded(name: &[u8]) -> (r: bool)
    ensures
        r == forwarded(name@),
{
    let host = lower_host_bytes();
    let connection = lower_connection_bytes();
    let proxy = lower_proxy_prefix_bytes();
    !eq_ignore_case(name, host.as_slice()) && !eq_ignore_case(name, connection.as_slice())
        && !starts_with_ignore_case(name, proxy.as_slice())
}

/// The name of a header line: the bytes before its first `:`.
pub open spec fn header_name(line: Seq<u8>) -> Option<Seq<u8>> {
    scan_token(line, colon())
}

/// The value of a header line: what follows the first `:`, leading
/// whitespace removed.
pub open spec fn header_value(line: Seq<u8>) -> Seq<u8> {
    skip_ws(scan_rest(line, colon()))
}

/// Splits a header line into name and value; a line without `:` is
/// `IncompleteData`.
pub fn parse_header_line(line: Vec<u8>) -> (r: Result<(Vec<u8>, Vec<u8>), ProxyError>)
    ensures
        match header_name(line@) {
            Some(k) => r matches Ok((n, v)) && n@ == k && v@ == header_value(line@),
            None => r == Err::<(Vec<u8>, Vec<u8>), ProxyError>(ProxyError::IncompleteData),
        },
{
    let mut p = Parser::new(line);
    let c = colon_bytes();
    let key = p.consume_until(c.as_slice());
    match key {
        Ok(k) => {
            p.consume_whitespaces();
            let v = p.consume_until_end();
            Ok((k, v))
        },
        Err(e) => Err(e),
    }
}

/// A byte that may stand in a URI scheme: an ASCII letter or digit, `+`,
/// `-` or `.`.
pub open spec fn is_scheme_byte(b: u8) -> bool {
    (97 <= b <= 122) || (65 <= b <= 90) || (48 <= b <= 57) || b == 43 || b == 45 || b == 46
}

/// Whether `p` can be a URI scheme: non-empty, of scheme bytes only.
pub open spec fn is_scheme(p: Seq<u8>) -> bool {
    p.len() > 0 && forall|i: int| 0 <= i < p.len() ==> is_scheme_byte(#[trigger] p[i])
}

/// Where the host starts in a request target: past a leading `scheme://`
/// if the bytes before the first `://` form a scheme, else at its start.
pub open spec fn after_scheme(t: Seq<u8>) -> Seq<u8> {
    match scan_token(t, scheme_sep()) {
        Some(p) => if is_scheme(p) {
            scan_rest(t, scheme_sep())
        } else {
            t
        },
        None => t,
    }
}

fn scheme_bytes_only(p: &[u8]) -> (r: bool)
    ensures
        r == is_scheme(p@),
{
    if p.len() == 0 {
        return false;
    }
    let mut i: usize = 0;
    while i < p.len()
        invariant
            i <= p@.len(),
            forall|j: int| 0 <= j < i ==> is_scheme_byte(#[trigger] p@[j]),
        decreases p@.len() - i,
    {
        let b = p[i];
        if !((97 <= b && b <= 122) || (65 <= b && b <= 90) || (48 <= b && b <= 57) || b == 43
            || b == 45 || b == 46) {
            return false;
        }
        i = i + 1;
    }
    true
}

/// The host of a request target: up to the first `/` after the scheme.
pub open spec fn target_host(t: Seq<u8>) -> Seq<u8> {
    match scan_token(after_scheme(t), slash()) {
        Some(h) => h,
        None => after_scheme(t),
    }
}

/// The path of a request target: `/` and what follows the host's `/`.
pub open spec fn target_path(t: Seq<u8>) -> Seq<u8> {
    slash() + scan_rest(after_scheme(t), slash())
}

/// Splits a request target `scheme://host/path` into host and path; the
/// scheme is optional, and a missing path is `/`. A `://` that does not
/// follow a scheme at the start of the target is part of host or path.
pub fn split_target(target: &[u8]) -> (r: (Vec<u8>, Vec<u8>))
    ensures
        r.0@ == target_host(target@),
        r.1@ == target_path(target@),
{
    let sep = scheme_sep_bytes();
    let mut p = Parser::new(vstd::slice::slice_to_vec(target));
    let scheme = p.consume_until(sep.as_slice());
    let strip = match &scheme {
        Ok(name) => scheme_bytes_only(name.as_slice()),
        Err(_) => false,
    };
    if !strip {
        p = Parser::new(vstd::slice::slice_to_vec(target));
    }
    let after = p.consume_until_end();
    let mut q = Parser::new(vstd::slice::slice_to_vec(after.as_slice()));
    let s = slash_bytes();
    let host = q.consume_until(s.as_slice());
    let mut path = slash_bytes();
    match host {
        Ok(h) => {
            let tail = q.consume_until_end();
            append(&mut path, tail.as_slice());
            (h, path)
        },
        Err(_) => {
            proof {
                assert(slash() + Seq::<u8>::empty() =~= slash());
            }
            (after, path)
        },
    }
}

} // verus!
