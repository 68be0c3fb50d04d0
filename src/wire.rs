//! Byte constants of the wire protocol and small byte-string helpers.
use vstd::prelude::*;

verus! {

/// The single space: ` `.
pub open spec fn sp() -> Seq<u8> {
    seq![32u8]
}

/// The single space, as bytes.
pub fn sp_bytes() -> (r: Vec<u8>)
    ensures
        r@ == sp(),
{
    vec![32u8]
}

/// The line end: `\r\n`.
pub open spec fn crlf() -> Seq<u8> {
    seq![13u8, 10u8]
}

/// The line end, as bytes.
pub fn crlf_bytes() -> (r: Vec<u8>)
    ensures
        r@ == crlf(),
{
    vec![13u8, 10u8]
}

/// The end of a header block: `\r\n\r\n`.
pub open spec fn blank_line() -> Seq<u8> {
    seq![13u8, 10u8, 13u8, 10u8]
}

/// The end of a header block, as bytes.
pub fn blank_line_bytes() -> (r: Vec<u8>)
    ensures
        r@ == blank_line(),
{
    vec![13u8, 10u8, 13u8, 10u8]
}

/// The end of an HTTP/1.1 request line after the target: ` HTTP/1.1\r\n`.
pub open spec fn request_line_end() -> Seq<u8> {
    seq![32u8, 72u8, 84u8, 84u8, 80u8, 47u8, 49u8, 46u8, 49u8, 13u8, 10u8]
}

/// The end of an HTTP/1.1 request line after the target, as bytes.
pub fn request_line_end_bytes() -> (r: Vec<u8>)
    ensures
        r@ == request_line_end(),
{
    vec![32u8, 72u8, 84u8, 84u8, 80u8, 47u8, 49u8, 46u8, 49u8, 13u8, 10u8]
}

/// The name/value separator of a header line: `:`.
pub open spec fn colon() -> Seq<u8> {
    seq![58u8]
}

/// The name/value separator of a header line, as bytes.
pub fn colon_bytes() -> (r: Vec<u8>)
    ensures
        r@ == colon(),
{
    vec![58u8]
}

/// The name/value separator written in a header line: `: `.
pub open spec fn header_sep() -> Seq<u8> {
    seq![58u8, 32u8]
}

/// The name/value separator written in a header line, as bytes.
pub fn header_sep_bytes() -> (r: Vec<u8>)
    ensures
        r@ == header_sep(),
{
    vec![58u8, 32u8]
}

/// The separator after a URI scheme: `://`.
pub open spec fn scheme_sep() -> Seq<u8> {
    seq![58u8, 47u8, 47u8]
}

/// The separator after a URI scheme, as bytes.
pub fn scheme_sep_bytes() -> (r: Vec<u8>)
    ensures
        r@ == scheme_sep(),
{
    vec![58u8, 47u8, 47u8]
}

/// The path separator: `/`.
pub open spec fn slash() -> Seq<u8> {
    seq![47u8]
}

/// The path separator, as bytes.
pub fn slash_bytes() -> (r: Vec<u8>)
    ensures
        r@ == slash(),
{
    vec![47u8]
}

/// The start of the synthesized `Host` header: `Host: `.
pub open spec fn host_prefix() -> Seq<u8> {
    seq![72u8, 111u8, 115u8, 116u8, 58u8, 32u8]
}

/// The start of the synthesized `Host` header, as bytes.
pub fn host_prefix_bytes() -> (r: Vec<u8>)
    ensures
        r@ == host_prefix(),
{
    vec![72u8, 111u8, 115u8, 116u8, 58u8, 32u8]
}

/// The name of the forced `Connection` header: `Connection`.
pub open spec fn connection_name() -> Seq<u8> {
    seq![67u8, 111u8, 110u8, 110u8, 101u8, 99u8, 116u8, 105u8, 111u8, 110u8]
}

/// The name of the forced `Connection` header, as bytes.
pub fn connection_name_bytes() -> (r: Vec<u8>)
    ensures
        r@ == connection_name(),
{
    vec![67u8, 111u8, 110u8, 110u8, 101u8, 99u8, 116u8, 105u8, 111u8, 110u8]
}

/// The value of the forced `Connection` header: `close`.
pub open spec fn close_value() -> Seq<u8> {
    seq![99u8, 108u8, 111u8, 115u8, 101u8]
}

/// The value of the forced `Connection` header, as bytes.
pub fn close_value_bytes() -> (r: Vec<u8>)
    ensures
        r@ == close_value(),
{
    vec![99u8, 108u8, 111u8, 115u8, 101u8]
}

/// The name of the body length header: `Content-Length`.
pub open spec fn content_length_name() -> Seq<u8> {
    seq![67u8, 111u8, 110u8, 116u8, 101u8, 110u8, 116u8, 45u8, 76u8, 101u8, 110u8, 103u8, 116u8, 104u8]
}

/// The name of the body length header, as bytes.
pub fn content_length_name_bytes() -> (r: Vec<u8>)
    ensures
        r@ == content_length_name(),
{
    vec![67u8, 111u8, 110u8, 116u8, 101u8, 110u8, 116u8, 45u8, 76u8, 101u8, 110u8, 103u8, 116u8, 104u8]
}

/// The reply to an accepted `CONNECT`: `HTTP/1.1 200 OK\r\n\r\n`.
pub open spec fn tunnel_ok() -> Seq<u8> {
    seq![72u8, 84u8, 84u8, 80u8, 47u8, 49u8, 46u8, 49u8, 32u8, 50u8, 48u8, 48u8, 32u8, 79u8, 75u8, 13u8, 10u8, 13u8, 10u8]
}

/// The reply to an accepted `CONNECT`, as bytes.
pub fn tunnel_ok_bytes() -> (r: Vec<u8>)
    ensures
        r@ == tunnel_ok(),
{
    vec![72u8, 84u8, 84u8, 80u8, 47u8, 49u8, 46u8, 49u8, 32u8, 50u8, 48u8, 48u8, 32u8, 79u8, 75u8, 13u8, 10u8, 13u8, 10u8]
}

/// The reply sent, at best effort, on failure: `HTTP/1.1 400 Bad Request\r\n\r\n`.
pub open spec fn bad_request() -> Seq<u8> {
    seq![72u8, 84u8, 84u8, 80u8, 47u8, 49u8, 46u8, 49u8, 32u8, 52u8, 48u8, 48u8, 32u8, 66u8, 97u8, 100u8, 32u8, 82u8, 101u8, 113u8, 117u8, 101u8, 115u8, 116u8, 13u8, 10u8, 13u8, 10u8]
}

/// The reply sent, at best effort, on failure, as bytes.
pub fn bad_request_bytes() -> (r: Vec<u8>)
    ensures
        r@ == bad_request(),
{
    vec![72u8, 84u8, 84u8, 80u8, 47u8, 49u8, 46u8, 49u8, 32u8, 52u8, 48u8, 48u8, 32u8, 66u8, 97u8, 100u8, 32u8, 82u8, 101u8, 113u8, 117u8, 101u8, 115u8, 116u8, 13u8, 10u8, 13u8, 10u8]
}

/// The lower-case `host`: `host`.
pub open spec fn lower_host() -> Seq<u8> {
    seq![104u8, 111u8, 115u8, 116u8]
}

/// The lower-case `host`, as bytes.
pub fn lower_host_bytes() -> (r: Vec<u8>)
    ensures
        r@ == lower_host(),
{
    vec![104u8, 111u8, 115u8, 116u8]
}

/// The lower-case `connection`: `connection`.
pub open spec fn lower_connection() -> Seq<u8> {
    seq![99u8, 111u8, 110u8, 110u8, 101u8, 99u8, 116u8, 105u8, 111u8, 110u8]
}

/// The lower-case `connection`, as bytes.
pub fn lower_connection_bytes() -> (r: Vec<u8>)
    ensures
        r@ == lower_connection(),
{
    vec![99u8, 111u8, 110u8, 110u8, 101u8, 99u8, 116u8, 105u8, 111u8, 110u8]
}

/// The lower-case `proxy-`: `proxy-`.
pub open spec fn lower_proxy_prefix() -> Seq<u8> {
    seq![112u8, 114u8, 111u8, 120u8, 121u8, 45u8]
}

/// The lower-case `proxy-`, as bytes.
pub fn lower_proxy_prefix_bytes() -> (r: Vec<u8>)
    ensures
        r@ == lower_proxy_prefix(),
{
    vec![112u8, 114u8, 111u8, 120u8, 121u8, 45u8]
}

/// ASCII lower case of one byte.
pub open spec fn to_lower(b: u8) -> u8 {
    if 65 <= b <= 90 {
        (b + 32) as u8
    } else {
        b
    }
}

/// ASCII lower case of a byte string.
pub open spec fn lower(s: Seq<u8>) -> Seq<u8> {
    s.map_values(|b: u8| to_lower(b))
}

fn lower_byte(b: u8) -> (r: u8)
    ensures
        r == to_lower(b),
{
    if 65 <= b && b <= 90 {
        b + 32
    } else {
        b
    }
}

/// Whether two byte strings are equal.
pub fn bytes_eq(a: &[u8], b: &[u8]) -> (r: bool)
    ensures
        r == (a@ == b@),
{
    if a.len() != b.len() {
        return false;
    }
    let mut i: usize = 0;
    while i < a.len()
        invariant
            a@.len() == b@.len(),
            i <= a@.len(),
            forall|j: int| 0 <= j < i ==> a@[j] == b@[j],
        decreases a@.len() - i,
    {
        if a[i] != b[i] {
            return false;
        }
        i = i + 1;
    }
    assert(a@ =~= b@);
    true
}

/// Whether `a`, taken in ASCII lower case, begins with `p`.
pub fn starts_with_ignore_case(a: &[u8], p: &[u8]) -> (r: bool)
    ensures
        r == (p@.len() <= a@.len() && lower(a@).take(p@.len() as int) == p@),
{
    if a.len() < p.len() {
        return false;
    }
    let mut i: usize = 0;
    while i < p.len()
        invariant
            p@.len() <= a@.len(),
            i <= p@.len(),
            forall|j: int| 0 <= j < i ==> lower(a@)[j] == p@[j],
        decreases p@.len() - i,
    {
        if lower_byte(a[i]) != p[i] {
            assert(lower(a@).take(p@.len() as int)[i as int] != p@[i as int]);
            return false;
        }
        i = i + 1;
    }
    assert(lower(a@).take(p@.len() as int) =~= p@);
    true
}

/// Whether `a`, taken in ASCII lower case, equals `p`.
pub fn eq_ignore_case(a: &[u8], p: &[u8]) -> (r: bool)
    ensures
        r == (lower(a@) == p@),
{
    if a.len() != p.len() {
        assert(lower(a@).len() != p@.len());
        return false;
    }
    let r = starts_with_ignore_case(a, p);
    assert(lower(a@).take(p@.len() as int) =~= lower(a@));
    r
}

/// Appends `b` to `out`.
pub fn append(out: &mut Vec<u8>, b: &[u8])
    ensures
        final(out)@ == old(out)@ + b@,
{
    let mut i: usize = 0;
    while i < b.len()
        invariant
            i <= b@.len(),
            out@ == old(out)@ + b@.take(i as int),
        decreases b@.len() - i,
    {
        out.push(b[i]);
        i = i + 1;
        assert(out@ =~= old(out)@ + b@.take(i as int));
    }
    assert(b@.take(b@.len() as int) =~= b@);
}

} // verus!
