//! The header model: names mapped to values, names unique and compared
//! exactly, entries kept in the order they were first inserted.
use vstd::prelude::*;
use crate::ProxyError;
use crate::http::{Method, method_name};
use crate::wire::{
    append, bytes_eq, content_length_name, content_length_name_bytes, crlf, crlf_bytes,
    header_sep, header_sep_bytes, host_prefix, host_prefix_bytes, sp, sp_bytes,
    request_line_end, request_line_end_bytes,
};

verus! {

/// One header: name and value.
pub type HeaderEntry = (Vec<u8>, Vec<u8>);

/// No two entries have the same name.
pub open spec fn names_unique(es: Seq<(Seq<u8>, Seq<u8>)>) -> bool {
    forall|i: int, j: int|
        0 <= i < j < es.len() ==> (#[trigger] es[i]).0 != (#[trigger] es[j]).0
}

/// Whether an entry is named `k`.
pub open spec fn has_name(es: Seq<(Seq<u8>, Seq<u8>)>, k: Seq<u8>) -> bool {
    exists|i: int| 0 <= i < es.len() && (#[trigger] es[i]).0 == k
}

/// The value stored under `k`.
pub open spec fn lookup(es: Seq<(Seq<u8>, Seq<u8>)>, k: Seq<u8>) -> Option<Seq<u8>> {
    if has_name(es, k) {
        Some(es[choose|i: int| 0 <= i < es.len() && (#[trigger] es[i]).0 == k].1)
    } else {
        None
    }
}

/// The entries after setting `k` to `v`: the value of an entry named `k` is
/// replaced in place, else a new entry goes last.
pub open spec fn with_entry(es: Seq<(Seq<u8>, Seq<u8>)>, k: Seq<u8>, v: Seq<u8>) -> Seq<
    (Seq<u8>, Seq<u8>),
> {
    if has_name(es, k) {
        es.update(choose|i: int| 0 <= i < es.len() && (#[trigger] es[i]).0 == k, (k, v))
    } else {
        es.push((k, v))
    }
}

/// A map from header name to value.
pub struct HeaderMap {
    entries: Vec<HeaderEntry>,
}

impl View for HeaderMap {
    type V = Seq<(Seq<u8>, Seq<u8>)>;

    closed spec fn view(&self) -> Seq<(Seq<u8>, Seq<u8>)> {
        self.entries@.map_values(|e: HeaderEntry| (e.0@, e.1@))
    }
}

impl HeaderMap {
    pub fn new() -> (r: Self)
        ensures
            r@ == Seq::<(Seq<u8>, Seq<u8>)>::empty(),
    {
        let r = HeaderMap { entries: Vec::new() };
        assert(r@ =~= Seq::<(Seq<u8>, Seq<u8>)>::empty());
        r
    }

    pub fn len(&self) -> (r: usize)
        ensures
            r == self@.len(),
    {
        self.entries.len()
    }

    fn find(&self, k: &[u8]) -> (r: Option<usize>)
        ensures
            match r {
                Some(i) => i < self@.len() && self@[i as int].0 == k@,
                None => !has_name(self@, k@),
            },
    {
        let mut i: usize = 0;
        while i < self.entries.len()
            invariant
                i <= self@.len(),
                self@.len() == self.entries@.len(),
                forall|j: int| 0 <= j < i ==> (#[trigger] self@[j]).0 != k@,
            decreases self@.len() - i,
        {
            if bytes_eq(self.entries[i].0.as_slice(), k) {
                return Some(i);
            }
            i = i + 1;
        }
        None
    }

    /// The value stored under `k`, compared exactly.
    pub fn get(&self, k: &[u8]) -> (r: Option<&Vec<u8>>)
        requires
            names_unique(self@),
        ensures
            match lookup(self@, k@) {
                Some(v) => r matches Some(x) && x@ == v,
                None => r is None,
            },
    {
        match self.find(k) {
            Some(i) => {
                let ghost c = choose|j: int| 0 <= j < self@.len() && (#[trigger] self@[j]).0 == k@;
                assert(c == i);
                Some(&self.entries[i].1)
            },
            None => None,
        }
    }

    /// The entry at position `i`.
    pub fn entry(&self, i: usize) -> (r: &HeaderEntry)
        requires
            i < self@.len(),
        ensures
            (r.0@, r.1@) == self@[i as int],
    {
        &self.entries[i]
    }

    /// Sets `k` to `v`: an entry of that name keeps its place and takes the
    /// new value, else the entry is added last.
    pub fn insert(&mut self, k: Vec<u8>, v: Vec<u8>)
        requires
            names_unique(old(self)@),
        ensures
            final(self)@ == with_entry(old(self)@, k@, v@),
            names_unique(final(self)@),
    {
        let ghost kv = k@;
        let ghost vv = v@;
        match self.find(k.as_slice()) {
            Some(i) => {
                let ghost c = choose|j: int| 0 <= j < old(self)@.len() && (#[trigger] old(self)@[j]).0 == kv;
                assert(c == i);
                self.entries.set(i, (k, v));
                assert(self@ =~= old(self)@.update(i as int, (kv, vv)));
            },
            None => {
                self.entries.push((k, v));
                assert(self@ =~= old(self)@.push((kv, vv)));
            },
        }
    }
}

/// Whether `s` is a non-empty string of ASCII digits.
pub open spec fn is_decimal(s: Seq<u8>) -> bool {
    s.len() > 0 && forall|i: int| 0 <= i < s.len() ==> 48 <= #[trigger] s[i] <= 57
}

/// The number that the ASCII digits `s` write in base ten.
pub open spec fn decimal_value(s: Seq<u8>) -> nat
    decreases s.len(),
{
    if s.len() == 0 {
        0
    } else {
        decimal_value(s.drop_last()) * 10 + (s.last() - 48) as nat
    }
}

/// Reads a base-ten unsigned integer; `None` unless `s` is digits only and
/// its value fits a `usize`.
pub fn parse_decimal(s: &[u8]) -> (r: Option<usize>)
    ensures
        r == (if is_decimal(s@) && decimal_value(s@) <= usize::MAX {
            Some(decimal_value(s@) as usize)
        } else {
            None
        }),
{
    if s.len() == 0 {
        return None;
    }
    let mut acc: usize = 0;
    let mut i: usize = 0;
    while i < s.len()
        invariant
            i <= s@.len(),
            acc == decimal_value(s@.take(i as int)),
            forall|j: int| 0 <= j < i ==> 48 <= #[trigger] s@[j] <= 57,
        decreases s@.len() - i,
    {
        let b = s[i];
        proof {
            assert(s@.take(i + 1).drop_last() =~= s@.take(i as int));
        }
        if b < 48 || b > 57 {
            return None;
        }
        let next = match acc.checked_mul(10) {
            Some(m) => m.checked_add((b - 48) as usize),
            None => None,
        };
        match next {
            Some(n) => {
                acc = n;
            },
            None => {
                proof {
                    lemma_decimal_monotone(s@, (i + 1) as nat);
                }
                return None;
            },
        }
        i = i + 1;
    }
    assert(s@.take(s@.len() as int) =~= s@);
    Some(acc)
}

/// A prefix of digits is worth no more than the whole.
proof fn lemma_decimal_monotone(s: Seq<u8>, n: nat)
    requires
        n <= s.len(),
    ensures
        decimal_value(s.take(n as int)) <= decimal_value(s),
    decreases s.len() - n,
{
    if n < s.len() {
        lemma_decimal_monotone(s, n + 1);
        assert(s.take(n as int + 1).drop_last() =~= s.take(n as int));
    } else {
        assert(s.take(n as int) =~= s);
    }
}

/// The body length that the headers declare: zero without a
/// `Content-Length` header, its value if it is a number that fits.
pub open spec fn declared_length(hs: Seq<(Seq<u8>, Seq<u8>)>) -> Result<nat, ProxyError> {
    match lookup(hs, content_length_name()) {
        None => Ok(0),
        Some(v) => if is_decimal(v) && decimal_value(v) <= usize::MAX {
            Ok(decimal_value(v))
        } else {
            Err(ProxyError::MalformedContentLength)
        },
    }
}

/// The body length declared by `Content-Length`, zero without one.
pub fn content_length(hs: &HeaderMap) -> (r: Result<usize, ProxyError>)
    requires
        names_unique(hs@),
    ensures
        match declared_length(hs@) {
            Ok(n) => r == Ok::<usize, ProxyError>(n as usize),
            Err(e) => r == Err::<usize, ProxyError>(e),
        },
{
    let name = content_length_name_bytes();
    match hs.get(name.as_slice()) {
        None => Ok(0),
        Some(v) => match parse_decimal(v.as_slice()) {
            Some(n) => Ok(n),
            None => Err(ProxyError::MalformedContentLength),
        },
    }
}

/// The header block: each entry as `name: value` and a line end.
pub open spec fn header_block(hs: Seq<(Seq<u8>, Seq<u8>)>) -> Seq<u8>
    decreases hs.len(),
{
    if hs.len() == 0 {
        Seq::empty()
    } else {
        header_block(hs.drop_last()) + hs.last().0 + header_sep() + hs.last().1 + crlf()
    }
}

/// The request sent to the origin: `METHOD path HTTP/1.1`, the `Host`
/// header, the header block, an empty line, then the body.
pub open spec fn request_bytes(
    m: Method,
    path: Seq<u8>,
    host: Seq<u8>,
    hs: Seq<(Seq<u8>, Seq<u8>)>,
    body: Seq<u8>,
) -> Seq<u8> {
    method_name(m) + sp() + path + request_line_end() + host_prefix() + host + crlf()
        + header_block(hs) + crlf() + body
}

/// Assembles the request sent to the origin.
pub fn build_request(m: Method, path: &[u8], host: &[u8], hs: &HeaderMap, body: &[u8]) -> (r:
    Vec<u8>)
    ensures
        r@ == request_bytes(m, path@, host@, hs@, body@),
{
    let mut out = m.name();
    append(&mut out, sp_bytes().as_slice());
    append(&mut out, path);
    append(&mut out, request_line_end_bytes().as_slice());
    append(&mut out, host_prefix_bytes().as_slice());
    append(&mut out, host);
    append(&mut out, crlf_bytes().as_slice());
    let ghost head = out@;
    let mut i: usize = 0;
    while i < hs.len()
        invariant
            i <= hs@.len(),
            out@ == head + header_block(hs@.take(i as int)),
        decreases hs@.len() - i,
    {
        let e = hs.entry(i);
        append(&mut out, e.0.as_slice());
        append(&mut out, header_sep_bytes().as_slice());
        append(&mut out, e.1.as_slice());
        append(&mut out, crlf_bytes().as_slice());
        proof {
            assert(hs@.take(i + 1).drop_last() =~= hs@.take(i as int));
        }
        i = i + 1;
        assert(out@ =~= head + header_block(hs@.take(i as int)));
    }
    assert(hs@.take(hs@.len() as int) =~= hs@);
    append(&mut out, crlf_bytes().as_slice());
    append(&mut out, body);
    out
}

} // verus!
