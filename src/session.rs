//! The per-connection request pipeline as a state machine. The caller does
//! the I/O: it performs each `Step` and hands back the bytes it read, or
//! reports that the client's input ended.
use vstd::prelude::*;
use crate::ProxyError;
use crate::http::{
    Method, method_name, method_of, forwarded, header_name, header_value, parse_header_line, is_forwarded,
    split_target, target_host, target_path,
};
use crate::headers::{HeaderMap, names_unique, with_entry, declared_length, content_length,
    request_bytes, build_request};
use crate::wire::{
    sp, sp_bytes, crlf, crlf_bytes, blank_line, blank_line_bytes, request_line_end,
    request_line_end_bytes, tunnel_ok, tunnel_ok_bytes, connection_name, connection_name_bytes,
    close_value, close_value_bytes,
};

verus! {

/// The port requests are forwarded to: plain HTTP.
pub const HTTP_PORT: u16 = 80;

/// Where a connection's request stands.
pub enum Phase {
    /// Before the method token.
    Method,
    /// After `CONNECT`, before its `host:port` target.
    ConnectTarget,
    /// Before the end of a `CONNECT` request's headers.
    ConnectHeaders { target: Vec<u8> },
    /// Before the request target of a forwarded method.
    Target { method: Method },
    /// Among the header lines.
    Headers { method: Method, target: Vec<u8>, headers: HeaderMap },
    /// Before a body of `length` bytes.
    Body { method: Method, target: Vec<u8>, headers: HeaderMap, length: usize },
    /// Nothing is left to do.
    Finished,
}

/// What the caller does next.
pub enum Step {
    /// Read from the client up to the delimiter and hand back the bytes before it.
    ReadUntil(Vec<u8>),
    /// Read exactly this many bytes from the client and hand them back.
    ReadExact(usize),
    /// Write `reply` to the client, connect to `target` (`host:port`) and
    /// relay bytes both ways.
    Tunnel { target: Vec<u8>, reply: Vec<u8> },
    /// Connect to `host` on `port`, send `request`, and copy the whole
    /// response back to the client.
    Forward { host: Vec<u8>, port: u16, request: Vec<u8> },
    /// Give up on the connection, sending a `400 Bad Request` at best effort.
    Abort(ProxyError),
}

/// `s` reads up to the delimiter `d`.
pub open spec fn reads_until(s: Step, d: Seq<u8>) -> bool {
    s matches Step::ReadUntil(x) && x@ == d
}

/// `s` forwards request `m target` with headers `hs` and body `body`.
pub open spec fn forwards(
    s: Step,
    m: Method,
    target: Seq<u8>,
    hs: Seq<(Seq<u8>, Seq<u8>)>,
    body: Seq<u8>,
) -> bool {
    s matches Step::Forward { host, port, request } && host@ == target_host(target) && port
        == HTTP_PORT && request@ == request_bytes(
        m,
        target_path(target),
        target_host(target),
        hs,
        body,
    )
}

/// The headers at the end of the header block: those kept, and
/// `Connection: close`.
pub open spec fn final_headers(hs: Seq<(Seq<u8>, Seq<u8>)>) -> Seq<(Seq<u8>, Seq<u8>)> {
    with_entry(hs, connection_name(), close_value())
}

/// `s` opens a tunnel to `target` after the `200 OK` reply.
pub open spec fn tunnels(s: Step, target: Seq<u8>) -> bool {
    s matches Step::Tunnel { target: t, reply } && t@ == target && reply@ == tunnel_ok()
}

/// `q` waits for the end of a `CONNECT` request to `target`.
pub open spec fn in_connect_headers(q: Phase, target: Seq<u8>) -> bool {
    q matches Phase::ConnectHeaders { target: t } && t@ == target
}

/// `q` is among the header lines of request `m target`, `hs` kept so far.
pub open spec fn in_headers(q: Phase, m: Method, target: Seq<u8>, hs: Seq<(Seq<u8>, Seq<u8>)>) -> bool {
    q matches Phase::Headers { method, target: t, headers } && method == m && t@ == target
        && headers@ == hs
}

/// `q` waits for the `n`-byte body of request `m target` with headers `hs`.
pub open spec fn in_body(
    q: Phase,
    m: Method,
    target: Seq<u8>,
    hs: Seq<(Seq<u8>, Seq<u8>)>,
    n: nat,
) -> bool {
    q matches Phase::Body { method, target: t, headers, length } && method == m && t@ == target
        && headers@ == hs && length == n
}

/// The pipeline's rule: from phase `p`, with the bytes `t` that the last
/// step read, the next phase is `q` and the next step is `s`.
pub open spec fn transition(p: Phase, t: Seq<u8>, q: Phase, s: Step) -> bool {
    match p {
        Phase::Method => match method_of(t) {
            None => q is Finished && s == Step::Abort(ProxyError::UnsupportedMethod),
            Some(Method::Connect) => q is ConnectTarget && reads_until(s, request_line_end()),
            Some(m) => q == (Phase::Target { method: m }) && reads_until(s, request_line_end()),
        },
        Phase::ConnectTarget => in_connect_headers(q, t) && reads_until(s, blank_line()),
        Phase::ConnectHeaders { target } => q is Finished && tunnels(s, target@),
        Phase::Target { method } => in_headers(q, method, t, Seq::empty()) && reads_until(
            s,
            crlf(),
        ),
        Phase::Headers { method, target, headers } => if t.len() == 0 {
            let hs = final_headers(headers@);
            match declared_length(hs) {
                Err(e) => q is Finished && s == Step::Abort(e),
                Ok(n) => if n == 0 {
                    q is Finished && forwards(s, method, target@, hs, Seq::empty())
                } else {
                    in_body(q, method, target@, hs, n) && s == Step::ReadExact(n as usize)
                },
            }
        } else {
            match header_name(t) {
                None => q is Finished && s == Step::Abort(ProxyError::IncompleteData),
                Some(k) => in_headers(
                    q,
                    method,
                    target@,
                    if forwarded(k) {
                        with_entry(headers@, k, header_value(t))
                    } else {
                        headers@
                    },
                ) && reads_until(s, crlf()),
            }
        },
        Phase::Body { method, target, headers, .. } => q is Finished && forwards(
            s,
            method,
            target@,
            headers@,
            t,
        ),
        Phase::Finished => q is Finished && s == Step::Abort(ProxyError::IncompleteData),
    }
}

/// A method token that names no served method aborts the connection at
/// once, and from there no input leads to a tunnel or to a forwarded
/// request: no upstream connection is ever made.
pub proof fn lemma_unsupported_method_never_connects(t: Seq<u8>, q: Phase, s: Step)
    requires
        method_of(t) is None,
        transition(Phase::Method, t, q, s),
    ensures
        s == Step::Abort(ProxyError::UnsupportedMethod),
        q is Finished,
        forall|t2: Seq<u8>, q2: Phase, s2: Step|
            #[trigger] transition(q, t2, q2, s2) ==> q2 is Finished && s2 is Abort,
{
}

/// A `CONNECT` request reads its target, then its headers, and only then
/// opens the tunnel to that target with the single `200 OK` reply; nothing
/// is relayed before that step.
pub proof fn lemma_connect_replies_then_tunnels(
    target: Seq<u8>,
    headers: Seq<u8>,
    q1: Phase,
    s1: Step,
    q2: Phase,
    s2: Step,
    q3: Phase,
    s3: Step,
)
    requires
        transition(Phase::Method, method_name(Method::Connect), q1, s1),
        transition(q1, target, q2, s2),
        transition(q2, headers, q3, s3),
    ensures
        reads_until(s1, request_line_end()),
        reads_until(s2, blank_line()),
        tunnels(s3, target),
        q3 is Finished,
{
    assert(method_of(method_name(Method::Connect)) == Some(Method::Connect));
}

/// When the header block ends and declares a body of `n > 0` bytes, exactly
/// `n` bytes are read from the client next, and the forwarded request is the
/// header part followed by exactly those bytes.
pub proof fn lemma_body_read_and_appended(
    p: Phase,
    m: Method,
    target: Seq<u8>,
    hs: Seq<(Seq<u8>, Seq<u8>)>,
    n: nat,
    q1: Phase,
    s1: Step,
    body: Seq<u8>,
    q2: Phase,
    s2: Step,
)
    requires
        in_headers(p, m, target, hs),
        declared_length(final_headers(hs)) == Ok::<nat, ProxyError>(n),
        n > 0,
        transition(p, Seq::empty(), q1, s1),
        transition(q1, body, q2, s2),
    ensures
        s1 == Step::ReadExact(n as usize),
        s2 matches Step::Forward { request, .. } && request@ == request_bytes(
            m,
            target_path(target),
            target_host(target),
            final_headers(hs),
            Seq::empty(),
        ) + body,
{
    let hs2 = final_headers(hs);
    let head = request_bytes(m, target_path(target), target_host(target), hs2, Seq::empty());
    assert(head + body =~= request_bytes(m, target_path(target), target_host(target), hs2, body));
}

/// The state of one client connection.
pub struct Session {
    phase: Phase,
}

impl Session {
    /// The phase the connection is in.
    pub closed spec fn phase(self) -> Phase {
        self.phase
    }

    #[verifier::type_invariant]
    closed spec fn inv(self) -> bool {
        match self.phase {
            Phase::Headers { headers, .. } => names_unique(headers@),
            Phase::Body { headers, .. } => names_unique(headers@),
            _ => true,
        }
    }

    pub fn new() -> (r: Self)
        ensures
            r.phase() is Method,
    {
        Session { phase: Phase::Method }
    }

    /// The first step of every connection: read the method token.
    pub fn first_step() -> (s: Step)
        ensures
            reads_until(s, sp()),
    {
        Step::ReadUntil(sp_bytes())
    }

    /// The client's input ended before the last step was done.
    pub fn on_end(&mut self) -> (s: Step)
        ensures
            final(self).phase() is Finished,
            s == Step::Abort(ProxyError::IncompleteData),
    {
        self.phase = Phase::Finished;
        Step::Abort(ProxyError::IncompleteData)
    }

    /// Takes the bytes that the last step read and decides the next step.
    pub fn on_token(&mut self, token: Vec<u8>) -> (s: Step)
        ensures
            transition(old(self).phase(), token@, final(self).phase(), s),
    {
        proof {
            use_type_invariant(&*self);
        }
        let mut phase = Phase::Finished;
        std::mem::swap(&mut self.phase, &mut phase);
        match phase {
            Phase::Method => match Method::from_token(token.as_slice()) {
                Err(e) => Step::Abort(e),
                Ok(Method::Connect) => {
                    self.phase = Phase::ConnectTarget;
                    Step::ReadUntil(request_line_end_bytes())
                },
                Ok(m) => {
                    self.phase = Phase::Target { method: m };
                    Step::ReadUntil(request_line_end_bytes())
                },
            },
            Phase::ConnectTarget => {
                self.phase = Phase::ConnectHeaders { target: token };
                Step::ReadUntil(blank_line_bytes())
            },
            Phase::ConnectHeaders { target } => Step::Tunnel { target, reply: tunnel_ok_bytes() },
            Phase::Target { method } => {
                self.phase = Phase::Headers { method, target: token, headers: HeaderMap::new() };
                Step::ReadUntil(crlf_bytes())
            },
            Phase::Headers { method, target, mut headers } => {
                if token.len() == 0 {
                    headers.insert(connection_name_bytes(), close_value_bytes());
                    match content_length(&headers) {
                        Err(e) => Step::Abort(e),
                        Ok(n) => {
                            if n == 0 {
                                forward(method, &target, &headers, &[])
                            } else {
                                self.phase = Phase::Body { method, target, headers, length: n };
                                Step::ReadExact(n)
                            }
                        },
                    }
                } else {
                    match parse_header_line(token) {
                        Err(e) => Step::Abort(e),
                        Ok((k, v)) => {
                            if is_forwarded(k.as_slice()) {
                                headers.insert(k, v);
                            }
                            self.phase = Phase::Headers { method, target, headers };
                            Step::ReadUntil(crlf_bytes())
                        },
                    }
                }
            },
            Phase::Body { method, target, headers, .. } => {
                forward(method, &target, &headers, token.as_slice())
            },
            Phase::Finished => Step::Abort(ProxyError::IncompleteData),
        }
    }
}

fn forward(m: Method, target: &Vec<u8>, hs: &HeaderMap, body: &[u8]) -> (s: Step)
    ensures
        forwards(s, m, target@, hs@, body@),
{
    let (host, path) = split_target(target.as_slice());
    let request = build_request(m, path.as_slice(), host.as_slice(), hs, body);
    Step::Forward { host, port: HTTP_PORT, request }
}

/// The size of the buffer each tunnel direction copies through.
pub const RELAY_BUFFER_SIZE: usize = 65536;

/// What one direction of a tunnel does after a read into its buffer.
#[derive(Debug, Clone, Copy, PartialEq, Eq, Structural)]
pub enum RelayStep {
    /// Write the first `n` bytes of the buffer to the other side, unchanged.
    Write(usize),
    /// The direction is done: the source ended or failed.
    Stop,
}

/// Decides a tunnel direction's next move from the outcome of a read:
/// `Some(n)` for `n` bytes read, `None` for a read error. A zero-length read
/// is the end of the stream.
pub fn relay_step(read: Option<usize>, buffer_len: usize) -> (r: RelayStep)
    ensures
        r == (match read {
            Some(n) => if 0 < n <= buffer_len {
                RelayStep::Write(n)
            } else {
                RelayStep::Stop
            },
            None => RelayStep::Stop,
        }),
{
    match read {
        Some(n) => if 0 < n && n <= buffer_len {
            RelayStep::Write(n)
        } else {
            RelayStep::Stop
        },
        None => RelayStep::Stop,
    }
}

} // verus!
