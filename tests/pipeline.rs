use http_proxy::headers::{build_request, content_length, parse_decimal, HeaderMap};
use http_proxy::http::{is_forwarded, parse_header_line, split_target, Method};
use http_proxy::session::{relay_step, RelayStep, Session, Step, HTTP_PORT};
use http_proxy::wire::bad_request_bytes;
use http_proxy::ProxyError;

/// Runs a whole client request through a session, as the connection
/// handler does, and returns the final step and the number of body bytes read.
fn drive(input: &[u8]) -> (Step, usize) {
    let mut session = Session::new();
    let mut step = Session::first_step();
    let mut pos = 0usize;
    let mut body_read = 0usize;
    loop {
        match step {
            Step::ReadUntil(d) => {
                let rest = &input[pos..];
                match rest.windows(d.len()).position(|w| w == d.as_slice()) {
                    Some(i) => {
                        let token = rest[..i].to_vec();
                        pos += i + d.len();
                        step = session.on_token(token);
                    }
                    None => step = session.on_end(),
                }
            }
            Step::ReadExact(n) => {
                if input.len() - pos < n {
                    step = session.on_end();
                } else {
                    let token = input[pos..pos + n].to_vec();
                    pos += n;
                    body_read += n;
                    step = session.on_token(token);
                }
            }
            other => return (other, body_read),
        }
    }
}

#[test]
fn method_tokens_are_classified() {
    assert_eq!(Method::from_token(b"CONNECT"), Ok(Method::Connect));
    assert_eq!(Method::from_token(b"GET"), Ok(Method::Get));
    assert_eq!(Method::from_token(b"POST"), Ok(Method::Post));
    assert_eq!(Method::from_token(b"PUT"), Ok(Method::Put));
    assert_eq!(Method::from_token(b"PATCH"), Ok(Method::Patch));
    assert_eq!(Method::from_token(b"DELETE"), Ok(Method::Delete));
    assert_eq!(Method::from_token(b"TRACE"), Err(ProxyError::UnsupportedMethod));
    assert_eq!(Method::from_token(b"get"), Err(ProxyError::UnsupportedMethod));
    assert_eq!(Method::Patch.name(), b"PATCH".to_vec());
}

#[test]
fn header_lines_split_on_first_colon() {
    let (k, v) = parse_header_line(b"Host:   example.test:8080".to_vec()).unwrap();
    assert_eq!(k, b"Host".to_vec());
    assert_eq!(v, b"example.test:8080".to_vec());
    let (k, v) = parse_header_line(b"X-Empty:".to_vec()).unwrap();
    assert_eq!(k, b"X-Empty".to_vec());
    assert_eq!(v, Vec::<u8>::new());
    assert_eq!(parse_header_line(b"no colon".to_vec()), Err(ProxyError::IncompleteData));
}

#[test]
fn proxy_and_hop_headers_are_filtered() {
    assert!(!is_forwarded(b"Host"));
    assert!(!is_forwarded(b"HOST"));
    assert!(!is_forwarded(b"Proxy-Authorization"));
    assert!(!is_forwarded(b"proxy-foo"));
    assert!(!is_forwarded(b"Connection"));
    assert!(is_forwarded(b"Accept"));
    assert!(is_forwarded(b"Proxy"));
    assert!(is_forwarded(b"Hosts"));
}

#[test]
fn header_map_replaces_in_place() {
    let mut hs = HeaderMap::new();
    hs.insert(b"A".to_vec(), b"1".to_vec());
    hs.insert(b"B".to_vec(), b"2".to_vec());
    hs.insert(b"A".to_vec(), b"3".to_vec());
    assert_eq!(hs.len(), 2);
    assert_eq!(hs.entry(0), &(b"A".to_vec(), b"3".to_vec()));
    assert_eq!(hs.get(b"B"), Some(&b"2".to_vec()));
    assert_eq!(hs.get(b"a"), None);
}

#[test]
fn decimal_parsing() {
    assert_eq!(parse_decimal(b"0"), Some(0));
    assert_eq!(parse_decimal(b"5"), Some(5));
    assert_eq!(parse_decimal(b"1234"), Some(1234));
    assert_eq!(parse_decimal(b""), None);
    assert_eq!(parse_decimal(b"12a"), None);
    assert_eq!(parse_decimal(b"-1"), None);
    assert_eq!(parse_decimal(b"18446744073709551615"), Some(usize::MAX));
    assert_eq!(parse_decimal(b"18446744073709551616"), None);
}

#[test]
fn content_length_from_headers() {
    let mut hs = HeaderMap::new();
    assert_eq!(content_length(&hs), Ok(0));
    hs.insert(b"Content-Length".to_vec(), b"42".to_vec());
    assert_eq!(content_length(&hs), Ok(42));
    hs.insert(b"Content-Length".to_vec(), b"forty".to_vec());
    assert_eq!(content_length(&hs), Err(ProxyError::MalformedContentLength));
}

#[test]
fn targets_split_into_host_and_path() {
    assert_eq!(
        split_target(b"http://example.test/a/b?c"),
        (b"example.test".to_vec(), b"/a/b?c".to_vec())
    );
    assert_eq!(split_target(b"http://example.test"), (b"example.test".to_vec(), b"/".to_vec()));
    assert_eq!(split_target(b"example.test/x"), (b"example.test".to_vec(), b"/x".to_vec()));
    assert_eq!(split_target(b"http://h/"), (b"h".to_vec(), b"/".to_vec()));
    assert_eq!(split_target(b"h/x://y"), (b"h".to_vec(), b"/x://y".to_vec()));
    assert_eq!(split_target(b"svn+ssh://h/p"), (b"h".to_vec(), b"/p".to_vec()));
    assert_eq!(split_target(b"://h/p"), (b":".to_vec(), b"//h/p".to_vec()));
}

#[test]
fn request_is_assembled_in_order() {
    let mut hs = HeaderMap::new();
    hs.insert(b"Accept".to_vec(), b"*/*".to_vec());
    hs.insert(b"Connection".to_vec(), b"close".to_vec());
    let r = build_request(Method::Post, b"/p", b"h.test", &hs, b"xy");
    assert_eq!(
        r,
        b"POST /p HTTP/1.1\r\nHost: h.test\r\nAccept: */*\r\nConnection: close\r\n\r\nxy".to_vec()
    );
}

#[test]
fn connect_replies_ok_then_tunnels() {
    let (step, _) = drive(b"CONNECT example.test:443 HTTP/1.1\r\nHost: x\r\nUser-Agent: y\r\n\r\n");
    match step {
        Step::Tunnel { target, reply } => {
            assert_eq!(target, b"example.test:443".to_vec());
            assert_eq!(reply, b"HTTP/1.1 200 OK\r\n\r\n".to_vec());
        }
        _ => panic!("expected a tunnel"),
    }
}

#[test]
fn get_is_rewritten_for_the_origin() {
    let (step, body_read) =
        drive(b"GET http://example.test/path HTTP/1.1\r\nHost: ignored\r\nProxy-Foo: x\r\n\r\n");
    assert_eq!(body_read, 0);
    match step {
        Step::Forward { host, port, request } => {
            assert_eq!(host, b"example.test".to_vec());
            assert_eq!(port, HTTP_PORT);
            assert_eq!(port, 80);
            assert_eq!(
                request,
                b"GET /path HTTP/1.1\r\nHost: example.test\r\nConnection: close\r\n\r\n".to_vec()
            );
        }
        _ => panic!("expected a forwarded request"),
    }
}

#[test]
fn body_of_declared_length_is_appended() {
    let (step, body_read) = drive(
        b"POST http://example.test/up HTTP/1.1\r\nContent-Length: 5\r\nAccept: */*\r\n\r\nhelloEXTRA",
    );
    assert_eq!(body_read, 5);
    match step {
        Step::Forward { host, request, .. } => {
            assert_eq!(host, b"example.test".to_vec());
            assert_eq!(
                request,
                b"POST /up HTTP/1.1\r\nHost: example.test\r\nContent-Length: 5\r\nAccept: */*\r\nConnection: close\r\n\r\nhello"
                    .to_vec()
            );
        }
        _ => panic!("expected a forwarded request"),
    }
}

#[test]
fn scheme_separator_inside_path_is_kept() {
    let (step, _) = drive(b"GET h/x://y HTTP/1.1\r\n\r\n");
    match step {
        Step::Forward { host, request, .. } => {
            assert_eq!(host, b"h".to_vec());
            assert_eq!(
                request,
                b"GET /x://y HTTP/1.1\r\nHost: h\r\nConnection: close\r\n\r\n".to_vec()
            );
        }
        _ => panic!("expected a forwarded request"),
    }
}

#[test]
fn unsupported_method_aborts_without_upstream() {
    let (step, _) = drive(b"TRACE http://example.test/ HTTP/1.1\r\n\r\n");
    assert!(matches!(step, Step::Abort(ProxyError::UnsupportedMethod)));
}

#[test]
fn malformed_content_length_aborts() {
    let (step, _) = drive(b"PUT http://h/ HTTP/1.1\r\nContent-Length: abc\r\n\r\n");
    assert!(matches!(step, Step::Abort(ProxyError::MalformedContentLength)));
}

#[test]
fn truncated_request_aborts() {
    let (step, _) = drive(b"GET http://h/ HTTP/1.1\r\nAccept: x");
    assert!(matches!(step, Step::Abort(ProxyError::IncompleteData)));
    let (step, _) = drive(b"POST http://h/ HTTP/1.1\r\nContent-Length: 9\r\n\r\nshort");
    assert!(matches!(step, Step::Abort(ProxyError::IncompleteData)));
}

#[test]
fn header_line_without_colon_aborts() {
    let (step, _) = drive(b"GET http://h/ HTTP/1.1\r\nbroken\r\n\r\n");
    assert!(matches!(step, Step::Abort(ProxyError::IncompleteData)));
}

#[test]
fn finished_session_only_aborts() {
    let mut session = Session::new();
    let step = session.on_token(b"TRACE".to_vec());
    assert!(matches!(step, Step::Abort(ProxyError::UnsupportedMethod)));
    let step = session.on_token(b"anything".to_vec());
    assert!(matches!(step, Step::Abort(ProxyError::IncompleteData)));
}

#[test]
fn relay_decisions() {
    assert_eq!(relay_step(Some(10), 65536), RelayStep::Write(10));
    assert_eq!(relay_step(Some(0), 65536), RelayStep::Stop);
    assert_eq!(relay_step(None, 65536), RelayStep::Stop);
    assert_eq!(relay_step(Some(70000), 65536), RelayStep::Stop);
}

#[test]
fn bad_request_reply_bytes() {
    assert_eq!(bad_request_bytes(), b"HTTP/1.1 400 Bad Request\r\n\r\n".to_vec());
}
