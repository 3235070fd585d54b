use minihttp::decoder::{parse_header_block, HeaderBlock};
use minihttp::error::to_io_error;
use minihttp::headers::parse_header_line;
use minihttp::line::{next_line, LineStep};
use minihttp::request_line::{parse_request_line, target_url};
use minihttp::{decode_request, Action, ConnState, Connection, Decoded, Limits, Method, ParserError, Request};

fn limits() -> Limits {
    Limits::default()
}

fn complete(input: &[u8]) -> (Request, usize) {
    match decode_request(input, false, &limits()) {
        Decoded::Complete(r, n) => (r, n),
        other => panic!("expected a request, got {:?}", other),
    }
}

fn failure(input: &[u8], at_eof: bool, lim: &Limits) -> ParserError {
    match decode_request(input, at_eof, lim) {
        Decoded::Failed(e) => e,
        other => panic!("expected a failure, got {:?}", other),
    }
}

#[test]
fn method_tokens_round_trip() {
    let all = [
        Method::Options,
        Method::Get,
        Method::Head,
        Method::Post,
        Method::Put,
        Method::Delete,
        Method::Trace,
        Method::Connect,
    ];
    for m in all {
        assert_eq!(Method::from_bytes(m.as_str().as_bytes()), Ok(m));
        assert_eq!(Method::from_bytes(&m.token()), Ok(m));
        assert_eq!(m.as_str().parse::<Method>(), Ok(m));
    }
    assert_eq!(Method::from_bytes(b"GET"), Ok(Method::Get));
    assert_eq!(Method::from_bytes(b"CONNECT"), Ok(Method::Connect));
}

#[test]
fn unknown_method_tokens_rejected() {
    for t in [&b"get"[..], b"BOGUS", b"", b"GETS", b"GE", b"PATCH", b" GET"] {
        assert_eq!(Method::from_bytes(t), Err(ParserError::InvalidMethod));
    }
    assert_eq!("Post".parse::<Method>(), Err(ParserError::InvalidMethod));
}

#[test]
fn too_few_tokens_is_malformed() {
    for line in [&b""[..], b"GET", b"GET /", b"BOGUS", b"GET/HTTP/1.1"] {
        assert!(matches!(parse_request_line(line), Err(ParserError::MalformedRequestLine)));
    }
}

#[test]
fn version_must_be_exact() {
    for line in [
        &b"GET / http/1.1"[..],
        b"GET / HTTP/1.1 ",
        b"GET / HTTP/1.1\t",
        b"GET / HTTP/1.0",
        b"GET / HTTP/2",
        b"GET / ",
    ] {
        assert!(matches!(parse_request_line(line), Err(ParserError::InvalidProtocol)));
    }
}

#[test]
fn request_line_fields() {
    let l = parse_request_line(b"POST /submit?x=1 HTTP/1.1").unwrap();
    assert_eq!(l.method, Method::Post);
    assert_eq!(l.target, b"/submit?x=1".to_vec());
    assert_eq!(l.url, "http://localhost/submit?x=1");
}

#[test]
fn method_checked_before_target_and_version() {
    assert!(matches!(parse_request_line(b"BOGUS / HTTP/1.0"), Err(ParserError::InvalidMethod)));
}

#[test]
fn target_resolution() {
    assert_eq!(target_url(b"/hello"), Some("http://localhost/hello".to_string()));
    assert_eq!(target_url(b"http://example.com/a"), Some("http://example.com/a".to_string()));
    assert_eq!(target_url(b"/a/../b"), Some("http://localhost/b".to_string()));
    assert_eq!(target_url(b"/a/./b/.."), Some("http://localhost/a/".to_string()));
    assert_eq!(target_url(b"/x?q=/../.."), Some("http://localhost/x?q=/../..".to_string()));
    assert_eq!(target_url(b"http://[::1"), None);
    assert_eq!(target_url(&[0x2f, 0xff, 0xfe]), None);
}

#[test]
fn dot_segments_above_root_rejected() {
    for t in [
        &b"/a/../../b"[..],
        b"/..",
        b"/../x",
        b"..",
        b"/%2e%2e/x",
        b"/.%2E/x",
        b"/a\\..\\..\\b",
        b"http://example.com/../x",
        b"//example.com/a/../../b",
    ] {
        assert_eq!(target_url(t), None);
    }
    assert!(matches!(parse_request_line(b"GET /a/../../b HTTP/1.1"), Err(ParserError::InvalidTarget)));
    assert_eq!(failure(b"GET /../etc HTTP/1.1\r\n\r\n", false, &limits()), ParserError::InvalidTarget);
}

#[test]
fn unresolvable_target_is_invalid() {
    assert!(matches!(parse_request_line(b"GET http://[::1 HTTP/1.1"), Err(ParserError::InvalidTarget)));
    assert!(matches!(parse_request_line(&[71, 69, 84, 32, 47, 0xff, 32, 72, 84, 84, 80, 47, 49, 46, 49]), Err(ParserError::InvalidTarget)));
}

#[test]
fn header_lookup_ignores_case() {
    let (req, _) = complete(b"GET / HTTP/1.1\r\nContent-Type: text/plain\r\n\r\n");
    assert_eq!(req.header(b"Content-Type"), Some(&b"text/plain"[..]));
    assert_eq!(req.header(b"content-type"), Some(&b"text/plain"[..]));
    assert_eq!(req.header(b"CONTENT-TYPE"), Some(&b"text/plain"[..]));
    assert_eq!(req.headers().name_at(0), b"content-type");
    assert_eq!(req.header(b"host"), None);
}

#[test]
fn empty_line_after_request_line_gives_no_headers() {
    let (req, n) = complete(b"GET / HTTP/1.1\r\n\r\n");
    assert!(req.headers().is_empty());
    assert_eq!(req.headers().len(), 0);
    assert_eq!(n, 18);
    let (req, n) = complete(b"HEAD /x HTTP/1.1\n\n");
    assert!(req.headers().is_empty());
    assert_eq!(req.method(), Method::Head);
    assert_eq!(n, 18);
}

#[test]
fn eof_before_request_line_terminator() {
    assert_eq!(failure(b"GET / HTTP/1.1", true, &limits()), ParserError::UnexpectedEof);
    assert_eq!(failure(b"", true, &limits()), ParserError::UnexpectedEof);
    assert!(matches!(decode_request(b"GET / HTTP/1.1", false, &limits()), Decoded::Incomplete));
    assert_eq!(failure(b"GET /\r\n\r\n", true, &limits()), ParserError::MalformedRequestLine);
}

#[test]
fn eof_inside_header_block() {
    assert_eq!(failure(b"GET / HTTP/1.1\r\nHost: x\r\n", true, &limits()), ParserError::UnexpectedEof);
    assert!(matches!(decode_request(b"GET / HTTP/1.1\r\nHost: x\r\n", false, &limits()), Decoded::Incomplete));
}

#[test]
fn header_block_byte_bound() {
    let lim = Limits::new(8192, 100, 16);
    assert_eq!(
        failure(b"GET / HTTP/1.1\r\nX-Long: aaaaaaaaaaaaaaaaaaaa\r\n\r\n", false, &lim),
        ParserError::HeadersTooLarge
    );
    assert_eq!(failure(b"GET / HTTP/1.1\r\nX-Long: aaaaaaaaaaaa", false, &lim), ParserError::HeadersTooLarge);
    let mut conn = Connection::new(lim);
    let a = conn.on_input(b"GET / HTTP/1.1\r\nX-Long: aaaaaaaaaaaaaaaaaaaa\r\n\r\n");
    assert!(matches!(a, Action::Close(Some(ParserError::HeadersTooLarge))));
    assert_eq!(conn.state(), ConnState::Closed);
    assert!(matches!(conn.on_input(b"more"), Action::Close(None)));
}

#[test]
fn header_block_at_the_bound_is_accepted() {
    let lim = Limits::new(8192, 100, 9);
    match decode_request(b"GET / HTTP/1.1\r\nA: bc\r\n\r\n", false, &lim) {
        Decoded::Complete(req, n) => {
            assert_eq!(req.header(b"a"), Some(&b"bc"[..]));
            assert_eq!(n, 25);
        },
        other => panic!("unexpected {:?}", other),
    }
    assert_eq!(
        failure(b"GET / HTTP/1.1\r\nA: bcd\r\n\r\n", false, &lim),
        ParserError::HeadersTooLarge
    );
}

#[test]
fn header_count_bound() {
    let lim = Limits::new(8192, 2, 65536);
    assert_eq!(failure(b"GET / HTTP/1.1\r\nA: 1\r\nB: 2\r\nC: 3\r\n\r\n", false, &lim), ParserError::HeadersTooLarge);
    assert!(matches!(decode_request(b"GET / HTTP/1.1\r\nA: 1\r\nB: 2\r\n\r\n", false, &lim), Decoded::Complete(_, _)));
}

#[test]
fn overlong_line_is_malformed() {
    let lim = Limits::new(10, 100, 65536);
    assert_eq!(failure(b"GET /abcdefgh HTTP/1.1\r\n\r\n", false, &lim), ParserError::MalformedLine);
    assert_eq!(failure(b"GET /abcdefgh", false, &lim), ParserError::MalformedLine);
    let lim = Limits::new(16, 100, 65536);
    assert_eq!(failure(b"GET / HTTP/1.1\r\nX: aaaaaaaaaaaaaaaaaaaa\r\n\r\n", false, &lim), ParserError::MalformedLine);
}

#[test]
fn header_without_colon_is_malformed() {
    assert_eq!(failure(b"GET / HTTP/1.1\r\nHost x\r\n\r\n", false, &limits()), ParserError::MalformedHeader);
    assert!(matches!(parse_header_line(b"no colon here"), Err(ParserError::MalformedHeader)));
}

#[test]
fn header_name_and_value_trimmed() {
    let (n, v) = parse_header_line(b"  X-Thing \t:   a  b \t").unwrap();
    assert_eq!(n, b"x-thing".to_vec());
    assert_eq!(v, b"a  b".to_vec());
    let (n, v) = parse_header_line(b"Empty:").unwrap();
    assert_eq!(n, b"empty".to_vec());
    assert_eq!(v, b"".to_vec());
    let (n, v) = parse_header_line(b"Time: 12:30").unwrap();
    assert_eq!(n, b"time".to_vec());
    assert_eq!(v, b"12:30".to_vec());
}

#[test]
fn repeated_headers_are_joined() {
    let (req, _) = complete(b"GET / HTTP/1.1\r\nAccept: a\r\nHost: h\r\naccept: b\r\n\r\n");
    assert_eq!(req.header(b"accept"), Some(&b"a, b"[..]));
    assert_eq!(req.headers().len(), 2);
    assert_eq!(req.headers().name_at(0), b"accept");
    assert_eq!(req.headers().name_at(1), b"host");
    assert_eq!(req.headers().value_at(1), b"h");
}

#[test]
fn header_block_from_offset() {
    let input = b"GET / HTTP/1.1\r\nHost: x\r\n\r\nbody";
    match parse_header_block(input, 16, false, &limits()) {
        HeaderBlock::Complete(m, n) => {
            assert_eq!(m.get(b"HOST"), Some(&b"x"[..]));
            assert_eq!(n, 27);
        },
        other => panic!("unexpected {:?}", other),
    }
}

#[test]
fn line_bound_excludes_terminator() {
    let lim = Limits::new(14, 100, 65536);
    assert!(matches!(decode_request(b"GET / HTTP/1.1\r\n\r\n", false, &lim), Decoded::Complete(_, 18)));
    assert!(matches!(decode_request(b"GET / HTTP/1.1\n\n", false, &lim), Decoded::Complete(_, 16)));
    assert!(matches!(decode_request(b"GET / HTTP/1.1\r", false, &lim), Decoded::Incomplete));
    let lim = Limits::new(13, 100, 65536);
    assert_eq!(failure(b"GET / HTTP/1.1\r\n\r\n", false, &lim), ParserError::MalformedLine);
    assert_eq!(failure(b"GET / HTTP/1.1\n\n", false, &lim), ParserError::MalformedLine);
    assert_eq!(failure(b"GET / HTTP/1.1\r", false, &lim), ParserError::MalformedLine);
}

#[test]
fn line_terminators() {
    assert_eq!(next_line(b"ab\r\ncd", 0, false, 100), LineStep::Line { end: 2, next: 4 });
    assert_eq!(next_line(b"ab\ncd", 0, false, 100), LineStep::Line { end: 2, next: 3 });
    assert_eq!(next_line(b"ab\ncd", 3, false, 100), LineStep::NeedMore);
    assert_eq!(next_line(b"ab\ncd", 3, true, 100), LineStep::End);
    assert_eq!(next_line(b"\r\n", 0, true, 100), LineStep::Line { end: 0, next: 2 });
    assert_eq!(next_line(b"abcdef\n", 0, false, 3), LineStep::TooLong);
    assert_eq!(next_line(b"abc\r\n", 0, false, 3), LineStep::Line { end: 3, next: 5 });
    assert_eq!(next_line(b"abc\r", 0, false, 3), LineStep::NeedMore);
}

#[test]
fn end_to_end_get_hello() {
    let (req, n) = complete(b"GET /hello HTTP/1.1\r\nHost: x\r\n\r\n");
    assert_eq!(req.method(), Method::Get);
    assert_eq!(req.target(), b"/hello");
    assert_eq!(req.version(), "HTTP/1.1");
    assert_eq!(req.url(), "http://localhost/hello");
    assert_eq!(req.headers().len(), 1);
    assert_eq!(req.headers().name_at(0), b"host");
    assert_eq!(req.headers().value_at(0), b"x");
    assert_eq!(req.header(b"host"), Some(&b"x"[..]));
    assert_eq!(n, 32);
}

#[test]
fn end_to_end_bogus_method_closes() {
    let input = b"BOGUS / HTTP/1.1\r\n\r\n";
    assert_eq!(failure(input, false, &limits()), ParserError::InvalidMethod);
    let mut conn = Connection::new(limits());
    let a = conn.on_input(input);
    assert!(matches!(a, Action::Close(Some(ParserError::InvalidMethod))));
    assert_eq!(conn.state(), ConnState::Closed);
}

#[test]
fn connection_lifecycle_in_chunks() {
    let mut conn = Connection::new(limits());
    assert_eq!(conn.state(), ConnState::Decoding);
    assert!(matches!(conn.on_input(b"GET /hel"), Action::ReadMore));
    assert!(matches!(conn.on_input(b"lo HTTP/1.1\r\nHo"), Action::ReadMore));
    assert_eq!(conn.state(), ConnState::Decoding);
    match conn.on_input(b"st: x\r\n\r\n") {
        Action::Respond(req) => {
            assert_eq!(req.target(), b"/hello");
            assert_eq!(req.header(b"Host"), Some(&b"x"[..]));
        },
        other => panic!("unexpected {:?}", other),
    }
    assert_eq!(conn.state(), ConnState::Responding);
    assert!(matches!(conn.on_written(), Action::Close(None)));
    assert_eq!(conn.state(), ConnState::Closed);
}

#[test]
fn connection_eof_paths() {
    let mut conn = Connection::new(limits());
    assert!(matches!(conn.on_input(b"GET / HTTP/1.1\r\n"), Action::ReadMore));
    assert!(matches!(conn.on_eof(), Action::Close(Some(ParserError::UnexpectedEof))));
    assert_eq!(conn.state(), ConnState::Closed);

    let mut conn = Connection::new(limits());
    assert!(matches!(conn.on_eof(), Action::Close(Some(ParserError::UnexpectedEof))));

    let mut conn = Connection::new(limits());
    assert!(matches!(conn.on_input(b"GET / HTTP/1.1\r\n\r"), Action::ReadMore));
    assert!(matches!(conn.on_eof(), Action::Close(Some(ParserError::UnexpectedEof))));

    let mut conn = Connection::new(limits());
    conn.close();
    assert_eq!(conn.state(), ConnState::Closed);
    assert!(matches!(conn.on_eof(), Action::Close(None)));
}

#[test]
fn default_limits() {
    let l = Limits::default();
    assert_eq!(l.max_line, 8192);
    assert_eq!(l.max_headers, 100);
    assert_eq!(l.max_header_bytes, 65536);
}

#[test]
fn method_text_and_version() {
    assert_eq!(Method::Delete.as_str(), "DELETE");
    assert_eq!(Method::Options.as_str(), "OPTIONS");
    let (req, _) = complete(b"PUT /x HTTP/1.1\r\n\r\n");
    assert_eq!(req.version(), "HTTP/1.1");
    assert_eq!(req.method().as_str(), "PUT");
}

#[test]
fn from_str_cases() {
    assert_eq!("GET".parse::<Method>(), Ok(Method::Get));
    assert_eq!("CONNECT".parse::<Method>(), Ok(Method::Connect));
    for t in ["get", "Get", "BOGUS", "GET ", ""] {
        assert_eq!(t.parse::<Method>(), Err(ParserError::InvalidMethod));
    }
}

#[test]
fn header_bytes_crossed_by_whole_lines() {
    let lim = Limits::new(8192, 100, 20);
    assert_eq!(
        failure(b"GET / HTTP/1.1\r\nA: 1\r\nB: 2\r\nC: 3\r\nD: 4\r\n\r\n", false, &lim),
        ParserError::HeadersTooLarge
    );
}

#[test]
fn errors_describe_themselves() {
    assert_eq!(ParserError::InvalidMethod.message(), "invalid method");
    assert_eq!(ParserError::UnexpectedEof.message(), "unexpected EOF");
    let e = to_io_error(ParserError::InvalidProtocol);
    assert_eq!(e.kind(), std::io::ErrorKind::InvalidData);
    assert_eq!(e.to_string(), "invalid protocol version");
}
