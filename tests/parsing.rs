use http_server::body::Body;
use http_server::error::{ErrorKind, RequestError};
use http_server::headers::{Header, HeaderName, HeaderValue, Headers};
use http_server::method::{HttpMethod, Method};
use http_server::path::Path;
use http_server::request::{Request, RequestLine};
use http_server::version::{HttpVersion, Version};

fn make_expected_headers() -> Headers {
    Headers::default()
        .set_host("localhost:4221")
        .set_user_agent("curl/7.64.1")
        .set_accept("*/*")
}

#[test]
fn request_line_get_index_http_1_1() {
    let expected_request_line = RequestLine::new(
        HttpMethod::Get,
        String::from("/index.html"),
        Version::OnePointOne,
    );
    let request_line = RequestLine::try_from("GET /index.html HTTP/1.1")
        .expect("Valid request line is parsed successfully");
    assert_eq!(request_line, expected_request_line);
}

#[test]
fn parse_request_line() {
    let bytes = b"GET / HTTP/1.1\r\n\r\n";
    let expected_headers = Headers::default();
    let expected_request = Request::new(
        Method::Get,
        Path::new("/"),
        Version::OnePointOne,
        expected_headers,
        None,
    );

    let (remainder, request) = Request::parse(bytes).expect("Cannot parse bytes");

    assert!(remainder.is_empty());
    assert_eq!(request, expected_request);
}

#[test]
fn parse_request_line_and_headers() {
    let bytes = b"GET /index.html HTTP/1.1\r\nHost: localhost:4221\r\nUser-Agent: curl/7.64.1\r\nAccept: */*\r\n\r\n";

    let expected_headers = make_expected_headers();
    let expected_request = Request::new(
        Method::Get,
        Path::new("/index.html"),
        Version::OnePointOne,
        expected_headers,
        None,
    );

    let (remainder, request) = Request::parse(bytes).expect("Cannot parse bytes");

    assert!(remainder.is_empty());
    assert_eq!(request, expected_request);
}

#[test]
fn parse_valid_request_without_body() {
    let expected_headers = {
        let mut expected_headers: std::collections::HashMap<HeaderName, HeaderValue> =
            std::collections::HashMap::default();
        expected_headers.insert(HeaderName::Host, HeaderValue::new("localhost:4221"));
        expected_headers.insert(HeaderName::UserAgent, HeaderValue::new("curl/7.64.1"));
        expected_headers.insert(HeaderName::Accept, HeaderValue::new("*/*"));
        Headers::new(
            expected_headers
                .into_iter()
                .map(|(n, v)| Header::new(n, v))
                .collect(),
        )
    };

    let expected_request = Request::new(
        HttpMethod::Get,
        Path::new("/index.html"),
        HttpVersion::OnePointOne,
        expected_headers,
        None,
    );

    let request = Request::try_from("GET /index.html HTTP/1.1\r\nHost: localhost:4221\r\nUser-Agent: curl/7.64.1\r\nAccept: */*\r\n\r\n").expect("Test string is valid");

    assert_eq!(request, expected_request);
}

#[test]
fn parse_valid_index_request_without_body() {
    let expected_headers = make_expected_headers();

    let expected_request = Request::new(
        HttpMethod::Get,
        Path::new("/index.html"),
        HttpVersion::OnePointOne,
        expected_headers,
        None,
    );

    let request = Request::try_from("GET /index.html HTTP/1.1\r\nHost: localhost:4221\r\nUser-Agent: curl/7.64.1\r\nAccept: */*\r\n\r\n").expect("Test string is valid");

    assert_eq!(request, expected_request);
}

#[test]
fn parse_valid_echo_request_without_body() {
    let expected_headers = make_expected_headers();

    let expected_request = Request::new(
        HttpMethod::Get,
        Path::new("/echo/abc"),
        HttpVersion::OnePointOne,
        expected_headers,
        None,
    );

    let request = Request::try_from("GET /echo/abc HTTP/1.1\r\nHost: localhost:4221\r\nUser-Agent: curl/7.64.1\r\nAccept: */*\r\n\r\n").expect("Test string is valid");

    assert_eq!(request, expected_request);
}

#[test]
fn parse_consumes_exactly_one_request_with_its_body() {
    let bytes = b"POST /files/a HTTP/1.1\r\nContent-Length: 5\r\n\r\nhelloGET / HTTP/1.1\r\n\r\n";
    let (remainder, request) = Request::parse(bytes).expect("valid request");
    assert_eq!(remainder, b"GET / HTTP/1.1\r\n\r\n");
    assert_eq!(request.method(), Method::Post);
    assert_eq!(request.target().as_str(), "/files/a");
    assert_eq!(request.body(), Some(&Body::OctetStream(b"hello".to_vec())));

    let (remainder, request) = Request::parse(remainder).expect("valid request");
    assert!(remainder.is_empty());
    assert_eq!(request.target().as_str(), "/");
    assert_eq!(request.body(), None);
}

#[test]
fn parse_leaves_bytes_after_a_bodyless_request() {
    let bytes = b"HEAD /x HTTP/1.1\r\nHost: h\r\n\r\n\x00\xffrest";
    let (remainder, request) = Request::parse(bytes).expect("valid request");
    assert_eq!(remainder, b"\x00\xffrest");
    assert_eq!(request.method(), Method::Head);
    assert_eq!(request.version(), Version::OnePointOne);
}

#[test]
fn non_numeric_content_length_means_no_body() {
    let bytes = b"GET / HTTP/1.1\r\nContent-Length: five\r\n\r\nabc";
    let (remainder, request) = Request::parse(bytes).expect("valid request");
    assert_eq!(request.body(), None);
    assert_eq!(remainder, b"abc");
}

#[test]
fn zero_content_length_gives_an_empty_body() {
    let bytes = b"GET / HTTP/1.1\r\nContent-Length: 0\r\n\r\n";
    let (remainder, request) = Request::parse(bytes).expect("valid request");
    assert!(remainder.is_empty());
    assert_eq!(request.body().map(|b| b.len()), Some(0));
}

#[test]
fn all_methods_are_recognised() {
    let cases = [
        ("GET", Method::Get),
        ("HEAD", Method::Head),
        ("POST", Method::Post),
        ("PUT", Method::Put),
        ("DELETE", Method::Delete),
        ("CONNECT", Method::Connect),
        ("OPTIONS", Method::Options),
        ("TRACE", Method::Trace),
    ];
    for (token, method) in cases {
        assert_eq!(Method::parse(token.as_bytes()), Ok(method));
        assert_eq!(method.to_bytes(), token.as_bytes().to_vec());
    }
}

fn error_of(bytes: &[u8]) -> RequestError {
    Request::parse(bytes).expect_err("the request is rejected")
}

#[test]
fn unknown_method_is_rejected() {
    assert_eq!(
        error_of(b"get / HTTP/1.1\r\n\r\n"),
        RequestError::UnknownMethod(b"get".to_vec())
    );
}

#[test]
fn empty_target_is_rejected() {
    assert_eq!(
        error_of(b"GET  HTTP/1.1\r\n\r\n"),
        RequestError::InvalidTarget(Vec::new())
    );
}

#[test]
fn unrecognized_version_is_rejected() {
    assert_eq!(
        error_of(b"GET / HTTP/1.2\r\n\r\n"),
        RequestError::UnrecognizedVersion(b"HTTP/1.2".to_vec())
    );
}

#[test]
fn unsupported_versions_are_rejected() {
    assert_eq!(
        error_of(b"GET / HTTP/0.9\r\n\r\n"),
        RequestError::UnsupportedVersion(b"HTTP/0.9".to_vec())
    );
    assert_eq!(
        error_of(b"GET / HTTP/1.0\r\n\r\n"),
        RequestError::UnsupportedVersion(b"HTTP/1.0".to_vec())
    );
    assert_eq!(Version::parse(b"HTTP/1.1"), Ok(Version::OnePointOne));
    assert_eq!(
        error_of(b"GET / HTTP/2\r\n\r\n"),
        RequestError::UnsupportedVersion(b"HTTP/2".to_vec())
    );
    assert_eq!(
        error_of(b"GET / HTTP/3\r\n\r\n"),
        RequestError::UnsupportedVersion(b"HTTP/3".to_vec())
    );
}

#[test]
fn request_line_with_two_tokens_is_malformed() {
    assert_eq!(
        error_of(b"GET /\r\n\r\n"),
        RequestError::MalformedRequestLine(b"GET /".to_vec())
    );
    assert_eq!(
        error_of(b"GET / HTTP/1.1 extra\r\n\r\n").kind(),
        ErrorKind::MalformedRequestLine
    );
}

#[test]
fn header_line_without_colon_is_malformed() {
    assert_eq!(
        error_of(b"GET / HTTP/1.1\r\nHost localhost\r\n\r\n"),
        RequestError::MalformedHeaderLine(b"Host localhost".to_vec())
    );
}

#[test]
fn unknown_header_name_is_rejected() {
    assert_eq!(
        error_of(b"GET / HTTP/1.1\r\nX-Custom: 1\r\n\r\n"),
        RequestError::UnknownHeaderName(b"X-Custom".to_vec())
    );
}

#[test]
fn short_body_is_truncated_and_needs_more_input() {
    let err = error_of(b"POST / HTTP/1.1\r\nContent-Length: 10\r\n\r\nabc");
    assert_eq!(err, RequestError::TruncatedBody(b"abc".to_vec()));
    assert!(err.needs_more_input());
}

#[test]
fn huge_content_length_is_truncated() {
    let err = error_of(b"POST / HTTP/1.1\r\nContent-Length: 99999999999999999999999\r\n\r\nabc");
    assert_eq!(err.kind(), ErrorKind::TruncatedBody);
}

#[test]
fn invalid_utf8_is_rejected() {
    assert_eq!(
        error_of(b"GET /\xff HTTP/1.1\r\n\r\n"),
        RequestError::InvalidUtf8(b"/\xff".to_vec())
    );
    assert_eq!(
        error_of(b"GET / HTTP/1.1\r\nHost: \xc3\r\n\r\n"),
        RequestError::InvalidUtf8(b"\xc3".to_vec())
    );
}

#[test]
fn unterminated_head_is_incomplete() {
    for bytes in [
        &b""[..],
        b"GET / HTTP/1.1",
        b"GET / HTTP/1.1\r\n",
        b"GET / HTTP/1.1\r\nHost: x\r\n",
        b"GET / HTTP/1.1\r\nHost: x\r\n\r",
    ] {
        let err = error_of(bytes);
        assert_eq!(err, RequestError::Incomplete);
        assert!(err.needs_more_input());
    }
    assert!(!RequestError::UnknownMethod(Vec::new()).needs_more_input());
}

#[test]
fn utf8_target_is_decoded() {
    let (_, request) = Request::parse("GET /echo/h\u{e9}llo HTTP/1.1\r\n\r\n".as_bytes())
        .expect("valid request");
    assert_eq!(request.target().as_str(), "/echo/h\u{e9}llo");
}

#[test]
fn path_prefix_operations() {
    let path = Path::new("/echo/abc");
    assert!(path.starts_with("/echo/"));
    assert!(!path.starts_with("/files/"));
    assert_eq!(path.strip_prefix("/echo/"), Some(Path::new("abc")));
    assert_eq!(path.strip_prefix("/files/"), None);
    assert!(path.equals("/echo/abc"));
    assert!(!path.equals("/echo/ab"));
    assert_eq!(Path::new("/\u{e9}t\u{e9}").strip_prefix("/\u{e9}"), Some(Path::new("t\u{e9}")));
}
