use std::collections::HashMap;

use http_server::headers::{ContentType, Header, HeaderName, HeaderValue, Headers};

#[test]
fn deserialise_empty_headers() {
    let bytes = b"\r\n";
    let expected_headers = Headers::default();

    let (remainder, headers) = Headers::parse(bytes).expect("\\r\\n is a valid sequence of headers");

    assert!(remainder.is_empty());
    assert_eq!(headers, expected_headers);
}

#[test]
fn deserialise_host_header() {
    let bytes = b"Host: localhost:4221\r\n";
    let expected_header = Header::new(HeaderName::Host, HeaderValue::new("localhost:4221"));

    let (remainder, header) = Header::parse(bytes).expect("Host: localhost:4221 is a valid header");

    assert!(remainder.is_empty());
    assert_eq!(header, expected_header);
}

#[test]
fn deserialise_valid_request_headers() {
    let bytes = b"Host: localhost:4221\r\nUser-Agent: curl/7.64.1\r\nAccept: */*\r\n\r\n";
    let expected_headers = Headers::default()
        .set_host("localhost:4221")
        .set_user_agent("curl/7.64.1")
        .set_accept("*/*");

    let (remainder, headers) = Headers::parse(bytes).expect("valid sequence of headers");

    assert!(remainder.is_empty());
    assert_eq!(headers, expected_headers);
}

#[test]
fn headers_serialize_deserialize_valid_request_headers() {
    let headers = Headers::default()
        .set_host("localhost:4221")
        .set_user_agent("curl/7.64.1")
        .set_accept("*/*");

    let serialized_headers = headers.to_string();

    let deserialized_headers =
        Headers::try_from(serialized_headers.as_str()).expect("Serialized headers are valid");

    assert_eq!(headers, deserialized_headers);
}

#[test]
fn headers_serialize_deserialize_valid_response_headers() {
    let headers = Headers::default()
        .set_content_type(ContentType::Text)
        .set_content_length(3);

    let serialized_headers = headers.to_string();

    let deserialized_headers =
        Headers::try_from(serialized_headers.as_str()).expect("Serialized headers are valid");

    assert_eq!(headers, deserialized_headers);
}

#[test]
fn headers_from_a_map_equal_headers_from_setters() {
    let mut map: HashMap<HeaderName, HeaderValue> = HashMap::default();
    map.insert(HeaderName::Host, HeaderValue::new("localhost:4221"));
    map.insert(HeaderName::UserAgent, HeaderValue::new("curl/7.64.1"));
    map.insert(HeaderName::Accept, HeaderValue::new("*/*"));
    let from_map = Headers::new(map.into_iter().map(|(n, v)| Header::new(n, v)).collect());

    let from_setters = Headers::default()
        .set_host("localhost:4221")
        .set_user_agent("curl/7.64.1")
        .set_accept("*/*");

    assert_eq!(from_map, from_setters);
}

#[test]
fn last_header_of_a_name_wins() {
    let headers = Headers::new(vec![
        Header::new(HeaderName::Host, HeaderValue::new("first")),
        Header::new(HeaderName::Host, HeaderValue::new("second")),
    ]);
    assert_eq!(headers.host().map(|v| v.as_str()), Some("second"));

    let (_, parsed) = Headers::parse(b"Host: a\r\nHost: b\r\n\r\n").expect("valid headers");
    assert_eq!(parsed.host().map(|v| v.as_str()), Some("b"));
}

#[test]
fn round_trip_ignores_line_order() {
    let expected = Headers::default()
        .set_host("localhost:4221")
        .set_user_agent("curl/7.64.1")
        .set_accept("*/*");
    let orders: [&[u8]; 3] = [
        b"Host: localhost:4221\r\nUser-Agent: curl/7.64.1\r\nAccept: */*\r\n\r\n",
        b"Accept: */*\r\nHost: localhost:4221\r\nUser-Agent: curl/7.64.1\r\n\r\n",
        b"User-Agent: curl/7.64.1\r\nAccept: */*\r\nHost: localhost:4221\r\n\r\n",
    ];
    for bytes in orders {
        let (remainder, headers) = Headers::parse(bytes).expect("valid headers");
        assert!(remainder.is_empty());
        assert_eq!(headers, expected);
    }
}

#[test]
fn serialized_table_parses_back_with_what_follows() {
    let headers = Headers::default()
        .set_content_type(ContentType::Text)
        .set_content_length(1234567);
    let mut bytes = headers.to_bytes();
    bytes.extend_from_slice(b"\r\nrest");
    let (remainder, parsed) = Headers::parse(&bytes).expect("valid headers");
    assert_eq!(remainder, b"rest");
    assert_eq!(parsed, headers);
}

#[test]
fn header_text_is_name_colon_value_lines() {
    let headers = Headers::default()
        .set_content_type(ContentType::Text)
        .set_content_length(3);
    assert_eq!(
        headers.to_string(),
        "Content-Type: text/plain\r\nContent-Length: 3\r\n"
    );
    assert_eq!(Headers::default().to_string(), "");
}

#[test]
fn content_length_is_written_in_decimal() {
    let headers = Headers::default().set_content_length(0);
    assert_eq!(headers.content_length().map(|v| v.as_str()), Some("0"));
    let headers = Headers::default().set_content_length(18446744073709551615);
    assert_eq!(
        headers.content_length().map(|v| v.as_str()),
        Some("18446744073709551615")
    );
}

#[test]
fn header_value_keeps_leading_spaces_trimmed_only() {
    let (_, header) = Header::parse(b"Accept:   text/html \r\n").expect("valid header");
    assert_eq!(header, Header::new(HeaderName::Accept, HeaderValue::new("text/html ")));
    let (_, header) = Header::parse(b"Accept:\r\n").expect("valid header");
    assert_eq!(header, Header::new(HeaderName::Accept, HeaderValue::new("")));
}

#[test]
fn header_names_are_case_sensitive() {
    let err = Header::parse(b"host: localhost\r\n").unwrap_err();
    assert_eq!(err.kind(), http_server::error::ErrorKind::UnknownHeaderName);
}
