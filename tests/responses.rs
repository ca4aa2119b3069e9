use http_server::body::Body;
use http_server::headers::{ContentType, Headers};
use http_server::response::Response;
use http_server::status_line::{Status, StatusLine};

#[test]
fn response_ok_response() {
    let default_response = Response::ok().build();
    assert_eq!(
        default_response.to_string(),
        String::from("HTTP/1.1 200 OK\r\n\r\n")
    );
}

#[test]
fn response_not_found_response() {
    let default_response = Response::not_found().build();
    assert_eq!(
        default_response.to_string(),
        String::from("HTTP/1.1 404 Not Found\r\n\r\n")
    );
}

#[test]
fn http_ok_response() {
    let default_response = Response::ok().build();
    assert_eq!(
        default_response.to_string(),
        String::from("HTTP/1.1 200 OK\r\n\r\n")
    );
}

#[test]
fn http_not_found_response() {
    let default_response = Response::not_found().build();
    assert_eq!(
        default_response.to_string(),
        String::from("HTTP/1.1 404 Not Found\r\n\r\n")
    );
}

#[test]
fn plain_text_response() {
    let expected_response = Response::new(
        StatusLine::ok(),
        Headers::default()
            .set_content_type(ContentType::Text)
            .set_content_length(3),
        Some(Body::new("abc")),
    );
    let response = Response::ok().set_body(Body::new("abc")).build();
    assert_eq!(response, expected_response,);
}

#[test]
fn status_line_default_status_line() {
    let default_status_line = StatusLine::ok();
    assert_eq!(
        default_status_line.to_string(),
        String::from("HTTP/1.1 200 OK\r\n")
    );
}

#[test]
fn every_status_has_its_reason_phrase() {
    let cases = [
        (Status::Success, 200, "HTTP/1.1 200 OK\r\n"),
        (Status::Created, 201, "HTTP/1.1 201 Created\r\n"),
        (Status::BadRequest, 400, "HTTP/1.1 400 Bad Request\r\n"),
        (Status::NotFound, 404, "HTTP/1.1 404 Not Found\r\n"),
        (Status::InternalServerError, 500, "HTTP/1.1 500 Internal Server Error\r\n"),
    ];
    for (status, code, line) in cases {
        assert_eq!(status.code(), code);
        assert_eq!(StatusLine::make_http_1_1_status_line(status).to_string(), line);
    }
    assert_eq!(StatusLine::not_found().status, Status::NotFound);
    assert_eq!(
        StatusLine::internal_server_error().status,
        Status::InternalServerError
    );
}

#[test]
fn builders_set_their_status() {
    assert_eq!(Response::created().build().status(), Status::Created);
    assert_eq!(Response::bad_request().build().status(), Status::BadRequest);
    assert_eq!(
        Response::internal_server_error().build().status(),
        Status::InternalServerError
    );
}

#[test]
fn text_body_response_on_the_wire() {
    let response = Response::ok().set_body(Body::new("hello")).build();
    assert_eq!(
        response.to_bytes(),
        b"HTTP/1.1 200 OK\r\nContent-Type: text/plain\r\nContent-Length: 5\r\n\r\nhello".to_vec()
    );
}

#[test]
fn content_length_counts_bytes_not_characters() {
    let response = Response::ok().set_body(Body::new("h\u{e9}llo")).build();
    assert_eq!(
        response.headers().content_length().map(|v| v.as_str()),
        Some("6")
    );
    let response = Response::ok()
        .set_body(Body::OctetStream(vec![0u8; 1000]))
        .build();
    assert_eq!(
        response.headers().content_length().map(|v| v.as_str()),
        Some("1000")
    );
    assert_eq!(
        response.headers().content_type().map(|v| v.as_str()),
        Some("text/plain")
    );
}

#[test]
fn bodiless_responses_carry_no_framing_headers() {
    for response in [
        Response::ok().build(),
        Response::not_found().build(),
        Response::internal_server_error().build(),
    ] {
        assert_eq!(response.headers(), &Headers::default());
        assert_eq!(response.body(), None);
    }
}

#[test]
fn a_later_body_replaces_an_earlier_one() {
    let response = Response::ok()
        .set_body(Body::new("first body"))
        .set_body(Body::new("ab"))
        .build();
    assert_eq!(
        response.to_string(),
        "HTTP/1.1 200 OK\r\nContent-Type: text/plain\r\nContent-Length: 2\r\n\r\nab"
    );
}

#[test]
fn status_defaults_to_ok() {
    let response = http_server::response_builder::ResponseBuilder::default().build();
    assert_eq!(response.status_line(), StatusLine::ok());
}

#[test]
fn binary_body_text_is_lossy() {
    let response = Response::ok().set_body(Body::OctetStream(vec![0xff])).build();
    assert_eq!(
        response.to_string(),
        "HTTP/1.1 200 OK\r\nContent-Type: text/plain\r\nContent-Length: 1\r\n\r\n\u{fffd}"
    );
    assert_eq!(response.body().map(|b| b.as_bytes()), Some(&[0xffu8][..]));
}
