use http_server::body::Body;
use http_server::request::Request;
use http_server::response::Response;
use http_server::router::{file_response, route, FileOutcome, Handling};
use http_server::status_line::Status;

fn respond(text: &str) -> Response {
    let request = Request::try_from(text).expect("valid request");
    match route(&request) {
        Handling::Respond(response) => response,
        Handling::ServeFile(_) => panic!("no file was asked for"),
    }
}

#[test]
fn echo_hello_answers_with_hello() {
    let response = respond("GET /echo/hello HTTP/1.1\r\n\r\n");
    assert_eq!(response.status(), Status::Success);
    assert_eq!(response.body(), Some(&Body::new("hello")));
    assert_eq!(
        response.headers().content_type().map(|v| v.as_str()),
        Some("text/plain")
    );
    assert_eq!(
        response.headers().content_length().map(|v| v.as_str()),
        Some("5")
    );
    assert_eq!(
        response.to_string(),
        "HTTP/1.1 200 OK\r\nContent-Type: text/plain\r\nContent-Length: 5\r\n\r\nhello"
    );
}

#[test]
fn unknown_path_is_not_found_without_body() {
    let response = respond("GET /does-not-exist HTTP/1.1\r\n\r\n");
    assert_eq!(response.status(), Status::NotFound);
    assert_eq!(response.body(), None);
    assert_eq!(response.headers().content_length(), None);
    assert_eq!(response.to_string(), "HTTP/1.1 404 Not Found\r\n\r\n");
}

#[test]
fn root_is_ok_without_body() {
    let response = respond("GET / HTTP/1.1\r\n\r\n");
    assert_eq!(response.to_string(), "HTTP/1.1 200 OK\r\n\r\n");
}

#[test]
fn user_agent_is_echoed() {
    let response = respond("GET /user-agent HTTP/1.1\r\nUser-Agent: curl/7.64.1\r\n\r\n");
    assert_eq!(response.status(), Status::Success);
    assert_eq!(response.body(), Some(&Body::new("curl/7.64.1")));
    let response = respond("GET /user-agent HTTP/1.1\r\n\r\n");
    assert_eq!(response.status(), Status::BadRequest);
    assert_eq!(response.body(), None);
}

#[test]
fn files_are_left_to_the_transport() {
    let request = Request::try_from("GET /files/notes.txt HTTP/1.1\r\n\r\n").expect("valid request");
    match route(&request) {
        Handling::ServeFile(name) => assert_eq!(name.as_str(), "notes.txt"),
        Handling::Respond(_) => panic!("a file was asked for"),
    }
}

#[test]
fn file_outcomes_map_to_statuses() {
    let found = file_response(FileOutcome::Found(b"data".to_vec()));
    assert_eq!(found.status(), Status::Success);
    assert_eq!(found.body().map(|b| b.as_bytes()), Some(&b"data"[..]));
    assert_eq!(
        found.headers().content_length().map(|v| v.as_str()),
        Some("4")
    );
    let missing = file_response(FileOutcome::Missing);
    assert_eq!(missing.to_string(), "HTTP/1.1 404 Not Found\r\n\r\n");
    let failed = file_response(FileOutcome::Failed);
    assert_eq!(failed.to_string(), "HTTP/1.1 500 Internal Server Error\r\n\r\n");
}
