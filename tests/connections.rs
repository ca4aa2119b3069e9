use http_server::connection::{Action, Connection, Event};
use http_server::router::{route, Handling};
use http_server::status_line::Status;

/// Runs one step of a connection the way a transport would, writing responses into
/// `out`; returns whether the connection wants more input.
fn drive(conn: &mut Connection, event: Event, out: &mut Vec<u8>) -> bool {
    let mut event = event;
    loop {
        match conn.handle(event) {
            Action::ReadMore => return true,
            Action::Close => return false,
            Action::Reply(response) => out.extend_from_slice(&response.to_bytes()),
            Action::Handle(request) => match route(&request) {
                Handling::Respond(response) => out.extend_from_slice(&response.to_bytes()),
                Handling::ServeFile(_) => panic!("no file was asked for"),
            },
        }
        event = Event::Sent;
    }
}

#[test]
fn malformed_request_line_answers_500() {
    let mut conn = Connection::new();
    match conn.handle(Event::Received(b"GET /\r\n\r\n".to_vec())) {
        Action::Reply(response) => {
            assert_eq!(response.status(), Status::InternalServerError);
            assert_eq!(response.headers().content_length(), None);
            assert_eq!(
                response.to_string(),
                "HTTP/1.1 500 Internal Server Error\r\n\r\n"
            );
        }
        _ => panic!("a malformed request is answered"),
    }
    assert!(conn.is_open());
}

#[test]
fn malformed_request_does_not_spoil_the_next() {
    let mut conn = Connection::new();
    let mut out = Vec::new();
    assert!(drive(&mut conn, Event::Received(b"BAD\r\n\r\n".to_vec()), &mut out));
    assert!(drive(
        &mut conn,
        Event::Received(b"GET /echo/ok HTTP/1.1\r\n\r\n".to_vec()),
        &mut out
    ));
    assert_eq!(
        out,
        b"HTTP/1.1 500 Internal Server Error\r\n\r\nHTTP/1.1 200 OK\r\nContent-Type: text/plain\r\nContent-Length: 2\r\n\r\nok".to_vec()
    );
}

#[test]
fn partial_request_waits_for_more_bytes() {
    let mut conn = Connection::new();
    let mut out = Vec::new();
    assert!(drive(&mut conn, Event::Received(b"GET /echo/a".to_vec()), &mut out));
    assert!(out.is_empty());
    assert!(drive(&mut conn, Event::Received(b"bc HTTP/1.1\r".to_vec()), &mut out));
    assert!(out.is_empty());
    assert!(drive(&mut conn, Event::Received(b"\n\r\n".to_vec()), &mut out));
    assert_eq!(
        out,
        b"HTTP/1.1 200 OK\r\nContent-Type: text/plain\r\nContent-Length: 3\r\n\r\nabc".to_vec()
    );
}

#[test]
fn pipelined_requests_are_answered_in_order() {
    let mut conn = Connection::new();
    let mut out = Vec::new();
    assert!(drive(
        &mut conn,
        Event::Received(b"GET /echo/1 HTTP/1.1\r\n\r\nGET /echo/2 HTTP/1.1\r\n\r\n".to_vec()),
        &mut out
    ));
    assert_eq!(
        out,
        b"HTTP/1.1 200 OK\r\nContent-Type: text/plain\r\nContent-Length: 1\r\n\r\n1HTTP/1.1 200 OK\r\nContent-Type: text/plain\r\nContent-Length: 1\r\n\r\n2".to_vec()
    );
}

#[test]
fn peer_close_and_failure_close_the_connection() {
    let mut conn = Connection::new();
    assert!(matches!(conn.handle(Event::Received(Vec::new())), Action::Close));
    assert!(!conn.is_open());
    assert!(matches!(conn.handle(Event::Sent), Action::Close));

    let mut conn = Connection::new();
    assert!(matches!(conn.handle(Event::Failed), Action::Close));
    assert!(!conn.is_open());
}

#[test]
fn simultaneous_connections_each_get_their_own_echo() {
    let ids = ["alpha", "bravo", "charlie", "delta"];
    let requests: Vec<Vec<u8>> = ids
        .iter()
        .map(|id| format!("GET /echo/{id} HTTP/1.1\r\nHost: localhost:4221\r\n\r\n").into_bytes())
        .collect();
    let mut conns: Vec<Connection> = ids.iter().map(|_| Connection::new()).collect();
    let mut outs: Vec<Vec<u8>> = ids.iter().map(|_| Vec::new()).collect();

    // Feed the connections three bytes at a time, taking turns.
    let mut offset = 0;
    while requests.iter().any(|r| offset < r.len()) {
        for k in 0..ids.len() {
            let r = &requests[k];
            if offset < r.len() {
                let end = (offset + 3).min(r.len());
                drive(
                    &mut conns[k],
                    Event::Received(r[offset..end].to_vec()),
                    &mut outs[k],
                );
            }
        }
        offset += 3;
    }

    for k in 0..ids.len() {
        let expected = format!(
            "HTTP/1.1 200 OK\r\nContent-Type: text/plain\r\nContent-Length: {}\r\n\r\n{}",
            ids[k].len(),
            ids[k]
        );
        assert_eq!(String::from_utf8(outs[k].clone()).unwrap(), expected);
    }
}
