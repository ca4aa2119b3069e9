//! The fixed routing table: which response a request gets.

use vstd::prelude::*;
use vstd::utf8::encode_utf8;

use crate::body::Body;
use crate::headers::HeaderName;
use crate::path::{text_prefix, Path};
use crate::request::Request;
use crate::response::Response;
use crate::status_line::{Status, StatusLine};

verus! {

/// What handling a request takes.
pub enum Handling {
    /// The response is ready.
    Respond(Response),
    /// The response is the file of this name, under the served directory.
    ServeFile(Path),
}

/// What became of reading a served file.
pub enum FileOutcome {
    Found(Vec<u8>),
    Missing,
    Failed,
}

/// Whether `r` is a well-formed HTTP/1.1 response with this status and body.
pub open spec fn is_response(r: Response, status: Status, body: Option<Seq<u8>>) -> bool {
    r.wf() && r.spec_status_line() == StatusLine::make(status) && r.spec_body() == body
}

/// Whether handling `h` answers with this status and body.
pub open spec fn responds(h: Handling, status: Status, body: Option<Seq<u8>>) -> bool {
    h is Respond && is_response(h->Respond_0, status, body)
}

/// Routes a request; the first rule that matches wins:
/// `/` answers 200 with no body; `/echo/<text>` answers 200 with `<text>`;
/// `/files/<name>` serves a file; `/user-agent` answers 200 with the User-Agent header,
/// or 400 where the request has none; anything else answers 404.
pub fn route(request: &Request) -> (r: Handling)
    ensures
        ({
            let t = request@.target;
            let h = request@.headers;
            if t == "/"@ {
                responds(r, Status::Success, None)
            } else if text_prefix("/echo/"@, t) {
                responds(
                    r,
                    Status::Success,
                    Some(encode_utf8(t.subrange("/echo/"@.len() as int, t.len() as int))),
                )
            } else if text_prefix("/files/"@, t) {
                r is ServeFile && r->ServeFile_0@ == t.subrange(
                    "/files/"@.len() as int,
                    t.len() as int,
                )
            } else if t == "/user-agent"@ {
                if h.contains_key(HeaderName::UserAgent) {
                    responds(r, Status::Success, Some(encode_utf8(h[HeaderName::UserAgent])))
                } else {
                    responds(r, Status::BadRequest, None)
                }
            } else {
                responds(r, Status::NotFound, None)
            }
        }),
{
    let target = request.target();
    if target.equals("/") {
        return Handling::Respond(Response::ok().build());
    }
    if let Some(text) = target.strip_prefix("/echo/") {
        return Handling::Respond(Response::ok().set_body(Body::new(text.as_str())).build());
    }
    if let Some(name) = target.strip_prefix("/files/") {
        return Handling::ServeFile(name);
    }
    if target.equals("/user-agent") {
        return match request.headers().user_agent() {
            Some(agent) => Handling::Respond(
                Response::ok().set_body(Body::new(agent.as_str())).build(),
            ),
            None => Handling::Respond(Response::bad_request().build()),
        };
    }
    Handling::Respond(Response::not_found().build())
}

/// The response for a served file: its bytes, 404 where it does not exist, 500 where
/// reading it failed otherwise.
pub fn file_response(outcome: FileOutcome) -> (r: Response)
    ensures
        match outcome {
            FileOutcome::Found(b) => is_response(r, Status::Success, Some(b@)),
            FileOutcome::Missing => is_response(r, Status::NotFound, None),
            FileOutcome::Failed => is_response(r, Status::InternalServerError, None),
        },
{
    match outcome {
        FileOutcome::Found(b) => Response::ok().set_body(Body::OctetStream(b)).build(),
        FileOutcome::Missing => Response::not_found().build(),
        FileOutcome::Failed => Response::internal_server_error().build(),
    }
}

} // verus!
