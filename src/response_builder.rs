//! Staged construction of responses.

use vstd::prelude::*;

use crate::body::Body;
use crate::headers::{ContentType, Headers};
use crate::request::body_bytes;
use crate::response::{derived_headers, Response};
use crate::status_line::{Status, StatusLine};

verus! {

/// Gathers a status and a body. The framing headers are derived from the body as it is
/// set, so that they cannot disagree with it and cannot be set apart from it.
#[derive(Debug)]
pub struct ResponseBuilder {
    status: Option<Status>,
    headers: Headers,
    body: Option<Body>,
}

impl Default for ResponseBuilder {
    fn default() -> (r: ResponseBuilder)
        ensures
            r.spec_status() is None,
            r.spec_body() is None,
    {
        ResponseBuilder { status: None, headers: Headers::default(), body: None }
    }
}

impl ResponseBuilder {
    pub closed spec fn spec_status(self) -> Option<Status> {
        self.status
    }

    pub closed spec fn spec_body(self) -> Option<Seq<u8>> {
        body_bytes(self.body)
    }

    /// The headers held are the ones the body determines.
    #[verifier::type_invariant]
    closed spec fn inv(self) -> bool {
        self.headers@ == derived_headers(body_bytes(self.body))
    }

    pub fn set_status(self, status: Status) -> (r: ResponseBuilder)
        ensures
            r.spec_status() == Some(status),
            r.spec_body() == self.spec_body(),
    {
        proof {
            use_type_invariant(&self);
        }
        ResponseBuilder { status: Some(status), headers: self.headers, body: self.body }
    }

    /// Sets the body, with `Content-Type: text/plain` and its byte length as
    /// Content-Length.
    pub fn set_body(self, body: Body) -> (r: ResponseBuilder)
        ensures
            r.spec_status() == self.spec_status(),
            r.spec_body() == Some(body.bytes()),
    {
        let headers = Headers::default().set_content_type(ContentType::Text).set_content_length(
            body.len(),
        );
        ResponseBuilder { status: self.status, headers, body: Some(body) }
    }

    /// The finished response; its status is 200 OK where none was set.
    pub fn build(self) -> (r: Response)
        ensures
            r.wf(),
            r.spec_status_line() == StatusLine::make(
                match self.spec_status() {
                    Some(s) => s,
                    None => Status::Success,
                },
            ),
            r.spec_body() == self.spec_body(),
    {
        proof {
            use_type_invariant(&self);
        }
        let status_line = match self.status {
            None => StatusLine::ok(),
            Some(status) => StatusLine::make_http_1_1_status_line(status),
        };
        Response::new(status_line, self.headers, self.body)
    }
}

} // verus!
