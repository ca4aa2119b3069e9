//! The life of one connection, as a state machine that a transport drives.
//!
//! The transport reads, writes and waits; the machine decides. One connection's state
//! is owned by the one worker that serves it and shared with nothing else.

use vstd::prelude::*;
use vstd::slice::slice_to_vec;

use crate::request::{parse_request, Request};
use crate::response::Response;
use crate::router::is_response;
use crate::status_line::Status;

verus! {

/// What the transport reports.
pub enum Event {
    /// A read returned these bytes; none means the peer closed the connection.
    Received(Vec<u8>),
    /// The last response has been written out in full.
    Sent,
    /// Reading or writing failed.
    Failed,
}

/// What the transport is to do next.
pub enum Action {
    /// Wait until the socket is readable, then read.
    ReadMore,
    /// Route this request and write its response.
    Handle(Request),
    /// Write this response.
    Reply(Response),
    /// Close the connection and free its worker.
    Close,
}

/// The state of one connection: the bytes read but not yet consumed, and whether it is
/// still open.
pub struct Connection {
    pending: Vec<u8>,
    open: bool,
}

impl Connection {
    pub closed spec fn spec_pending(self) -> Seq<u8> {
        self.pending@
    }

    pub closed spec fn spec_open(self) -> bool {
        self.open
    }

    /// What the next step on buffered bytes `buf` does: hand on the request at their
    /// front and keep what follows; read more where they end too early; and on any
    /// other parse failure answer 500 and drop what was buffered, so that the next
    /// request starts from fresh input.
    pub open spec fn steps(buf: Seq<u8>, r: Action, pending: Seq<u8>) -> bool {
        match parse_request(buf) {
            Ok((req, n)) => r is Handle && r->Handle_0@ == req && pending == buf.subrange(
                n,
                buf.len() as int,
            ),
            Err(f) => if f.0.spec_needs_more_input() {
                r is ReadMore && pending == buf
            } else {
                r is Reply && is_response(r->Reply_0, Status::InternalServerError, None)
                    && pending == Seq::<u8>::empty()
            },
        }
    }

    /// A freshly accepted connection.
    pub fn new() -> (r: Connection)
        ensures
            r.spec_open(),
            r.spec_pending() == Seq::<u8>::empty(),
    {
        Connection { pending: Vec::new(), open: true }
    }

    pub fn is_open(&self) -> (r: bool)
        ensures
            r == self.spec_open(),
    {
        self.open
    }

    /// Takes the next event and says what to do.
    pub fn handle(&mut self, event: Event) -> (r: Action)
        ensures
            !old(self).spec_open() ==> r is Close && !final(self).spec_open(),
            old(self).spec_open() ==> match event {
                Event::Failed => r is Close && !final(self).spec_open(),
                Event::Received(b) => if b@.len() == 0 {
                    r is Close && !final(self).spec_open()
                } else {
                    final(self).spec_open() && Connection::steps(
                        old(self).spec_pending() + b@,
                        r,
                        final(self).spec_pending(),
                    )
                },
                Event::Sent => final(self).spec_open() && Connection::steps(
                    old(self).spec_pending(),
                    r,
                    final(self).spec_pending(),
                ),
            },
    {
        if !self.open {
            return Action::Close;
        }
        match event {
            Event::Failed => {
                self.open = false;
                Action::Close
            },
            Event::Received(b) => {
                if b.len() == 0 {
                    self.open = false;
                    return Action::Close;
                }
                let mut b = b;
                self.pending.append(&mut b);
                self.step()
            },
            Event::Sent => self.step(),
        }
    }

    fn step(&mut self) -> (r: Action)
        requires
            old(self).spec_open(),
        ensures
            final(self).spec_open(),
            Connection::steps(old(self).spec_pending(), r, final(self).spec_pending()),
    {
        let parsed = Request::parse(self.pending.as_slice());
        match parsed {
            Ok((rest, request)) => {
                let rest = slice_to_vec(rest);
                self.pending = rest;
                Action::Handle(request)
            },
            Err(e) => {
                if e.needs_more_input() {
                    Action::ReadMore
                } else {
                    self.pending = Vec::new();
                    Action::Reply(Response::internal_server_error().build())
                }
            },
        }
    }
}

} // verus!
