//! The life of one connection as a state machine: the caller reads, performs
//! the file operations and writes; this module decides what to send and
//! whether the connection stays open.
use vstd::prelude::*;
use crate::lits;
use crate::request::{parse_request, HttpRequest};
use crate::response::{encode_response, push_all, Response, Status};
use crate::router::{
    bare, file_read_reply, file_read_view, file_write_reply, file_write_view, handle, route,
    wants_close, Action, ActionView, FileRead,
};
use crate::trusted::is_utf8;

verus! {

/// The outcome of waiting for the next request.
pub enum Input {
    /// These bytes arrived.
    Received(Vec<u8>),
    /// The peer closed the connection.
    Ended,
    /// Reading failed.
    ReadFailed,
}

/// What the caller does next.
pub enum Step {
    /// Write these bytes.
    Send(Vec<u8>),
    /// Read this file and hand the outcome to [`Connection::file_read`].
    ReadFile(Vec<u8>),
    /// Write these contents to this file and hand the outcome to
    /// [`Connection::file_written`].
    WriteFile(Vec<u8>, Vec<u8>),
    /// Close the connection without writing.
    Stop,
}

pub enum StepView {
    Send(Seq<u8>),
    ReadFile(Seq<u8>),
    WriteFile(Seq<u8>, Seq<u8>),
    Stop,
}

impl View for Step {
    type V = StepView;

    open spec fn view(&self) -> StepView {
        match self {
            Step::Send(b) => StepView::Send(b@),
            Step::ReadFile(p) => StepView::ReadFile(p@),
            Step::WriteFile(p, c) => StepView::WriteFile(p@, c@),
            Step::Stop => StepView::Stop,
        }
    }
}

/// The reply to bytes that hold no request: a status line alone, `200 OK`,
/// with no blank line after it. This keeps the behaviour that clients of
/// this server have seen so far; the connection stays open.
pub open spec fn unparsed_reply() -> Seq<u8> {
    lits::version_prefix() + lits::ok_text() + lits::line_end()
}

/// The step for the bytes `raw` of a request, and whether the connection
/// then stays open. Bytes that are not UTF-8 get a 400 response.
pub open spec fn request_step(raw: Seq<u8>, dir: Seq<u8>) -> (StepView, bool) {
    if !vstd::utf8::valid_utf8(raw) {
        (StepView::Send(encode_response(bare(Status::BadRequest), false)), true)
    } else {
        match parse_request(raw) {
            None => (StepView::Send(unparsed_reply()), true),
            Some(req) => {
                let close = wants_close(req);
                let step = match route(req, dir) {
                    ActionView::Reply(r) => StepView::Send(encode_response(r, close)),
                    ActionView::ReadFile(p) => StepView::ReadFile(p),
                    ActionView::WriteFile(p, c) => StepView::WriteFile(p, c),
                };
                (step, !close)
            },
        }
    }
}

/// The state of one connection.
pub struct Connection {
    /// Whether the connection waits for another request after this one.
    pub keep_alive: bool,
}

impl Connection {
    /// A fresh connection, kept alive until a request asks to close it.
    pub fn new() -> (r: Connection)
        ensures
            r.keep_alive,
    {
        Connection { keep_alive: true }
    }

    /// Decides what to do with the outcome of a read. The peer ending the
    /// connection stops it silently; a failed read is answered with 500 and
    /// closes it.
    pub fn receive(&mut self, input: Input, dir: &[u8]) -> (s: Step)
        ensures
            match input {
                Input::Received(raw) => (s@, final(self).keep_alive) == request_step(raw@, dir@),
                Input::Ended => s@ == StepView::Stop && !final(self).keep_alive,
                Input::ReadFailed => s@ == StepView::Send(
                    encode_response(bare(Status::InternalServerError), true),
                ) && !final(self).keep_alive,
            },
    {
        match input {
            Input::Ended => {
                self.keep_alive = false;
                Step::Stop
            },
            Input::ReadFailed => {
                self.keep_alive = false;
                Step::Send(Response::bare(Status::InternalServerError).encode(true))
            },
            Input::Received(raw) => {
                if !is_utf8(raw.as_slice()) {
                    self.keep_alive = true;
                    return Step::Send(Response::bare(Status::BadRequest).encode(false));
                }
                match HttpRequest::parse(raw.as_slice()) {
                    None => {
                        self.keep_alive = true;
                        let mut out = lits::version_prefix_bytes();
                        push_all(&mut out, lits::ok_text_bytes().as_slice());
                        push_all(&mut out, lits::line_end_bytes().as_slice());
                        Step::Send(out)
                    },
                    Some(req) => {
                        let (action, close) = handle(&req, dir);
                        self.keep_alive = !close;
                        match action {
                            Action::Reply(r) => Step::Send(r.encode(close)),
                            Action::ReadFile(p) => Step::ReadFile(p),
                            Action::WriteFile(p, c) => Step::WriteFile(p, c),
                        }
                    },
                }
            },
        }
    }

    /// The bytes to send once a requested file was read.
    pub fn file_read(&self, r: FileRead) -> (out: Vec<u8>)
        ensures
            out@ == encode_response(file_read_view(r), !self.keep_alive),
    {
        file_read_reply(r).encode(!self.keep_alive)
    }

    /// The bytes to send once a requested file write ended.
    pub fn file_written(&self, written: bool) -> (out: Vec<u8>)
        ensures
            out@ == encode_response(file_write_view(written), !self.keep_alive),
    {
        file_write_reply(written).encode(!self.keep_alive)
    }
}

} // verus!
