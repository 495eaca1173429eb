//! Properties that relate the parts of the server, proved over their models.
use vstd::prelude::*;
use crate::lits;
use crate::request::{parse_request, RequestView};
use crate::response::{decimal, encode_response, fields_bytes, status_text, ResponseView, Status};
use crate::router::{accepts_gzip, bare, route, wants_close, ActionView};
use crate::connection::{request_step, StepView};
use crate::text::occurs_at;
use crate::trusted::{echo_capture, echo_start, gzip_of, line_stop};

verus! {

/// Every request for `/` is answered 200 with no fields and no body.
pub proof fn root_is_empty_ok(req: RequestView, dir: Seq<u8>)
    requires
        req.path == lits::root_path(),
    ensures
        route(req, dir) == ActionView::Reply(bare(Status::Success)),
{
}

proof fn lemma_line_stop_to_end(t: Seq<u8>, i: int)
    requires
        0 <= i <= t.len(),
        forall|j: int| i <= j < t.len() ==> t[j] != 10,
    ensures
        line_stop(t, i) == t.len(),
    decreases t.len() - i,
{
    if i < t.len() {
        lemma_line_stop_to_end(t, i + 1);
    }
}

/// `/echo/` followed by `s` captures all of `s` when `s` is not empty and
/// holds no line feed.
pub proof fn echo_captures_rest(s: Seq<u8>)
    requires
        s.len() > 0,
        forall|j: int| 0 <= j < s.len() ==> s[j] != 10,
    ensures
        echo_capture(lits::echo_prefix() + s) == Some(s),
{
    let t = lits::echo_prefix() + s;
    assert(t.subrange(0, 6) =~= lits::echo_prefix());
    assert(occurs_at(t, lits::echo_prefix(), 0));
    assert(t[6] == s[0]);
    assert(echo_start(t, 0) == 0);
    lemma_line_stop_to_end(t, 6);
    assert(t.subrange(6, t.len() as int) =~= s);
}

/// A path `/echo/` + `s`, for a non-empty `s` without line feeds, is answered
/// 200 with `text/plain`, a `Content-Length` of the length of `s`, and `s` as
/// the body, when the client does not accept gzip.
pub proof fn echo_returns_text(req: RequestView, s: Seq<u8>, dir: Seq<u8>)
    requires
        req.path == lits::echo_prefix() + s,
        s.len() > 0,
        forall|j: int| 0 <= j < s.len() ==> s[j] != 10,
        !accepts_gzip(req),
    ensures
        route(req, dir) == ActionView::Reply(
            ResponseView {
                status: Status::Success,
                fields: seq![
                    (lits::content_type(), lits::text_plain()),
                    (lits::content_length(), decimal(s.len())),
                ],
                body: Some(s),
            },
        ),
{
    echo_captures_rest(s);
    assert(req.path.len() != lits::root_path().len());
}

/// As above when the client accepts gzip: the body is the gzip encoding of
/// `s`, announced by `Content-Encoding: gzip`, and `Content-Length` gives the
/// length of the encoded body.
pub proof fn echo_returns_gzip(req: RequestView, s: Seq<u8>, dir: Seq<u8>)
    requires
        req.path == lits::echo_prefix() + s,
        s.len() > 0,
        forall|j: int| 0 <= j < s.len() ==> s[j] != 10,
        accepts_gzip(req),
    ensures
        route(req, dir) == ActionView::Reply(
            ResponseView {
                status: Status::Success,
                fields: seq![
                    (lits::content_type(), lits::text_plain()),
                    (lits::content_encoding(), lits::gzip_token()),
                    (lits::content_length(), decimal(gzip_of(s).len())),
                ],
                body: Some(gzip_of(s)),
            },
        ),
{
    echo_captures_rest(s);
    assert(req.path.len() != lits::root_path().len());
}

/// The wire form of a response sent on a closing connection: the fields
/// end with `Connection: close`.
pub open spec fn closing_bytes(r: ResponseView) -> Seq<u8> {
    let body = match r.body {
        Some(b) => b,
        None => seq![],
    };
    lits::version_prefix() + status_text(r.status) + lits::line_end() + fields_bytes(r.fields)
        + lits::connection() + lits::field_sep() + lits::close_token() + lits::line_end()
        + lits::line_end() + body
}

/// Encoding for a closing connection adds `Connection: close` after the
/// other fields.
pub proof fn close_adds_field(r: ResponseView)
    ensures
        encode_response(r, true) == closing_bytes(r),
{
    let fs = r.fields.push((lits::connection(), lits::close_token()));
    assert(fs.drop_last() =~= r.fields);
    assert(encode_response(r, true) =~= closing_bytes(r));
}

/// A request whose `Connection` header holds `close` is answered with a
/// `Connection: close` field, or leads to a file operation, and the
/// connection is not kept for another request.
pub proof fn close_ends_connection(raw: Seq<u8>, dir: Seq<u8>)
    requires
        vstd::utf8::valid_utf8(raw),
        parse_request(raw) is Some,
        wants_close(parse_request(raw)->Some_0),
    ensures
        !request_step(raw, dir).1,
        match request_step(raw, dir).0 {
            StepView::Send(b) => exists|r: ResponseView| b == #[trigger] closing_bytes(r),
            StepView::ReadFile(_) => true,
            StepView::WriteFile(_, _) => true,
            StepView::Stop => false,
        },
{
    let req = parse_request(raw)->Some_0;
    match route(req, dir) {
        ActionView::Reply(r) => {
            close_adds_field(r);
        },
        _ => {},
    }
}

} // verus!
