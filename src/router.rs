//! Routing: from a parsed request to a response, or to the file operation
//! that the response depends on.
use vstd::prelude::*;
use crate::lits;
use crate::request::{find_header, header_values, headers_view, Header, HttpRequest, RequestView, bytes_eq};
use crate::response::{fields_view, framed, values_named, Field, Response, ResponseView, Status, decimal};
use crate::text::{copy_range, has_prefix, starts_with};
use crate::trusted::{capture_group, echo_capture, gzip, gzip_of, is_utf8};

verus! {

/// What a request asks of the server.
pub enum Action {
    /// Send this response.
    Reply(Response),
    /// Read the file at this path, then answer with [`file_read_reply`].
    ReadFile(Vec<u8>),
    /// Write these contents to the file at this path, then answer with
    /// [`file_write_reply`].
    WriteFile(Vec<u8>, Vec<u8>),
}

pub enum ActionView {
    Reply(ResponseView),
    ReadFile(Seq<u8>),
    WriteFile(Seq<u8>, Seq<u8>),
}

impl View for Action {
    type V = ActionView;

    open spec fn view(&self) -> ActionView {
        match self {
            Action::Reply(r) => ActionView::Reply(r@),
            Action::ReadFile(p) => ActionView::ReadFile(p@),
            Action::WriteFile(p, c) => ActionView::WriteFile(p@, c@),
        }
    }
}

/// The outcome of reading a file.
pub enum FileRead {
    Found(Vec<u8>),
    Missing,
    Failed,
}

/// The values of header `name` hold `token` exactly.
pub open spec fn header_has(req: RequestView, name: Seq<u8>, token: Seq<u8>) -> bool {
    match header_values(req.headers, name) {
        Some(vs) => vs.contains(token),
        None => false,
    }
}

/// The connection is to close after this request.
pub open spec fn wants_close(req: RequestView) -> bool {
    header_has(req, lits::connection(), lits::close_token())
}

/// The client accepts a gzip-encoded body.
pub open spec fn accepts_gzip(req: RequestView) -> bool {
    header_has(req, lits::accept_encoding(), lits::gzip_token())
}

/// `s` without its NUL bytes.
pub open spec fn strip_nul(s: Seq<u8>) -> Seq<u8> {
    s.filter(|b: u8| b != 0)
}

/// The file that a `/files/` path names: the configured root, or `/tmp/`
/// when none is set, followed by the rest of the path.
pub open spec fn file_path(dir: Seq<u8>, path: Seq<u8>) -> Seq<u8> {
    let root = if dir.len() == 0 {
        lits::default_root()
    } else {
        dir
    };
    root + path.subrange(lits::files_prefix().len() as int, path.len() as int)
}

pub open spec fn bare(status: Status) -> ResponseView {
    ResponseView { status, fields: seq![], body: None }
}

/// A 200 response carrying `body` with the given content type.
pub open spec fn content_reply(kind: Seq<u8>, body: Seq<u8>) -> ResponseView {
    ResponseView {
        status: Status::Success,
        fields: seq![(lits::content_type(), kind), (lits::content_length(), decimal(body.len()))],
        body: Some(body),
    }
}

/// The echo response for `body`, which is already gzip-encoded when `gzipped`.
pub open spec fn echo_view(body: Seq<u8>, gzipped: bool) -> ResponseView {
    if gzipped {
        ResponseView {
            status: Status::Success,
            fields: seq![
                (lits::content_type(), lits::text_plain()),
                (lits::content_encoding(), lits::gzip_token()),
                (lits::content_length(), decimal(body.len())),
            ],
            body: Some(body),
        }
    } else {
        content_reply(lits::text_plain(), body)
    }
}

/// What the server does with `req`, the file root being `dir`. Routes are
/// tried in order: `/`, echo, `/user-agent`, a `GET` or `POST` under
/// `/files/`, and otherwise 404.
pub open spec fn route(req: RequestView, dir: Seq<u8>) -> ActionView {
    if req.path == lits::root_path() {
        ActionView::Reply(bare(Status::Success))
    } else if echo_capture(req.path) is Some {
        let v = echo_capture(req.path)->Some_0;
        if accepts_gzip(req) {
            ActionView::Reply(echo_view(gzip_of(v), true))
        } else {
            ActionView::Reply(echo_view(v, false))
        }
    } else if req.path == lits::user_agent_path() {
        match header_values(req.headers, lits::user_agent()) {
            Some(vs) if vs.len() > 0 => ActionView::Reply(content_reply(lits::text_plain(), vs[0])),
            _ => ActionView::Reply(bare(Status::BadRequest)),
        }
    } else if starts_with(req.path, lits::files_prefix()) && req.method == lits::get_method() {
        ActionView::ReadFile(file_path(dir, req.path))
    } else if starts_with(req.path, lits::files_prefix()) && req.method == lits::post_method() {
        match req.body {
            Some(b) => ActionView::WriteFile(file_path(dir, req.path), strip_nul(b)),
            None => ActionView::Reply(bare(Status::BadRequest)),
        }
    } else {
        ActionView::Reply(bare(Status::NotFound))
    }
}

/// The answer to a file read.
pub open spec fn file_read_view(r: FileRead) -> ResponseView {
    match r {
        FileRead::Found(c) => if vstd::utf8::valid_utf8(c@) {
            content_reply(lits::octet_stream(), strip_nul(c@))
        } else {
            bare(Status::BadRequest)
        },
        FileRead::Missing => bare(Status::NotFound),
        FileRead::Failed => bare(Status::BadRequest),
    }
}

/// The answer to a file write.
pub open spec fn file_write_view(written: bool) -> ResponseView {
    if written {
        bare(Status::Created)
    } else {
        bare(Status::BadRequest)
    }
}

/// Whether the values of header `name` in `hs` hold `token`.
pub fn has_header_value(hs: &Vec<Header>, name: &[u8], token: &[u8]) -> (r: bool)
    ensures
        r == match header_values(headers_view(hs@), name@) {
            Some(vs) => vs.contains(token@),
            None => false,
        },
{
    match find_header(hs, name) {
        None => false,
        Some(k) => {
            let values = &hs[k].values;
            let ghost vs = crate::text::views(values@);
            assert(vs == headers_view(hs@)[k as int].1);
            assert(header_values(headers_view(hs@), name@) == Some(vs));
            let mut i: usize = 0;
            while i < values.len()
                invariant
                    i <= values@.len(),
                    vs == crate::text::views(values@),
                    header_values(headers_view(hs@), name@) == Some(vs),
                    forall|j: int| 0 <= j < i ==> vs[j] != token@,
                decreases values.len() - i,
            {
                if bytes_eq(values[i].as_slice(), token) {
                    assert(vs[i as int] == token@);
                    assert(vs.contains(token@));
                    return true;
                }
                i = i + 1;
            }
            false
        },
    }
}

/// Copy of `s` without its NUL bytes.
pub fn strip_nul_bytes(s: &[u8]) -> (r: Vec<u8>)
    ensures
        r@ == strip_nul(s@),
{
    let mut r: Vec<u8> = Vec::new();
    let mut i: usize = 0;
    while i < s.len()
        invariant
            i <= s@.len(),
            r@ == strip_nul(s@.subrange(0, i as int)),
        decreases s.len() - i,
    {
        proof {
            reveal_with_fuel(Seq::filter, 1);
            assert(s@.subrange(0, i + 1).drop_last() =~= s@.subrange(0, i as int));
        }
        if s[i] != 0 {
            r.push(s[i]);
        }
        i = i + 1;
    }
    assert(s@.subrange(0, i as int) =~= s@);
    r
}

/// A 200 response with the given content type and body.
pub fn content_response(kind: Vec<u8>, body: Vec<u8>) -> (r: Response)
    ensures
        r@ == content_reply(kind@, body@),
        framed(r@),
{
    let mut fields: Vec<Field> = Vec::new();
    fields.push(Field { name: lits::content_type_bytes(), value: kind });
    proof {
        let fv = fields_view(fields@);
        assert(fv.drop_last() =~= seq![]);
        assert(values_named(fv.drop_last(), lits::content_length()) == Seq::<Seq<u8>>::empty());
        assert(fv.last().0 == lits::content_type());
        assert(lits::content_type()[8] != lits::content_length()[8]);
        assert(values_named(fv, lits::content_length()) == Seq::<Seq<u8>>::empty());
    }
    let r = Response::with_body(Status::Success, fields, body);
    assert(r@.fields =~= content_reply(kind@, body@).fields);
    r
}

/// The echo response for `body`; when `gzipped`, `body` is already
/// gzip-encoded and a `Content-Encoding: gzip` field says so.
pub fn echo_response(body: Vec<u8>, gzipped: bool) -> (r: Response)
    ensures
        r@ == echo_view(body@, gzipped),
        framed(r@),
{
    if gzipped {
        let mut fields: Vec<Field> = Vec::new();
        fields.push(Field { name: lits::content_type_bytes(), value: lits::text_plain_bytes() });
        fields.push(Field { name: lits::content_encoding_bytes(), value: lits::gzip_token_bytes() });
        proof {
            let fv = fields_view(fields@);
            assert(fv.drop_last().drop_last() =~= seq![]);
            assert(values_named(fv.drop_last().drop_last(), lits::content_length()) == Seq::<Seq<u8>>::empty());
            assert(fv.drop_last().last().0 == lits::content_type());
            assert(fv.last().0 == lits::content_encoding());
            assert(lits::content_type()[8] != lits::content_length()[8]);
            assert(lits::content_encoding()[8] != lits::content_length()[8]);
            assert(values_named(fv.drop_last(), lits::content_length()) == Seq::<Seq<u8>>::empty());
            assert(values_named(fv, lits::content_length()) == Seq::<Seq<u8>>::empty());
        }
        let r = Response::with_body(Status::Success, fields, body);
        assert(r@.fields =~= echo_view(body@, true).fields);
        r
    } else {
        content_response(lits::text_plain_bytes(), body)
    }
}

/// The response to the outcome of a file read: the contents, less their NUL
/// bytes, when they are valid UTF-8; 404 when the file is missing; 400 otherwise.
pub fn file_read_reply(r: FileRead) -> (resp: Response)
    ensures
        resp@ == file_read_view(r),
        framed(resp@),
{
    match r {
        FileRead::Found(c) => {
            if is_utf8(c.as_slice()) {
                let body = strip_nul_bytes(c.as_slice());
                content_response(lits::octet_stream_bytes(), body)
            } else {
                Response::bare(Status::BadRequest)
            }
        },
        FileRead::Missing => Response::bare(Status::NotFound),
        FileRead::Failed => Response::bare(Status::BadRequest),
    }
}

/// The response to the outcome of a file write: 201 on success, else 400.
pub fn file_write_reply(written: bool) -> (resp: Response)
    ensures
        resp@ == file_write_view(written),
        framed(resp@),
{
    if written {
        Response::bare(Status::Created)
    } else {
        Response::bare(Status::BadRequest)
    }
}

/// The file named by a `/files/` path under the root `dir`.
pub fn resolve_file(dir: &[u8], path: &[u8]) -> (r: Vec<u8>)
    requires
        starts_with(path@, lits::files_prefix()),
    ensures
        r@ == file_path(dir@, path@),
{
    let mut r = if dir.len() == 0 {
        lits::default_root_bytes()
    } else {
        copy_range(dir, 0, dir.len())
    };
    assert(dir@.subrange(0, dir@.len() as int) =~= dir@);
    let rest = copy_range(path, 7, path.len());
    crate::response::push_all(&mut r, rest.as_slice());
    r
}

/// Decides what to do with `req`, the file root being `dir` (empty for the
/// default), and whether the connection closes afterwards: it does exactly
/// when a `Connection` value is `close`, whatever the route.
pub fn handle(req: &HttpRequest, dir: &[u8]) -> (r: (Action, bool))
    ensures
        r.0@ == route(req@, dir@),
        r.1 == wants_close(req@),
        match r.0 {
            Action::Reply(resp) => framed(resp@),
            _ => true,
        },
{
    let close = has_header_value(&req.headers, lits::connection_bytes().as_slice(), lits::close_token_bytes().as_slice());
    let path = req.path.as_slice();
    let action = if bytes_eq(path, lits::root_path_bytes().as_slice()) {
        Action::Reply(Response::bare(Status::Success))
    } else {
        let pattern: &str = "/echo/(?<echo_str>(?-u:.)+)";
        let group: &str = "echo_str";
        proof {
            reveal_strlit("/echo/(?<echo_str>(?-u:.)+)");
            reveal_strlit("echo_str");
            assert(pattern@ =~= crate::trusted::echo_pattern());
            assert(group@ =~= crate::trusted::echo_group());
        }
        match capture_group(pattern, group, path) {
            Some(v) => {
                if has_header_value(&req.headers, lits::accept_encoding_bytes().as_slice(), lits::gzip_token_bytes().as_slice()) {
                    let packed = gzip(v.as_slice());
                    Action::Reply(echo_response(packed, true))
                } else {
                    Action::Reply(echo_response(v, false))
                }
            },
            None => {
                if bytes_eq(path, lits::user_agent_path_bytes().as_slice()) {
                    match find_header(&req.headers, lits::user_agent_bytes().as_slice()) {
                        Some(k) if req.headers[k].values.len() > 0 => {
                            let v = &req.headers[k].values[0];
                            let value = copy_range(v.as_slice(), 0, v.len());
                            assert(v@.subrange(0, v@.len() as int) =~= v@);
                            Action::Reply(content_response(lits::text_plain_bytes(), value))
                        },
                        _ => Action::Reply(Response::bare(Status::BadRequest)),
                    }
                } else if has_prefix(path, lits::files_prefix_bytes().as_slice()) && bytes_eq(req.method.as_slice(), lits::get_method_bytes().as_slice()) {
                    Action::ReadFile(resolve_file(dir, path))
                } else if has_prefix(path, lits::files_prefix_bytes().as_slice()) && bytes_eq(req.method.as_slice(), lits::post_method_bytes().as_slice()) {
                    match &req.body {
                        Some(b) => Action::WriteFile(resolve_file(dir, path), strip_nul_bytes(b.as_slice())),
                        None => Action::Reply(Response::bare(Status::BadRequest)),
                    }
                } else {
                    Action::Reply(Response::bare(Status::NotFound))
                }
            },
        }
    };
    (action, close)
}

} // verus!
