//! Responses and their wire encoding.
use vstd::prelude::*;
use crate::lits;

verus! {

/// The status lines this server sends.
#[derive(Clone, Copy, Debug, PartialEq, Eq, Structural)]
pub enum Status {
    Success,
    Created,
    BadRequest,
    NotFound,
    InternalServerError,
}

/// The text of a status line after the version.
pub open spec fn status_text(s: Status) -> Seq<u8> {
    match s {
        Status::Success => lits::ok_text(),
        Status::Created => lits::created_text(),
        Status::BadRequest => lits::bad_request_text(),
        Status::NotFound => lits::not_found_text(),
        Status::InternalServerError => lits::server_error_text(),
    }
}

impl Status {
    /// The text of the status line after the version, e.g. `404 Not Found`.
    pub fn text(&self) -> (r: Vec<u8>)
        ensures
            r@ == status_text(*self),
    {
        match self {
            Status::Success => lits::ok_text_bytes(),
            Status::Created => lits::created_text_bytes(),
            Status::BadRequest => lits::bad_request_text_bytes(),
            Status::NotFound => lits::not_found_text_bytes(),
            Status::InternalServerError => lits::server_error_text_bytes(),
        }
    }
}

/// One response header field.
pub struct Field {
    pub name: Vec<u8>,
    pub value: Vec<u8>,
}

/// A response: status, header fields in the order they are sent, and body.
pub struct Response {
    pub status: Status,
    pub fields: Vec<Field>,
    pub body: Option<Vec<u8>>,
}

pub struct ResponseView {
    pub status: Status,
    pub fields: Seq<(Seq<u8>, Seq<u8>)>,
    pub body: Option<Seq<u8>>,
}

pub open spec fn fields_view(fs: Seq<Field>) -> Seq<(Seq<u8>, Seq<u8>)> {
    Seq::new(fs.len(), |i: int| (fs[i].name@, fs[i].value@))
}

impl View for Response {
    type V = ResponseView;

    open spec fn view(&self) -> ResponseView {
        ResponseView {
            status: self.status,
            fields: fields_view(self.fields@),
            body: crate::request::opt_bytes(self.body),
        }
    }
}

/// The decimal digits of `n`, most significant first.
pub open spec fn decimal(n: nat) -> Seq<u8>
    decreases n,
{
    if n < 10 {
        seq![(48 + n) as u8]
    } else {
        decimal(n / 10).push((48 + n % 10) as u8)
    }
}

/// The values of the fields named `name`, in order.
pub open spec fn values_named(fs: Seq<(Seq<u8>, Seq<u8>)>, name: Seq<u8>) -> Seq<Seq<u8>>
    decreases fs.len(),
{
    if fs.len() == 0 {
        seq![]
    } else if fs.last().0 == name {
        values_named(fs.drop_last(), name).push(fs.last().1)
    } else {
        values_named(fs.drop_last(), name)
    }
}

/// A body comes with exactly one `Content-Length` field giving its length,
/// and no body with none.
pub open spec fn framed(r: ResponseView) -> bool {
    match r.body {
        Some(b) => values_named(r.fields, lits::content_length()) == seq![decimal(b.len())],
        None => values_named(r.fields, lits::content_length()).len() == 0,
    }
}

/// `name: value\r\n` for each field.
pub open spec fn fields_bytes(fs: Seq<(Seq<u8>, Seq<u8>)>) -> Seq<u8>
    decreases fs.len(),
{
    if fs.len() == 0 {
        seq![]
    } else {
        fields_bytes(fs.drop_last()) + fs.last().0 + lits::field_sep() + fs.last().1 + lits::line_end()
    }
}

/// The bytes of a response on the wire. When the connection is to close, a
/// `Connection: close` field follows the others.
pub open spec fn encode_response(r: ResponseView, close: bool) -> Seq<u8> {
    let fs = if close {
        r.fields.push((lits::connection(), lits::close_token()))
    } else {
        r.fields
    };
    let body = match r.body {
        Some(b) => b,
        None => seq![],
    };
    lits::version_prefix() + status_text(r.status) + lits::line_end() + fields_bytes(fs) + lits::line_end() + body
}

/// Appends `s` to `v`.
pub fn push_all(v: &mut Vec<u8>, s: &[u8])
    ensures
        final(v)@ == old(v)@ + s@,
{
    let ghost start = v@;
    let mut i: usize = 0;
    while i < s.len()
        invariant
            i <= s@.len(),
            v@ == start + s@.subrange(0, i as int),
        decreases s.len() - i,
    {
        v.push(s[i]);
        i = i + 1;
        assert(v@ =~= start + s@.subrange(0, i as int));
    }
    assert(s@.subrange(0, i as int) =~= s@);
}

/// The decimal digits of `n`.
pub fn decimal_bytes(n: usize) -> (r: Vec<u8>)
    ensures
        r@ == decimal(n as nat),
    decreases n,
{
    if n < 10 {
        let r: Vec<u8> = vec![(48 + n) as u8];
        assert(r@ =~= decimal(n as nat));
        r
    } else {
        let mut r = decimal_bytes(n / 10);
        r.push((48 + n % 10) as u8);
        r
    }
}

impl Response {
    /// A response with no fields and no body.
    pub fn bare(status: Status) -> (r: Response)
        ensures
            r@ == (ResponseView { status, fields: seq![], body: None }),
            framed(r@),
    {
        let r = Response { status, fields: Vec::new(), body: None };
        assert(r@.fields =~= seq![]);
        r
    }

    /// A response with the given fields, then `Content-Length`, and `body`.
    pub fn with_body(status: Status, fields: Vec<Field>, body: Vec<u8>) -> (r: Response)
        requires
            values_named(fields_view(fields@), lits::content_length()).len() == 0,
        ensures
            r@ == (ResponseView {
                status,
                fields: fields_view(fields@).push((lits::content_length(), decimal(body@.len()))),
                body: Some(body@),
            }),
            framed(r@),
    {
        let mut fields = fields;
        let ghost before = fields_view(fields@);
        let len = decimal_bytes(body.len());
        fields.push(Field { name: lits::content_length_bytes(), value: len });
        let r = Response { status, fields, body: Some(body) };
        assert(r@.fields =~= before.push((lits::content_length(), decimal(body@.len()))));
        assert(r@.fields.drop_last() =~= before);
        assert(values_named(r@.fields, lits::content_length()) =~= seq![decimal(body@.len())]);
        r
    }

    /// The bytes of this response; with `close`, a `Connection: close` field
    /// is added after the others. Only a framed response is sent.
    pub fn encode(&self, close: bool) -> (r: Vec<u8>)
        requires
            framed(self@),
        ensures
            r@ == encode_response(self@, close),
    {
        let mut out = lits::version_prefix_bytes();
        let status = self.status.text();
        push_all(&mut out, status.as_slice());
        let eol = lits::line_end_bytes();
        push_all(&mut out, eol.as_slice());
        let sep = lits::field_sep_bytes();
        let ghost fv = fields_view(self.fields@);
        let ghost start = out@;
        let mut i: usize = 0;
        while i < self.fields.len()
            invariant
                i <= self.fields@.len(),
                fv == fields_view(self.fields@),
                sep@ == lits::field_sep(),
                eol@ == lits::line_end(),
                out@ == start + fields_bytes(fv.take(i as int)),
            decreases self.fields.len() - i,
        {
            let f = &self.fields[i];
            push_all(&mut out, f.name.as_slice());
            push_all(&mut out, sep.as_slice());
            push_all(&mut out, f.value.as_slice());
            push_all(&mut out, eol.as_slice());
            assert(fv.take(i + 1).drop_last() =~= fv.take(i as int));
            i = i + 1;
            assert(out@ =~= start + fields_bytes(fv.take(i as int)));
        }
        assert(fv.take(i as int) =~= fv);
        let ghost fs = if close {
            fv.push((lits::connection(), lits::close_token()))
        } else {
            fv
        };
        if close {
            push_all(&mut out, lits::connection_bytes().as_slice());
            push_all(&mut out, sep.as_slice());
            push_all(&mut out, lits::close_token_bytes().as_slice());
            push_all(&mut out, eol.as_slice());
            assert(fs.drop_last() =~= fv);
        }
        assert(out@ =~= start + fields_bytes(fs));
        push_all(&mut out, eol.as_slice());
        match &self.body {
            Some(b) => push_all(&mut out, b.as_slice()),
            None => {},
        }
        assert(out@ =~= encode_response(self@, close));
        out
    }
}

} // verus!
