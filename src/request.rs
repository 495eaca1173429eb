//! HTTP request parsing: raw bytes to method, path, headers and body.
use vstd::prelude::*;
use crate::response::push_all;
use crate::text::{
    copy_range, find, find_from, has_prefix, occurs_at, split, split_on, split_words,
    starts_with, trim, trimmed, views, words,
};

verus! {

/// One header: its name and its values, in the order they arrived.
#[derive(Debug)]
pub struct Header {
    pub name: Vec<u8>,
    pub values: Vec<Vec<u8>>,
}

/// A parsed request.
#[derive(Debug)]
pub struct HttpRequest {
    pub method: Vec<u8>,
    pub path: Vec<u8>,
    /// Each name appears once; repeated header lines add to the values.
    pub headers: Vec<Header>,
    /// Present exactly when the request holds a blank line.
    pub body: Option<Vec<u8>>,
}

/// A header as a name and its list of values.
pub type HeaderView = (Seq<u8>, Seq<Seq<u8>>);

/// The mathematical value of a request.
pub struct RequestView {
    pub method: Seq<u8>,
    pub path: Seq<u8>,
    pub headers: Seq<HeaderView>,
    pub body: Option<Seq<u8>>,
}

pub open spec fn header_view(h: Header) -> HeaderView {
    (h.name@, views(h.values@))
}

pub open spec fn headers_view(hs: Seq<Header>) -> Seq<HeaderView> {
    Seq::new(hs.len(), |i: int| header_view(hs[i]))
}

pub open spec fn opt_bytes(o: Option<Vec<u8>>) -> Option<Seq<u8>> {
    match o {
        Some(b) => Some(b@),
        None => None,
    }
}

impl View for HttpRequest {
    type V = RequestView;

    open spec fn view(&self) -> RequestView {
        RequestView {
            method: self.method@,
            path: self.path@,
            headers: headers_view(self.headers@),
            body: opt_bytes(self.body),
        }
    }
}

pub open spec fn opt_request(r: Option<HttpRequest>) -> Option<RequestView> {
    match r {
        Some(q) => Some(q@),
        None => None,
    }
}

/// `\r\n`
pub open spec fn crlf() -> Seq<u8> {
    seq![13u8, 10u8]
}

/// `\r\n\r\n`, the end of the head.
pub open spec fn blank_line() -> Seq<u8> {
    seq![13u8, 10u8, 13u8, 10u8]
}

/// `HTTP`, the start of the protocol version.
pub open spec fn http_prefix() -> Seq<u8> {
    seq![72u8, 84u8, 84u8, 80u8]
}

/// `, `, the separator of a list of header values.
pub open spec fn list_sep() -> Seq<u8> {
    seq![44u8, 32u8]
}

/// `:`
pub open spec fn colon() -> Seq<u8> {
    seq![58u8]
}

/// Everything before the first blank line, or all of `raw` when it has none.
pub open spec fn head_of(raw: Seq<u8>) -> Seq<u8> {
    let k = find_from(raw, blank_line(), 0);
    if k < 0 {
        raw
    } else {
        raw.subrange(0, k)
    }
}

/// Everything after the first blank line, when there is one.
pub open spec fn body_of(raw: Seq<u8>) -> Option<Seq<u8>> {
    let k = find_from(raw, blank_line(), 0);
    if k < 0 {
        None
    } else {
        Some(raw.subrange(k + 4, raw.len() as int))
    }
}

/// A header line cut at its first colon: the trimmed name, and the trimmed
/// value split at each `, `. A line without a colon is malformed.
pub open spec fn parse_header_line(line: Seq<u8>) -> Option<HeaderView> {
    let c = find_from(line, colon(), 0);
    if c < 0 {
        None
    } else {
        Some(
            (
                trim(line.subrange(0, c)),
                split_on(trim(line.subrange(c + 1, line.len() as int)), list_sep()),
            ),
        )
    }
}

/// Index of the first header at or after `i` named `name`, or -1.
pub open spec fn header_index(hs: Seq<HeaderView>, name: Seq<u8>, i: int) -> int
    decreases hs.len() - i,
{
    if i < 0 || i >= hs.len() {
        -1
    } else if hs[i].0 == name {
        i
    } else {
        header_index(hs, name, i + 1)
    }
}

/// `hs` with header `h` added: its values join those of a header of the same
/// name, or it is appended as a new header.
pub open spec fn add_header(hs: Seq<HeaderView>, h: HeaderView) -> Seq<HeaderView> {
    let k = header_index(hs, h.0, 0);
    if k < 0 {
        hs.push(h)
    } else {
        hs.update(k, (h.0, hs[k].1 + h.1))
    }
}

/// The headers of a sequence of header lines, or `None` if one is malformed.
pub open spec fn collect_headers(lines: Seq<Seq<u8>>) -> Option<Seq<HeaderView>>
    decreases lines.len(),
{
    if lines.len() == 0 {
        Some(seq![])
    } else {
        match collect_headers(lines.drop_last()) {
            None => None,
            Some(hs) => match parse_header_line(lines.last()) {
                None => None,
                Some(h) => Some(add_header(hs, h)),
            },
        }
    }
}

/// The request that `raw` holds, if any: the head is cut into lines at each
/// `\r\n`; the first line must have at least three words, the third starting
/// with `HTTP`; each further line is a header.
pub open spec fn parse_request(raw: Seq<u8>) -> Option<RequestView> {
    let lines = split_on(head_of(raw), crlf());
    let toks = words(lines[0]);
    if toks.len() < 3 || !starts_with(toks[2], http_prefix()) {
        None
    } else {
        match collect_headers(lines.drop_first()) {
            None => None,
            Some(hs) => Some(
                RequestView { method: toks[0], path: toks[1], headers: hs, body: body_of(raw) },
            ),
        }
    }
}

/// The values of the header named `name`, if there is one.
pub open spec fn header_values(hs: Seq<HeaderView>, name: Seq<u8>) -> Option<Seq<Seq<u8>>> {
    let k = header_index(hs, name, 0);
    if k < 0 {
        None
    } else {
        Some(hs[k].1)
    }
}

/// `HTTP/1.1`, the version an encoded request names.
pub open spec fn version() -> Seq<u8> {
    seq![72u8, 84u8, 84u8, 80u8, 47u8, 49u8, 46u8, 49u8]
}

/// The values joined with `, `.
pub open spec fn join_values(vs: Seq<Seq<u8>>) -> Seq<u8>
    decreases vs.len(),
{
    if vs.len() == 0 {
        seq![]
    } else if vs.len() == 1 {
        vs[0]
    } else {
        join_values(vs.drop_last()) + list_sep() + vs.last()
    }
}

/// `name: v1, v2, ...`
pub open spec fn header_line(h: HeaderView) -> Seq<u8> {
    h.0 + seq![58u8, 32u8] + join_values(h.1)
}

/// `\r\n` before each header line.
pub open spec fn header_lines(hs: Seq<HeaderView>) -> Seq<u8>
    decreases hs.len(),
{
    if hs.len() == 0 {
        seq![]
    } else {
        header_lines(hs.drop_last()) + crlf() + header_line(hs.last())
    }
}

/// `method path HTTP/1.1`
pub open spec fn request_line(r: RequestView) -> Seq<u8> {
    r.method + seq![32u8] + r.path + seq![32u8] + version()
}

/// The head of an encoded request: its request line and header lines.
pub open spec fn request_head(r: RequestView) -> Seq<u8> {
    request_line(r) + header_lines(r.headers)
}

/// The bytes of a request: head, blank line, and the body if there is one.
pub open spec fn encode_request(r: RequestView) -> Seq<u8> {
    let body = match r.body {
        Some(b) => b,
        None => seq![],
    };
    request_head(r) + blank_line() + body
}

proof fn lemma_split_on_nonempty(s: Seq<u8>, sep: Seq<u8>)
    ensures
        split_on(s, sep).len() >= 1,
{
}

proof fn lemma_header_index_bounds(hs: Seq<HeaderView>, name: Seq<u8>, i: int)
    ensures
        header_index(hs, name, i) == -1 || (i <= header_index(hs, name, i) < hs.len()
            && hs[header_index(hs, name, i)].0 == name),
    decreases hs.len() - i,
{
    if !(i < 0 || i >= hs.len()) && hs[i].0 != name {
        lemma_header_index_bounds(hs, name, i + 1);
    }
}

pub fn bytes_eq(a: &[u8], b: &[u8]) -> (r: bool)
    ensures
        r == (a@ == b@),
{
    if a.len() != b.len() {
        return false;
    }
    let r = occurs_at_exec_full(a, b);
    r
}

fn occurs_at_exec_full(a: &[u8], b: &[u8]) -> (r: bool)
    requires
        a@.len() == b@.len(),
    ensures
        r == (a@ == b@),
{
    let r = crate::text::occurs_at_exec(a, b, 0);
    assert(occurs_at(a@, b@, 0) ==> a@ =~= b@) by {
        if occurs_at(a@, b@, 0) {
            assert(a@.subrange(0, b@.len() as int) =~= a@);
        }
    };
    assert(a@ == b@ ==> a@.subrange(0, b@.len() as int) =~= b@);
    r
}

/// Index of the header named `name` in `hs`.
pub fn find_header(hs: &Vec<Header>, name: &[u8]) -> (r: Option<usize>)
    ensures
        match r {
            Some(k) => k as int == header_index(headers_view(hs@), name@, 0) && k < hs@.len(),
            None => header_index(headers_view(hs@), name@, 0) == -1,
        },
{
    let ghost hv = headers_view(hs@);
    let mut i: usize = 0;
    while i < hs.len()
        invariant
            hv == headers_view(hs@),
            i <= hs@.len(),
            header_index(hv, name@, 0) == header_index(hv, name@, i as int),
        decreases hs.len() - i,
    {
        if bytes_eq(hs[i].name.as_slice(), name) {
            return Some(i);
        }
        i = i + 1;
    }
    None
}

/// Adds a header to `hs` as [`add_header`] says.
pub fn insert_header(hs: &mut Vec<Header>, h: Header)
    ensures
        headers_view(final(hs)@) == add_header(headers_view(old(hs)@), header_view(h)),
{
    let ghost hv = headers_view(hs@);
    match find_header(hs, h.name.as_slice()) {
        None => {
            hs.push(h);
            assert(headers_view(hs@) =~= hv.push(header_view(h)));
        },
        Some(k) => {
            let Header { name, values } = h;
            let ghost added = views(values@);
            let mut vals = values;
            let mut entry = Header { name: Vec::new(), values: Vec::new() };
            hs.set_and_swap(k, &mut entry);
            let ghost old_values = views(entry.values@);
            entry.values.append(&mut vals);
            assert(views(entry.values@) =~= old_values + added);
            let merged = Header { name, values: entry.values };
            hs.set(k, merged);
            assert(headers_view(hs@) =~= hv.update(k as int, (hv[k as int].0, hv[k as int].1
                + added))) by {
                lemma_header_index_bounds(hv, header_view(h).0, 0);
            };
        },
    }
}

/// Parses one header line.
pub fn parse_header(line: &[u8]) -> (r: Option<Header>)
    ensures
        match r {
            Some(h) => parse_header_line(line@) == Some(header_view(h)),
            None => parse_header_line(line@).is_none(),
        },
{
    let colon: [u8; 1] = [58u8];
    assert(colon@ =~= crate::request::colon());
    let len: usize = line.len();
    match find(line, colon.as_slice(), 0) {
        None => None,
        Some(c) => {
            proof {
                crate::text::lemma_find_from_bounds(line@, colon@, 0);
            }
            let name_part = copy_range(line, 0, c);
            let value_part = copy_range(line, c + 1, len);
            let name = trimmed(name_part.as_slice());
            let value = trimmed(value_part.as_slice());
            let sep: [u8; 2] = [44u8, 32u8];
            assert(sep@ =~= list_sep());
            let values = split(value.as_slice(), sep.as_slice());
            Some(Header { name, values })
        },
    }
}

impl HttpRequest {
    /// The bytes of this request: `method path HTTP/1.1`, one line per header
    /// with its values joined by `, `, a blank line, then the body.
    pub fn encode(&self) -> (r: Vec<u8>)
        ensures
            r@ == encode_request(self@),
    {
        let mut out: Vec<u8> = Vec::new();
        let sp: [u8; 1] = [32u8];
        push_all(&mut out, self.method.as_slice());
        push_all(&mut out, sp.as_slice());
        push_all(&mut out, self.path.as_slice());
        push_all(&mut out, sp.as_slice());
        let ver: [u8; 8] = [72u8, 84u8, 84u8, 80u8, 47u8, 49u8, 46u8, 49u8];
        push_all(&mut out, ver.as_slice());
        assert(out@ =~= request_line(self@));
        let eol: [u8; 2] = [13u8, 10u8];
        let colon_sp: [u8; 2] = [58u8, 32u8];
        let comma_sp: [u8; 2] = [44u8, 32u8];
        let ghost hv = headers_view(self.headers@);
        let mut i: usize = 0;
        while i < self.headers.len()
            invariant
                i <= self.headers@.len(),
                hv == headers_view(self.headers@),
                eol@ == crlf(),
                colon_sp@ == seq![58u8, 32u8],
                comma_sp@ == list_sep(),
                out@ == request_line(self@) + header_lines(hv.take(i as int)),
            decreases self.headers.len() - i,
        {
            let h = &self.headers[i];
            let ghost before = out@;
            push_all(&mut out, eol.as_slice());
            push_all(&mut out, h.name.as_slice());
            push_all(&mut out, colon_sp.as_slice());
            let ghost vs = views(h.values@);
            let ghost line_start = out@;
            let mut j: usize = 0;
            while j < h.values.len()
                invariant
                    j <= h.values@.len(),
                    vs == views(h.values@),
                    comma_sp@ == list_sep(),
                    out@ == line_start + join_values(vs.take(j as int)),
                decreases h.values.len() - j,
            {
                if j > 0 {
                    push_all(&mut out, comma_sp.as_slice());
                }
                push_all(&mut out, h.values[j].as_slice());
                proof {
                    let t = vs.take(j + 1);
                    assert(t.drop_last() =~= vs.take(j as int));
                    if j == 0 {
                        assert(join_values(vs.take(0)) =~= seq![]);
                    }
                }
                j = j + 1;
                assert(out@ =~= line_start + join_values(vs.take(j as int)));
            }
            assert(vs.take(j as int) =~= vs);
            assert(hv.take(i + 1).drop_last() =~= hv.take(i as int));
            assert(out@ =~= before + crlf() + header_line(hv[i as int]));
            i = i + 1;
        }
        assert(hv.take(i as int) =~= hv);
        let blank: [u8; 4] = [13u8, 10u8, 13u8, 10u8];
        push_all(&mut out, blank.as_slice());
        match &self.body {
            Some(b) => push_all(&mut out, b.as_slice()),
            None => {},
        }
        assert(out@ =~= encode_request(self@));
        out
    }

    /// Parses a request. Returns `None` when the first line of the head has
    /// fewer than three words or its third word does not start with `HTTP`,
    /// or when a header line has no colon.
    pub fn parse(data: &[u8]) -> (r: Option<HttpRequest>)
        ensures
            opt_request(r) == parse_request(data@),
    {
        let delim: [u8; 4] = [13u8, 10u8, 13u8, 10u8];
        assert(delim@ =~= blank_line());
        let len: usize = data.len();
        let (head, body) = match find(data, delim.as_slice(), 0) {
            None => (copy_range(data, 0, len), None),
            Some(k) => {
                proof {
                    crate::text::lemma_find_from_bounds(data@, delim@, 0);
                }
                (copy_range(data, 0, k), Some(copy_range(data, k + 4, len)))
            },
        };
        assert(head@ == head_of(data@)) by {
            assert(data@.subrange(0, data@.len() as int) =~= data@);
        };
        assert(opt_bytes(body) == body_of(data@));
        let eol: [u8; 2] = [13u8, 10u8];
        assert(eol@ =~= crlf());
        let lines = split(head.as_slice(), eol.as_slice());
        proof {
            lemma_split_on_nonempty(head@, crlf());
        }
        let toks = split_words(lines[0].as_slice());
        assert(views(lines@)[0] == lines@[0]@);
        let proto: [u8; 4] = [72u8, 84u8, 84u8, 80u8];
        assert(proto@ =~= http_prefix());
        if toks.len() < 3 || !has_prefix(toks[2].as_slice(), proto.as_slice()) {
            return None;
        }
        assert(views(toks@)[2] == toks@[2]@);
        let ghost rest = views(lines@).drop_first();
        let mut headers: Vec<Header> = Vec::new();
        let mut i: usize = 1;
        while i < lines.len()
            invariant
                1 <= i <= lines@.len(),
                rest == views(lines@).drop_first(),
                views(lines@) == split_on(head_of(data@), crlf()),
                views(toks@) == words(split_on(head_of(data@), crlf())[0]),
                toks@.len() >= 3,
                starts_with(views(toks@)[2], http_prefix()),
                opt_bytes(body) == body_of(data@),
                collect_headers(rest.take(i - 1)) == Some(headers_view(headers@)),
            decreases lines.len() - i,
        {
            match parse_header(lines[i].as_slice()) {
                None => {
                    proof {
                        assert(rest[i - 1] == lines@[i as int]@);
                        lemma_collect_none_extends(rest, i as int);
                    }
                    return None;
                },
                Some(h) => {
                    assert(rest.take(i as int).drop_last() =~= rest.take(i - 1));
                    insert_header(&mut headers, h);
                },
            }
            i = i + 1;
        }
        assert(rest.take(i - 1) =~= rest);
        let method = copy_range(toks[0].as_slice(), 0, toks[0].len());
        let path = copy_range(toks[1].as_slice(), 0, toks[1].len());
        assert(toks[0]@.subrange(0, toks[0]@.len() as int) =~= toks[0]@);
        assert(toks[1]@.subrange(0, toks[1]@.len() as int) =~= toks[1]@);
        Some(HttpRequest { method, path, headers, body })
    }
}

/// A malformed line stays fatal however many lines follow it.
proof fn lemma_collect_none_extends(lines: Seq<Seq<u8>>, n: int)
    requires
        1 <= n <= lines.len(),
        parse_header_line(lines[n - 1]).is_none(),
    ensures
        collect_headers(lines).is_none(),
    decreases lines.len(),
{
    if lines.len() > n {
        lemma_collect_none_extends(lines.drop_last(), n);
    } else {
        assert(lines.take(n) =~= lines);
    }
}

} // verus!
