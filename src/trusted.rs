//! The calls this library makes into other crates and into std, each behind
//! a contract stated over plain values.
use vstd::prelude::*;
use std::io::Write;
use crate::text::occurs_at;

verus! {

/// The gzip member that flate2 writes for `data`.
pub uninterp spec fn gzip_of(data: Seq<u8>) -> Seq<u8>;

/// Relies on flate2::write::GzEncoder (new, write_all, finish) at the default
/// level and with the default header (no name, no time stamp): the bytes it
/// writes depend on the input alone. Writing into a `Vec` cannot fail.
#[verifier::external_body]
pub(crate) fn gzip(data: &[u8]) -> (r: Vec<u8>)
    ensures
        r@ == gzip_of(data@),
{
    let mut encoder = flate2::write::GzEncoder::new(Vec::new(), flate2::Compression::default());
    encoder.write_all(data).unwrap();
    encoder.finish().unwrap()
}

/// Relies on core::str::from_utf8: it succeeds exactly on valid UTF-8.
#[verifier::external_body]
pub(crate) fn is_utf8(b: &[u8]) -> (r: bool)
    ensures
        r == vstd::utf8::valid_utf8(b@),
{
    core::str::from_utf8(b).is_ok()
}

/// The pattern that selects the echo route: `/echo/` then one or more bytes
/// other than a line feed, captured as `echo_str`.
pub open spec fn echo_pattern() -> Seq<char> {
    seq!['/', 'e', 'c', 'h', 'o', '/', '(', '?', '<', 'e', 'c', 'h', 'o', '_', 's', 't', 'r', '>', '(', '?', '-', 'u', ':', '.', ')', '+', ')']
}

/// The name of the group that the echo pattern captures.
pub open spec fn echo_group() -> Seq<char> {
    seq!['e', 'c', 'h', 'o', '_', 's', 't', 'r']
}

/// Where the leftmost match of the echo pattern at or after `i` starts, or -1.
pub open spec fn echo_start(t: Seq<u8>, i: int) -> int
    decreases t.len() + 1 - i,
{
    if i < 0 || i + 7 > t.len() {
        -1
    } else if occurs_at(t, crate::lits::echo_prefix(), i) && t[i + 6] != 10 {
        i
    } else {
        echo_start(t, i + 1)
    }
}

/// The first index at or after `i` that holds a line feed, or the length of `t`.
pub open spec fn line_stop(t: Seq<u8>, i: int) -> int
    decreases t.len() - i,
{
    if i < 0 || i >= t.len() || t[i] == 10 {
        i
    } else {
        line_stop(t, i + 1)
    }
}

/// What the echo pattern captures in `t`: after the leftmost `/echo/` that is
/// followed by a byte other than a line feed, every byte up to the next line
/// feed or the end (`+` is greedy).
pub open spec fn echo_capture(t: Seq<u8>) -> Option<Seq<u8>> {
    let i = echo_start(t, 0);
    if i < 0 {
        None
    } else {
        Some(t.subrange(i + 6, line_stop(t, i + 6)))
    }
}

/// Relies on regex::bytes::Regex::new, Regex::captures and Captures::name:
/// `None` when the pattern does not compile, the text does not match or the
/// group took no part; else the bytes the group matched in the leftmost-first
/// match. For the echo pattern that is [`echo_capture`].
#[verifier::external_body]
pub(crate) fn capture_group(pattern: &str, group: &str, text: &[u8]) -> (r: Option<Vec<u8>>)
    ensures
        pattern@ == echo_pattern() && group@ == echo_group() ==> crate::request::opt_bytes(r)
            == echo_capture(text@),
{
    let re = regex::bytes::Regex::new(pattern).ok()?;
    let caps = re.captures(text)?;
    caps.name(group).map(|m| m.as_bytes().to_vec())
}

} // verus!
