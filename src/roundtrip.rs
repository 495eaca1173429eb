//! Encoding a parsed request and parsing it again gives back its method,
//! path, headers and body.
use vstd::prelude::*;
use crate::request::{
    blank_line, colon, collect_headers, crlf, encode_request, header_index, header_line,
    header_lines, http_prefix, join_values, list_sep, parse_header_line, parse_request,
    request_head, request_line, version, add_header, head_of, HeaderView, RequestView,
};
use crate::text::{
    find_from, is_space, occurs_at, split_from, split_on, trim, trim_end, trim_start,
    word_end, words, words_from,
};

verus! {

/// `pat` occurs nowhere in `s`.
pub open spec fn no_occ(s: Seq<u8>, pat: Seq<u8>) -> bool {
    forall|j: int| !#[trigger] occurs_at(s, pat, j)
}

/// `s` holds no whitespace byte.
pub open spec fn no_space(s: Seq<u8>) -> bool {
    forall|j: int| 0 <= j < s.len() ==> !is_space(#[trigger] s[j])
}

proof fn lemma_find_first(s: Seq<u8>, pat: Seq<u8>, i: int)
    requires
        0 <= i,
    ensures
        find_from(s, pat, i) == -1 ==> forall|j: int| i <= j ==> !#[trigger] occurs_at(s, pat, j),
        find_from(s, pat, i) != -1 ==> i <= find_from(s, pat, i) && occurs_at(
            s,
            pat,
            find_from(s, pat, i),
        ) && forall|j: int| i <= j < find_from(s, pat, i) ==> !#[trigger] occurs_at(s, pat, j),
    decreases s.len() + 1 - i,
{
    if i + pat.len() <= s.len() && !occurs_at(s, pat, i) {
        lemma_find_first(s, pat, i + 1);
    }
}

proof fn lemma_find_is(s: Seq<u8>, pat: Seq<u8>, i: int, k: int)
    requires
        0 <= i <= k,
        occurs_at(s, pat, k),
        forall|j: int| i <= j < k ==> !#[trigger] occurs_at(s, pat, j),
    ensures
        find_from(s, pat, i) == k,
    decreases k - i,
{
    if i < k {
        assert(!occurs_at(s, pat, i));
        lemma_find_is(s, pat, i + 1, k);
    }
}

proof fn lemma_find_none(s: Seq<u8>, pat: Seq<u8>, i: int)
    requires
        0 <= i,
        forall|j: int| i <= j ==> !#[trigger] occurs_at(s, pat, j),
    ensures
        find_from(s, pat, i) == -1,
    decreases s.len() + 1 - i,
{
    if i + pat.len() <= s.len() {
        assert(!occurs_at(s, pat, i));
        lemma_find_none(s, pat, i + 1);
    }
}

proof fn lemma_occurs_shift(p: Seq<u8>, b: Seq<u8>, pat: Seq<u8>, i: int)
    requires
        0 <= i,
    ensures
        occurs_at(p + b, pat, p.len() + i) == occurs_at(b, pat, i),
{
    if i + pat.len() <= b.len() {
        assert((p + b).subrange(p.len() + i, p.len() + i + pat.len()) =~= b.subrange(i, i + pat.len()));
    }
}

proof fn lemma_find_shift(p: Seq<u8>, b: Seq<u8>, pat: Seq<u8>, i: int)
    requires
        0 <= i,
    ensures
        find_from(p + b, pat, p.len() + i) == if find_from(b, pat, i) < 0 {
            -1
        } else {
            p.len() + find_from(b, pat, i)
        },
    decreases b.len() + 1 - i,
{
    lemma_occurs_shift(p, b, pat, i);
    if i + pat.len() <= b.len() && !occurs_at(b, pat, i) {
        lemma_find_shift(p, b, pat, i + 1);
    }
}

proof fn lemma_split_shift(p: Seq<u8>, b: Seq<u8>, sep: Seq<u8>, i: int)
    requires
        0 <= i <= b.len(),
        sep.len() > 0,
    ensures
        split_from(p + b, sep, p.len() + i) == split_from(b, sep, i),
    decreases b.len() + 1 - i,
{
    let s = p + b;
    lemma_find_shift(p, b, sep, i);
    lemma_find_first(b, sep, i);
    let k = find_from(b, sep, i);
    if k < 0 {
        assert(s.subrange(p.len() + i, s.len() as int) =~= b.subrange(i, b.len() as int));
    } else {
        assert(s.subrange(p.len() + i, p.len() + k) =~= b.subrange(i, k));
        lemma_split_shift(p, b, sep, k + sep.len());
    }
}

/// Where the first separator lies in `a + sep + b`, for a two-byte separator
/// whose bytes differ.
proof fn lemma_find_in_join(a: Seq<u8>, b: Seq<u8>, sep: Seq<u8>, i: int)
    requires
        sep.len() == 2,
        sep[0] != sep[1],
        0 <= i <= a.len(),
    ensures
        find_from(a + sep + b, sep, i) == if find_from(a, sep, i) >= 0 {
            find_from(a, sep, i)
        } else {
            a.len() as int
        },
{
    let s = a + sep + b;
    lemma_find_first(a, sep, i);
    assert forall|j: int| 0 <= j && j + 2 <= a.len() implies occurs_at(s, sep, j) == occurs_at(
        a,
        sep,
        j,
    ) by {
        assert(s.subrange(j, j + 2) =~= a.subrange(j, j + 2));
    };
    assert(s.subrange(a.len() as int, a.len() + 2 as int) =~= sep);
    if a.len() >= 1 {
        assert(s[a.len() as int] == sep[0]);
        assert(!occurs_at(s, sep, a.len() - 1)) by {
            if occurs_at(s, sep, a.len() - 1) {
                assert(s.subrange(a.len() - 1, a.len() + 1 as int)[1] == s[a.len() as int]);
            }
        };
    }
    let k = find_from(a, sep, i);
    if k >= 0 {
        lemma_find_is(s, sep, i, k);
    } else {
        assert forall|j: int| i <= j < a.len() implies !#[trigger] occurs_at(s, sep, j) by {
            if j + 2 <= a.len() {
                assert(!occurs_at(a, sep, j));
            }
        };
        lemma_find_is(s, sep, i, a.len() as int);
    }
}

proof fn lemma_split_join_from(a: Seq<u8>, b: Seq<u8>, sep: Seq<u8>, i: int)
    requires
        sep.len() == 2,
        sep[0] != sep[1],
        0 <= i <= a.len(),
    ensures
        split_from(a + sep + b, sep, i) == split_from(a, sep, i) + split_on(b, sep),
    decreases a.len() + 1 - i,
{
    let s = a + sep + b;
    lemma_find_in_join(a, b, sep, i);
    lemma_find_first(a, sep, i);
    lemma_find_first(s, sep, i);
    let k = find_from(a, sep, i);
    if k >= 0 {
        assert(s.subrange(i, k) =~= a.subrange(i, k));
        lemma_split_join_from(a, b, sep, k + 2);
        assert(split_from(s, sep, i) =~= split_from(a, sep, i) + split_on(b, sep));
    } else {
        assert(s.subrange(i, a.len() as int) =~= a.subrange(i, a.len() as int));
        lemma_split_shift(a + sep, b, sep, 0);
        assert(a + sep + b =~= (a + sep) + b);
        assert(split_from(s, sep, i) =~= split_from(a, sep, i) + split_on(b, sep));
    }
}

/// Cutting `a + sep + b` at a two-byte separator with distinct bytes cuts
/// `a` and `b` apart.
pub proof fn lemma_split_join(a: Seq<u8>, b: Seq<u8>, sep: Seq<u8>)
    requires
        sep.len() == 2,
        sep[0] != sep[1],
    ensures
        split_on(a + sep + b, sep) == split_on(a, sep) + split_on(b, sep),
{
    lemma_split_join_from(a, b, sep, 0);
}

/// A string without the separator is a single piece.
pub proof fn lemma_split_single(s: Seq<u8>, sep: Seq<u8>)
    requires
        sep.len() > 0,
        no_occ(s, sep),
    ensures
        split_on(s, sep) == seq![s],
{
    lemma_find_none(s, sep, 0);
    assert(s.subrange(0, s.len() as int) =~= s);
}

proof fn lemma_occurs_sub(s: Seq<u8>, pat: Seq<u8>, a: int, b: int, j: int)
    requires
        0 <= a <= b <= s.len(),
        occurs_at(s.subrange(a, b), pat, j),
    ensures
        occurs_at(s, pat, a + j),
{
    assert(s.subrange(a, b).subrange(j, j + pat.len()) =~= s.subrange(a + j, a + j + pat.len()));
}

/// A part of a string without `pat` has none either.
pub proof fn lemma_no_occ_sub(s: Seq<u8>, pat: Seq<u8>, a: int, b: int)
    requires
        0 <= a <= b <= s.len(),
        no_occ(s, pat),
    ensures
        no_occ(s.subrange(a, b), pat),
{
    assert forall|j: int| !#[trigger] occurs_at(s.subrange(a, b), pat, j) by {
        if occurs_at(s.subrange(a, b), pat, j) {
            lemma_occurs_sub(s, pat, a, b, j);
        }
    };
}

/// The pieces of a split hold no separator, and keep out whatever `s` keeps out.
proof fn lemma_split_pieces(s: Seq<u8>, sep: Seq<u8>, q: Seq<u8>, i: int)
    requires
        sep.len() > 0,
        0 <= i <= s.len(),
        no_occ(s, q),
    ensures
        forall|m: int| 0 <= m < split_from(s, sep, i).len() ==> no_occ(
            #[trigger] split_from(s, sep, i)[m],
            sep,
        ) && no_occ(split_from(s, sep, i)[m], q),
    decreases s.len() + 1 - i,
{
    lemma_find_first(s, sep, i);
    let k = find_from(s, sep, i);
    if k < 0 {
        let piece = s.subrange(i, s.len() as int);
        assert forall|j: int| !#[trigger] occurs_at(piece, sep, j) by {
            if occurs_at(piece, sep, j) {
                lemma_occurs_sub(s, sep, i, s.len() as int, j);
            }
        };
        lemma_no_occ_sub(s, q, i, s.len() as int);
    } else {
        let piece = s.subrange(i, k);
        assert forall|j: int| !#[trigger] occurs_at(piece, sep, j) by {
            if occurs_at(piece, sep, j) {
                lemma_occurs_sub(s, sep, i, k, j);
            }
        };
        lemma_no_occ_sub(s, q, i, k);
        lemma_split_pieces(s, sep, q, k + sep.len());
        let rest = split_from(s, sep, k + sep.len());
        assert forall|m: int| 0 <= m < split_from(s, sep, i).len() implies no_occ(
            #[trigger] split_from(s, sep, i)[m],
            sep,
        ) && no_occ(split_from(s, sep, i)[m], q) by {
            if m > 0 {
                assert(split_from(s, sep, i)[m] == rest[m - 1]);
            }
        };
    }
}

proof fn lemma_no_occ_drop_first(s: Seq<u8>, q: Seq<u8>)
    requires
        s.len() > 0,
        no_occ(s, q),
    ensures
        no_occ(s.drop_first(), q),
{
    assert(s.drop_first() =~= s.subrange(1, s.len() as int));
    lemma_no_occ_sub(s, q, 1, s.len() as int);
}

proof fn lemma_no_occ_drop_last(s: Seq<u8>, q: Seq<u8>)
    requires
        s.len() > 0,
        no_occ(s, q),
    ensures
        no_occ(s.drop_last(), q),
{
    assert(s.drop_last() =~= s.subrange(0, s.len() - 1));
    lemma_no_occ_sub(s, q, 0, s.len() - 1);
}

proof fn lemma_trim_start_no_occ(s: Seq<u8>, q: Seq<u8>)
    requires
        no_occ(s, q),
    ensures
        no_occ(trim_start(s), q),
        trim_start(s).len() == 0 || !is_space(trim_start(s)[0]),
    decreases s.len(),
{
    if s.len() > 0 && is_space(s[0]) {
        lemma_no_occ_drop_first(s, q);
        lemma_trim_start_no_occ(s.drop_first(), q);
    }
}

proof fn lemma_trim_end_props(s: Seq<u8>, q: Seq<u8>)
    requires
        no_occ(s, q),
    ensures
        no_occ(trim_end(s), q),
        trim_end(s).len() <= s.len(),
        trim_end(s) == s.subrange(0, trim_end(s).len() as int),
        trim_end(s).len() == 0 || !is_space(trim_end(s).last()),
    decreases s.len(),
{
    if s.len() > 0 && is_space(s.last()) {
        lemma_no_occ_drop_last(s, q);
        lemma_trim_end_props(s.drop_last(), q);
        assert(s.drop_last().subrange(0, trim_end(s).len() as int) =~= s.subrange(
            0,
            trim_end(s).len() as int,
        ));
    } else {
        assert(s.subrange(0, s.len() as int) =~= s);
    }
}

/// Trimming keeps out what the string keeps out, and a trimmed string is
/// its own trim.
pub proof fn lemma_trim(s: Seq<u8>, q: Seq<u8>)
    requires
        no_occ(s, q),
    ensures
        no_occ(trim(s), q),
        trim(trim(s)) == trim(s),
{
    let y = trim_start(s);
    lemma_trim_start_no_occ(s, q);
    lemma_trim_end_props(y, q);
    let z = trim_end(y);
    if z.len() > 0 {
        assert(z[0] == y[0]);
    }
    assert(trim_start(z) == z);
    assert(trim_end(z) == z);
}

/// A space before a string goes in trimming.
proof fn lemma_trim_space_before(s: Seq<u8>)
    ensures
        trim(seq![32u8] + s) == trim(s),
{
    assert((seq![32u8] + s).drop_first() =~= s);
}

proof fn lemma_no_cr_no_occ(s: Seq<u8>)
    requires
        forall|j: int| 0 <= j < s.len() ==> s[j] != 13,
    ensures
        no_occ(s, crlf()),
{
    assert forall|j: int| !#[trigger] occurs_at(s, crlf(), j) by {
        if occurs_at(s, crlf(), j) {
            assert(s.subrange(j, j + 2)[0] == s[j]);
        }
    };
}

/// Joining two strings without `\r\n` makes none unless one ends in `\r`
/// and the other starts with `\n`.
pub proof fn lemma_crlf_concat(a: Seq<u8>, b: Seq<u8>)
    requires
        no_occ(a, crlf()),
        no_occ(b, crlf()),
        a.len() == 0 || b.len() == 0 || a.last() != 13 || b[0] != 10,
    ensures
        no_occ(a + b, crlf()),
{
    let s = a + b;
    assert forall|j: int| !#[trigger] occurs_at(s, crlf(), j) by {
        if occurs_at(s, crlf(), j) {
            if j + 2 <= a.len() {
                assert(s.subrange(j, j + 2) =~= a.subrange(j, j + 2));
                assert(occurs_at(a, crlf(), j));
            } else if j >= a.len() {
                assert(s.subrange(j, j + 2) =~= b.subrange(j - a.len(), j - a.len() + 2));
                assert(occurs_at(b, crlf(), j - a.len()));
            } else {
                assert(s.subrange(j, j + 2)[0] == a.last());
                assert(s.subrange(j, j + 2)[1] == b[0]);
            }
        }
    };
}

/// Values free of `\r\n` join into a string free of it.
proof fn lemma_join_no_crlf(vs: Seq<Seq<u8>>)
    requires
        forall|i: int| 0 <= i < vs.len() ==> no_occ(#[trigger] vs[i], crlf()),
    ensures
        no_occ(join_values(vs), crlf()),
    decreases vs.len(),
{
    if vs.len() == 0 {
        assert forall|j: int| !#[trigger] occurs_at(join_values(vs), crlf(), j) by {};
    } else if vs.len() > 1 {
        lemma_join_no_crlf(vs.drop_last());
        lemma_no_cr_no_occ(list_sep());
        lemma_crlf_concat(join_values(vs.drop_last()), list_sep());
        assert(vs.last() == vs[vs.len() - 1]);
        lemma_crlf_concat(join_values(vs.drop_last()) + list_sep(), vs.last());
    }
}

/// Values without `, ` split back out of their join.
pub proof fn lemma_join_split(vs: Seq<Seq<u8>>)
    requires
        vs.len() >= 1,
        forall|i: int| 0 <= i < vs.len() ==> no_occ(#[trigger] vs[i], list_sep()),
    ensures
        split_on(join_values(vs), list_sep()) == vs,
    decreases vs.len(),
{
    assert(vs.last() == vs[vs.len() - 1]);
    if vs.len() == 1 {
        lemma_split_single(vs[0], list_sep());
        assert(seq![vs[0]] =~= vs);
    } else {
        lemma_join_split(vs.drop_last());
        lemma_split_join(join_values(vs.drop_last()), vs.last(), list_sep());
        lemma_split_single(vs.last(), list_sep());
        assert(vs.drop_last() + seq![vs.last()] =~= vs);
    }
}

proof fn lemma_word_end_at(s: Seq<u8>, i: int, e: int)
    requires
        0 <= i <= e <= s.len(),
        forall|j: int| i <= j < e ==> !is_space(#[trigger] s[j]),
        e == s.len() || is_space(s[e]),
    ensures
        word_end(s, i) == e,
    decreases e - i,
{
    if i < e {
        lemma_word_end_at(s, i + 1, e);
    }
}

proof fn lemma_words_at_word(s: Seq<u8>, i: int, e: int)
    requires
        0 <= i < e <= s.len(),
        forall|j: int| i <= j < e ==> !is_space(#[trigger] s[j]),
        e == s.len() || is_space(s[e]),
    ensures
        words_from(s, i) == seq![s.subrange(i, e)] + words_from(s, e),
{
    lemma_word_end_at(s, i + 1, e);
}

proof fn lemma_word_end_props(s: Seq<u8>, i: int)
    requires
        0 <= i <= s.len(),
    ensures
        i <= word_end(s, i) <= s.len(),
        forall|j: int| i <= j < word_end(s, i) ==> !is_space(#[trigger] s[j]),
    decreases s.len() - i,
{
    if i < s.len() && !is_space(s[i]) {
        lemma_word_end_props(s, i + 1);
    }
}

/// Each word is non-empty and holds no whitespace.
proof fn lemma_words_clean(s: Seq<u8>, i: int)
    requires
        0 <= i <= s.len(),
    ensures
        forall|m: int| 0 <= m < words_from(s, i).len() ==> (#[trigger] words_from(s, i)[m]).len()
            > 0 && no_space(words_from(s, i)[m]),
    decreases s.len() - i,
{
    if i < s.len() {
        if is_space(s[i]) {
            lemma_words_clean(s, i + 1);
            assert(words_from(s, i) == words_from(s, i + 1));
        } else {
            lemma_word_end_props(s, i + 1);
            let e = word_end(s, i + 1);
            lemma_words_clean(s, e);
            let rest = words_from(s, e);
            assert(words_from(s, i) == seq![s.subrange(i, e)] + rest);
            assert forall|m: int| 0 <= m < words_from(s, i).len() implies (#[trigger] words_from(
                s,
                i,
            )[m]).len() > 0 && no_space(words_from(s, i)[m]) by {
                if m > 0 {
                    assert(words_from(s, i)[m] == rest[m - 1]);
                } else {
                    let w = s.subrange(i, e);
                    assert(words_from(s, i)[m] == w);
                    assert forall|j: int| 0 <= j < w.len() implies !is_space(#[trigger] w[j]) by {
                        assert(w[j] == s[i + j]);
                    };
                }
            };
        }
    }
}

/// The words of `method path HTTP/1.1`.
proof fn lemma_request_line_words(r: RequestView)
    requires
        r.method.len() > 0,
        r.path.len() > 0,
        no_space(r.method),
        no_space(r.path),
    ensures
        words(request_line(r)) == seq![r.method, r.path, version()],
        no_occ(request_line(r), crlf()),
{
    let s = request_line(r);
    let m = r.method.len() as int;
    let p = r.path.len() as int;
    assert(s.subrange(0, m) =~= r.method);
    assert(s.subrange(m + 1, m + 1 + p) =~= r.path);
    assert(s.subrange(m + 2 + p, s.len() as int) =~= version());
    assert(s[m] == 32u8);
    assert(s[m + 1 + p] == 32u8);
    lemma_words_at_word(s, 0, m);
    lemma_words_at_word(s, m + 1, m + 1 + p);
    lemma_words_at_word(s, m + 2 + p, s.len() as int);
    assert(words_from(s, m) == words_from(s, m + 1));
    assert(words_from(s, m + 1 + p) == words_from(s, m + 2 + p));
    assert(words_from(s, s.len() as int) =~= Seq::<Seq<u8>>::empty());
    assert(words(s) =~= seq![r.method, r.path, version()]);
    assert forall|j: int| 0 <= j < s.len() implies s[j] != 13 by {
        if j < m {
            assert(s[j] == r.method[j]);
        } else if m < j < m + 1 + p {
            assert(s[j] == r.path[j - m - 1]);
        }
    };
    lemma_no_cr_no_occ(s);
}

/// A header as the parser produces it: a trimmed name without `\r\n` or `:`,
/// and at least one value, none holding `, ` or `\r\n`.
pub open spec fn clean_header(h: HeaderView) -> bool {
    &&& no_occ(h.0, crlf())
    &&& no_occ(h.0, colon())
    &&& trim(h.0) == h.0
    &&& h.1.len() >= 1
    &&& forall|i: int|
        0 <= i < h.1.len() ==> no_occ(#[trigger] h.1[i], list_sep()) && no_occ(h.1[i], crlf())
}

/// Clean headers with distinct names.
pub open spec fn clean_headers(hs: Seq<HeaderView>) -> bool {
    &&& forall|i: int| 0 <= i < hs.len() ==> clean_header(#[trigger] hs[i])
    &&& forall|i: int, j: int| 0 <= i < j < hs.len() ==> #[trigger] hs[i].0 != #[trigger] hs[j].0
}

/// The values of `h` joined are their own trim.
pub open spec fn stable_values(h: HeaderView) -> bool {
    trim(join_values(h.1)) == join_values(h.1)
}

proof fn lemma_header_line(h: HeaderView)
    requires
        clean_header(h),
        stable_values(h),
    ensures
        parse_header_line(header_line(h)) == Some(h),
        no_occ(header_line(h), crlf()),
        header_line(h).len() > 0,
{
    let cs = seq![58u8, 32u8];
    let j = join_values(h.1);
    let line = header_line(h);
    let n = h.0.len() as int;
    assert(line.subrange(n, n + 1) =~= colon());
    assert forall|i: int| 0 <= i < n implies !#[trigger] occurs_at(line, colon(), i) by {
        if occurs_at(line, colon(), i) {
            assert(line.subrange(i, i + 1) =~= h.0.subrange(i, i + 1));
            assert(occurs_at(h.0, colon(), i));
        }
    };
    lemma_find_is(line, colon(), 0, n);
    assert(line.subrange(0, n) =~= h.0);
    assert(line.subrange(n + 1, line.len() as int) =~= seq![32u8] + j);
    lemma_trim_space_before(j);
    lemma_join_split(h.1);
    lemma_no_cr_no_occ(cs);
    lemma_crlf_concat(h.0, cs);
    lemma_join_no_crlf(h.1);
    lemma_crlf_concat(h.0 + cs, j);
}

/// The head of an encoded request cuts into its request line and header lines.
proof fn lemma_head_lines(rl: Seq<u8>, hs: Seq<HeaderView>)
    requires
        no_occ(rl, crlf()),
        forall|i: int| 0 <= i < hs.len() ==> no_occ(header_line(#[trigger] hs[i]), crlf()),
    ensures
        split_on(rl + header_lines(hs), crlf()) == seq![rl] + Seq::new(
            hs.len(),
            |i: int| header_line(hs[i]),
        ),
    decreases hs.len(),
{
    if hs.len() == 0 {
        assert(rl + header_lines(hs) =~= rl);
        lemma_split_single(rl, crlf());
        assert(seq![rl] + Seq::new(hs.len(), |i: int| header_line(hs[i])) =~= seq![rl]);
    } else {
        let dl = hs.drop_last();
        lemma_head_lines(rl, dl);
        assert(rl + header_lines(hs) =~= (rl + header_lines(dl)) + crlf() + header_line(hs.last()));
        lemma_split_join(rl + header_lines(dl), header_line(hs.last()), crlf());
        assert(hs.last() == hs[hs.len() - 1]);
        lemma_split_single(header_line(hs.last()), crlf());
        assert(seq![rl] + Seq::new(dl.len(), |i: int| header_line(dl[i])) + seq![
            header_line(hs.last()),
        ] =~= seq![rl] + Seq::new(hs.len(), |i: int| header_line(hs[i])));
    }
}

/// No blank line starts inside `h` when one follows it.
pub open spec fn blank_only_after(h: Seq<u8>) -> bool {
    forall|j: int| 0 <= j < h.len() ==> !#[trigger] occurs_at(h + blank_line(), blank_line(), j)
}

proof fn lemma_blank_bytes(s: Seq<u8>, j: int)
    requires
        occurs_at(s, blank_line(), j),
    ensures
        s[j] == 13 && s[j + 1] == 10 && s[j + 2] == 13 && s[j + 3] == 10,
{
    let w = s.subrange(j, j + 4);
    assert(w[0] == s[j] && w[1] == s[j + 1] && w[2] == s[j + 2] && w[3] == s[j + 3]);
}

proof fn lemma_crlf_at(l: Seq<u8>, m: int)
    requires
        0 <= m,
        m + 1 < l.len(),
        l[m] == 13,
        l[m + 1] == 10,
    ensures
        occurs_at(l, crlf(), m),
{
    assert(l.subrange(m, m + 2) =~= crlf());
}

proof fn lemma_blank_base(l: Seq<u8>)
    requires
        no_occ(l, crlf()),
    ensures
        blank_only_after(l),
{
    let s = l + blank_line();
    assert forall|j: int| 0 <= j < l.len() implies !#[trigger] occurs_at(s, blank_line(), j) by {
        if occurs_at(s, blank_line(), j) {
            lemma_blank_bytes(s, j);
            if j + 1 < l.len() {
                lemma_crlf_at(l, j);
            }
        }
    };
}

proof fn lemma_blank_step(h: Seq<u8>, l: Seq<u8>)
    requires
        h.len() > 0,
        blank_only_after(h),
        no_occ(l, crlf()),
        l.len() > 0,
    ensures
        blank_only_after(h + crlf() + l),
{
    let h2 = h + crlf() + l;
    let s = h2 + blank_line();
    let s0 = h + blank_line();
    let n = h.len() as int;
    assert forall|j: int| 0 <= j < h2.len() implies !#[trigger] occurs_at(s, blank_line(), j) by {
        if occurs_at(s, blank_line(), j) {
            lemma_blank_bytes(s, j);
            if j + 4 <= n + 2 {
                assert(s.subrange(j, j + 4) =~= s0.subrange(j, j + 4));
                assert(occurs_at(s0, blank_line(), j));
            } else if j == n - 1 {
                assert(s[n] == 13);
            } else if j == n {
                assert(s[n + 2] == l[0]);
                if l.len() >= 2 {
                    assert(s[n + 3] == l[1]);
                    lemma_crlf_at(l, 0);
                } else {
                    assert(s[n + 3] == 13);
                }
            } else if j == n + 1 {
                assert(s[n + 1] == 10);
            } else {
                let m = j - n - 2;
                assert(s[j] == l[m]);
                if m + 1 < l.len() {
                    assert(s[j + 1] == l[m + 1]);
                    lemma_crlf_at(l, m);
                } else {
                    assert(s[j + 1] == 13);
                }
            }
        }
    };
}

proof fn lemma_blank_head(rl: Seq<u8>, hs: Seq<HeaderView>)
    requires
        rl.len() > 0,
        no_occ(rl, crlf()),
        forall|i: int| 0 <= i < hs.len() ==> no_occ(header_line(#[trigger] hs[i]), crlf())
            && header_line(hs[i]).len() > 0,
    ensures
        blank_only_after(rl + header_lines(hs)),
        (rl + header_lines(hs)).len() > 0,
    decreases hs.len(),
{
    if hs.len() == 0 {
        assert(rl + header_lines(hs) =~= rl);
        lemma_blank_base(rl);
    } else {
        let dl = hs.drop_last();
        lemma_blank_head(rl, dl);
        assert(hs.last() == hs[hs.len() - 1]);
        assert(rl + header_lines(hs) =~= (rl + header_lines(dl)) + crlf() + header_line(hs.last()));
        lemma_blank_step(rl + header_lines(dl), header_line(hs.last()));
    }
}

proof fn lemma_header_index_none(hs: Seq<HeaderView>, name: Seq<u8>, i: int)
    requires
        0 <= i,
        forall|k: int| 0 <= k < hs.len() ==> (#[trigger] hs[k]).0 != name,
    ensures
        header_index(hs, name, i) == -1,
    decreases hs.len() - i,
{
    if i < hs.len() {
        lemma_header_index_none(hs, name, i + 1);
    }
}

proof fn lemma_header_index_found(hs: Seq<HeaderView>, name: Seq<u8>, i: int)
    requires
        0 <= i,
    ensures
        header_index(hs, name, i) == -1 ==> forall|k: int| i <= k < hs.len() ==> (#[trigger] hs[k]).0
            != name,
        header_index(hs, name, i) != -1 ==> i <= header_index(hs, name, i) < hs.len() && hs[header_index(
            hs,
            name,
            i,
        )].0 == name,
    decreases hs.len() - i,
{
    if 0 <= i < hs.len() && hs[i].0 != name {
        lemma_header_index_found(hs, name, i + 1);
    }
}

/// Clean headers, each with stable values, are collected back from their lines.
proof fn lemma_collect_lines(hs: Seq<HeaderView>)
    requires
        clean_headers(hs),
        forall|i: int| 0 <= i < hs.len() ==> stable_values(#[trigger] hs[i]),
    ensures
        collect_headers(Seq::new(hs.len(), |i: int| header_line(hs[i]))) == Some(hs),
    decreases hs.len(),
{
    let lines = Seq::new(hs.len(), |i: int| header_line(hs[i]));
    if hs.len() == 0 {
        assert(hs =~= seq![]);
    } else {
        let dl = hs.drop_last();
        assert(lines.drop_last() =~= Seq::new(dl.len(), |i: int| header_line(dl[i])));
        lemma_collect_lines(dl);
        let h = hs[hs.len() - 1];
        assert(lines.last() == header_line(h));
        lemma_header_line(h);
        assert forall|k: int| 0 <= k < dl.len() implies (#[trigger] dl[k]).0 != h.0 by {
            assert(dl[k] == hs[k]);
        };
        lemma_header_index_none(dl, h.0, 0);
        assert(dl.push(h) =~= hs);
    }
}

/// A header line free of `\r\n` parses, if at all, into a clean header.
proof fn lemma_parsed_header_clean(line: Seq<u8>)
    requires
        no_occ(line, crlf()),
        parse_header_line(line) is Some,
    ensures
        clean_header(parse_header_line(line)->Some_0),
{
    let c = find_from(line, colon(), 0);
    lemma_find_first(line, colon(), 0);
    let name_part = line.subrange(0, c);
    assert forall|j: int| !#[trigger] occurs_at(name_part, colon(), j) by {
        if occurs_at(name_part, colon(), j) {
            lemma_occurs_sub(line, colon(), 0, c, j);
        }
    };
    lemma_no_occ_sub(line, crlf(), 0, c);
    lemma_trim(name_part, crlf());
    lemma_trim(name_part, colon());
    let value_part = line.subrange(c + 1, line.len() as int);
    lemma_no_occ_sub(line, crlf(), c + 1, line.len() as int);
    lemma_trim(value_part, crlf());
    lemma_split_pieces(trim(value_part), list_sep(), crlf(), 0);
}

/// Headers collected from lines free of `\r\n` are clean.
proof fn lemma_collected_clean(lines: Seq<Seq<u8>>)
    requires
        forall|i: int| 0 <= i < lines.len() ==> no_occ(#[trigger] lines[i], crlf()),
        collect_headers(lines) is Some,
    ensures
        clean_headers(collect_headers(lines)->Some_0),
    decreases lines.len(),
{
    if lines.len() > 0 {
        let dl = lines.drop_last();
        assert forall|i: int| 0 <= i < dl.len() implies no_occ(#[trigger] dl[i], crlf()) by {
            assert(dl[i] == lines[i]);
        };
        lemma_collected_clean(dl);
        let hs = collect_headers(dl)->Some_0;
        assert(lines.last() == lines[lines.len() - 1]);
        lemma_parsed_header_clean(lines.last());
        let h = parse_header_line(lines.last())->Some_0;
        lemma_header_index_found(hs, h.0, 0);
        let k = header_index(hs, h.0, 0);
        let out = add_header(hs, h);
        if k >= 0 {
            let merged = (h.0, hs[k].1 + h.1);
            assert(clean_header(hs[k]));
            assert forall|i: int| 0 <= i < merged.1.len() implies no_occ(
                #[trigger] merged.1[i],
                list_sep(),
            ) && no_occ(merged.1[i], crlf()) by {
                if i < hs[k].1.len() {
                    assert(merged.1[i] == hs[k].1[i]);
                } else {
                    assert(merged.1[i] == h.1[i - hs[k].1.len()]);
                }
            };
            assert(clean_header(merged));
            assert forall|i: int| 0 <= i < out.len() implies clean_header(#[trigger] out[i]) by {
                if i != k {
                    assert(out[i] == hs[i]);
                }
            };
            assert forall|i: int, j: int| 0 <= i < j < out.len() implies #[trigger] out[i].0
                != #[trigger] out[j].0 by {
                assert(out[i].0 == hs[i].0);
                assert(out[j].0 == hs[j].0);
            };
        } else {
            assert forall|i: int| 0 <= i < out.len() implies clean_header(#[trigger] out[i]) by {
                if i < hs.len() {
                    assert(out[i] == hs[i]);
                }
            };
            assert forall|i: int, j: int| 0 <= i < j < out.len() implies #[trigger] out[i].0
                != #[trigger] out[j].0 by {
                assert(out[i] == hs[i]);
                if j < hs.len() {
                    assert(out[j] == hs[j]);
                }
            };
        }
    }
}

/// A request that parsing produces has a non-empty method and path without
/// whitespace, and headers with distinct names, each with at least one value.
pub proof fn parsed_is_well_formed(raw: Seq<u8>)
    requires
        parse_request(raw) is Some,
    ensures
        parse_request(raw)->Some_0.method.len() > 0,
        parse_request(raw)->Some_0.path.len() > 0,
        no_space(parse_request(raw)->Some_0.method),
        no_space(parse_request(raw)->Some_0.path),
        clean_headers(parse_request(raw)->Some_0.headers),
{
    let head = head_of(raw);
    let lines = split_on(head, crlf());
    let never = head.push(0u8);
    assert forall|j: int| !#[trigger] occurs_at(head, never, j) by {};
    lemma_split_pieces(head, crlf(), never, 0);
    lemma_words_clean(lines[0], 0);
    let rest = lines.drop_first();
    assert forall|i: int| 0 <= i < rest.len() implies no_occ(#[trigger] rest[i], crlf()) by {
        assert(rest[i] == lines[i + 1]);
    };
    lemma_collected_clean(rest);
}

/// The body an encoded request carries: the request's body, or nothing.
pub open spec fn sent_body(r: RequestView) -> Seq<u8> {
    match r.body {
        Some(b) => b,
        None => seq![],
    }
}

/// Encoding a parsed request and parsing the bytes again gives back the same
/// method, path and headers (multi-valued ones included), and the body, an
/// absent body coming back empty. This holds except where a header's values,
/// joined with `, `, do not survive trimming: a repeated header whose last
/// line had an empty value.
pub proof fn round_trip(raw: Seq<u8>)
    requires
        parse_request(raw) is Some,
        forall|i: int|
            0 <= i < parse_request(raw)->Some_0.headers.len() ==> stable_values(
                #[trigger] parse_request(raw)->Some_0.headers[i],
            ),
    ensures
        parse_request(encode_request(parse_request(raw)->Some_0)) == Some(
            RequestView {
                method: parse_request(raw)->Some_0.method,
                path: parse_request(raw)->Some_0.path,
                headers: parse_request(raw)->Some_0.headers,
                body: Some(sent_body(parse_request(raw)->Some_0)),
            },
        ),
{
    let req = parse_request(raw)->Some_0;
    parsed_is_well_formed(raw);
    let hs = req.headers;
    // the encoding
    let rl = request_line(req);
    lemma_request_line_words(req);
    assert forall|i: int| 0 <= i < hs.len() implies no_occ(header_line(#[trigger] hs[i]), crlf())
        && header_line(hs[i]).len() > 0 by {
        lemma_header_line(hs[i]);
    };
    let h = request_head(req);
    let body = sent_body(req);
    let e = encode_request(req);
    assert(e == h + blank_line() + body);
    lemma_blank_head(rl, hs);
    assert forall|j: int| 0 <= j < h.len() implies !#[trigger] occurs_at(e, blank_line(), j) by {
        assert(e.subrange(j, j + 4) =~= (h + blank_line()).subrange(j, j + 4));
        assert(!occurs_at(h + blank_line(), blank_line(), j));
    };
    assert(e.subrange(h.len() as int, h.len() + 4 as int) =~= blank_line());
    lemma_find_is(e, blank_line(), 0, h.len() as int);
    assert(head_of(e) =~= h);
    assert(e.subrange(h.len() + 4 as int, e.len() as int) =~= body);
    lemma_head_lines(rl, hs);
    let elines = split_on(h, crlf());
    assert(elines[0] == rl);
    assert(words(rl)[2] == version());
    assert(version().subrange(0, 4) =~= http_prefix());
    assert(elines.drop_first() =~= Seq::new(hs.len(), |i: int| header_line(hs[i])));
    lemma_collect_lines(hs);
}

} // verus!
