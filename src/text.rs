//! Byte-string primitives used by the request parser: searching, splitting,
//! trimming and whitespace tokenising, each with its mathematical definition.
use vstd::prelude::*;

verus! {

/// ASCII whitespace: space, tab, line feed, vertical tab, form feed, carriage return.
pub open spec fn is_space(b: u8) -> bool {
    b == 32 || (9 <= b && b <= 13)
}

/// `pat` occurs in `s` starting at index `i`.
pub open spec fn occurs_at(s: Seq<u8>, pat: Seq<u8>, i: int) -> bool {
    0 <= i && i + pat.len() <= s.len() && s.subrange(i, i + pat.len()) == pat
}

/// Index of the first occurrence of `pat` in `s` at or after `i`, or -1.
pub open spec fn find_from(s: Seq<u8>, pat: Seq<u8>, i: int) -> int
    decreases s.len() + 1 - i,
{
    if i < 0 || i + pat.len() > s.len() {
        -1
    } else if occurs_at(s, pat, i) {
        i
    } else {
        find_from(s, pat, i + 1)
    }
}

/// The pieces of `s` from index `start` on, cut at each occurrence of the
/// non-empty separator `sep`, scanning left to right.
pub open spec fn split_from(s: Seq<u8>, sep: Seq<u8>, start: int) -> Seq<Seq<u8>>
    decreases s.len() + 1 - start,
{
    let k = find_from(s, sep, start);
    // `k` is -1 or an occurrence at or after `start`; the last two tests never hold
    // on the latter and only make the recursion visibly decrease.
    if sep.len() == 0 || start < 0 || start > s.len() || k < 0 || k < start || k + sep.len() > s.len() {
        seq![s.subrange(start, s.len() as int)]
    } else {
        seq![s.subrange(start, k)] + split_from(s, sep, k + sep.len())
    }
}

/// `s` cut at every occurrence of `sep`.
pub open spec fn split_on(s: Seq<u8>, sep: Seq<u8>) -> Seq<Seq<u8>> {
    split_from(s, sep, 0)
}

/// `s` without its leading whitespace.
pub open spec fn trim_start(s: Seq<u8>) -> Seq<u8>
    decreases s.len(),
{
    if s.len() > 0 && is_space(s[0]) {
        trim_start(s.drop_first())
    } else {
        s
    }
}

/// `s` without its trailing whitespace.
pub open spec fn trim_end(s: Seq<u8>) -> Seq<u8>
    decreases s.len(),
{
    if s.len() > 0 && is_space(s.last()) {
        trim_end(s.drop_last())
    } else {
        s
    }
}

/// `s` without surrounding whitespace.
pub open spec fn trim(s: Seq<u8>) -> Seq<u8> {
    trim_end(trim_start(s))
}

/// First index at or after `i` that holds whitespace, or the length of `s`.
pub open spec fn word_end(s: Seq<u8>, i: int) -> int
    decreases s.len() - i,
{
    if i < 0 || i >= s.len() || is_space(s[i]) {
        i
    } else {
        word_end(s, i + 1)
    }
}

/// The maximal runs of non-whitespace bytes of `s` from index `i` on.
pub open spec fn words_from(s: Seq<u8>, i: int) -> Seq<Seq<u8>>
    decreases s.len() - i,
{
    if i < 0 || i >= s.len() {
        seq![]
    } else if is_space(s[i]) {
        words_from(s, i + 1)
    } else {
        let j = word_end(s, i + 1);
        if j <= i || j > s.len() {
            // never holds: `word_end` stays within `i + 1 ..= s.len()`
            seq![]
        } else {
            seq![s.subrange(i, j)] + words_from(s, j)
        }
    }
}

/// The whitespace-separated words of `s`.
pub open spec fn words(s: Seq<u8>) -> Seq<Seq<u8>> {
    words_from(s, 0)
}

pub open spec fn starts_with(s: Seq<u8>, prefix: Seq<u8>) -> bool {
    prefix.len() <= s.len() && s.subrange(0, prefix.len() as int) == prefix
}

pub fn is_space_byte(b: u8) -> (r: bool)
    ensures
        r == is_space(b),
{
    b == 32 || (9 <= b && b <= 13)
}

/// Copy of `s[from..to]`.
pub fn copy_range(s: &[u8], from: usize, to: usize) -> (r: Vec<u8>)
    requires
        from <= to <= s@.len(),
    ensures
        r@ == s@.subrange(from as int, to as int),
{
    let mut r: Vec<u8> = Vec::with_capacity(to - from);
    let mut i: usize = from;
    while i < to
        invariant
            from <= i <= to <= s@.len(),
            r@ == s@.subrange(from as int, i as int),
        decreases to - i,
    {
        r.push(s[i]);
        i = i + 1;
        assert(r@ =~= s@.subrange(from as int, i as int));
    }
    r
}

/// Whether `pat` occurs in `s` at index `i`.
pub fn occurs_at_exec(s: &[u8], pat: &[u8], i: usize) -> (r: bool)
    ensures
        r == occurs_at(s@, pat@, i as int),
{
    if i > s.len() || pat.len() > s.len() - i {
        return false;
    }
    let mut j: usize = 0;
    while j < pat.len()
        invariant
            i + pat.len() <= s.len(),
            i + pat@.len() <= s@.len(),
            j <= pat@.len(),
            forall|m: int| 0 <= m < j ==> s@[i + m] == pat@[m],
        decreases pat.len() - j,
    {
        if s[i + j] != pat[j] {
            assert(s@.subrange(i as int, i + pat@.len())[j as int] != pat@[j as int]);
            return false;
        }
        j = j + 1;
    }
    assert(s@.subrange(i as int, i + pat@.len()) =~= pat@);
    true
}

/// Index of the first occurrence of `pat` in `s` at or after `start`.
pub fn find(s: &[u8], pat: &[u8], start: usize) -> (r: Option<usize>)
    ensures
        match r {
            Some(k) => k as int == find_from(s@, pat@, start as int),
            None => find_from(s@, pat@, start as int) == -1,
        },
{
    if pat.len() > s.len() {
        return None;
    }
    let last: usize = s.len() - pat.len();
    let mut i: usize = start;
    while i <= last
        invariant
            start <= i,
            last + pat@.len() == s@.len(),
            find_from(s@, pat@, start as int) == find_from(s@, pat@, i as int),
        decreases last - i,
    {
        if occurs_at_exec(s, pat, i) {
            return Some(i);
        }
        if i == last {
            assert(find_from(s@, pat@, i as int + 1) == -1);
            return None;
        }
        i = i + 1;
    }
    None
}

/// The contents of each vector of `v`.
pub open spec fn views(v: Seq<Vec<u8>>) -> Seq<Seq<u8>> {
    Seq::new(v.len(), |i: int| v[i]@)
}

/// `s` cut at every occurrence of the non-empty separator `sep`.
pub fn split(s: &[u8], sep: &[u8]) -> (r: Vec<Vec<u8>>)
    requires
        sep@.len() > 0,
    ensures
        views(r@) == split_on(s@, sep@),
{
    let mut r: Vec<Vec<u8>> = Vec::new();
    let mut start: usize = 0;
    let len: usize = s.len();
    loop
        invariant
            len == s@.len(),
            sep@.len() > 0,
            start <= s@.len(),
            views(r@) + split_from(s@, sep@, start as int) == split_on(s@, sep@),
        decreases s@.len() - start,
    {
        match find(s, sep, start) {
            None => {
                let piece = copy_range(s, start, s.len());
                let ghost old_r = views(r@);
                r.push(piece);
                assert(views(r@) =~= old_r.push(piece@));
                assert(old_r + split_from(s@, sep@, start as int) =~= views(r@));
                return r;
            },
            Some(k) => {
                proof {
                    lemma_find_from_bounds(s@, sep@, start as int);
                    assert(occurs_at(s@, sep@, k as int));
                }
                let piece = copy_range(s, start, k);
                let ghost old_r = views(r@);
                r.push(piece);
                assert(views(r@) =~= old_r.push(piece@));
                assert(old_r + split_from(s@, sep@, start as int) =~= views(r@)
                    + split_from(s@, sep@, k + sep@.len()));
                start = k + sep.len();
            },
        }
    }
}

/// Bounds `(a, b)` such that `s[a..b]` is `s` without surrounding whitespace.
pub fn trim_bounds(s: &[u8]) -> (r: (usize, usize))
    ensures
        r.0 <= r.1 <= s@.len(),
        s@.subrange(r.0 as int, r.1 as int) == trim(s@),
{
    let len: usize = s.len();
    let mut a: usize = 0;
    assert(s@.subrange(0, len as int) =~= s@);
    while a < len && is_space_byte(s[a])
        invariant
            len == s@.len(),
            a <= len,
            trim_start(s@.subrange(a as int, len as int)) == trim_start(s@),
        decreases len - a,
    {
        assert(s@.subrange(a as int, len as int).drop_first() =~= s@.subrange(a + 1, len as int));
        a = a + 1;
    }
    let mut b: usize = len;
    while b > a && is_space_byte(s[b - 1])
        invariant
            len == s@.len(),
            a <= b <= len,
            trim_end(s@.subrange(a as int, b as int)) == trim_end(s@.subrange(a as int, len as int)),
        decreases b,
    {
        assert(s@.subrange(a as int, b as int).drop_last() =~= s@.subrange(a as int, b - 1));
        b = b - 1;
    }
    (a, b)
}

/// Copy of `s` without surrounding whitespace.
pub fn trimmed(s: &[u8]) -> (r: Vec<u8>)
    ensures
        r@ == trim(s@),
{
    let (a, b) = trim_bounds(s);
    copy_range(s, a, b)
}

/// The whitespace-separated words of `s`.
pub fn split_words(s: &[u8]) -> (r: Vec<Vec<u8>>)
    ensures
        views(r@) == words(s@),
{
    let len: usize = s.len();
    let mut r: Vec<Vec<u8>> = Vec::new();
    let mut i: usize = 0;
    while i < len
        invariant
            len == s@.len(),
            i <= len,
            views(r@) + words_from(s@, i as int) == words(s@),
        decreases len - i,
    {
        if is_space_byte(s[i]) {
            i = i + 1;
        } else {
            let mut j: usize = i + 1;
            while j < len && !is_space_byte(s[j])
                invariant
                    len == s@.len(),
                    i < j <= len,
                    word_end(s@, i + 1) == word_end(s@, j as int),
                decreases len - j,
            {
                j = j + 1;
            }
            let piece = copy_range(s, i, j);
            let ghost old_r = views(r@);
            r.push(piece);
            assert(views(r@) =~= old_r.push(piece@));
            assert(old_r + words_from(s@, i as int) =~= views(r@) + words_from(s@, j as int));
            i = j;
        }
    }
    assert(views(r@) + words_from(s@, i as int) =~= views(r@));
    r
}

/// Whether `s` begins with `prefix`.
pub fn has_prefix(s: &[u8], prefix: &[u8]) -> (r: bool)
    ensures
        r == starts_with(s@, prefix@),
{
    occurs_at_exec(s, prefix, 0)
}

pub proof fn lemma_find_from_bounds(s: Seq<u8>, pat: Seq<u8>, i: int)
    ensures
        find_from(s, pat, i) == -1 || (i <= find_from(s, pat, i) && occurs_at(
            s,
            pat,
            find_from(s, pat, i),
        )),
    decreases s.len() + 1 - i,
{
    if !(i < 0 || i + pat.len() > s.len()) && !occurs_at(s, pat, i) {
        lemma_find_from_bounds(s, pat, i + 1);
    }
}

} // verus!
