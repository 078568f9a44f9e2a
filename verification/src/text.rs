//! Character-level text primitives over `Seq<char>` with exact specifications.

use vstd::prelude::*;
use vstd::std_specs::iter::IteratorSpec;

verus! {

broadcast use vstd::string::group_string_axioms;

/// The Unicode `White_Space` property, which `char::is_whitespace` reports.
pub open spec fn is_ws(c: char) -> bool {
    ||| ('\u{9}' <= c && c <= '\u{d}')
    ||| c == ' '
    ||| c == '\u{85}'
    ||| c == '\u{a0}'
    ||| c == '\u{1680}'
    ||| ('\u{2000}' <= c && c <= '\u{200a}')
    ||| c == '\u{2028}'
    ||| c == '\u{2029}'
    ||| c == '\u{202f}'
    ||| c == '\u{205f}'
    ||| c == '\u{3000}'
}

pub fn is_whitespace(c: char) -> (r: bool)
    ensures
        r == is_ws(c),
{
    ('\u{9}' <= c && c <= '\u{d}') || c == ' ' || c == '\u{85}' || c == '\u{a0}' || c == '\u{1680}'
        || ('\u{2000}' <= c && c <= '\u{200a}') || c == '\u{2028}' || c == '\u{2029}' || c
        == '\u{202f}' || c == '\u{205f}' || c == '\u{3000}'
}

/// Copies the characters of a string slice into a vector.
pub fn chars_of(s: &str) -> (v: Vec<char>)
    ensures
        v@ == s@,
{
    let mut v: Vec<char> = Vec::new();
    for c in iter: s.chars()
        invariant
            v@ == iter.seq().take(iter.index()),
            iter.seq() == s@,
    {
        v.push(c);
        assert(v@ =~= iter.seq().take(iter.index() + 1));
    }
    assert(v@ =~= s@);
    v
}

/// Appends one character to a `String` (`String::push`).
#[verifier::external_body]
pub(crate) fn push_char(s: &mut String, c: char)
    ensures
        final(s)@ == old(s)@.push(c),
{
    s.push(c);
}

/// Builds a `String` holding exactly the given characters.
pub fn string_of(v: &Vec<char>) -> (s: String)
    ensures
        s@ == v@,
{
    let mut s = String::new();
    let mut i: usize = 0;
    while i < v.len()
        invariant
            i <= v.len(),
            s@ == v@.take(i as int),
        decreases v.len() - i,
    {
        push_char(&mut s, v[i]);
        assert(s@ =~= v@.take(i + 1));
        i += 1;
    }
    assert(s@ =~= v@);
    s
}

/// Copies `s[lo..hi]` into a new vector.
pub fn slice_vec(s: &Vec<char>, lo: usize, hi: usize) -> (r: Vec<char>)
    requires
        lo <= hi <= s.len(),
    ensures
        r@ == s@.subrange(lo as int, hi as int),
{
    let mut r: Vec<char> = Vec::new();
    let mut i = lo;
    while i < hi
        invariant
            lo <= i <= hi <= s.len(),
            r@ == s@.subrange(lo as int, i as int),
        decreases hi - i,
    {
        r.push(s[i]);
        assert(r@ =~= s@.subrange(lo as int, i + 1));
        i += 1;
    }
    r
}

/// Appends `src[lo..hi]` to `dst`.
pub fn extend_range(dst: &mut Vec<char>, src: &Vec<char>, lo: usize, hi: usize)
    requires
        lo <= hi <= src.len(),
    ensures
        final(dst)@ == old(dst)@ + src@.subrange(lo as int, hi as int),
{
    let mut i = lo;
    while i < hi
        invariant
            lo <= i <= hi <= src.len(),
            dst@ == old(dst)@ + src@.subrange(lo as int, i as int),
        decreases hi - i,
    {
        dst.push(src[i]);
        assert(dst@ =~= old(dst)@ + src@.subrange(lo as int, i + 1));
        i += 1;
    }
}

/// Appends all of `src` to `dst`.
pub fn extend_all(dst: &mut Vec<char>, src: &Vec<char>)
    ensures
        final(dst)@ == old(dst)@ + src@,
{
    extend_range(dst, src, 0, src.len());
    assert(src@.subrange(0, src@.len() as int) =~= src@);
}

/// Appends the characters of a string slice to `dst`.
pub fn extend_str(dst: &mut Vec<char>, src: &str)
    ensures
        final(dst)@ == old(dst)@ + src@,
{
    let v = chars_of(src);
    extend_all(dst, &v);
}

// ---------------------------------------------------------------------------
// Trimming
// ---------------------------------------------------------------------------

/// `str::trim_start`: drops leading whitespace.
pub open spec fn trim_start(s: Seq<char>) -> Seq<char>
    decreases s.len(),
{
    if s.len() > 0 && is_ws(s[0]) {
        trim_start(s.drop_first())
    } else {
        s
    }
}

/// `str::trim_end`: drops trailing whitespace.
pub open spec fn trim_end(s: Seq<char>) -> Seq<char>
    decreases s.len(),
{
    if s.len() > 0 && is_ws(s.last()) {
        trim_end(s.drop_last())
    } else {
        s
    }
}

/// `str::trim`.
pub open spec fn trim(s: Seq<char>) -> Seq<char> {
    trim_end(trim_start(s))
}

/// A string is blank when trimming leaves nothing.
pub open spec fn is_blank(s: Seq<char>) -> bool {
    trim(s).len() == 0
}

pub proof fn lemma_trim_start_skip(s: Seq<char>, a: int)
    requires
        0 <= a <= s.len(),
        forall|k: int| 0 <= k < a ==> is_ws(#[trigger] s[k]),
    ensures
        trim_start(s) == trim_start(s.skip(a)),
    decreases a,
{
    if a == 0 {
        assert(s.skip(0) =~= s);
    } else {
        lemma_trim_start_skip(s, a - 1);
        assert(s.skip(a - 1)[0] == s[a - 1]);
        assert(s.skip(a - 1).drop_first() =~= s.skip(a));
    }
}

/// Bounds of `trim(s[lo..hi])` inside `s`.
pub fn trim_range(s: &Vec<char>, lo: usize, hi: usize) -> (r: (usize, usize))
    requires
        lo <= hi <= s.len(),
    ensures
        lo <= r.0 <= r.1 <= hi,
        s@.subrange(r.0 as int, r.1 as int) == trim(s@.subrange(lo as int, hi as int)),
{
    let mut a = lo;
    while a < hi && is_whitespace(s[a])
        invariant
            lo <= a <= hi <= s.len(),
            trim_start(s@.subrange(a as int, hi as int)) == trim_start(
                s@.subrange(lo as int, hi as int),
            ),
        decreases hi - a,
    {
        assert(s@.subrange(a as int, hi as int).drop_first() =~= s@.subrange(a + 1, hi as int));
        a += 1;
    }
    assert(trim_start(s@.subrange(a as int, hi as int)) == s@.subrange(a as int, hi as int));
    let mut b = hi;
    while b > a && is_whitespace(s[b - 1])
        invariant
            lo <= a <= b <= hi <= s.len(),
            trim_end(s@.subrange(a as int, b as int)) == trim_end(s@.subrange(a as int, hi as int)),
        decreases b - a,
    {
        assert(s@.subrange(a as int, b as int).drop_last() =~= s@.subrange(a as int, b - 1));
        b -= 1;
    }
    assert(trim_end(s@.subrange(a as int, b as int)) == s@.subrange(a as int, b as int));
    (a, b)
}

/// `s.trim()` as a new vector.
pub fn trim_vec(s: &Vec<char>) -> (r: Vec<char>)
    ensures
        r@ == trim(s@),
{
    let (a, b) = trim_range(s, 0, s.len());
    assert(s@.subrange(0, s@.len() as int) =~= s@);
    slice_vec(s, a, b)
}

/// Whether `s[lo..hi]` is blank.
pub fn is_blank_range(s: &Vec<char>, lo: usize, hi: usize) -> (r: bool)
    requires
        lo <= hi <= s.len(),
    ensures
        r == is_blank(s@.subrange(lo as int, hi as int)),
{
    let (a, b) = trim_range(s, lo, hi);
    a == b
}

// ---------------------------------------------------------------------------
// Matching and searching
// ---------------------------------------------------------------------------

/// `p` occurs in `s` starting at position `i`.
pub open spec fn matches_at(s: Seq<char>, i: int, p: Seq<char>) -> bool {
    0 <= i && i + p.len() <= s.len() && s.subrange(i, i + p.len()) == p
}

/// `str::starts_with`.
pub open spec fn starts_with(s: Seq<char>, p: Seq<char>) -> bool {
    matches_at(s, 0, p)
}

/// `str::ends_with`.
pub open spec fn ends_with(s: Seq<char>, p: Seq<char>) -> bool {
    matches_at(s, s.len() - p.len(), p)
}

/// `str::contains` for a string pattern.
pub open spec fn contains(s: Seq<char>, p: Seq<char>) -> bool {
    exists|i: int| matches_at(s, i, p)
}

/// The first occurrence of `p` in `s` at or after position `i`.
pub open spec fn find_from(s: Seq<char>, p: Seq<char>, i: int) -> Option<int>
    decreases s.len() - i + 1,
{
    if i < 0 || i + p.len() > s.len() {
        None
    } else if matches_at(s, i, p) {
        Some(i)
    } else {
        find_from(s, p, i + 1)
    }
}

/// `str::find`.
pub open spec fn find(s: Seq<char>, p: Seq<char>) -> Option<int> {
    find_from(s, p, 0)
}

pub proof fn lemma_find_from(s: Seq<char>, p: Seq<char>, i: int)
    requires
        0 <= i,
    ensures
        find_from(s, p, i) matches Some(k) ==> i <= k && matches_at(s, k, p) && forall|j: int|
            i <= j < k ==> !matches_at(s, j, p),
        find_from(s, p, i) is None ==> forall|j: int| i <= j ==> !matches_at(s, j, p),
    decreases s.len() - i + 1,
{
    if i + p.len() > s.len() {
    } else if matches_at(s, i, p) {
    } else {
        lemma_find_from(s, p, i + 1);
    }
}

pub proof fn lemma_find_contains(s: Seq<char>, p: Seq<char>)
    ensures
        find(s, p) is Some <==> contains(s, p),
{
    lemma_find_from(s, p, 0);
    if find(s, p) is Some {
        let k = find(s, p)->0;
        assert(matches_at(s, k, p));
    }
}

/// Whether `p` occurs in `s` at `i`.
pub fn matches_at_exec(s: &Vec<char>, i: usize, p: &Vec<char>) -> (r: bool)
    ensures
        r == matches_at(s@, i as int, p@),
{
    if i > s.len() || p.len() > s.len() - i {
        return false;
    }
    let mut j: usize = 0;
    while j < p.len()
        invariant
            j <= p.len(),
            i + p.len() <= s.len(),
            forall|k: int| 0 <= k < j ==> s@[i + k] == p@[k],
        decreases p.len() - j,
    {
        if s[i + j] != p[j] {
            assert(s@.subrange(i as int, i + p.len())[j as int] != p@[j as int]);
            return false;
        }
        j += 1;
    }
    assert(s@.subrange(i as int, i + p@.len()) =~= p@);
    true
}

/// First occurrence of `p` in `s` at or after `from`.
pub fn find_from_exec(s: &Vec<char>, p: &Vec<char>, from: usize) -> (r: Option<usize>)
    ensures
        r matches Some(k) ==> find_from(s@, p@, from as int) == Some(k as int),
        r is None ==> find_from(s@, p@, from as int) is None,
{
    let mut i = from;
    loop
        invariant
            from <= i,
            find_from(s@, p@, i as int) == find_from(s@, p@, from as int),
        decreases s.len() + 1 - i,
    {
        if i > s.len() || p.len() > s.len() - i {
            return None;
        }
        if matches_at_exec(s, i, p) {
            return Some(i);
        }
        if i == s.len() {
            assert(find_from(s@, p@, i + 1) is None);
            assert(find_from(s@, p@, i as int) == find_from(s@, p@, i + 1));
            return None;
        }
        i += 1;
    }
}

/// Whether two character vectors hold the same characters.
pub fn vec_eq(a: &Vec<char>, b: &Vec<char>) -> (r: bool)
    ensures
        r == (a@ == b@),
{
    if a.len() != b.len() {
        return false;
    }
    let r = matches_at_exec(a, 0, b);
    assert(a@.subrange(0, a@.len() as int) =~= a@);
    r
}

/// Whether `p` occurs in `s`.
pub fn contains_exec(s: &Vec<char>, p: &Vec<char>) -> (r: bool)
    ensures
        r == contains(s@, p@),
{
    proof {
        lemma_find_contains(s@, p@);
    }
    find_from_exec(s, p, 0).is_some()
}

/// Whether `s` starts with `p`.
pub fn starts_with_exec(s: &Vec<char>, p: &Vec<char>) -> (r: bool)
    ensures
        r == starts_with(s@, p@),
{
    matches_at_exec(s, 0, p)
}

/// Whether `s` starts with the string literal or slice `p`.
pub fn starts_with_str(s: &Vec<char>, p: &str) -> (r: bool)
    ensures
        r == starts_with(s@, p@),
{
    let pv = chars_of(p);
    matches_at_exec(s, 0, &pv)
}

/// Whether `s` ends with `p`.
pub fn ends_with_exec(s: &Vec<char>, p: &Vec<char>) -> (r: bool)
    ensures
        r == ends_with(s@, p@),
{
    if p.len() > s.len() {
        return false;
    }
    matches_at_exec(s, s.len() - p.len(), p)
}

/// Whether `s` equals the string slice `p`.
pub fn eq_str(s: &Vec<char>, p: &str) -> (r: bool)
    ensures
        r == (s@ == p@),
{
    let pv = chars_of(p);
    if s.len() != pv.len() {
        return false;
    }
    let r = matches_at_exec(s, 0, &pv);
    assert(s@.subrange(0, s@.len() as int) =~= s@);
    r
}

// ---------------------------------------------------------------------------
// Replacement
// ---------------------------------------------------------------------------

/// Left-to-right, non-overlapping replacement of `f` by `t` from position `i`.
pub open spec fn replace_from(s: Seq<char>, f: Seq<char>, t: Seq<char>, i: int) -> Seq<char>
    decreases s.len() - i,
{
    if i < 0 || i >= s.len() {
        seq![]
    } else if f.len() > 0 && matches_at(s, i, f) {
        t + replace_from(s, f, t, i + f.len())
    } else {
        seq![s[i]] + replace_from(s, f, t, i + 1)
    }
}

/// `str::replace(f, t)` for a non-empty pattern.
pub open spec fn replace_all(s: Seq<char>, f: Seq<char>, t: Seq<char>) -> Seq<char> {
    replace_from(s, f, t, 0)
}

/// Replaces every occurrence of `f` in `s` by `t`.
pub fn replace_exec(s: &Vec<char>, f: &Vec<char>, t: &Vec<char>) -> (r: Vec<char>)
    ensures
        r@ == replace_all(s@, f@, t@),
{
    let mut out: Vec<char> = Vec::new();
    let mut i: usize = 0;
    while i < s.len()
        invariant
            i <= s.len(),
            out@ + replace_from(s@, f@, t@, i as int) == replace_all(s@, f@, t@),
        decreases s.len() - i,
    {
        if f.len() > 0 && matches_at_exec(s, i, f) {
            extend_all(&mut out, t);
            assert(out@ + replace_from(s@, f@, t@, (i + f.len()) as int) =~= replace_all(
                s@,
                f@,
                t@,
            ));
            i += f.len();
        } else {
            out.push(s[i]);
            assert(out@ + replace_from(s@, f@, t@, i + 1) =~= replace_all(s@, f@, t@));
            i += 1;
        }
    }
    assert(out@ =~= replace_all(s@, f@, t@));
    out
}

/// Replaces every occurrence of the string `f` by the string `t`.
pub fn replace_str(s: &Vec<char>, f: &str, t: &str) -> (r: Vec<char>)
    ensures
        r@ == replace_all(s@, f@, t@),
{
    let fv = chars_of(f);
    let tv = chars_of(t);
    replace_exec(s, &fv, &tv)
}

// ---------------------------------------------------------------------------
// Lines and joining
// ---------------------------------------------------------------------------

/// Drops one trailing `'\r'`.
pub open spec fn strip_cr(s: Seq<char>) -> Seq<char> {
    if s.len() > 0 && s.last() == '\r' {
        s.drop_last()
    } else {
        s
    }
}

/// The scan behind `str::lines`, with the current line starting at `start`.
pub open spec fn lines_scan(s: Seq<char>, start: int, i: int) -> Seq<Seq<char>>
    decreases s.len() - i,
{
    if i < 0 || i >= s.len() {
        if 0 <= start < s.len() {
            seq![s.subrange(start, s.len() as int)]
        } else {
            seq![]
        }
    } else if s[i] == '\n' {
        seq![strip_cr(s.subrange(start, i))] + lines_scan(s, i + 1, i + 1)
    } else {
        lines_scan(s, start, i + 1)
    }
}

/// `str::lines`: split at `'\n'` (and `"\r\n"`), without a final empty line.
pub open spec fn lines(s: Seq<char>) -> Seq<Seq<char>> {
    lines_scan(s, 0, 0)
}

/// A line of `s`, given by its bounds.
pub open spec fn range_view(s: Seq<char>, r: (usize, usize)) -> Seq<char> {
    s.subrange(r.0 as int, r.1 as int)
}

/// The bounds of each line of `s`, in order.
pub fn line_ranges(s: &Vec<char>) -> (r: Vec<(usize, usize)>)
    ensures
        is_line_ranges(s@, r@),
{
    let mut out: Vec<(usize, usize)> = Vec::new();
    let mut start: usize = 0;
    let mut i: usize = 0;
    while i < s.len()
        invariant
            start <= i <= s.len(),
            out@.map_values(|r: (usize, usize)| range_view(s@, r)) + lines_scan(
                s@,
                start as int,
                i as int,
            ) == lines(s@),
            forall|k: int| 0 <= k < out@.len() ==> (#[trigger] out@[k]).0 <= out@[k].1 <= s@.len(),
        decreases s.len() - i,
    {
        if s[i] == '\n' {
            let end = if i > start && s[i - 1] == '\r' {
                i - 1
            } else {
                i
            };
            proof {
                let line = s@.subrange(start as int, i as int);
                if i > start && s@[i - 1] == '\r' {
                    assert(strip_cr(line) =~= s@.subrange(start as int, end as int));
                } else {
                    assert(strip_cr(line) =~= s@.subrange(start as int, end as int));
                }
            }
            let ghost old_out = out@;
            out.push((start, end));
            assert(out@.map_values(|r: (usize, usize)| range_view(s@, r)) =~= old_out.map_values(
                |r: (usize, usize)| range_view(s@, r),
            ).push(range_view(s@, (start, end))));
            assert(out@.map_values(|r: (usize, usize)| range_view(s@, r)) + lines_scan(
                s@,
                i + 1,
                i + 1,
            ) =~= lines(s@));
            start = i + 1;
        }
        i += 1;
    }
    if start < s.len() {
        let ghost old_out = out@;
        out.push((start, s.len()));
        assert(out@.map_values(|r: (usize, usize)| range_view(s@, r)) =~= old_out.map_values(
            |r: (usize, usize)| range_view(s@, r),
        ).push(range_view(s@, (start, s.len()))));
    }
    assert(out@.map_values(|r: (usize, usize)| range_view(s@, r)) =~= lines(s@));
    assert forall|k: int| 0 <= k < out@.len() implies #[trigger] range_view(s@, out@[k]) == lines(
        s@,
    )[k] by {
        assert(out@.map_values(|r: (usize, usize)| range_view(s@, r))[k] == range_view(
            s@,
            out@[k],
        ));
    }
    out
}

/// `parts.join(sep)`.
pub open spec fn join(parts: Seq<Seq<char>>, sep: Seq<char>) -> Seq<char>
    decreases parts.len(),
{
    if parts.len() == 0 {
        seq![]
    } else if parts.len() == 1 {
        parts[0]
    } else {
        join(parts.drop_last(), sep) + sep + parts.last()
    }
}

/// Joins the parts with the separator.
pub fn join_exec(parts: &Vec<Vec<char>>, sep: &Vec<char>) -> (r: Vec<char>)
    ensures
        r@ == join(parts.deep_view(), sep@),
{
    let mut out: Vec<char> = Vec::new();
    let ghost dv = parts.deep_view();
    let mut i: usize = 0;
    while i < parts.len()
        invariant
            i <= parts.len(),
            dv == parts.deep_view(),
            dv.len() == parts.len(),
            out@ == join(dv.take(i as int), sep@),
        decreases parts.len() - i,
    {
        assert(dv[i as int] == parts[i as int]@);
        if i > 0 {
            extend_all(&mut out, sep);
        }
        extend_all(&mut out, &parts[i]);
        assert(dv.take(i + 1).drop_last() =~= dv.take(i as int));
        if i == 0 {
            assert(out@ =~= join(dv.take(1), sep@));
        }
        i += 1;
    }
    assert(dv.take(parts.len() as int) =~= dv);
    out
}

/// The views of a sequence of strings.
pub open spec fn views(v: Seq<String>) -> Seq<Seq<char>> {
    v.map_values(|s: String| s@)
}

/// Copies each string into a character vector.
pub fn char_vecs(v: &Vec<String>) -> (r: Vec<Vec<char>>)
    ensures
        r.deep_view() == views(v@),
{
    let mut out: Vec<Vec<char>> = Vec::new();
    let mut i: usize = 0;
    while i < v.len()
        invariant
            i <= v.len(),
            out.deep_view() == views(v@.take(i as int)),
        decreases v.len() - i,
    {
        let c = chars_of(v[i].as_str());
        let ghost before = out.deep_view();
        proof {
            lemma_char_vec_deep(&c);
        }
        out.push(c);
        assert(out.deep_view() =~= before.push(v@[i as int]@));
        assert(views(v@.take(i + 1)) =~= views(v@.take(i as int)).push(v@[i as int]@));
        i += 1;
    }
    assert(v@.take(v@.len() as int) =~= v@);
    out
}

/// `v.join(sep)`.
pub fn join_strings(v: &Vec<String>, sep: &str) -> (r: Vec<char>)
    ensures
        r@ == join(views(v@), sep@),
{
    let parts = char_vecs(v);
    let s = chars_of(sep);
    join_exec(&parts, &s)
}

// ---------------------------------------------------------------------------
// Case folding (ASCII)
// ---------------------------------------------------------------------------

/// `char::to_ascii_lowercase`.
pub open spec fn ascii_lower(c: char) -> char {
    if 'A' <= c && c <= 'Z' {
        ((c as u32) + 32) as char
    } else {
        c
    }
}

/// `str::to_ascii_lowercase`.
pub open spec fn ascii_lower_seq(s: Seq<char>) -> Seq<char> {
    s.map_values(|c: char| ascii_lower(c))
}

pub fn ascii_lower_char(c: char) -> (r: char)
    ensures
        r == ascii_lower(c),
{
    if 'A' <= c && c <= 'Z' {
        let b = (c as u8) + 32;
        b as char
    } else {
        c
    }
}

/// `s.to_ascii_lowercase()`.
pub fn ascii_lower_vec(s: &Vec<char>) -> (r: Vec<char>)
    ensures
        r@ == ascii_lower_seq(s@),
{
    let mut out: Vec<char> = Vec::new();
    let mut i: usize = 0;
    while i < s.len()
        invariant
            i <= s.len(),
            out@ == ascii_lower_seq(s@.take(i as int)),
        decreases s.len() - i,
    {
        out.push(ascii_lower_char(s[i]));
        assert(out@ =~= ascii_lower_seq(s@.take(i + 1)));
        i += 1;
    }
    assert(s@.take(s@.len() as int) =~= s@);
    out
}

/// A vector of characters deep-views as its view.
pub proof fn lemma_char_vec_deep(v: &Vec<char>)
    ensures
        v.deep_view() == v@,
{
    assert(v.deep_view() =~= v@);
}

/// Lines of `s` given by their bounds, in order.
pub open spec fn is_line_ranges(s: Seq<char>, r: Seq<(usize, usize)>) -> bool {
    &&& r.len() == lines(s).len()
    &&& forall|k: int|
        0 <= k < r.len() ==> r[k].0 <= r[k].1 <= s.len() && #[trigger] range_view(s, r[k])
            == lines(s)[k]
}

/// The UTF-8 byte length of a character sequence (`str::len`).
pub open spec fn utf8_len(s: Seq<char>) -> int {
    vstd::utf8::encode_utf8(s).len() as int
}

fn char_width(c: char) -> (w: usize)
    ensures
        w == vstd::utf8::encode_scalar(c as u32).len(),
        1 <= w <= 4,
{
    let u = c as u32;
    if u <= 0x7f {
        1
    } else if u <= 0x7ff {
        2
    } else if u <= 0xffff {
        3
    } else {
        4
    }
}

/// Whether `s[lo..hi]` takes more than `limit` bytes in UTF-8.
pub fn utf8_len_exceeds(s: &Vec<char>, lo: usize, hi: usize, limit: usize) -> (r: bool)
    requires
        lo <= hi <= s.len(),
        limit < usize::MAX - 4,
    ensures
        r == (utf8_len(s@.subrange(lo as int, hi as int)) > limit),
{
    let ghost sub = s@.subrange(lo as int, hi as int);
    let mut n: usize = 0;
    let mut i = lo;
    assert(sub.skip(0) =~= sub);
    while i < hi
        invariant
            lo <= i <= hi <= s.len(),
            sub == s@.subrange(lo as int, hi as int),
            n <= limit,
            limit < usize::MAX - 4,
            n + vstd::utf8::encode_utf8(sub.skip(i - lo)).len() == vstd::utf8::encode_utf8(sub).len(),
        decreases hi - i,
    {
        assert(sub.skip(i - lo)[0] == s@[i as int]);
        assert(sub.skip(i - lo).drop_first() =~= sub.skip(i - lo + 1));
        n = n + char_width(s[i]);
        i += 1;
        if n > limit {
            return true;
        }
    }
    assert(sub.skip(hi - lo).len() == 0);
    false
}

/// The end of `trim_end(s[lo..hi])` inside `s`.
pub fn trim_end_range(s: &Vec<char>, lo: usize, hi: usize) -> (b: usize)
    requires
        lo <= hi <= s.len(),
    ensures
        lo <= b <= hi,
        s@.subrange(lo as int, b as int) == trim_end(s@.subrange(lo as int, hi as int)),
{
    let mut b = hi;
    while b > lo && is_whitespace(s[b - 1])
        invariant
            lo <= b <= hi <= s.len(),
            trim_end(s@.subrange(lo as int, b as int)) == trim_end(s@.subrange(lo as int, hi as int)),
        decreases b - lo,
    {
        assert(s@.subrange(lo as int, b as int).drop_last() =~= s@.subrange(lo as int, b - 1));
        b -= 1;
    }
    assert(trim_end(s@.subrange(lo as int, b as int)) == s@.subrange(lo as int, b as int));
    b
}

// ---------------------------------------------------------------------------
// Ordering
// ---------------------------------------------------------------------------

/// `a` sorts strictly before `b` (code point lexicographic order, as `String`
/// orders UTF-8).
pub open spec fn seq_lt(a: Seq<char>, b: Seq<char>) -> bool
    decreases a.len(),
{
    if a.len() == 0 {
        b.len() > 0
    } else if b.len() == 0 {
        false
    } else if a[0] != b[0] {
        a[0] < b[0]
    } else {
        seq_lt(a.drop_first(), b.drop_first())
    }
}

/// Whether `a` sorts strictly before `b`.
pub fn lt_exec(a: &Vec<char>, b: &Vec<char>) -> (r: bool)
    ensures
        r == seq_lt(a@, b@),
{
    let mut i: usize = 0;
    assert(a@.skip(0) =~= a@);
    assert(b@.skip(0) =~= b@);
    while i < a.len() && i < b.len() && a[i] == b[i]
        invariant
            i <= a.len(),
            i <= b.len(),
            seq_lt(a@, b@) == seq_lt(a@.skip(i as int), b@.skip(i as int)),
        decreases a.len() - i,
    {
        assert(a@.skip(i as int).drop_first() =~= a@.skip(i + 1));
        assert(b@.skip(i as int).drop_first() =~= b@.skip(i + 1));
        i += 1;
    }
    assert(a@.skip(i as int).len() == a@.len() - i);
    if i == a.len() {
        i < b.len()
    } else if i == b.len() {
        false
    } else {
        a[i] < b[i]
    }
}

pub proof fn lemma_seq_lt_irreflexive(a: Seq<char>)
    ensures
        !seq_lt(a, a),
    decreases a.len(),
{
    if a.len() > 0 {
        lemma_seq_lt_irreflexive(a.drop_first());
    }
}

pub proof fn lemma_seq_lt_total(a: Seq<char>, b: Seq<char>)
    ensures
        a == b || seq_lt(a, b) || seq_lt(b, a),
    decreases a.len(),
{
    if a.len() > 0 && b.len() > 0 && a[0] == b[0] {
        lemma_seq_lt_total(a.drop_first(), b.drop_first());
        if a.drop_first() == b.drop_first() {
            assert(a =~= seq![a[0]] + a.drop_first());
            assert(b =~= seq![b[0]] + b.drop_first());
        }
    } else if a.len() == 0 && b.len() == 0 {
        assert(a =~= b);
    } else if a.len() > 0 && b.len() > 0 {
        assert(a[0] != b[0]);
    }
}

pub proof fn lemma_seq_lt_transitive(a: Seq<char>, b: Seq<char>, c: Seq<char>)
    requires
        seq_lt(a, b),
        seq_lt(b, c),
    ensures
        seq_lt(a, c),
    decreases a.len(),
{
    if a.len() > 0 && b.len() > 0 && c.len() > 0 && a[0] == b[0] && b[0] == c[0] {
        lemma_seq_lt_transitive(a.drop_first(), b.drop_first(), c.drop_first());
    }
}

/// Whether a string is blank.
pub fn blank(s: &String) -> (r: bool)
    ensures
        r == is_blank(s@),
{
    trim_vec(&chars_of(s.as_str())).len() == 0
}

/// Whether two strings hold the same text.
pub fn same_text(a: &String, b: &String) -> (r: bool)
    ensures
        r == (a@ == b@),
{
    vec_eq(&chars_of(a.as_str()), &chars_of(b.as_str()))
}

/// Whether the vector holds the text.
pub fn contains_text(v: &Vec<String>, x: &String) -> (r: bool)
    ensures
        r == views(v@).contains(x@),
{
    let mut k: usize = 0;
    while k < v.len()
        invariant
            k <= v.len(),
            forall|q: int| 0 <= q < k ==> #[trigger] v@[q]@ != x@,
        decreases v.len() - k,
    {
        if same_text(&v[k], x) {
            assert(views(v@)[k as int] == x@);
            return true;
        }
        k += 1;
    }
    assert(!views(v@).contains(x@)) by {
        if views(v@).contains(x@) {
            let w = choose|w: int| 0 <= w < views(v@).len() && views(v@)[w] == x@;
            assert(v@[w]@ == x@);
        }
    }
    false
}

} // verus!
