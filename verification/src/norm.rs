//! Case folding and word normalization used for identity and name matching.

use vstd::prelude::*;
use crate::text::{chars_of, is_whitespace, is_ws, join, join_exec, lemma_char_vec_deep, string_of};

verus! {

/// What `str::to_lowercase` returns (full Unicode lowercase mapping).
pub uninterp spec fn unicode_lowercase(s: Seq<char>) -> Seq<char>;

/// What `char::is_alphanumeric` returns (Unicode `Alphabetic` or `Numeric`).
pub uninterp spec fn unicode_alphanumeric(c: char) -> bool;

/// `str::to_lowercase`: the result is the Unicode lowercase mapping of the
/// argument, a function of the argument alone.
#[verifier::external_body]
pub(crate) fn lowercase(s: &str) -> (r: String)
    ensures
        r@ == unicode_lowercase(s@),
{
    s.to_lowercase()
}

/// `char::is_alphanumeric`: whether the character is Unicode alphabetic or
/// numeric, a function of the character alone.
#[verifier::external_body]
pub(crate) fn is_alphanumeric(c: char) -> (r: bool)
    ensures
        r == unicode_alphanumeric(c),
{
    c.is_alphanumeric()
}

/// The whitespace-separated words of `s` read from position `i`, with `cur`
/// the word in progress (`str::split_whitespace`).
pub open spec fn word_scan(s: Seq<char>, i: int, cur: Seq<char>) -> Seq<Seq<char>>
    decreases s.len() - i,
{
    if i < 0 || i >= s.len() {
        if cur.len() > 0 {
            seq![cur]
        } else {
            seq![]
        }
    } else if is_ws(s[i]) {
        (if cur.len() > 0 {
            seq![cur]
        } else {
            seq![]
        }) + word_scan(s, i + 1, seq![])
    } else {
        word_scan(s, i + 1, cur.push(s[i]))
    }
}

/// `s.split_whitespace().collect::<Vec<_>>().join(" ")`.
pub open spec fn collapse_ws(s: Seq<char>) -> Seq<char> {
    join(word_scan(s, 0, seq![]), " "@)
}

/// Collapses runs of whitespace to single spaces and trims the ends.
pub fn collapse_whitespace(s: &Vec<char>) -> (r: Vec<char>)
    ensures
        r@ == collapse_ws(s@),
{
    let mut words: Vec<Vec<char>> = Vec::new();
    let mut cur: Vec<char> = Vec::new();
    let mut i: usize = 0;
    assert(words.deep_view() =~= Seq::<Seq<char>>::empty());
    while i < s.len()
        invariant
            i <= s.len(),
            words.deep_view() + word_scan(s@, i as int, cur@) == word_scan(s@, 0, seq![]),
        decreases s.len() - i,
    {
        let ghost before = words.deep_view();
        if is_whitespace(s[i]) {
            if cur.len() > 0 {
                let ghost cv = cur@;
                proof {
                    lemma_char_vec_deep(&cur);
                }
                words.push(cur);
                assert(words.deep_view() =~= before + seq![cv]);
            } else {
                assert(words.deep_view() =~= before + Seq::<Seq<char>>::empty());
            }
            cur = Vec::new();
        } else {
            cur.push(s[i]);
        }
        i += 1;
    }
    let ghost before = words.deep_view();
    if cur.len() > 0 {
        let ghost cv = cur@;
        proof {
            lemma_char_vec_deep(&cur);
        }
        words.push(cur);
        assert(words.deep_view() =~= before + seq![cv]);
    } else {
        assert(words.deep_view() =~= before + Seq::<Seq<char>>::empty());
    }
    let sp = chars_of(" ");
    join_exec(&words, &sp)
}

/// Keeps the alphanumeric and whitespace characters.
pub open spec fn identity_chars(s: Seq<char>) -> Seq<char>
    decreases s.len(),
{
    if s.len() == 0 {
        seq![]
    } else if unicode_alphanumeric(s.last()) || is_ws(s.last()) {
        identity_chars(s.drop_last()).push(s.last())
    } else {
        identity_chars(s.drop_last())
    }
}

/// Lowercased; only letters, digits and whitespace kept; whitespace collapsed.
pub open spec fn identity_form(s: Seq<char>) -> Seq<char> {
    collapse_ws(identity_chars(unicode_lowercase(s)))
}

/// Normalizes a string for stable identity: lowercase, keep only alphanumeric
/// and whitespace, collapse whitespace, trim.
pub fn normalize_for_identity(value: &str) -> (r: String)
    ensures
        r@ == identity_form(value@),
{
    let lower = lowercase(value);
    let l = chars_of(lower.as_str());
    let mut kept: Vec<char> = Vec::new();
    let mut i: usize = 0;
    while i < l.len()
        invariant
            i <= l.len(),
            kept@ == identity_chars(l@.take(i as int)),
        decreases l.len() - i,
    {
        assert(l@.take(i + 1).drop_last() =~= l@.take(i as int));
        let c = l[i];
        if is_alphanumeric(c) || is_whitespace(c) {
            kept.push(c);
        }
        i += 1;
    }
    assert(l@.take(l@.len() as int) =~= l@);
    let r = collapse_whitespace(&kept);
    string_of(&r)
}

/// A word of `collapse_ws`: non-empty, with no whitespace, each character
/// satisfying `p`.
pub open spec fn clean_word(w: Seq<char>, p: spec_fn(char) -> bool) -> bool {
    &&& w.len() > 0
    &&& forall|k: int| 0 <= k < w.len() ==> p(#[trigger] w[k]) && !is_ws(w[k])
}

/// Every word is a clean word.
pub open spec fn clean_words(ws: Seq<Seq<char>>, p: spec_fn(char) -> bool) -> bool {
    forall|a: int| 0 <= a < ws.len() ==> clean_word(#[trigger] ws[a], p)
}

/// Single-spaced text: it neither starts nor ends with whitespace, holds no
/// two spaces in a row, and every character is a space or a non-whitespace
/// character satisfying `p`.
pub open spec fn single_spaced(r: Seq<char>, p: spec_fn(char) -> bool) -> bool {
    &&& r.len() > 0 ==> !is_ws(r[0]) && !is_ws(r[r.len() - 1])
    &&& forall|i: int, j: int|
        0 <= i && j == i + 1 && j < r.len() ==> !(#[trigger] r[i] == ' ' && #[trigger] r[j] == ' ')
    &&& forall|i: int| 0 <= i < r.len() ==> #[trigger] r[i] == ' ' || (p(r[i]) && !is_ws(r[i]))
}

proof fn lemma_clean_words_concat(a: Seq<Seq<char>>, b: Seq<Seq<char>>, p: spec_fn(char) -> bool)
    requires
        clean_words(a, p),
        clean_words(b, p),
    ensures
        clean_words(a + b, p),
{
    assert forall|x: int| 0 <= x < (a + b).len() implies clean_word(#[trigger] (a + b)[x], p) by {
        if x < a.len() {
            assert((a + b)[x] == a[x]);
        } else {
            assert((a + b)[x] == b[x - a.len()]);
        }
    }
}

/// The words that `word_scan` finds are clean when every character of the
/// text satisfies `p` or is whitespace.
proof fn lemma_word_scan_clean(s: Seq<char>, i: int, cur: Seq<char>, p: spec_fn(char) -> bool)
    requires
        forall|k: int| 0 <= k < s.len() ==> p(#[trigger] s[k]) || is_ws(s[k]),
        forall|k: int| 0 <= k < cur.len() ==> p(#[trigger] cur[k]) && !is_ws(cur[k]),
    ensures
        clean_words(word_scan(s, i, cur), p),
    decreases s.len() - i,
{
    let head: Seq<Seq<char>> = if cur.len() > 0 {
        seq![cur]
    } else {
        seq![]
    };
    assert(clean_words(head, p)) by {
        if cur.len() > 0 {
            assert(head[0] == cur);
        }
    }
    if i < 0 || i >= s.len() {
    } else if is_ws(s[i]) {
        lemma_word_scan_clean(s, i + 1, seq![], p);
        lemma_clean_words_concat(head, word_scan(s, i + 1, seq![]), p);
    } else {
        let next = cur.push(s[i]);
        assert forall|k: int| 0 <= k < next.len() implies p(#[trigger] next[k]) && !is_ws(next[k]) by {
            if k < cur.len() {
                assert(next[k] == cur[k]);
            }
        }
        lemma_word_scan_clean(s, i + 1, next, p);
    }
}

/// Clean words joined by single spaces give single-spaced text.
proof fn lemma_join_single_spaced(ws: Seq<Seq<char>>, p: spec_fn(char) -> bool)
    requires
        clean_words(ws, p),
    ensures
        single_spaced(join(ws, " "@), p),
        ws.len() > 0 ==> join(ws, " "@).len() > 0,
    decreases ws.len(),
{
    reveal_strlit(" ");
    if ws.len() == 0 {
    } else if ws.len() == 1 {
        let w = ws[0];
        assert(clean_word(w, p));
        assert forall|i: int| 0 <= i < w.len() implies #[trigger] w[i] == ' ' || (p(w[i]) && !is_ws(
            w[i],
        )) by {}
        assert forall|i: int, j: int| 0 <= i && j == i + 1 && j < w.len() implies !(#[trigger] w[i]
            == ' ' && #[trigger] w[j] == ' ') by {
            assert(!is_ws(w[i]));
        }
    } else {
        let front = ws.drop_last();
        let w = ws.last();
        assert(clean_words(front, p)) by {
            assert forall|a: int| 0 <= a < front.len() implies clean_word(#[trigger] front[a], p) by {
                assert(front[a] == ws[a]);
            }
        }
        assert(clean_word(w, p)) by {
            assert(w == ws[ws.len() - 1]);
        }
        lemma_join_single_spaced(front, p);
        let jf = join(front, " "@);
        let r = join(ws, " "@);
        assert(r == jf + " "@ + w);
        let n = jf.len();
        assert(r.len() == n + 1 + w.len());
        assert forall|i: int| 0 <= i < r.len() implies #[trigger] r[i] == ' ' || (p(r[i]) && !is_ws(
            r[i],
        )) by {
            if i < n {
                assert(r[i] == jf[i]);
            } else if i == n {
                assert(r[i] == ' ');
            } else {
                assert(r[i] == w[i - n - 1]);
            }
        }
        assert forall|i: int, j: int| 0 <= i && j == i + 1 && j < r.len() implies !(#[trigger] r[i]
            == ' ' && #[trigger] r[j] == ' ') by {
            if j < n {
                assert(r[i] == jf[i] && r[j] == jf[j]);
            } else if j == n {
                assert(r[i] == jf[n - 1]);
            } else if j == n + 1 {
                assert(r[j] == w[0]);
            } else {
                assert(r[j] == w[j - n - 1]);
                assert(!is_ws(w[j - n - 1]));
            }
        }
        assert(r[0] == jf[0]);
        assert(r[r.len() - 1] == w[w.len() - 1]);
    }
}

/// Identity forms are trimmed, single-spaced words of letters and digits:
/// no leading or trailing whitespace, no two spaces in a row, and every
/// character is a space or an alphanumeric, non-whitespace character.
pub proof fn lemma_identity_form_shape(s: Seq<char>)
    ensures
        single_spaced(identity_form(s), |c: char| unicode_alphanumeric(c)),
{
    let p = |c: char| unicode_alphanumeric(c);
    let k = identity_chars(unicode_lowercase(s));
    lemma_identity_chars_kept(unicode_lowercase(s));
    assert forall|x: int| 0 <= x < k.len() implies p(#[trigger] k[x]) || is_ws(k[x]) by {}
    lemma_word_scan_clean(k, 0, seq![], p);
    lemma_join_single_spaced(word_scan(k, 0, seq![]), p);
}

/// What `identity_chars` keeps is alphanumeric or whitespace.
proof fn lemma_identity_chars_kept(s: Seq<char>)
    ensures
        forall|x: int|
            0 <= x < identity_chars(s).len() ==> unicode_alphanumeric(#[trigger] identity_chars(s)[x])
                || is_ws(identity_chars(s)[x]),
    decreases s.len(),
{
    if s.len() > 0 {
        let front = identity_chars(s.drop_last());
        lemma_identity_chars_kept(s.drop_last());
        let r = identity_chars(s);
        assert forall|x: int| 0 <= x < r.len() implies unicode_alphanumeric(#[trigger] r[x]) || is_ws(
            r[x],
        ) by {
            if x < front.len() {
                assert(r[x] == front[x]);
            }
        }
    }
}

/// Every character that is not alphanumeric becomes a space.
pub open spec fn matching_chars(s: Seq<char>) -> Seq<char> {
    s.map_values(|c: char| if unicode_alphanumeric(c) {
        c
    } else {
        ' '
    })
}

/// The form names and passages are compared in: lowercase words of letters and
/// digits separated by single spaces.
pub open spec fn matching_form(s: Seq<char>) -> Seq<char> {
    collapse_ws(matching_chars(unicode_lowercase(s)))
}

/// Normalizes text for case-insensitive, punctuation-blind word matching.
pub fn normalize_for_matching(text: &str) -> (r: Vec<char>)
    ensures
        r@ == matching_form(text@),
{
    let lower = lowercase(text);
    let l = chars_of(lower.as_str());
    let mut mapped: Vec<char> = Vec::new();
    let mut i: usize = 0;
    while i < l.len()
        invariant
            i <= l.len(),
            mapped@ == matching_chars(l@.take(i as int)),
        decreases l.len() - i,
    {
        let c = l[i];
        if is_alphanumeric(c) {
            mapped.push(c);
        } else {
            mapped.push(' ');
        }
        assert(mapped@ =~= matching_chars(l@.take(i + 1)));
        i += 1;
    }
    assert(l@.take(l@.len() as int) =~= l@);
    collapse_whitespace(&mapped)
}

/// Matching forms are trimmed, single-spaced words of letters and digits.
pub proof fn lemma_matching_form_shape(s: Seq<char>)
    ensures
        single_spaced(matching_form(s), |c: char| unicode_alphanumeric(c)),
{
    let p = |c: char| unicode_alphanumeric(c);
    let m = matching_chars(unicode_lowercase(s));
    assert forall|x: int| 0 <= x < m.len() implies p(#[trigger] m[x]) || is_ws(m[x]) by {}
    lemma_word_scan_clean(m, 0, seq![], p);
    lemma_join_single_spaced(word_scan(m, 0, seq![]), p);
}

} // verus!
