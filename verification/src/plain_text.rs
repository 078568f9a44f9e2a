//! Plain-text and Markdown manuscripts: front matter, headings, scene breaks
//! and paragraph blocks.

use vstd::prelude::*;
use crate::text::{
    ascii_lower_seq, ascii_lower_vec, chars_of, find, find_from_exec, matches_at, is_line_ranges, lemma_find_from,
    lemma_seq_lt_total, lemma_seq_lt_transitive, lemma_seq_lt_irreflexive, line_ranges, lines,
    lt_exec, range_view, seq_lt, slice_vec, starts_with, starts_with_str, string_of, trim,
    trim_vec, vec_eq,
};
use crate::epub_export::keys_ascending;
use crate::text::{eq_str, join_exec, join, lemma_char_vec_deep, is_blank};
use crate::parser::{BlockKind, ParsedBlock, ParsedDocument, chapter_heading, chapter_heading_chars, stem_title, file_stem_title};
use crate::models::{DocumentFormat, SourceLocation};
use crate::error::DocumentError;

verus! {

broadcast use vstd::string::group_string_axioms;

// ---------------------------------------------------------------------------
// Metadata maps kept as ascending key/value vectors
// ---------------------------------------------------------------------------

/// The views of key/value string pairs.
pub open spec fn pair_views(v: Seq<(String, String)>) -> Seq<(Seq<char>, Seq<char>)> {
    v.map_values(|p: (String, String)| (p.0@, p.1@))
}

/// The value the last entry with key `k` gives, if any entry has that key.
pub open spec fn last_value(es: Seq<(Seq<char>, Seq<char>)>, k: Seq<char>) -> Option<Seq<char>>
    decreases es.len(),
{
    if es.len() == 0 {
        None
    } else if es.last().0 == k {
        Some(es.last().1)
    } else {
        last_value(es.drop_last(), k)
    }
}

/// `r` is the map that inserting the entries `es` in order builds (a later
/// entry replaces an earlier one with the same key), listed in ascending key
/// order.
pub open spec fn metadata_of(r: Seq<(Seq<char>, Seq<char>)>, es: Seq<(Seq<char>, Seq<char>)>) -> bool {
    &&& keys_ascending(r)
    &&& forall|i: int| 0 <= i < r.len() ==> last_value(es, #[trigger] r[i].0) == Some(r[i].1)
    &&& forall|k: Seq<char>| #[trigger] last_value(es, k) is Some ==> exists|i: int|
        0 <= i < r.len() && r[i].0 == k
}

/// The value stored under `key`, if any.
pub open spec fn lookup(r: Seq<(Seq<char>, Seq<char>)>, key: Seq<char>) -> Option<Seq<char>> {
    if exists|i: int| 0 <= i < r.len() && r[i].0 == key {
        Some(r[choose|i: int| 0 <= i < r.len() && r[i].0 == key].1)
    } else {
        None
    }
}

/// Reading a key back from the metadata gives the value of the key's last
/// front-matter entry.
pub proof fn lemma_lookup_metadata(
    r: Seq<(Seq<char>, Seq<char>)>,
    es: Seq<(Seq<char>, Seq<char>)>,
    key: Seq<char>,
)
    requires
        metadata_of(r, es),
    ensures
        lookup(r, key) == last_value(es, key),
{
    if exists|i: int| 0 <= i < r.len() && r[i].0 == key {
        let i = choose|i: int| 0 <= i < r.len() && r[i].0 == key;
        assert(last_value(es, r[i].0) == Some(r[i].1));
    } else {
        if last_value(es, key) is Some {
            assert(exists|i: int| 0 <= i < r.len() && r[i].0 == key);
        }
    }
}

/// Inserts `(k, v)` into an ascending key/value vector, replacing the value
/// already stored under `k`.
pub fn meta_insert(r: &mut Vec<(String, String)>, k: String, v: String)
    requires
        keys_ascending(pair_views(old(r)@)),
    ensures
        keys_ascending(pair_views(final(r)@)),
        pair_views(final(r)@).contains((k@, v@)),
        forall|i: int|
            0 <= i < final(r)@.len() ==> (#[trigger] pair_views(final(r)@)[i] == (k@, v@) || (
            pair_views(final(r)@)[i].0 != k@ && pair_views(old(r)@).contains(
                pair_views(final(r)@)[i],
            ))),
        forall|j: int|
            0 <= j < old(r)@.len() && (#[trigger] pair_views(old(r)@)[j]).0 != k@ ==> pair_views(
                final(r)@,
            ).contains(pair_views(old(r)@)[j]),
{
    let ghost rv = pair_views(r@);
    let kv = chars_of(k.as_str());
    let mut pos: usize = 0;
    while pos < r.len() && lt_exec(&chars_of(r[pos].0.as_str()), &kv)
        invariant
            pos <= r@.len(),
            rv == pair_views(r@),
            kv@ == k@,
            forall|q: int| 0 <= q < pos ==> seq_lt(#[trigger] rv[q].0, k@),
        decreases r.len() - pos,
    {
        assert(rv[pos as int].0 == r@[pos as int].0@);
        pos += 1;
    }
    if pos < r.len() && vec_eq(&chars_of(r[pos].0.as_str()), &kv) {
        let ghost pv = (k@, v@);
        assert(rv[pos as int].0 == k@);
        r.set(pos, (k, v));
        let ghost nv = pair_views(r@);
        assert(nv =~= rv.update(pos as int, pv));
        assert(nv[pos as int] == pv);
        assert forall|a: int, b: int| 0 <= a < b < nv.len() implies seq_lt(
            #[trigger] nv[a].0,
            #[trigger] nv[b].0,
        ) by {
            assert(nv[a].0 == rv[a].0 && nv[b].0 == rv[b].0);
        }
        assert forall|i: int|
            0 <= i < r@.len() implies (#[trigger] pair_views(r@)[i] == pv || (pair_views(r@)[i].0
            != pv.0 && rv.contains(pair_views(r@)[i]))) by {
            if i != pos {
                assert(nv[i] == rv[i]);
                if rv[i].0 == pv.0 {
                    if i < pos {
                        lemma_seq_lt_irreflexive(pv.0);
                    } else {
                        assert(seq_lt(rv[pos as int].0, rv[i].0));
                        lemma_seq_lt_irreflexive(pv.0);
                    }
                }
            }
        }
        assert forall|j: int| 0 <= j < rv.len() && (#[trigger] rv[j]).0 != pv.0 implies nv.contains(
            rv[j],
        ) by {
            assert(j != pos);
            assert(nv[j] == rv[j]);
        }
        return;
    }
    proof {
        if pos < rv.len() {
            assert(rv[pos as int].0 == r@[pos as int].0@);
            assert(!seq_lt(rv[pos as int].0, k@));
            assert(rv[pos as int].0 != k@);
            lemma_seq_lt_total(rv[pos as int].0, k@);
        }
    }
    let ghost pv = (k@, v@);
    r.insert(pos, (k, v));
    let ghost nv = pair_views(r@);
    assert(nv =~= rv.take(pos as int).push(pv) + rv.skip(pos as int));
    assert(nv[pos as int] == pv);
    assert forall|a: int, b: int| 0 <= a < b < nv.len() implies seq_lt(
        #[trigger] nv[a].0,
        #[trigger] nv[b].0,
    ) by {
        if b < pos {
            assert(nv[a] == rv[a] && nv[b] == rv[b]);
        } else if b == pos {
            assert(nv[a] == rv[a]);
        } else if a == pos {
            assert(nv[b] == rv[b - 1]);
            if b - 1 > pos {
                lemma_seq_lt_transitive(k@, rv[pos as int].0, rv[b - 1].0);
            }
        } else if a < pos {
            assert(nv[a] == rv[a] && nv[b] == rv[b - 1]);
            lemma_seq_lt_transitive(rv[a].0, k@, rv[pos as int].0);
            if b - 1 > pos {
                lemma_seq_lt_transitive(rv[a].0, rv[pos as int].0, rv[b - 1].0);
            }
        } else {
            assert(nv[a] == rv[a - 1] && nv[b] == rv[b - 1]);
        }
    }
    assert forall|i: int|
        0 <= i < nv.len() implies (#[trigger] nv[i] == pv || (nv[i].0 != pv.0 && rv.contains(
        nv[i],
    ))) by {
        if i < pos {
            assert(nv[i] == rv[i]);
            lemma_seq_lt_irreflexive(pv.0);
        } else if i > pos {
            assert(nv[i] == rv[i - 1]);
            lemma_seq_lt_irreflexive(pv.0);
            if i - 1 > pos {
                lemma_seq_lt_transitive(k@, rv[pos as int].0, rv[i - 1].0);
            }
        }
    }
    assert forall|j: int| 0 <= j < rv.len() && (#[trigger] rv[j]).0 != pv.0 implies nv.contains(
        rv[j],
    ) by {
        if j < pos {
            assert(nv[j] == rv[j]);
        } else {
            assert(nv[j + 1] == rv[j]);
        }
    }
}


/// After `meta_insert(k, v)`, the vector is the map of the entries with
/// `(k, v)` appended.
pub proof fn lemma_metadata_step(
    before: Seq<(Seq<char>, Seq<char>)>,
    after: Seq<(Seq<char>, Seq<char>)>,
    es: Seq<(Seq<char>, Seq<char>)>,
    e: (Seq<char>, Seq<char>),
)
    requires
        metadata_of(before, es),
        keys_ascending(after),
        after.contains(e),
        forall|i: int|
            0 <= i < after.len() ==> (#[trigger] after[i] == e || (after[i].0 != e.0
                && before.contains(after[i]))),
        forall|j: int|
            0 <= j < before.len() && (#[trigger] before[j]).0 != e.0 ==> after.contains(before[j]),
    ensures
        metadata_of(after, es.push(e)),
{
    let es2 = es.push(e);
    assert(es2.drop_last() =~= es);
    assert forall|i: int| 0 <= i < after.len() implies last_value(es2, #[trigger] after[i].0) == Some(
        after[i].1,
    ) by {
        if after[i] != e {
            let j = choose|j: int| 0 <= j < before.len() && before[j] == after[i];
            assert(last_value(es, before[j].0) == Some(before[j].1));
        }
    }
    assert forall|x: Seq<char>| #[trigger] last_value(es2, x) is Some implies exists|i: int|
        0 <= i < after.len() && after[i].0 == x by {
        if x == e.0 {
            let i = choose|i: int| 0 <= i < after.len() && after[i] == e;
            assert(after[i].0 == x);
        } else {
            assert(last_value(es, x) is Some);
            let j = choose|j: int| 0 <= j < before.len() && before[j].0 == x;
            assert(after.contains(before[j]));
            let i = choose|i: int| 0 <= i < after.len() && after[i] == before[j];
            assert(after[i].0 == x);
        }
    }
}

// ---------------------------------------------------------------------------
// Front matter
// ---------------------------------------------------------------------------

/// Drops one leading byte-order mark.
pub open spec fn strip_bom(s: Seq<char>) -> Seq<char> {
    if s.len() > 0 && s[0] == '\u{feff}' {
        s.drop_first()
    } else {
        s
    }
}

/// Drops leading carriage returns and line feeds.
pub open spec fn skip_breaks(s: Seq<char>) -> Seq<char>
    decreases s.len(),
{
    if s.len() > 0 && (s[0] == '\r' || s[0] == '\n') {
        skip_breaks(s.drop_first())
    } else {
        s
    }
}

/// A single or double quote.
pub open spec fn is_quote(c: char) -> bool {
    c == '\'' || c == '"'
}

/// Drops leading quotes.
pub open spec fn trim_quotes_start(s: Seq<char>) -> Seq<char>
    decreases s.len(),
{
    if s.len() > 0 && is_quote(s[0]) {
        trim_quotes_start(s.drop_first())
    } else {
        s
    }
}

/// Drops trailing quotes.
pub open spec fn trim_quotes_end(s: Seq<char>) -> Seq<char>
    decreases s.len(),
{
    if s.len() > 0 && is_quote(s.last()) {
        trim_quotes_end(s.drop_last())
    } else {
        s
    }
}

/// `str::trim_matches(['\'', '"'])`.
pub open spec fn trim_quotes(s: Seq<char>) -> Seq<char> {
    trim_quotes_end(trim_quotes_start(s))
}

/// The header and the body of a front-matter block: after an optional byte
/// order mark the content opens with `"---\n"`, and the header runs to the
/// first `"\n---"`; the body follows those four characters, without leading
/// line breaks.
pub open spec fn frontmatter_split(content: Seq<char>) -> Option<(Seq<char>, Seq<char>)> {
    let n = strip_bom(content);
    if starts_with(n, "---\n"@) {
        let rest = n.skip(4);
        match find(rest, "\n---"@) {
            Some(e) => Some((rest.take(e), skip_breaks(rest.skip(e + 4)))),
            None => None,
        }
    } else {
        None
    }
}

/// The metadata entry of a header line `key: value`: the key trimmed and in
/// ASCII lower case, the value trimmed and stripped of quotes; none when
/// either is empty or the line has no colon.
pub open spec fn meta_entry(line: Seq<char>) -> Option<(Seq<char>, Seq<char>)> {
    match find(line, ":"@) {
        Some(c) => {
            let key = trim(line.take(c));
            let value = trim_quotes(trim(line.skip(c + 1)));
            if key.len() > 0 && value.len() > 0 {
                Some((ascii_lower_seq(key), value))
            } else {
                None
            }
        },
        None => None,
    }
}

/// The metadata entries of the header lines, in order.
pub open spec fn meta_entries(ls: Seq<Seq<char>>) -> Seq<(Seq<char>, Seq<char>)>
    decreases ls.len(),
{
    if ls.len() == 0 {
        seq![]
    } else {
        match meta_entry(ls.last()) {
            Some(e) => meta_entries(ls.drop_last()).push(e),
            None => meta_entries(ls.drop_last()),
        }
    }
}

/// Bounds of `trim_quotes(s[lo..hi])` inside `s`.
fn trim_quotes_range(s: &Vec<char>, lo: usize, hi: usize) -> (r: (usize, usize))
    requires
        lo <= hi <= s.len(),
    ensures
        lo <= r.0 <= r.1 <= hi,
        s@.subrange(r.0 as int, r.1 as int) == trim_quotes(s@.subrange(lo as int, hi as int)),
{
    let mut a = lo;
    while a < hi && (s[a] == '\'' || s[a] == '"')
        invariant
            lo <= a <= hi <= s.len(),
            trim_quotes_start(s@.subrange(a as int, hi as int)) == trim_quotes_start(
                s@.subrange(lo as int, hi as int),
            ),
        decreases hi - a,
    {
        assert(s@.subrange(a as int, hi as int).drop_first() =~= s@.subrange(a + 1, hi as int));
        a += 1;
    }
    assert(trim_quotes_start(s@.subrange(a as int, hi as int)) == s@.subrange(a as int, hi as int));
    let mut b = hi;
    while b > a && (s[b - 1] == '\'' || s[b - 1] == '"')
        invariant
            lo <= a <= b <= hi <= s.len(),
            trim_quotes_end(s@.subrange(a as int, b as int)) == trim_quotes_end(
                s@.subrange(a as int, hi as int),
            ),
        decreases b - a,
    {
        assert(s@.subrange(a as int, b as int).drop_last() =~= s@.subrange(a as int, b - 1));
        b -= 1;
    }
    assert(trim_quotes_end(s@.subrange(a as int, b as int)) == s@.subrange(a as int, b as int));
    (a, b)
}

/// The metadata entry of a header line, if it holds one.
fn meta_entry_exec(line: &Vec<char>) -> (r: Option<(String, String)>)
    ensures
        match r {
            Some(p) => meta_entry(line@) == Some((p.0@, p.1@)),
            None => meta_entry(line@) is None,
        },
{
    let colon = chars_of(":");
    match find_from_exec(line, &colon, 0) {
        None => None,
        Some(c) => {
            proof {
                reveal_strlit(":");
                lemma_find_from(line@, colon@, 0);
                assert(colon@.len() == 1);
                assert(matches_at(line@, c as int, colon@));
            }
            let n = line.len();
            let head = slice_vec(line, 0, c);
            let key = trim_vec(&head);
            assert(head@ =~= line@.take(c as int));
            let tail = slice_vec(line, c + 1, n);
            let tv = trim_vec(&tail);
            assert(tail@ =~= line@.skip(c + 1));
            let (a, b) = trim_quotes_range(&tv, 0, tv.len());
            assert(tv@.subrange(0, tv@.len() as int) =~= tv@);
            let value = slice_vec(&tv, a, b);
            if key.len() > 0 && value.len() > 0 {
                let lower = ascii_lower_vec(&key);
                Some((string_of(&lower), string_of(&value)))
            } else {
                None
            }
        },
    }
}

/// Reads an optional front-matter block. Returns its metadata (ascending by
/// key, a later line replacing an earlier one with the same key) and the body
/// after it; without a block, no metadata and the whole content.
pub fn parse_frontmatter(content: &str) -> (r: (Vec<(String, String)>, String))
    ensures
        match frontmatter_split(content@) {
            Some(parts) => metadata_of(pair_views(r.0@), meta_entries(lines(parts.0)))
                && r.1@ == parts.1,
            None => r.0@.len() == 0 && r.1@ == content@,
        },
{
    let c = chars_of(content);
    let n = if c.len() > 0 && c[0] == '\u{feff}' {
        slice_vec(&c, 1, c.len())
    } else {
        slice_vec(&c, 0, c.len())
    };
    assert(n@ =~= strip_bom(content@));
    if !starts_with_str(&n, "---\n") {
        return (Vec::new(), String::from_str(content));
    }
    proof {
        reveal_strlit("---\n");
    }
    let rest = slice_vec(&n, 4, n.len());
    assert(rest@ =~= n@.skip(4));
    let pat = chars_of("\n---");
    let found = find_from_exec(&rest, &pat, 0);
    if found.is_none() {
        return (Vec::new(), String::from_str(content));
    }
    let e = found.unwrap();
    proof {
        lemma_find_from(rest@, pat@, 0);
        reveal_strlit("\n---");
    }
    let header = slice_vec(&rest, 0, e);
    assert(header@ =~= rest@.take(e as int));
    let ranges = line_ranges(&header);
    let ghost ls = lines(header@);
    let mut out: Vec<(String, String)> = Vec::new();
    let mut k: usize = 0;
    while k < ranges.len()
        invariant
            k <= ranges.len(),
            is_line_ranges(header@, ranges@),
            ls == lines(header@),
            metadata_of(pair_views(out@), meta_entries(ls.take(k as int))),
        decreases ranges.len() - k,
    {
        let (a, b) = ranges[k];
        assert(range_view(header@, ranges@[k as int]) == ls[k as int]);
        let line = slice_vec(&header, a, b);
        assert(ls.take(k + 1).drop_last() =~= ls.take(k as int));
        match meta_entry_exec(&line) {
            Some((key, value)) => {
                let ghost before = pair_views(out@);
                let ghost ev = (key@, value@);
                meta_insert(&mut out, key, value);
                proof {
                    lemma_metadata_step(before, pair_views(out@), meta_entries(ls.take(k as int)), ev);
                }
            },
            None => {},
        }
        k += 1;
    }
    assert(ls.take(ls.len() as int) =~= ls);
    let mut p = e + 4;
    while p < rest.len() && (rest[p] == '\r' || rest[p] == '\n')
        invariant
            e + 4 <= p <= rest.len(),
            skip_breaks(rest@.skip(p as int)) == skip_breaks(rest@.skip(e + 4)),
        decreases rest.len() - p,
    {
        assert(rest@.skip(p as int).drop_first() =~= rest@.skip(p + 1));
        p += 1;
    }
    let body = slice_vec(&rest, p, rest.len());
    assert(body@ =~= rest@.skip(p as int));
    (out, string_of(&body))
}


// ---------------------------------------------------------------------------
// Reading text and Markdown
// ---------------------------------------------------------------------------

/// The view of an optional string.
pub open spec fn opt_string_view(o: Option<String>) -> Option<Seq<char>> {
    match o {
        Some(s) => Some(s@),
        None => None,
    }
}

/// The value stored under `key`.
pub fn meta_get(v: &Vec<(String, String)>, key: &str) -> (r: Option<String>)
    requires
        keys_ascending(pair_views(v@)),
    ensures
        opt_string_view(r) == lookup(pair_views(v@), key@),
{
    let ghost pv = pair_views(v@);
    let kv = chars_of(key);
    let mut i: usize = 0;
    while i < v.len()
        invariant
            i <= v@.len(),
            pv == pair_views(v@),
            keys_ascending(pv),
            kv@ == key@,
            forall|q: int| 0 <= q < i ==> #[trigger] pv[q].0 != key@,
        decreases v.len() - i,
    {
        assert(pv[i as int] == (v@[i as int].0@, v@[i as int].1@));
        if vec_eq(&chars_of(v[i].0.as_str()), &kv) {
            proof {
                let c = choose|c: int| 0 <= c < pv.len() && pv[c].0 == key@;
                if c != i {
                    lemma_seq_lt_irreflexive(key@);
                    if c < i {
                        assert(seq_lt(pv[c].0, pv[i as int].0));
                    } else {
                        assert(seq_lt(pv[i as int].0, pv[c].0));
                    }
                }
            }
            return Some(v[i].1.clone());
        }
        i += 1;
    }
    None
}

/// The number of leading `'#'` characters.
pub open spec fn hash_run(t: Seq<char>) -> nat
    decreases t.len(),
{
    if t.len() > 0 && t[0] == '#' {
        1 + hash_run(t.drop_first())
    } else {
        0
    }
}

/// A Markdown ATX heading in a trimmed line: one to six `'#'` followed by
/// whitespace; its level and its trimmed text.
pub open spec fn md_heading(t: Seq<char>) -> Option<(u8, Seq<char>)> {
    let n = hash_run(t);
    if 1 <= n <= 6 && n < t.len() && crate::text::is_ws(t[n as int]) {
        Some((n as u8, trim(t.skip(n as int))))
    } else {
        None
    }
}

fn md_heading_exec(t: &Vec<char>) -> (r: Option<(u8, Vec<char>)>)
    ensures
        match r {
            Some(h) => md_heading(t@) == Some((h.0, h.1@)),
            None => md_heading(t@) is None,
        },
{
    let mut n: usize = 0;
    assert(t@.skip(0) =~= t@);
    while n < t.len() && t[n] == '#'
        invariant
            n <= t.len(),
            hash_run(t@) == n + hash_run(t@.skip(n as int)),
        decreases t.len() - n,
    {
        assert(t@.skip(n as int).drop_first() =~= t@.skip(n + 1));
        n += 1;
    }
    assert(hash_run(t@.skip(n as int)) == 0);
    if 1 <= n && n <= 6 && n < t.len() && crate::text::is_whitespace(t[n]) {
        let rest = slice_vec(t, n, t.len());
        assert(rest@ =~= t@.skip(n as int));
        let value = trim_vec(&rest);
        Some((n as u8, value))
    } else {
        None
    }
}

/// A block's kind and text.
pub open spec fn block_view(b: ParsedBlock) -> (BlockKind, Seq<char>) {
    (b.kind, b.text@)
}

/// The kinds and texts of blocks.
pub open spec fn block_views(bs: Seq<ParsedBlock>) -> Seq<(BlockKind, Seq<char>)> {
    bs.map_values(|b: ParsedBlock| block_view(b))
}

/// The kind of a block of text: a scene break for `***`, `---` or `* * *`, a
/// level-one heading when it reads as a chapter heading, else a paragraph.
pub open spec fn block_kind(text: Seq<char>) -> BlockKind {
    if text == "***"@ || text == "---"@ || text == "* * *"@ {
        BlockKind::SceneBreak
    } else if chapter_heading(text) {
        BlockKind::Heading(1)
    } else {
        BlockKind::Paragraph
    }
}

/// The blocks once the pending lines are flushed: joined by line feeds and
/// trimmed, they make one block unless nothing is left.
pub open spec fn flushed(blocks: Seq<(BlockKind, Seq<char>)>, pending: Seq<Seq<char>>) -> Seq<
    (BlockKind, Seq<char>),
> {
    let text = trim(join(pending, "\n"@));
    if pending.len() == 0 || text.len() == 0 {
        blocks
    } else {
        blocks.push((block_kind(text), text))
    }
}

/// The reading state: blocks so far, pending paragraph lines, title, and
/// whether no Markdown heading has been seen yet.
pub type TextScan = (Seq<(BlockKind, Seq<char>)>, Seq<Seq<char>>, Seq<char>, bool);

/// One line read. A Markdown heading flushes the pending lines; the first one,
/// of level one, becomes the title unless the metadata gave one. A blank line
/// flushes; a chapter heading line with nothing pending is a heading block;
/// any other line is pending.
pub open spec fn text_step(st: TextScan, line: Seq<char>, markdown: bool, has_title: bool) -> TextScan {
    let t = trim(line);
    let heading = if markdown {
        md_heading(t)
    } else {
        None
    };
    match heading {
        Some(h) => {
            let b = flushed(st.0, st.1);
            if st.3 && h.0 == 1 && !has_title {
                (b, seq![], h.1, false)
            } else {
                (b.push((BlockKind::Heading(h.0), h.1)), seq![], st.2, false)
            }
        },
        None => if t.len() == 0 {
            (flushed(st.0, st.1), seq![], st.2, st.3)
        } else if chapter_heading(t) && st.1.len() == 0 {
            (st.0.push((BlockKind::Heading(1), t)), st.1, st.2, st.3)
        } else {
            (st.0, st.1.push(line), st.2, st.3)
        },
    }
}

/// The state after reading the lines in order.
pub open spec fn text_fold(ls: Seq<Seq<char>>, init: TextScan, markdown: bool, has_title: bool) -> TextScan
    decreases ls.len(),
{
    if ls.len() == 0 {
        init
    } else {
        text_step(text_fold(ls.drop_last(), init, markdown, has_title), ls.last(), markdown, has_title)
    }
}

/// The text read for blocks: after the front matter for Markdown.
pub open spec fn body_of(content: Seq<char>, markdown: bool) -> Seq<char> {
    if markdown {
        match frontmatter_split(content) {
            Some(p) => p.1,
            None => content,
        }
    } else {
        content
    }
}

/// `d` is the document read from `content` at `path`.
pub open spec fn text_document(d: ParsedDocument, content: Seq<char>, markdown: bool, path: Seq<char>) -> bool {
    let meta = pair_views(d.metadata@);
    let given = lookup(meta, "title"@);
    let initial = match given {
        Some(t) => t,
        None => stem_title(path),
    };
    let st = text_fold(lines(body_of(content, markdown)), (seq![], seq![], initial, true), markdown, given is Some);
    &&& if markdown {
        match frontmatter_split(content) {
            Some(p) => metadata_of(meta, meta_entries(lines(p.0))),
            None => meta.len() == 0,
        }
    } else {
        meta.len() == 0
    }
    &&& d.source.path@ == path
    &&& d.source.format == (if markdown { DocumentFormat::Markdown } else { DocumentFormat::Txt })
    &&& d.source.page is None && d.source.resource is None && d.source.chapter is None
        && d.source.scene is None && d.source.paragraph is None
    &&& d.title@ == st.2
    &&& opt_string_view(d.author) == lookup(meta, "author"@)
    &&& opt_string_view(d.language) == lookup(meta, "language"@)
    &&& block_views(d.blocks@) == flushed(st.0, st.1)
    &&& forall|i: int| 0 <= i < d.blocks@.len() ==> (#[trigger] d.blocks@[i]).source == d.source
}

fn flush_pending(pending: &mut Vec<Vec<char>>, blocks: &mut Vec<ParsedBlock>, source: &SourceLocation)
    requires
        forall|i: int| 0 <= i < old(blocks)@.len() ==> (#[trigger] old(blocks)@[i]).source == *source,
    ensures
        block_views(final(blocks)@) == flushed(block_views(old(blocks)@), old(pending).deep_view()),
        final(pending)@.len() == 0,
        forall|i: int| 0 <= i < final(blocks)@.len() ==> (#[trigger] final(blocks)@[i]).source == *source,
{
    if pending.len() == 0 {
        assert(old(pending).deep_view().len() == 0);
        return;
    }
    let sep = chars_of("\n");
    let joined = join_exec(pending, &sep);
    let text = trim_vec(&joined);
    pending.clear();
    if text.len() == 0 {
        return;
    }
    let kind = if eq_str(&text, "***") || eq_str(&text, "---") || eq_str(&text, "* * *") {
        BlockKind::SceneBreak
    } else if chapter_heading_chars(&text) {
        BlockKind::Heading(1)
    } else {
        BlockKind::Paragraph
    };
    let ghost before = block_views(blocks@);
    blocks.push(ParsedBlock { kind, text: string_of(&text), source: source.copy() });
    assert(block_views(blocks@) =~= before.push((kind, text@)));
}

fn push_block(blocks: &mut Vec<ParsedBlock>, kind: BlockKind, text: &Vec<char>, source: &SourceLocation)
    requires
        forall|i: int| 0 <= i < old(blocks)@.len() ==> (#[trigger] old(blocks)@[i]).source == *source,
    ensures
        block_views(final(blocks)@) == block_views(old(blocks)@).push((kind, text@)),
        forall|i: int| 0 <= i < final(blocks)@.len() ==> (#[trigger] final(blocks)@[i]).source == *source,
{
    let ghost before = block_views(blocks@);
    blocks.push(ParsedBlock { kind, text: string_of(text), source: source.copy() });
    assert(block_views(blocks@) =~= before.push((kind, text@)));
}

/// Reads a plain-text or Markdown manuscript from its content. Blank content is
/// refused as an empty document. Markdown may open with front matter; its
/// `title`, `author` and `language` entries fill the document's fields, and the
/// first level-one heading gives the title when the front matter did not.
pub fn parse_text_content(content: &str, markdown: bool, path: &str) -> (r: Result<
    ParsedDocument,
    DocumentError,
>)
    ensures
        r is Err <==> is_blank(content@),
        r matches Err(e) ==> e matches DocumentError::EmptyDocument(p) && p@ == path@,
        r matches Ok(d) ==> text_document(d, content@, markdown, path@),
{
    let chars = chars_of(content);
    if trim_vec(&chars).len() == 0 {
        return Err(DocumentError::EmptyDocument(String::from_str(path)));
    }
    let format = if markdown {
        DocumentFormat::Markdown
    } else {
        DocumentFormat::Txt
    };
    let source = SourceLocation::new(path, format);
    let (metadata, body) = if markdown {
        parse_frontmatter(content)
    } else {
        (Vec::new(), String::from_str(content))
    };
    let ghost meta = pair_views(metadata@);
    assert(keys_ascending(meta));
    let given = meta_get(&metadata, "title");
    let has_title = given.is_some();
    let ghost initial = match lookup(meta, "title"@) {
        Some(t) => t,
        None => stem_title(path@),
    };
    let mut title: Vec<char> = match given {
        Some(t) => chars_of(t.as_str()),
        None => chars_of(file_stem_title(path).as_str()),
    };
    let author = meta_get(&metadata, "author");
    let language = meta_get(&metadata, "language");
    let b = chars_of(body.as_str());
    assert(b@ == body_of(content@, markdown));
    let ranges = line_ranges(&b);
    let ghost ls = lines(b@);
    let mut blocks: Vec<ParsedBlock> = Vec::new();
    let mut pending: Vec<Vec<char>> = Vec::new();
    let mut first = true;
    let mut k: usize = 0;
    while k < ranges.len()
        invariant
            k <= ranges.len(),
            is_line_ranges(b@, ranges@),
            ls == lines(b@),
            ({
                let st = text_fold(ls.take(k as int), (seq![], seq![], initial, true), markdown, has_title);
                &&& block_views(blocks@) == st.0
                &&& pending.deep_view() == st.1
                &&& title@ == st.2
                &&& first == st.3
            }),
            forall|i: int| 0 <= i < blocks@.len() ==> (#[trigger] blocks@[i]).source == source,
        decreases ranges.len() - k,
    {
        let (lo, hi) = ranges[k];
        assert(range_view(b@, ranges@[k as int]) == ls[k as int]);
        assert(ls.take(k + 1).drop_last() =~= ls.take(k as int));
        let line = slice_vec(&b, lo, hi);
        let t = trim_vec(&line);
        let heading = if markdown {
            md_heading_exec(&t)
        } else {
            None
        };
        match heading {
            Some((level, value)) => {
                flush_pending(&mut pending, &mut blocks, &source);
                if first && level == 1 && !has_title {
                    title = value;
                    first = false;
                } else {
                    first = false;
                    push_block(&mut blocks, BlockKind::Heading(level), &value, &source);
                }
                assert(pending.deep_view() =~= Seq::<Seq<char>>::empty());
            },
            None => {
                if t.len() == 0 {
                    flush_pending(&mut pending, &mut blocks, &source);
                    assert(pending.deep_view() =~= Seq::<Seq<char>>::empty());
                } else if chapter_heading_chars(&t) && pending.len() == 0 {
                    push_block(&mut blocks, BlockKind::Heading(1), &t, &source);
                } else {
                    let ghost before = pending.deep_view();
                    proof {
                        lemma_char_vec_deep(&line);
                    }
                    pending.push(line);
                    assert(pending.deep_view() =~= before.push(ls[k as int]));
                }
            },
        }
        k += 1;
    }
    assert(ls.take(ls.len() as int) =~= ls);
    flush_pending(&mut pending, &mut blocks, &source);
    Ok(ParsedDocument {
        title: string_of(&title),
        author,
        language,
        metadata,
        source,
        blocks,
    })
}

} // verus!
