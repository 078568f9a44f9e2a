//! The manuscript model built from parsed document blocks: chapter grouping,
//! scene splitting, paragraph extraction and stable identifiers.

use vstd::prelude::*;
use crate::text::{
    ascii_lower_seq, ascii_lower_vec, chars_of, extend_all, is_line_ranges, join, join_exec,
    lemma_char_vec_deep, line_ranges, lines, range_view, replace_all, replace_str, slice_vec,
    starts_with, starts_with_str, string_of, eq_str, trim, trim_range, trim_vec, utf8_len,
    utf8_len_exceeds, views,
};
use crate::fmt::{fnv1a64, fnv1a64_exec, hex_fixed, hex_fixed_vec};
use crate::models::{SourceLocation, file_name_of, last_component, last_dot, strip_tail, stripped_len};

verus! {

broadcast use vstd::string::group_string_axioms;

/// What a parsed block is.
#[derive(Debug, Clone, Copy, PartialEq, Eq, Structural)]
pub enum BlockKind {
    Heading(u8),
    Paragraph,
    SceneBreak,
}

/// A block of text read from a document, with where it came from.
#[derive(Debug, Clone, PartialEq, Eq)]
pub struct ParsedBlock {
    pub kind: BlockKind,
    pub text: String,
    pub source: SourceLocation,
}

/// A document as read by a format parser, before chapters and scenes are built.
#[derive(Debug, Clone)]
pub struct ParsedDocument {
    pub title: String,
    pub author: Option<String>,
    pub language: Option<String>,
    /// Metadata entries (key, value) in ascending key order, each key once.
    pub metadata: Vec<(String, String)>,
    pub source: SourceLocation,
    pub blocks: Vec<ParsedBlock>,
}

/// A text is a chapter heading when, trimmed, it is non-empty, at most 120
/// bytes long, and starts with `chapter `, `part ` or `book ` (any ASCII case)
/// or with the Persian `فصل `/`بخش `.
pub open spec fn chapter_heading(text: Seq<char>) -> bool {
    let t = trim(text);
    &&& t.len() > 0
    &&& utf8_len(t) <= 120
    &&& {
        ||| starts_with(ascii_lower_seq(t), "chapter "@)
        ||| starts_with(ascii_lower_seq(t), "part "@)
        ||| starts_with(ascii_lower_seq(t), "book "@)
        ||| starts_with(t, "فصل "@)
        ||| starts_with(t, "بخش "@)
    }
}

/// Whether the characters read as a chapter heading.
pub fn chapter_heading_chars(s: &Vec<char>) -> (r: bool)
    ensures
        r == chapter_heading(s@),
{
    let (a, b) = trim_range(s, 0, s.len());
    assert(s@.subrange(0, s@.len() as int) =~= s@);
    if a == b {
        return false;
    }
    if utf8_len_exceeds(s, a, b, 120) {
        return false;
    }
    let t = slice_vec(s, a, b);
    let lower = ascii_lower_vec(&t);
    starts_with_str(&lower, "chapter ") || starts_with_str(&lower, "part ") || starts_with_str(
        &lower,
        "book ",
    ) || starts_with_str(&t, "فصل ") || starts_with_str(&t, "بخش ")
}

/// Whether the text reads as a chapter heading.
pub fn looks_like_chapter_heading(text: &str) -> (r: bool)
    ensures
        r == chapter_heading(text@),
{
    chapter_heading_chars(&chars_of(text))
}

/// The title a file gives a document: its name without the last extension
/// (`Path::file_stem`), or `Untitled` when the path names no file.
pub open spec fn stem_title(path: Seq<char>) -> Seq<char> {
    let name = file_name_of(path);
    if name.len() == 0 || name == "."@ || name == ".."@ {
        "Untitled"@
    } else {
        match last_dot(name) {
            Some(d) => if d > 0 {
                name.take(d)
            } else {
                name
            },
            None => name,
        }
    }
}

/// The document title taken from a file path.
pub fn file_stem_title(path: &str) -> (r: String)
    ensures
        r@ == stem_title(path@),
{
    let full = chars_of(path);
    let end = stripped_len(&full);
    let p = slice_vec(&full, 0, end);
    assert(p@ == strip_tail(path@));
    let mut start = p.len();
    assert(p@.take(p@.len() as int) =~= p@);
    assert(last_component(p@) + p@.skip(p@.len() as int) =~= last_component(p@));
    while start > 0 && p[start - 1] != '/'
        invariant
            start <= p.len(),
            last_component(p@) == last_component(p@.take(start as int)) + p@.skip(start as int),
        decreases start,
    {
        assert(p@.take(start as int).drop_last() =~= p@.take(start - 1));
        assert(p@.skip(start - 1) =~= seq![p@[start - 1]] + p@.skip(start as int));
        assert(last_component(p@.take(start as int)) == last_component(p@.take(start - 1)).push(
            p@[start - 1],
        ));
        start -= 1;
    }
    assert(last_component(p@.take(start as int)).len() == 0) by {
        if start > 0 {
            assert(p@.take(start as int).last() == '/');
        }
    }
    let name = slice_vec(&p, start, p.len());
    assert(name@ =~= last_component(p@));
    if name.len() == 0 || eq_str(&name, ".") || eq_str(&name, "..") {
        return String::from_str("Untitled");
    }
    let mut d = name.len();
    assert(name@.take(name@.len() as int) =~= name@);
    while d > 0 && name[d - 1] != '.'
        invariant
            d <= name.len(),
            last_dot(name@) == last_dot(name@.take(d as int)),
        decreases d,
    {
        assert(name@.take(d as int).drop_last() =~= name@.take(d - 1));
        d -= 1;
    }
    if d == 0 {
        assert(last_dot(name@.take(0)) is None);
        string_of(&name)
    } else {
        assert(name@.take(d as int).last() == '.');
        if d - 1 > 0 {
            let stem = slice_vec(&name, 0, d - 1);
            assert(stem@ =~= name@.take(d - 1));
            string_of(&stem)
        } else {
            string_of(&name)
        }
    }
}

// ---------------------------------------------------------------------------
// Stable identifiers
// ---------------------------------------------------------------------------

/// The bytes hashed for an identifier: each part's UTF-8 bytes followed by a
/// zero byte.
pub open spec fn id_bytes(parts: Seq<Seq<char>>) -> Seq<u8>
    decreases parts.len(),
{
    if parts.len() == 0 {
        seq![]
    } else {
        id_bytes(parts.drop_last()) + vstd::utf8::encode_utf8(parts.last()) + seq![0u8]
    }
}

/// `"doc-"` followed by the 16 lowercase hex digits of the FNV-1a hash of the
/// parts.
pub open spec fn stable_id_spec(parts: Seq<Seq<char>>) -> Seq<char> {
    "doc-"@ + hex_fixed(fnv1a64(id_bytes(parts)) as nat, 16)
}

/// A deterministic identifier derived from the parts.
pub fn stable_id(parts: &Vec<String>) -> (r: String)
    ensures
        r@ == stable_id_spec(views(parts@)),
{
    let mut bytes: Vec<u8> = Vec::new();
    let mut i: usize = 0;
    while i < parts.len()
        invariant
            i <= parts.len(),
            bytes@ == id_bytes(views(parts@.take(i as int))),
        decreases parts.len() - i,
    {
        let b = parts[i].as_str().as_bytes();
        let mut j: usize = 0;
        let ghost before = bytes@;
        while j < b.len()
            invariant
                j <= b.len(),
                bytes@ == before + b@.take(j as int),
            decreases b.len() - j,
        {
            bytes.push(b[j]);
            assert(b@.take(j + 1) =~= b@.take(j as int).push(b@[j as int]));
            assert(bytes@ =~= before + b@.take(j + 1));
            j += 1;
        }
        bytes.push(0u8);
        assert(b@.take(b@.len() as int) =~= b@);
        assert(views(parts@.take(i + 1)).drop_last() =~= views(parts@.take(i as int)));
        assert(views(parts@.take(i + 1)).last() == parts@[i as int]@);
        assert(bytes@ =~= id_bytes(views(parts@.take(i + 1))));
        i += 1;
    }
    assert(parts@.take(parts@.len() as int) =~= parts@);
    let h = fnv1a64_exec(bytes.as_slice());
    let mut out = chars_of("doc-");
    let hex = hex_fixed_vec(h, 16);
    extend_all(&mut out, &hex);
    string_of(&out)
}

// ---------------------------------------------------------------------------
// Paragraph extraction
// ---------------------------------------------------------------------------

/// Carriage returns, alone or before a line feed, become line feeds.
pub open spec fn normalize_breaks(s: Seq<char>) -> Seq<char> {
    replace_all(replace_all(s, "\r\n"@, "\n"@), "\r"@, "\n"@)
}

/// A piece between blank-line separators as one paragraph: its lines trimmed
/// and joined by a space, then trimmed.
pub open spec fn paragraph_of(piece: Seq<char>) -> Seq<char> {
    trim(join(lines(piece).map_values(|l: Seq<char>| trim(l)), " "@))
}

/// The paragraph of a piece, if it is not empty.
pub open spec fn kept(piece: Seq<char>) -> Seq<Seq<char>> {
    if paragraph_of(piece).len() > 0 {
        seq![paragraph_of(piece)]
    } else {
        seq![]
    }
}

/// The paragraphs of `s` from the piece starting at `start`, scanning at `i`
/// for the next `"\n\n"` separator (`str::split("\n\n")`).
pub open spec fn paragraph_scan(s: Seq<char>, start: int, i: int) -> Seq<Seq<char>>
    decreases s.len() - i,
{
    if i < 0 || i + 1 >= s.len() {
        kept(s.subrange(start, s.len() as int))
    } else if s[i] == '\n' && s[i + 1] == '\n' {
        kept(s.subrange(start, i)) + paragraph_scan(s, i + 2, i + 2)
    } else {
        paragraph_scan(s, start, i + 1)
    }
}

/// The non-empty paragraphs of a text block.
pub open spec fn split_paragraphs(text: Seq<char>) -> Seq<Seq<char>> {
    paragraph_scan(normalize_breaks(text), 0, 0)
}

fn paragraph_piece(s: &Vec<char>, lo: usize, hi: usize) -> (r: Vec<char>)
    requires
        lo <= hi <= s.len(),
    ensures
        r@ == paragraph_of(s@.subrange(lo as int, hi as int)),
{
    let piece = slice_vec(s, lo, hi);
    let ranges = line_ranges(&piece);
    let ghost ls = lines(piece@);
    let mut parts: Vec<Vec<char>> = Vec::new();
    let mut k: usize = 0;
    while k < ranges.len()
        invariant
            k <= ranges.len(),
            is_line_ranges(piece@, ranges@),
            ls == lines(piece@),
            parts.deep_view() == ls.take(k as int).map_values(|l: Seq<char>| trim(l)),
        decreases ranges.len() - k,
    {
        let (a, b) = ranges[k];
        assert(range_view(piece@, ranges@[k as int]) == ls[k as int]);
        let line = slice_vec(&piece, a, b);
        let t = trim_vec(&line);
        let ghost before = parts.deep_view();
        proof {
            lemma_char_vec_deep(&t);
        }
        parts.push(t);
        assert(parts.deep_view() =~= before.push(trim(ls[k as int])));
        assert(ls.take(k + 1).map_values(|l: Seq<char>| trim(l)) =~= ls.take(k as int).map_values(
            |l: Seq<char>| trim(l),
        ).push(trim(ls[k as int])));
        k += 1;
    }
    assert(ls.take(ls.len() as int) =~= ls);
    let sep = chars_of(" ");
    let joined = join_exec(&parts, &sep);
    trim_vec(&joined)
}

/// Splits a text block into paragraphs at blank lines; each paragraph's lines
/// are trimmed and joined by a single space, and empty paragraphs are dropped.
pub fn split_paragraph_text(text: &str) -> (r: Vec<String>)
    ensures
        views(r@) == split_paragraphs(text@),
{
    let raw = chars_of(text);
    let once = replace_str(&raw, "\r\n", "\n");
    let s = replace_str(&once, "\r", "\n");
    assert(s@ == normalize_breaks(text@));
    let mut out: Vec<String> = Vec::new();
    let mut start: usize = 0;
    let mut i: usize = 0;
    while s.len() - i >= 2
        invariant
            start <= i <= s.len(),
            views(out@) + paragraph_scan(s@, start as int, i as int) == paragraph_scan(s@, 0, 0),
        decreases s.len() - i,
    {
        if s[i] == '\n' && s[i + 1] == '\n' {
            let p = paragraph_piece(&s, start, i);
            let ghost before = views(out@);
            if p.len() > 0 {
                out.push(string_of(&p));
                assert(views(out@) =~= before + kept(s@.subrange(start as int, i as int)));
            } else {
                assert(views(out@) =~= before + kept(s@.subrange(start as int, i as int)));
            }
            assert(views(out@) + paragraph_scan(s@, i + 2, i + 2) =~= paragraph_scan(s@, 0, 0));
            start = i + 2;
            i = i + 2;
        } else {
            i += 1;
        }
    }
    let p = paragraph_piece(&s, start, s.len());
    let ghost before = views(out@);
    if p.len() > 0 {
        out.push(string_of(&p));
    }
    assert(views(out@) =~= before + kept(s@.subrange(start as int, s@.len() as int)));
    out
}

} // verus!
