//! EPUB container, package and XHTML text extraction.

use vstd::prelude::*;
use crate::text::{
    matches_at, ascii_lower_seq, ascii_lower_vec, chars_of, eq_str, extend_all, extend_str, find,
    find_from, find_from_exec, is_blank, is_blank_range, join, join_exec, lemma_find_from, lines,
    line_ranges, range_view, is_line_ranges, lemma_char_vec_deep, replace_all, replace_str, slice_vec, starts_with, starts_with_str,
    string_of, trim, trim_range, trim_vec, views,
};
use crate::error::DocumentError;

verus! {

/// The entity decoding used for EPUB package and XHTML text.
pub open spec fn epub_decode(s: Seq<char>) -> Seq<char> {
    replace_all(
        replace_all(
            replace_all(
                replace_all(
                    replace_all(
                        replace_all(replace_all(s, "&nbsp;"@, " "@), "&amp;"@, "&"@),
                        "&lt;"@,
                        "<"@,
                    ),
                    "&gt;"@,
                    ">"@,
                ),
                "&quot;"@,
                "\""@,
            ),
            "&#39;"@,
            "'"@,
        ),
        "&apos;"@,
        "'"@,
    )
}

/// Decodes the entities that occur in EPUB markup.
pub fn decode_epub_entities(s: &Vec<char>) -> (r: Vec<char>)
    ensures
        r@ == epub_decode(s@),
{
    let a = replace_str(s, "&nbsp;", " ");
    let b = replace_str(&a, "&amp;", "&");
    let c = replace_str(&b, "&lt;", "<");
    let d = replace_str(&c, "&gt;", ">");
    let e = replace_str(&d, "&quot;", "\"");
    let f = replace_str(&e, "&#39;", "'");
    replace_str(&f, "&apos;", "'")
}

/// The decoded value of the first `attribute="..."` in `tag`.
pub open spec fn attribute_spec(tag: Seq<char>, attribute: Seq<char>) -> Option<Seq<char>> {
    let marker = attribute + "=\""@;
    match find(tag, marker) {
        None => None,
        Some(m) => {
            let start = m + marker.len();
            match find_from(tag, "\""@, start) {
                None => None,
                Some(end) => Some(epub_decode(tag.subrange(start, end))),
            }
        },
    }
}

/// Reads `attribute="value"` from a tag, decoding entities.
pub fn extract_attribute(tag: &str, attribute: &str) -> (r: Option<String>)
    ensures
        r matches Some(v) ==> attribute_spec(tag@, attribute@) == Some(v@),
        r is None ==> attribute_spec(tag@, attribute@) is None,
{
    let t = chars_of(tag);
    let mut marker = chars_of(attribute);
    extend_str(&mut marker, "=\"");
    let q = chars_of("\"");
    let m = match find_from_exec(&t, &marker, 0) {
        None => return None,
        Some(m) => m,
    };
    proof {
        lemma_find_from(t@, marker@, 0);
        assert(matches_at(t@, m as int, marker@));
        assert(m + marker@.len() <= t@.len());
        assert(m + marker.len() <= t.len());
    }
    let start = m + marker.len();
    let end = match find_from_exec(&t, &q, start) {
        None => return None,
        Some(end) => end,
    };
    proof {
        lemma_find_from(t@, q@, start as int);
    }
    let body = slice_vec(&t, start, end);
    let decoded = decode_epub_entities(&body);
    Some(string_of(&decoded))
}

/// The text of the first `<tag>...</tag>` element, trimmed and decoded.
pub open spec fn tag_text_spec(xml: Seq<char>, tag: Seq<char>) -> Option<Seq<char>> {
    let open = "<"@ + tag + ">"@;
    let close = "</"@ + tag + ">"@;
    match find(xml, open) {
        None => None,
        Some(o) => {
            let start = o + open.len();
            match find_from(xml, close, start) {
                None => None,
                Some(end) => Some(epub_decode(trim(xml.subrange(start, end)))),
            }
        },
    }
}

/// Reads the trimmed, decoded text of the first `<tag>` element.
pub fn extract_tag_text(xml: &str, tag: &str) -> (r: Option<String>)
    ensures
        r matches Some(v) ==> tag_text_spec(xml@, tag@) == Some(v@),
        r is None ==> tag_text_spec(xml@, tag@) is None,
{
    let x = chars_of(xml);
    let mut open = chars_of("<");
    extend_str(&mut open, tag);
    extend_str(&mut open, ">");
    let mut close = chars_of("</");
    extend_str(&mut close, tag);
    extend_str(&mut close, ">");
    assert(open@ == "<"@ + tag@ + ">"@);
    assert(close@ == "</"@ + tag@ + ">"@);
    let o = match find_from_exec(&x, &open, 0) {
        None => return None,
        Some(o) => o,
    };
    proof {
        lemma_find_from(x@, open@, 0);
        assert(matches_at(x@, o as int, open@));
        assert(o + open@.len() <= x@.len());
        assert(o + open.len() <= x.len());
    }
    let start = o + open.len();
    let end = match find_from_exec(&x, &close, start) {
        None => return None,
        Some(end) => end,
    };
    proof {
        lemma_find_from(x@, close@, start as int);
    }
    let (a, b) = trim_range(&x, start, end);
    let body = slice_vec(&x, a, b);
    let decoded = decode_epub_entities(&body);
    Some(string_of(&decoded))
}

/// The text of the first `<tag ...>` opening tag, up to and including `>`.
pub open spec fn first_tag_spec(xml: Seq<char>, tag: Seq<char>) -> Option<Seq<char>> {
    match find(xml, "<"@ + tag) {
        None => None,
        Some(start) => match find_from(xml, ">"@, start) {
            None => None,
            Some(end) => Some(xml.subrange(start, end + 1)),
        },
    }
}

/// Reads an attribute of the first `<tag ...>` in `xml`.
pub fn extract_attribute_from_tag(xml: &str, tag: &str, attribute: &str) -> (r: Option<String>)
    ensures
        r matches Some(v) ==> first_tag_spec(xml@, tag@) matches Some(t) && attribute_spec(
            t,
            attribute@,
        ) == Some(v@),
        r is None ==> (first_tag_spec(xml@, tag@) matches Some(t) ==> attribute_spec(
            t,
            attribute@,
        ) is None),
{
    let x = chars_of(xml);
    let mut needle = chars_of("<");
    extend_str(&mut needle, tag);
    let gt = chars_of(">");
    proof {
        reveal_strlit(">");
    }
    let start = match find_from_exec(&x, &needle, 0) {
        None => return None,
        Some(s) => s,
    };
    proof {
        lemma_find_from(x@, needle@, 0);
    }
    let end = match find_from_exec(&x, &gt, start) {
        None => return None,
        Some(e) => e,
    };
    proof {
        lemma_find_from(x@, gt@, start as int);
        assert(matches_at(x@, end as int, gt@));
        assert(end + gt@.len() <= x@.len());
        assert(end + 1 <= x.len());
    }
    let t = slice_vec(&x, start, end + 1);
    let ts = string_of(&t);
    extract_attribute(&ts, attribute)
}

/// The `full-path` of the package document named by `META-INF/container.xml`.
pub fn extract_rootfile_path(xml: &str) -> (r: Option<String>)
    ensures
        r matches Some(v) ==> first_tag_spec(xml@, "rootfile"@) matches Some(t) && attribute_spec(
            t,
            "full-path"@,
        ) == Some(v@),
        r is None ==> (first_tag_spec(xml@, "rootfile"@) matches Some(t) ==> attribute_spec(
            t,
            "full-path"@,
        ) is None),
{
    extract_attribute_from_tag(xml, "rootfile", "full-path")
}

/// The `<dc:title>` of a package document.
pub fn extract_metadata_title(xml: &str) -> (r: Option<String>)
    ensures
        r matches Some(v) ==> tag_text_spec(xml@, "dc:title"@) == Some(v@),
        r is None ==> tag_text_spec(xml@, "dc:title"@) is None,
{
    extract_tag_text(xml, "dc:title")
}

/// All opening tags `<tag...>` from position `cursor` on, in document order.
pub open spec fn tags_from(x: Seq<char>, needle: Seq<char>, cursor: int) -> Seq<Seq<char>>
    decreases x.len() - cursor,
{
    if cursor < 0 {
        seq![]
    } else {
        match find_from(x, needle, cursor) {
            None => seq![],
            Some(start) => match find_from(x, ">"@, start) {
                None => seq![],
                Some(end) => {
                    proof {
                        reveal_strlit(">");
                        lemma_find_from(x, ">"@, start);
                        lemma_find_from(x, needle, cursor);
                    }
                    seq![x.subrange(start, end + 1)] + tags_from(x, needle, end + 1)
                },
            },
        }
    }
}

/// Every `<tag...>` opening tag of `xml`, in order.
pub open spec fn tags_spec(xml: Seq<char>, tag: Seq<char>) -> Seq<Seq<char>> {
    tags_from(xml, "<"@ + tag, 0)
}

/// Collects every `<tag...>` opening tag of `xml`.
pub fn extract_tags(xml: &str, tag: &str) -> (r: Vec<String>)
    ensures
        r@.len() == tags_spec(xml@, tag@).len(),
        forall|k: int| 0 <= k < r@.len() ==> (#[trigger] r@[k])@ == tags_spec(xml@, tag@)[k],
{
    let x = chars_of(xml);
    let mut needle = chars_of("<");
    extend_str(&mut needle, tag);
    let gt = chars_of(">");
    proof {
        reveal_strlit(">");
    }
    let ghost whole = tags_from(x@, needle@, 0);
    let mut out: Vec<String> = Vec::new();
    let mut cursor: usize = 0;
    loop
        invariant
            x@ == xml@,
            gt@ == ">"@,
            ">"@ == seq!['>'],
            needle@ == "<"@ + tag@,
            whole == tags_from(x@, needle@, 0),
            cursor <= x@.len() + 1,
            out@.len() + tags_from(x@, needle@, cursor as int).len() == whole.len(),
            forall|k: int| 0 <= k < out@.len() ==> (#[trigger] out@[k])@ == whole[k],
            forall|k: int|
                0 <= k < tags_from(x@, needle@, cursor as int).len() ==> whole[out@.len() + k]
                    == #[trigger] tags_from(x@, needle@, cursor as int)[k],
        ensures
            out@.len() == whole.len(),
            forall|k: int| 0 <= k < out@.len() ==> (#[trigger] out@[k])@ == whole[k],
        decreases x@.len() + 1 - cursor,
    {
        let start = match find_from_exec(&x, &needle, cursor) {
            None => break,
            Some(s) => s,
        };
        proof {
            lemma_find_from(x@, needle@, cursor as int);
        }
        let end = match find_from_exec(&x, &gt, start) {
            None => break,
            Some(e) => e,
        };
        proof {
            lemma_find_from(x@, gt@, start as int);
            assert(matches_at(x@, end as int, gt@));
            assert(end + gt@.len() <= x@.len());
            assert(end + 1 <= x.len());
        }
        let ghost rest = tags_from(x@, needle@, cursor as int);
        let t = slice_vec(&x, start, end + 1);
        assert(rest[0] == t@);
        out.push(string_of(&t));
        cursor = end + 1;
        assert forall|k: int|
            0 <= k < tags_from(x@, needle@, cursor as int).len() implies whole[out@.len() + k]
            == #[trigger] tags_from(x@, needle@, cursor as int)[k] by {
            assert(tags_from(x@, needle@, cursor as int)[k] == rest[k + 1]);
        }
    }
    assert(whole =~= tags_spec(xml@, tag@));
    out
}

/// One `<item>` of an OPF manifest.
#[derive(Debug, Clone)]
pub struct ManifestItem {
    pub id: String,
    pub href: String,
}

/// The manifest entries (id, href) of the `<item>` tags that carry both.
pub open spec fn manifest_spec(tags: Seq<Seq<char>>) -> Seq<(Seq<char>, Seq<char>)>
    decreases tags.len(),
{
    if tags.len() == 0 {
        seq![]
    } else {
        let rest = manifest_spec(tags.drop_last());
        match (attribute_spec(tags.last(), "id"@), attribute_spec(tags.last(), "href"@)) {
            (Some(id), Some(href)) => rest.push((id, href)),
            _ => rest,
        }
    }
}

pub open spec fn item_view(item: ManifestItem) -> (Seq<char>, Seq<char>) {
    (item.id@, item.href@)
}

/// Reads the manifest `<item id=".." href="..">` entries of a package document.
pub fn extract_manifest_items(xml: &str) -> (r: Vec<ManifestItem>)
    ensures
        r@.map_values(|i: ManifestItem| item_view(i)) == manifest_spec(tags_spec(xml@, "item"@)),
{
    let tags = extract_tags(xml, "item");
    let ghost ts = tags_spec(xml@, "item"@);
    let mut out: Vec<ManifestItem> = Vec::new();
    let mut i: usize = 0;
    while i < tags.len()
        invariant
            i <= tags.len(),
            tags@.len() == ts.len(),
            ts == tags_spec(xml@, "item"@),
            forall|k: int| 0 <= k < tags@.len() ==> (#[trigger] tags@[k])@ == ts[k],
            out@.map_values(|i: ManifestItem| item_view(i)) == manifest_spec(ts.take(i as int)),
        decreases tags.len() - i,
    {
        let ghost before = out@;
        assert(ts.take(i + 1).drop_last() =~= ts.take(i as int));
        assert(ts.take(i + 1).last() == tags@[i as int]@);
        let id = extract_attribute(tags[i].as_str(), "id");
        let href = extract_attribute(tags[i].as_str(), "href");
        match (id, href) {
            (Some(id), Some(href)) => {
                out.push(ManifestItem { id, href });
                assert(out@.map_values(|i: ManifestItem| item_view(i)) =~= before.map_values(
                    |i: ManifestItem| item_view(i),
                ).push(item_view(out@.last())));
            },
            _ => {},
        }
        i += 1;
    }
    assert(ts.take(tags@.len() as int) =~= ts);
    out
}

/// The `idref` values of the spine `<itemref>` tags that carry one.
pub open spec fn spine_spec(tags: Seq<Seq<char>>) -> Seq<Seq<char>>
    decreases tags.len(),
{
    if tags.len() == 0 {
        seq![]
    } else {
        let rest = spine_spec(tags.drop_last());
        match attribute_spec(tags.last(), "idref"@) {
            Some(id) => rest.push(id),
            None => rest,
        }
    }
}

/// Reads the spine order (`<itemref idref="..">`) of a package document.
pub fn extract_spine_ids(xml: &str) -> (r: Vec<String>)
    ensures
        r@.map_values(|s: String| s@) == spine_spec(tags_spec(xml@, "itemref"@)),
{
    let tags = extract_tags(xml, "itemref");
    let ghost ts = tags_spec(xml@, "itemref"@);
    let mut out: Vec<String> = Vec::new();
    let mut i: usize = 0;
    while i < tags.len()
        invariant
            i <= tags.len(),
            tags@.len() == ts.len(),
            ts == tags_spec(xml@, "itemref"@),
            forall|k: int| 0 <= k < tags@.len() ==> (#[trigger] tags@[k])@ == ts[k],
            out@.map_values(|s: String| s@) == spine_spec(ts.take(i as int)),
        decreases tags.len() - i,
    {
        let ghost before = out@;
        assert(ts.take(i + 1).drop_last() =~= ts.take(i as int));
        assert(ts.take(i + 1).last() == tags@[i as int]@);
        match extract_attribute(tags[i].as_str(), "idref") {
            Some(id) => {
                out.push(id);
                assert(out@.map_values(|s: String| s@) =~= before.map_values(|s: String| s@).push(
                    out@.last()@,
                ));
            },
            None => {},
        }
        i += 1;
    }
    assert(ts.take(tags@.len() as int) =~= ts);
    out
}

/// Tags that end a block of readable text.
pub open spec fn block_boundary(tag: Seq<char>) -> bool {
    ||| starts_with(tag, "<p"@)
    ||| starts_with(tag, "</p"@)
    ||| starts_with(tag, "<div"@)
    ||| starts_with(tag, "</div"@)
    ||| starts_with(tag, "<h1"@)
    ||| starts_with(tag, "</h1"@)
    ||| starts_with(tag, "<h2"@)
    ||| starts_with(tag, "</h2"@)
    ||| starts_with(tag, "<h3"@)
    ||| starts_with(tag, "</h3"@)
    ||| starts_with(tag, "<li"@)
    ||| starts_with(tag, "</li"@)
    ||| starts_with(tag, "<br"@)
    ||| starts_with(tag, "<blockquote"@)
    ||| starts_with(tag, "</blockquote"@)
}

/// Whether a (lowercased) tag ends a block of readable text.
pub fn is_block_boundary(tag: &Vec<char>) -> (r: bool)
    ensures
        r == block_boundary(tag@),
{
    starts_with_str(tag, "<p") || starts_with_str(tag, "</p") || starts_with_str(tag, "<div")
        || starts_with_str(tag, "</div") || starts_with_str(tag, "<h1") || starts_with_str(
        tag,
        "</h1",
    ) || starts_with_str(tag, "<h2") || starts_with_str(tag, "</h2") || starts_with_str(tag, "<h3")
        || starts_with_str(tag, "</h3") || starts_with_str(tag, "<li") || starts_with_str(
        tag,
        "</li",
    ) || starts_with_str(tag, "<br") || starts_with_str(tag, "<blockquote") || starts_with_str(
        tag,
        "</blockquote",
    )
}

/// The character scan of an XHTML document: markup is dropped, text inside
/// `<script>`/`<style>` is skipped, and a block boundary starts a new line.
pub open spec fn html_scan(
    h: Seq<char>,
    i: int,
    text: Seq<char>,
    in_tag: bool,
    buf: Seq<char>,
    skip: nat,
) -> Seq<char>
    decreases h.len() - i,
{
    if i < 0 || i >= h.len() {
        text
    } else {
        let ch = h[i];
        if ch == '<' {
            html_scan(h, i + 1, text, true, seq!['<'], skip)
        } else if in_tag {
            let b = buf.push(ch);
            if ch == '>' {
                let tag = ascii_lower_seq(b);
                if starts_with(tag, "<script"@) || starts_with(tag, "<style"@) {
                    html_scan(h, i + 1, text, false, b, skip + 1)
                } else if starts_with(tag, "</script"@) || starts_with(tag, "</style"@) {
                    html_scan(
                        h,
                        i + 1,
                        text,
                        false,
                        b,
                        if skip > 0 {
                            (skip - 1) as nat
                        } else {
                            0
                        },
                    )
                } else if skip == 0 && block_boundary(tag) && !crate::text::ends_with(
                    text,
                    "\n"@,
                ) {
                    html_scan(h, i + 1, text.push('\n'), false, b, skip)
                } else {
                    html_scan(h, i + 1, text, false, b, skip)
                }
            } else {
                html_scan(h, i + 1, text, true, b, skip)
            }
        } else if skip == 0 {
            html_scan(h, i + 1, text.push(ch), in_tag, buf, skip)
        } else {
            html_scan(h, i + 1, text, in_tag, buf, skip)
        }
    }
}

/// The trimmed non-blank lines of `ls`, in order.
pub open spec fn trimmed_nonblank(ls: Seq<Seq<char>>) -> Seq<Seq<char>>
    decreases ls.len(),
{
    if ls.len() == 0 {
        seq![]
    } else if trim(ls.last()).len() == 0 {
        trimmed_nonblank(ls.drop_last())
    } else {
        trimmed_nonblank(ls.drop_last()).push(trim(ls.last()))
    }
}

/// Readable text of an XHTML document: one trimmed, non-blank line per block.
pub open spec fn html_text(h: Seq<char>) -> Seq<char> {
    join(trimmed_nonblank(lines(epub_decode(html_scan(h, 0, seq![], false, seq![], 0)))), "\n"@)
}

/// The trimmed, non-blank lines of `s` joined by `'\n'`.
pub fn clean_lines(s: &Vec<char>) -> (r: Vec<char>)
    ensures
        r@ == join(trimmed_nonblank(lines(s@)), "\n"@),
{
    let ranges = line_ranges(s);
    let ghost ls = lines(s@);
    let mut parts: Vec<Vec<char>> = Vec::new();
    let mut i: usize = 0;
    while i < ranges.len()
        invariant
            i <= ranges.len(),
            ls == lines(s@),
            is_line_ranges(s@, ranges@),
            parts.deep_view() == trimmed_nonblank(ls.take(i as int)),
        decreases ranges.len() - i,
    {
        let (lo, hi) = ranges[i];
        assert(range_view(s@, ranges@[i as int]) == ls[i as int]);
        assert(ranges@[i as int].0 <= ranges@[i as int].1 <= s@.len());
        assert(ls.take(i + 1).drop_last() =~= ls.take(i as int));
        assert(ls.take(i + 1).last() == ls[i as int]);
        let (a, b) = trim_range(s, lo, hi);
        if a < b {
            let piece = slice_vec(s, a, b);
            let ghost before = parts.deep_view();
            proof {
                lemma_char_vec_deep(&piece);
            }
            parts.push(piece);
            assert(parts.deep_view() =~= before.push(piece@));
        }
        i += 1;
    }
    assert(ls.take(ranges@.len() as int) =~= ls);
    let nl = chars_of("\n");
    join_exec(&parts, &nl)
}

/// Extracts the readable text of an XHTML chapter.
pub fn extract_html_text(html: &str) -> (r: String)
    ensures
        r@ == html_text(html@),
{
    let h = chars_of(html);
    let nl = chars_of("\n");
    let mut text: Vec<char> = Vec::new();
    let mut in_tag = false;
    let mut buf: Vec<char> = Vec::new();
    let mut skip: usize = 0;
    let mut i: usize = 0;
    while i < h.len()
        invariant
            i <= h.len(),
            h@ == html@,
            nl@ == "\n"@,
            skip <= i,
            html_scan(h@, i as int, text@, in_tag, buf@, skip as nat) == html_scan(
                h@,
                0,
                seq![],
                false,
                seq![],
                0,
            ),
        decreases h.len() - i,
    {
        let ch = h[i];
        if ch == '<' {
            in_tag = true;
            buf = Vec::new();
            buf.push(ch);
            assert(buf@ =~= seq!['<']);
        } else if in_tag {
            buf.push(ch);
            if ch == '>' {
                in_tag = false;
                let tag = ascii_lower_vec(&buf);
                if starts_with_str(&tag, "<script") || starts_with_str(&tag, "<style") {
                    skip = skip + 1;
                } else if starts_with_str(&tag, "</script") || starts_with_str(&tag, "</style") {
                    if skip > 0 {
                        skip = skip - 1;
                    }
                } else if skip == 0 && is_block_boundary(&tag) && !crate::text::ends_with_exec(
                    &text,
                    &nl,
                ) {
                    text.push('\n');
                }
            }
        } else if skip == 0 {
            text.push(ch);
        }
        i += 1;
    }
    let decoded = decode_epub_entities(&text);
    let cleaned = clean_lines(&decoded);
    string_of(&cleaned)
}

// ---------------------------------------------------------------------------
// Archive paths
// ---------------------------------------------------------------------------

/// The `'/'`-separated segments of `s` from the segment starting at `start`.
pub open spec fn split_slash(s: Seq<char>, start: int, i: int) -> Seq<Seq<char>>
    decreases s.len() - i,
{
    if i < 0 || i >= s.len() {
        seq![s.subrange(start, s.len() as int)]
    } else if s[i] == '/' {
        seq![s.subrange(start, i)] + split_slash(s, i + 1, i + 1)
    } else {
        split_slash(s, start, i + 1)
    }
}

/// Applies path segments to a component stack: `..` pops, empty and `.` are
/// skipped, anything else is pushed.
pub open spec fn apply_segments(segs: Seq<Seq<char>>, stack: Seq<Seq<char>>) -> Seq<Seq<char>>
    decreases segs.len(),
{
    if segs.len() == 0 {
        stack
    } else {
        apply_segments(segs.drop_first(), segment_step(stack, segs[0]))
    }
}

/// `base.join(href)` for relative archive paths (an absolute `href` replaces the base).
pub open spec fn join_path(base: Seq<char>, href: Seq<char>) -> Seq<char> {
    if base.len() == 0 || starts_with(href, "/"@) {
        href
    } else {
        base + "/"@ + href
    }
}

/// The normalized archive path of `href` relative to the directory `base`.
pub open spec fn archive_path(base: Seq<char>, href: Seq<char>) -> Seq<char> {
    let joined = join_path(base, href);
    join(apply_segments(split_slash(joined, 0, 0), seq![]), "/"@)
}

/// Resolves `href` against the package directory `base`, folding `.` and `..`.
pub fn normalize_archive_path(base: &str, href: &str) -> (r: String)
    ensures
        r@ == archive_path(base@, href@),
{
    let b = chars_of(base);
    let h = chars_of(href);
    let joined = if b.len() == 0 || starts_with_str(&h, "/") {
        h
    } else {
        let mut j = b;
        extend_str(&mut j, "/");
        extend_all(&mut j, &h);
        j
    };
    assert(joined@ == join_path(base@, href@));
    let dotdot = chars_of("..");
    let mut stack: Vec<Vec<char>> = Vec::new();
    let mut start: usize = 0;
    let mut i: usize = 0;
    let ghost all = split_slash(joined@, 0, 0);
    assert(stack.deep_view() =~= Seq::<Seq<char>>::empty());
    while i < joined.len()
        invariant
            start <= i <= joined.len(),
            apply_segments(split_slash(joined@, start as int, i as int), stack.deep_view())
                == apply_segments(all, seq![]),
            all == split_slash(joined@, 0, 0),
        decreases joined.len() - i,
    {
        if joined[i] == '/' {
            let seg = slice_vec(&joined, start, i);
            let ghost rest = split_slash(joined@, i + 1, i + 1);
            assert(split_slash(joined@, start as int, i as int) == seq![seg@] + rest);
            assert((seq![seg@] + rest).drop_first() =~= rest);
            assert((seq![seg@] + rest)[0] == seg@);
            push_segment(&mut stack, seg);
            start = i + 1;
        }
        i += 1;
    }
    let seg = slice_vec(&joined, start, joined.len());
    assert(split_slash(joined@, start as int, i as int) == seq![seg@]);
    assert(seq![seg@].drop_first() =~= Seq::<Seq<char>>::empty());
    let ghost before = stack.deep_view();
    let ghost sv = seg@;
    push_segment(&mut stack, seg);
    assert(apply_segments(seq![sv], before) == apply_segments(
        seq![sv].drop_first(),
        segment_step(before, sv),
    ));
    assert(stack.deep_view() == apply_segments(all, seq![]));
    let slash = chars_of("/");
    let out = join_exec(&stack, &slash);
    string_of(&out)
}

/// One step of `apply_segments`.
pub open spec fn segment_step(stack: Seq<Seq<char>>, seg: Seq<char>) -> Seq<Seq<char>> {
    if seg == ".."@ {
        if stack.len() > 0 {
            stack.drop_last()
        } else {
            stack
        }
    } else if seg.len() == 0 || seg == "."@ {
        stack
    } else {
        stack.push(seg)
    }
}

fn push_segment(stack: &mut Vec<Vec<char>>, seg: Vec<char>)
    ensures
        final(stack).deep_view() == segment_step(old(stack).deep_view(), seg@),
{
    let ghost before = stack.deep_view();
    if eq_str(&seg, "..") {
        stack.pop();
        assert(stack.deep_view() =~= if before.len() > 0 {
            before.drop_last()
        } else {
            before
        });
    } else if seg.len() == 0 || eq_str(&seg, ".") {
    } else {
        proof {
            lemma_char_vec_deep(&seg);
        }
        let ghost sv = seg@;
        stack.push(seg);
        assert(stack.deep_view() =~= before.push(sv));
    }
}


// ---------------------------------------------------------------------------
// Reading a whole EPUB
// ---------------------------------------------------------------------------

/// The position of the last `'/'`, if any.
pub open spec fn last_slash(p: Seq<char>) -> Option<int>
    decreases p.len(),
{
    if p.len() == 0 {
        None
    } else if p.last() == '/' {
        Some(p.len() - 1)
    } else {
        last_slash(p.drop_last())
    }
}

/// The directory of the package document: its path up to the last `'/'`.
pub open spec fn package_dir(opf_path: Seq<char>) -> Seq<char> {
    match last_slash(opf_path) {
        Some(i) => opf_path.take(i),
        None => seq![],
    }
}

/// The href of the first manifest item with the given id.
pub open spec fn href_of(items: Seq<(Seq<char>, Seq<char>)>, id: Seq<char>) -> Option<Seq<char>>
    decreases items.len(),
{
    if items.len() == 0 {
        None
    } else if items[0].0 == id {
        Some(items[0].1)
    } else {
        href_of(items.drop_first(), id)
    }
}

/// The archive paths to read, in spine order: each spine id that names a
/// manifest item, resolved against the package directory.
pub open spec fn spine_paths(
    spine: Seq<Seq<char>>,
    items: Seq<(Seq<char>, Seq<char>)>,
    dir: Seq<char>,
) -> Seq<Seq<char>>
    decreases spine.len(),
{
    if spine.len() == 0 {
        seq![]
    } else {
        spine_paths(spine.drop_last(), items, dir) + match href_of(items, spine.last()) {
            Some(h) => seq![archive_path(dir, h)],
            None => seq![],
        }
    }
}

fn href_lookup(items: &Vec<ManifestItem>, id: &String) -> (r: Option<String>)
    ensures
        crate::plain_text::opt_string_view(r) == href_of(
            items@.map_values(|i: ManifestItem| item_view(i)),
            id@,
        ),
{
    let ghost iv = items@.map_values(|i: ManifestItem| item_view(i));
    let mut k: usize = 0;
    assert(iv.skip(0) =~= iv);
    while k < items.len()
        invariant
            k <= items@.len(),
            iv == items@.map_values(|i: ManifestItem| item_view(i)),
            href_of(iv, id@) == href_of(iv.skip(k as int), id@),
        decreases items.len() - k,
    {
        assert(iv.skip(k as int)[0] == item_view(items@[k as int]));
        assert(iv.skip(k as int).drop_first() =~= iv.skip(k + 1));
        if crate::text::same_text(&items[k].id, id) {
            return Some(items[k].href.clone());
        }
        k += 1;
    }
    None
}

/// What to read of an EPUB after its package document: the title of its
/// metadata and the archive paths of its spine. A package whose spine is empty
/// is refused.
pub fn epub_reading_plan(opf_path: &str, opf_xml: &str) -> (r: Result<(Option<String>, Vec<String>), DocumentError>)
    ensures
        ({
            let spine = spine_spec(tags_spec(opf_xml@, "itemref"@));
            let items = manifest_spec(tags_spec(opf_xml@, "item"@));
            &&& r is Err <==> spine.len() == 0
            &&& r matches Err(e) ==> e matches DocumentError::InvalidStructure(m) && m@
                == "EPUB package has an empty spine"@
            &&& r matches Ok(plan) ==> crate::plain_text::opt_string_view(plan.0) == tag_text_spec(
                opf_xml@,
                "dc:title"@,
            ) && views(plan.1@) == spine_paths(spine, items, package_dir(opf_path@))
        }),
{
    let title = extract_metadata_title(opf_xml);
    let manifest = extract_manifest_items(opf_xml);
    let spine = extract_spine_ids(opf_xml);
    let ghost sv = spine@.map_values(|s: String| s@);
    let ghost iv = manifest@.map_values(|i: ManifestItem| item_view(i));
    if spine.len() == 0 {
        return Err(DocumentError::InvalidStructure(String::from_str("EPUB package has an empty spine")));
    }
    let p = chars_of(opf_path);
    let mut d = p.len();
    assert(p@.take(p@.len() as int) =~= p@);
    while d > 0 && p[d - 1] != '/'
        invariant
            d <= p@.len(),
            last_slash(p@) == last_slash(p@.take(d as int)),
        decreases d,
    {
        assert(p@.take(d as int).drop_last() =~= p@.take(d - 1));
        d -= 1;
    }
    let dir = if d == 0 {
        assert(last_slash(p@.take(0)) is None);
        Vec::new()
    } else {
        assert(p@.take(d as int).last() == '/');
        slice_vec(&p, 0, d - 1)
    };
    assert(dir@ =~= package_dir(opf_path@));
    let dir_s = string_of(&dir);
    let mut paths: Vec<String> = Vec::new();
    let mut k: usize = 0;
    while k < spine.len()
        invariant
            k <= spine@.len(),
            sv == spine@.map_values(|s: String| s@),
            iv == manifest@.map_values(|i: ManifestItem| item_view(i)),
            dir_s@ == package_dir(opf_path@),
            views(paths@) == spine_paths(sv.take(k as int), iv, dir_s@),
        decreases spine.len() - k,
    {
        assert(sv.take(k + 1).drop_last() =~= sv.take(k as int));
        assert(sv.take(k + 1).last() == spine@[k as int]@);
        let ghost before = views(paths@);
        match href_lookup(&manifest, &spine[k]) {
            Some(h) => {
                let entry = normalize_archive_path(dir_s.as_str(), h.as_str());
                paths.push(entry);
                assert(views(paths@) =~= before.push(archive_path(dir_s@, h@)));
            },
            None => {
                assert(views(paths@) =~= before);
            },
        }
        k += 1;
    }
    assert(sv.take(sv.len() as int) =~= sv);
    Ok((title, paths))
}

/// The readable texts of sections that are not blank, in order.
pub open spec fn section_texts(htmls: Seq<Seq<char>>) -> Seq<Seq<char>>
    decreases htmls.len(),
{
    if htmls.len() == 0 {
        seq![]
    } else {
        let t = html_text(htmls.last());
        section_texts(htmls.drop_last()) + if is_blank(t) {
            seq![]
        } else {
            seq![t]
        }
    }
}

/// The document of an EPUB from its spine sections' markup: their readable
/// texts, blank ones skipped, joined by a blank line, titled by the metadata
/// title unless it is blank, else by the file name. A book without text is
/// empty.
pub fn epub_document(path: &str, title: &Option<String>, htmls: &Vec<String>) -> (r: Result<
    crate::document::Document,
    DocumentError,
>)
    ensures
        ({
            let text = join(section_texts(views(htmls@)), "\n\n"@);
            &&& r is Err <==> is_blank(text)
            &&& r matches Err(e) ==> e matches DocumentError::EmptyDocument(p) && p@ == path@
            &&& r matches Ok(d) ==> d.text@ == text && d.title@ == (match title {
                Some(t) => if is_blank(t@) {
                    crate::parser::stem_title(path@)
                } else {
                    t@
                },
                None => crate::parser::stem_title(path@),
            })
        }),
{
    let ghost hv = views(htmls@);
    let mut sections: Vec<String> = Vec::new();
    let mut k: usize = 0;
    while k < htmls.len()
        invariant
            k <= htmls@.len(),
            hv == views(htmls@),
            views(sections@) == section_texts(hv.take(k as int)),
        decreases htmls.len() - k,
    {
        assert(hv.take(k + 1).drop_last() =~= hv.take(k as int));
        assert(hv.take(k + 1).last() == htmls@[k as int]@);
        let t = extract_html_text(htmls[k].as_str());
        let ghost before = views(sections@);
        if !crate::text::blank(&t) {
            sections.push(t);
            assert(views(sections@) =~= before + seq![html_text(htmls@[k as int]@)]);
        } else {
            assert(views(sections@) =~= before + Seq::<Seq<char>>::empty());
        }
        k += 1;
    }
    assert(hv.take(hv.len() as int) =~= hv);
    let text = crate::text::join_strings(&sections, "\n\n");
    if crate::text::trim_vec(&text).len() == 0 {
        return Err(DocumentError::EmptyDocument(String::from_str(path)));
    }
    let t = match title {
        Some(t) => if crate::text::blank(t) {
            crate::parser::file_stem_title(path)
        } else {
            t.clone()
        },
        None => crate::parser::file_stem_title(path),
    };
    Ok(crate::document::Document { title: t, text: string_of(&text) })
}

/// A (lowercased) tag that opens or closes a paragraph, a `div`, a heading of
/// level one to three, a list item, a line break or a block quotation.
pub open spec fn block_tag(tag: Seq<char>) -> bool {
    ||| starts_with(tag, "<p"@) || starts_with(tag, "</p"@)
    ||| starts_with(tag, "<div"@) || starts_with(tag, "</div"@)
    ||| starts_with(tag, "<h1"@) || starts_with(tag, "</h1"@)
    ||| starts_with(tag, "<h2"@) || starts_with(tag, "</h2"@)
    ||| starts_with(tag, "<h3"@) || starts_with(tag, "</h3"@)
    ||| starts_with(tag, "<li"@) || starts_with(tag, "</li"@)
    ||| starts_with(tag, "<br"@)
    ||| starts_with(tag, "<blockquote"@) || starts_with(tag, "</blockquote"@)
}

proof fn lemma_scan_tag_body(
    h: Seq<char>,
    i: int,
    k: int,
    j: int,
    text: Seq<char>,
    skip: nat,
)
    requires
        0 <= i < k <= j < h.len(),
        forall|m: int| i < m < j ==> #[trigger] h[m] != '<' && h[m] != '>',
    ensures
        html_scan(h, k, text, true, h.subrange(i, k), skip) == html_scan(
            h,
            j,
            text,
            true,
            h.subrange(i, j),
            skip,
        ),
    decreases j - k,
{
    if k < j {
        assert(h[k] != '<' && h[k] != '>');
        assert(h.subrange(i, k).push(h[k]) =~= h.subrange(i, k + 1));
        lemma_scan_tag_body(h, i, k + 1, j, text, skip);
    }
}

/// Law: outside `<script>` and `<style>`, every block tag (see `block_tag`,
/// in any ASCII case) ends the line of text read so far: the scan continues
/// after the tag with a line break appended, unless the text already ends
/// with one.
pub proof fn lemma_block_tag_breaks_line(
    h: Seq<char>,
    i: int,
    j: int,
    text: Seq<char>,
    in_tag: bool,
    buf: Seq<char>,
)
    requires
        0 <= i < j < h.len(),
        h[i] == '<',
        h[j] == '>',
        forall|m: int| i < m < j ==> #[trigger] h[m] != '<' && h[m] != '>',
        block_tag(ascii_lower_seq(h.subrange(i, j + 1))),
    ensures
        html_scan(h, i, text, in_tag, buf, 0) == html_scan(
            h,
            j + 1,
            if crate::text::ends_with(text, "\n"@) {
                text
            } else {
                text.push('\n')
            },
            false,
            h.subrange(i, j + 1),
            0,
        ),
{
    reveal_strlit("<script");
    reveal_strlit("<style");
    reveal_strlit("</script");
    reveal_strlit("</style");
    reveal_strlit("<p");
    reveal_strlit("</p");
    reveal_strlit("<div");
    reveal_strlit("</div");
    reveal_strlit("<h1");
    reveal_strlit("</h1");
    reveal_strlit("<h2");
    reveal_strlit("</h2");
    reveal_strlit("<h3");
    reveal_strlit("</h3");
    reveal_strlit("<li");
    reveal_strlit("</li");
    reveal_strlit("<br");
    reveal_strlit("<blockquote");
    reveal_strlit("</blockquote");
    assert(seq!['<'] =~= h.subrange(i, i + 1));
    lemma_scan_tag_body(h, i, i + 1, j, text, 0);
    let b = h.subrange(i, j).push(h[j]);
    assert(b =~= h.subrange(i, j + 1));
    let tag = ascii_lower_seq(b);
    assert(tag.len() >= 2);
    assert(tag[1] == '/' || tag[1] == 'p' || tag[1] == 'd' || tag[1] == 'h' || tag[1] == 'l'
        || tag[1] == 'b') by {
        assert(tag.subrange(0, 2)[1] == tag[1]);
    }
    assert(!starts_with(tag, "<script"@) && !starts_with(tag, "<style"@)) by {
        if starts_with(tag, "<script"@) {
            assert(tag.subrange(0, 7)[1] == tag[1]);
        }
        if starts_with(tag, "<style"@) {
            assert(tag.subrange(0, 6)[1] == tag[1]);
        }
    }
    assert(!starts_with(tag, "</script"@) && !starts_with(tag, "</style"@)) by {
        if starts_with(tag, "</script"@) || starts_with(tag, "</style"@) {
            assert(tag.len() >= 3);
            assert(tag[2] == 's') by {
                if starts_with(tag, "</script"@) {
                    assert(tag.subrange(0, 8)[2] == tag[2]);
                } else {
                    assert(tag.subrange(0, 7)[2] == tag[2]);
                }
            }
            assert(tag[2] == 'p' || tag[2] == 'd' || tag[2] == 'h' || tag[2] == 'l' || tag[2] == 'b') by {
                assert(tag.subrange(0, 3)[2] == tag[2]);
            }
        }
    }
    assert(block_boundary(tag));
}

} // verus!
