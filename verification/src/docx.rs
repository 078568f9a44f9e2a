//! DOCX `word/document.xml` text extraction.

use vstd::prelude::*;
use crate::text::{
    chars_of, eq_str, find_from, find_from_exec, lemma_find_from, matches_at, replace_all,
    replace_str, slice_vec, starts_with, starts_with_str, string_of, trim, trim_vec, ends_with,
    ends_with_exec, extend_all, extend_str, find, is_blank, ascii_lower_seq, ascii_lower_vec,
};
use crate::error::DocumentError;
use crate::models::{DocumentFormat, SourceLocation};
use crate::parser::{BlockKind, ParsedBlock, ParsedDocument, file_stem_title, stem_title};

verus! {

/// The DOCX entity decoding: `&lt;`, `&gt;`, `&quot;`, `&apos;`, then `&amp;`.
pub open spec fn docx_decode(s: Seq<char>) -> Seq<char> {
    replace_all(
        replace_all(
            replace_all(replace_all(replace_all(s, "&lt;"@, "<"@), "&gt;"@, ">"@), "&quot;"@, "\""@),
            "&apos;"@,
            "'"@,
        ),
        "&amp;"@,
        "&"@,
    )
}

/// Decodes the five predefined XML entities as Word writes them.
pub fn decode_docx_entities(s: &Vec<char>) -> (r: Vec<char>)
    ensures
        r@ == docx_decode(s@),
{
    let a = replace_str(s, "&lt;", "<");
    let b = replace_str(&a, "&gt;", ">");
    let c = replace_str(&b, "&quot;", "\"");
    let d = replace_str(&c, "&apos;", "'");
    replace_str(&d, "&amp;", "&")
}

/// What a tag between `<` and `>` contributes to the extracted text.
pub open spec fn is_text_tag(tag: Seq<char>) -> bool {
    tag == "w:t"@ || starts_with(tag, "w:t "@)
}

pub open spec fn is_tab_tag(tag: Seq<char>) -> bool {
    tag == "w:tab/"@ || tag == "w:tab /"@
}

pub open spec fn is_break_tag(tag: Seq<char>) -> bool {
    tag == "w:br/"@ || tag == "w:br /"@ || starts_with(tag, "w:br "@)
}

/// The scan of `word/document.xml` from `cursor`, with `out` extracted so far:
/// text runs are decoded and appended, paragraph ends become one newline, tabs
/// and breaks become `'\t'` and `'\n'`, other markup is skipped.
pub open spec fn docx_scan(x: Seq<char>, cursor: int, out: Seq<char>) -> Seq<char>
    decreases x.len() - cursor,
{
    if cursor < 0 {
        out
    } else {
        match find_from(x, "<"@, cursor) {
            None => out,
            Some(start) => {
                proof {
                    reveal_strlit("<");
                    lemma_find_from(x, "<"@, cursor);
                }
                match find_from(x, ">"@, start) {
                    None => out,
                    Some(end) => {
                        proof {
                            reveal_strlit(">");
                            lemma_find_from(x, ">"@, start);
                        }
                        let tag = x.subrange(start + 1, end);
                        if is_text_tag(tag) {
                            match find_from(x, "</w:t>"@, end + 1) {
                                Some(close) => {
                                    proof {
                                        reveal_strlit("</w:t>");
                                        lemma_find_from(x, "</w:t>"@, end + 1);
                                    }
                                    docx_scan(
                                        x,
                                        close + 6,
                                        out + docx_decode(x.subrange(end + 1, close)),
                                    )
                                },
                                None => docx_scan(x, end + 1, out),
                            }
                        } else if tag == "/w:p"@ {
                            docx_scan(
                                x,
                                end + 1,
                                if ends_with(out, "\n"@) {
                                    out
                                } else {
                                    out.push('\n')
                                },
                            )
                        } else if is_tab_tag(tag) {
                            docx_scan(x, end + 1, out.push('\t'))
                        } else if is_break_tag(tag) {
                            docx_scan(x, end + 1, out.push('\n'))
                        } else {
                            docx_scan(x, end + 1, out)
                        }
                    },
                }
            },
        }
    }
}

/// The text of a `word/document.xml` body: runs joined, one line per paragraph,
/// tabs and breaks preserved, entities decoded, the whole trimmed.
pub open spec fn docx_text(x: Seq<char>) -> Seq<char> {
    trim(docx_scan(x, 0, seq![]))
}

/// Extracts the readable text of a DOCX `word/document.xml`.
pub fn extract_docx_text(xml: &str) -> (r: String)
    ensures
        r@ == docx_text(xml@),
{
    let x = chars_of(xml);
    let lt = chars_of("<");
    let gt = chars_of(">");
    let close_t = chars_of("</w:t>");
    let nl = chars_of("\n");
    proof {
        reveal_strlit("</w:t>");
        reveal_strlit("<");
        reveal_strlit(">");
    }
    let mut out: Vec<char> = Vec::new();
    let mut cursor: usize = 0;
    loop
        invariant
            x@ == xml@,
            lt@ == "<"@,
            "<"@ == seq!['<'],
            ">"@ == seq!['>'],
            gt@ == ">"@,
            close_t@ == "</w:t>"@,
            close_t@.len() == 6,
            nl@ == "\n"@,
            cursor <= x@.len() + 1,
            docx_scan(x@, cursor as int, out@) == docx_scan(x@, 0, seq![]),
        ensures
            out@ == docx_scan(x@, 0, seq![]),
        decreases x@.len() + 1 - cursor,
    {
        let start = match find_from_exec(&x, &lt, cursor) {
            None => break,
            Some(start) => start,
        };
        proof {
            lemma_find_from(x@, "<"@, cursor as int);
        }
        let end = match find_from_exec(&x, &gt, start) {
            None => break,
            Some(end) => end,
        };
        proof {
            lemma_find_from(x@, ">"@, start as int);
            assert(x@.subrange(start as int, start + 1)[0] == x@[start as int]);
            assert(x@.subrange(end as int, end + 1)[0] == x@[end as int]);
        }
        let tag = slice_vec(&x, start + 1, end);
        if eq_str(&tag, "w:t") || starts_with_str(&tag, "w:t ") {
            match find_from_exec(&x, &close_t, end + 1) {
                Some(close) => {
                    proof {
                        lemma_find_from(x@, "</w:t>"@, end + 1);
                    }
                    let body = slice_vec(&x, end + 1, close);
                    let decoded = decode_docx_entities(&body);
                    extend_all(&mut out, &decoded);
                    cursor = close + 6;
                    continue ;
                },
                None => {},
            }
        } else if eq_str(&tag, "/w:p") {
            if !ends_with_exec(&out, &nl) {
                out.push('\n');
            }
        } else if eq_str(&tag, "w:tab/") || eq_str(&tag, "w:tab /") {
            out.push('\t');
        } else if eq_str(&tag, "w:br/") || eq_str(&tag, "w:br /") || starts_with_str(&tag, "w:br ") {
            out.push('\n');
        }
        cursor = end + 1;
    }
    let t = trim_vec(&out);
    string_of(&t)
}


// ---------------------------------------------------------------------------
// Structured reading: paragraphs, styles and core properties
// ---------------------------------------------------------------------------

/// `<tag`.
pub open spec fn open_tag(tag: Seq<char>) -> Seq<char> {
    "<"@ + tag
}

/// `</tag>`.
pub open spec fn close_tag(tag: Seq<char>) -> Seq<char> {
    "</"@ + tag + ">"@
}

/// The elements `<tag ...>...</tag>` of `x` from `cursor` on, each from its
/// opening `<tag` to the first `</tag>` after it; the scan stops at an element
/// that is not closed.
pub open spec fn elements_from(x: Seq<char>, tag: Seq<char>, cursor: int) -> Seq<Seq<char>>
    decreases x.len() - cursor,
{
    if cursor < 0 {
        seq![]
    } else {
        match find_from(x, open_tag(tag), cursor) {
            None => seq![],
            Some(start) => match find_from(x, close_tag(tag), start) {
                None => seq![],
                Some(c) => {
                    proof {
                        reveal_strlit("</");
                        reveal_strlit(">");
                        lemma_find_from(x, open_tag(tag), cursor);
                        lemma_find_from(x, close_tag(tag), start);
                    }
                    let end = c + close_tag(tag).len();
                    seq![x.subrange(start, end)] + elements_from(x, tag, end)
                },
            },
        }
    }
}

fn tag_pair(tag: &str) -> (r: (Vec<char>, Vec<char>))
    ensures
        r.0@ == open_tag(tag@),
        r.1@ == close_tag(tag@),
        r.1@.len() == tag@.len() + 3,
{
    proof {
        reveal_strlit("</");
        reveal_strlit(">");
    }
    let mut open = chars_of("<");
    extend_str(&mut open, tag);
    let mut close = chars_of("</");
    extend_str(&mut close, tag);
    extend_str(&mut close, ">");
    (open, close)
}

/// The elements named `tag` in `xml`, in document order.
pub fn collect_elements(xml: &str, tag: &str) -> (r: Vec<String>)
    ensures
        crate::text::views(r@) == elements_from(xml@, tag@, 0),
{
    let x = chars_of(xml);
    let (open, close) = tag_pair(tag);
    let mut out: Vec<String> = Vec::new();
    let mut cursor: usize = 0;
    loop
        invariant
            x@ == xml@,
            open@ == open_tag(tag@),
            close@ == close_tag(tag@),
            close@.len() == tag@.len() + 3,
            cursor <= x@.len(),
            crate::text::views(out@) + elements_from(x@, tag@, cursor as int) == elements_from(
                x@,
                tag@,
                0,
            ),
        ensures
            crate::text::views(out@) == elements_from(xml@, tag@, 0),
        decreases x@.len() - cursor,
    {
        let xl = x.len();
        let start = match find_from_exec(&x, &open, cursor) {
            None => break,
            Some(start) => start,
        };
        let c = match find_from_exec(&x, &close, start) {
            None => break,
            Some(c) => c,
        };
        proof {
            lemma_find_from(x@, open@, cursor as int);
            lemma_find_from(x@, close@, start as int);
        }
        let end = c + close.len();
        let element = slice_vec(&x, start, end);
        let ghost before = crate::text::views(out@);
        out.push(string_of(&element));
        assert(crate::text::views(out@) =~= before.push(element@));
        assert(crate::text::views(out@) + elements_from(x@, tag@, end as int) =~= before + elements_from(
            x@,
            tag@,
            cursor as int,
        ));
        cursor = end;
    }
    out
}

/// The decoded, trimmed text of the first element `name`: from the end of its
/// opening tag to the first `</name>` after it.
pub open spec fn element_text(x: Seq<char>, name: Seq<char>) -> Option<Seq<char>> {
    match find(x, open_tag(name)) {
        None => None,
        Some(start) => match find_from(x, ">"@, start) {
            None => None,
            Some(g) => match find_from(x, close_tag(name), g + 1) {
                None => None,
                Some(end) => Some(docx_decode(trim(x.subrange(g + 1, end)))),
            },
        },
    }
}

/// The text of the first element `name` in `xml`, if it is there and closed.
pub fn extract_element(xml: &str, name: &str) -> (r: Option<String>)
    ensures
        match r {
            Some(v) => element_text(xml@, name@) == Some(v@),
            None => element_text(xml@, name@) is None,
        },
{
    let x = chars_of(xml);
    let xl = x.len();
    let (open, close) = tag_pair(name);
    let gt = chars_of(">");
    proof {
        reveal_strlit(">");
    }
    let start = match find_from_exec(&x, &open, 0) {
        None => return None,
        Some(s) => s,
    };
    let g = match find_from_exec(&x, &gt, start) {
        None => return None,
        Some(g) => g,
    };
    proof {
        lemma_find_from(x@, gt@, start as int);
    }
    let end = match find_from_exec(&x, &close, g + 1) {
        None => return None,
        Some(e) => e,
    };
    proof {
        lemma_find_from(x@, close@, g + 1);
    }
    let body = slice_vec(&x, g + 1, end);
    let t = trim_vec(&body);
    let d = decode_docx_entities(&t);
    Some(string_of(&d))
}

/// The quoted value of `attr` in the text after it: up to the closing quote.
pub open spec fn quoted_value(t: Seq<char>, pattern: Seq<char>, quote: Seq<char>) -> Option<Option<Seq<char>>> {
    match find(t, pattern) {
        None => None,
        Some(pos) => {
            let v = t.skip(pos + pattern.len());
            Some(
                match find(v, quote) {
                    Some(q) => Some(v.take(q)),
                    None => None,
                },
            )
        },
    }
}

/// The value of attribute `attr` in the first `<tag ...>` of `x`: quoted with
/// double quotes, else with single quotes.
pub open spec fn attribute_value(x: Seq<char>, tag: Seq<char>, attr: Seq<char>) -> Option<Seq<char>> {
    match find(x, open_tag(tag)) {
        None => None,
        Some(start) => match find_from(x, ">"@, start) {
            None => None,
            Some(end) => {
                let t = x.subrange(start, end + 1);
                match quoted_value(t, attr + "=\""@, "\""@) {
                    Some(v) => v,
                    None => match quoted_value(t, attr + "='"@, "'"@) {
                        Some(v) => v,
                        None => None,
                    },
                }
            },
        },
    }
}

fn quoted_value_exec(t: &Vec<char>, pattern: &Vec<char>, quote: &Vec<char>) -> (r: Option<Option<Vec<char>>>)
    ensures
        match r {
            None => quoted_value(t@, pattern@, quote@) is None,
            Some(None) => quoted_value(t@, pattern@, quote@) == Some(None::<Seq<char>>),
            Some(Some(v)) => quoted_value(t@, pattern@, quote@) == Some(Some(v@)),
        },
{
    let tl = t.len();
    match find_from_exec(t, pattern, 0) {
        None => None,
        Some(pos) => {
            proof {
                lemma_find_from(t@, pattern@, 0);
            }
            let v = slice_vec(t, pos + pattern.len(), t.len());
            assert(v@ =~= t@.skip(pos + pattern@.len()));
            match find_from_exec(&v, quote, 0) {
                None => Some(None),
                Some(q) => {
                    proof {
                        lemma_find_from(v@, quote@, 0);
                    }
                    let value = slice_vec(&v, 0, q);
                    assert(value@ =~= v@.take(q as int));
                    Some(Some(value))
                },
            }
        },
    }
}

/// The value of `attribute` on the first `<tag` element of `xml`.
pub fn find_attribute_value(xml: &str, tag: &str, attribute: &str) -> (r: Option<String>)
    ensures
        match r {
            Some(v) => attribute_value(xml@, tag@, attribute@) == Some(v@),
            None => attribute_value(xml@, tag@, attribute@) is None,
        },
{
    let x = chars_of(xml);
    let xl = x.len();
    let (open, _close) = tag_pair(tag);
    let gt = chars_of(">");
    proof {
        reveal_strlit(">");
    }
    let start = match find_from_exec(&x, &open, 0) {
        None => return None,
        Some(s) => s,
    };
    let end = match find_from_exec(&x, &gt, start) {
        None => return None,
        Some(e) => e,
    };
    proof {
        lemma_find_from(x@, gt@, start as int);
    }
    let t = slice_vec(&x, start, end + 1);
    let mut dq = chars_of(attribute);
    extend_str(&mut dq, "=\"");
    let dquote = chars_of("\"");
    match quoted_value_exec(&t, &dq, &dquote) {
        Some(Some(v)) => return Some(string_of(&v)),
        Some(None) => return None,
        None => {},
    }
    let mut sq = chars_of(attribute);
    extend_str(&mut sq, "='");
    let squote = chars_of("'");
    match quoted_value_exec(&t, &sq, &squote) {
        Some(Some(v)) => Some(string_of(&v)),
        _ => None,
    }
}


/// A paragraph style names a heading when, lowercased, it starts with
/// `heading`.
pub open spec fn heading_style(style: Option<Seq<char>>) -> bool {
    match style {
        Some(v) => starts_with(ascii_lower_seq(v), "heading"@),
        None => false,
    }
}

/// The kind of a DOCX paragraph from its style and text.
pub open spec fn docx_kind(style: Option<Seq<char>>, text: Seq<char>) -> BlockKind {
    if heading_style(style) {
        BlockKind::Heading(1)
    } else if trim(text) == "***"@ || trim(text) == "---"@ || trim(text) == "* * *"@ {
        BlockKind::SceneBreak
    } else {
        BlockKind::Paragraph
    }
}

/// The non-blank paragraphs of the `w:p` elements: text, kind and one-based
/// element number.
pub open spec fn docx_items(els: Seq<Seq<char>>) -> Seq<(Seq<char>, BlockKind, int)>
    decreases els.len(),
{
    if els.len() == 0 {
        seq![]
    } else {
        let p = docx_items(els.drop_last());
        let e = els.last();
        let t = docx_text(e);
        if is_blank(t) {
            p
        } else {
            p.push((t, docx_kind(attribute_value(e, "w:pStyle"@, "w:val"@), t), els.len() as int))
        }
    }
}

/// The value of a core property, when the core properties exist.
pub open spec fn core_value(core: Option<Seq<char>>, name: Seq<char>) -> Option<Seq<char>> {
    match core {
        Some(c) => element_text(c, name),
        None => None,
    }
}

/// `b` is the block of DOCX paragraph `item` of the file at `path`.
pub open spec fn docx_block(b: ParsedBlock, path: Seq<char>, item: (Seq<char>, BlockKind, int)) -> bool {
    &&& b.text@ == item.0
    &&& b.kind == item.1
    &&& b.source.path@ == path
    &&& b.source.format == DocumentFormat::Docx
    &&& b.source.resource matches Some(r) && r@ == "word/document.xml"@
    &&& b.source.paragraph == Some(item.2 as usize)
    &&& b.source.page is None && b.source.chapter is None && b.source.scene is None
}

/// What reading a DOCX gives: the document built from its `word/document.xml`
/// text `xml` and its `docProps/core.xml` text `cv`, when it has one.
pub open spec fn docx_outcome(
    path: Seq<char>,
    xml: Seq<char>,
    cv: Option<Seq<char>>,
    r: Result<ParsedDocument, DocumentError>,
) -> bool {
    let items = docx_items(elements_from(xml, "w:p"@, 0));
    let title = match core_value(cv, "dc:title"@) {
        Some(t) => if is_blank(t) {
            None
        } else {
            Some(t)
        },
        None => None,
    };
    let author = core_value(cv, "dc:creator"@);
    let language = core_value(cv, "dc:language"@);
    &&& r is Err <==> items.len() == 0
    &&& r matches Err(e) ==> e matches DocumentError::EmptyDocument(p) && p@ == path
    &&& r matches Ok(d) ==> {
        &&& d.title@ == (match title {
            Some(t) => t,
            None => stem_title(path),
        })
        &&& crate::plain_text::opt_string_view(d.author) == author
        &&& crate::plain_text::opt_string_view(d.language) == language
        &&& crate::plain_text::pair_views(d.metadata@) == (match author {
            Some(a) => seq![("author"@, a)],
            None => seq![],
        }) + (match language {
            Some(l) => seq![("language"@, l)],
            None => seq![],
        })
        &&& d.source.path@ == path && d.source.format == DocumentFormat::Docx
        &&& d.source.page is None && d.source.resource is None && d.source.chapter is None
            && d.source.scene is None && d.source.paragraph is None
        &&& d.blocks@.len() == items.len()
        &&& forall|k: int|
            0 <= k < items.len() ==> docx_block(#[trigger] d.blocks@[k], path, items[k])
    }
}

/// The parsed document of a DOCX from its `word/document.xml` and, when the
/// archive has one, `docProps/core.xml`. Each non-blank `w:p` element is a
/// block, a heading when its paragraph style starts with `heading`; a document
/// without such paragraphs is empty. The core title, when not blank, replaces
/// the file name; creator and language become author and language metadata.
pub fn docx_document(path: &str, xml: &str, core: &Option<String>) -> (r: Result<ParsedDocument, DocumentError>)
    ensures
        docx_outcome(
            path@,
            xml@,
            match core {
                Some(c) => Some(c@),
                None => None::<Seq<char>>,
            },
            r,
        ),
{
    let elements = collect_elements(xml, "w:p");
    let ghost els = crate::text::views(elements@);
    proof {
        reveal_strlit("word/document.xml");
    }
    let mut blocks: Vec<ParsedBlock> = Vec::new();
    let mut i: usize = 0;
    while i < elements.len()
        invariant
            i <= elements@.len(),
            els == crate::text::views(elements@),
            els == elements_from(xml@, "w:p"@, 0),
            blocks@.len() == docx_items(els.take(i as int)).len(),
            forall|k: int|
                0 <= k < blocks@.len() ==> docx_block(
                    #[trigger] blocks@[k],
                    path@,
                    docx_items(els.take(i as int))[k],
                ),
        decreases elements.len() - i,
    {
        assert(els.take(i + 1).drop_last() =~= els.take(i as int));
        assert(els.take(i + 1).last() == els[i as int]);
        assert(els[i as int] == elements@[i as int]@);
        let e = elements[i].as_str();
        let text = extract_docx_text(e);
        let tv = chars_of(text.as_str());
        if trim_vec(&tv).len() > 0 {
            let style = find_attribute_value(e, "w:pStyle", "w:val");
            let heading = match &style {
                Some(v) => starts_with_str(&ascii_lower_vec(&chars_of(v.as_str())), "heading"),
                None => false,
            };
            assert(heading == heading_style(crate::plain_text::opt_string_view(style)));
            let t = trim_vec(&tv);
            let kind = if heading {
                BlockKind::Heading(1)
            } else if eq_str(&t, "***") || eq_str(&t, "---") || eq_str(&t, "* * *") {
                BlockKind::SceneBreak
            } else {
                BlockKind::Paragraph
            };
            let mut source = SourceLocation::new(path, DocumentFormat::Docx);
            source.resource = Some(String::from_str("word/document.xml"));
            source.paragraph = Some(i + 1);
            blocks.push(ParsedBlock { kind, text, source });
        }
        i += 1;
    }
    assert(els.take(els.len() as int) =~= els);
    if blocks.len() == 0 {
        return Err(DocumentError::EmptyDocument(String::from_str(path)));
    }
    let (title_value, author, language) = match core {
        Some(c) => (
            extract_element(c.as_str(), "dc:title"),
            extract_element(c.as_str(), "dc:creator"),
            extract_element(c.as_str(), "dc:language"),
        ),
        None => (None, None, None),
    };
    let title = match title_value {
        Some(t) => if trim_vec(&chars_of(t.as_str())).len() > 0 {
            t
        } else {
            file_stem_title(path)
        },
        None => file_stem_title(path),
    };
    let mut metadata: Vec<(String, String)> = Vec::new();
    match &author {
        Some(a) => metadata.push((String::from_str("author"), a.clone())),
        None => {},
    }
    match &language {
        Some(l) => metadata.push((String::from_str("language"), l.clone())),
        None => {},
    }
    let ghost cv = match core {
        Some(c) => Some(c@),
        None => None::<Seq<char>>,
    };
    assert(crate::plain_text::pair_views(metadata@) =~= (match core_value(cv, "dc:creator"@) {
        Some(a) => seq![("author"@, a)],
        None => seq![],
    }) + (match core_value(cv, "dc:language"@) {
        Some(l) => seq![("language"@, l)],
        None => seq![],
    }));
    Ok(ParsedDocument {
        title,
        author,
        language,
        metadata,
        source: SourceLocation::new(path, DocumentFormat::Docx),
        blocks,
    })
}


/// The document of a DOCX body read whole: its text, titled by the file name.
/// A body without text is an empty document.
pub fn docx_text_document(path: &str, xml: &str) -> (r: Result<crate::document::Document, DocumentError>)
    ensures
        r is Err <==> is_blank(docx_text(xml@)),
        r matches Err(e) ==> e matches DocumentError::EmptyDocument(p) && p@ == path@,
        r matches Ok(d) ==> d.text@ == docx_text(xml@) && d.title@ == stem_title(path@),
{
    let text = extract_docx_text(xml);
    if trim_vec(&chars_of(text.as_str())).len() == 0 {
        return Err(DocumentError::EmptyDocument(String::from_str(path)));
    }
    Ok(crate::document::Document { title: file_stem_title(path), text })
}

} // verus!
