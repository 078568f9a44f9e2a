//! Normalization of text extracted from PDF pages.

use vstd::prelude::*;
use crate::text::{
    chars_of, ends_with, extend_range, is_blank, is_blank_range, is_line_ranges, line_ranges, lines,
    range_view, replace_all, replace_str, slice_vec, string_of, trim_end, trim_range, trim, trim_vec,
    eq_str, extend_all, extend_str, views,
};
use crate::document::Document;
use crate::error::DocumentError;
use crate::models::{DocumentFormat, SourceLocation};
use crate::parser::{
    BlockKind, ParsedBlock, ParsedDocument, chapter_heading, chapter_heading_chars, file_stem_title,
    split_paragraphs, split_paragraph_text, stem_title,
};

verus! {

/// One of the characters dropped at line ends: space, tab, NUL.
pub open spec fn pdf_pad(c: char) -> bool {
    c == ' ' || c == '\t' || c == '\0'
}

/// `trim_end_matches([' ', '\t', '\0'])`.
pub open spec fn strip_pad_end(s: Seq<char>) -> Seq<char>
    decreases s.len(),
{
    if s.len() > 0 && pdf_pad(s.last()) {
        strip_pad_end(s.drop_last())
    } else {
        s
    }
}

/// `trim_start_matches('\0')`.
pub open spec fn strip_nul_start(s: Seq<char>) -> Seq<char>
    decreases s.len(),
{
    if s.len() > 0 && s[0] == '\0' {
        strip_nul_start(s.drop_first())
    } else {
        s
    }
}

/// Reassembles lines: trailing padding is dropped, leading NULs removed, each
/// run of blank lines collapses to one empty line (never at the start).
pub open spec fn pdf_fold(ls: Seq<Seq<char>>, out: Seq<char>, in_blank: bool) -> Seq<char>
    decreases ls.len(),
{
    if ls.len() == 0 {
        out
    } else {
        let line = strip_pad_end(ls[0]);
        if is_blank(line) {
            let o = if !in_blank && out.len() > 0 {
                out.push('\n')
            } else {
                out
            };
            pdf_fold(ls.drop_first(), o, true)
        } else {
            let o = if out.len() > 0 && !ends_with(out, "\n"@) {
                out.push('\n')
            } else {
                out
            };
            pdf_fold(ls.drop_first(), o + strip_nul_start(line) + seq!['\n'], false)
        }
    }
}

/// Line endings unified, form feeds (page breaks) turned into blank lines.
pub open spec fn pdf_newlines(text: Seq<char>) -> Seq<char> {
    replace_all(replace_all(replace_all(text, "\r\n"@, "\n"@), "\r"@, "\n"@), "\u{c}"@, "\n\n"@)
}

/// The normalized form of extracted PDF text.
pub open spec fn pdf_normalized(text: Seq<char>) -> Seq<char> {
    trim_end(pdf_fold(lines(pdf_newlines(text)), seq![], false))
}

/// Normalizes extracted PDF text: `\r\n`/`\r` become `\n`, page breaks become
/// paragraph breaks, trailing spaces/tabs/NULs and leading NULs are dropped,
/// blank runs collapse to one blank line, and trailing whitespace is trimmed.
pub fn normalize_extracted_pdf_text(text: &str) -> (r: String)
    ensures
        r@ == pdf_normalized(text@),
{
    let t0 = chars_of(text);
    let t1 = replace_str(&t0, "\r\n", "\n");
    let t2 = replace_str(&t1, "\r", "\n");
    let t = replace_str(&t2, "\u{c}", "\n\n");
    let ranges = line_ranges(&t);
    let ghost ls = lines(t@);
    let mut out: Vec<char> = Vec::new();
    let mut in_blank = false;
    proof {
        reveal_strlit("\n");
    }
    let mut i: usize = 0;
    assert(ls.skip(0) =~= ls);
    while i < ranges.len()
        invariant
            i <= ranges.len(),
            ls == lines(t@),
            is_line_ranges(t@, ranges@),
            t@ == pdf_newlines(text@),
            "\n"@ == seq!['\n'],
            pdf_fold(ls.skip(i as int), out@, in_blank) == pdf_fold(ls, seq![], false),
        decreases ranges.len() - i,
    {
        let (lo, hi) = ranges[i];
        assert(range_view(t@, ranges@[i as int]) == ls[i as int]);
        assert(ranges@[i as int].0 <= ranges@[i as int].1 <= t@.len());
        let ghost rest = ls.skip(i as int);
        assert(rest[0] == ls[i as int]);
        assert(rest.drop_first() =~= ls.skip(i + 1));
        let mut e = hi;
        while e > lo && (t[e - 1] == ' ' || t[e - 1] == '\t' || t[e - 1] == '\0')
            invariant
                lo <= e <= hi <= t@.len(),
                strip_pad_end(t@.subrange(lo as int, e as int)) == strip_pad_end(
                    t@.subrange(lo as int, hi as int),
                ),
            decreases e,
        {
            assert(t@.subrange(lo as int, e as int).drop_last() =~= t@.subrange(lo as int, e - 1));
            e -= 1;
        }
        assert(strip_pad_end(t@.subrange(lo as int, e as int)) == t@.subrange(lo as int, e as int));
        let ghost out0 = out@;
        let ghost blank0 = in_blank;
        let ghost line = strip_pad_end(ls[i as int]);
        assert(line == t@.subrange(lo as int, e as int));
        if is_blank_range(&t, lo, e) {
            if !in_blank && out.len() > 0 {
                out.push('\n');
            }
            in_blank = true;
            assert(out@ == (if !blank0 && out0.len() > 0 {
                out0.push('\n')
            } else {
                out0
            }));
        } else {
            if out.len() > 0 && out[out.len() - 1] != '\n' {
                out.push('\n');
            }
            proof {
                if out@.len() > 0 {
                    assert(out@.subrange(out@.len() - 1, out@.len() as int)[0] == out@.last());
                    if out@.last() == '\n' {
                        assert(out@.subrange(out@.len() - 1, out@.len() as int) =~= "\n"@);
                    }
                }
            }
            let mut a = lo;
            while a < e && t[a] == '\0'
                invariant
                    lo <= a <= e <= t@.len(),
                    strip_nul_start(t@.subrange(a as int, e as int)) == strip_nul_start(
                        t@.subrange(lo as int, e as int),
                    ),
                decreases e - a,
            {
                assert(t@.subrange(a as int, e as int).drop_first() =~= t@.subrange(
                    a + 1,
                    e as int,
                ));
                a += 1;
            }
            assert(strip_nul_start(t@.subrange(a as int, e as int)) == t@.subrange(
                a as int,
                e as int,
            ));
            let ghost o1 = out@;
            assert(o1 == (if out0.len() > 0 && !ends_with(out0, "\n"@) {
                out0.push('\n')
            } else {
                out0
            }));
            extend_range(&mut out, &t, a, e);
            out.push('\n');
            in_blank = false;
            assert(out@ =~= o1 + strip_nul_start(line) + seq!['\n']);
        }
        i += 1;
    }
    assert(ls.skip(i as int) =~= Seq::<Seq<char>>::empty());
    let b = crate::text::trim_end_range(&out, 0, out.len());
    let r = slice_vec(&out, 0, b);
    assert(out@.subrange(0, out@.len() as int) =~= out@);
    string_of(&r)
}


/// The message of a PDF without extractable text.
pub open spec fn no_text_message(path: Seq<char>) -> Seq<char> {
    "PDF "@ + path
        + " contains no extractable text; scanned/image-only PDFs require OCR before ingestion"@
}

fn no_text_error(path: &str) -> (r: DocumentError)
    ensures
        r matches DocumentError::ParsingFailure(m) && m@ == no_text_message(path@),
{
    let mut m = chars_of("PDF ");
    extend_str(&mut m, path);
    extend_str(
        &mut m,
        " contains no extractable text; scanned/image-only PDFs require OCR before ingestion",
    );
    DocumentError::ParsingFailure(string_of(&m))
}

/// The document of a PDF's extracted text: the normalized text, titled by the
/// file name. Text that is blank once normalized is refused: the PDF needs OCR.
pub fn document_from_pdf_text(path: &str, text: &str) -> (r: Result<Document, DocumentError>)
    ensures
        r is Err <==> is_blank(pdf_normalized(text@)),
        r matches Ok(d) ==> d.text@ == pdf_normalized(text@) && d.title@ == stem_title(path@),
        r matches Err(e) ==> e matches DocumentError::ParsingFailure(m) && m@ == no_text_message(
            path@,
        ),
{
    let normalized = normalize_extracted_pdf_text(text);
    if trim_vec(&chars_of(normalized.as_str())).len() == 0 {
        return Err(no_text_error(path));
    }
    Ok(Document { title: file_stem_title(path), text: normalized })
}

/// The kind of a paragraph read from a PDF page: a level-one heading when it
/// reads as a chapter heading, a scene break for `***`, `---` or `* * *`,
/// else a paragraph.
pub open spec fn pdf_kind(text: Seq<char>) -> BlockKind {
    if chapter_heading(text) {
        BlockKind::Heading(1)
    } else if text == "***"@ || text == "---"@ || text == "* * *"@ {
        BlockKind::SceneBreak
    } else {
        BlockKind::Paragraph
    }
}

/// The paragraphs of PDF pages in order, each with its one-based page and
/// paragraph-within-page numbers.
pub open spec fn pdf_items(pages: Seq<Seq<char>>) -> Seq<(Seq<char>, int, int)>
    decreases pages.len(),
{
    if pages.len() == 0 {
        seq![]
    } else {
        let n = pages.len() as int;
        pdf_items(pages.drop_last()) + split_paragraphs(pdf_normalized(pages.last())).map(
            |q: int, t: Seq<char>| (t, n, q + 1),
        )
    }
}

/// `b` is the block of PDF paragraph `item` of the file at `path`.
pub open spec fn pdf_block(b: ParsedBlock, path: Seq<char>, item: (Seq<char>, int, int)) -> bool {
    &&& b.kind == pdf_kind(item.0)
    &&& b.text@ == item.0
    &&& b.source.path@ == path
    &&& b.source.format == DocumentFormat::Pdf
    &&& b.source.page == Some(item.1 as u32)
    &&& b.source.paragraph == Some(item.2 as usize)
    &&& b.source.resource is None && b.source.chapter is None && b.source.scene is None
}

/// The blocks of a PDF's pages.
pub fn pdf_blocks(path: &str, pages: &Vec<String>) -> (r: Vec<ParsedBlock>)
    ensures
        r@.len() == pdf_items(views(pages@)).len(),
        forall|k: int|
            0 <= k < r@.len() ==> pdf_block(#[trigger] r@[k], path@, pdf_items(views(pages@))[k]),
{
    let ghost pv = views(pages@);
    let mut blocks: Vec<ParsedBlock> = Vec::new();
    let mut pi: usize = 0;
    while pi < pages.len()
        invariant
            pi <= pages@.len(),
            pv == views(pages@),
            blocks@.len() == pdf_items(pv.take(pi as int)).len(),
            forall|k: int|
                0 <= k < blocks@.len() ==> pdf_block(
                    #[trigger] blocks@[k],
                    path@,
                    pdf_items(pv.take(pi as int))[k],
                ),
        decreases pages.len() - pi,
    {
        let ghost prefix = pdf_items(pv.take(pi as int));
        let ghost page_no = (pi + 1) as int;
        let ghost f = split_paragraphs(pdf_normalized(pv[pi as int])).map(
            |q: int, t: Seq<char>| (t, page_no, q + 1),
        );
        assert(pv.take(pi + 1).drop_last() =~= pv.take(pi as int));
        assert(pv.take(pi + 1).last() == pv[pi as int]);
        assert(pv[pi as int] == pages@[pi as int]@);
        assert(pdf_items(pv.take(pi + 1)) == prefix + f);
        let page_number = pi + 1;
        let normalized = normalize_extracted_pdf_text(pages[pi].as_str());
        let texts = split_paragraph_text(normalized.as_str());
        let mut q: usize = 0;
        while q < texts.len()
            invariant
                q <= texts@.len(),
                pi < pages@.len(),
                pv.len() == pages@.len(),
                page_no == pi + 1,
                page_number == pi + 1,
                views(texts@) == split_paragraphs(pdf_normalized(pv[pi as int])),
                f == split_paragraphs(pdf_normalized(pv[pi as int])).map(
                    |q: int, t: Seq<char>| (t, page_no, q + 1),
                ),
                blocks@.len() == prefix.len() + q,
                forall|k: int|
                    0 <= k < blocks@.len() ==> pdf_block(#[trigger] blocks@[k], path@, (prefix + f)[k]),
            decreases texts.len() - q,
        {
            let text = &texts[q];
            assert(views(texts@)[q as int] == text@);
            assert(f[q as int] == (text@, page_no, q + 1));
            let tv = chars_of(text.as_str());
            let kind = if chapter_heading_chars(&tv) {
                BlockKind::Heading(1)
            } else if eq_str(&tv, "***") || eq_str(&tv, "---") || eq_str(&tv, "* * *") {
                BlockKind::SceneBreak
            } else {
                BlockKind::Paragraph
            };
            let mut source = SourceLocation::new(path, DocumentFormat::Pdf);
            source.page = Some(page_number as u32);
            source.paragraph = Some(q + 1);
            assert((prefix + f)[blocks@.len() as int] == f[q as int]);
            blocks.push(ParsedBlock { kind, text: text.clone(), source });
            q += 1;
        }
        pi += 1;
    }
    assert(pv.take(pv.len() as int) =~= pv);
    blocks
}

/// What reading a PDF gives: the document built from its page texts and the
/// title and author of its information dictionary.
pub open spec fn pdf_outcome(
    path: Seq<char>,
    pages: Seq<Seq<char>>,
    title_in: Option<Seq<char>>,
    author_in: Option<Seq<char>>,
    r: Result<ParsedDocument, DocumentError>,
) -> bool {
    &&& (r is Err <==> pdf_items(pages).len() == 0)
    &&& (r matches Err(e) ==> e matches DocumentError::ParsingFailure(m) && m@ == no_text_message(
        path,
    ))
    &&& (r matches Ok(d) ==> {
        let title = match title_in {
            Some(t) => if trim(t).len() > 0 {
                Some(trim(t))
            } else {
                None
            },
            None => None,
        };
        let author = match author_in {
            Some(a) => Some(trim(a)),
            None => None,
        };
        &&& d.title@ == (match title {
            Some(t) => t,
            None => stem_title(path),
        })
        &&& crate::plain_text::opt_string_view(d.author) == author
        &&& d.language is None
        &&& crate::plain_text::pair_views(d.metadata@) == (match author {
            Some(a) => seq![("author"@, a)],
            None => seq![],
        }) + (match title {
            Some(t) => seq![("title"@, t)],
            None => seq![],
        })
        &&& d.source.path@ == path && d.source.format == DocumentFormat::Pdf
        &&& d.source.page is None && d.source.resource is None && d.source.chapter is None
            && d.source.scene is None && d.source.paragraph is None
        &&& d.blocks@.len() == pdf_items(pages).len()
        &&& forall|k: int|
            0 <= k < d.blocks@.len() ==> pdf_block(
                #[trigger] d.blocks@[k],
                path,
                pdf_items(pages)[k],
            )
    })
}

/// The parsed document of a PDF from its pages' text and the title and author
/// of its information dictionary. Pages without paragraphs are refused: the
/// PDF needs OCR. A non-blank title replaces the file name; title and author
/// are kept as metadata.
pub fn pdf_document(
    path: &str,
    pages: &Vec<String>,
    info_title: Option<String>,
    info_author: Option<String>,
) -> (r: Result<ParsedDocument, DocumentError>)
    ensures
        pdf_outcome(
            path@,
            views(pages@),
            crate::plain_text::opt_string_view(info_title),
            crate::plain_text::opt_string_view(info_author),
            r,
        ),
{
    let blocks = pdf_blocks(path, pages);
    if blocks.len() == 0 {
        return Err(no_text_error(path));
    }
    let mut metadata: Vec<(String, String)> = Vec::new();
    let author = match info_author {
        Some(a) => {
            let t = string_of(&trim_vec(&chars_of(a.as_str())));
            metadata.push((String::from_str("author"), t.clone()));
            Some(t)
        },
        None => None,
    };
    let mut title = file_stem_title(path);
    match info_title {
        Some(t) => {
            let tv = trim_vec(&chars_of(t.as_str()));
            if tv.len() > 0 {
                title = string_of(&tv);
                metadata.push((String::from_str("title"), string_of(&tv)));
            }
        },
        None => {},
    }
    let ghost mv = crate::plain_text::pair_views(metadata@);
    assert(mv =~= (match author {
        Some(a) => seq![("author"@, a@)],
        None => seq![],
    }) + (match info_title {
        Some(t) => if trim(t@).len() > 0 {
            seq![("title"@, trim(t@))]
        } else {
            seq![]
        },
        None => seq![],
    }));
    Ok(ParsedDocument {
        title,
        author,
        language: None,
        metadata,
        source: SourceLocation::new(path, DocumentFormat::Pdf),
        blocks,
    })
}

} // verus!
