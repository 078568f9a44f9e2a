//! The parts of a Persian right-to-left DOCX package.

use vstd::prelude::*;
use crate::text::{
    chars_of, extend_all, extend_str, lemma_char_vec_deep, replace_all, replace_str, slice_vec,
    string_of, trim, trim_range,
};
use crate::archive::{new_zip_builder, zip_add, zip_entry, zip_finish, zip_opens, zip_written, ZipBuilder};
use crate::error::DocumentError;
use crate::models::Chapter;
use vstd::utf8::encode_utf8;

verus! {

/// XML escaping of `&`, `<`, `>`, `"` and `'` (ampersands first).
pub open spec fn xml_escaped(s: Seq<char>) -> Seq<char> {
    replace_all(
        replace_all(
            replace_all(replace_all(replace_all(s, "&"@, "&amp;"@), "<"@, "&lt;"@), ">"@, "&gt;"@),
            "\""@,
            "&quot;"@,
        ),
        "'"@,
        "&apos;"@,
    )
}

/// Escapes text for XML character data and attribute values.
pub fn escape_xml(text: &str) -> (r: String)
    ensures
        r@ == xml_escaped(text@),
{
    let s = chars_of(text);
    let r = escape_vec(&s);
    string_of(&r)
}

fn escape_vec(s: &Vec<char>) -> (r: Vec<char>)
    ensures
        r@ == xml_escaped(s@),
{
    let a = replace_str(s, "&", "&amp;");
    let b = replace_str(&a, "<", "&lt;");
    let c = replace_str(&b, ">", "&gt;");
    let d = replace_str(&c, "\"", "&quot;");
    replace_str(&d, "'", "&apos;")
}

/// The first position at or after `i` that does not hold `'\n'`.
pub open spec fn skip_newlines(s: Seq<char>, i: int) -> int
    decreases s.len() - i,
{
    if i < 0 || i >= s.len() || s[i] != '\n' {
        i
    } else {
        skip_newlines(s, i + 1)
    }
}

pub proof fn lemma_skip_newlines(s: Seq<char>, i: int)
    requires
        0 <= i,
    ensures
        i <= skip_newlines(s, i),
        i <= s.len() ==> skip_newlines(s, i) <= s.len(),
    decreases s.len() - i,
{
    if i < s.len() && s[i] == '\n' {
        lemma_skip_newlines(s, i + 1);
    }
}

/// The paragraph scan: a blank line (two or more newlines) ends a paragraph;
/// paragraphs are trimmed and empty ones dropped.
pub open spec fn paragraph_scan(s: Seq<char>, start: int, cur: int) -> Seq<Seq<char>>
    decreases s.len() - cur,
{
    if start < 0 || cur < start || cur + 1 >= s.len() {
        let p = trim(s.subrange(start, s.len() as int));
        if p.len() > 0 {
            seq![p]
        } else {
            seq![]
        }
    } else if s[cur] == '\n' && s[cur + 1] == '\n' {
        let p = trim(s.subrange(start, cur));
        let next = skip_newlines(s, cur + 2);
        proof {
            lemma_skip_newlines(s, cur + 2);
        }
        (if p.len() > 0 {
            seq![p]
        } else {
            seq![]
        }) + paragraph_scan(s, next, next)
    } else {
        paragraph_scan(s, start, cur + 1)
    }
}

/// The paragraphs of chapter content, split at blank lines.
pub open spec fn paragraphs_of(s: Seq<char>) -> Seq<Seq<char>> {
    paragraph_scan(s, 0, 0)
}

/// Splits chapter content into trimmed, non-empty paragraphs at blank lines.
pub fn split_paragraphs(text: &str) -> (r: Vec<String>)
    ensures
        r@.map_values(|p: String| p@) == paragraphs_of(text@),
{
    let s = chars_of(text);
    let parts = split_paragraph_vecs(&s);
    let mut out: Vec<String> = Vec::new();
    let mut i: usize = 0;
    while i < parts.len()
        invariant
            i <= parts.len(),
            parts.deep_view() == paragraphs_of(text@),
            s@ == text@,
            out@.map_values(|p: String| p@) == parts.deep_view().take(i as int),
        decreases parts.len() - i,
    {
        let ghost before = out@;
        let st = string_of(&parts[i]);
        assert(parts.deep_view()[i as int] == parts@[i as int]@);
        out.push(st);
        assert(out@.map_values(|p: String| p@) =~= before.map_values(|p: String| p@).push(st@));
        assert(parts.deep_view().take(i + 1) =~= parts.deep_view().take(i as int).push(
            parts.deep_view()[i as int],
        ));
        i += 1;
    }
    assert(parts.deep_view().take(parts@.len() as int) =~= parts.deep_view());
    out
}

fn split_paragraph_vecs(s: &Vec<char>) -> (r: Vec<Vec<char>>)
    ensures
        r.deep_view() == paragraphs_of(s@),
{
    let mut out: Vec<Vec<char>> = Vec::new();
    let mut start: usize = 0;
    let mut cur: usize = 0;
    assert(out.deep_view() =~= Seq::<Seq<char>>::empty());
    while s.len() - cur > 1
        invariant
            start <= cur <= s.len(),
            out.deep_view() + paragraph_scan(s@, start as int, cur as int) == paragraphs_of(s@),
        decreases s.len() - cur,
    {
        if s[cur] == '\n' && s[cur + 1] == '\n' {
            let (a, b) = trim_range(s, start, cur);
            let ghost before = out.deep_view();
            let ghost p = trim(s@.subrange(start as int, cur as int));
            if a < b {
                let piece = slice_vec(s, a, b);
                proof {
                    lemma_char_vec_deep(&piece);
                }
                out.push(piece);
                assert(out.deep_view() =~= before + seq![p]);
            } else {
                assert(out.deep_view() =~= before + Seq::<Seq<char>>::empty());
            }
            let mut next = cur + 2;
            while next < s.len() && s[next] == '\n'
                invariant
                    cur + 2 <= next <= s.len(),
                    skip_newlines(s@, next as int) == skip_newlines(s@, cur + 2),
                decreases s.len() - next,
            {
                next += 1;
            }
            assert(out.deep_view() + paragraph_scan(s@, next as int, next as int) =~= paragraphs_of(
                s@,
            ));
            start = next;
            cur = next;
        } else {
            cur += 1;
        }
    }
    let (a, b) = trim_range(s, start, s.len());
    let ghost before = out.deep_view();
    if a < b {
        let piece = slice_vec(s, a, b);
        proof {
            lemma_char_vec_deep(&piece);
        }
        out.push(piece);
        assert(out.deep_view() =~= before + seq![trim(s@.subrange(start as int, s@.len() as int))]);
    } else {
        assert(out.deep_view() =~= before + Seq::<Seq<char>>::empty());
    }
    out
}

/// One right-to-left paragraph of the given style.
pub open spec fn paragraph_xml_spec(text: Seq<char>, style: Seq<char>) -> Seq<char> {
    "<w:p><w:pPr><w:pStyle w:val=\""@ + xml_escaped(style)
        + "\"/><w:bidi/></w:pPr><w:r><w:rPr><w:rtl/><w:lang w:val=\"fa-IR\" w:bidi=\"fa-IR\"/></w:rPr><w:t xml:space=\"preserve\">"@
        + xml_escaped(text) + "</w:t></w:r></w:p>"@
}

fn push_paragraph_xml(out: &mut Vec<char>, text: &Vec<char>, style: &str)
    ensures
        final(out)@ == old(out)@ + paragraph_xml_spec(text@, style@),
{
    extend_str(out, "<w:p><w:pPr><w:pStyle w:val=\"");
    let st = chars_of(style);
    let es = escape_vec(&st);
    extend_all(out, &es);
    extend_str(
        out,
        "\"/><w:bidi/></w:pPr><w:r><w:rPr><w:rtl/><w:lang w:val=\"fa-IR\" w:bidi=\"fa-IR\"/></w:rPr><w:t xml:space=\"preserve\">",
    );
    let et = escape_vec(text);
    extend_all(out, &et);
    extend_str(out, "</w:t></w:r></w:p>");
    assert(out@ =~= old(out)@ + paragraph_xml_spec(text@, style@));
}

/// Renders one right-to-left Persian paragraph.
pub fn paragraph_xml(text: &str, style: &str) -> (r: String)
    ensures
        r@ == paragraph_xml_spec(text@, style@),
{
    let mut out: Vec<char> = Vec::new();
    let t = chars_of(text);
    push_paragraph_xml(&mut out, &t, style);
    assert(out@ =~= paragraph_xml_spec(text@, style@));
    string_of(&out)
}

/// The document body: the title paragraph, then per chapter its heading and
/// its paragraphs.
pub open spec fn chapters_body(chapters: Seq<Chapter>) -> Seq<char>
    decreases chapters.len(),
{
    if chapters.len() == 0 {
        seq![]
    } else {
        chapters_body(chapters.drop_last()) + paragraph_xml_spec(chapters.last().title@, "Heading1"@)
            + paragraphs_xml(paragraphs_of(chapters.last().content@))
    }
}

/// `Normal` paragraphs for each text.
pub open spec fn paragraphs_xml(ps: Seq<Seq<char>>) -> Seq<char>
    decreases ps.len(),
{
    if ps.len() == 0 {
        seq![]
    } else {
        paragraphs_xml(ps.drop_last()) + paragraph_xml_spec(ps.last(), "Normal"@)
    }
}

pub open spec fn document_xml_prefix() -> Seq<char> {
    "<?xml version=\"1.0\" encoding=\"UTF-8\" standalone=\"yes\"?>\n<w:document xmlns:w=\"http://schemas.openxmlformats.org/wordprocessingml/2006/main\">\n  <w:body>"@
}

pub open spec fn document_xml_suffix() -> Seq<char> {
    "<w:sectPr><w:pgSz w:w=\"11906\" w:h=\"16838\"/><w:pgMar w:top=\"1134\" w:right=\"1276\" w:bottom=\"1134\" w:left=\"1276\" w:header=\"708\" w:footer=\"708\" w:gutter=\"0\"/><w:cols w:space=\"708\"/><w:docGrid w:linePitch=\"360\"/></w:sectPr></w:body>\n</w:document>"@
}

/// The `word/document.xml` of a manuscript.
pub open spec fn document_xml_spec(title: Seq<char>, chapters: Seq<Chapter>) -> Seq<char> {
    document_xml_prefix() + paragraph_xml_spec(title, "Title"@) + chapters_body(chapters)
        + document_xml_suffix()
}

/// Renders `word/document.xml`: a title, then each chapter as a heading
/// followed by its paragraphs, all right-to-left.
pub fn document_xml(title: &str, chapters: &Vec<Chapter>) -> (r: String)
    ensures
        r@ == document_xml_spec(title@, chapters@),
{
    let mut body: Vec<char> = Vec::new();
    let t = chars_of(title);
    push_paragraph_xml(&mut body, &t, "Title");
    let ghost head = body@;
    let mut c: usize = 0;
    while c < chapters.len()
        invariant
            c <= chapters@.len(),
            body@ == head + chapters_body(chapters@.take(c as int)),
        decreases chapters.len() - c,
    {
        let ch = &chapters[c];
        let ct = chars_of(ch.title.as_str());
        push_paragraph_xml(&mut body, &ct, "Heading1");
        let ghost mid = body@;
        let content = chars_of(ch.content.as_str());
        let parts = split_paragraph_vecs(&content);
        let mut p: usize = 0;
        while p < parts.len()
            invariant
                p <= parts.len(),
                body@ == mid + paragraphs_xml(parts.deep_view().take(p as int)),
            decreases parts.len() - p,
        {
            assert(parts.deep_view()[p as int] == parts@[p as int]@);
            push_paragraph_xml(&mut body, &parts[p], "Normal");
            assert(parts.deep_view().take(p + 1).drop_last() =~= parts.deep_view().take(p as int));
            p += 1;
        }
        assert(parts.deep_view().take(parts@.len() as int) =~= parts.deep_view());
        assert(chapters@.take(c + 1).drop_last() =~= chapters@.take(c as int));
        assert(body@ =~= head + chapters_body(chapters@.take(c + 1)));
        c += 1;
    }
    assert(chapters@.take(chapters@.len() as int) =~= chapters@);
    let mut out = chars_of(
        "<?xml version=\"1.0\" encoding=\"UTF-8\" standalone=\"yes\"?>\n<w:document xmlns:w=\"http://schemas.openxmlformats.org/wordprocessingml/2006/main\">\n  <w:body>",
    );
    extend_all(&mut out, &body);
    extend_str(
        &mut out,
        "<w:sectPr><w:pgSz w:w=\"11906\" w:h=\"16838\"/><w:pgMar w:top=\"1134\" w:right=\"1276\" w:bottom=\"1134\" w:left=\"1276\" w:header=\"708\" w:footer=\"708\" w:gutter=\"0\"/><w:cols w:space=\"708\"/><w:docGrid w:linePitch=\"360\"/></w:sectPr></w:body>\n</w:document>",
    );
    assert(out@ =~= document_xml_spec(title@, chapters@));
    string_of(&out)
}

/// The `docProps/core.xml` of a manuscript with the given title.
pub open spec fn core_properties_spec(title: Seq<char>) -> Seq<char> {
    "<?xml version=\"1.0\" encoding=\"UTF-8\" standalone=\"yes\"?>\n<cp:coreProperties xmlns:cp=\"http://schemas.openxmlformats.org/package/2006/metadata/core-properties\" xmlns:dc=\"http://purl.org/dc/elements/1.1/\" xmlns:dcterms=\"http://purl.org/dc/terms/\" xmlns:dcmitype=\"http://purl.org/dc/dcmitype/\" xmlns:xsi=\"http://www.w3.org/2001/XMLSchema-instance\">\n  <dc:title>"@
        + xml_escaped(title)
        + "</dc:title>\n  <dc:creator>Persian Literary Translation Engine</dc:creator>\n  <dc:language>fa-IR</dc:language>\n</cp:coreProperties>"@
}

/// Renders `docProps/core.xml` with the escaped title and `fa-IR` language.
pub fn core_properties(title: &str) -> (r: String)
    ensures
        r@ == core_properties_spec(title@),
{
    let mut out = chars_of(
        "<?xml version=\"1.0\" encoding=\"UTF-8\" standalone=\"yes\"?>\n<cp:coreProperties xmlns:cp=\"http://schemas.openxmlformats.org/package/2006/metadata/core-properties\" xmlns:dc=\"http://purl.org/dc/elements/1.1/\" xmlns:dcterms=\"http://purl.org/dc/terms/\" xmlns:dcmitype=\"http://purl.org/dc/dcmitype/\" xmlns:xsi=\"http://www.w3.org/2001/XMLSchema-instance\">\n  <dc:title>",
    );
    let t = chars_of(title);
    let e = escape_vec(&t);
    extend_all(&mut out, &e);
    extend_str(
        &mut out,
        "</dc:title>\n  <dc:creator>Persian Literary Translation Engine</dc:creator>\n  <dc:language>fa-IR</dc:language>\n</cp:coreProperties>",
    );
    string_of(&out)
}

/// Why a DOCX export is refused.
#[derive(Debug, Clone, PartialEq, Eq, Structural)]
pub enum ExportError {
    /// There is nothing to export.
    NoChapters,
}

/// Checks that a manuscript can be exported: it must have chapters.
pub fn check_exportable(chapters: &Vec<Chapter>) -> (r: Result<(), ExportError>)
    ensures
        r is Err <==> chapters@.len() == 0,
        r matches Err(e) ==> e == ExportError::NoChapters,
{
    if chapters.len() == 0 {
        Err(ExportError::NoChapters)
    } else {
        Ok(())
    }
}

/// The `[Content_Types].xml` of the package.
pub open spec fn content_types_spec() -> Seq<char> {
    "<?xml version=\"1.0\" encoding=\"UTF-8\" standalone=\"yes\"?>\n<Types xmlns=\"http://schemas.openxmlformats.org/package/2006/content-types\">\n  <Default Extension=\"rels\" ContentType=\"application/vnd.openxmlformats-package.relationships+xml\"/>\n  <Default Extension=\"xml\" ContentType=\"application/xml\"/>\n  <Override PartName=\"/word/document.xml\" ContentType=\"application/vnd.openxmlformats-officedocument.wordprocessingml.document.main+xml\"/>\n  <Override PartName=\"/word/styles.xml\" ContentType=\"application/vnd.openxmlformats-officedocument.wordprocessingml.styles+xml\"/>\n  <Override PartName=\"/docProps/core.xml\" ContentType=\"application/vnd.openxmlformats-package.core-properties+xml\"/>\n</Types>"@
}

/// The `[Content_Types].xml` of the package.
pub fn content_types() -> (r: &'static str)
    ensures
        r@ == content_types_spec(),
{
    "<?xml version=\"1.0\" encoding=\"UTF-8\" standalone=\"yes\"?>\n<Types xmlns=\"http://schemas.openxmlformats.org/package/2006/content-types\">\n  <Default Extension=\"rels\" ContentType=\"application/vnd.openxmlformats-package.relationships+xml\"/>\n  <Default Extension=\"xml\" ContentType=\"application/xml\"/>\n  <Override PartName=\"/word/document.xml\" ContentType=\"application/vnd.openxmlformats-officedocument.wordprocessingml.document.main+xml\"/>\n  <Override PartName=\"/word/styles.xml\" ContentType=\"application/vnd.openxmlformats-officedocument.wordprocessingml.styles+xml\"/>\n  <Override PartName=\"/docProps/core.xml\" ContentType=\"application/vnd.openxmlformats-package.core-properties+xml\"/>\n</Types>"
}

/// The package relationships, `_rels/.rels`.
pub open spec fn package_relationships_spec() -> Seq<char> {
    "<?xml version=\"1.0\" encoding=\"UTF-8\" standalone=\"yes\"?>\n<Relationships xmlns=\"http://schemas.openxmlformats.org/package/2006/relationships\">\n  <Relationship Id=\"rId1\" Type=\"http://schemas.openxmlformats.org/officeDocument/2006/relationships/officeDocument\" Target=\"word/document.xml\"/>\n  <Relationship Id=\"rId2\" Type=\"http://schemas.openxmlformats.org/package/2006/relationships/metadata/core-properties\" Target=\"docProps/core.xml\"/>\n</Relationships>"@
}

/// The package relationships, `_rels/.rels`.
pub fn package_relationships() -> (r: &'static str)
    ensures
        r@ == package_relationships_spec(),
{
    "<?xml version=\"1.0\" encoding=\"UTF-8\" standalone=\"yes\"?>\n<Relationships xmlns=\"http://schemas.openxmlformats.org/package/2006/relationships\">\n  <Relationship Id=\"rId1\" Type=\"http://schemas.openxmlformats.org/officeDocument/2006/relationships/officeDocument\" Target=\"word/document.xml\"/>\n  <Relationship Id=\"rId2\" Type=\"http://schemas.openxmlformats.org/package/2006/relationships/metadata/core-properties\" Target=\"docProps/core.xml\"/>\n</Relationships>"
}

/// The right-to-left styles, `word/styles.xml`.
pub open spec fn styles_xml_spec() -> Seq<char> {
    "<?xml version=\"1.0\" encoding=\"UTF-8\" standalone=\"yes\"?>\n<w:styles xmlns:w=\"http://schemas.openxmlformats.org/wordprocessingml/2006/main\">\n  <w:docDefaults>\n    <w:rPrDefault><w:rPr><w:rFonts w:ascii=\"Tahoma\" w:hAnsi=\"Tahoma\" w:cs=\"Tahoma\"/><w:lang w:val=\"fa-IR\" w:bidi=\"fa-IR\"/><w:sz w:val=\"24\"/><w:szCs w:val=\"24\"/><w:rtl/></w:rPr></w:rPrDefault>\n    <w:pPrDefault><w:pPr><w:bidi/><w:jc w:val=\"both\"/><w:spacing w:after=\"160\" w:line=\"360\" w:lineRule=\"auto\"/><w:ind w:firstLine=\"567\"/></w:pPr></w:pPrDefault>\n  </w:docDefaults>\n  <w:style w:type=\"paragraph\" w:default=\"1\" w:styleId=\"Normal\">\n    <w:name w:val=\"Normal\"/><w:qFormat/>\n    <w:pPr><w:bidi/><w:jc w:val=\"both\"/><w:spacing w:after=\"160\" w:line=\"360\" w:lineRule=\"auto\"/><w:ind w:firstLine=\"567\"/></w:pPr>\n    <w:rPr><w:rFonts w:ascii=\"Tahoma\" w:hAnsi=\"Tahoma\" w:cs=\"Tahoma\"/><w:lang w:val=\"fa-IR\" w:bidi=\"fa-IR\"/><w:sz w:val=\"24\"/><w:szCs w:val=\"24\"/><w:rtl/></w:rPr>\n  </w:style>\n  <w:style w:type=\"paragraph\" w:styleId=\"Title\">\n    <w:name w:val=\"Title\"/><w:basedOn w:val=\"Normal\"/><w:qFormat/>\n    <w:pPr><w:bidi/><w:jc w:val=\"center\"/><w:spacing w:before=\"1200\" w:after=\"480\"/><w:ind w:firstLine=\"0\"/></w:pPr>\n    <w:rPr><w:b/><w:bCs/><w:sz w:val=\"44\"/><w:szCs w:val=\"44\"/><w:rtl/></w:rPr>\n  </w:style>\n  <w:style w:type=\"paragraph\" w:styleId=\"Heading1\">\n    <w:name w:val=\"heading 1\"/><w:basedOn w:val=\"Normal\"/><w:qFormat/><w:uiPriority w:val=\"9\"/>\n    <w:pPr><w:bidi/><w:jc w:val=\"right\"/><w:pageBreakBefore/><w:keepNext/><w:spacing w:before=\"360\" w:after=\"360\"/><w:ind w:firstLine=\"0\"/></w:pPr>\n    <w:rPr><w:b/><w:bCs/><w:sz w:val=\"36\"/><w:szCs w:val=\"36\"/><w:rtl/></w:rPr>\n  </w:style>\n</w:styles>"@
}

/// The right-to-left styles, `word/styles.xml`.
pub fn styles_xml() -> (r: &'static str)
    ensures
        r@ == styles_xml_spec(),
{
    "<?xml version=\"1.0\" encoding=\"UTF-8\" standalone=\"yes\"?>\n<w:styles xmlns:w=\"http://schemas.openxmlformats.org/wordprocessingml/2006/main\">\n  <w:docDefaults>\n    <w:rPrDefault><w:rPr><w:rFonts w:ascii=\"Tahoma\" w:hAnsi=\"Tahoma\" w:cs=\"Tahoma\"/><w:lang w:val=\"fa-IR\" w:bidi=\"fa-IR\"/><w:sz w:val=\"24\"/><w:szCs w:val=\"24\"/><w:rtl/></w:rPr></w:rPrDefault>\n    <w:pPrDefault><w:pPr><w:bidi/><w:jc w:val=\"both\"/><w:spacing w:after=\"160\" w:line=\"360\" w:lineRule=\"auto\"/><w:ind w:firstLine=\"567\"/></w:pPr></w:pPrDefault>\n  </w:docDefaults>\n  <w:style w:type=\"paragraph\" w:default=\"1\" w:styleId=\"Normal\">\n    <w:name w:val=\"Normal\"/><w:qFormat/>\n    <w:pPr><w:bidi/><w:jc w:val=\"both\"/><w:spacing w:after=\"160\" w:line=\"360\" w:lineRule=\"auto\"/><w:ind w:firstLine=\"567\"/></w:pPr>\n    <w:rPr><w:rFonts w:ascii=\"Tahoma\" w:hAnsi=\"Tahoma\" w:cs=\"Tahoma\"/><w:lang w:val=\"fa-IR\" w:bidi=\"fa-IR\"/><w:sz w:val=\"24\"/><w:szCs w:val=\"24\"/><w:rtl/></w:rPr>\n  </w:style>\n  <w:style w:type=\"paragraph\" w:styleId=\"Title\">\n    <w:name w:val=\"Title\"/><w:basedOn w:val=\"Normal\"/><w:qFormat/>\n    <w:pPr><w:bidi/><w:jc w:val=\"center\"/><w:spacing w:before=\"1200\" w:after=\"480\"/><w:ind w:firstLine=\"0\"/></w:pPr>\n    <w:rPr><w:b/><w:bCs/><w:sz w:val=\"44\"/><w:szCs w:val=\"44\"/><w:rtl/></w:rPr>\n  </w:style>\n  <w:style w:type=\"paragraph\" w:styleId=\"Heading1\">\n    <w:name w:val=\"heading 1\"/><w:basedOn w:val=\"Normal\"/><w:qFormat/><w:uiPriority w:val=\"9\"/>\n    <w:pPr><w:bidi/><w:jc w:val=\"right\"/><w:pageBreakBefore/><w:keepNext/><w:spacing w:before=\"360\" w:after=\"360\"/><w:ind w:firstLine=\"0\"/></w:pPr>\n    <w:rPr><w:b/><w:bCs/><w:sz w:val=\"36\"/><w:szCs w:val=\"36\"/><w:rtl/></w:rPr>\n  </w:style>\n</w:styles>"
}

/// The document relationships, `word/_rels/document.xml.rels`.
pub open spec fn document_relationships_spec() -> Seq<char> {
    "<?xml version=\"1.0\" encoding=\"UTF-8\" standalone=\"yes\"?>\n<Relationships xmlns=\"http://schemas.openxmlformats.org/package/2006/relationships\">\n  <Relationship Id=\"rId1\" Type=\"http://schemas.openxmlformats.org/officeDocument/2006/relationships/styles\" Target=\"styles.xml\"/>\n</Relationships>"@
}

/// The document relationships, `word/_rels/document.xml.rels`.
pub fn document_relationships() -> (r: &'static str)
    ensures
        r@ == document_relationships_spec(),
{
    "<?xml version=\"1.0\" encoding=\"UTF-8\" standalone=\"yes\"?>\n<Relationships xmlns=\"http://schemas.openxmlformats.org/package/2006/relationships\">\n  <Relationship Id=\"rId1\" Type=\"http://schemas.openxmlformats.org/officeDocument/2006/relationships/styles\" Target=\"styles.xml\"/>\n</Relationships>"
}

/// The entries of the DOCX package of a manuscript, by name, with their
/// texts.
pub open spec fn docx_parts(title: Seq<char>, chapters: Seq<Chapter>) -> Seq<(Seq<char>, Seq<char>)> {
    seq![
        ("[Content_Types].xml"@, content_types_spec()),
        ("_rels/.rels"@, package_relationships_spec()),
        ("docProps/core.xml"@, core_properties_spec(title)),
        ("word/styles.xml"@, styles_xml_spec()),
        ("word/_rels/document.xml.rels"@, document_relationships_spec()),
        ("word/document.xml"@, document_xml_spec(title, chapters)),
    ]
}

/// The refusal of a manuscript without chapters.
pub open spec fn no_chapters_message() -> Seq<char> {
    "cannot export a DOCX without chapters"@
}

/// Adds one part to the package being written.
fn add_part(
    w: &mut ZipBuilder,
    name: &str,
    text: &str,
    stored: bool,
) -> (r: Result<(), DocumentError>)
    requires
        forall|k: int| 0 <= k < zip_written(*old(w)).len() ==> (#[trigger] zip_written(*old(w))[k]).0 != name@,
    ensures
        r is Ok ==> zip_written(*final(w)) == zip_written(*old(w)).push((name@, encode_utf8(text@))),
        r matches Err(e) ==> e is Archive,
{
    let bytes = text.as_bytes();
    match zip_add(w, name, bytes, stored) {
        Ok(()) => Ok(()),
        Err(m) => Err(DocumentError::Archive(m)),
    }
}

/// The bytes of the Persian right-to-left DOCX of a manuscript: a title page
/// paragraph, then each chapter as a heading and its paragraphs. A
/// manuscript without chapters is refused. Reading the archive back gives
/// each part's UTF-8 text under its name; a failure of the archive writer
/// comes back as an archive error.
pub fn persian_docx_bytes(title: &str, chapters: &Vec<Chapter>) -> (r: Result<Vec<u8>, DocumentError>)
    ensures
        chapters@.len() == 0 <==> (r matches Err(DocumentError::InvalidStructure(m)) && m@
            == no_chapters_message()),
        chapters@.len() > 0 && r is Err ==> (r matches Err(e) && e is Archive),
        r matches Ok(b) ==> zip_opens(b@) && forall|k: int|
            0 <= k < docx_parts(title@, chapters@).len() ==> zip_entry(
                b@,
                (#[trigger] docx_parts(title@, chapters@)[k]).0,
            ) == Some(encode_utf8(docx_parts(title@, chapters@)[k].1)),
{
    if chapters.len() == 0 {
        return Err(
            DocumentError::InvalidStructure(String::from_str("cannot export a DOCX without chapters")),
        );
    }
    let core = core_properties(title);
    let document = document_xml(title, chapters);
    let ghost parts = docx_parts(title@, chapters@);
    proof {
        reveal_strlit("[Content_Types].xml");
        reveal_strlit("_rels/.rels");
        reveal_strlit("docProps/core.xml");
        reveal_strlit("word/styles.xml");
        reveal_strlit("word/_rels/document.xml.rels");
        reveal_strlit("word/document.xml");
    }
    let mut w = new_zip_builder();
    match add_part(&mut w, "[Content_Types].xml", content_types(), true) {
        Ok(()) => {
            assert(zip_written(w) =~= seq![("[Content_Types].xml"@, encode_utf8(content_types_spec()))]);
        },
        Err(e) => {
            return Err(e);
        },
    }
    assert("[Content_Types].xml"@ != "_rels/.rels"@) by {
        assert("[Content_Types].xml"@.len() != "_rels/.rels"@.len() || "[Content_Types].xml"@[0] != "_rels/.rels"@[0]);
    }
    match add_part(&mut w, "_rels/.rels", package_relationships(), false) {
        Ok(()) => {
            assert(zip_written(w) =~= seq![("[Content_Types].xml"@, encode_utf8(content_types_spec())), ("_rels/.rels"@, encode_utf8(package_relationships_spec()))]);
        },
        Err(e) => {
            return Err(e);
        },
    }
    assert("[Content_Types].xml"@ != "docProps/core.xml"@) by {
        assert("[Content_Types].xml"@.len() != "docProps/core.xml"@.len() || "[Content_Types].xml"@[0] != "docProps/core.xml"@[0]);
    }
    assert("_rels/.rels"@ != "docProps/core.xml"@) by {
        assert("_rels/.rels"@.len() != "docProps/core.xml"@.len() || "_rels/.rels"@[0] != "docProps/core.xml"@[0]);
    }
    match add_part(&mut w, "docProps/core.xml", core.as_str(), false) {
        Ok(()) => {
            assert(zip_written(w) =~= seq![("[Content_Types].xml"@, encode_utf8(content_types_spec())), ("_rels/.rels"@, encode_utf8(package_relationships_spec())), ("docProps/core.xml"@, encode_utf8(core_properties_spec(title@)))]);
        },
        Err(e) => {
            return Err(e);
        },
    }
    assert("[Content_Types].xml"@ != "word/styles.xml"@) by {
        assert("[Content_Types].xml"@.len() != "word/styles.xml"@.len() || "[Content_Types].xml"@[0] != "word/styles.xml"@[0]);
    }
    assert("_rels/.rels"@ != "word/styles.xml"@) by {
        assert("_rels/.rels"@.len() != "word/styles.xml"@.len() || "_rels/.rels"@[0] != "word/styles.xml"@[0]);
    }
    assert("docProps/core.xml"@ != "word/styles.xml"@) by {
        assert("docProps/core.xml"@.len() != "word/styles.xml"@.len() || "docProps/core.xml"@[0] != "word/styles.xml"@[0]);
    }
    match add_part(&mut w, "word/styles.xml", styles_xml(), false) {
        Ok(()) => {
            assert(zip_written(w) =~= seq![("[Content_Types].xml"@, encode_utf8(content_types_spec())), ("_rels/.rels"@, encode_utf8(package_relationships_spec())), ("docProps/core.xml"@, encode_utf8(core_properties_spec(title@))), ("word/styles.xml"@, encode_utf8(styles_xml_spec()))]);
        },
        Err(e) => {
            return Err(e);
        },
    }
    assert("[Content_Types].xml"@ != "word/_rels/document.xml.rels"@) by {
        assert("[Content_Types].xml"@.len() != "word/_rels/document.xml.rels"@.len() || "[Content_Types].xml"@[0] != "word/_rels/document.xml.rels"@[0]);
    }
    assert("_rels/.rels"@ != "word/_rels/document.xml.rels"@) by {
        assert("_rels/.rels"@.len() != "word/_rels/document.xml.rels"@.len() || "_rels/.rels"@[0] != "word/_rels/document.xml.rels"@[0]);
    }
    assert("docProps/core.xml"@ != "word/_rels/document.xml.rels"@) by {
        assert("docProps/core.xml"@.len() != "word/_rels/document.xml.rels"@.len() || "docProps/core.xml"@[0] != "word/_rels/document.xml.rels"@[0]);
    }
    assert("word/styles.xml"@ != "word/_rels/document.xml.rels"@) by {
        assert("word/styles.xml"@.len() != "word/_rels/document.xml.rels"@.len() || "word/styles.xml"@[0] != "word/_rels/document.xml.rels"@[0]);
    }
    match add_part(&mut w, "word/_rels/document.xml.rels", document_relationships(), false) {
        Ok(()) => {
            assert(zip_written(w) =~= seq![("[Content_Types].xml"@, encode_utf8(content_types_spec())), ("_rels/.rels"@, encode_utf8(package_relationships_spec())), ("docProps/core.xml"@, encode_utf8(core_properties_spec(title@))), ("word/styles.xml"@, encode_utf8(styles_xml_spec())), ("word/_rels/document.xml.rels"@, encode_utf8(document_relationships_spec()))]);
        },
        Err(e) => {
            return Err(e);
        },
    }
    assert("[Content_Types].xml"@ != "word/document.xml"@) by {
        assert("[Content_Types].xml"@.len() != "word/document.xml"@.len() || "[Content_Types].xml"@[0] != "word/document.xml"@[0]);
    }
    assert("_rels/.rels"@ != "word/document.xml"@) by {
        assert("_rels/.rels"@.len() != "word/document.xml"@.len() || "_rels/.rels"@[0] != "word/document.xml"@[0]);
    }
    assert("docProps/core.xml"@ != "word/document.xml"@) by {
        assert("docProps/core.xml"@.len() != "word/document.xml"@.len() || "docProps/core.xml"@[0] != "word/document.xml"@[0]);
    }
    assert("word/styles.xml"@ != "word/document.xml"@) by {
        assert("word/styles.xml"@.len() != "word/document.xml"@.len() || "word/styles.xml"@[0] != "word/document.xml"@[0]);
    }
    assert("word/_rels/document.xml.rels"@ != "word/document.xml"@) by {
        assert("word/_rels/document.xml.rels"@.len() != "word/document.xml"@.len() || "word/_rels/document.xml.rels"@[0] != "word/document.xml"@[0]);
    }
    match add_part(&mut w, "word/document.xml", document.as_str(), false) {
        Ok(()) => {
            assert(zip_written(w) =~= seq![("[Content_Types].xml"@, encode_utf8(content_types_spec())), ("_rels/.rels"@, encode_utf8(package_relationships_spec())), ("docProps/core.xml"@, encode_utf8(core_properties_spec(title@))), ("word/styles.xml"@, encode_utf8(styles_xml_spec())), ("word/_rels/document.xml.rels"@, encode_utf8(document_relationships_spec())), ("word/document.xml"@, encode_utf8(document_xml_spec(title@, chapters@)))]);
        },
        Err(e) => {
            return Err(e);
        },
    }
    let ghost written = zip_written(w);
    assert(written.len() == parts.len());
    assert forall|k: int| 0 <= k < parts.len() implies #[trigger] written[k] == (parts[k].0, encode_utf8(parts[k].1)) by {
    }
    match zip_finish(w) {
        Ok(b) => Ok(b),
        Err(m) => Err(DocumentError::Archive(m)),
    }
}

} // verus!
