//! Reading manuscripts from the raw bytes of their files: DOCX and EPUB
//! archives through the `zip` crate and a PDF's information dictionary
//! through `lopdf`; a PDF's text is what `pdf-extract` gave the caller. What
//! those crates return is named here; everything done with it is verified.

use vstd::prelude::*;
use vstd::utf8::{decode_utf8, valid_utf8};
use crate::docx::{docx_document, docx_outcome};
use crate::epub::{
    attribute_spec, epub_document, epub_reading_plan, extract_rootfile_path, first_tag_spec,
    manifest_spec, package_dir, section_texts, spine_paths, spine_spec, tag_text_spec, tags_spec,
};
use crate::error::DocumentError;
use crate::models::DocumentFormat;
use crate::parser::{stem_title, ParsedBlock, ParsedDocument};
use crate::document::{load_file_format, load_format, Document};
use crate::pdf::{document_from_pdf_text, no_text_message, pdf_document, pdf_normalized, pdf_outcome};
use crate::plain_text::{opt_string_view, parse_text_content, text_document};
use crate::text::{chars_of, extend_str, is_blank, join, string_of, views};

verus! {

broadcast use vstd::string::group_string_axioms;

// ---------------------------------------------------------------------------
// ZIP archives
// ---------------------------------------------------------------------------

/// Whether the `zip` crate reads the bytes as a ZIP archive.
pub uninterp spec fn zip_opens(archive: Seq<u8>) -> bool;

/// The contents of the named entry of a ZIP archive, when the `zip` crate
/// opens the archive, finds the entry and reads it whole.
pub uninterp spec fn zip_entry(archive: Seq<u8>, name: Seq<char>) -> Option<Seq<u8>>;

/// `zip::ZipArchive::new` over the bytes: `Ok` exactly when the crate reads
/// them as a ZIP archive; an error carries the crate's message.
#[verifier::external_body]
pub(crate) fn open_zip(archive: &[u8]) -> (r: Result<(), String>)
    ensures
        r is Ok <==> zip_opens(archive@),
{
    zip::ZipArchive::new(std::io::Cursor::new(archive)).map(|_| ()).map_err(|e| e.to_string())
}

/// `zip::ZipArchive::by_name` and `Read::read_to_end`: the named entry's
/// bytes, or the crate's message when the archive, the entry or its data
/// cannot be read.
#[verifier::external_body]
pub(crate) fn read_zip_entry(archive: &[u8], name: &str) -> (r: Result<Vec<u8>, String>)
    ensures
        match r {
            Ok(b) => zip_entry(archive@, name@) == Some(b@),
            Err(_) => zip_entry(archive@, name@) is None,
        },
{
    let mut zip = zip::ZipArchive::new(std::io::Cursor::new(archive)).map_err(|e| e.to_string())?;
    let mut entry = zip.by_name(name).map_err(|e| e.to_string())?;
    let mut bytes = Vec::new();
    std::io::Read::read_to_end(&mut entry, &mut bytes).map_err(|e| e.to_string())?;
    Ok(bytes)
}

/// `std::str::from_utf8`: the text the bytes encode, when they are valid
/// UTF-8.
#[verifier::external_body]
pub(crate) fn utf8_text(bytes: &[u8]) -> (r: Option<String>)
    ensures
        r is Some <==> valid_utf8(bytes@),
        r matches Some(s) ==> s@ == decode_utf8(bytes@),
{
    std::str::from_utf8(bytes).ok().map(|s| s.to_string())
}

/// The text of an archive entry, when it exists and is valid UTF-8.
pub open spec fn entry_text(archive: Seq<u8>, name: Seq<char>) -> Option<Seq<char>> {
    match zip_entry(archive, name) {
        Some(b) => if valid_utf8(b) {
            Some(decode_utf8(b))
        } else {
            None
        },
        None => None,
    }
}

/// The message of a text read that meets bytes that are not UTF-8.
pub open spec fn not_utf8_message() -> Seq<char> {
    "stream did not contain valid UTF-8"@
}

/// The error reading the entry's text gives: an archive error when the entry
/// cannot be read, an I/O error when it is not UTF-8.
pub open spec fn entry_error(e: DocumentError, archive: Seq<u8>, name: Seq<char>) -> bool {
    match zip_entry(archive, name) {
        None => e is Archive,
        Some(b) => !valid_utf8(b) && (e matches DocumentError::Io(m) && m@ == not_utf8_message()),
    }
}

/// The text of an archive entry, or the error reading it gives.
fn entry_string(archive: &[u8], name: &str) -> (r: Result<String, DocumentError>)
    ensures
        match r {
            Ok(s) => entry_text(archive@, name@) == Some(s@),
            Err(e) => entry_text(archive@, name@) is None && entry_error(e, archive@, name@),
        },
{
    let bytes = match read_zip_entry(archive, name) {
        Ok(b) => b,
        Err(m) => {
            return Err(DocumentError::Archive(m));
        },
    };
    match utf8_text(bytes.as_slice()) {
        Some(s) => Ok(s),
        None => Err(DocumentError::Io(String::from_str("stream did not contain valid UTF-8"))),
    }
}

/// `prefix + detail` as a string.
fn framed(prefix: &Vec<char>, detail: &str) -> (r: String)
    ensures
        r@ == prefix@ + detail@,
{
    let mut m = prefix.clone();
    extend_str(&mut m, detail);
    string_of(&m)
}

// ---------------------------------------------------------------------------
// DOCX
// ---------------------------------------------------------------------------

/// The `docProps/core.xml` text of a DOCX archive, when it has a readable one.
pub open spec fn docx_core(archive: Seq<u8>) -> Option<Seq<char>> {
    entry_text(archive, "docProps/core.xml"@)
}

/// Reads a DOCX from the bytes of its file: the archive must open and hold
/// a UTF-8 `word/document.xml`; the document is then built from it and from
/// `docProps/core.xml` when that is readable.
pub fn docx_document_from_archive(path: &str, archive: &[u8]) -> (r: Result<
    ParsedDocument,
    DocumentError,
>)
    ensures
        !zip_opens(archive@) ==> (r matches Err(DocumentError::CorruptedFile(m)) && (path@
            + " is not a readable DOCX archive: "@).is_prefix_of(m@)),
        zip_opens(archive@) && zip_entry(archive@, "word/document.xml"@) is None ==> (
        r matches Err(DocumentError::CorruptedFile(m))
            && "DOCX is missing word/document.xml: "@.is_prefix_of(m@)),
        zip_opens(archive@) ==> (zip_entry(archive@, "word/document.xml"@) matches Some(b) ==> (
        !valid_utf8(b) ==> (r matches Err(DocumentError::Io(m)) && m@ == not_utf8_message()))),
        zip_opens(archive@) ==> (zip_entry(archive@, "word/document.xml"@) matches Some(b) ==> (
        valid_utf8(b) ==> docx_outcome(path@, decode_utf8(b), docx_core(archive@), r))),
{
    match open_zip(archive) {
        Ok(()) => {},
        Err(m) => {
            let mut p = chars_of(path);
            extend_str(&mut p, " is not a readable DOCX archive: ");
            return Err(DocumentError::CorruptedFile(framed(&p, m.as_str())));
        },
    }
    let bytes = match read_zip_entry(archive, "word/document.xml") {
        Ok(b) => b,
        Err(m) => {
            let p = chars_of("DOCX is missing word/document.xml: ");
            return Err(DocumentError::CorruptedFile(framed(&p, m.as_str())));
        },
    };
    let xml = match utf8_text(bytes.as_slice()) {
        Some(s) => s,
        None => {
            return Err(DocumentError::Io(String::from_str("stream did not contain valid UTF-8")));
        },
    };
    let core = match entry_string(archive, "docProps/core.xml") {
        Ok(s) => Some(s),
        Err(_) => None,
    };
    docx_document(path, xml.as_str(), &core)
}

// ---------------------------------------------------------------------------
// PDF
// ---------------------------------------------------------------------------

// `pdf-extract` panics on some malformed PDFs, and catching a panic takes
// `std::panic`, which the library does not use; so the text is extracted by
// the caller, which catches the panic, and handed in as its result.

/// An entry of a PDF's information dictionary as `lopdf` reads it from the
/// bytes (a string, decoded as UTF-8 with replacement characters), when the
/// document, its dictionary and the entry can be read.
pub uninterp spec fn pdf_info_text(data: Seq<u8>, key: Seq<char>) -> Option<Seq<char>>;

/// `lopdf::Document::load_mem`, then the trailer's `Info` dictionary and its
/// string entry `key`, decoded with `String::from_utf8_lossy`.
#[verifier::external_body]
pub(crate) fn pdf_info_entry(data: &[u8], key: &str) -> (r: Option<String>)
    ensures
        opt_string_view(r) == pdf_info_text(data@, key@),
{
    let document = lopdf::Document::load_mem(data).ok()?;
    let reference = document.trailer.get(b"Info").and_then(lopdf::Object::as_reference).ok()?;
    let info = document.get_dictionary(reference).ok()?;
    let bytes = info.get(key.as_bytes()).ok()?.as_str().ok()?;
    Some(String::from_utf8_lossy(bytes).into_owned())
}

/// Reads a PDF from the bytes of its file and the text of its pages as
/// `pdf-extract` gave it (or the extraction's message): the document is built
/// from the pages and from the title and author of its information
/// dictionary; a failed extraction is a parsing failure.
pub fn pdf_document_from_bytes(path: &str, data: &[u8], pages: &Result<Vec<String>, String>) -> (r: Result<
    ParsedDocument,
    DocumentError,
>)
    ensures
        pages matches Err(m) ==> (r matches Err(DocumentError::ParsingFailure(e)) && e@
            == "failed to extract PDF "@ + path@ + ": "@ + m@),
        pages matches Ok(ps) ==> pdf_outcome(
            path@,
            views(ps@),
            pdf_info_text(data@, "Title"@),
            pdf_info_text(data@, "Author"@),
            r,
        ),
{
    match pages {
        Err(m) => {
            let mut p = chars_of("failed to extract PDF ");
            extend_str(&mut p, path);
            extend_str(&mut p, ": ");
            Err(DocumentError::ParsingFailure(framed(&p, m.as_str())))
        },
        Ok(ps) => {
            let title = pdf_info_entry(data, "Title");
            let author = pdf_info_entry(data, "Author");
            pdf_document(path, ps, title, author)
        },
    }
}

/// What loading a PDF as one text gives, from what text extraction gave.
pub open spec fn pdf_file_outcome(
    path: Seq<char>,
    extracted: Result<String, String>,
    r: Result<Document, DocumentError>,
) -> bool {
    match extracted {
        Err(m) => r matches Err(DocumentError::ParsingFailure(e)) && e@
            == "failed to extract text from PDF "@ + path + ": "@ + m@,
        Ok(t) => {
            &&& r is Err <==> is_blank(pdf_normalized(t@))
            &&& r matches Ok(d) ==> d.text@ == pdf_normalized(t@) && d.title@ == stem_title(path)
            &&& r matches Err(e) ==> e matches DocumentError::ParsingFailure(m) && m@
                == no_text_message(path)
        },
    }
}

/// Loads a PDF as one text from what `pdf-extract` gave for the whole
/// document (or its message): the text is normalized and titled by the file
/// name; a failed extraction, or no text, is a parsing failure.
pub fn load_pdf_file(path: &str, extracted: &Result<String, String>) -> (r: Result<
    Document,
    DocumentError,
>)
    ensures
        pdf_file_outcome(path@, *extracted, r),
{
    match extracted {
        Err(m) => {
            let mut p = chars_of("failed to extract text from PDF ");
            extend_str(&mut p, path);
            extend_str(&mut p, ": ");
            Err(DocumentError::ParsingFailure(framed(&p, m.as_str())))
        },
        Ok(t) => document_from_pdf_text(path, t.as_str()),
    }
}

// ---------------------------------------------------------------------------
// DOCX and plain text as one document
// ---------------------------------------------------------------------------

/// What loading a DOCX as one text gives from the bytes of its file.
pub open spec fn docx_file_outcome(path: Seq<char>, archive: Seq<u8>, r: Result<Document, DocumentError>) -> bool {
    if !zip_opens(archive) {
        r matches Err(e) && e is Archive
    } else {
        match zip_entry(archive, "word/document.xml"@) {
            None => r matches Err(e) && e is Archive,
            Some(b) => if !valid_utf8(b) {
                r matches Err(DocumentError::Io(m)) && m@ == not_utf8_message()
            } else {
                let text = crate::docx::docx_text(decode_utf8(b));
                &&& r is Err <==> is_blank(text)
                &&& r matches Err(e) ==> e matches DocumentError::EmptyDocument(p) && p@ == path
                &&& r matches Ok(d) ==> d.text@ == text && d.title@ == stem_title(path)
            },
        }
    }
}

/// Loads a DOCX as one text from the bytes of its file: the archive must
/// open and hold a UTF-8 `word/document.xml`, whose text, when not blank,
/// is the document, titled by the file name.
pub fn load_docx_file(path: &str, archive: &[u8]) -> (r: Result<Document, DocumentError>)
    ensures
        docx_file_outcome(path@, archive@, r),
{
    match open_zip(archive) {
        Ok(()) => {},
        Err(m) => {
            return Err(DocumentError::Archive(m));
        },
    }
    let xml = match entry_string(archive, "word/document.xml") {
        Ok(s) => s,
        Err(e) => {
            return Err(e);
        },
    };
    crate::docx::docx_text_document(path, xml.as_str())
}

/// What loading a text file gives from its bytes.
pub open spec fn text_file_outcome(path: Seq<char>, bytes: Seq<u8>, r: Result<Document, DocumentError>) -> bool {
    if valid_utf8(bytes) {
        r matches Ok(d) && d.text@ == decode_utf8(bytes) && d.title@ == stem_title(path)
    } else {
        r matches Err(DocumentError::Io(m)) && m@ == not_utf8_message()
    }
}

/// Loads a text file from its bytes: the text they encode, titled by the
/// file name; bytes that are not UTF-8 are an I/O error.
pub fn load_text_file(path: &str, bytes: &[u8]) -> (r: Result<Document, DocumentError>)
    ensures
        text_file_outcome(path@, bytes@, r),
{
    match utf8_text(bytes) {
        Some(text) => Ok(Document { title: crate::parser::file_stem_title(path), text }),
        None => Err(DocumentError::Io(String::from_str("stream did not contain valid UTF-8"))),
    }
}

// ---------------------------------------------------------------------------
// EPUB
// ---------------------------------------------------------------------------

/// The package path a container document names.
pub open spec fn rootfile_spec(container: Seq<char>) -> Option<Seq<char>> {
    match first_tag_spec(container, "rootfile"@) {
        Some(t) => attribute_spec(t, "full-path"@),
        None => None,
    }
}

/// The archive paths of the reading order of a package document.
pub open spec fn reading_paths(opf_path: Seq<char>, opf: Seq<char>) -> Seq<Seq<char>> {
    spine_paths(
        spine_spec(tags_spec(opf, "itemref"@)),
        manifest_spec(tags_spec(opf, "item"@)),
        package_dir(opf_path),
    )
}

/// The position of the first entry from `k` on whose text cannot be read.
pub open spec fn first_unreadable(archive: Seq<u8>, names: Seq<Seq<char>>, k: int) -> Option<int>
    decreases names.len() - k,
{
    if k < 0 || k >= names.len() {
        None
    } else if entry_text(archive, names[k]) is None {
        Some(k)
    } else {
        first_unreadable(archive, names, k + 1)
    }
}

/// The texts of the named entries.
pub open spec fn entry_texts(archive: Seq<u8>, names: Seq<Seq<char>>) -> Seq<Seq<char>> {
    names.map_values(|n: Seq<char>| entry_text(archive, n)->0)
}

/// `d` is `d0` under another title, with the EPUB format on its source and
/// on every block's source.
pub open spec fn retagged(d: ParsedDocument, d0: ParsedDocument, title: Seq<char>) -> bool {
    &&& d.title@ == title
    &&& d.author == d0.author
    &&& d.language == d0.language
    &&& d.metadata == d0.metadata
    &&& d.source == (crate::models::SourceLocation { format: DocumentFormat::Epub, ..d0.source })
    &&& d.blocks@.len() == d0.blocks@.len()
    &&& forall|i: int|
        0 <= i < d.blocks@.len() ==> (#[trigger] d.blocks@[i]) == (ParsedBlock {
            source: crate::models::SourceLocation {
                format: DocumentFormat::Epub,
                ..d0.blocks@[i].source
            },
            ..d0.blocks@[i]
        })
}

/// The title of an EPUB: the package title when not blank, else the file name.
pub open spec fn epub_title(path: Seq<char>, opf: Seq<char>) -> Seq<char> {
    match tag_text_spec(opf, "dc:title"@) {
        Some(t) => if is_blank(t) {
            stem_title(path)
        } else {
            t
        },
        None => stem_title(path),
    }
}

/// How far reading an EPUB archive gets: not a ZIP archive; an entry whose
/// text cannot be read; a container without a package; a package with an
/// empty spine; or the package and the texts of its sections, in reading
/// order.
pub enum EpubStage {
    NotZip,
    Unreadable(Seq<char>),
    NoRootfile,
    EmptySpine,
    Sections(Seq<char>, Seq<Seq<char>>),
}

/// How far reading the EPUB archive `a` gets.
pub open spec fn epub_stage(a: Seq<u8>) -> EpubStage {
    let container = "META-INF/container.xml"@;
    if !zip_opens(a) {
        EpubStage::NotZip
    } else if entry_text(a, container) is None {
        EpubStage::Unreadable(container)
    } else if rootfile_spec(entry_text(a, container)->0) is None {
        EpubStage::NoRootfile
    } else {
        let p = rootfile_spec(entry_text(a, container)->0)->0;
        if entry_text(a, p) is None {
            EpubStage::Unreadable(p)
        } else {
            let opf = entry_text(a, p)->0;
            if spine_spec(tags_spec(opf, "itemref"@)).len() == 0 {
                EpubStage::EmptySpine
            } else {
                let names = reading_paths(p, opf);
                match first_unreadable(a, names, 0) {
                    Some(k) => EpubStage::Unreadable(names[k]),
                    None => EpubStage::Sections(opf, entry_texts(a, names)),
                }
            }
        }
    }
}

/// The error of a stage that stops the reading.
pub open spec fn epub_stage_error(st: EpubStage, a: Seq<u8>, e: DocumentError) -> bool {
    match st {
        EpubStage::NotZip => e is Archive,
        EpubStage::Unreadable(n) => entry_error(e, a, n),
        EpubStage::NoRootfile => e matches DocumentError::InvalidStructure(m) && m@
            == "EPUB container has no rootfile"@,
        EpubStage::EmptySpine => e matches DocumentError::InvalidStructure(m) && m@
            == "EPUB package has an empty spine"@,
        EpubStage::Sections(_, _) => false,
    }
}

/// The text of an EPUB's sections, joined by blank lines.
pub open spec fn epub_text(hs: Seq<Seq<char>>) -> Seq<char> {
    join(section_texts(hs), "\n\n"@)
}

/// What loading an EPUB archive as one text gives: the sections' text under
/// the package title, an empty document when it is blank, or the error of the
/// stage that stops the reading.
pub open spec fn epub_file_outcome(path: Seq<char>, a: Seq<u8>, r: Result<Document, DocumentError>) -> bool {
    match epub_stage(a) {
        EpubStage::Sections(opf, hs) => if is_blank(epub_text(hs)) {
            r matches Err(DocumentError::EmptyDocument(q)) && q@ == path
        } else {
            r matches Ok(d) && d.text@ == epub_text(hs) && d.title@ == epub_title(path, opf)
        },
        st => r matches Err(e) && epub_stage_error(st, a, e),
    }
}

/// What reading an EPUB archive gives: the container names the package,
/// the package's spine gives the reading order, and the text of the sections
/// is read as prose under the package title.
pub open spec fn epub_outcome(path: Seq<char>, a: Seq<u8>, r: Result<ParsedDocument, DocumentError>) -> bool {
    match epub_stage(a) {
        EpubStage::Sections(opf, hs) => if is_blank(epub_text(hs)) {
            r matches Err(DocumentError::EmptyDocument(q)) && q@ == path
        } else {
            r matches Ok(d) && exists|d0: ParsedDocument|
                text_document(d0, epub_text(hs), false, path) && retagged(d, d0, epub_title(path, opf))
        },
        st => r matches Err(e) && epub_stage_error(st, a, e),
    }
}

proof fn lemma_unreadable_step(a: Seq<u8>, names: Seq<Seq<char>>, k: int)
    requires
        0 <= k < names.len(),
        entry_text(a, names[k]) is Some,
    ensures
        first_unreadable(a, names, k) == first_unreadable(a, names, k + 1),
{
}

/// `d0` under the given title, with the EPUB format on every source.
fn retag_epub(d0: ParsedDocument, title: String) -> (d: ParsedDocument)
    ensures
        retagged(d, d0, title@),
{
    let ghost orig = d0;
    let mut d = d0;
    d.title = title;
    d.source.format = DocumentFormat::Epub;
    let mut i: usize = 0;
    while i < d.blocks.len()
        invariant
            i <= d.blocks@.len(),
            d.blocks@.len() == orig.blocks@.len(),
            d.title@ == title@,
            d.author == orig.author,
            d.language == orig.language,
            d.metadata == orig.metadata,
            d.source == (crate::models::SourceLocation { format: DocumentFormat::Epub, ..orig.source }),
            forall|q: int|
                0 <= q < i ==> (#[trigger] d.blocks@[q]) == (ParsedBlock {
                    source: crate::models::SourceLocation {
                        format: DocumentFormat::Epub,
                        ..orig.blocks@[q].source
                    },
                    ..orig.blocks@[q]
                }),
            forall|q: int| i <= q < d.blocks@.len() ==> (#[trigger] d.blocks@[q]) == orig.blocks@[q],
        decreases d.blocks.len() - i,
    {
        let mut b = d.blocks[i].copy();
        b.source.format = DocumentFormat::Epub;
        d.blocks.set(i, b);
        i += 1;
    }
    d
}

/// Loads an EPUB as one text from the bytes of its file (see
/// `epub_file_outcome`).
pub fn load_epub_file(path: &str, archive: &[u8]) -> (r: Result<Document, DocumentError>)
    ensures
        epub_file_outcome(path@, archive@, r),
{
    match open_zip(archive) {
        Ok(()) => {},
        Err(m) => {
            return Err(DocumentError::Archive(m));
        },
    }
    let container = match entry_string(archive, "META-INF/container.xml") {
        Ok(s) => s,
        Err(e) => {
            return Err(e);
        },
    };
    let opf_path = match extract_rootfile_path(container.as_str()) {
        Some(p) => p,
        None => {
            return Err(
                DocumentError::InvalidStructure(String::from_str("EPUB container has no rootfile")),
            );
        },
    };
    let opf = match entry_string(archive, opf_path.as_str()) {
        Ok(s) => s,
        Err(e) => {
            return Err(e);
        },
    };
    let (title, names) = match epub_reading_plan(opf_path.as_str(), opf.as_str()) {
        Ok(plan) => plan,
        Err(e) => {
            return Err(e);
        },
    };
    let ghost nv = views(names@);
    let mut sections: Vec<String> = Vec::new();
    let mut k: usize = 0;
    while k < names.len()
        invariant
            k <= names@.len(),
            nv == views(names@),
            zip_opens(archive@),
            entry_text(archive@, "META-INF/container.xml"@) == Some(container@),
            rootfile_spec(container@) == Some(opf_path@),
            entry_text(archive@, opf_path@) == Some(opf@),
            spine_spec(tags_spec(opf@, "itemref"@)).len() > 0,
            nv == reading_paths(opf_path@, opf@),
            sections@.len() == k,
            first_unreadable(archive@, nv, 0) == first_unreadable(archive@, nv, k as int),
            forall|q: int|
                0 <= q < k ==> entry_text(archive@, nv[q]) == Some(#[trigger] sections@[q]@),
        decreases names.len() - k,
    {
        let s = match entry_string(archive, names[k].as_str()) {
            Ok(s) => s,
            Err(e) => {
                return Err(e);
            },
        };
        proof {
            lemma_unreadable_step(archive@, nv, k as int);
        }
        sections.push(s);
        k += 1;
    }
    assert(views(sections@) =~= entry_texts(archive@, nv));
    epub_document(path, &title, &sections)
}

/// Loads a whole document from the bytes of its file, by the file's
/// extension: `.txt` and `.md` as text, `.docx`, `.epub`, and `.pdf` (from
/// `pdf_text`, what text extraction gave for `data`; read only for a PDF).
/// Any other extension is an unsupported format.
pub fn load_file(path: &str, data: &[u8], pdf_text: &Result<String, String>) -> (r: Result<
    Document,
    DocumentError,
>)
    ensures
        match load_format(path@) {
            None => r matches Err(DocumentError::UnsupportedFormat(p)) && p@ == path@,
            Some(DocumentFormat::Txt) => text_file_outcome(path@, data@, r),
            Some(DocumentFormat::Markdown) => text_file_outcome(path@, data@, r),
            Some(DocumentFormat::Docx) => docx_file_outcome(path@, data@, r),
            Some(DocumentFormat::Epub) => epub_file_outcome(path@, data@, r),
            Some(DocumentFormat::Pdf) => pdf_file_outcome(path@, *pdf_text, r),
        },
{
    match load_file_format(path) {
        Err(e) => Err(e),
        Ok(DocumentFormat::Txt) => load_text_file(path, data),
        Ok(DocumentFormat::Markdown) => load_text_file(path, data),
        Ok(DocumentFormat::Docx) => load_docx_file(path, data),
        Ok(DocumentFormat::Epub) => load_epub_file(path, data),
        Ok(DocumentFormat::Pdf) => load_pdf_file(path, pdf_text),
    }
}

/// Reads an EPUB from the bytes of its file (see `epub_outcome`).
pub fn epub_document_from_archive(path: &str, archive: &[u8]) -> (r: Result<
    ParsedDocument,
    DocumentError,
>)
    ensures
        epub_outcome(path@, archive@, r),
{
    let document = match load_epub_file(path, archive) {
        Ok(d) => d,
        Err(e) => {
            return Err(e);
        },
    };
    let parsed = match parse_text_content(document.text.as_str(), false, path) {
        Ok(p) => p,
        Err(e) => {
            return Err(e);
        },
    };
    Ok(retag_epub(parsed, document.title))
}

} // verus!

verus! {

// ---------------------------------------------------------------------------
// Writing ZIP archives
// ---------------------------------------------------------------------------

/// An in-memory ZIP archive being written. Verus cannot declare the
/// `zip::ZipWriter` over a cursor (its `Write + Seek` bounds are not
/// specified), so the writer is held opaque; `zip_written` names what it
/// holds.
#[verifier::external_body]
pub struct ZipBuilder {
    writer: zip::ZipWriter<std::io::Cursor<Vec<u8>>>,
}

/// The entries written so far into an in-memory ZIP archive, in order: each
/// name with its data.
pub uninterp spec fn zip_written(w: ZipBuilder) -> Seq<(Seq<char>, Seq<u8>)>;

/// `zip::ZipWriter::new` over an empty in-memory buffer: nothing written.
#[verifier::external_body]
pub(crate) fn new_zip_builder() -> (w: ZipBuilder)
    ensures
        zip_written(w) == Seq::<(Seq<char>, Seq<u8>)>::empty(),
{
    ZipBuilder { writer: zip::ZipWriter::new(std::io::Cursor::new(Vec::new())) }
}

/// `ZipWriter::start_file` (stored or deflated) and `Write::write_all`: adds
/// one entry under a name not written before. On success the entry is
/// recorded; on failure the crate's message comes back and nothing is said of
/// the writer.
#[verifier::external_body]
pub(crate) fn zip_add(w: &mut ZipBuilder, name: &str, data: &[u8], stored: bool) -> (r: Result<(), String>)
    requires
        forall|k: int| 0 <= k < zip_written(*old(w)).len() ==> (#[trigger] zip_written(*old(w))[k]).0 != name@,
    ensures
        r is Ok ==> zip_written(*final(w)) == zip_written(*old(w)).push((name@, data@)),
{
    let method = if stored { zip::CompressionMethod::Stored } else { zip::CompressionMethod::Deflated };
    let options = zip::write::SimpleFileOptions::default().compression_method(method);
    w.writer.start_file(name, options).map_err(|e| e.to_string())?;
    std::io::Write::write_all(&mut w.writer, data).map_err(|e| e.to_string())
}

/// `ZipWriter::finish`: the archive's bytes. Reading them back gives each
/// written entry's data under its name.
#[verifier::external_body]
pub(crate) fn zip_finish(w: ZipBuilder) -> (r: Result<Vec<u8>, String>)
    ensures
        r matches Ok(b) ==> zip_opens(b@) && forall|k: int|
            0 <= k < zip_written(w).len() ==> zip_entry(b@, (#[trigger] zip_written(w)[k]).0)
                == Some(zip_written(w)[k].1),
{
    w.writer.finish().map(|cursor| cursor.into_inner()).map_err(|e| e.to_string())
}

} // verus!
