//! A loaded document: a title and its full text.

use vstd::prelude::*;
use crate::error::DocumentError;
use crate::models::{extension_of, DocumentFormat};
use crate::text::{ascii_lower_seq, ascii_lower_vec, chars_of, eq_str};

verus! {

broadcast use vstd::string::group_string_axioms;

/// A document read whole: its title and text.
#[derive(Debug, Clone, PartialEq, Eq)]
pub struct Document {
    pub title: String,
    pub text: String,
}

/// A document with the given title and text.
pub fn load_document(title: &str, text: &str) -> (r: Document)
    ensures
        r.title@ == title@,
        r.text@ == text@,
{
    Document { title: String::from_str(title), text: String::from_str(text) }
}


/// The format a whole-document load reads by the path's extension (any ASCII
/// case): `txt`, `md`, `docx`, `epub` or `pdf`.
pub open spec fn load_format(path: Seq<char>) -> Option<DocumentFormat> {
    match extension_of(path) {
        Some(e) => {
            let l = ascii_lower_seq(e);
            if l == "txt"@ {
                Some(DocumentFormat::Txt)
            } else if l == "md"@ {
                Some(DocumentFormat::Markdown)
            } else if l == "docx"@ {
                Some(DocumentFormat::Docx)
            } else if l == "epub"@ {
                Some(DocumentFormat::Epub)
            } else if l == "pdf"@ {
                Some(DocumentFormat::Pdf)
            } else {
                None
            }
        },
        None => None,
    }
}

/// The format to load a document as; `None` for an unsupported extension.
pub fn loadable_format(path: &str) -> (r: Option<DocumentFormat>)
    ensures
        r == load_format(path@),
{
    match crate::models::extension(path) {
        Some(e) => {
            let l = ascii_lower_vec(&chars_of(e.as_str()));
            if eq_str(&l, "txt") {
                Some(DocumentFormat::Txt)
            } else if eq_str(&l, "md") {
                Some(DocumentFormat::Markdown)
            } else if eq_str(&l, "docx") {
                Some(DocumentFormat::Docx)
            } else if eq_str(&l, "epub") {
                Some(DocumentFormat::Epub)
            } else if eq_str(&l, "pdf") {
                Some(DocumentFormat::Pdf)
            } else {
                None
            }
        },
        None => None,
    }
}

/// The format a whole-document load reads the file at `path` as, or the
/// unsupported-format error that names the path; the file itself is read by
/// the caller.
pub fn load_file_format(path: &str) -> (r: Result<DocumentFormat, DocumentError>)
    ensures
        match load_format(path@) {
            Some(f) => r == Ok::<DocumentFormat, DocumentError>(f),
            None => r matches Err(DocumentError::UnsupportedFormat(p)) && p@ == path@,
        },
{
    match loadable_format(path) {
        Some(f) => Ok(f),
        None => Err(DocumentError::UnsupportedFormat(String::from_str(path))),
    }
}

} // verus!
