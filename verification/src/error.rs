//! Errors of document ingestion and export.

use vstd::prelude::*;
use crate::text::{chars_of, extend_str, string_of};

verus! {

broadcast use vstd::string::group_string_axioms;

/// Why a document could not be read, built or exported. Each variant carries
/// the path or a message.
#[derive(Debug, Clone, PartialEq, Eq)]
pub enum DocumentError {
    Io(String),
    Archive(String),
    UnsupportedFormat(String),
    InvalidDocument(String),
    InvalidStructure(String),
    ParsingFailure(String),
    EmptyDocument(String),
    CorruptedFile(String),
}

/// The readable text of an error: a fixed lead-in per variant around the
/// carried path or message.
pub open spec fn error_text(e: DocumentError) -> Seq<char> {
    match e {
        DocumentError::Io(m) => "I/O error: "@ + m@,
        DocumentError::Archive(m) => "document archive error: "@ + m@,
        DocumentError::UnsupportedFormat(p) => "unsupported document format for "@ + p@
            + " (supported: .txt, .md, .docx, .epub, .pdf)"@,
        DocumentError::InvalidDocument(m) => "invalid document: "@ + m@,
        DocumentError::InvalidStructure(m) => "invalid document structure: "@ + m@,
        DocumentError::ParsingFailure(m) => "parsing failure: "@ + m@,
        DocumentError::EmptyDocument(p) => "document "@ + p@ + " contains no text"@,
        DocumentError::CorruptedFile(m) => "corrupted file: "@ + m@,
    }
}

impl DocumentError {
    /// The readable text of this error.
    pub fn message(&self) -> (r: String)
        ensures
            r@ == error_text(*self),
    {
        let (lead, body, tail) = match self {
            DocumentError::Io(m) => ("I/O error: ", m.as_str(), ""),
            DocumentError::Archive(m) => ("document archive error: ", m.as_str(), ""),
            DocumentError::UnsupportedFormat(p) => (
                "unsupported document format for ",
                p.as_str(),
                " (supported: .txt, .md, .docx, .epub, .pdf)",
            ),
            DocumentError::InvalidDocument(m) => ("invalid document: ", m.as_str(), ""),
            DocumentError::InvalidStructure(m) => ("invalid document structure: ", m.as_str(), ""),
            DocumentError::ParsingFailure(m) => ("parsing failure: ", m.as_str(), ""),
            DocumentError::EmptyDocument(p) => ("document ", p.as_str(), " contains no text"),
            DocumentError::CorruptedFile(m) => ("corrupted file: ", m.as_str(), ""),
        };
        proof {
            reveal_strlit("");
        }
        let mut v = chars_of(lead);
        extend_str(&mut v, body);
        extend_str(&mut v, tail);
        assert(v@ =~= error_text(*self));
        string_of(&v)
    }
}

} // verus!
