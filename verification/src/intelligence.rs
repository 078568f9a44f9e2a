//! Document intelligence vocabulary: source formats and paragraph kinds.

use vstd::prelude::*;

verus! {

#[derive(Debug, Clone, Copy, PartialEq, Eq, Structural)]
pub enum SourceFormat {
    Pdf,
    Epub,
    Docx,
    Txt,
    Markdown,
}

#[derive(Debug, Clone, Copy, PartialEq, Eq, Structural)]
pub enum ParagraphType {
    Narrative,
    Dialogue,
    Heading,
    Unknown,
}

} // verus!
