//! Settings the desktop shell collects for translation, analysis and review.

use vstd::prelude::*;
use crate::text::{chars_of, is_blank, trim_vec};

verus! {

/// Settings of a translation run.
#[derive(Debug, Clone)]
pub struct TranslationInput {
    pub provider: String,
    pub model: Option<String>,
    pub target_language: String,
    pub style_profile: String,
    pub adult_content_confirmed: bool,
    pub max_chapters: Option<usize>,
}

/// Settings of an advanced analysis run.
#[derive(Debug, Clone)]
pub struct AdvancedAnalysisInput {
    pub provider: String,
    pub model: Option<String>,
    pub max_units: Option<usize>,
    pub cache: bool,
}

/// Settings of a literary review run.
#[derive(Debug, Clone)]
pub struct LiteraryReviewInput {
    pub provider: String,
    pub model: Option<String>,
    pub semantic_alignment: bool,
    pub max_chapters: Option<usize>,
}

/// The value an omitted switch takes.
pub fn default_true() -> (r: bool)
    ensures
        r,
{
    true
}

/// A model choice counts only when it is not blank.
pub open spec fn chosen_model(model: Option<String>) -> Option<Seq<char>> {
    match model {
        Some(m) => if is_blank(m@) {
            None
        } else {
            Some(m@)
        },
        None => None,
    }
}

/// The model to use: the given one unless it is blank.
pub fn model_choice(model: Option<String>) -> (r: Option<String>)
    ensures
        match r {
            Some(m) => chosen_model(model) == Some(m@),
            None => chosen_model(model) is None,
        },
{
    match model {
        Some(m) => {
            if trim_vec(&chars_of(m.as_str())).len() == 0 {
                None
            } else {
                Some(m)
            }
        },
        None => None,
    }
}

} // verus!
