//! The advanced literary analysis domain: finding categories, narrative scopes,
//! bounded analysis units, evidence ordinals and content identities.

use vstd::prelude::*;
use vstd::string::StringSliceAdditionalSpecFns;
use crate::digest::{sha256_hex, stable_hash};
use vstd::utf8::encode_utf8;
use crate::fmt::{dec_digits, dec_vec, parse_usize, parse_usize_spec};
use crate::models::SourceLocation;
use crate::norm::{identity_form, normalize_for_identity};
use crate::text::{
    ascii_lower_seq, ascii_lower_vec, chars_of, eq_str, extend_all, extend_str, lt_exec,
    seq_lt, slice_vec, starts_with, starts_with_str, string_of, trim, trim_vec,
};

verus! {

/// Version of the advanced analysis result schema.
pub const ADVANCED_ANALYSIS_SCHEMA_VERSION: u32 = 1;

/// Version tag of the provider prompt.
pub const PROMPT_VERSION: &'static str = "literary-analysis-v1";

// ---------------------------------------------------------------------------
// Finding categories
// ---------------------------------------------------------------------------

#[derive(Debug, Clone, Copy, PartialEq, Eq, Structural, Hash, PartialOrd, Ord)]
pub enum FindingCategory {
    PointOfView,
    NarratorVoice,
    Tone,
    CharacterVoice,
    RelationshipDynamic,
    PowerDynamic,
    EmotionalShift,
    Subtext,
    Sarcasm,
    Humor,
    IntimacyRegister,
    DialogueFunction,
    SceneIntent,
    NarrativeTension,
    Motif,
    RecurringImagery,
    RegisterShift,
    ContinuityObservation,
}

/// The snake_case label of a category.
pub open spec fn category_label(c: FindingCategory) -> Seq<char> {
    match c {
        FindingCategory::PointOfView => "point_of_view"@,
        FindingCategory::NarratorVoice => "narrator_voice"@,
        FindingCategory::Tone => "tone"@,
        FindingCategory::CharacterVoice => "character_voice"@,
        FindingCategory::RelationshipDynamic => "relationship_dynamic"@,
        FindingCategory::PowerDynamic => "power_dynamic"@,
        FindingCategory::EmotionalShift => "emotional_shift"@,
        FindingCategory::Subtext => "subtext"@,
        FindingCategory::Sarcasm => "sarcasm"@,
        FindingCategory::Humor => "humor"@,
        FindingCategory::IntimacyRegister => "intimacy_register"@,
        FindingCategory::DialogueFunction => "dialogue_function"@,
        FindingCategory::SceneIntent => "scene_intent"@,
        FindingCategory::NarrativeTension => "narrative_tension"@,
        FindingCategory::Motif => "motif"@,
        FindingCategory::RecurringImagery => "recurring_imagery"@,
        FindingCategory::RegisterShift => "register_shift"@,
        FindingCategory::ContinuityObservation => "continuity_observation"@,
    }
}

/// Every category, in declaration order.
pub open spec fn all_categories() -> Seq<FindingCategory> {
    seq![
        FindingCategory::PointOfView,
        FindingCategory::NarratorVoice,
        FindingCategory::Tone,
        FindingCategory::CharacterVoice,
        FindingCategory::RelationshipDynamic,
        FindingCategory::PowerDynamic,
        FindingCategory::EmotionalShift,
        FindingCategory::Subtext,
        FindingCategory::Sarcasm,
        FindingCategory::Humor,
        FindingCategory::IntimacyRegister,
        FindingCategory::DialogueFunction,
        FindingCategory::SceneIntent,
        FindingCategory::NarrativeTension,
        FindingCategory::Motif,
        FindingCategory::RecurringImagery,
        FindingCategory::RegisterShift,
        FindingCategory::ContinuityObservation,
    ]
}

/// The position of a category in `all_categories`.
pub open spec fn category_index(c: FindingCategory) -> int {
    match c {
        FindingCategory::PointOfView => 0,
        FindingCategory::NarratorVoice => 1,
        FindingCategory::Tone => 2,
        FindingCategory::CharacterVoice => 3,
        FindingCategory::RelationshipDynamic => 4,
        FindingCategory::PowerDynamic => 5,
        FindingCategory::EmotionalShift => 6,
        FindingCategory::Subtext => 7,
        FindingCategory::Sarcasm => 8,
        FindingCategory::Humor => 9,
        FindingCategory::IntimacyRegister => 10,
        FindingCategory::DialogueFunction => 11,
        FindingCategory::SceneIntent => 12,
        FindingCategory::NarrativeTension => 13,
        FindingCategory::Motif => 14,
        FindingCategory::RecurringImagery => 15,
        FindingCategory::RegisterShift => 16,
        FindingCategory::ContinuityObservation => 17,
    }
}

/// Every category occurs in `all_categories`, at its index.
pub proof fn lemma_all_categories_complete(c: FindingCategory)
    ensures
        0 <= category_index(c) < all_categories().len(),
        all_categories()[category_index(c)] == c,
{
}

/// The category a label names, if any.
pub open spec fn label_category(l: Seq<char>) -> Option<FindingCategory> {
    if l == "point_of_view"@ {
        Some(FindingCategory::PointOfView)
    } else if l == "narrator_voice"@ {
        Some(FindingCategory::NarratorVoice)
    } else if l == "tone"@ {
        Some(FindingCategory::Tone)
    } else if l == "character_voice"@ {
        Some(FindingCategory::CharacterVoice)
    } else if l == "relationship_dynamic"@ {
        Some(FindingCategory::RelationshipDynamic)
    } else if l == "power_dynamic"@ {
        Some(FindingCategory::PowerDynamic)
    } else if l == "emotional_shift"@ {
        Some(FindingCategory::EmotionalShift)
    } else if l == "subtext"@ {
        Some(FindingCategory::Subtext)
    } else if l == "sarcasm"@ {
        Some(FindingCategory::Sarcasm)
    } else if l == "humor"@ {
        Some(FindingCategory::Humor)
    } else if l == "intimacy_register"@ {
        Some(FindingCategory::IntimacyRegister)
    } else if l == "dialogue_function"@ {
        Some(FindingCategory::DialogueFunction)
    } else if l == "scene_intent"@ {
        Some(FindingCategory::SceneIntent)
    } else if l == "narrative_tension"@ {
        Some(FindingCategory::NarrativeTension)
    } else if l == "motif"@ {
        Some(FindingCategory::Motif)
    } else if l == "recurring_imagery"@ {
        Some(FindingCategory::RecurringImagery)
    } else if l == "register_shift"@ {
        Some(FindingCategory::RegisterShift)
    } else if l == "continuity_observation"@ {
        Some(FindingCategory::ContinuityObservation)
    } else {
        None
    }
}

/// ASCII upper case of one character.
pub open spec fn ascii_upper(c: char) -> char {
    if 'a' <= c && c <= 'z' {
        ((c as u32) - 32) as char
    } else {
        c
    }
}

/// A label character: a lowercase ASCII letter or an underscore.
pub open spec fn label_char(c: char) -> bool {
    ('a' <= c && c <= 'z') || c == '_'
}

/// Every category's label reads back as that category, in any ASCII case:
/// the label itself, and its upper-case form.
pub proof fn lemma_category_label_round_trip(c: FindingCategory)
    ensures
        label_category(category_label(c)) == Some(c),
        label_category(ascii_lower_seq(category_label(c))) == Some(c),
        label_category(ascii_lower_seq(category_label(c).map_values(|x: char| ascii_upper(x)))) == Some(c),
{
        reveal_strlit("point_of_view");
        reveal_strlit("narrator_voice");
        reveal_strlit("tone");
        reveal_strlit("character_voice");
        reveal_strlit("relationship_dynamic");
        reveal_strlit("power_dynamic");
        reveal_strlit("emotional_shift");
        reveal_strlit("subtext");
        reveal_strlit("sarcasm");
        reveal_strlit("humor");
        reveal_strlit("intimacy_register");
        reveal_strlit("dialogue_function");
        reveal_strlit("scene_intent");
        reveal_strlit("narrative_tension");
        reveal_strlit("motif");
        reveal_strlit("recurring_imagery");
        reveal_strlit("register_shift");
        reveal_strlit("continuity_observation");
    match c {
        FindingCategory::PointOfView => {
        },
        FindingCategory::NarratorVoice => {
            assert("point_of_view"@.len() != "narrator_voice"@.len());
        },
        FindingCategory::Tone => {
            assert("point_of_view"@.len() != "tone"@.len());
            assert("narrator_voice"@.len() != "tone"@.len());
        },
        FindingCategory::CharacterVoice => {
            assert("point_of_view"@.len() != "character_voice"@.len());
            assert("narrator_voice"@.len() != "character_voice"@.len());
            assert("tone"@.len() != "character_voice"@.len());
        },
        FindingCategory::RelationshipDynamic => {
            assert("point_of_view"@.len() != "relationship_dynamic"@.len());
            assert("narrator_voice"@.len() != "relationship_dynamic"@.len());
            assert("tone"@.len() != "relationship_dynamic"@.len());
            assert("character_voice"@.len() != "relationship_dynamic"@.len());
        },
        FindingCategory::PowerDynamic => {
            assert("point_of_view"@[2] != "power_dynamic"@[2]);
            assert("narrator_voice"@.len() != "power_dynamic"@.len());
            assert("tone"@.len() != "power_dynamic"@.len());
            assert("character_voice"@.len() != "power_dynamic"@.len());
            assert("relationship_dynamic"@.len() != "power_dynamic"@.len());
        },
        FindingCategory::EmotionalShift => {
            assert("point_of_view"@.len() != "emotional_shift"@.len());
            assert("narrator_voice"@.len() != "emotional_shift"@.len());
            assert("tone"@.len() != "emotional_shift"@.len());
            assert("character_voice"@[0] != "emotional_shift"@[0]);
            assert("relationship_dynamic"@.len() != "emotional_shift"@.len());
            assert("power_dynamic"@.len() != "emotional_shift"@.len());
        },
        FindingCategory::Subtext => {
            assert("point_of_view"@.len() != "subtext"@.len());
            assert("narrator_voice"@.len() != "subtext"@.len());
            assert("tone"@.len() != "subtext"@.len());
            assert("character_voice"@.len() != "subtext"@.len());
            assert("relationship_dynamic"@.len() != "subtext"@.len());
            assert("power_dynamic"@.len() != "subtext"@.len());
            assert("emotional_shift"@.len() != "subtext"@.len());
        },
        FindingCategory::Sarcasm => {
            assert("point_of_view"@.len() != "sarcasm"@.len());
            assert("narrator_voice"@.len() != "sarcasm"@.len());
            assert("tone"@.len() != "sarcasm"@.len());
            assert("character_voice"@.len() != "sarcasm"@.len());
            assert("relationship_dynamic"@.len() != "sarcasm"@.len());
            assert("power_dynamic"@.len() != "sarcasm"@.len());
            assert("emotional_shift"@.len() != "sarcasm"@.len());
            assert("subtext"@[1] != "sarcasm"@[1]);
        },
        FindingCategory::Humor => {
            assert("point_of_view"@.len() != "humor"@.len());
            assert("narrator_voice"@.len() != "humor"@.len());
            assert("tone"@.len() != "humor"@.len());
            assert("character_voice"@.len() != "humor"@.len());
            assert("relationship_dynamic"@.len() != "humor"@.len());
            assert("power_dynamic"@.len() != "humor"@.len());
            assert("emotional_shift"@.len() != "humor"@.len());
            assert("subtext"@.len() != "humor"@.len());
            assert("sarcasm"@.len() != "humor"@.len());
        },
        FindingCategory::IntimacyRegister => {
            assert("point_of_view"@.len() != "intimacy_register"@.len());
            assert("narrator_voice"@.len() != "intimacy_register"@.len());
            assert("tone"@.len() != "intimacy_register"@.len());
            assert("character_voice"@.len() != "intimacy_register"@.len());
            assert("relationship_dynamic"@.len() != "intimacy_register"@.len());
            assert("power_dynamic"@.len() != "intimacy_register"@.len());
            assert("emotional_shift"@.len() != "intimacy_register"@.len());
            assert("subtext"@.len() != "intimacy_register"@.len());
            assert("sarcasm"@.len() != "intimacy_register"@.len());
            assert("humor"@.len() != "intimacy_register"@.len());
        },
        FindingCategory::DialogueFunction => {
            assert("point_of_view"@.len() != "dialogue_function"@.len());
            assert("narrator_voice"@.len() != "dialogue_function"@.len());
            assert("tone"@.len() != "dialogue_function"@.len());
            assert("character_voice"@.len() != "dialogue_function"@.len());
            assert("relationship_dynamic"@.len() != "dialogue_function"@.len());
            assert("power_dynamic"@.len() != "dialogue_function"@.len());
            assert("emotional_shift"@.len() != "dialogue_function"@.len());
            assert("subtext"@.len() != "dialogue_function"@.len());
            assert("sarcasm"@.len() != "dialogue_function"@.len());
            assert("humor"@.len() != "dialogue_function"@.len());
            assert("intimacy_register"@[0] != "dialogue_function"@[0]);
        },
        FindingCategory::SceneIntent => {
            assert("point_of_view"@.len() != "scene_intent"@.len());
            assert("narrator_voice"@.len() != "scene_intent"@.len());
            assert("tone"@.len() != "scene_intent"@.len());
            assert("character_voice"@.len() != "scene_intent"@.len());
            assert("relationship_dynamic"@.len() != "scene_intent"@.len());
            assert("power_dynamic"@.len() != "scene_intent"@.len());
            assert("emotional_shift"@.len() != "scene_intent"@.len());
            assert("subtext"@.len() != "scene_intent"@.len());
            assert("sarcasm"@.len() != "scene_intent"@.len());
            assert("humor"@.len() != "scene_intent"@.len());
            assert("intimacy_register"@.len() != "scene_intent"@.len());
            assert("dialogue_function"@.len() != "scene_intent"@.len());
        },
        FindingCategory::NarrativeTension => {
            assert("point_of_view"@.len() != "narrative_tension"@.len());
            assert("narrator_voice"@.len() != "narrative_tension"@.len());
            assert("tone"@.len() != "narrative_tension"@.len());
            assert("character_voice"@.len() != "narrative_tension"@.len());
            assert("relationship_dynamic"@.len() != "narrative_tension"@.len());
            assert("power_dynamic"@.len() != "narrative_tension"@.len());
            assert("emotional_shift"@.len() != "narrative_tension"@.len());
            assert("subtext"@.len() != "narrative_tension"@.len());
            assert("sarcasm"@.len() != "narrative_tension"@.len());
            assert("humor"@.len() != "narrative_tension"@.len());
            assert("intimacy_register"@[0] != "narrative_tension"@[0]);
            assert("dialogue_function"@[0] != "narrative_tension"@[0]);
            assert("scene_intent"@.len() != "narrative_tension"@.len());
        },
        FindingCategory::Motif => {
            assert("point_of_view"@.len() != "motif"@.len());
            assert("narrator_voice"@.len() != "motif"@.len());
            assert("tone"@.len() != "motif"@.len());
            assert("character_voice"@.len() != "motif"@.len());
            assert("relationship_dynamic"@.len() != "motif"@.len());
            assert("power_dynamic"@.len() != "motif"@.len());
            assert("emotional_shift"@.len() != "motif"@.len());
            assert("subtext"@.len() != "motif"@.len());
            assert("sarcasm"@.len() != "motif"@.len());
            assert("humor"@[0] != "motif"@[0]);
            assert("intimacy_register"@.len() != "motif"@.len());
            assert("dialogue_function"@.len() != "motif"@.len());
            assert("scene_intent"@.len() != "motif"@.len());
            assert("narrative_tension"@.len() != "motif"@.len());
        },
        FindingCategory::RecurringImagery => {
            assert("point_of_view"@.len() != "recurring_imagery"@.len());
            assert("narrator_voice"@.len() != "recurring_imagery"@.len());
            assert("tone"@.len() != "recurring_imagery"@.len());
            assert("character_voice"@.len() != "recurring_imagery"@.len());
            assert("relationship_dynamic"@.len() != "recurring_imagery"@.len());
            assert("power_dynamic"@.len() != "recurring_imagery"@.len());
            assert("emotional_shift"@.len() != "recurring_imagery"@.len());
            assert("subtext"@.len() != "recurring_imagery"@.len());
            assert("sarcasm"@.len() != "recurring_imagery"@.len());
            assert("humor"@.len() != "recurring_imagery"@.len());
            assert("intimacy_register"@[0] != "recurring_imagery"@[0]);
            assert("dialogue_function"@[0] != "recurring_imagery"@[0]);
            assert("scene_intent"@.len() != "recurring_imagery"@.len());
            assert("narrative_tension"@[0] != "recurring_imagery"@[0]);
            assert("motif"@.len() != "recurring_imagery"@.len());
        },
        FindingCategory::RegisterShift => {
            assert("point_of_view"@.len() != "register_shift"@.len());
            assert("narrator_voice"@[0] != "register_shift"@[0]);
            assert("tone"@.len() != "register_shift"@.len());
            assert("character_voice"@.len() != "register_shift"@.len());
            assert("relationship_dynamic"@.len() != "register_shift"@.len());
            assert("power_dynamic"@.len() != "register_shift"@.len());
            assert("emotional_shift"@.len() != "register_shift"@.len());
            assert("subtext"@.len() != "register_shift"@.len());
            assert("sarcasm"@.len() != "register_shift"@.len());
            assert("humor"@.len() != "register_shift"@.len());
            assert("intimacy_register"@.len() != "register_shift"@.len());
            assert("dialogue_function"@.len() != "register_shift"@.len());
            assert("scene_intent"@.len() != "register_shift"@.len());
            assert("narrative_tension"@.len() != "register_shift"@.len());
            assert("motif"@.len() != "register_shift"@.len());
            assert("recurring_imagery"@.len() != "register_shift"@.len());
        },
        FindingCategory::ContinuityObservation => {
            assert("point_of_view"@.len() != "continuity_observation"@.len());
            assert("narrator_voice"@.len() != "continuity_observation"@.len());
            assert("tone"@.len() != "continuity_observation"@.len());
            assert("character_voice"@.len() != "continuity_observation"@.len());
            assert("relationship_dynamic"@.len() != "continuity_observation"@.len());
            assert("power_dynamic"@.len() != "continuity_observation"@.len());
            assert("emotional_shift"@.len() != "continuity_observation"@.len());
            assert("subtext"@.len() != "continuity_observation"@.len());
            assert("sarcasm"@.len() != "continuity_observation"@.len());
            assert("humor"@.len() != "continuity_observation"@.len());
            assert("intimacy_register"@.len() != "continuity_observation"@.len());
            assert("dialogue_function"@.len() != "continuity_observation"@.len());
            assert("scene_intent"@.len() != "continuity_observation"@.len());
            assert("narrative_tension"@.len() != "continuity_observation"@.len());
            assert("motif"@.len() != "continuity_observation"@.len());
            assert("recurring_imagery"@.len() != "continuity_observation"@.len());
            assert("register_shift"@.len() != "continuity_observation"@.len());
        },
    }
    let l = category_label(c);
    assert forall|k: int| 0 <= k < l.len() implies label_char(#[trigger] l[k]) by {
    }
    assert(ascii_lower_seq(l) =~= l) by {
        assert forall|k: int| 0 <= k < l.len() implies #[trigger] crate::text::ascii_lower(l[k]) == l[k] by {
            assert(label_char(l[k]));
        }
    }
    assert(ascii_lower_seq(l.map_values(|x: char| ascii_upper(x))) =~= l) by {
        assert forall|k: int| 0 <= k < l.len() implies #[trigger] crate::text::ascii_lower(ascii_upper(l[k])) == l[k] by {
            assert(label_char(l[k]));
        }
    }
}

impl FindingCategory {
    /// The snake_case label.
    pub fn label_str(&self) -> (r: &'static str)
        ensures
            r@ == category_label(*self),
    {
        match self {
            FindingCategory::PointOfView => "point_of_view",
            FindingCategory::NarratorVoice => "narrator_voice",
            FindingCategory::Tone => "tone",
            FindingCategory::CharacterVoice => "character_voice",
            FindingCategory::RelationshipDynamic => "relationship_dynamic",
            FindingCategory::PowerDynamic => "power_dynamic",
            FindingCategory::EmotionalShift => "emotional_shift",
            FindingCategory::Subtext => "subtext",
            FindingCategory::Sarcasm => "sarcasm",
            FindingCategory::Humor => "humor",
            FindingCategory::IntimacyRegister => "intimacy_register",
            FindingCategory::DialogueFunction => "dialogue_function",
            FindingCategory::SceneIntent => "scene_intent",
            FindingCategory::NarrativeTension => "narrative_tension",
            FindingCategory::Motif => "motif",
            FindingCategory::RecurringImagery => "recurring_imagery",
            FindingCategory::RegisterShift => "register_shift",
            FindingCategory::ContinuityObservation => "continuity_observation",
        }
    }

    /// The snake_case label as an owned string.
    pub fn to_string(&self) -> (r: String)
        ensures
            r@ == category_label(*self),
    {
        self.label_str().to_owned()
    }

    /// Every category, in declaration order.
    pub fn all() -> (r: Vec<FindingCategory>)
        ensures
            r@ == all_categories(),
    {
        let r = vec![
            FindingCategory::PointOfView,
            FindingCategory::NarratorVoice,
            FindingCategory::Tone,
            FindingCategory::CharacterVoice,
            FindingCategory::RelationshipDynamic,
            FindingCategory::PowerDynamic,
            FindingCategory::EmotionalShift,
            FindingCategory::Subtext,
            FindingCategory::Sarcasm,
            FindingCategory::Humor,
            FindingCategory::IntimacyRegister,
            FindingCategory::DialogueFunction,
            FindingCategory::SceneIntent,
            FindingCategory::NarrativeTension,
            FindingCategory::Motif,
            FindingCategory::RecurringImagery,
            FindingCategory::RegisterShift,
            FindingCategory::ContinuityObservation,
        ];
        assert(r@ =~= all_categories());
        r
    }

    /// The category whose label equals the ASCII-lowercased input.
    pub fn from_label(label: &str) -> (r: Option<FindingCategory>)
        ensures
            r == label_category(ascii_lower_seq(label@)),
            r matches Some(c) ==> category_label(c) == ascii_lower_seq(label@),
    {
        let l = ascii_lower_vec(&chars_of(label));
        if eq_str(&l, "point_of_view") {
            Some(FindingCategory::PointOfView)
        } else if eq_str(&l, "narrator_voice") {
            Some(FindingCategory::NarratorVoice)
        } else if eq_str(&l, "tone") {
            Some(FindingCategory::Tone)
        } else if eq_str(&l, "character_voice") {
            Some(FindingCategory::CharacterVoice)
        } else if eq_str(&l, "relationship_dynamic") {
            Some(FindingCategory::RelationshipDynamic)
        } else if eq_str(&l, "power_dynamic") {
            Some(FindingCategory::PowerDynamic)
        } else if eq_str(&l, "emotional_shift") {
            Some(FindingCategory::EmotionalShift)
        } else if eq_str(&l, "subtext") {
            Some(FindingCategory::Subtext)
        } else if eq_str(&l, "sarcasm") {
            Some(FindingCategory::Sarcasm)
        } else if eq_str(&l, "humor") {
            Some(FindingCategory::Humor)
        } else if eq_str(&l, "intimacy_register") {
            Some(FindingCategory::IntimacyRegister)
        } else if eq_str(&l, "dialogue_function") {
            Some(FindingCategory::DialogueFunction)
        } else if eq_str(&l, "scene_intent") {
            Some(FindingCategory::SceneIntent)
        } else if eq_str(&l, "narrative_tension") {
            Some(FindingCategory::NarrativeTension)
        } else if eq_str(&l, "motif") {
            Some(FindingCategory::Motif)
        } else if eq_str(&l, "recurring_imagery") {
            Some(FindingCategory::RecurringImagery)
        } else if eq_str(&l, "register_shift") {
            Some(FindingCategory::RegisterShift)
        } else if eq_str(&l, "continuity_observation") {
            Some(FindingCategory::ContinuityObservation)
        } else {
            None
        }
    }
}

// ---------------------------------------------------------------------------
// Narrative scope
// ---------------------------------------------------------------------------

/// Where in the manuscript a finding applies.
#[derive(Debug, Clone, PartialEq, Eq)]
pub enum NarrativeScope {
    Global,
    Chapter { chapter_id: String, chapter_index: usize },
    Scene { chapter_id: String, scene_id: String },
    ChapterRange { from_chapter_index: usize, to_chapter_index: usize },
    Character { character_name: String },
    Relationship { character_a: String, character_b: String },
}

/// The two names in ascending order (`a <= b` keeps them as given).
pub open spec fn ordered_pair(a: Seq<char>, b: Seq<char>) -> (Seq<char>, Seq<char>) {
    if !seq_lt(b, a) {
        (a, b)
    } else {
        (b, a)
    }
}

/// The ordered pair of two names does not depend on the order they are
/// given in.
pub proof fn lemma_ordered_pair_symmetric(a: Seq<char>, b: Seq<char>)
    ensures
        ordered_pair(a, b) == ordered_pair(b, a),
{
    crate::text::lemma_seq_lt_total(a, b);
    if seq_lt(a, b) && seq_lt(b, a) {
        crate::text::lemma_seq_lt_transitive(a, b, a);
        crate::text::lemma_seq_lt_irreflexive(a);
    }
}

/// A relationship's key does not depend on the order of its two names, and
/// a chapter's key does not depend on the chapter's index.
pub proof fn lemma_scope_key_order_free(a: String, b: String, id: String, i: usize, j: usize)
    ensures
        scope_key(NarrativeScope::Relationship { character_a: a, character_b: b }) == scope_key(
            NarrativeScope::Relationship { character_a: b, character_b: a },
        ),
        scope_key(NarrativeScope::Chapter { chapter_id: id, chapter_index: i }) == scope_key(
            NarrativeScope::Chapter { chapter_id: id, chapter_index: j },
        ),
{
    lemma_ordered_pair_symmetric(identity_form(a@), identity_form(b@));
}

/// The stable serialized form of a scope, used for identities and filtering.
pub open spec fn scope_key(s: NarrativeScope) -> Seq<char> {
    match s {
        NarrativeScope::Global => "global"@,
        NarrativeScope::Chapter { chapter_id, .. } => "chapter:"@ + chapter_id@,
        NarrativeScope::Scene { chapter_id, scene_id } => "scene:"@ + chapter_id@ + ":"@
            + scene_id@,
        NarrativeScope::ChapterRange { from_chapter_index, to_chapter_index } => "range:"@
            + dec_digits(from_chapter_index as nat) + "-"@ + dec_digits(to_chapter_index as nat),
        NarrativeScope::Character { character_name } => "character:"@ + identity_form(
            character_name@,
        ),
        NarrativeScope::Relationship { character_a, character_b } => {
            let p = ordered_pair(identity_form(character_a@), identity_form(character_b@));
            "relationship:"@ + p.0 + ":"@ + p.1
        },
    }
}

/// The one-based chapter numbers of a scope fit in `usize`.
pub open spec fn scope_numbers_fit(s: NarrativeScope) -> bool {
    match s {
        NarrativeScope::Chapter { chapter_index, .. } => chapter_index < usize::MAX,
        NarrativeScope::ChapterRange { from_chapter_index, to_chapter_index } => from_chapter_index
            < usize::MAX && to_chapter_index < usize::MAX,
        _ => true,
    }
}

/// The compact human-readable label of a scope.
pub open spec fn scope_label(s: NarrativeScope) -> Seq<char> {
    match s {
        NarrativeScope::Global => "global"@,
        NarrativeScope::Chapter { chapter_id, chapter_index } => "chapter "@ + dec_digits(
            (chapter_index + 1) as nat,
        ) + " ["@ + chapter_id@ + "]"@,
        NarrativeScope::Scene { chapter_id, scene_id } => "scene "@ + scene_id@ + " ["@
            + chapter_id@ + "]"@,
        NarrativeScope::ChapterRange { from_chapter_index, to_chapter_index } => "chapters "@
            + dec_digits((from_chapter_index + 1) as nat) + "–"@ + dec_digits(
            (to_chapter_index + 1) as nat,
        ),
        NarrativeScope::Character { character_name } => "character "@ + character_name@,
        NarrativeScope::Relationship { character_a, character_b } => "relationship "@
            + character_a@ + " / "@ + character_b@,
    }
}

/// The chapter ids a scope names directly.
pub open spec fn scope_chapter_ids(s: NarrativeScope) -> Seq<Seq<char>> {
    match s {
        NarrativeScope::Chapter { chapter_id, .. } => seq![chapter_id@],
        NarrativeScope::Scene { chapter_id, .. } => seq![chapter_id@],
        _ => seq![],
    }
}

/// The identity forms of two names, in ascending order.
pub fn normalized_pair(a: &str, b: &str) -> (r: (String, String))
    ensures
        (r.0@, r.1@) == ordered_pair(identity_form(a@), identity_form(b@)),
{
    let a = normalize_for_identity(a);
    let b = normalize_for_identity(b);
    let av = chars_of(a.as_str());
    let bv = chars_of(b.as_str());
    if !lt_exec(&bv, &av) {
        (a, b)
    } else {
        (b, a)
    }
}

impl NarrativeScope {
    /// A variant-by-variant copy.
    pub fn copy(&self) -> (r: NarrativeScope)
        ensures
            r == *self,
    {
        match self {
            NarrativeScope::Global => NarrativeScope::Global,
            NarrativeScope::Chapter { chapter_id, chapter_index } => NarrativeScope::Chapter {
                chapter_id: chapter_id.clone(),
                chapter_index: *chapter_index,
            },
            NarrativeScope::Scene { chapter_id, scene_id } => NarrativeScope::Scene {
                chapter_id: chapter_id.clone(),
                scene_id: scene_id.clone(),
            },
            NarrativeScope::ChapterRange { from_chapter_index, to_chapter_index } => {
                NarrativeScope::ChapterRange {
                    from_chapter_index: *from_chapter_index,
                    to_chapter_index: *to_chapter_index,
                }
            },
            NarrativeScope::Character { character_name } => NarrativeScope::Character {
                character_name: character_name.clone(),
            },
            NarrativeScope::Relationship { character_a, character_b } => {
                NarrativeScope::Relationship {
                    character_a: character_a.clone(),
                    character_b: character_b.clone(),
                }
            },
        }
    }

    /// The stable serialized form used for identity generation and filtering.
    pub fn key(&self) -> (r: String)
        ensures
            r@ == scope_key(*self),
    {
        match self {
            NarrativeScope::Global => "global".to_owned(),
            NarrativeScope::Chapter { chapter_id, .. } => {
                let mut v = chars_of("chapter:");
                extend_str(&mut v, chapter_id.as_str());
                string_of(&v)
            },
            NarrativeScope::Scene { chapter_id, scene_id } => {
                let mut v = chars_of("scene:");
                extend_str(&mut v, chapter_id.as_str());
                extend_str(&mut v, ":");
                extend_str(&mut v, scene_id.as_str());
                string_of(&v)
            },
            NarrativeScope::ChapterRange { from_chapter_index, to_chapter_index } => {
                let mut v = chars_of("range:");
                extend_all(&mut v, &dec_vec(*from_chapter_index));
                extend_str(&mut v, "-");
                extend_all(&mut v, &dec_vec(*to_chapter_index));
                string_of(&v)
            },
            NarrativeScope::Character { character_name } => {
                let mut v = chars_of("character:");
                let n = normalize_for_identity(character_name.as_str());
                extend_str(&mut v, n.as_str());
                string_of(&v)
            },
            NarrativeScope::Relationship { character_a, character_b } => {
                let (a, b) = normalized_pair(character_a.as_str(), character_b.as_str());
                let mut v = chars_of("relationship:");
                extend_str(&mut v, a.as_str());
                extend_str(&mut v, ":");
                extend_str(&mut v, b.as_str());
                string_of(&v)
            },
        }
    }

    /// The compact human-readable label used in review items and summaries.
    pub fn label(&self) -> (r: String)
        requires
            scope_numbers_fit(*self),
        ensures
            r@ == scope_label(*self),
    {
        match self {
            NarrativeScope::Global => "global".to_owned(),
            NarrativeScope::Chapter { chapter_id, chapter_index } => {
                let mut v = chars_of("chapter ");
                extend_all(&mut v, &dec_vec(*chapter_index + 1));
                extend_str(&mut v, " [");
                extend_str(&mut v, chapter_id.as_str());
                extend_str(&mut v, "]");
                string_of(&v)
            },
            NarrativeScope::Scene { chapter_id, scene_id } => {
                let mut v = chars_of("scene ");
                extend_str(&mut v, scene_id.as_str());
                extend_str(&mut v, " [");
                extend_str(&mut v, chapter_id.as_str());
                extend_str(&mut v, "]");
                string_of(&v)
            },
            NarrativeScope::ChapterRange { from_chapter_index, to_chapter_index } => {
                let mut v = chars_of("chapters ");
                extend_all(&mut v, &dec_vec(*from_chapter_index + 1));
                extend_str(&mut v, "–");
                extend_all(&mut v, &dec_vec(*to_chapter_index + 1));
                string_of(&v)
            },
            NarrativeScope::Character { character_name } => {
                let mut v = chars_of("character ");
                extend_str(&mut v, character_name.as_str());
                string_of(&v)
            },
            NarrativeScope::Relationship { character_a, character_b } => {
                let mut v = chars_of("relationship ");
                extend_str(&mut v, character_a.as_str());
                extend_str(&mut v, " / ");
                extend_str(&mut v, character_b.as_str());
                string_of(&v)
            },
        }
    }

    /// The chapter ids the scope names directly (chapter and scene scopes).
    pub fn chapter_ids(&self) -> (r: Vec<String>)
        ensures
            r@.map_values(|s: String| s@) == scope_chapter_ids(*self),
    {
        let mut r: Vec<String> = Vec::new();
        match self {
            NarrativeScope::Chapter { chapter_id, .. } => {
                r.push(chapter_id.clone());
            },
            NarrativeScope::Scene { chapter_id, .. } => {
                r.push(chapter_id.clone());
            },
            _ => {},
        }
        assert(r@.map_values(|s: String| s@) =~= scope_chapter_ids(*self));
        r
    }
}

// ---------------------------------------------------------------------------
// Confidence, evidence and provider metadata
// ---------------------------------------------------------------------------

#[derive(Debug, Clone, Copy, PartialEq, Eq, Structural, PartialOrd, Ord)]
pub enum ConfidenceLevel {
    Low,
    Moderate,
    High,
}

/// A finding's evidence, resolved to real document identifiers.
#[derive(Debug, Clone, PartialEq, Eq)]
pub struct ValidatedEvidenceRef {
    pub chapter_id: String,
    pub scene_id: String,
    pub paragraph_id: String,
    pub source: SourceLocation,
}

#[derive(Debug, Clone, PartialEq, Eq)]
pub struct ProviderMetadata {
    pub provider_name: String,
    pub model: String,
    pub prompt_version: String,
    pub analysis_schema_version: u32,
    pub configuration_fingerprint: String,
}

// ---------------------------------------------------------------------------
// Bounded analysis units
// ---------------------------------------------------------------------------

#[derive(Debug, Clone, Copy, PartialEq, Eq, Structural)]
pub enum AnalysisUnitType {
    Scene,
    Chapter,
}

/// One bounded provider request; never an entire novel.
#[derive(Debug, Clone, PartialEq, Eq)]
pub struct AnalysisUnit {
    pub unit_id: String,
    pub unit_type: AnalysisUnitType,
    pub chapter_id: String,
    pub chapter_index: usize,
    pub scene_id: Option<String>,
    /// The unit's text, each paragraph preceded by its ordinal token
    /// (`[para-3]`), so that the model can cite exactly what was supplied.
    pub text_content: String,
    pub text_fingerprint: String,
    /// Real document paragraph identifiers in presentation order.
    pub paragraph_ids: Vec<String>,
    pub previous_scene_context: Option<String>,
    pub next_scene_context: Option<String>,
    pub known_character_names: Vec<String>,
    pub known_glossary_terms: Vec<String>,
    pub source: SourceLocation,
}

/// `"para-{position + 1}"`.
pub open spec fn ordinal_token_spec(position: nat) -> Seq<char> {
    "para-"@ + dec_digits(position + 1)
}

/// The views of a vector of strings.
pub open spec fn string_views(v: Seq<String>) -> Seq<Seq<char>> {
    v.map_values(|s: String| s@)
}

/// The identity hashed into a unit id.
pub open spec fn unit_identity(
    chapter_id: Seq<char>,
    scene_id: Option<Seq<char>>,
    text_fingerprint: Seq<char>,
    chunk: nat,
) -> Seq<char> {
    match scene_id {
        Some(scene) => chapter_id + "\0"@ + scene + "\0"@ + dec_digits(chunk) + "\0"@
            + text_fingerprint,
        None => chapter_id + "\0chapter\0"@ + dec_digits(chunk) + "\0"@ + text_fingerprint,
    }
}

/// `"unit-"` followed by the SHA-256 of the unit identity.
pub open spec fn unit_id_spec(
    chapter_id: Seq<char>,
    scene_id: Option<Seq<char>>,
    text_fingerprint: Seq<char>,
    chunk: nat,
) -> Seq<char> {
    "unit-"@ + sha256_hex(encode_utf8(unit_identity(chapter_id, scene_id, text_fingerprint, chunk)))
}

/// The paragraph id behind an ordinal token `para-N` (one-based), if supplied.
pub open spec fn resolve_ordinal_spec(ids: Seq<Seq<char>>, ordinal: Seq<char>) -> Option<Seq<char>> {
    if starts_with(ordinal, "para-"@) {
        match parse_usize_spec(ordinal.skip(5)) {
            Some(n) => if n >= 1 && n - 1 < ids.len() {
                Some(ids[n - 1])
            } else {
                None
            },
            None => None,
        }
    } else {
        None
    }
}

/// Every supplied ordinal token resolves back to its paragraph: the token
/// of position `i` names the `i`-th paragraph id.
pub proof fn lemma_ordinal_round_trip(ids: Seq<Seq<char>>, i: nat)
    requires
        i < ids.len(),
        i + 1 <= usize::MAX,
    ensures
        resolve_ordinal_spec(ids, ordinal_token_spec(i)) == Some(ids[i as int]),
{
    let t = ordinal_token_spec(i);
    crate::fmt::lemma_dec_digits_value(i + 1);
    reveal_strlit("para-");
    assert(t.subrange(0, 5) =~= "para-"@);
    assert(t.skip(5) =~= dec_digits(i + 1));
    assert(crate::fmt::unsigned_digits(t.skip(5)) == dec_digits(i + 1));
}

/// The scope of a unit: its scene, or its chapter when it has no scene.
pub open spec fn unit_scope(u: AnalysisUnit) -> NarrativeScope {
    match u.scene_id {
        Some(scene_id) => NarrativeScope::Scene { chapter_id: u.chapter_id, scene_id },
        None => NarrativeScope::Chapter {
            chapter_id: u.chapter_id,
            chapter_index: u.chapter_index,
        },
    }
}

/// Hashes the UTF-8 bytes of a string.
fn hash_text(text: &String) -> (r: String)
    ensures
        r@ == sha256_hex(encode_utf8(text@)),
{
    stable_hash(text.as_str().as_bytes())
}

/// `prefix` followed by the SHA-256 of the identity.
fn prefixed_hash(prefix: &str, identity: &Vec<char>) -> (r: String)
    ensures
        r@ == prefix@ + sha256_hex(encode_utf8(identity@)),
{
    let text = string_of(identity);
    let h = hash_text(&text);
    let mut v = chars_of(prefix);
    extend_str(&mut v, h.as_str());
    string_of(&v)
}

impl AnalysisUnit {
    /// The ordinal token of the paragraph at a zero-based position.
    pub fn ordinal_token(position: usize) -> (r: String)
        requires
            position < usize::MAX,
        ensures
            r@ == ordinal_token_spec(position as nat),
    {
        let mut v = chars_of("para-");
        extend_all(&mut v, &dec_vec(position + 1));
        string_of(&v)
    }

    /// Deterministic identity of a unit, derived only from stable inputs.
    pub fn unit_id(
        chapter_id: &str,
        scene_id: Option<&str>,
        text_fingerprint: &str,
        chunk: usize,
    ) -> (r: String)
        ensures
            r@ == unit_id_spec(
                chapter_id@,
                match scene_id {
                    Some(s) => Some(s@),
                    None => None,
                },
                text_fingerprint@,
                chunk as nat,
            ),
    {
        let mut v = chars_of(chapter_id);
        match scene_id {
            Some(scene) => {
                extend_str(&mut v, "\0");
                extend_str(&mut v, scene);
                extend_str(&mut v, "\0");
            },
            None => {
                extend_str(&mut v, "\0chapter\0");
            },
        }
        extend_all(&mut v, &dec_vec(chunk));
        extend_str(&mut v, "\0");
        extend_str(&mut v, text_fingerprint);
        prefixed_hash("unit-", &v)
    }

    /// The unit's scene scope, or its chapter scope when it has no scene.
    pub fn scene_scope(&self) -> (r: NarrativeScope)
        ensures
            r == unit_scope(*self),
    {
        match &self.scene_id {
            Some(scene_id) => NarrativeScope::Scene {
                chapter_id: self.chapter_id.clone(),
                scene_id: scene_id.clone(),
            },
            None => NarrativeScope::Chapter {
                chapter_id: self.chapter_id.clone(),
                chapter_index: self.chapter_index,
            },
        }
    }

    /// The ordinal tokens actually supplied to the model, one per paragraph.
    pub fn supplied_ordinals(&self) -> (r: Vec<String>)
        ensures
            r@.len() == self.paragraph_ids@.len(),
            forall|k: int| 0 <= k < r@.len() ==> #[trigger] r@[k]@ == ordinal_token_spec(k as nat),
    {
        let mut r: Vec<String> = Vec::new();
        let mut k: usize = 0;
        while k < self.paragraph_ids.len()
            invariant
                k <= self.paragraph_ids.len(),
                r@.len() == k,
                forall|j: int| 0 <= j < k ==> #[trigger] r@[j]@ == ordinal_token_spec(j as nat),
            decreases self.paragraph_ids.len() - k,
        {
            r.push(AnalysisUnit::ordinal_token(k));
            k += 1;
        }
        r
    }

    /// The real paragraph id behind an ordinal token, if it was supplied.
    pub fn resolve_ordinal(&self, ordinal: &str) -> (r: Option<&str>)
        ensures
            match r {
                Some(id) => resolve_ordinal_spec(string_views(self.paragraph_ids@), ordinal@)
                    == Some(id@),
                None => resolve_ordinal_spec(string_views(self.paragraph_ids@), ordinal@) is None,
            },
    {
        let o = chars_of(ordinal);
        if !starts_with_str(&o, "para-") {
            return None;
        }
        proof {
            reveal_strlit("para-");
        }
        let rest = slice_vec(&o, 5, o.len());
        assert(rest@ =~= o@.skip(5));
        match parse_usize(&rest) {
            Some(n) => {
                if n >= 1 && n - 1 < self.paragraph_ids.len() {
                    Some(self.paragraph_ids[n - 1].as_str())
                } else {
                    None
                }
            },
            None => None,
        }
    }
}

// ---------------------------------------------------------------------------
// Evidence ordinals
// ---------------------------------------------------------------------------

/// `s` without its leading run of `c`.
pub open spec fn strip_leading(s: Seq<char>, c: char) -> Seq<char>
    decreases s.len(),
{
    if s.len() > 0 && s[0] == c {
        strip_leading(s.drop_first(), c)
    } else {
        s
    }
}

/// `s` without its trailing run of `c`.
pub open spec fn strip_trailing(s: Seq<char>, c: char) -> Seq<char>
    decreases s.len(),
{
    if s.len() > 0 && s.last() == c {
        strip_trailing(s.drop_last(), c)
    } else {
        s
    }
}

/// The number an ordinal names: `para-N` or `paragraph-N`.
pub open spec fn ordinal_number(t: Seq<char>) -> Option<nat> {
    if starts_with(t, "para-"@) {
        parse_usize_spec(t.skip(5))
    } else if starts_with(t, "paragraph-"@) {
        parse_usize_spec(t.skip(10))
    } else {
        None
    }
}

/// The canonical form `para-N` of an evidence ordinal, for `N >= 1`.
pub open spec fn normalized_ordinal(value: Seq<char>) -> Option<Seq<char>> {
    let token = strip_trailing(strip_leading(trim(value), '['), ']');
    match ordinal_number(token) {
        Some(n) => if n == 0 {
            None
        } else {
            Some("para-"@ + dec_digits(n))
        },
        None => None,
    }
}

/// The bounds of `s[lo..hi]` once leading `c` are removed.
fn strip_leading_range(s: &Vec<char>, lo: usize, hi: usize, c: char) -> (r: usize)
    requires
        lo <= hi <= s.len(),
    ensures
        lo <= r <= hi,
        s@.subrange(r as int, hi as int) == strip_leading(s@.subrange(lo as int, hi as int), c),
{
    let mut a = lo;
    while a < hi && s[a] == c
        invariant
            lo <= a <= hi <= s.len(),
            strip_leading(s@.subrange(a as int, hi as int), c) == strip_leading(
                s@.subrange(lo as int, hi as int),
                c,
            ),
        decreases hi - a,
    {
        assert(s@.subrange(a as int, hi as int).drop_first() =~= s@.subrange(a + 1, hi as int));
        a += 1;
    }
    a
}

/// The bounds of `s[lo..hi]` once trailing `c` are removed.
fn strip_trailing_range(s: &Vec<char>, lo: usize, hi: usize, c: char) -> (r: usize)
    requires
        lo <= hi <= s.len(),
    ensures
        lo <= r <= hi,
        s@.subrange(lo as int, r as int) == strip_trailing(s@.subrange(lo as int, hi as int), c),
{
    let mut b = hi;
    while b > lo && s[b - 1] == c
        invariant
            lo <= b <= hi <= s.len(),
            strip_trailing(s@.subrange(lo as int, b as int), c) == strip_trailing(
                s@.subrange(lo as int, hi as int),
                c,
            ),
        decreases b - lo,
    {
        assert(s@.subrange(lo as int, b as int).drop_last() =~= s@.subrange(lo as int, b - 1));
        b -= 1;
    }
    b
}

/// Canonicalizes an evidence ordinal: `[para-3]`, `para-3` and
/// `paragraph-3` all become `para-3`; anything else, and `para-0`, is refused.
pub fn normalize_ordinal(value: &str) -> (r: Option<String>)
    ensures
        match r {
            Some(t) => normalized_ordinal(value@) == Some(t@),
            None => normalized_ordinal(value@) is None,
        },
{
    let t = trim_vec(&chars_of(value));
    let a = strip_leading_range(&t, 0, t.len(), '[');
    let b = strip_trailing_range(&t, a, t.len(), ']');
    assert(t@.subrange(0, t@.len() as int) =~= t@);
    let token = slice_vec(&t, a, b);
    proof {
        reveal_strlit("para-");
        reveal_strlit("paragraph-");
    }
    let number = if starts_with_str(&token, "para-") {
        let rest = slice_vec(&token, 5, token.len());
        assert(rest@ =~= token@.skip(5));
        parse_usize(&rest)
    } else if starts_with_str(&token, "paragraph-") {
        let rest = slice_vec(&token, 10, token.len());
        assert(rest@ =~= token@.skip(10));
        parse_usize(&rest)
    } else {
        None
    };
    match number {
        Some(n) => {
            if n == 0 {
                None
            } else {
                let mut v = chars_of("para-");
                extend_all(&mut v, &dec_vec(n));
                Some(string_of(&v))
            }
        },
        None => None,
    }
}

// ---------------------------------------------------------------------------
// Prompts, canon and provider requests
// ---------------------------------------------------------------------------

#[derive(Debug, Clone, PartialEq, Eq)]
pub struct ProviderPrompt {
    pub system: String,
    pub user: String,
    pub prompt_version: String,
}

/// What is approved canon, as opposed to manuscript evidence.
#[derive(Debug, Clone)]
pub struct CanonContext {
    pub character_names: Vec<String>,
    pub character_aliases: Vec<String>,
    pub glossary_terms: Vec<String>,
    pub relationship_pairs: Vec<(String, String)>,
}

impl CanonContext {
    /// Canon with no entries.
    pub fn empty() -> (r: CanonContext)
        ensures
            r.character_names@.len() == 0,
            r.character_aliases@.len() == 0,
            r.glossary_terms@.len() == 0,
            r.relationship_pairs@.len() == 0,
    {
        CanonContext {
            character_names: Vec::new(),
            character_aliases: Vec::new(),
            glossary_terms: Vec::new(),
            relationship_pairs: Vec::new(),
        }
    }
}

#[derive(Debug, Clone)]
pub struct AnalysisProviderRequest {
    pub unit: AnalysisUnit,
    pub prompt: ProviderPrompt,
    pub categories: Vec<FindingCategory>,
    pub canon_context: CanonContext,
}

#[derive(Debug, Clone, Copy, PartialEq, Eq, Structural)]
pub struct UsageMetadata {
    pub input_tokens: usize,
    pub output_tokens: usize,
    pub total_tokens: usize,
    pub request_count: usize,
}

impl UsageMetadata {
    /// No usage.
    pub fn zero() -> (r: UsageMetadata)
        ensures
            r.input_tokens == 0 && r.output_tokens == 0 && r.total_tokens == 0 && r.request_count
                == 0,
    {
        UsageMetadata { input_tokens: 0, output_tokens: 0, total_tokens: 0, request_count: 0 }
    }

    /// Adds another usage report to this one, counter by counter.
    pub fn merge(&mut self, other: &UsageMetadata)
        requires
            old(self).input_tokens + other.input_tokens <= usize::MAX,
            old(self).output_tokens + other.output_tokens <= usize::MAX,
            old(self).total_tokens + other.total_tokens <= usize::MAX,
            old(self).request_count + other.request_count <= usize::MAX,
        ensures
            final(self).input_tokens == old(self).input_tokens + other.input_tokens,
            final(self).output_tokens == old(self).output_tokens + other.output_tokens,
            final(self).total_tokens == old(self).total_tokens + other.total_tokens,
            final(self).request_count == old(self).request_count + other.request_count,
    {
        self.input_tokens = self.input_tokens + other.input_tokens;
        self.output_tokens = self.output_tokens + other.output_tokens;
        self.total_tokens = self.total_tokens + other.total_tokens;
        self.request_count = self.request_count + other.request_count;
    }
}

#[derive(Debug, Clone, PartialEq, Eq)]
pub struct FailedUnit {
    pub unit_id: String,
    pub error: String,
    pub retryable: bool,
}

// ---------------------------------------------------------------------------
// Identities
// ---------------------------------------------------------------------------

/// The identity hashed into a finding id: unit, category, normalized subject
/// and claim, and scope key, separated by NUL.
pub open spec fn finding_identity(
    unit_id: Seq<char>,
    category: FindingCategory,
    subject: Seq<char>,
    claim: Seq<char>,
    scope: NarrativeScope,
) -> Seq<char> {
    unit_id + "\0"@ + category_label(category) + "\0"@ + identity_form(subject) + "\0"@
        + identity_form(claim) + "\0"@ + scope_key(scope)
}

/// `"finding-"` followed by the SHA-256 of the finding identity.
pub open spec fn finding_id_spec(
    unit_id: Seq<char>,
    category: FindingCategory,
    subject: Seq<char>,
    claim: Seq<char>,
    scope: NarrativeScope,
) -> Seq<char> {
    "finding-"@ + sha256_hex(encode_utf8(finding_identity(unit_id, category, subject, claim, scope)))
}

/// Stable identity of a finding. Wording is normalized before hashing, so a
/// harmless change of case, punctuation or spacing keeps the id.
pub fn finding_stable_id(
    unit_id: &str,
    category: FindingCategory,
    subject: &str,
    claim: &str,
    scope: &NarrativeScope,
) -> (r: String)
    ensures
        r@ == finding_id_spec(unit_id@, category, subject@, claim@, *scope),
{
    let mut v = chars_of(unit_id);
    extend_str(&mut v, "\0");
    extend_str(&mut v, category.label_str());
    extend_str(&mut v, "\0");
    extend_str(&mut v, normalize_for_identity(subject).as_str());
    extend_str(&mut v, "\0");
    extend_str(&mut v, normalize_for_identity(claim).as_str());
    extend_str(&mut v, "\0");
    extend_str(&mut v, scope.key().as_str());
    prefixed_hash("finding-", &v)
}

/// `"analysis-"` followed by the SHA-256 of manuscript, provider and model.
pub open spec fn analysis_id_spec(manuscript_id: Seq<char>, provider: Seq<char>, model: Seq<char>) -> Seq<char> {
    "analysis-"@ + sha256_hex(encode_utf8(manuscript_id + "\0"@ + provider + "\0"@ + model))
}

/// Stable identity of one analysis of a manuscript by a provider and model.
pub fn analysis_id(manuscript_id: &str, provider: &str, model: &str) -> (r: String)
    ensures
        r@ == analysis_id_spec(manuscript_id@, provider@, model@),
{
    let mut v = chars_of(manuscript_id);
    extend_str(&mut v, "\0");
    extend_str(&mut v, provider);
    extend_str(&mut v, "\0");
    extend_str(&mut v, model);
    prefixed_hash("analysis-", &v)
}

// ---------------------------------------------------------------------------
// Errors
// ---------------------------------------------------------------------------

#[derive(Debug, Clone, PartialEq, Eq)]
pub enum AdvancedAnalysisError {
    UnsupportedSchema(u32),
    FindingValidation(String),
    ProviderOutput(String),
    InvalidEvidenceRef(String),
    InvalidConfidence(String),
    EmptyManuscript,
    EmptyUnit,
    PromptConstruction(String),
    Configuration(String),
    CacheIo(String),
    Review(String),
}

/// The human-readable message of an analysis error.
pub open spec fn analysis_error_message(e: AdvancedAnalysisError) -> Seq<char> {
    match e {
        AdvancedAnalysisError::UnsupportedSchema(v) => "unsupported analysis schema version "@
            + dec_digits(v as nat),
        AdvancedAnalysisError::FindingValidation(m) => "finding validation failed: "@ + m@,
        AdvancedAnalysisError::ProviderOutput(m) => "provider output parse error: "@ + m@,
        AdvancedAnalysisError::InvalidEvidenceRef(m) => "evidence reference not found in supplied unit: "@
            + m@,
        AdvancedAnalysisError::InvalidConfidence(m) => "invalid confidence value: "@ + m@,
        AdvancedAnalysisError::EmptyManuscript => "manuscript has no analyzable chapters"@,
        AdvancedAnalysisError::EmptyUnit => "analysis unit has no text content"@,
        AdvancedAnalysisError::PromptConstruction(m) => "prompt construction failed: "@ + m@,
        AdvancedAnalysisError::Configuration(m) => "analysis configuration is invalid: "@ + m@,
        AdvancedAnalysisError::CacheIo(m) => "cache I/O failed: "@ + m@,
        AdvancedAnalysisError::Review(m) => "review reconciliation failed: "@ + m@,
    }
}

impl AdvancedAnalysisError {
    /// The error's message, as it is shown to the user.
    pub fn message(&self) -> (r: String)
        ensures
            r@ == analysis_error_message(*self),
    {
        let (prefix, detail): (&str, Option<&String>) = match self {
            AdvancedAnalysisError::UnsupportedSchema(v) => {
                let mut out = chars_of("unsupported analysis schema version ");
                extend_all(&mut out, &dec_vec(*v as usize));
                return string_of(&out);
            },
            AdvancedAnalysisError::FindingValidation(m) => ("finding validation failed: ", Some(m)),
            AdvancedAnalysisError::ProviderOutput(m) => ("provider output parse error: ", Some(m)),
            AdvancedAnalysisError::InvalidEvidenceRef(m) => (
                "evidence reference not found in supplied unit: ",
                Some(m),
            ),
            AdvancedAnalysisError::InvalidConfidence(m) => ("invalid confidence value: ", Some(m)),
            AdvancedAnalysisError::EmptyManuscript => ("manuscript has no analyzable chapters", None),
            AdvancedAnalysisError::EmptyUnit => ("analysis unit has no text content", None),
            AdvancedAnalysisError::PromptConstruction(m) => ("prompt construction failed: ", Some(m)),
            AdvancedAnalysisError::Configuration(m) => (
                "analysis configuration is invalid: ",
                Some(m),
            ),
            AdvancedAnalysisError::CacheIo(m) => ("cache I/O failed: ", Some(m)),
            AdvancedAnalysisError::Review(m) => ("review reconciliation failed: ", Some(m)),
        };
        let mut out = chars_of(prefix);
        match detail {
            Some(m) => extend_str(&mut out, m.as_str()),
            None => {},
        }
        string_of(&out)
    }
}

} // verus!
