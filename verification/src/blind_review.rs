//! Blind provider review: the reveal key, the evaluators' ledgers, and the
//! dossier that unblinds their judgments into counts without choosing a winner.

use vstd::prelude::*;
use vstd::string::StringSliceAdditionalSpecFns;
use vstd::utf8::encode_utf8;
use crate::fmt::{dec_digits, dec_vec};
use crate::text::{
    blank, same_text, contains_text,
    ascii_lower_seq, ascii_lower_vec, chars_of, eq_str, extend_all, extend_str, is_blank,
    lemma_seq_lt_total, lemma_seq_lt_transitive, lt_exec, seq_lt, string_of, trim, trim_vec,
    vec_eq, views,
};

verus! {

/// Current ledger schema.
pub const LEDGER_SCHEMA_VERSION: u32 = 2;

/// Current dossier schema.
pub const DOSSIER_SCHEMA_VERSION: u32 = 2;

#[derive(Debug, Clone, Copy, PartialEq, Eq, Structural, PartialOrd, Ord)]
pub enum ReviewDecision {
    Pending,
    CandidateA,
    CandidateB,
    Tie,
    Defer,
}

/// The snake_case label of a decision.
pub open spec fn decision_label_spec(d: ReviewDecision) -> Seq<char> {
    match d {
        ReviewDecision::Pending => "pending"@,
        ReviewDecision::CandidateA => "candidate_a"@,
        ReviewDecision::CandidateB => "candidate_b"@,
        ReviewDecision::Tie => "tie"@,
        ReviewDecision::Defer => "defer"@,
    }
}

/// The decision an evaluator's word names, once trimmed and lowercased.
pub open spec fn decision_named(v: Seq<char>) -> Option<ReviewDecision> {
    if v == "a"@ || v == "candidate-a"@ || v == "candidate_a"@ {
        Some(ReviewDecision::CandidateA)
    } else if v == "b"@ || v == "candidate-b"@ || v == "candidate_b"@ {
        Some(ReviewDecision::CandidateB)
    } else if v == "tie"@ {
        Some(ReviewDecision::Tie)
    } else if v == "defer"@ || v == "cannot-judge"@ || v == "cannot_judge"@ {
        Some(ReviewDecision::Defer)
    } else {
        None
    }
}

/// The snake_case label of a decision.
pub fn decision_label(decision: ReviewDecision) -> (r: &'static str)
    ensures
        r@ == decision_label_spec(decision),
{
    match decision {
        ReviewDecision::Pending => "pending",
        ReviewDecision::CandidateA => "candidate_a",
        ReviewDecision::CandidateB => "candidate_b",
        ReviewDecision::Tie => "tie",
        ReviewDecision::Defer => "defer",
    }
}

impl ReviewDecision {
    /// Reads an evaluator's decision: `a`, `b`, `tie` or `defer` and their
    /// long forms, ignoring surrounding whitespace and ASCII case.
    pub fn parse(value: &str) -> (r: Result<ReviewDecision, String>)
        ensures
            ({
                let v = ascii_lower_seq(trim(value@));
                match r {
                    Ok(d) => decision_named(v) == Some(d),
                    Err(m) => decision_named(v) is None && m@ == "unsupported decision '"@ + v
                        + "'; expected a, b, tie, or defer"@,
                }
            }),
    {
        let v = ascii_lower_vec(&trim_vec(&chars_of(value)));
        if eq_str(&v, "a") || eq_str(&v, "candidate-a") || eq_str(&v, "candidate_a") {
            Ok(ReviewDecision::CandidateA)
        } else if eq_str(&v, "b") || eq_str(&v, "candidate-b") || eq_str(&v, "candidate_b") {
            Ok(ReviewDecision::CandidateB)
        } else if eq_str(&v, "tie") {
            Ok(ReviewDecision::Tie)
        } else if eq_str(&v, "defer") || eq_str(&v, "cannot-judge") || eq_str(&v, "cannot_judge") {
            Ok(ReviewDecision::Defer)
        } else {
            let mut m = chars_of("unsupported decision '");
            extend_all(&mut m, &v);
            extend_str(&mut m, "'; expected a, b, tie, or defer");
            Err(string_of(&m))
        }
    }
}

// ---------------------------------------------------------------------------
// Inputs
// ---------------------------------------------------------------------------

#[derive(Debug, Clone)]
pub struct BlindComparisonCaseInput {
    pub case_id: String,
}

#[derive(Debug, Clone)]
pub struct BlindComparisonBundleInput {
    pub schema_version: u32,
    pub corpus_id: String,
    pub cases: Vec<BlindComparisonCaseInput>,
}

#[derive(Debug, Clone)]
pub struct BlindAssignmentInput {
    pub case_id: String,
    pub candidate_a_system: String,
    pub candidate_b_system: String,
}

#[derive(Debug, Clone)]
pub struct BlindComparisonKeyInput {
    pub schema_version: u32,
    pub corpus_id: String,
    pub bundle_sha256: Option<String>,
    pub system_one: String,
    pub system_two: String,
    pub assignments: Vec<BlindAssignmentInput>,
}

/// An evaluator's optional notes per criterion.
#[derive(Debug, Clone)]
pub struct CriterionNotes {
    pub adequacy: Option<String>,
    pub voice_style: Option<String>,
    pub cultural_pragmatic_fit: Option<String>,
    pub continuity: Option<String>,
}

impl Default for CriterionNotes {
    fn default() -> (r: CriterionNotes)
        ensures
            r.adequacy is None && r.voice_style is None && r.cultural_pragmatic_fit is None
                && r.continuity is None,
    {
        CriterionNotes {
            adequacy: None,
            voice_style: None,
            cultural_pragmatic_fit: None,
            continuity: None,
        }
    }
}

#[derive(Debug, Clone)]
pub struct BlindReviewCase {
    pub case_id: String,
    pub decision: ReviewDecision,
    pub reason: Option<String>,
    pub notes: CriterionNotes,
}

#[derive(Debug, Clone)]
pub struct BlindReviewLedger {
    pub schema_version: u32,
    pub corpus_id: String,
    pub bundle_fingerprint: String,
    pub bundle_sha256: Option<String>,
    pub reviewer: String,
    pub cases: Vec<BlindReviewCase>,
    pub instructions: Vec<String>,
}

// ---------------------------------------------------------------------------
// SHA-256 digests
// ---------------------------------------------------------------------------

/// A lowercase hexadecimal digit.
pub open spec fn is_lower_hex(c: char) -> bool {
    ('0' <= c && c <= '9') || ('a' <= c && c <= 'f')
}

/// Exactly 64 lowercase hexadecimal characters.
pub open spec fn sha256_hex_form(s: Seq<char>) -> bool {
    s.len() == 64 && forall|k: int| 0 <= k < s.len() ==> is_lower_hex(#[trigger] s[k])
}

/// Whether a text has the form of a SHA-256 digest in lowercase hexadecimal.
pub fn is_sha256_hex(s: &str) -> (r: bool)
    ensures
        r == sha256_hex_form(s@),
{
    let v = chars_of(s);
    if v.len() != 64 {
        return false;
    }
    let mut i: usize = 0;
    while i < v.len()
        invariant
            i <= v.len(),
            v@ == s@,
            forall|k: int| 0 <= k < i ==> is_lower_hex(#[trigger] v@[k]),
        decreases v.len() - i,
    {
        let c = v[i];
        if !(('0' <= c && c <= '9') || ('a' <= c && c <= 'f')) {
            return false;
        }
        i += 1;
    }
    true
}

// ---------------------------------------------------------------------------
// Bundle validation
// ---------------------------------------------------------------------------

/// The first refused case of a blind bundle, from position `k` on.
pub open spec fn bundle_case_fault(cs: Seq<BlindComparisonCaseInput>, k: int) -> Option<Seq<char>>
    decreases cs.len() - k,
{
    if k < 0 || k >= cs.len() {
        None
    } else if is_blank(cs[k].case_id@) {
        Some("blind bundle contains an empty case_id"@)
    } else if exists|j: int| 0 <= j < k && #[trigger] cs[j].case_id@ == cs[k].case_id@ {
        Some("blind bundle duplicates case '"@ + cs[k].case_id@ + "'"@)
    } else {
        bundle_case_fault(cs, k + 1)
    }
}

/// Why a blind bundle is refused, if it is.
pub open spec fn bundle_error(b: BlindComparisonBundleInput) -> Option<Seq<char>> {
    if b.schema_version != 1 {
        Some("unsupported blind bundle schema "@ + dec_digits(b.schema_version as nat)
            + "; expected 1"@)
    } else if is_blank(b.corpus_id@) {
        Some("blind bundle corpus_id is empty"@)
    } else if b.cases@.len() == 0 {
        Some("blind bundle contains no cases"@)
    } else {
        bundle_case_fault(b.cases@, 0)
    }
}

/// Whether `ids[i]` equals one of the first `i` ids.
fn seen_before(ids: &Vec<String>, i: usize) -> (r: bool)
    requires
        i < ids.len(),
    ensures
        r == exists|j: int| 0 <= j < i && #[trigger] ids@[j]@ == ids@[i as int]@,
{
    let target = chars_of(ids[i].as_str());
    let mut j: usize = 0;
    while j < i
        invariant
            j <= i < ids.len(),
            target@ == ids@[i as int]@,
            forall|q: int| 0 <= q < j ==> #[trigger] ids@[q]@ != ids@[i as int]@,
        decreases i - j,
    {
        if vec_eq(&chars_of(ids[j].as_str()), &target) {
            return true;
        }
        j += 1;
    }
    false
}

/// Checks a blind bundle: schema 1, a corpus id, and unique non-blank cases.
pub fn validate_bundle(bundle: &BlindComparisonBundleInput) -> (r: Result<(), String>)
    ensures
        match r {
            Ok(()) => bundle_error(*bundle) is None,
            Err(m) => bundle_error(*bundle) == Some(m@),
        },
{
    if bundle.schema_version != 1 {
        let mut m = chars_of("unsupported blind bundle schema ");
        extend_all(&mut m, &dec_vec(bundle.schema_version as usize));
        extend_str(&mut m, "; expected 1");
        return Err(string_of(&m));
    }
    if trim_vec(&chars_of(bundle.corpus_id.as_str())).len() == 0 {
        return Err("blind bundle corpus_id is empty".to_owned());
    }
    if bundle.cases.len() == 0 {
        return Err("blind bundle contains no cases".to_owned());
    }
    let mut ids: Vec<String> = Vec::new();
    let mut k: usize = 0;
    while k < bundle.cases.len()
        invariant
            k <= bundle.cases.len(),
            ids@.len() == k,
            forall|j: int| 0 <= j < k ==> #[trigger] ids@[j] == bundle.cases@[j].case_id,
            bundle_case_fault(bundle.cases@, k as int) == bundle_case_fault(bundle.cases@, 0),
            bundle.schema_version == 1,
            !is_blank(bundle.corpus_id@),
            bundle.cases@.len() > 0,
        decreases bundle.cases.len() - k,
    {
        let id = &bundle.cases[k].case_id;
        if trim_vec(&chars_of(id.as_str())).len() == 0 {
            return Err("blind bundle contains an empty case_id".to_owned());
        }
        ids.push(id.clone());
        if seen_before(&ids, k) {
            proof {
                let j = choose|j: int| 0 <= j < k && #[trigger] ids@[j]@ == ids@[k as int]@;
                assert(bundle.cases@[j].case_id@ == bundle.cases@[k as int].case_id@);
            }
            let mut m = chars_of("blind bundle duplicates case '");
            extend_str(&mut m, id.as_str());
            extend_str(&mut m, "'");
            return Err(string_of(&m));
        }
        assert(!exists|j: int| 0 <= j < k && #[trigger] bundle.cases@[j].case_id@
            == bundle.cases@[k as int].case_id@) by {
            if exists|j: int| 0 <= j < k && #[trigger] bundle.cases@[j].case_id@
                == bundle.cases@[k as int].case_id@ {
                let j = choose|j: int| 0 <= j < k && #[trigger] bundle.cases@[j].case_id@
                    == bundle.cases@[k as int].case_id@;
                assert(ids@[j]@ == ids@[k as int]@);
            }
        }
        k += 1;
    }
    Ok(())
}

// ---------------------------------------------------------------------------
// Reveal key validation
// ---------------------------------------------------------------------------

/// Why the reveal key's schema or digest binding is refused, if it is.
pub open spec fn key_schema_fault(k: BlindComparisonKeyInput) -> Option<Seq<char>> {
    if !(k.schema_version == 1 || k.schema_version == 2) {
        Some("unsupported reveal-key schema "@ + dec_digits(k.schema_version as nat)
            + "; expected 1 or 2"@)
    } else if k.schema_version == 2 {
        match k.bundle_sha256 {
            None => Some("reveal-key schema 2 requires bundle_sha256"@),
            Some(d) => if !sha256_hex_form(d@) {
                Some("reveal-key bundle_sha256 must be 64 lowercase hexadecimal characters"@)
            } else {
                None
            },
        }
    } else if k.bundle_sha256 is Some {
        Some("reveal-key schema 1 must not claim a schema-2 bundle_sha256 binding"@)
    } else {
        None
    }
}

/// One of the key's two systems.
pub open spec fn known_system(one: Seq<char>, two: Seq<char>, s: Seq<char>) -> bool {
    s == one || s == two
}

/// The first refused assignment of a reveal key, from position `k` on.
pub open spec fn assignment_fault(
    asg: Seq<BlindAssignmentInput>,
    one: Seq<char>,
    two: Seq<char>,
    k: int,
) -> Option<Seq<char>>
    decreases asg.len() - k,
{
    if k < 0 || k >= asg.len() {
        None
    } else if exists|j: int| 0 <= j < k && #[trigger] asg[j].case_id@ == asg[k].case_id@ {
        Some("reveal key duplicates case '"@ + asg[k].case_id@ + "'"@)
    } else if asg[k].candidate_a_system@ == asg[k].candidate_b_system@ {
        Some("reveal key maps both candidates to one system for case '"@ + asg[k].case_id@ + "'"@)
    } else if !known_system(one, two, asg[k].candidate_a_system@) || !known_system(
        one,
        two,
        asg[k].candidate_b_system@,
    ) {
        Some("reveal key references an unknown system for case '"@ + asg[k].case_id@ + "'"@)
    } else {
        assignment_fault(asg, one, two, k + 1)
    }
}

/// Why a reveal key is refused, if it is.
pub open spec fn key_error(k: BlindComparisonKeyInput) -> Option<Seq<char>> {
    if key_schema_fault(k) is Some {
        key_schema_fault(k)
    } else if is_blank(k.corpus_id@) {
        Some("reveal key corpus_id is empty"@)
    } else if is_blank(k.system_one@) || is_blank(k.system_two@) {
        Some("reveal key contains an empty system id"@)
    } else if k.system_one@ == k.system_two@ {
        Some("reveal key must describe two distinct systems"@)
    } else if k.assignments@.len() == 0 {
        Some("reveal key contains no assignments"@)
    } else {
        assignment_fault(k.assignments@, k.system_one@, k.system_two@, 0)
    }
}

/// `prefix + id + suffix` as a `String`.
fn framed(prefix: &str, id: &str, suffix: &str) -> (r: String)
    ensures
        r@ == prefix@ + id@ + suffix@,
{
    let mut m = chars_of(prefix);
    extend_str(&mut m, id);
    extend_str(&mut m, suffix);
    string_of(&m)
}

/// Checks a reveal key: schema 1 or 2 (2 binds the bundle's SHA-256), a
/// corpus id, two distinct systems, and for each unique case one candidate
/// per system.
pub fn validate_key(key: &BlindComparisonKeyInput) -> (r: Result<(), String>)
    ensures
        match r {
            Ok(()) => key_error(*key) is None,
            Err(m) => key_error(*key) == Some(m@),
        },
{
    if !(key.schema_version == 1 || key.schema_version == 2) {
        let mut m = chars_of("unsupported reveal-key schema ");
        extend_all(&mut m, &dec_vec(key.schema_version as usize));
        extend_str(&mut m, "; expected 1 or 2");
        return Err(string_of(&m));
    }
    if key.schema_version == 2 {
        match &key.bundle_sha256 {
            None => {
                return Err("reveal-key schema 2 requires bundle_sha256".to_owned());
            },
            Some(d) => {
                if !is_sha256_hex(d.as_str()) {
                    return Err(
                        "reveal-key bundle_sha256 must be 64 lowercase hexadecimal characters".to_owned(),
                    );
                }
            },
        }
    } else if key.bundle_sha256.is_some() {
        return Err("reveal-key schema 1 must not claim a schema-2 bundle_sha256 binding".to_owned());
    }
    if blank(&key.corpus_id) {
        return Err("reveal key corpus_id is empty".to_owned());
    }
    if blank(&key.system_one) || blank(&key.system_two) {
        return Err("reveal key contains an empty system id".to_owned());
    }
    if same_text(&key.system_one, &key.system_two) {
        return Err("reveal key must describe two distinct systems".to_owned());
    }
    if key.assignments.len() == 0 {
        return Err("reveal key contains no assignments".to_owned());
    }
    let ghost asg = key.assignments@;
    let mut ids: Vec<String> = Vec::new();
    let mut k: usize = 0;
    while k < key.assignments.len()
        invariant
            k <= key.assignments.len(),
            asg == key.assignments@,
            ids@.len() == k,
            forall|j: int| 0 <= j < k ==> #[trigger] ids@[j] == asg[j].case_id,
            assignment_fault(asg, key.system_one@, key.system_two@, k as int) == key_error(*key),
        decreases key.assignments.len() - k,
    {
        let a = &key.assignments[k];
        ids.push(a.case_id.clone());
        if seen_before(&ids, k) {
            proof {
                let j = choose|j: int| 0 <= j < k && #[trigger] ids@[j]@ == ids@[k as int]@;
                assert(asg[j].case_id@ == asg[k as int].case_id@);
            }
            return Err(framed("reveal key duplicates case '", a.case_id.as_str(), "'"));
        }
        assert(!exists|j: int| 0 <= j < k && #[trigger] asg[j].case_id@ == asg[k as int].case_id@)
            by {
            if exists|j: int| 0 <= j < k && #[trigger] asg[j].case_id@ == asg[k as int].case_id@ {
                let j = choose|j: int| 0 <= j < k && #[trigger] asg[j].case_id@ == asg[k as int].case_id@;
                assert(ids@[j]@ == ids@[k as int]@);
            }
        }
        if same_text(&a.candidate_a_system, &a.candidate_b_system) {
            return Err(
                framed(
                    "reveal key maps both candidates to one system for case '",
                    a.case_id.as_str(),
                    "'",
                ),
            );
        }
        let a_known = same_text(&a.candidate_a_system, &key.system_one) || same_text(
            &a.candidate_a_system,
            &key.system_two,
        );
        let b_known = same_text(&a.candidate_b_system, &key.system_one) || same_text(
            &a.candidate_b_system,
            &key.system_two,
        );
        if !a_known || !b_known {
            return Err(
                framed(
                    "reveal key references an unknown system for case '",
                    a.case_id.as_str(),
                    "'",
                ),
            );
        }
        k += 1;
    }
    Ok(())
}

// ---------------------------------------------------------------------------
// Ledger validation
// ---------------------------------------------------------------------------

/// Why a ledger's schema or digest binding is refused, if it is.
pub open spec fn ledger_schema_fault(l: BlindReviewLedger) -> Option<Seq<char>> {
    if !(l.schema_version == 1 || l.schema_version == 2) {
        Some("unsupported ledger schema "@ + dec_digits(l.schema_version as nat)
            + "; expected 1 or 2"@)
    } else if l.schema_version == 2 {
        match l.bundle_sha256 {
            None => Some("ledger schema 2 requires bundle_sha256"@),
            Some(d) => if !sha256_hex_form(d@) {
                Some("ledger bundle_sha256 must be 64 lowercase hexadecimal characters"@)
            } else {
                None
            },
        }
    } else if l.bundle_sha256 is Some {
        Some("ledger schema 1 must not claim a schema-2 bundle_sha256 binding"@)
    } else {
        None
    }
}

/// A reason that is present and not blank.
pub open spec fn has_reason(r: Option<String>) -> bool {
    r matches Some(s) && !is_blank(s@)
}

/// The first refused case of a ledger, from position `k` on.
pub open spec fn ledger_case_fault(cs: Seq<BlindReviewCase>, k: int) -> Option<Seq<char>>
    decreases cs.len() - k,
{
    if k < 0 || k >= cs.len() {
        None
    } else if exists|j: int| 0 <= j < k && #[trigger] cs[j].case_id@ == cs[k].case_id@ {
        Some("ledger duplicates case '"@ + cs[k].case_id@ + "'"@)
    } else if cs[k].decision == ReviewDecision::Pending && cs[k].reason is Some {
        Some("pending case '"@ + cs[k].case_id@ + "' must not carry a judgment reason"@)
    } else if cs[k].decision != ReviewDecision::Pending && !has_reason(cs[k].reason) {
        Some("completed case '"@ + cs[k].case_id@ + "' is missing a judgment reason"@)
    } else {
        ledger_case_fault(cs, k + 1)
    }
}

/// Why a ledger is refused, if it is.
pub open spec fn ledger_error(l: BlindReviewLedger) -> Option<Seq<char>> {
    if ledger_schema_fault(l) is Some {
        ledger_schema_fault(l)
    } else if is_blank(l.corpus_id@) || is_blank(l.bundle_fingerprint@) || is_blank(l.reviewer@) {
        Some("ledger identity fields must not be empty"@)
    } else if l.cases@.len() == 0 {
        Some("ledger contains no cases"@)
    } else {
        ledger_case_fault(l.cases@, 0)
    }
}

/// Checks a review ledger: schema 1 or 2 (2 binds the bundle's SHA-256),
/// identity fields, unique cases, and a reason exactly for decided cases.
pub fn validate_ledger(ledger: &BlindReviewLedger) -> (r: Result<(), String>)
    ensures
        match r {
            Ok(()) => ledger_error(*ledger) is None,
            Err(m) => ledger_error(*ledger) == Some(m@),
        },
{
    if !(ledger.schema_version == 1 || ledger.schema_version == 2) {
        let mut m = chars_of("unsupported ledger schema ");
        extend_all(&mut m, &dec_vec(ledger.schema_version as usize));
        extend_str(&mut m, "; expected 1 or 2");
        return Err(string_of(&m));
    }
    if ledger.schema_version == 2 {
        match &ledger.bundle_sha256 {
            None => {
                return Err("ledger schema 2 requires bundle_sha256".to_owned());
            },
            Some(d) => {
                if !is_sha256_hex(d.as_str()) {
                    return Err(
                        "ledger bundle_sha256 must be 64 lowercase hexadecimal characters".to_owned(),
                    );
                }
            },
        }
    } else if ledger.bundle_sha256.is_some() {
        return Err("ledger schema 1 must not claim a schema-2 bundle_sha256 binding".to_owned());
    }
    if blank(&ledger.corpus_id) || blank(&ledger.bundle_fingerprint) || blank(&ledger.reviewer) {
        return Err("ledger identity fields must not be empty".to_owned());
    }
    if ledger.cases.len() == 0 {
        return Err("ledger contains no cases".to_owned());
    }
    let ghost cs = ledger.cases@;
    let mut ids: Vec<String> = Vec::new();
    let mut k: usize = 0;
    while k < ledger.cases.len()
        invariant
            k <= ledger.cases.len(),
            cs == ledger.cases@,
            ids@.len() == k,
            forall|j: int| 0 <= j < k ==> #[trigger] ids@[j] == cs[j].case_id,
            ledger_case_fault(cs, k as int) == ledger_error(*ledger),
        decreases ledger.cases.len() - k,
    {
        let c = &ledger.cases[k];
        ids.push(c.case_id.clone());
        if seen_before(&ids, k) {
            proof {
                let j = choose|j: int| 0 <= j < k && #[trigger] ids@[j]@ == ids@[k as int]@;
                assert(cs[j].case_id@ == cs[k as int].case_id@);
            }
            return Err(framed("ledger duplicates case '", c.case_id.as_str(), "'"));
        }
        assert(!exists|j: int| 0 <= j < k && #[trigger] cs[j].case_id@ == cs[k as int].case_id@)
            by {
            if exists|j: int| 0 <= j < k && #[trigger] cs[j].case_id@ == cs[k as int].case_id@ {
                let j = choose|j: int| 0 <= j < k && #[trigger] cs[j].case_id@ == cs[k as int].case_id@;
                assert(ids@[j]@ == ids@[k as int]@);
            }
        }
        match c.decision {
            ReviewDecision::Pending => {
                if c.reason.is_some() {
                    return Err(
                        framed(
                            "pending case '",
                            c.case_id.as_str(),
                            "' must not carry a judgment reason",
                        ),
                    );
                }
            },
            _ => {
                let ok = match &c.reason {
                    Some(reason) => !blank(reason),
                    None => false,
                };
                if !ok {
                    return Err(
                        framed(
                            "completed case '",
                            c.case_id.as_str(),
                            "' is missing a judgment reason",
                        ),
                    );
                }
            },
        }
        k += 1;
    }
    Ok(())
}

/// An ASCII letter or digit, or one of `. _ @ + - :`.
pub open spec fn principal_byte(b: u8) -> bool {
    (48 <= b <= 57) || (65 <= b <= 90) || (97 <= b <= 122) || b == 46 || b == 95 || b == 64
        || b == 43 || b == 45 || b == 58
}

/// Why an evaluator name cannot serve as an authenticated principal, if it
/// cannot.
pub open spec fn principal_error(reviewer: Seq<char>) -> Option<Seq<char>> {
    let bytes = encode_utf8(reviewer);
    if reviewer != trim(reviewer) {
        Some("authenticated evaluator principal must not contain leading or trailing whitespace"@)
    } else if bytes.len() == 0 || bytes.len() > 128 {
        Some("authenticated evaluator principal must contain 1..=128 bytes"@)
    } else if !(forall|k: int| 0 <= k < bytes.len() ==> principal_byte(#[trigger] bytes[k])) {
        Some("authenticated evaluator principal may contain only ASCII letters, digits, '.', '_', '@', '+', '-', or ':'"@)
    } else {
        None
    }
}

/// Checks that an evaluator name is a well-formed signing principal.
pub fn validate_reviewer_principal(reviewer: &str) -> (r: Result<(), String>)
    ensures
        match r {
            Ok(()) => principal_error(reviewer@) is None,
            Err(m) => principal_error(reviewer@) == Some(m@),
        },
{
    let v = chars_of(reviewer);
    let t = trim_vec(&v);
    if !vec_eq(&v, &t) {
        return Err(
            "authenticated evaluator principal must not contain leading or trailing whitespace".to_owned(),
        );
    }
    let bytes = reviewer.as_bytes();
    if bytes.len() == 0 || bytes.len() > 128 {
        return Err("authenticated evaluator principal must contain 1..=128 bytes".to_owned());
    }
    let mut i: usize = 0;
    while i < bytes.len()
        invariant
            i <= bytes@.len(),
            bytes@ == encode_utf8(reviewer@),
            reviewer@ == trim(reviewer@),
            0 < bytes@.len() <= 128,
            forall|k: int| 0 <= k < i ==> principal_byte(#[trigger] bytes@[k]),
        decreases bytes.len() - i,
    {
        let b = bytes[i];
        if !((48 <= b && b <= 57) || (65 <= b && b <= 90) || (97 <= b && b <= 122) || b == 46
            || b == 95 || b == 64 || b == 43 || b == 45 || b == 58) {
            assert(!principal_byte(bytes@[i as int]));
            return Err(
                "authenticated evaluator principal may contain only ASCII letters, digits, '.', '_', '@', '+', '-', or ':'".to_owned(),
            );
        }
        i += 1;
    }
    Ok(())
}

/// The first pending case of a ledger, from position `k` on.
pub open spec fn first_pending(cs: Seq<BlindReviewCase>, k: int) -> Option<Seq<char>>
    decreases cs.len() - k,
{
    if k < 0 || k >= cs.len() {
        None
    } else if cs[k].decision == ReviewDecision::Pending {
        Some(cs[k].case_id@)
    } else {
        first_pending(cs, k + 1)
    }
}

/// The id of the first pending case of a ledger, if any.
fn find_pending(cases: &Vec<BlindReviewCase>) -> (r: Option<usize>)
    ensures
        match r {
            Some(k) => k < cases@.len() && first_pending(cases@, 0) == Some(
                cases@[k as int].case_id@,
            ),
            None => first_pending(cases@, 0) is None,
        },
{
    let mut k: usize = 0;
    while k < cases.len()
        invariant
            k <= cases.len(),
            first_pending(cases@, k as int) == first_pending(cases@, 0),
        decreases cases.len() - k,
    {
        if cases[k].decision == ReviewDecision::Pending {
            return Some(k);
        }
        k += 1;
    }
    None
}

/// Why a ledger cannot be signed by its evaluator, if it cannot.
pub open spec fn authenticatable_error(l: BlindReviewLedger) -> Option<Seq<char>> {
    if ledger_error(l) is Some {
        ledger_error(l)
    } else if l.schema_version != LEDGER_SCHEMA_VERSION {
        Some("evaluator authentication requires a schema-2 review ledger"@)
    } else if first_pending(l.cases@, 0) is Some {
        Some("evaluator authentication requires a completed ledger; case '"@ + first_pending(
            l.cases@,
            0,
        )->0 + "' is still pending"@)
    } else {
        principal_error(l.reviewer@)
    }
}

/// Checks that a ledger can carry its evaluator's signature: valid, schema 2,
/// complete, and signed by a well-formed principal.
pub fn validate_authenticatable_ledger(ledger: &BlindReviewLedger) -> (r: Result<(), String>)
    ensures
        match r {
            Ok(()) => authenticatable_error(*ledger) is None,
            Err(m) => authenticatable_error(*ledger) == Some(m@),
        },
{
    match validate_ledger(ledger) {
        Err(m) => {
            return Err(m);
        },
        Ok(()) => {},
    }
    if ledger.schema_version != LEDGER_SCHEMA_VERSION {
        return Err("evaluator authentication requires a schema-2 review ledger".to_owned());
    }
    match find_pending(&ledger.cases) {
        Some(k) => {
            return Err(
                framed(
                    "evaluator authentication requires a completed ledger; case '",
                    ledger.cases[k].case_id.as_str(),
                    "' is still pending",
                ),
            );
        },
        None => {},
    }
    validate_reviewer_principal(ledger.reviewer.as_str())
}

// ---------------------------------------------------------------------------
// Dossier
// ---------------------------------------------------------------------------

/// Human comparative evidence unblinded into counts. It never names a winner
/// and never grants production admission.
#[derive(Debug, Clone)]
pub struct ProviderReviewDossier {
    pub schema_version: u32,
    pub corpus_id: String,
    pub bundle_fingerprint: String,
    pub bundle_sha256: Option<String>,
    /// The evaluators, in ascending order.
    pub reviewers: Vec<String>,
    pub review_ledgers: usize,
    pub cases_total: usize,
    pub judgments_total: usize,
    pub preference_judgments: usize,
    pub ties: usize,
    pub deferred: usize,
    pub cases_with_multiple_reviews: usize,
    pub unanimous_cases: usize,
    pub disagreement_cases: usize,
    /// Preferences per system, in ascending order of system id.
    pub system_preference_counts: Vec<(String, usize)>,
    pub system_one: String,
    pub system_two: String,
    pub automatic_winner: Option<String>,
    pub human_comparative_evidence_only: bool,
    pub production_admission: &'static str,
    pub requires_explicit_admission_decision: bool,
    pub reveal_binding: &'static str,
    pub notes: Vec<&'static str>,
}

pub const BINDING_V2: &'static str = "phase36-key-schema-v2: SHA-256 binds the exact blind-bundle bytes to the reveal key and schema-2 ledgers";

pub const BINDING_V1: &'static str = "phase31-key-schema-v1: corpus_id + exact case-id set; ledger bundle fingerprint binds evaluators to the same blind bundle";

pub const NOTE_COUNTS: &'static str = "Preference counts summarize recorded human comparative judgments; they are not an automatic provider-selection decision.";

pub const NOTE_TIES: &'static str = "Ties and deferrals remain first-class evidence and are not forced into a winner.";

pub const NOTE_DISAGREEMENT: &'static str = "Disagreement is reported rather than erased because literary translation can admit multiple defensible readings.";

pub const NOTE_ADMISSION: &'static str = "Production admission remains separate and must include privacy/retention, cost, reliability, rights, and explicit authorization review.";

pub const NOTE_PRIVACY: &'static str = "Do not use private manuscripts in this research workflow.";

/// Every judgment of the ledgers, in order: case id and decision.
pub open spec fn judgments(ls: Seq<BlindReviewLedger>) -> Seq<(Seq<char>, ReviewDecision)>
    decreases ls.len(),
{
    if ls.len() == 0 {
        seq![]
    } else {
        judgments(ls.drop_last()) + ls.last().cases@.map_values(
            |c: BlindReviewCase| (c.case_id@, c.decision),
        )
    }
}

/// The position of the first assignment of case `c`, from `k` on, or -1.
pub open spec fn assignment_index(asg: Seq<BlindAssignmentInput>, c: Seq<char>, k: int) -> int
    decreases asg.len() - k,
{
    if k < 0 || k >= asg.len() {
        -1
    } else if asg[k].case_id@ == c {
        k
    } else {
        assignment_index(asg, c, k + 1)
    }
}

/// The judgment prefers system `s`: its candidate was assigned to `s`.
pub open spec fn picks(asg: Seq<BlindAssignmentInput>, j: (Seq<char>, ReviewDecision), s: Seq<char>) -> bool {
    let k = assignment_index(asg, j.0, 0);
    0 <= k < asg.len() && ((j.1 == ReviewDecision::CandidateA && asg[k].candidate_a_system@ == s)
        || (j.1 == ReviewDecision::CandidateB && asg[k].candidate_b_system@ == s))
}

/// The number of judgments with decision `d`.
pub open spec fn decision_count(js: Seq<(Seq<char>, ReviewDecision)>, d: ReviewDecision) -> nat {
    js.filter(|j: (Seq<char>, ReviewDecision)| j.1 == d).len()
}

/// The number of judgments that prefer one candidate.
pub open spec fn preference_count(js: Seq<(Seq<char>, ReviewDecision)>) -> nat {
    js.filter(
        |j: (Seq<char>, ReviewDecision)|
            j.1 == ReviewDecision::CandidateA || j.1 == ReviewDecision::CandidateB,
    ).len()
}

/// The number of judgments that prefer system `s`.
pub open spec fn system_preferences(
    asg: Seq<BlindAssignmentInput>,
    js: Seq<(Seq<char>, ReviewDecision)>,
    s: Seq<char>,
) -> nat {
    js.filter(|j: (Seq<char>, ReviewDecision)| picks(asg, j, s)).len()
}

/// The decisions on case `c` other than deferrals, in order.
pub open spec fn comparable(js: Seq<(Seq<char>, ReviewDecision)>, c: Seq<char>) -> Seq<ReviewDecision> {
    js.filter(|j: (Seq<char>, ReviewDecision)| j.0 == c && j.1 != ReviewDecision::Defer).map_values(
        |j: (Seq<char>, ReviewDecision)| j.1,
    )
}

/// At least two comparable judgments on the case.
pub open spec fn reviewed_twice(js: Seq<(Seq<char>, ReviewDecision)>, c: Seq<char>) -> bool {
    comparable(js, c).len() >= 2
}

/// All comparable judgments on the case agree.
pub open spec fn agreed(js: Seq<(Seq<char>, ReviewDecision)>, c: Seq<char>) -> bool {
    forall|i: int| 0 <= i < comparable(js, c).len() ==> #[trigger] comparable(js, c)[i] == comparable(js, c)[0]
}

/// Cases reviewed at least twice.
pub open spec fn multi_reviewed(asg: Seq<BlindAssignmentInput>, js: Seq<(Seq<char>, ReviewDecision)>) -> nat {
    asg.filter(|a: BlindAssignmentInput| reviewed_twice(js, a.case_id@)).len()
}

/// Cases reviewed at least twice on which the evaluators agree.
pub open spec fn unanimous(asg: Seq<BlindAssignmentInput>, js: Seq<(Seq<char>, ReviewDecision)>) -> nat {
    asg.filter(|a: BlindAssignmentInput| reviewed_twice(js, a.case_id@) && agreed(js, a.case_id@)).len()
}

/// Cases reviewed at least twice on which the evaluators disagree.
pub open spec fn disagreements(asg: Seq<BlindAssignmentInput>, js: Seq<(Seq<char>, ReviewDecision)>) -> nat {
    asg.filter(|a: BlindAssignmentInput| reviewed_twice(js, a.case_id@) && !agreed(js, a.case_id@)).len()
}

/// Case `c` is assigned by the key.
pub open spec fn assigned(asg: Seq<BlindAssignmentInput>, c: Seq<char>) -> bool {
    exists|k: int| 0 <= k < asg.len() && #[trigger] asg[k].case_id@ == c
}

/// Case `c` is judged in the ledger.
pub open spec fn judged(cs: Seq<BlindReviewCase>, c: Seq<char>) -> bool {
    exists|i: int| 0 <= i < cs.len() && #[trigger] cs[i].case_id@ == c
}

/// The ledger judges exactly the cases the key assigns.
pub open spec fn same_case_ids(cs: Seq<BlindReviewCase>, asg: Seq<BlindAssignmentInput>) -> bool {
    &&& forall|i: int| 0 <= i < cs.len() ==> assigned(asg, #[trigger] cs[i].case_id@)
    &&& forall|k: int| 0 <= k < asg.len() ==> judged(cs, #[trigger] asg[k].case_id@)
}

/// Both digests are present and equal.
pub open spec fn same_digest(a: Option<String>, b: Option<String>) -> bool {
    a matches Some(x) && b matches Some(y) && x@ == y@
}

/// Why ledger `i` cannot join the dossier, given the ledgers before it.
pub open spec fn ledger_fault(key: BlindComparisonKeyInput, ls: Seq<BlindReviewLedger>, i: int) -> Option<Seq<char>> {
    let l = ls[i];
    let who = "ledger for evaluator '"@ + l.reviewer@;
    if ledger_error(l) is Some {
        ledger_error(l)
    } else if l.corpus_id@ != key.corpus_id@ {
        Some(who + "' targets corpus '"@ + l.corpus_id@ + "' but key targets '"@ + key.corpus_id@
            + "'"@)
    } else if l.bundle_fingerprint@ != ls[0].bundle_fingerprint@ {
        Some(who + "' was created from a different blind bundle"@)
    } else if key.schema_version == 2 && !(l.schema_version == LEDGER_SCHEMA_VERSION
        && same_digest(l.bundle_sha256, key.bundle_sha256)) {
        Some(who + "' is not bound to the schema-2 reveal key bundle SHA-256"@)
    } else if exists|j: int| 0 <= j < i && #[trigger] ls[j].reviewer@ == l.reviewer@ {
        Some("evaluator '"@ + l.reviewer@
            + "' appears more than once; duplicate ledgers would double-count judgments"@)
    } else if !same_case_ids(l.cases@, key.assignments@) {
        Some(who + "' does not match reveal-key case ids"@)
    } else if first_pending(l.cases@, 0) is Some {
        Some(who + "' is incomplete; case '"@ + first_pending(l.cases@, 0)->0 + "' is still pending"@)
    } else {
        None
    }
}

/// The first ledger fault from position `i` on.
pub open spec fn ledgers_fault(key: BlindComparisonKeyInput, ls: Seq<BlindReviewLedger>, i: int) -> Option<Seq<char>>
    decreases ls.len() - i,
{
    if i < 0 || i >= ls.len() {
        None
    } else if ledger_fault(key, ls, i) is Some {
        ledger_fault(key, ls, i)
    } else {
        ledgers_fault(key, ls, i + 1)
    }
}

/// Why no dossier can be built from the key and ledgers, if none can.
pub open spec fn dossier_error(key: BlindComparisonKeyInput, ls: Seq<BlindReviewLedger>) -> Option<Seq<char>> {
    if key_error(key) is Some {
        key_error(key)
    } else if ls.len() == 0 {
        Some("at least one ledger is required"@)
    } else if ledger_error(ls[0]) is Some {
        ledger_error(ls[0])
    } else {
        ledgers_fault(key, ls, 0)
    }
}

/// Strictly ascending texts.
pub open spec fn ascending(v: Seq<Seq<char>>) -> bool {
    forall|a: int, b: int| 0 <= a < b < v.len() ==> seq_lt(#[trigger] v[a], #[trigger] v[b])
}

/// The judgments of a flattened vector.
pub open spec fn pairs(v: Seq<(String, ReviewDecision)>) -> Seq<(Seq<char>, ReviewDecision)> {
    v.map_values(|p: (String, ReviewDecision)| (p.0@, p.1))
}

/// What the dossier holds when it can be built.
pub open spec fn dossier_holds(
    d: ProviderReviewDossier,
    key: BlindComparisonKeyInput,
    ls: Seq<BlindReviewLedger>,
) -> bool {
    let js = judgments(ls);
    let asg = key.assignments@;
    let one = key.system_one@;
    let two = key.system_two@;
    &&& d.schema_version == (if key.schema_version == 2 {
        DOSSIER_SCHEMA_VERSION
    } else {
        1u32
    })
    &&& d.corpus_id@ == key.corpus_id@
    &&& d.bundle_fingerprint@ == ls[0].bundle_fingerprint@
    &&& (if key.schema_version == 2 {
        same_digest(d.bundle_sha256, key.bundle_sha256)
    } else {
        d.bundle_sha256 is None
    })
    &&& ascending(views(d.reviewers@))
    &&& d.reviewers@.len() == ls.len()
    &&& (forall|r: Seq<char>|
        views(d.reviewers@).contains(r) <==> exists|i: int|
            0 <= i < ls.len() && #[trigger] ls[i].reviewer@ == r)
    &&& d.review_ledgers == ls.len()
    &&& d.cases_total == asg.len()
    &&& d.judgments_total == js.len()
    &&& d.preference_judgments == preference_count(js)
    &&& d.ties == decision_count(js, ReviewDecision::Tie)
    &&& d.deferred == decision_count(js, ReviewDecision::Defer)
    &&& d.cases_with_multiple_reviews == multi_reviewed(asg, js)
    &&& d.unanimous_cases == unanimous(asg, js)
    &&& d.disagreement_cases == disagreements(asg, js)
    &&& d.system_preference_counts@.len() == 2
    &&& (if seq_lt(two, one) {
        &&& d.system_preference_counts@[0].0@ == two
        &&& d.system_preference_counts@[1].0@ == one
    } else {
        &&& d.system_preference_counts@[0].0@ == one
        &&& d.system_preference_counts@[1].0@ == two
    })
    &&& d.system_preference_counts@[0].1 == system_preferences(asg, js, d.system_preference_counts@[0].0@)
    &&& d.system_preference_counts@[1].1 == system_preferences(asg, js, d.system_preference_counts@[1].0@)
    &&& d.system_one@ == one
    &&& d.system_two@ == two
    &&& d.automatic_winner is None
    &&& d.human_comparative_evidence_only
    &&& d.production_admission@ == "not_granted"@
    &&& d.requires_explicit_admission_decision
    &&& d.reveal_binding@ == (if key.schema_version == 2 {
        BINDING_V2@
    } else {
        BINDING_V1@
    })
    &&& d.notes@.map_values(|n: &str| n@) == seq![
        NOTE_COUNTS@,
        NOTE_TIES@,
        NOTE_DISAGREEMENT@,
        NOTE_ADMISSION@,
        NOTE_PRIVACY@,
    ]
}

/// The position of the first assignment of case `c`.
fn find_assignment(asg: &Vec<BlindAssignmentInput>, c: &Vec<char>) -> (r: Option<usize>)
    ensures
        match r {
            Some(k) => k < asg@.len() && assignment_index(asg@, c@, 0) == k as int,
            None => assignment_index(asg@, c@, 0) == -1,
        },
{
    let mut k: usize = 0;
    while k < asg.len()
        invariant
            k <= asg.len(),
            assignment_index(asg@, c@, k as int) == assignment_index(asg@, c@, 0),
        decreases asg.len() - k,
    {
        if vec_eq(&chars_of(asg[k].case_id.as_str()), c) {
            return Some(k);
        }
        k += 1;
    }
    None
}

/// The number of judgments with decision `d`.
fn tally_decision(flat: &Vec<(String, ReviewDecision)>, d: ReviewDecision) -> (n: usize)
    ensures
        n == decision_count(pairs(flat@), d),
{
    let ghost js = pairs(flat@);
    let mut n: usize = 0;
    let mut i: usize = 0;
    while i < flat.len()
        invariant
            i <= flat.len(),
            js == pairs(flat@),
            n <= i,
            n == decision_count(js.take(i as int), d),
        decreases flat.len() - i,
    {
        assert(js.take(i + 1).drop_last() =~= js.take(i as int));
        proof {
            reveal_with_fuel(Seq::filter, 1);
        }
        if flat[i].1 == d {
            n += 1;
        }
        i += 1;
    }
    assert(js.take(flat@.len() as int) =~= js);
    n
}

/// The number of judgments that prefer one candidate.
fn tally_preferences(flat: &Vec<(String, ReviewDecision)>) -> (n: usize)
    ensures
        n == preference_count(pairs(flat@)),
{
    let ghost js = pairs(flat@);
    let mut n: usize = 0;
    let mut i: usize = 0;
    while i < flat.len()
        invariant
            i <= flat.len(),
            js == pairs(flat@),
            n <= i,
            n == preference_count(js.take(i as int)),
        decreases flat.len() - i,
    {
        assert(js.take(i + 1).drop_last() =~= js.take(i as int));
        proof {
            reveal_with_fuel(Seq::filter, 1);
        }
        if flat[i].1 == ReviewDecision::CandidateA || flat[i].1 == ReviewDecision::CandidateB {
            n += 1;
        }
        i += 1;
    }
    assert(js.take(flat@.len() as int) =~= js);
    n
}

/// The number of judgments that prefer system `sys`.
fn tally_system(
    flat: &Vec<(String, ReviewDecision)>,
    asg: &Vec<BlindAssignmentInput>,
    sys: &String,
) -> (n: usize)
    ensures
        n == system_preferences(asg@, pairs(flat@), sys@),
{
    let ghost js = pairs(flat@);
    let mut n: usize = 0;
    let mut i: usize = 0;
    while i < flat.len()
        invariant
            i <= flat.len(),
            js == pairs(flat@),
            n <= i,
            n == system_preferences(asg@, js.take(i as int), sys@),
        decreases flat.len() - i,
    {
        assert(js.take(i + 1).drop_last() =~= js.take(i as int));
        proof {
            reveal_with_fuel(Seq::filter, 1);
        }
        let c = chars_of(flat[i].0.as_str());
        let hit = match find_assignment(asg, &c) {
            Some(k) => {
                (flat[i].1 == ReviewDecision::CandidateA && same_text(
                    &asg[k].candidate_a_system,
                    sys,
                )) || (flat[i].1 == ReviewDecision::CandidateB && same_text(
                    &asg[k].candidate_b_system,
                    sys,
                ))
            },
            None => false,
        };
        assert(hit == picks(asg@, js[i as int], sys@));
        if hit {
            n += 1;
        }
        i += 1;
    }
    assert(js.take(flat@.len() as int) =~= js);
    n
}

/// The decisions on case `c` other than deferrals, in order.
fn comparable_of(flat: &Vec<(String, ReviewDecision)>, c: &String) -> (r: Vec<ReviewDecision>)
    ensures
        r@ == comparable(pairs(flat@), c@),
{
    let ghost js = pairs(flat@);
    let cv = chars_of(c.as_str());
    let mut r: Vec<ReviewDecision> = Vec::new();
    let mut i: usize = 0;
    while i < flat.len()
        invariant
            i <= flat.len(),
            js == pairs(flat@),
            cv@ == c@,
            r@ == comparable(js.take(i as int), c@),
        decreases flat.len() - i,
    {
        let ghost pred = |j: (Seq<char>, ReviewDecision)| j.0 == c@ && j.1 != ReviewDecision::Defer;
        let ghost f = |j: (Seq<char>, ReviewDecision)| j.1;
        assert(js.take(i + 1).drop_last() =~= js.take(i as int));
        proof {
            reveal_with_fuel(Seq::filter, 1);
        }
        let ghost before = js.take(i as int).filter(pred);
        if vec_eq(&chars_of(flat[i].0.as_str()), &cv) && flat[i].1 != ReviewDecision::Defer {
            r.push(flat[i].1);
            assert(before.push(js[i as int]).map_values(f) =~= before.map_values(f).push(
                js[i as int].1,
            ));
        }
        i += 1;
    }
    assert(js.take(flat@.len() as int) =~= js);
    r
}

/// Whether all decisions are the first one.
fn all_same(v: &Vec<ReviewDecision>) -> (r: bool)
    requires
        v@.len() > 0,
    ensures
        r == forall|i: int| 0 <= i < v@.len() ==> #[trigger] v@[i] == v@[0],
{
    let mut i: usize = 0;
    while i < v.len()
        invariant
            i <= v.len(),
            forall|q: int| 0 <= q < i ==> #[trigger] v@[q] == v@[0],
        decreases v.len() - i,
    {
        if v[i] != v[0] {
            return false;
        }
        i += 1;
    }
    true
}

/// Cases reviewed twice, and of those the unanimous and the disputed ones.
fn case_stats(flat: &Vec<(String, ReviewDecision)>, asg: &Vec<BlindAssignmentInput>) -> (r: (
    usize,
    usize,
    usize,
))
    ensures
        r.0 == multi_reviewed(asg@, pairs(flat@)),
        r.1 == unanimous(asg@, pairs(flat@)),
        r.2 == disagreements(asg@, pairs(flat@)),
{
    let ghost js = pairs(flat@);
    let ghost a = asg@;
    let mut multi: usize = 0;
    let mut unan: usize = 0;
    let mut dis: usize = 0;
    let mut k: usize = 0;
    while k < asg.len()
        invariant
            k <= asg.len(),
            js == pairs(flat@),
            a == asg@,
            multi <= k && unan <= k && dis <= k,
            multi == multi_reviewed(a.take(k as int), js),
            unan == unanimous(a.take(k as int), js),
            dis == disagreements(a.take(k as int), js),
        decreases asg.len() - k,
    {
        assert(a.take(k + 1).drop_last() =~= a.take(k as int));
        proof {
            reveal_with_fuel(Seq::filter, 1);
        }
        let votes = comparable_of(flat, &asg[k].case_id);
        if votes.len() >= 2 {
            multi += 1;
            if all_same(&votes) {
                unan += 1;
            } else {
                dis += 1;
            }
        }
        k += 1;
    }
    assert(a.take(asg@.len() as int) =~= a);
    (multi, unan, dis)
}

/// Inserts a text into an ascending vector that does not hold it.
fn insert_sorted(v: &mut Vec<String>, x: String)
    requires
        ascending(views(old(v)@)),
        !views(old(v)@).contains(x@),
    ensures
        ascending(views(final(v)@)),
        final(v)@.len() == old(v)@.len() + 1,
        forall|r: Seq<char>| views(final(v)@).contains(r) <==> (views(old(v)@).contains(r) || r == x@),
{
    let ghost rv = views(v@);
    let xv = chars_of(x.as_str());
    let mut pos: usize = 0;
    while pos < v.len() && lt_exec(&chars_of(v[pos].as_str()), &xv)
        invariant
            pos <= v@.len(),
            rv == views(v@),
            xv@ == x@,
            forall|q: int| 0 <= q < pos ==> seq_lt(#[trigger] rv[q], x@),
        decreases v.len() - pos,
    {
        pos += 1;
    }
    proof {
        if pos < v@.len() {
            assert(!seq_lt(rv[pos as int], x@));
            assert(rv[pos as int] != x@) by {
                if rv[pos as int] == x@ {
                    assert(rv.contains(x@));
                }
            }
            lemma_seq_lt_total(rv[pos as int], x@);
        }
    }
    v.insert(pos, x);
    let ghost nv = views(v@);
    assert(nv =~= rv.take(pos as int).push(x@) + rv.skip(pos as int));
    assert forall|a: int, b: int| 0 <= a < b < nv.len() implies seq_lt(
        #[trigger] nv[a],
        #[trigger] nv[b],
    ) by {
        if b < pos {
            assert(nv[a] == rv[a] && nv[b] == rv[b]);
        } else if b == pos {
            assert(nv[a] == rv[a]);
        } else if a == pos {
            assert(nv[b] == rv[b - 1]);
            if b - 1 > pos {
                lemma_seq_lt_transitive(x@, rv[pos as int], rv[b - 1]);
            }
        } else if a < pos {
            assert(nv[a] == rv[a] && nv[b] == rv[b - 1]);
        } else {
            assert(nv[a] == rv[a - 1] && nv[b] == rv[b - 1]);
        }
    }
    assert forall|r: Seq<char>| nv.contains(r) <==> (rv.contains(r) || r == x@) by {
        if nv.contains(r) {
            let w = choose|w: int| 0 <= w < nv.len() && nv[w] == r;
            if w < pos {
                assert(rv[w] == r);
            } else if w > pos {
                assert(rv[w - 1] == r);
            }
        }
        if rv.contains(r) {
            let w = choose|w: int| 0 <= w < rv.len() && rv[w] == r;
            if w < pos {
                assert(nv[w] == r);
            } else {
                assert(nv[w + 1] == r);
            }
        }
        if r == x@ {
            assert(nv[pos as int] == r);
        }
    }
}

/// Whether the ledger judges exactly the cases the key assigns.
fn same_ids(cs: &Vec<BlindReviewCase>, asg: &Vec<BlindAssignmentInput>) -> (r: bool)
    ensures
        r == same_case_ids(cs@, asg@),
{
    let mut i: usize = 0;
    while i < cs.len()
        invariant
            i <= cs.len(),
            forall|q: int| 0 <= q < i ==> assigned(asg@, #[trigger] cs@[q].case_id@),
        decreases cs.len() - i,
    {
        let c = chars_of(cs[i].case_id.as_str());
        match find_assignment(asg, &c) {
            None => {
                assert(!assigned(asg@, cs@[i as int].case_id@)) by {
                    lemma_assignment_index_found(asg@, c@, 0);
                }
                return false;
            },
            Some(k) => {
                proof {
                    lemma_assignment_index_found(asg@, c@, 0);
                }
                assert(asg@[k as int].case_id@ == cs@[i as int].case_id@);
            },
        }
        i += 1;
    }
    let mut k: usize = 0;
    while k < asg.len()
        invariant
            k <= asg.len(),
            forall|q: int| 0 <= q < cs@.len() ==> assigned(asg@, #[trigger] cs@[q].case_id@),
            forall|q: int| 0 <= q < k ==> judged(cs@, #[trigger] asg@[q].case_id@),
        decreases asg.len() - k,
    {
        let target = chars_of(asg[k].case_id.as_str());
        let mut j: usize = 0;
        let mut found = false;
        while j < cs.len()
            invariant
                j <= cs.len(),
                target@ == asg@[k as int].case_id@,
                found ==> judged(cs@, target@),
                !found ==> forall|q: int| 0 <= q < j ==> #[trigger] cs@[q].case_id@ != target@,
            decreases cs.len() - j,
        {
            if !found && vec_eq(&chars_of(cs[j].case_id.as_str()), &target) {
                found = true;
                assert(cs@[j as int].case_id@ == target@);
            }
            j += 1;
        }
        if !found {
            return false;
        }
        k += 1;
    }
    true
}

/// `assignment_index` finds an assignment exactly when one has the id.
pub proof fn lemma_assignment_index_found(asg: Seq<BlindAssignmentInput>, c: Seq<char>, k: int)
    requires
        0 <= k <= asg.len(),
    ensures
        assignment_index(asg, c, k) == -1 <==> !(exists|q: int| k <= q < asg.len() && #[trigger] asg[q].case_id@ == c),
        assignment_index(asg, c, k) != -1 ==> k <= assignment_index(asg, c, k) < asg.len()
            && asg[assignment_index(asg, c, k)].case_id@ == c,
    decreases asg.len() - k,
{
    if k < asg.len() {
        lemma_assignment_index_found(asg, c, k + 1);
    }
}

/// Appends a ledger's judgments.
fn append_judgments(flat: &mut Vec<(String, ReviewDecision)>, cases: &Vec<BlindReviewCase>)
    ensures
        pairs(final(flat)@) == pairs(old(flat)@) + cases@.map_values(
            |c: BlindReviewCase| (c.case_id@, c.decision),
        ),
{
    let ghost start = pairs(flat@);
    let ghost f = |c: BlindReviewCase| (c.case_id@, c.decision);
    let mut i: usize = 0;
    while i < cases.len()
        invariant
            i <= cases.len(),
            pairs(flat@) == start + cases@.take(i as int).map_values(f),
            f == (|c: BlindReviewCase| (c.case_id@, c.decision)),
        decreases cases.len() - i,
    {
        let ghost before = pairs(flat@);
        let id = cases[i].case_id.clone();
        assert(id@ == cases@[i as int].case_id@);
        let ghost old_flat = flat@;
        flat.push((id, cases[i].decision));
        assert(flat@ == old_flat.push((id, cases@[i as int].decision)));
        assert(pairs(flat@) =~= before.push((cases@[i as int].case_id@, cases@[i as int].decision)));
        assert(f(cases@[i as int]) == (cases@[i as int].case_id@, cases@[i as int].decision));
        assert(cases@.take(i + 1).map_values(f) =~= cases@.take(i as int).map_values(f).push(
            f(cases@[i as int]),
        ));
        i += 1;
    }
    assert(cases@.take(cases@.len() as int) =~= cases@);
}

/// Unblinds complete, mutually consistent ledgers into a dossier of counts.
/// The key and every ledger must be valid, target the key's corpus and the
/// same blind bundle (and its SHA-256 under schema 2), come from distinct
/// evaluators, judge exactly the key's cases, and leave none pending. The
/// dossier names no winner and grants no admission.
pub fn build_dossier(key: &BlindComparisonKeyInput, ledgers: &[BlindReviewLedger]) -> (r: Result<
    ProviderReviewDossier,
    String,
>)
    ensures
        match r {
            Ok(d) => dossier_error(*key, ledgers@) is None && dossier_holds(d, *key, ledgers@),
            Err(m) => dossier_error(*key, ledgers@) == Some(m@),
        },
{
    match validate_key(key) {
        Err(m) => {
            return Err(m);
        },
        Ok(()) => {},
    }
    if ledgers.len() == 0 {
        return Err("at least one ledger is required".to_owned());
    }
    match validate_ledger(&ledgers[0]) {
        Err(m) => {
            return Err(m);
        },
        Ok(()) => {},
    }
    let ghost ls = ledgers@;
    let mut reviewers: Vec<String> = Vec::new();
    let mut flat: Vec<(String, ReviewDecision)> = Vec::new();
    let mut i: usize = 0;
    assert(ls.take(0) =~= Seq::<BlindReviewLedger>::empty());
    assert(pairs(flat@) =~= judgments(ls.take(0)));
    while i < ledgers.len()
        invariant
            i <= ledgers.len(),
            ls == ledgers@,
            ls.len() > 0,
            key_error(*key) is None,
            ledger_error(ls[0]) is None,
            ledgers_fault(*key, ls, i as int) == dossier_error(*key, ls),
            pairs(flat@) == judgments(ls.take(i as int)),
            ascending(views(reviewers@)),
            reviewers@.len() == i,
            forall|r: Seq<char>|
                views(reviewers@).contains(r) <==> exists|j: int|
                    0 <= j < i && #[trigger] ls[j].reviewer@ == r,
        decreases ledgers.len() - i,
    {
        let l = &ledgers[i];
        let who = "ledger for evaluator '";
        match validate_ledger(l) {
            Err(m) => {
                return Err(m);
            },
            Ok(()) => {},
        }
        if !same_text(&l.corpus_id, &key.corpus_id) {
            let mut m = chars_of(who);
            extend_str(&mut m, l.reviewer.as_str());
            extend_str(&mut m, "' targets corpus '");
            extend_str(&mut m, l.corpus_id.as_str());
            extend_str(&mut m, "' but key targets '");
            extend_str(&mut m, key.corpus_id.as_str());
            extend_str(&mut m, "'");
            return Err(string_of(&m));
        }
        if !same_text(&l.bundle_fingerprint, &ledgers[0].bundle_fingerprint) {
            return Err(framed(who, l.reviewer.as_str(), "' was created from a different blind bundle"));
        }
        if key.schema_version == 2 {
            let bound = l.schema_version == LEDGER_SCHEMA_VERSION && match (
                &l.bundle_sha256,
                &key.bundle_sha256,
            ) {
                (Some(a), Some(b)) => same_text(a, b),
                _ => false,
            };
            if !bound {
                return Err(
                    framed(
                        who,
                        l.reviewer.as_str(),
                        "' is not bound to the schema-2 reveal key bundle SHA-256",
                    ),
                );
            }
        }
        if contains_text(&reviewers, &l.reviewer) {
            return Err(
                framed(
                    "evaluator '",
                    l.reviewer.as_str(),
                    "' appears more than once; duplicate ledgers would double-count judgments",
                ),
            );
        }
        assert(!exists|j: int| 0 <= j < i && #[trigger] ls[j].reviewer@ == l.reviewer@);
        if !same_ids(&l.cases, &key.assignments) {
            return Err(framed(who, l.reviewer.as_str(), "' does not match reveal-key case ids"));
        }
        match find_pending(&l.cases) {
            Some(k) => {
                let mut m = chars_of(who);
                extend_str(&mut m, l.reviewer.as_str());
                extend_str(&mut m, "' is incomplete; case '");
                extend_str(&mut m, l.cases[k].case_id.as_str());
                extend_str(&mut m, "' is still pending");
                return Err(string_of(&m));
            },
            None => {},
        }
        assert(ledger_fault(*key, ls, i as int) is None);
        insert_sorted(&mut reviewers, l.reviewer.clone());
        append_judgments(&mut flat, &l.cases);
        assert(ls.take(i + 1).drop_last() =~= ls.take(i as int));
        assert forall|r: Seq<char>|
            views(reviewers@).contains(r) <==> exists|j: int|
                0 <= j < i + 1 && #[trigger] ls[j].reviewer@ == r by {
            if r == l.reviewer@ {
                assert(ls[i as int].reviewer@ == r);
            }
            if exists|j: int| 0 <= j < i + 1 && #[trigger] ls[j].reviewer@ == r {
                let j = choose|j: int| 0 <= j < i + 1 && #[trigger] ls[j].reviewer@ == r;
                if j < i {
                    assert(exists|q: int| 0 <= q < i && #[trigger] ls[q].reviewer@ == r);
                }
            }
        }
        i += 1;
    }
    assert(ls.take(ls.len() as int) =~= ls);
    let ghost js = judgments(ls);
    let ghost asg = key.assignments@;
    let bundle_sha256: Option<String> = if key.schema_version == 2 {
        match &key.bundle_sha256 {
            Some(d) => Some(d.clone()),
            None => None,
        }
    } else {
        None
    };
    let one_count = tally_system(&flat, &key.assignments, &key.system_one);
    let two_count = tally_system(&flat, &key.assignments, &key.system_two);
    let mut counts: Vec<(String, usize)> = Vec::new();
    if lt_exec(&chars_of(key.system_two.as_str()), &chars_of(key.system_one.as_str())) {
        counts.push((key.system_two.clone(), two_count));
        counts.push((key.system_one.clone(), one_count));
    } else {
        counts.push((key.system_one.clone(), one_count));
        counts.push((key.system_two.clone(), two_count));
    }
    let (multi, unan, dis) = case_stats(&flat, &key.assignments);
    let notes: Vec<&'static str> = vec![
        NOTE_COUNTS,
        NOTE_TIES,
        NOTE_DISAGREEMENT,
        NOTE_ADMISSION,
        NOTE_PRIVACY,
    ];
    let d = ProviderReviewDossier {
        schema_version: if key.schema_version == 2 {
            DOSSIER_SCHEMA_VERSION
        } else {
            1
        },
        corpus_id: key.corpus_id.clone(),
        bundle_fingerprint: ledgers[0].bundle_fingerprint.clone(),
        bundle_sha256,
        reviewers,
        review_ledgers: ledgers.len(),
        cases_total: key.assignments.len(),
        judgments_total: flat.len(),
        preference_judgments: tally_preferences(&flat),
        ties: tally_decision(&flat, ReviewDecision::Tie),
        deferred: tally_decision(&flat, ReviewDecision::Defer),
        cases_with_multiple_reviews: multi,
        unanimous_cases: unan,
        disagreement_cases: dis,
        system_preference_counts: counts,
        system_one: key.system_one.clone(),
        system_two: key.system_two.clone(),
        automatic_winner: None,
        human_comparative_evidence_only: true,
        production_admission: "not_granted",
        requires_explicit_admission_decision: true,
        reveal_binding: if key.schema_version == 2 {
            BINDING_V2
        } else {
            BINDING_V1
        },
        notes,
    };
    assert(d.notes@.map_values(|n: &str| n@) =~= seq![
        NOTE_COUNTS@,
        NOTE_TIES@,
        NOTE_DISAGREEMENT@,
        NOTE_ADMISSION@,
        NOTE_PRIVACY@,
    ]);
    Ok(d)
}

// ---------------------------------------------------------------------------
// Laws of the dossier
// ---------------------------------------------------------------------------

proof fn lemma_ledgers_fault_none(key: BlindComparisonKeyInput, ls: Seq<BlindReviewLedger>, i: int)
    requires
        0 <= i <= ls.len(),
        ledgers_fault(key, ls, i) is None,
    ensures
        forall|q: int| i <= q < ls.len() ==> #[trigger] ledger_fault(key, ls, q) is None,
    decreases ls.len() - i,
{
    if i < ls.len() {
        lemma_ledgers_fault_none(key, ls, i + 1);
    }
}

proof fn lemma_first_pending_none(cs: Seq<BlindReviewCase>, k: int)
    requires
        0 <= k <= cs.len(),
        first_pending(cs, k) is None,
    ensures
        forall|q: int| k <= q < cs.len() ==> #[trigger] cs[q].decision != ReviewDecision::Pending,
    decreases cs.len() - k,
{
    if k < cs.len() {
        lemma_first_pending_none(cs, k + 1);
    }
}

proof fn lemma_assignment_fault_none(
    asg: Seq<BlindAssignmentInput>,
    one: Seq<char>,
    two: Seq<char>,
    k: int,
)
    requires
        0 <= k <= asg.len(),
        assignment_fault(asg, one, two, k) is None,
    ensures
        forall|q: int|
            k <= q < asg.len() ==> (#[trigger] asg[q]).candidate_a_system@
                != asg[q].candidate_b_system@ && known_system(one, two, asg[q].candidate_a_system@)
                && known_system(one, two, asg[q].candidate_b_system@),
    decreases asg.len() - k,
{
    if k < asg.len() {
        lemma_assignment_fault_none(asg, one, two, k + 1);
    }
}

/// Every judgment of ledgers that judge exactly the key's cases, with none
/// pending, is a decision on an assigned case.
proof fn lemma_judgments_sound(asg: Seq<BlindAssignmentInput>, ls: Seq<BlindReviewLedger>)
    requires
        forall|i: int|
            0 <= i < ls.len() ==> same_case_ids((#[trigger] ls[i]).cases@, asg) && first_pending(
                ls[i].cases@,
                0,
            ) is None,
    ensures
        forall|x: int|
            0 <= x < judgments(ls).len() ==> assigned(asg, (#[trigger] judgments(ls)[x]).0)
                && judgments(ls)[x].1 != ReviewDecision::Pending,
    decreases ls.len(),
{
    if ls.len() > 0 {
        let init = ls.drop_last();
        assert forall|i: int| 0 <= i < init.len() implies same_case_ids(
            (#[trigger] init[i]).cases@,
            asg,
        ) && first_pending(init[i].cases@, 0) is None by {
            assert(init[i] == ls[i]);
        }
        lemma_judgments_sound(asg, init);
        let last = ls.last();
        assert(same_case_ids(ls[ls.len() - 1].cases@, asg));
        lemma_first_pending_none(last.cases@, 0);
        let tail = last.cases@.map_values(|c: BlindReviewCase| (c.case_id@, c.decision));
        assert forall|x: int| 0 <= x < judgments(ls).len() implies assigned(
            asg,
            (#[trigger] judgments(ls)[x]).0,
        ) && judgments(ls)[x].1 != ReviewDecision::Pending by {
            let n = judgments(init).len();
            if x < n {
                assert(judgments(ls)[x] == judgments(init)[x]);
            } else {
                assert(judgments(ls)[x] == tail[x - n]);
                assert(assigned(asg, last.cases@[x - n].case_id@));
            }
        }
    }
}

proof fn lemma_decision_partition(js: Seq<(Seq<char>, ReviewDecision)>)
    ensures
        preference_count(js) + decision_count(js, ReviewDecision::Tie) + decision_count(
            js,
            ReviewDecision::Defer,
        ) + decision_count(js, ReviewDecision::Pending) == js.len(),
    decreases js.len(),
{
    reveal_with_fuel(Seq::filter, 1);
    if js.len() > 0 {
        lemma_decision_partition(js.drop_last());
    }
}

proof fn lemma_no_pending(js: Seq<(Seq<char>, ReviewDecision)>)
    requires
        forall|x: int| 0 <= x < js.len() ==> (#[trigger] js[x]).1 != ReviewDecision::Pending,
    ensures
        decision_count(js, ReviewDecision::Pending) == 0,
    decreases js.len(),
{
    reveal_with_fuel(Seq::filter, 1);
    if js.len() > 0 {
        let init = js.drop_last();
        assert forall|x: int| 0 <= x < init.len() implies (#[trigger] init[x]).1
            != ReviewDecision::Pending by {
            assert(init[x] == js[x]);
        }
        lemma_no_pending(init);
        assert(js[js.len() - 1].1 != ReviewDecision::Pending);
    }
}

proof fn lemma_preference_split(
    asg: Seq<BlindAssignmentInput>,
    js: Seq<(Seq<char>, ReviewDecision)>,
    one: Seq<char>,
    two: Seq<char>,
)
    requires
        one != two,
        forall|q: int|
            0 <= q < asg.len() ==> (#[trigger] asg[q]).candidate_a_system@
                != asg[q].candidate_b_system@ && known_system(one, two, asg[q].candidate_a_system@)
                && known_system(one, two, asg[q].candidate_b_system@),
        forall|x: int| 0 <= x < js.len() ==> assigned(asg, (#[trigger] js[x]).0),
    ensures
        system_preferences(asg, js, one) + system_preferences(asg, js, two) == preference_count(
            js,
        ),
    decreases js.len(),
{
    reveal_with_fuel(Seq::filter, 1);
    if js.len() > 0 {
        let init = js.drop_last();
        assert forall|x: int| 0 <= x < init.len() implies assigned(asg, (#[trigger] init[x]).0) by {
            assert(init[x] == js[x]);
        }
        lemma_preference_split(asg, init, one, two);
        let j = js.last();
        assert(assigned(asg, js[js.len() - 1].0));
        lemma_assignment_index_found(asg, j.0, 0);
        let k = assignment_index(asg, j.0, 0);
        assert(asg[k].candidate_a_system@ != asg[k].candidate_b_system@);
    }
}

proof fn lemma_outcomes(asg: Seq<BlindAssignmentInput>, js: Seq<(Seq<char>, ReviewDecision)>)
    ensures
        multi_reviewed(asg, js) == unanimous(asg, js) + disagreements(asg, js),
    decreases asg.len(),
{
    reveal_with_fuel(Seq::filter, 1);
    if asg.len() > 0 {
        lemma_outcomes(asg.drop_last(), js);
    }
}

/// Law: every judgment in a dossier is a preference, a tie or a deferral;
/// nothing pending is ever counted.
pub proof fn lemma_dossier_judgments_partition(key: BlindComparisonKeyInput, ls: Seq<BlindReviewLedger>)
    requires
        dossier_error(key, ls) is None,
    ensures
        preference_count(judgments(ls)) + decision_count(judgments(ls), ReviewDecision::Tie)
            + decision_count(judgments(ls), ReviewDecision::Defer) == judgments(ls).len(),
{
    lemma_ledgers_fault_none(key, ls, 0);
    assert forall|i: int| 0 <= i < ls.len() implies same_case_ids(
        (#[trigger] ls[i]).cases@,
        key.assignments@,
    ) && first_pending(ls[i].cases@, 0) is None by {
        assert(ledger_fault(key, ls, i) is None);
    }
    lemma_judgments_sound(key.assignments@, ls);
    lemma_no_pending(judgments(ls));
    lemma_decision_partition(judgments(ls));
}

/// Law: each preference in a dossier counts for exactly one of the key's two
/// systems, so the per-system counts add up to the preference judgments.
pub proof fn lemma_dossier_preferences_split(key: BlindComparisonKeyInput, ls: Seq<BlindReviewLedger>)
    requires
        dossier_error(key, ls) is None,
    ensures
        system_preferences(key.assignments@, judgments(ls), key.system_one@) + system_preferences(
            key.assignments@,
            judgments(ls),
            key.system_two@,
        ) == preference_count(judgments(ls)),
{
    lemma_ledgers_fault_none(key, ls, 0);
    assert forall|i: int| 0 <= i < ls.len() implies same_case_ids(
        (#[trigger] ls[i]).cases@,
        key.assignments@,
    ) && first_pending(ls[i].cases@, 0) is None by {
        assert(ledger_fault(key, ls, i) is None);
    }
    lemma_judgments_sound(key.assignments@, ls);
    lemma_assignment_fault_none(key.assignments@, key.system_one@, key.system_two@, 0);
    lemma_preference_split(key.assignments@, judgments(ls), key.system_one@, key.system_two@);
}

/// Law: a case judged comparably at least twice is either unanimous or in
/// disagreement, never both and never dropped.
pub proof fn lemma_case_outcomes_partition(
    asg: Seq<BlindAssignmentInput>,
    js: Seq<(Seq<char>, ReviewDecision)>,
)
    ensures
        multi_reviewed(asg, js) == unanimous(asg, js) + disagreements(asg, js),
{
    lemma_outcomes(asg, js);
}

} // verus!
