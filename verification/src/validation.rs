//! The deterministic gate between provider output and domain state. Findings
//! with fabricated evidence ordinals, unknown categories, invalid confidence
//! or unbounded fields (a subject, claim or uncertainty too long, too many
//! alternative readings) are rejected with a reason; nothing is silently
//! repaired.

use vstd::prelude::*;
use crate::analysis::{
    label_category,
    category_label, finding_id_spec, finding_stable_id, normalize_ordinal, normalized_ordinal,
    ordinal_token_spec, resolve_ordinal_spec, string_views, unit_scope, ConfidenceLevel,
    FindingCategory, NarrativeScope, AnalysisUnit, ProviderMetadata, ValidatedEvidenceRef,
};
use crate::fmt::{parse_usize, parse_usize_spec};
use crate::models::{copy_opt_string, SourceLocation};
use crate::text::{
    starts_with, starts_with_str,
    ascii_lower_seq, blank, chars_of, contains_text, extend_str, lemma_seq_lt_total,
    lemma_seq_lt_transitive, lt_exec, same_text, seq_lt, slice_vec, string_of, trim, trim_vec,
    vec_eq, views,
};

verus! {

pub const MAX_SUBJECT_CHARS: usize = 160;

pub const MAX_CLAIM_CHARS: usize = 700;

pub const MAX_UNCERTAINTY_CHARS: usize = 400;

pub const MAX_ALTERNATIVES: usize = 3;

/// Where a provider's reported confidence falls: outside `0..=1` (or not a
/// number), below one half, from one half, or from eight tenths.
#[derive(Debug, Clone, Copy, PartialEq, Eq, Structural)]
pub enum ConfidenceBand {
    Invalid,
    Low,
    Medium,
    High,
}

/// A raw finding as a provider returned it; its reported confidence is
/// given by its band and its rendering.
#[derive(Debug, Clone)]
pub struct FindingResponse {
    pub category: String,
    pub subject: String,
    pub claim: String,
    pub confidence: ConfidenceBand,
    pub confidence_text: String,
    pub evidence_ordinals: Vec<String>,
    pub uncertainty: Option<String>,
    pub alternative_interpretations: Vec<String>,
}

/// Confidence derived from the report and the evidence: the level, and the
/// cited paragraphs over the coverage basis (the unit's paragraphs, at most
/// twenty; zero when it has none).
#[derive(Debug, Clone, Copy, PartialEq, Eq, Structural)]
pub struct FindingConfidence {
    pub level: ConfidenceLevel,
    pub cited_paragraphs: usize,
    pub coverage_basis: usize,
    pub supporting_unit_count: usize,
    pub contradicting_unit_count: usize,
    pub has_deterministic_signal: bool,
}

/// A finding that passed validation.
#[derive(Debug, Clone)]
pub struct AdvancedLiteraryFinding {
    pub finding_id: String,
    pub analysis_unit_id: String,
    pub category: FindingCategory,
    pub subject: String,
    pub claim: String,
    pub confidence: FindingConfidence,
    pub evidence: Vec<ValidatedEvidenceRef>,
    pub scope: NarrativeScope,
    pub provider_metadata: ProviderMetadata,
    pub uncertainty: Option<String>,
    pub alternative_interpretations: Vec<String>,
    pub is_review_eligible: bool,
}

#[derive(Debug, Clone, PartialEq, Eq)]
pub struct RejectedFinding {
    pub category: String,
    pub reason: String,
}

#[derive(Debug, Clone)]
pub struct ValidationOutcome {
    pub findings: Vec<AdvancedLiteraryFinding>,
    pub rejected: Vec<RejectedFinding>,
}

/// Cited (token, paragraph id) pairs.
pub type CitedPairs = Seq<(Seq<char>, Seq<char>)>;

/// Why a finding's category, subject, claim or confidence is refused.
pub open spec fn header_error(raw: FindingResponse) -> Option<Seq<char>> {
    let cat = trim(raw.category@);
    let subject = trim(raw.subject@);
    let claim = trim(raw.claim@);
    if label_category(ascii_lower_seq(cat)) is None {
        Some("unknown finding category '"@ + cat + "'"@)
    } else if subject.len() == 0 {
        Some("empty finding subject"@)
    } else if subject.len() > MAX_SUBJECT_CHARS {
        Some("finding subject exceeds 160 characters"@)
    } else if claim.len() == 0 {
        Some("empty finding claim"@)
    } else if claim.len() > MAX_CLAIM_CHARS {
        Some("finding claim exceeds 700 characters"@)
    } else if raw.confidence == ConfidenceBand::Invalid {
        Some("invalid confidence value "@ + raw.confidence_text@)
    } else {
        None
    }
}

/// The token was supplied to the model: `para-N` for one of the unit's
/// paragraphs.
pub open spec fn supplied(n: nat, t: Seq<char>) -> bool {
    exists|j: int| 0 <= j < n && #[trigger] ordinal_token_spec(j as nat) == t
}

/// The first refused evidence ordinal from position `k` on.
pub open spec fn evidence_fault(unit: AnalysisUnit, ords: Seq<String>, k: int) -> Option<Seq<char>>
    decreases ords.len() - k,
{
    if k < 0 || k >= ords.len() {
        None
    } else {
        match normalized_ordinal(ords[k]@) {
            None => Some("malformed evidence ordinal '"@ + ords[k]@ + "'"@),
            Some(t) => if !supplied(unit.paragraph_ids@.len(), t) {
                Some("evidence ordinal '"@ + t + "' was not supplied"@)
            } else if resolve_ordinal_spec(string_views(unit.paragraph_ids@), t) is None {
                Some("evidence ordinal '"@ + t + "' does not resolve"@)
            } else {
                evidence_fault(unit, ords, k + 1)
            },
        }
    }
}

/// Why a finding is rejected, if it is.
pub open spec fn finding_error(unit: AnalysisUnit, raw: FindingResponse) -> Option<Seq<char>> {
    if header_error(raw) is Some {
        header_error(raw)
    } else if evidence_fault(unit, raw.evidence_ordinals@, 0) is Some {
        evidence_fault(unit, raw.evidence_ordinals@, 0)
    } else {
        bounds_error(raw)
    }
}

/// The (token, paragraph id) cited by an evidence ordinal.
pub open spec fn cited_pair(unit: AnalysisUnit, o: Seq<char>) -> (Seq<char>, Seq<char>) {
    let t = normalized_ordinal(o)->0;
    (t, resolve_ordinal_spec(string_views(unit.paragraph_ids@), t)->0)
}

/// `a` sorts before `b` by paragraph id, then by token.
pub open spec fn pair_lt(a: (Seq<char>, Seq<char>), b: (Seq<char>, Seq<char>)) -> bool {
    seq_lt(a.1, b.1) || (a.1 == b.1 && seq_lt(a.0, b.0))
}

/// Strictly ascending by paragraph id, then token.
pub open spec fn pairs_ascending(ts: Seq<(Seq<char>, Seq<char>)>) -> bool {
    forall|a: int, b: int| 0 <= a < b < ts.len() ==> pair_lt(#[trigger] ts[a], #[trigger] ts[b])
}

/// One of the first `n` ordinals cites the pair.
pub open spec fn cited_before(unit: AnalysisUnit, ords: Seq<String>, n: int, p: (Seq<char>, Seq<char>)) -> bool {
    exists|k: int| 0 <= k < n && #[trigger] cited_pair(unit, ords[k]@) == p
}

/// Some ordinal cites the pair.
pub open spec fn is_cited(unit: AnalysisUnit, ords: Seq<String>, p: (Seq<char>, Seq<char>)) -> bool {
    cited_before(unit, ords, ords.len() as int, p)
}

/// `ts` holds exactly the pairs cited by the ordinals.
pub open spec fn cites_exactly(ts: Seq<(Seq<char>, Seq<char>)>, unit: AnalysisUnit, ords: Seq<String>) -> bool {
    &&& forall|k: int| 0 <= k < ords.len() ==> ts.contains(#[trigger] cited_pair(unit, ords[k]@))
    &&& forall|j: int| 0 <= j < ts.len() ==> is_cited(unit, ords, #[trigger] ts[j])
}

/// The paragraph number named by a canonical token (zero when none).
pub open spec fn token_position(t: Seq<char>) -> nat {
    if starts_with(t, "para-"@) {
        match parse_usize_spec(t.skip(5)) {
            Some(n) => n,
            None => 0,
        }
    } else {
        0
    }
}

/// The source of an evidence reference: the unit's source, with the
/// one-based chapter and the paragraph filled in when the unit left them open.
pub open spec fn evidence_source(s: SourceLocation, chapter_index: usize, position: nat) -> SourceLocation {
    SourceLocation {
        chapter: if s.chapter is None {
            Some((chapter_index + 1) as usize)
        } else {
            s.chapter
        },
        paragraph: if s.paragraph is None {
            Some(position as usize)
        } else {
            s.paragraph
        },
        ..s
    }
}

/// The evidence reference of a cited pair.
pub open spec fn evidence_matches(r: ValidatedEvidenceRef, unit: AnalysisUnit, p: (Seq<char>, Seq<char>)) -> bool {
    &&& r.chapter_id@ == unit.chapter_id@
    &&& r.scene_id@ == (match unit.scene_id {
        Some(s) => s@,
        None => unit.chapter_id@,
    })
    &&& r.paragraph_id@ == p.1
    &&& r.source == evidence_source(unit.source, unit.chapter_index, token_position(p.0))
}

/// The level derived from the reported band and the number of cited
/// paragraphs: the model's own report alone never makes a finding confident.
pub open spec fn derived_level(band: ConfidenceBand, cited: nat) -> ConfidenceLevel {
    if band == ConfidenceBand::High && cited >= 2 {
        ConfidenceLevel::High
    } else if (band == ConfidenceBand::High || band == ConfidenceBand::Medium) && cited >= 1 {
        ConfidenceLevel::Moderate
    } else {
        ConfidenceLevel::Low
    }
}

/// The coverage basis of a unit: its paragraph count, at most twenty.
pub open spec fn coverage_basis(n: nat) -> nat {
    if n > 20 {
        20
    } else {
        n
    }
}

/// The trimmed uncertainty, when not blank.
pub open spec fn uncertainty_spec(u: Option<String>) -> Option<Seq<char>> {
    match u {
        Some(x) => if trim(x@).len() == 0 {
            None
        } else {
            Some(trim(x@))
        },
        None => None,
    }
}

/// The non-blank alternative readings, trimmed, in order.
pub open spec fn nonblank_alternatives(alts: Seq<String>) -> Seq<Seq<char>> {
    views(alts).map_values(|v: Seq<char>| trim(v)).filter(|v: Seq<char>| v.len() > 0)
}

/// Why a finding's free-text fields are refused as unbounded, if they are:
/// an uncertainty over 400 characters, or more than three alternative
/// readings.
pub open spec fn bounds_error(raw: FindingResponse) -> Option<Seq<char>> {
    if uncertainty_spec(raw.uncertainty) matches Some(u) && u.len() > MAX_UNCERTAINTY_CHARS {
        Some("finding uncertainty exceeds 400 characters"@)
    } else if nonblank_alternatives(raw.alternative_interpretations@).len() > MAX_ALTERNATIVES {
        Some("finding lists more than 3 alternative interpretations"@)
    } else {
        None
    }
}

/// Consecutive repeats removed (`Vec::dedup`).
pub open spec fn dedup(s: Seq<Seq<char>>) -> Seq<Seq<char>>
    decreases s.len(),
{
    if s.len() == 0 {
        s
    } else if s.len() >= 2 && s.last() == s[s.len() - 2] {
        dedup(s.drop_last())
    } else {
        dedup(s.drop_last()).push(s.last())
    }
}

/// The non-blank alternative readings, trimmed, without consecutive repeats.
pub open spec fn alternatives_spec(alts: Seq<String>) -> Seq<Seq<char>> {
    dedup(nonblank_alternatives(alts))
}

/// The id a valid raw finding gets in a unit.
pub open spec fn raw_finding_id(unit: AnalysisUnit, raw: FindingResponse) -> Seq<char> {
    finding_id_spec(
        unit.unit_id@,
        label_category(ascii_lower_seq(trim(raw.category@)))->0,
        trim(raw.subject@),
        trim(raw.claim@),
        unit_scope(unit),
    )
}

/// The finding a valid raw finding becomes.
pub open spec fn finding_holds(
    f: AdvancedLiteraryFinding,
    unit: AnalysisUnit,
    meta: ProviderMetadata,
    raw: FindingResponse,
    scope: NarrativeScope,
) -> bool {
    &&& label_category(ascii_lower_seq(trim(raw.category@))) == Some(f.category)
    &&& f.subject@ == trim(raw.subject@)
    &&& f.claim@ == trim(raw.claim@)
    &&& f.finding_id@ == finding_id_spec(unit.unit_id@, f.category, f.subject@, f.claim@, scope)
    &&& f.analysis_unit_id@ == unit.unit_id@
    &&& f.scope == scope
    &&& f.provider_metadata == meta
    &&& (match f.uncertainty {
        Some(u) => uncertainty_spec(raw.uncertainty) == Some(u@),
        None => uncertainty_spec(raw.uncertainty) is None,
    })
    &&& views(f.alternative_interpretations@) == alternatives_spec(raw.alternative_interpretations@)
    &&& exists|ts: CitedPairs|
        {
            &&& pairs_ascending(ts)
            &&& cites_exactly(ts, unit, raw.evidence_ordinals@)
            &&& f.evidence@.len() == ts.len()
            &&& (forall|j: int|
                0 <= j < ts.len() ==> evidence_matches(#[trigger] f.evidence@[j], unit, ts[j]))
            &&& f.confidence.level == derived_level(raw.confidence, ts.len())
            &&& f.confidence.cited_paragraphs == ts.len()
            &&& f.is_review_eligible == (ts.len() > 0)
        }
    &&& f.confidence.coverage_basis == coverage_basis(unit.paragraph_ids@.len())
    &&& f.confidence.supporting_unit_count == 1
    &&& f.confidence.contradicting_unit_count == 0
    &&& !f.confidence.has_deterministic_signal
}

proof fn lemma_pair_lt_total(a: (Seq<char>, Seq<char>), b: (Seq<char>, Seq<char>))
    ensures
        a == b || pair_lt(a, b) || pair_lt(b, a),
{
    lemma_seq_lt_total(a.1, b.1);
    lemma_seq_lt_total(a.0, b.0);
}

proof fn lemma_pair_lt_transitive(
    a: (Seq<char>, Seq<char>),
    b: (Seq<char>, Seq<char>),
    c: (Seq<char>, Seq<char>),
)
    requires
        pair_lt(a, b),
        pair_lt(b, c),
    ensures
        pair_lt(a, c),
{
    if seq_lt(a.1, b.1) && seq_lt(b.1, c.1) {
        lemma_seq_lt_transitive(a.1, b.1, c.1);
    } else if seq_lt(a.1, b.1) {
    } else if seq_lt(b.1, c.1) {
    } else {
        lemma_seq_lt_transitive(a.0, b.0, c.0);
    }
}

/// The views of (token, paragraph id) string pairs.
pub open spec fn pair_views(v: Seq<(String, String)>) -> CitedPairs {
    v.map_values(|p: (String, String)| (p.0@, p.1@))
}

/// `a` sorts before `b` by paragraph id, then by token.
fn pair_lt_exec(a: &(String, String), b: &(String, String)) -> (r: bool)
    ensures
        r == pair_lt((a.0@, a.1@), (b.0@, b.1@)),
{
    let a0 = chars_of(a.0.as_str());
    let a1 = chars_of(a.1.as_str());
    let b0 = chars_of(b.0.as_str());
    let b1 = chars_of(b.1.as_str());
    lt_exec(&a1, &b1) || (vec_eq(&a1, &b1) && lt_exec(&a0, &b0))
}

/// Inserts a pair into an ascending vector unless it is already there.
fn insert_pair(v: &mut Vec<(String, String)>, x: (String, String))
    requires
        pairs_ascending(pair_views(old(v)@)),
    ensures
        pairs_ascending(pair_views(final(v)@)),
        forall|p: (Seq<char>, Seq<char>)|
            pair_views(final(v)@).contains(p) <==> (pair_views(old(v)@).contains(p) || p == (
                x.0@,
                x.1@,
            )),
{
    let ghost rv = pair_views(v@);
    let ghost xv = (x.0@, x.1@);
    let mut pos: usize = 0;
    while pos < v.len() && pair_lt_exec(&v[pos], &x)
        invariant
            pos <= v@.len(),
            rv == pair_views(v@),
            xv == (x.0@, x.1@),
            forall|q: int| 0 <= q < pos ==> pair_lt(#[trigger] rv[q], xv),
        decreases v.len() - pos,
    {
        pos += 1;
    }
    if pos < v.len() && same_text(&v[pos].0, &x.0) && same_text(&v[pos].1, &x.1) {
        assert(rv[pos as int] == xv);
        return;
    }
    proof {
        if pos < v@.len() {
            assert(!pair_lt(rv[pos as int], xv));
            assert(rv[pos as int] != xv);
            lemma_pair_lt_total(rv[pos as int], xv);
        }
    }
    v.insert(pos, x);
    let ghost nv = pair_views(v@);
    assert(nv =~= rv.take(pos as int).push(xv) + rv.skip(pos as int));
    assert forall|a: int, b: int| 0 <= a < b < nv.len() implies pair_lt(
        #[trigger] nv[a],
        #[trigger] nv[b],
    ) by {
        if b < pos {
            assert(nv[a] == rv[a] && nv[b] == rv[b]);
        } else if b == pos {
            assert(nv[a] == rv[a]);
        } else if a == pos {
            assert(nv[b] == rv[b - 1]);
            if b - 1 > pos {
                lemma_pair_lt_transitive(xv, rv[pos as int], rv[b - 1]);
            }
        } else if a < pos {
            assert(nv[a] == rv[a] && nv[b] == rv[b - 1]);
        } else {
            assert(nv[a] == rv[a - 1] && nv[b] == rv[b - 1]);
        }
    }
    assert forall|p: (Seq<char>, Seq<char>)| nv.contains(p) <==> (rv.contains(p) || p == xv) by {
        if nv.contains(p) {
            let w = choose|w: int| 0 <= w < nv.len() && nv[w] == p;
            if w < pos {
                assert(rv[w] == p);
            } else if w > pos {
                assert(rv[w - 1] == p);
            }
        }
        if rv.contains(p) {
            let w = choose|w: int| 0 <= w < rv.len() && rv[w] == p;
            if w < pos {
                assert(nv[w] == p);
            } else {
                assert(nv[w + 1] == p);
            }
        }
        if p == xv {
            assert(nv[pos as int] == p);
        }
    }
}

/// Resolves every evidence ordinal to the paragraph it cites; any malformed,
/// unsupplied or unresolvable ordinal refuses the finding. The cited pairs
/// come back ascending by paragraph id, then token, without repeats.
fn collect_evidence(unit: &AnalysisUnit, ords: &Vec<String>) -> (r: Result<Vec<(String, String)>, String>)
    ensures
        match r {
            Err(m) => evidence_fault(*unit, ords@, 0) == Some(m@),
            Ok(v) => evidence_fault(*unit, ords@, 0) is None && pairs_ascending(pair_views(v@))
                && cites_exactly(pair_views(v@), *unit, ords@),
        },
{
    let supplied_tokens = unit.supplied_ordinals();
    let mut out: Vec<(String, String)> = Vec::new();
    let mut k: usize = 0;
    while k < ords.len()
        invariant
            k <= ords.len(),
            supplied_tokens@.len() == unit.paragraph_ids@.len(),
            forall|j: int|
                0 <= j < supplied_tokens@.len() ==> #[trigger] supplied_tokens@[j]@
                    == ordinal_token_spec(j as nat),
            evidence_fault(*unit, ords@, k as int) == evidence_fault(*unit, ords@, 0),
            pairs_ascending(pair_views(out@)),
            forall|q: int| 0 <= q < k ==> pair_views(out@).contains(#[trigger] cited_pair(*unit, ords@[q]@)),
            forall|j: int| 0 <= j < pair_views(out@).len() ==> cited_before(*unit, ords@, k as int, #[trigger] pair_views(out@)[j]),
        decreases ords.len() - k,
    {
        let o = &ords[k];
        let token = match normalize_ordinal(o.as_str()) {
            Some(t) => t,
            None => {
                let mut m = chars_of("malformed evidence ordinal '");
                extend_str(&mut m, o.as_str());
                extend_str(&mut m, "'");
                return Err(string_of(&m));
            },
        };
        if !contains_text(&supplied_tokens, &token) {
            assert(!supplied(unit.paragraph_ids@.len(), token@)) by {
                if supplied(unit.paragraph_ids@.len(), token@) {
                    let j = choose|j: int|
                        0 <= j < unit.paragraph_ids@.len() && #[trigger] ordinal_token_spec(j as nat)
                            == token@;
                    assert(views(supplied_tokens@)[j] == token@);
                }
            }
            let mut m = chars_of("evidence ordinal '");
            extend_str(&mut m, token.as_str());
            extend_str(&mut m, "' was not supplied");
            return Err(string_of(&m));
        }
        proof {
            let w = choose|w: int| 0 <= w < views(supplied_tokens@).len() && views(supplied_tokens@)[w] == token@;
            assert(supplied_tokens@[w]@ == ordinal_token_spec(w as nat));
        }
        let pid = match unit.resolve_ordinal(token.as_str()) {
            Some(p) => p.to_owned(),
            None => {
                let mut m = chars_of("evidence ordinal '");
                extend_str(&mut m, token.as_str());
                extend_str(&mut m, "' does not resolve");
                return Err(string_of(&m));
            },
        };
        let ghost before = pair_views(out@);
        let ghost pv = (token@, pid@);
        assert(pv == cited_pair(*unit, ords@[k as int]@));
        insert_pair(&mut out, (token, pid));
        assert forall|q: int| 0 <= q < k + 1 implies pair_views(out@).contains(
            #[trigger] cited_pair(*unit, ords@[q]@),
        ) by {
            if q < k {
                assert(before.contains(cited_pair(*unit, ords@[q]@)));
            }
        }
        assert forall|j: int| 0 <= j < pair_views(out@).len() implies cited_before(*unit, ords@, k + 1, #[trigger] pair_views(out@)[j]) by {
            let p = pair_views(out@)[j];
            assert(pair_views(out@).contains(p));
            if p != pv {
                assert(before.contains(p));
                let w = choose|w: int| 0 <= w < before.len() && before[w] == p;
                assert(cited_before(*unit, ords@, k as int, before[w]));
                let q = choose|q: int| 0 <= q < k && #[trigger] cited_pair(*unit, ords@[q]@) == before[w];
                assert(cited_pair(*unit, ords@[q]@) == p);
            } else {
                assert(cited_pair(*unit, ords@[k as int]@) == p);
            }
        }
        k += 1;
    }
    Ok(out)
}

/// The category, subject and claim of a finding whose header is valid.
fn check_header(raw: &FindingResponse) -> (r: Result<(FindingCategory, String, String), String>)
    ensures
        match r {
            Err(m) => header_error(*raw) == Some(m@),
            Ok((c, s, cl)) => header_error(*raw) is None && label_category(
                ascii_lower_seq(trim(raw.category@)),
            ) == Some(c) && s@ == trim(raw.subject@) && cl@ == trim(raw.claim@),
        },
{
    let cat = string_of(&trim_vec(&chars_of(raw.category.as_str())));
    let category = match FindingCategory::from_label(cat.as_str()) {
        Some(c) => c,
        None => {
            let mut m = chars_of("unknown finding category '");
            extend_str(&mut m, cat.as_str());
            extend_str(&mut m, "'");
            return Err(string_of(&m));
        },
    };
    let subject = trim_vec(&chars_of(raw.subject.as_str()));
    if subject.len() == 0 {
        return Err("empty finding subject".to_owned());
    }
    if subject.len() > MAX_SUBJECT_CHARS {
        return Err("finding subject exceeds 160 characters".to_owned());
    }
    let claim = trim_vec(&chars_of(raw.claim.as_str()));
    if claim.len() == 0 {
        return Err("empty finding claim".to_owned());
    }
    if claim.len() > MAX_CLAIM_CHARS {
        return Err("finding claim exceeds 700 characters".to_owned());
    }
    if raw.confidence == ConfidenceBand::Invalid {
        let mut m = chars_of("invalid confidence value ");
        extend_str(&mut m, raw.confidence_text.as_str());
        return Err(string_of(&m));
    }
    Ok((category, string_of(&subject), string_of(&claim)))
}

/// The trimmed, non-blank uncertainty.
fn uncertainty_of(u: &Option<String>) -> (r: Option<String>)
    ensures
        match r {
            Some(x) => uncertainty_spec(*u) == Some(x@),
            None => uncertainty_spec(*u) is None,
        },
{
    match u {
        Some(x) => {
            let t = trim_vec(&chars_of(x.as_str()));
            if t.len() == 0 {
                None
            } else {
                Some(string_of(&t))
            }
        },
        None => None,
    }
}

/// The non-blank readings, trimmed, in order.
fn nonblank_of(alts: &Vec<String>) -> (r: Vec<String>)
    ensures
        views(r@) == nonblank_alternatives(alts@),
{
    let ghost tv = views(alts@).map_values(|v: Seq<char>| trim(v));
    let ghost pred = |v: Seq<char>| v.len() > 0;
    let mut kept: Vec<String> = Vec::new();
    let mut i: usize = 0;
    while i < alts.len()
        invariant
            i <= alts.len(),
            tv == views(alts@).map_values(|v: Seq<char>| trim(v)),
            pred == (|v: Seq<char>| v.len() > 0),
            views(kept@) == tv.take(i as int).filter(pred),
        decreases alts.len() - i,
    {
        assert(tv.take(i + 1).drop_last() =~= tv.take(i as int));
        assert(tv[i as int] == trim(alts@[i as int]@));
        proof {
            reveal_with_fuel(Seq::filter, 1);
        }
        let t = trim_vec(&chars_of(alts[i].as_str()));
        if t.len() > 0 {
            let ghost kv = views(kept@);
            kept.push(string_of(&t));
            assert(views(kept@) =~= kv.push(t@));
        }
        i += 1;
    }
    assert(tv.take(alts@.len() as int) =~= tv);
    kept
}

/// The readings without consecutive repeats.
fn dedup_of(kept: &Vec<String>) -> (r: Vec<String>)
    ensures
        views(r@) == dedup(views(kept@)),
{
    let ghost kv = views(kept@);
    let mut out: Vec<String> = Vec::new();
    let mut j: usize = 0;
    while j < kept.len()
        invariant
            j <= kept.len(),
            kv == views(kept@),
            views(out@) == dedup(kv.take(j as int)),
        decreases kept.len() - j,
    {
        assert(kv.take(j + 1).drop_last() =~= kv.take(j as int));
        assert(kv[j as int] == kept@[j as int]@);
        if j >= 1 && same_text(&kept[j], &kept[j - 1]) {
            assert(kv.take(j + 1)[j - 1] == kv[j - 1]);
        } else {
            let ghost ov = views(out@);
            out.push(kept[j].clone());
            assert(views(out@) =~= ov.push(kv[j as int]));
        }
        j += 1;
    }
    assert(kv.take(kept@.len() as int) =~= kv);
    out
}

/// A field-by-field copy of provider metadata.
pub fn copy_metadata(m: &ProviderMetadata) -> (r: ProviderMetadata)
    ensures
        r == *m,
{
    ProviderMetadata {
        provider_name: m.provider_name.clone(),
        model: m.model.clone(),
        prompt_version: m.prompt_version.clone(),
        analysis_schema_version: m.analysis_schema_version,
        configuration_fingerprint: m.configuration_fingerprint.clone(),
    }
}

/// The evidence references of the cited pairs, in order.
fn evidence_refs(unit: &AnalysisUnit, pairs: &Vec<(String, String)>) -> (r: Vec<ValidatedEvidenceRef>)
    requires
        unit.chapter_index < usize::MAX,
    ensures
        r@.len() == pairs@.len(),
        forall|j: int| 0 <= j < r@.len() ==> evidence_matches(#[trigger] r@[j], *unit, pair_views(pairs@)[j]),
{
    let mut refs: Vec<ValidatedEvidenceRef> = Vec::new();
    let mut j: usize = 0;
    while j < pairs.len()
        invariant
            j <= pairs.len(),
            unit.chapter_index < usize::MAX,
            refs@.len() == j,
            forall|q: int| 0 <= q < j ==> evidence_matches(#[trigger] refs@[q], *unit, pair_views(pairs@)[q]),
        decreases pairs.len() - j,
    {
        let t = chars_of(pairs[j].0.as_str());
        proof {
            reveal_strlit("para-");
        }
        let position: usize = if starts_with_str(&t, "para-") {
            let rest = slice_vec(&t, 5, t.len());
            assert(rest@ =~= t@.skip(5));
            match parse_usize(&rest) {
                Some(n) => n,
                None => 0,
            }
        } else {
            0
        };
        let mut source = unit.source.copy();
        if source.chapter.is_none() {
            source.chapter = Some(unit.chapter_index + 1);
        }
        if source.paragraph.is_none() {
            source.paragraph = Some(position);
        }
        let scene_id = match &unit.scene_id {
            Some(s) => s.clone(),
            None => unit.chapter_id.clone(),
        };
        let r = ValidatedEvidenceRef {
            chapter_id: unit.chapter_id.clone(),
            scene_id,
            paragraph_id: pairs[j].1.clone(),
            source,
        };
        assert(r.source == evidence_source(unit.source, unit.chapter_index, token_position(pair_views(pairs@)[j as int].0)));
        refs.push(r);
        j += 1;
    }
    refs
}

/// Validates one raw finding against the unit that was supplied to the
/// model. Every evidence ordinal must be one the unit supplied; the
/// confidence level is derived from the report and the evidence together.
pub fn validate_finding(
    unit: &AnalysisUnit,
    provider_metadata: &ProviderMetadata,
    raw: &FindingResponse,
    scope: &NarrativeScope,
) -> (r: Result<AdvancedLiteraryFinding, String>)
    requires
        unit.chapter_index < usize::MAX,
    ensures
        match r {
            Err(m) => finding_error(*unit, *raw) == Some(m@),
            Ok(f) => finding_error(*unit, *raw) is None && finding_holds(
                f,
                *unit,
                *provider_metadata,
                *raw,
                *scope,
            ),
        },
{
    let (category, subject, claim) = match check_header(raw) {
        Err(m) => {
            return Err(m);
        },
        Ok(h) => h,
    };
    let pairs = match collect_evidence(unit, &raw.evidence_ordinals) {
        Err(m) => {
            return Err(m);
        },
        Ok(v) => v,
    };
    let uncertainty = uncertainty_of(&raw.uncertainty);
    match &uncertainty {
        Some(u) => {
            if chars_of(u.as_str()).len() > MAX_UNCERTAINTY_CHARS {
                return Err("finding uncertainty exceeds 400 characters".to_owned());
            }
        },
        None => {},
    }
    let readings = nonblank_of(&raw.alternative_interpretations);
    if readings.len() > MAX_ALTERNATIVES {
        return Err("finding lists more than 3 alternative interpretations".to_owned());
    }
    let alternatives = dedup_of(&readings);
    let cited = pairs.len();
    let level = if raw.confidence == ConfidenceBand::High && cited >= 2 {
        ConfidenceLevel::High
    } else if (raw.confidence == ConfidenceBand::High || raw.confidence == ConfidenceBand::Medium)
        && cited >= 1 {
        ConfidenceLevel::Moderate
    } else {
        ConfidenceLevel::Low
    };
    let n = unit.paragraph_ids.len();
    let basis = if n > 20 {
        20
    } else {
        n
    };
    let evidence = evidence_refs(unit, &pairs);
    let finding_id = finding_stable_id(
        unit.unit_id.as_str(),
        category,
        subject.as_str(),
        claim.as_str(),
        scope,
    );
    let is_review_eligible = evidence.len() > 0;
    let f = AdvancedLiteraryFinding {
        finding_id,
        analysis_unit_id: unit.unit_id.clone(),
        category,
        subject,
        claim,
        confidence: FindingConfidence {
            level,
            cited_paragraphs: cited,
            coverage_basis: basis,
            supporting_unit_count: 1,
            contradicting_unit_count: 0,
            has_deterministic_signal: false,
        },
        evidence,
        scope: scope.copy(),
        provider_metadata: copy_metadata(provider_metadata),
        uncertainty,
        alternative_interpretations: alternatives,
        is_review_eligible,
    };
    assert(f.scope == *scope);
    let ghost ts = pair_views(pairs@);
    assert(f.evidence@.len() == ts.len());
    Ok(f)
}

/// The id is that of one of the kept findings.
pub open spec fn id_taken(unit: AnalysisUnit, raws: Seq<FindingResponse>, kept: Seq<int>, id: Seq<char>) -> bool {
    exists|j: int| 0 <= j < kept.len() && #[trigger] raw_finding_id(unit, raws[kept[j]]) == id
}

/// The raw findings kept among the first `n`: the valid ones whose id no
/// earlier kept finding has.
pub open spec fn kept_upto(unit: AnalysisUnit, raws: Seq<FindingResponse>, n: int) -> Seq<int>
    decreases n,
{
    if n <= 0 {
        seq![]
    } else {
        let prev = kept_upto(unit, raws, n - 1);
        if finding_error(unit, raws[n - 1]) is None && !id_taken(
            unit,
            raws,
            prev,
            raw_finding_id(unit, raws[n - 1]),
        ) {
            prev.push(n - 1)
        } else {
            prev
        }
    }
}

/// The category and reason of each rejected finding among the first `n`.
pub open spec fn rejections_upto(unit: AnalysisUnit, raws: Seq<FindingResponse>, n: int) -> Seq<
    (Seq<char>, Seq<char>),
>
    decreases n,
{
    if n <= 0 {
        seq![]
    } else {
        let prev = rejections_upto(unit, raws, n - 1);
        match finding_error(unit, raws[n - 1]) {
            Some(m) => prev.push((raws[n - 1].category@, m)),
            None => prev,
        }
    }
}

/// Validates every finding of a unit's response. Rejected findings keep their
/// category and reason; a finding whose id repeats an earlier one collapses
/// into it.
pub fn validate_unit_response(
    unit: &AnalysisUnit,
    provider_metadata: &ProviderMetadata,
    findings: &Vec<FindingResponse>,
) -> (r: ValidationOutcome)
    requires
        unit.chapter_index < usize::MAX,
    ensures
        r.rejected@.map_values(|x: RejectedFinding| (x.category@, x.reason@)) == rejections_upto(
            *unit,
            findings@,
            findings@.len() as int,
        ),
        r.findings@.len() == kept_upto(*unit, findings@, findings@.len() as int).len(),
        forall|j: int|
            0 <= j < r.findings@.len() ==> finding_holds(
                #[trigger] r.findings@[j],
                *unit,
                *provider_metadata,
                findings@[kept_upto(*unit, findings@, findings@.len() as int)[j]],
                unit_scope(*unit),
            ),
{
    let scope = unit.scene_scope();
    let mut accepted: Vec<AdvancedLiteraryFinding> = Vec::new();
    let mut rejected: Vec<RejectedFinding> = Vec::new();
    let mut seen: Vec<String> = Vec::new();
    let ghost raws = findings@;
    let mut k: usize = 0;
    while k < findings.len()
        invariant
            k <= findings.len(),
            raws == findings@,
            scope == unit_scope(*unit),
            unit.chapter_index < usize::MAX,
            rejected@.map_values(|x: RejectedFinding| (x.category@, x.reason@)) == rejections_upto(
                *unit,
                raws,
                k as int,
            ),
            accepted@.len() == kept_upto(*unit, raws, k as int).len(),
            seen@.len() == accepted@.len(),
            forall|j: int|
                0 <= j < kept_upto(*unit, raws, k as int).len() ==> 0 <= #[trigger] kept_upto(
                    *unit,
                    raws,
                    k as int,
                )[j] < k,
            forall|j: int|
                0 <= j < accepted@.len() ==> finding_holds(
                    #[trigger] accepted@[j],
                    *unit,
                    *provider_metadata,
                    raws[kept_upto(*unit, raws, k as int)[j]],
                    scope,
                ),
            forall|j: int|
                0 <= j < seen@.len() ==> #[trigger] seen@[j]@ == raw_finding_id(
                    *unit,
                    raws[kept_upto(*unit, raws, k as int)[j]],
                ),
        decreases findings.len() - k,
    {
        let ghost prev = kept_upto(*unit, raws, k as int);
        match validate_finding(unit, provider_metadata, &findings[k], &scope) {
            Ok(f) => {
                assert(f.finding_id@ == raw_finding_id(*unit, raws[k as int]));
                if contains_text(&seen, &f.finding_id) {
                    proof {
                        let w = choose|w: int| 0 <= w < views(seen@).len() && views(seen@)[w] == f.finding_id@;
                        assert(seen@[w]@ == raw_finding_id(*unit, raws[prev[w]]));
                        assert(id_taken(*unit, raws, prev, raw_finding_id(*unit, raws[k as int])));
                    }
                } else {
                    assert(!id_taken(*unit, raws, prev, raw_finding_id(*unit, raws[k as int]))) by {
                        if id_taken(*unit, raws, prev, raw_finding_id(*unit, raws[k as int])) {
                            let j = choose|j: int| 0 <= j < prev.len() && #[trigger] raw_finding_id(*unit, raws[prev[j]]) == raw_finding_id(*unit, raws[k as int]);
                            assert(views(seen@)[j] == f.finding_id@);
                        }
                    }
                    let ghost old_seen = seen@;
                    let ghost old_acc = accepted@;
                    seen.push(f.finding_id.clone());
                    accepted.push(f);
                    let ghost next = prev.push(k as int);
                    assert(kept_upto(*unit, raws, k + 1) == next);
                    assert forall|j: int| 0 <= j < accepted@.len() implies finding_holds(
                        #[trigger] accepted@[j],
                        *unit,
                        *provider_metadata,
                        raws[next[j]],
                        scope,
                    ) by {
                        if j < old_acc.len() {
                            assert(accepted@[j] == old_acc[j]);
                        }
                    }
                    assert forall|j: int| 0 <= j < seen@.len() implies #[trigger] seen@[j]@
                        == raw_finding_id(*unit, raws[next[j]]) by {
                        if j < old_seen.len() {
                            assert(seen@[j] == old_seen[j]);
                        }
                    }
                }
            },
            Err(m) => {
                let ghost before = rejected@.map_values(|x: RejectedFinding| (x.category@, x.reason@));
                rejected.push(RejectedFinding { category: findings[k].category.clone(), reason: m });
                assert(rejected@.map_values(|x: RejectedFinding| (x.category@, x.reason@)) =~= before.push((raws[k as int].category@, m@)));
            },
        }
        k += 1;
    }
    ValidationOutcome { findings: accepted, rejected }
}

proof fn lemma_evidence_fault_none(unit: AnalysisUnit, ords: Seq<String>, k: int)
    requires
        0 <= k <= ords.len(),
        evidence_fault(unit, ords, k) is None,
    ensures
        forall|q: int|
            k <= q < ords.len() ==> normalized_ordinal((#[trigger] ords[q])@) is Some
                && resolve_ordinal_spec(string_views(unit.paragraph_ids@), normalized_ordinal(ords[q]@)->0) is Some,
    decreases ords.len() - k,
{
    if k < ords.len() {
        lemma_evidence_fault_none(unit, ords, k + 1);
    }
}

/// Law: an accepted finding cites only paragraphs of its unit; a fabricated
/// reference cannot reach the review ledger.
pub proof fn lemma_accepted_evidence_is_supplied(
    f: AdvancedLiteraryFinding,
    unit: AnalysisUnit,
    meta: ProviderMetadata,
    raw: FindingResponse,
    scope: NarrativeScope,
)
    requires
        finding_error(unit, raw) is None,
        finding_holds(f, unit, meta, raw, scope),
    ensures
        forall|j: int|
            0 <= j < f.evidence@.len() ==> string_views(unit.paragraph_ids@).contains(
                (#[trigger] f.evidence@[j]).paragraph_id@,
            ),
{
    let ts = choose|ts: CitedPairs|
        {
            &&& pairs_ascending(ts)
            &&& cites_exactly(ts, unit, raw.evidence_ordinals@)
            &&& f.evidence@.len() == ts.len()
            &&& (forall|j: int|
                0 <= j < ts.len() ==> evidence_matches(#[trigger] f.evidence@[j], unit, ts[j]))
            &&& f.confidence.level == derived_level(raw.confidence, ts.len())
            &&& f.confidence.cited_paragraphs == ts.len()
            &&& f.is_review_eligible == (ts.len() > 0)
        };
    assert(header_error(raw) is None);
    lemma_evidence_fault_none(unit, raw.evidence_ordinals@, 0);
    assert forall|j: int| 0 <= j < f.evidence@.len() implies string_views(unit.paragraph_ids@).contains(
        (#[trigger] f.evidence@[j]).paragraph_id@,
    ) by {
        assert(evidence_matches(f.evidence@[j], unit, ts[j]));
        assert(is_cited(unit, raw.evidence_ordinals@, ts[j]));
        let k = choose|k: int| 0 <= k < raw.evidence_ordinals@.len() && #[trigger] cited_pair(unit, raw.evidence_ordinals@[k]@) == ts[j];
        let t = normalized_ordinal(raw.evidence_ordinals@[k]@)->0;
        let ids = string_views(unit.paragraph_ids@);
        assert(resolve_ordinal_spec(ids, t) is Some);
        let n = parse_usize_spec(t.skip(5))->0;
        assert(ids[n - 1] == resolve_ordinal_spec(ids, t)->0);
    }
}

/// Law: a finding's confidence is earned by its evidence. It counts the
/// paragraphs it cites; it is High exactly when the provider reported a high
/// band and at least two paragraphs are cited, Moderate exactly when the band
/// is high or medium and at least one paragraph is cited but High is not
/// earned, and Low otherwise, in particular whenever nothing is cited.
pub proof fn lemma_confidence_earned_by_evidence(
    f: AdvancedLiteraryFinding,
    unit: AnalysisUnit,
    meta: ProviderMetadata,
    raw: FindingResponse,
    scope: NarrativeScope,
)
    requires
        finding_holds(f, unit, meta, raw, scope),
    ensures
        f.confidence.cited_paragraphs == f.evidence@.len(),
        f.confidence.level == ConfidenceLevel::High <==> (raw.confidence == ConfidenceBand::High
            && f.evidence@.len() >= 2),
        f.confidence.level == ConfidenceLevel::Moderate <==> ((raw.confidence == ConfidenceBand::High
            || raw.confidence == ConfidenceBand::Medium) && f.evidence@.len() >= 1 && !(raw.confidence
            == ConfidenceBand::High && f.evidence@.len() >= 2)),
        f.evidence@.len() <= 1 ==> f.confidence.level != ConfidenceLevel::High,
        f.evidence@.len() == 0 ==> f.confidence.level == ConfidenceLevel::Low,
{
    let ts = choose|ts: CitedPairs|
        {
            &&& pairs_ascending(ts)
            &&& cites_exactly(ts, unit, raw.evidence_ordinals@)
            &&& f.evidence@.len() == ts.len()
            &&& (forall|j: int|
                0 <= j < ts.len() ==> evidence_matches(#[trigger] f.evidence@[j], unit, ts[j]))
            &&& f.confidence.level == derived_level(raw.confidence, ts.len())
            &&& f.confidence.cited_paragraphs == ts.len()
            &&& f.is_review_eligible == (ts.len() > 0)
        };
}

} // verus!
