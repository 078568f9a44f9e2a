//! One bounded pass of provider-assisted analysis: every planned unit is
//! answered from the cache or asked of the provider (retrying only retryable
//! failures), every answer is validated, and disagreement between findings is
//! surfaced at the end.

use vstd::prelude::*;
use crate::analysis::{
    analysis_id, analysis_id_spec, AdvancedAnalysisError, AnalysisProviderRequest, AnalysisUnit, ProviderPrompt,
    CanonContext, FailedUnit, FindingCategory, ProviderMetadata, UsageMetadata,
    ADVANCED_ANALYSIS_SCHEMA_VERSION, PROMPT_VERSION,
};
use crate::disagreement::adjust_cross_unit_disagreement;
use crate::models::Manuscript;
use crate::orchestration::AdvancedAnalysisConfig;
use crate::planner::{positions_one_based, AnalysisPlanner};
use crate::prompts::build_prompt;
use crate::provider::{retryable, AnalysisProviderError};
use crate::text::{chars_of, extend_all, extend_str, lt_exec, same_text, seq_lt, string_of, views};
use crate::validation::{
    copy_metadata, validate_unit_response, AdvancedLiteraryFinding, FindingResponse, RejectedFinding,
};
use crate::analysis::ValidatedEvidenceRef;
use crate::fmt::{dec_digits, dec_vec};

verus! {

broadcast use vstd::string::group_string_axioms;

/// What a provider answered for one unit.
#[derive(Debug, Clone)]
pub struct AnalysisProviderResponse {
    pub findings: Vec<FindingResponse>,
    pub usage: Option<UsageMetadata>,
}

/// A literary analysis provider. Implementations answer one bounded unit at a
/// time; `pause` waits between retries (by default it returns at once).
pub trait LiteraryAnalysisProvider {
    fn name(&self) -> &str;

    fn model(&self) -> &str;

    fn analyze(&self, request: &AnalysisProviderRequest) -> Result<
        AnalysisProviderResponse,
        AnalysisProviderError,
    >;

    fn pause(&self, millis: u64) {
    }
}

// ---------------------------------------------------------------------------
// Retry policy
// ---------------------------------------------------------------------------

/// What to do after a failed attempt.
#[derive(Debug, Clone, Copy, PartialEq, Eq, Structural)]
pub enum RetryStep {
    /// Wait and ask again.
    Retry,
    /// Give up on the unit, recording whether the failure was retryable.
    Stop { retryable: bool },
}

/// After attempt `attempt` (zero-based) failed with `e`: retry while the
/// failure is retryable and retries remain, else stop.
pub open spec fn retry_spec(e: AnalysisProviderError, attempt: nat, max_retries: nat) -> RetryStep {
    if retryable(e) && attempt < max_retries {
        RetryStep::Retry
    } else {
        RetryStep::Stop { retryable: retryable(e) }
    }
}

/// The retry decision for a failed attempt.
pub fn retry_step(error: &AnalysisProviderError, attempt: usize, max_retries: usize) -> (r: RetryStep)
    ensures
        r == retry_spec(*error, attempt as nat, max_retries as nat),
{
    let retry = error.is_retryable();
    if retry && attempt < max_retries {
        RetryStep::Retry
    } else {
        RetryStep::Stop { retryable: retry }
    }
}

// ---------------------------------------------------------------------------
// Copies
// ---------------------------------------------------------------------------

/// A copy of a vector of strings.
pub fn copy_strings(v: &Vec<String>) -> (r: Vec<String>)
    ensures
        r@ == v@,
{
    let mut out: Vec<String> = Vec::new();
    let mut i: usize = 0;
    while i < v.len()
        invariant
            i <= v@.len(),
            out@ == v@.take(i as int),
        decreases v.len() - i,
    {
        out.push(v[i].clone());
        assert(out@ =~= v@.take(i + 1));
        i += 1;
    }
    assert(v@.take(v@.len() as int) =~= v@);
    out
}

impl ValidatedEvidenceRef {
    /// A field-by-field copy.
    pub fn copy(&self) -> (r: ValidatedEvidenceRef)
        ensures
            r == *self,
    {
        ValidatedEvidenceRef {
            chapter_id: self.chapter_id.clone(),
            scene_id: self.scene_id.clone(),
            paragraph_id: self.paragraph_id.clone(),
            source: self.source.copy(),
        }
    }
}

/// Two findings hold the same values (vectors compared by their contents).
pub open spec fn same_finding(a: AdvancedLiteraryFinding, b: AdvancedLiteraryFinding) -> bool {
    &&& a.finding_id == b.finding_id
    &&& a.analysis_unit_id == b.analysis_unit_id
    &&& a.category == b.category
    &&& a.subject == b.subject
    &&& a.claim == b.claim
    &&& a.confidence == b.confidence
    &&& a.evidence@ == b.evidence@
    &&& a.scope == b.scope
    &&& a.provider_metadata == b.provider_metadata
    &&& a.uncertainty == b.uncertainty
    &&& a.alternative_interpretations@ == b.alternative_interpretations@
    &&& a.is_review_eligible == b.is_review_eligible
}

impl AdvancedLiteraryFinding {
    /// A field-by-field copy.
    pub fn copy(&self) -> (r: AdvancedLiteraryFinding)
        ensures
            same_finding(r, *self),
    {
        let mut evidence: Vec<ValidatedEvidenceRef> = Vec::new();
        let mut i: usize = 0;
        while i < self.evidence.len()
            invariant
                i <= self.evidence@.len(),
                evidence@ == self.evidence@.take(i as int),
            decreases self.evidence.len() - i,
        {
            evidence.push(self.evidence[i].copy());
            assert(evidence@ =~= self.evidence@.take(i + 1));
            i += 1;
        }
        assert(self.evidence@.take(self.evidence@.len() as int) =~= self.evidence@);
        AdvancedLiteraryFinding {
            finding_id: self.finding_id.clone(),
            analysis_unit_id: self.analysis_unit_id.clone(),
            category: self.category,
            subject: self.subject.clone(),
            claim: self.claim.clone(),
            confidence: self.confidence,
            evidence,
            scope: self.scope.copy(),
            provider_metadata: copy_metadata(&self.provider_metadata),
            uncertainty: crate::models::copy_opt_string(&self.uncertainty),
            alternative_interpretations: copy_strings(&self.alternative_interpretations),
            is_review_eligible: self.is_review_eligible,
        }
    }
}

/// Copies of the findings.
pub fn copy_findings(v: &Vec<AdvancedLiteraryFinding>) -> (r: Vec<AdvancedLiteraryFinding>)
    ensures
        r@.len() == v@.len(),
        forall|i: int| 0 <= i < v@.len() ==> same_finding(#[trigger] r@[i], v@[i]),
{
    let mut out: Vec<AdvancedLiteraryFinding> = Vec::new();
    let mut i: usize = 0;
    while i < v.len()
        invariant
            i <= v@.len(),
            out@.len() == i,
            forall|q: int| 0 <= q < i ==> same_finding(#[trigger] out@[q], v@[q]),
        decreases v.len() - i,
    {
        out.push(v[i].copy());
        i += 1;
    }
    out
}


// ---------------------------------------------------------------------------
// Sorting texts
// ---------------------------------------------------------------------------

/// `x` inserted before the first element of the ascending `s` that does not
/// sort before it.
pub open spec fn insert_sorted(s: Seq<Seq<char>>, x: Seq<char>) -> Seq<Seq<char>>
    decreases s.len(),
{
    if s.len() == 0 {
        seq![x]
    } else if seq_lt(s[0], x) {
        seq![s[0]] + insert_sorted(s.drop_first(), x)
    } else {
        seq![x] + s
    }
}

/// The texts in ascending order (`Vec<String>::sort`).
pub open spec fn sort_texts(s: Seq<Seq<char>>) -> Seq<Seq<char>>
    decreases s.len(),
{
    if s.len() == 0 {
        seq![]
    } else {
        insert_sorted(sort_texts(s.drop_last()), s.last())
    }
}

/// Texts in ascending order, equal texts next to each other.
pub open spec fn texts_sorted(s: Seq<Seq<char>>) -> bool {
    forall|i: int, j: int| 0 <= i < j < s.len() ==> !seq_lt(#[trigger] s[j], #[trigger] s[i])
}

proof fn lemma_insert_sorted_at(s: Seq<Seq<char>>, x: Seq<char>, p: int)
    requires
        0 <= p <= s.len(),
        forall|q: int| 0 <= q < p ==> seq_lt(#[trigger] s[q], x),
        p < s.len() ==> !seq_lt(s[p], x),
    ensures
        insert_sorted(s, x) == s.take(p) + seq![x] + s.skip(p),
    decreases s.len(),
{
    if s.len() == 0 {
        assert(s.take(p) + seq![x] + s.skip(p) =~= seq![x]);
    } else if p == 0 {
        assert(s.take(p) + seq![x] + s.skip(p) =~= seq![x] + s);
    } else {
        assert(seq_lt(s[0], x));
        lemma_insert_sorted_at(s.drop_first(), x, p - 1);
        assert(s.take(p) + seq![x] + s.skip(p) =~= seq![s[0]] + (s.drop_first().take(p - 1) + seq![x]
            + s.drop_first().skip(p - 1)));
    }
}

/// Sorting keeps the texts and puts them in ascending order.
pub proof fn lemma_sort_texts(s: Seq<Seq<char>>)
    ensures
        texts_sorted(sort_texts(s)),
        sort_texts(s).to_multiset() == s.to_multiset(),
    decreases s.len(),
{
    broadcast use vstd::seq_lib::group_to_multiset_ensures;
    if s.len() > 0 {
        lemma_sort_texts(s.drop_last());
        let t = sort_texts(s.drop_last());
        let x = s.last();
        let p = first_not_before(t, x, 0);
        lemma_first_not_before(t, x, 0);
        lemma_insert_sorted_at(t, x, p);
        let r = t.take(p) + seq![x] + t.skip(p);
        assert forall|i: int, j: int| 0 <= i < j < r.len() implies !seq_lt(#[trigger] r[j], #[trigger] r[i]) by {
            if j < p {
                assert(r[i] == t[i] && r[j] == t[j]);
            } else if j == p {
                assert(r[i] == t[i]);
                assert(seq_lt(t[i], x));
                if seq_lt(x, t[i]) {
                    crate::text::lemma_seq_lt_transitive(x, t[i], x);
                    crate::text::lemma_seq_lt_irreflexive(x);
                }
            } else if i == p {
                assert(r[j] == t[j - 1]);
                if seq_lt(t[j - 1], x) {
                    assert(!seq_lt(t[p], x));
                    if j - 1 > p {
                        assert(!seq_lt(t[j - 1], t[p]));
                        crate::text::lemma_seq_lt_total(t[j - 1], t[p]);
                        if seq_lt(t[p], t[j - 1]) {
                            crate::text::lemma_seq_lt_transitive(t[p], t[j - 1], x);
                        }
                    }
                }
            } else if i < p {
                assert(r[i] == t[i] && r[j] == t[j - 1]);
            } else {
                assert(r[i] == t[i - 1] && r[j] == t[j - 1]);
            }
        }
        assert(r.remove(p) =~= t);
        assert(r[p] == x);
        assert(r.to_multiset().remove(x) =~= t.to_multiset());
        assert(r.to_multiset().count(x) > 0);
        assert(s.drop_last().push(x) =~= s);
        assert(r.to_multiset() =~= t.to_multiset().insert(x));
    }
}

/// The index of the first element of `t` from `i` on that does not sort
/// before `x`.
pub open spec fn first_not_before(t: Seq<Seq<char>>, x: Seq<char>, i: int) -> int
    decreases t.len() - i,
{
    if i >= t.len() || i < 0 {
        t.len() as int
    } else if seq_lt(t[i], x) {
        first_not_before(t, x, i + 1)
    } else {
        i
    }
}

proof fn lemma_first_not_before(t: Seq<Seq<char>>, x: Seq<char>, i: int)
    requires
        0 <= i <= t.len(),
        forall|q: int| 0 <= q < i ==> seq_lt(#[trigger] t[q], x),
    ensures
        i <= first_not_before(t, x, i) <= t.len(),
        forall|q: int| 0 <= q < first_not_before(t, x, i) ==> seq_lt(#[trigger] t[q], x),
        first_not_before(t, x, i) < t.len() ==> !seq_lt(t[first_not_before(t, x, i)], x),
    decreases t.len() - i,
{
    if i < t.len() && seq_lt(t[i], x) {
        lemma_first_not_before(t, x, i + 1);
    }
}

/// The strings in ascending order.
pub fn sort_strings(v: &Vec<String>) -> (r: Vec<String>)
    ensures
        views(r@) == sort_texts(views(v@)),
{
    let mut out: Vec<String> = Vec::new();
    let mut i: usize = 0;
    while i < v.len()
        invariant
            i <= v@.len(),
            views(out@) == sort_texts(views(v@.take(i as int))),
        decreases v.len() - i,
    {
        let x = chars_of(v[i].as_str());
        let ghost ov = views(out@);
        let mut pos: usize = 0;
        while pos < out.len() && lt_exec(&chars_of(out[pos].as_str()), &x)
            invariant
                pos <= out@.len(),
                ov == views(out@),
                x@ == v@[i as int]@,
                forall|q: int| 0 <= q < pos ==> seq_lt(#[trigger] ov[q], x@),
            decreases out.len() - pos,
        {
            assert(ov[pos as int] == out@[pos as int]@);
            pos += 1;
        }
        proof {
            if pos < ov.len() {
                assert(ov[pos as int] == out@[pos as int]@);
            }
            lemma_insert_sorted_at(ov, x@, pos as int);
        }
        out.insert(pos, v[i].clone());
        assert(views(out@) =~= ov.take(pos as int) + seq![x@] + ov.skip(pos as int));
        assert(views(v@.take(i + 1)).drop_last() =~= views(v@.take(i as int)));
        assert(views(v@.take(i + 1)).last() == x@);
        i += 1;
    }
    assert(v@.take(v@.len() as int) =~= v@);
    out
}

// ---------------------------------------------------------------------------
// Cache keys and canon fingerprints
// ---------------------------------------------------------------------------

/// `format!("{:?}", s)`: the text of a string's `Debug` form, a function of the
/// string alone.
pub uninterp spec fn debug_form(s: Seq<char>) -> Seq<char>;

/// `<str as Debug>::fmt`, through `format!("{:?}", ..)`: the quoted, escaped
/// form of the string. Its result is named `debug_form`; nothing more of it is
/// stated.
#[verifier::external_body]
fn debug_text(s: &str) -> (r: String)
    ensures
        r@ == debug_form(s@),
{
    format!("{:?}", s)
}

/// The `Debug` form of a list of strings: `[` the items' forms joined by
/// `", "` `]`.
pub open spec fn debug_list(s: Seq<Seq<char>>) -> Seq<char> {
    "["@ + crate::text::join(s.map_values(|t: Seq<char>| debug_form(t)), ", "@) + "]"@
}

fn debug_list_exec(v: &Vec<String>) -> (r: Vec<char>)
    ensures
        r@ == debug_list(views(v@)),
{
    let mut parts: Vec<Vec<char>> = Vec::new();
    let mut i: usize = 0;
    while i < v.len()
        invariant
            i <= v@.len(),
            parts.deep_view() == views(v@).take(i as int).map_values(|t: Seq<char>| debug_form(t)),
        decreases v.len() - i,
    {
        let d = chars_of(debug_text(v[i].as_str()).as_str());
        let ghost before = parts.deep_view();
        proof {
            crate::text::lemma_char_vec_deep(&d);
        }
        parts.push(d);
        assert(parts.deep_view() =~= before.push(debug_form(v@[i as int]@)));
        assert(views(v@).take(i + 1).map_values(|t: Seq<char>| debug_form(t)) =~= views(v@).take(
            i as int,
        ).map_values(|t: Seq<char>| debug_form(t)).push(debug_form(v@[i as int]@)));
        i += 1;
    }
    assert(views(v@).take(v@.len() as int) =~= views(v@));
    let mut out = chars_of("[");
    let sep = chars_of(", ");
    extend_all(&mut out, &crate::text::join_exec(&parts, &sep));
    extend_str(&mut out, "]");
    out
}

/// The identity hashed into a canon fingerprint: the sorted names and the
/// sorted terms, each in `Debug` list form, separated by a NUL.
pub open spec fn canon_identity(names: Seq<Seq<char>>, terms: Seq<Seq<char>>) -> Seq<char> {
    debug_list(sort_texts(names)) + "\0"@ + debug_list(sort_texts(terms))
}

/// The fingerprint of the approved canon supplied to analysis; the order of
/// the inputs does not matter.
pub fn canon_fingerprint(character_names: &Vec<String>, glossary_terms: &Vec<String>) -> (r: String)
    ensures
        r@ == crate::digest::sha256_hex(
            vstd::utf8::encode_utf8(canon_identity(views(character_names@), views(glossary_terms@))),
        ),
{
    let names = sort_strings(character_names);
    let terms = sort_strings(glossary_terms);
    let mut v = debug_list_exec(&names);
    extend_str(&mut v, "\0");
    extend_all(&mut v, &debug_list_exec(&terms));
    let identity = string_of(&v);
    crate::digest::stable_hash(identity.as_str().as_bytes())
}

/// The identity hashed into a cache key.
pub open spec fn cache_identity(
    schema_version: u32,
    prompt_version: Seq<char>,
    provider: Seq<char>,
    model: Seq<char>,
    configuration_fingerprint: Seq<char>,
    canon_fingerprint: Seq<char>,
    unit_id: Seq<char>,
) -> Seq<char> {
    dec_digits(schema_version as nat) + "\0"@ + prompt_version + "\0"@ + provider + "\0"@ + model
        + "\0"@ + configuration_fingerprint + "\0"@ + canon_fingerprint + "\0"@ + unit_id
}

/// The cache key of one unit: every material input and nothing else (no time,
/// no credential).
pub fn cache_key(
    schema_version: u32,
    prompt_version: &str,
    provider: &str,
    model: &str,
    configuration_fingerprint: &str,
    canon_fingerprint: &str,
    unit_id: &str,
) -> (r: String)
    ensures
        r@ == "cache-"@ + crate::digest::sha256_hex(
            vstd::utf8::encode_utf8(
                cache_identity(
                    schema_version,
                    prompt_version@,
                    provider@,
                    model@,
                    configuration_fingerprint@,
                    canon_fingerprint@,
                    unit_id@,
                ),
            ),
        ),
{
    let mut v = dec_vec(schema_version as usize);
    extend_str(&mut v, "\0");
    extend_str(&mut v, prompt_version);
    extend_str(&mut v, "\0");
    extend_str(&mut v, provider);
    extend_str(&mut v, "\0");
    extend_str(&mut v, model);
    extend_str(&mut v, "\0");
    extend_str(&mut v, configuration_fingerprint);
    extend_str(&mut v, "\0");
    extend_str(&mut v, canon_fingerprint);
    extend_str(&mut v, "\0");
    extend_str(&mut v, unit_id);
    let identity = string_of(&v);
    let h = crate::digest::stable_hash(identity.as_str().as_bytes());
    let mut out = chars_of("cache-");
    extend_str(&mut out, h.as_str());
    string_of(&out)
}


// ---------------------------------------------------------------------------
// The unit cache
// ---------------------------------------------------------------------------

/// The validated findings of one unit, stored under its cache key.
#[derive(Debug, Clone)]
pub struct CachedUnitResult {
    pub key: String,
    pub unit_id: String,
    pub provider: String,
    pub model: String,
    pub prompt_version: String,
    pub findings: Vec<AdvancedLiteraryFinding>,
    /// When the result was stored (RFC 3339).
    pub stored_at: String,
}

/// Cache entries strictly ascending by key.
pub open spec fn entries_ascending(es: Seq<CachedUnitResult>) -> bool {
    forall|a: int, b: int| 0 <= a < b < es.len() ==> seq_lt(#[trigger] es[a].key@, #[trigger] es[b].key@)
}

/// Reusable unit results, one per key, in key order.
pub struct AnalysisCache {
    entries: Vec<CachedUnitResult>,
}

impl AnalysisCache {
    /// The stored entries, in key order.
    pub closed spec fn contents(&self) -> Seq<CachedUnitResult> {
        self.entries@
    }

    /// Keys strictly ascending, so each key is stored once.
    pub closed spec fn well_formed(&self) -> bool {
        entries_ascending(self.entries@)
    }

    /// An empty cache.
    pub fn new() -> (r: AnalysisCache)
        ensures
            r.well_formed(),
            r.contents().len() == 0,
    {
        AnalysisCache { entries: Vec::new() }
    }

    /// The entry stored under `key`, if any.
    pub fn get(&self, key: &str) -> (r: Option<&CachedUnitResult>)
        requires
            self.well_formed(),
        ensures
            r is Some <==> exists|i: int| 0 <= i < self.contents().len() && self.contents()[i].key@ == key@,
            r matches Some(e) ==> e.key@ == key@ && self.contents().contains(*e),
    {
        let kv = chars_of(key);
        let mut i: usize = 0;
        while i < self.entries.len()
            invariant
                i <= self.entries@.len(),
                kv@ == key@,
                forall|q: int| 0 <= q < i ==> (#[trigger] self.entries@[q]).key@ != key@,
            decreases self.entries.len() - i,
        {
            if crate::text::vec_eq(&chars_of(self.entries[i].key.as_str()), &kv) {
                assert(self.contents()[i as int].key@ == key@);
                assert(self.contents()[i as int] == self.entries@[i as int]);
                return Some(&self.entries[i]);
            }
            i += 1;
        }
        None
    }

    /// Stores a result, replacing the one stored under the same key.
    pub fn insert(&mut self, result: CachedUnitResult)
        requires
            old(self).well_formed(),
        ensures
            final(self).well_formed(),
            final(self).contents().contains(result),
            forall|i: int|
                0 <= i < final(self).contents().len() ==> (#[trigger] final(self).contents()[i] == result || (
                final(self).contents()[i].key@ != result.key@ && old(self).contents().contains(
                    final(self).contents()[i],
                ))),
            forall|j: int|
                0 <= j < old(self).contents().len() && (#[trigger] old(self).contents()[j]).key@
                    != result.key@ ==> final(self).contents().contains(old(self).contents()[j]),
    {
        let ghost rv = self.entries@;
        let kv = chars_of(result.key.as_str());
        let mut pos: usize = 0;
        while pos < self.entries.len() && lt_exec(&chars_of(self.entries[pos].key.as_str()), &kv)
            invariant
                pos <= self.entries@.len(),
                rv == self.entries@,
                kv@ == result.key@,
                forall|q: int| 0 <= q < pos ==> seq_lt(#[trigger] rv[q].key@, result.key@),
            decreases self.entries.len() - pos,
        {
            pos += 1;
        }
        if pos < self.entries.len() && crate::text::vec_eq(&chars_of(self.entries[pos].key.as_str()), &kv) {
            let ghost k = result.key@;
            self.entries.set(pos, result);
            let ghost nv = self.entries@;
            assert(nv =~= rv.update(pos as int, result));
            assert forall|a: int, b: int| 0 <= a < b < nv.len() implies seq_lt(#[trigger] nv[a].key@, #[trigger] nv[b].key@) by {
                assert(nv[a].key@ == rv[a].key@ && nv[b].key@ == rv[b].key@);
            }
            assert(nv[pos as int] == result);
            assert forall|i: int| 0 <= i < nv.len() implies (#[trigger] nv[i] == result || (nv[i].key@ != result.key@ && rv.contains(nv[i]))) by {
                if i != pos {
                    assert(nv[i] == rv[i]);
                    if rv[i].key@ == k {
                        crate::text::lemma_seq_lt_irreflexive(k);
                        if i > pos {
                            assert(seq_lt(rv[pos as int].key@, rv[i].key@));
                        }
                    }
                }
            }
            assert forall|j: int| 0 <= j < rv.len() && (#[trigger] rv[j]).key@ != result.key@ implies nv.contains(rv[j]) by {
                assert(nv[j] == rv[j]);
            }
            return;
        }
        proof {
            if pos < rv.len() {
                assert(!seq_lt(rv[pos as int].key@, result.key@));
                crate::text::lemma_seq_lt_total(rv[pos as int].key@, result.key@);
            }
        }
        let ghost k = result.key@;
        let ghost res = result;
        self.entries.insert(pos, result);
        let ghost nv = self.entries@;
        assert(nv =~= rv.take(pos as int).push(res) + rv.skip(pos as int));
        assert(nv[pos as int] == res);
        assert forall|a: int, b: int| 0 <= a < b < nv.len() implies seq_lt(#[trigger] nv[a].key@, #[trigger] nv[b].key@) by {
            if b < pos {
                assert(nv[a] == rv[a] && nv[b] == rv[b]);
            } else if b == pos {
                assert(nv[a] == rv[a]);
            } else if a == pos {
                assert(nv[b] == rv[b - 1]);
                if b - 1 > pos {
                    crate::text::lemma_seq_lt_transitive(k, rv[pos as int].key@, rv[b - 1].key@);
                }
            } else if a < pos {
                assert(nv[a] == rv[a] && nv[b] == rv[b - 1]);
            } else {
                assert(nv[a] == rv[a - 1] && nv[b] == rv[b - 1]);
            }
        }
        assert forall|i: int| 0 <= i < nv.len() implies (#[trigger] nv[i] == res || (nv[i].key@ != k && rv.contains(nv[i]))) by {
            if i < pos {
                assert(nv[i] == rv[i]);
                crate::text::lemma_seq_lt_irreflexive(k);
            } else if i > pos {
                assert(nv[i] == rv[i - 1]);
                crate::text::lemma_seq_lt_irreflexive(k);
                if i - 1 > pos {
                    crate::text::lemma_seq_lt_transitive(k, rv[pos as int].key@, rv[i - 1].key@);
                }
            }
        }
        assert forall|j: int| 0 <= j < rv.len() && (#[trigger] rv[j]).key@ != k implies nv.contains(rv[j]) by {
            if j < pos {
                assert(nv[j] == rv[j]);
            } else {
                assert(nv[j + 1] == rv[j]);
            }
        }
    }

    /// The stored entries, in key order.
    pub fn entries(&self) -> (r: &Vec<CachedUnitResult>)
        ensures
            r@ == self.contents(),
    {
        &self.entries
    }

    /// The number of stored entries.
    pub fn cached_count(&self) -> (r: usize)
        ensures
            r == self.contents().len(),
    {
        self.entries.len()
    }

    /// The positions, in key order, of the entries kept when the cache is
    /// capped at `max` entries: the `max` newest by write time, the earlier
    /// position first among entries written at the same time (entries whose
    /// time cannot be read count as oldest).
    pub fn retained_positions(&self, max: usize) -> (r: Vec<usize>)
        ensures
            forall|a: int, b: int| 0 <= a < b < r@.len() ==> r@[a] < r@[b],
            forall|a: int| 0 <= a < r@.len() ==> (#[trigger] r@[a]) < self.contents().len() && retained(self.contents(), r@[a] as int, max as nat),
            forall|i: int| 0 <= i < self.contents().len() && retained(self.contents(), i, max as nat) ==> r@.contains(i as usize),
    {
        let es = &self.entries;
        let mut instants: Vec<Option<(i64, u32)>> = Vec::new();
        let mut k: usize = 0;
        while k < es.len()
            invariant
                k <= es@.len(),
                instants@.len() == k,
                forall|q: int| 0 <= q < k ==> #[trigger] instants@[q] == rfc3339_instant(es@[q].stored_at@),
            decreases es.len() - k,
        {
            instants.push(stored_instant(es[k].stored_at.as_str()));
            k += 1;
        }
        let mut out: Vec<usize> = Vec::new();
        let mut i: usize = 0;
        while i < es.len()
            invariant
                i <= es@.len(),
                instants@.len() == es@.len(),
                forall|q: int| 0 <= q < es@.len() ==> #[trigger] instants@[q] == rfc3339_instant(es@[q].stored_at@),
                forall|a: int, b: int| 0 <= a < b < out@.len() ==> out@[a] < out@[b],
                forall|a: int| 0 <= a < out@.len() ==> (#[trigger] out@[a]) < i && retained(es@, out@[a] as int, max as nat),
                forall|q: int| 0 <= q < i && retained(es@, q, max as nat) ==> out@.contains(q as usize),
            decreases es.len() - i,
        {
            let mut ahead: usize = 0;
            let mut j: usize = 0;
            while j < es.len()
                invariant
                    j <= es@.len(),
                    i < es@.len(),
                    instants@.len() == es@.len(),
                    forall|q: int| 0 <= q < es@.len() ==> #[trigger] instants@[q] == rfc3339_instant(es@[q].stored_at@),
                    ahead == rank_upto(es@, i as int, j as int),
                    ahead <= j,
                decreases es.len() - j,
            {
                let before = match (instants[j], instants[i]) {
                    (None, _) => false,
                    (Some(_), None) => true,
                    (Some(x), Some(y)) => x.0 > y.0 || (x.0 == y.0 && x.1 > y.1),
                };
                let same = instants[j] == instants[i];
                if before || (same && j < i) {
                    ahead += 1;
                }
                j += 1;
            }
            if ahead < max {
                let ghost prev = out@;
                out.push(i);
                assert(out@[out@.len() - 1] == i);
                assert forall|q: int| 0 <= q < i + 1 && retained(es@, q, max as nat) implies out@.contains(q as usize) by {
                    if q < i {
                        let a = choose|a: int| 0 <= a < prev.len() && prev[a] == q as usize;
                        assert(out@[a] == prev[a]);
                    } else {
                        assert(out@[out@.len() - 1] == q as usize);
                    }
                }
            }
            i += 1;
        }
        out
    }
}

/// The time an entry was written, as `chrono` reads its RFC 3339 text:
/// seconds and nanoseconds since the Unix epoch, when it can be read.
pub uninterp spec fn rfc3339_instant(s: Seq<char>) -> Option<(i64, u32)>;

/// `chrono::DateTime::parse_from_rfc3339`, as its Unix timestamp and
/// sub-second nanoseconds.
#[verifier::external_body]
fn stored_instant(s: &str) -> (r: Option<(i64, u32)>)
    ensures
        r == rfc3339_instant(s@),
{
    chrono::DateTime::parse_from_rfc3339(s).ok().map(|t| (t.timestamp(), t.timestamp_subsec_nanos()))
}

/// Time `x` is later than time `y`; an unreadable time is earlier than any.
pub open spec fn later(x: Option<(i64, u32)>, y: Option<(i64, u32)>) -> bool {
    match (x, y) {
        (None, _) => false,
        (Some(_), None) => true,
        (Some(a), Some(b)) => a.0 > b.0 || (a.0 == b.0 && a.1 > b.1),
    }
}

/// Entry `j` comes before entry `i` when the newest are taken first: it was
/// written later, or at the same time and stands earlier.
pub open spec fn ahead_of(es: Seq<CachedUnitResult>, j: int, i: int) -> bool {
    let x = rfc3339_instant(es[j].stored_at@);
    let y = rfc3339_instant(es[i].stored_at@);
    later(x, y) || (x == y && j < i)
}

/// How many of the first `n` entries come before entry `i`.
pub open spec fn rank_upto(es: Seq<CachedUnitResult>, i: int, n: int) -> nat
    decreases n,
{
    if n <= 0 {
        0
    } else {
        rank_upto(es, i, n - 1) + if ahead_of(es, n - 1, i) {
            1nat
        } else {
            0nat
        }
    }
}

/// Entry `i` is among the `max` newest.
pub open spec fn retained(es: Seq<CachedUnitResult>, i: int, max: nat) -> bool {
    rank_upto(es, i, es.len() as int) < max
}


// ---------------------------------------------------------------------------
// Notes, usage and retries
// ---------------------------------------------------------------------------

/// At most the first three items.
pub open spec fn first_three(s: Seq<Seq<char>>) -> Seq<Seq<char>> {
    if s.len() < 3 {
        s
    } else {
        s.take(3)
    }
}

/// The warning for a unit whose response had rejected findings: their number
/// and the first three reasons, sorted.
pub open spec fn rejection_note(unit_id: Seq<char>, reasons: Seq<Seq<char>>) -> Option<Seq<char>> {
    if reasons.len() == 0 {
        None
    } else {
        Some(
            "unit "@ + unit_id + ": rejected "@ + dec_digits(reasons.len()) + " provider finding(s) ("@
                + crate::text::join(sort_texts(first_three(reasons)), "; "@) + ")"@,
        )
    }
}

/// The reasons of rejected findings.
pub open spec fn reasons_of(rejected: Seq<RejectedFinding>) -> Seq<Seq<char>> {
    rejected.map_values(|x: RejectedFinding| x.reason@)
}

/// The warning about a unit's rejected findings, if there were any.
pub fn rejection_warning(unit_id: &str, rejected: &Vec<RejectedFinding>) -> (r: Option<String>)
    ensures
        crate::plain_text::opt_string_view(r) == rejection_note(unit_id@, reasons_of(rejected@)),
{
    if rejected.len() == 0 {
        return None;
    }
    let ghost rs = reasons_of(rejected@);
    let mut first: Vec<String> = Vec::new();
    let mut i: usize = 0;
    while i < rejected.len() && i < 3
        invariant
            i <= rejected@.len(),
            i <= 3,
            rs == reasons_of(rejected@),
            views(first@) == rs.take(i as int),
        decreases rejected.len() - i,
    {
        assert(rs[i as int] == rejected@[i as int].reason@);
        let ghost before = views(first@);
        first.push(rejected[i].reason.clone());
        assert(views(first@) =~= before.push(rs[i as int]));
        assert(views(first@) =~= rs.take(i + 1));
        i += 1;
    }
    assert(views(first@) =~= first_three(rs));
    let sorted = sort_strings(&first);
    let mut v = chars_of("unit ");
    extend_str(&mut v, unit_id);
    extend_str(&mut v, ": rejected ");
    extend_all(&mut v, &dec_vec(rejected.len()));
    extend_str(&mut v, " provider finding(s) (");
    extend_all(&mut v, &crate::text::join_strings(&sorted, "; "));
    extend_str(&mut v, ")");
    Some(string_of(&v))
}

/// Adds a usage report to a running total; a counter that would overflow stays
/// at its maximum.
pub fn add_usage(total: &mut UsageMetadata, other: &UsageMetadata)
    ensures
        final(total).input_tokens == crate::analysis_run::saturating(old(total).input_tokens as int + other.input_tokens),
        final(total).output_tokens == crate::analysis_run::saturating(old(total).output_tokens as int + other.output_tokens),
        final(total).total_tokens == crate::analysis_run::saturating(old(total).total_tokens as int + other.total_tokens),
        final(total).request_count == crate::analysis_run::saturating(old(total).request_count as int + other.request_count),
{
    total.input_tokens = total.input_tokens.saturating_add(other.input_tokens);
    total.output_tokens = total.output_tokens.saturating_add(other.output_tokens);
    total.total_tokens = total.total_tokens.saturating_add(other.total_tokens);
    total.request_count = total.request_count.saturating_add(other.request_count);
}

/// A sum capped at `usize::MAX`.
pub open spec fn saturating(n: int) -> int {
    if n > usize::MAX {
        usize::MAX as int
    } else {
        n
    }
}

/// A failed attempt whose failure is retryable.
pub open spec fn failed_retryably(a: Result<AnalysisProviderResponse, AnalysisProviderError>) -> bool {
    match a {
        Ok(_) => false,
        Err(e) => retryable(e),
    }
}

/// Asks the provider for one unit, retrying retryable failures while retries
/// remain (pausing between attempts), and returns the outcome, the number of
/// retries made (attempts after the first) and, as a ghost record, what each
/// attempt gave. Every attempt is the provider's answer to this very request;
/// every attempt but the last failed retryably; the last is the outcome. A
/// non-retryable failure therefore ends the attempts at once, a success ends
/// them, and a retryable failure ends them only on the last of
/// `max_retries + 1` attempts.
pub fn call_with_retry<P: LiteraryAnalysisProvider>(
    provider: &P,
    request: &AnalysisProviderRequest,
    max_retries: usize,
    retry_delay_ms: u64,
) -> (out: (
    Result<AnalysisProviderResponse, (AnalysisProviderError, bool)>,
    usize,
    Ghost<Seq<Result<AnalysisProviderResponse, AnalysisProviderError>>>,
))
    ensures
        ({
            let (r, retries, attempts) = out;
            &&& retries <= max_retries
            &&& attempts@.len() == retries + 1
            &&& forall|i: int|
                0 <= i < attempts@.len() ==> call_ensures(
                    P::analyze,
                    (provider, request),
                    #[trigger] attempts@[i],
                )
            &&& forall|i: int| 0 <= i < retries ==> failed_retryably(#[trigger] attempts@[i])
            &&& r matches Ok(resp) ==> attempts@[retries as int] == Ok::<
                AnalysisProviderResponse,
                AnalysisProviderError,
            >(resp)
            &&& r matches Err(f) ==> attempts@[retries as int] == Err::<
                AnalysisProviderResponse,
                AnalysisProviderError,
            >(f.0)
            &&& r matches Ok(resp) ==> call_ensures(P::analyze, (provider, request), Ok(resp))
            &&& r matches Err(f) ==> call_ensures(P::analyze, (provider, request), Err(f.0))
            &&& r matches Err(f) ==> f.1 == retryable(f.0)
            &&& r matches Err(f) ==> (f.1 <==> retries == max_retries && retryable(f.0))
        }),
{
    let mut attempt: usize = 0;
    let ghost mut hist: Seq<Result<AnalysisProviderResponse, AnalysisProviderError>> = Seq::empty();
    loop
        invariant
            attempt <= max_retries,
            hist.len() == attempt,
            forall|i: int|
                0 <= i < hist.len() ==> call_ensures(P::analyze, (provider, request), #[trigger] hist[i]),
            forall|i: int| 0 <= i < hist.len() ==> failed_retryably(#[trigger] hist[i]),
        decreases max_retries - attempt,
    {
        let answer = provider.analyze(request);
        let ghost h = hist.push(answer);
        match answer {
            Ok(response) => {
                assert(h[attempt as int] == Ok::<AnalysisProviderResponse, AnalysisProviderError>(response));
                return (Ok(response), attempt, Ghost(h));
            },
            Err(error) => {
                match retry_step(&error, attempt, max_retries) {
                    RetryStep::Retry => {
                        if retry_delay_ms > 0 {
                            provider.pause(retry_delay_ms);
                        }
                        proof {
                            hist = h;
                            assert(failed_retryably(hist[attempt as int]));
                        }
                        attempt += 1;
                    },
                    RetryStep::Stop { retryable } => {
                        return (Err((error, retryable)), attempt, Ghost(h));
                    },
                }
            },
        }
    }
}

// ---------------------------------------------------------------------------
// Requests
// ---------------------------------------------------------------------------

/// Two units hold the same values (vectors compared by their contents).
pub open spec fn same_unit(a: AnalysisUnit, b: AnalysisUnit) -> bool {
    &&& a.unit_id == b.unit_id
    &&& a.unit_type == b.unit_type
    &&& a.chapter_id == b.chapter_id
    &&& a.chapter_index == b.chapter_index
    &&& a.scene_id == b.scene_id
    &&& a.text_content == b.text_content
    &&& a.text_fingerprint == b.text_fingerprint
    &&& a.paragraph_ids@ == b.paragraph_ids@
    &&& a.previous_scene_context == b.previous_scene_context
    &&& a.next_scene_context == b.next_scene_context
    &&& a.known_character_names@ == b.known_character_names@
    &&& a.known_glossary_terms@ == b.known_glossary_terms@
    &&& a.source == b.source
}

/// Two canon contexts hold the same entries.
pub open spec fn same_canon(a: CanonContext, b: CanonContext) -> bool {
    &&& a.character_names@ == b.character_names@
    &&& a.character_aliases@ == b.character_aliases@
    &&& a.glossary_terms@ == b.glossary_terms@
    &&& a.relationship_pairs@ == b.relationship_pairs@
}

/// The request handed to the provider for a unit: the unit itself, its
/// prompt, the configured categories and the approved canon.
pub open spec fn request_for(
    req: AnalysisProviderRequest,
    unit: AnalysisUnit,
    canon: CanonContext,
    categories: Seq<FindingCategory>,
) -> bool {
    &&& same_unit(req.unit, unit)
    &&& req.prompt.system@ == crate::prompts::system_text(categories)
    &&& req.prompt.user@ == crate::prompts::user_text(unit, canon)
    &&& req.prompt.prompt_version@ == PROMPT_VERSION@
    &&& req.categories@ == categories
    &&& same_canon(req.canon_context, canon)
}

/// A copy of a vector of string pairs.
fn copy_pairs(v: &Vec<(String, String)>) -> (r: Vec<(String, String)>)
    ensures
        r@ == v@,
{
    let mut out: Vec<(String, String)> = Vec::new();
    let mut i: usize = 0;
    while i < v.len()
        invariant
            i <= v@.len(),
            out@ == v@.take(i as int),
        decreases v.len() - i,
    {
        let (a, b) = &v[i];
        out.push((a.clone(), b.clone()));
        assert(out@ =~= v@.take(i + 1));
        i += 1;
    }
    assert(v@.take(v@.len() as int) =~= v@);
    out
}

/// A copy of a vector of categories.
fn copy_categories(v: &Vec<FindingCategory>) -> (r: Vec<FindingCategory>)
    ensures
        r@ == v@,
{
    let mut out: Vec<FindingCategory> = Vec::new();
    let mut i: usize = 0;
    while i < v.len()
        invariant
            i <= v@.len(),
            out@ == v@.take(i as int),
        decreases v.len() - i,
    {
        out.push(v[i]);
        assert(out@ =~= v@.take(i + 1));
        i += 1;
    }
    assert(v@.take(v@.len() as int) =~= v@);
    out
}

/// A field-by-field copy of a unit.
fn copy_unit(u: &AnalysisUnit) -> (r: AnalysisUnit)
    ensures
        same_unit(r, *u),
{
    AnalysisUnit {
        unit_id: u.unit_id.clone(),
        unit_type: u.unit_type,
        chapter_id: u.chapter_id.clone(),
        chapter_index: u.chapter_index,
        scene_id: crate::models::copy_opt_string(&u.scene_id),
        text_content: u.text_content.clone(),
        text_fingerprint: u.text_fingerprint.clone(),
        paragraph_ids: copy_strings(&u.paragraph_ids),
        previous_scene_context: crate::models::copy_opt_string(&u.previous_scene_context),
        next_scene_context: crate::models::copy_opt_string(&u.next_scene_context),
        known_character_names: copy_strings(&u.known_character_names),
        known_glossary_terms: copy_strings(&u.known_glossary_terms),
        source: u.source.copy(),
    }
}

/// A copy of the canon context.
fn copy_canon(c: &CanonContext) -> (r: CanonContext)
    ensures
        same_canon(r, *c),
{
    CanonContext {
        character_names: copy_strings(&c.character_names),
        character_aliases: copy_strings(&c.character_aliases),
        glossary_terms: copy_strings(&c.glossary_terms),
        relationship_pairs: copy_pairs(&c.relationship_pairs),
    }
}

// ---------------------------------------------------------------------------
// What a run did with each unit
// ---------------------------------------------------------------------------

/// What a run did with one unit: answered it from the cache (`entry`), had
/// the provider answer `request` with `response` (then `stored` is what went
/// into the cache), or recorded the provider's final `error`. `findings` are
/// the unit's findings before disagreement is surfaced.
pub struct UnitRun {
    pub cached: bool,
    pub failed: bool,
    pub entry: CachedUnitResult,
    pub request: AnalysisProviderRequest,
    pub response: AnalysisProviderResponse,
    pub stored: CachedUnitResult,
    pub error: AnalysisProviderError,
    pub findings: Seq<AdvancedLiteraryFinding>,
}

/// The provider answered the unit.
pub open spec fn answered(r: UnitRun) -> bool {
    !r.cached && !r.failed
}

/// The cache key of a unit under the run's metadata and canon.
pub open spec fn unit_key(meta: ProviderMetadata, canon: CanonContext, unit_id: Seq<char>) -> Seq<char> {
    "cache-"@ + crate::digest::sha256_hex(
        vstd::utf8::encode_utf8(
            cache_identity(
                ADVANCED_ANALYSIS_SCHEMA_VERSION,
                meta.prompt_version@,
                meta.provider_name@,
                meta.model@,
                meta.configuration_fingerprint@,
                crate::digest::sha256_hex(
                    vstd::utf8::encode_utf8(
                        canon_identity(views(canon.character_names@), views(canon.glossary_terms@)),
                    ),
                ),
                unit_id,
            ),
        ),
    )
}

/// `fs` are the findings that validating the raw findings of a unit keeps.
pub open spec fn kept_findings(
    fs: Seq<AdvancedLiteraryFinding>,
    unit: AnalysisUnit,
    meta: ProviderMetadata,
    raws: Seq<FindingResponse>,
) -> bool {
    let kept = crate::validation::kept_upto(unit, raws, raws.len() as int);
    &&& fs.len() == kept.len()
    &&& forall|j: int|
        0 <= j < fs.len() ==> crate::validation::finding_holds(
            #[trigger] fs[j],
            unit,
            meta,
            raws[kept[j]],
            crate::analysis::unit_scope(unit),
        )
}

/// `run` is what the run owes `unit`, after the `earlier` runs: answered
/// from a cache entry that was there before the run or that an earlier unit
/// stored; answered by the provider for the unit's request, its kept findings
/// validated from the answer and stored under the unit's key; or failed with
/// an error the provider gave for the unit's request.
#[verifier::opaque]
pub open spec fn unit_run_ok<P: LiteraryAnalysisProvider>(
    run: UnitRun,
    earlier: Seq<UnitRun>,
    u: AnalysisUnit,
    provider: &P,
    canon: CanonContext,
    categories: Seq<FindingCategory>,
    meta: ProviderMetadata,
    old_cache: Seq<CachedUnitResult>,
    analyzed_at: Seq<char>,
) -> bool {
    let key = unit_key(meta, canon, u.unit_id@);
    &&& !(run.cached && run.failed)
    &&& run.cached ==> {
        &&& run.entry.key@ == key
        &&& run.findings == run.entry.findings@
        &&& (old_cache.contains(run.entry) || exists|j: int|
            0 <= j < earlier.len() && answered(#[trigger] earlier[j]) && earlier[j].stored == run.entry)
    }
    &&& !run.cached ==> request_for(run.request, u, canon, categories)
    &&& answered(run) ==> {
        &&& call_ensures(P::analyze, (provider, &run.request), Ok(run.response))
        &&& kept_findings(run.findings, u, meta, run.response.findings@)
        &&& run.stored.key@ == key
        &&& run.stored.unit_id@ == u.unit_id@
        &&& run.stored.provider@ == meta.provider_name@
        &&& run.stored.model@ == meta.model@
        &&& run.stored.prompt_version@ == meta.prompt_version@
        &&& run.stored.findings@ == run.findings
        &&& run.stored.stored_at@ == analyzed_at
    }
    &&& run.failed ==> {
        &&& call_ensures(P::analyze, (provider, &run.request), Err(run.error))
        &&& run.findings.len() == 0
    }
}

/// The findings of the runs, in unit order.
pub open spec fn run_findings(runs: Seq<UnitRun>) -> Seq<AdvancedLiteraryFinding>
    decreases runs.len(),
{
    if runs.len() == 0 {
        seq![]
    } else {
        run_findings(runs.drop_last()) + runs.last().findings
    }
}

/// How many units were answered from the cache.
pub open spec fn cached_count(runs: Seq<UnitRun>) -> nat
    decreases runs.len(),
{
    if runs.len() == 0 {
        0
    } else {
        cached_count(runs.drop_last()) + if runs.last().cached {
            1nat
        } else {
            0nat
        }
    }
}

/// The failed units, in order: id, message and whether retryable.
pub open spec fn failure_list(runs: Seq<UnitRun>, units: Seq<AnalysisUnit>) -> Seq<(Seq<char>, Seq<char>, bool)>
    decreases runs.len(),
{
    if runs.len() == 0 {
        seq![]
    } else {
        failure_list(runs.drop_last(), units) + if runs.last().failed {
            seq![
                (
                    units[runs.len() - 1].unit_id@,
                    crate::provider::provider_error_message(runs.last().error),
                    retryable(runs.last().error),
                ),
            ]
        } else {
            seq![]
        }
    }
}

/// Pointwise the same findings.
pub open spec fn same_findings(a: Seq<AdvancedLiteraryFinding>, b: Seq<AdvancedLiteraryFinding>) -> bool {
    a.len() == b.len() && forall|i: int| 0 <= i < a.len() ==> same_finding(#[trigger] a[i], b[i])
}

/// `post` is `pre` with disagreement surfaced: each finding of a group whose
/// readings differ is flagged, every other finding stays as it was.
pub open spec fn surfaced(pre: Seq<AdvancedLiteraryFinding>, post: Seq<AdvancedLiteraryFinding>) -> bool {
    &&& post.len() == pre.len()
    &&& forall|i: int|
        0 <= i < pre.len() ==> if crate::disagreement::in_conflict(pre, crate::disagreement::group_key(pre[i])) {
            crate::disagreement::flagged(
                pre[i],
                #[trigger] post[i],
                crate::disagreement::readings(pre, crate::disagreement::group_key(pre[i])).len(),
            )
        } else {
            post[i] == pre[i]
        }
}

// ---------------------------------------------------------------------------
// A run
// ---------------------------------------------------------------------------

/// The outcome of an analysis run.
#[derive(Debug, Clone)]
pub struct AdvancedAnalysisResult {
    pub schema_version: u32,
    pub analysis_id: String,
    pub manuscript_id: String,
    pub manuscript_title: String,
    pub provider_metadata: ProviderMetadata,
    pub findings: Vec<AdvancedLiteraryFinding>,
    pub failed_units: Vec<FailedUnit>,
    pub total_units: usize,
    pub succeeded_units: usize,
    pub cached_units: usize,
    pub warnings: Vec<String>,
    pub usage: UsageMetadata,
    /// When the run happened (RFC 3339).
    pub analyzed_at: String,
}

/// A manuscript can be analyzed: its paragraph positions are one-based and its
/// chapter indexes leave room for one-based numbering.
pub open spec fn analysis_ready(m: Manuscript) -> bool {
    &&& positions_one_based(m.chapters@)
    &&& forall|c: int| 0 <= c < m.chapters@.len() ==> (#[trigger] m.chapters@[c]).index < usize::MAX
}

/// Whether a manuscript can be analyzed.
pub fn check_analysis_ready(m: &Manuscript) -> (r: bool)
    ensures
        r == analysis_ready(*m),
{
    let chs = &m.chapters;
    let mut c: usize = 0;
    while c < chs.len()
        invariant
            c <= chs@.len(),
            chs == &m.chapters,
            forall|q: int| 0 <= q < c ==> (#[trigger] chs@[q]).index < usize::MAX,
            forall|ci: int, si: int, pi: int|
                0 <= ci < c && 0 <= si < chs@[ci].scenes@.len() && 0 <= pi
                    < chs@[ci].scenes@[si].paragraphs@.len() ==> #[trigger] chs@[ci].scenes@[si].paragraphs@[pi].position >= 1,
        decreases chs.len() - c,
    {
        if chs[c].index == usize::MAX {
            return false;
        }
        let scenes = &chs[c].scenes;
        let mut s: usize = 0;
        while s < scenes.len()
            invariant
                s <= scenes@.len(),
                c < chs@.len(),
                chs == &m.chapters,
                scenes == &chs@[c as int].scenes,
                forall|q: int| 0 <= q < c ==> (#[trigger] chs@[q]).index < usize::MAX,
                forall|ci: int, si: int, pi: int|
                    0 <= ci < c && 0 <= si < chs@[ci].scenes@.len() && 0 <= pi
                        < chs@[ci].scenes@[si].paragraphs@.len() ==> #[trigger] chs@[ci].scenes@[si].paragraphs@[pi].position >= 1,
                forall|si: int, pi: int|
                    0 <= si < s && 0 <= pi < scenes@[si].paragraphs@.len() ==> #[trigger] scenes@[si].paragraphs@[pi].position >= 1,
            decreases scenes.len() - s,
        {
            let ps = &scenes[s].paragraphs;
            let mut p: usize = 0;
            while p < ps.len()
                invariant
                    p <= ps@.len(),
                    s < scenes@.len(),
                    c < chs@.len(),
                    chs == &m.chapters,
                    scenes == &chs@[c as int].scenes,
                    ps == &scenes@[s as int].paragraphs,
                    forall|pi: int| 0 <= pi < p ==> (#[trigger] ps@[pi]).position >= 1,
                decreases ps.len() - p,
            {
                if ps[p].position == 0 {
                    assert(m.chapters@[c as int].scenes@[s as int].paragraphs@[p as int].position < 1);
                    assert(!positions_one_based(m.chapters@));
                    return false;
                }
                p += 1;
            }
            s += 1;
        }
        c += 1;
    }
    true
}

/// One bounded analysis pass over a manuscript. Every planned unit is either
/// answered from the cache, answered by the provider (retrying retryable
/// failures), or recorded as failed; answers are validated, rejections noted,
/// usage summed, and disagreement between findings surfaced at the end. New
/// unit results are stored in the cache. The run fails only when planning
/// does. The contract records, per unit, what was done (`UnitRun`): the
/// request handed to the provider, the findings kept from its answer or taken
/// from the cache, the failures, and the cache entries stored; the result's
/// findings are those, in unit order, with disagreement surfaced.
pub fn run_advanced_analysis<P: LiteraryAnalysisProvider>(
    manuscript: &Manuscript,
    canon: &CanonContext,
    provider: &P,
    config: &AdvancedAnalysisConfig,
    cache: &mut AnalysisCache,
    analyzed_at: String,
) -> (r: Result<AdvancedAnalysisResult, AdvancedAnalysisError>)
    requires
        analysis_ready(*manuscript),
        old(cache).well_formed(),
    ensures
        final(cache).well_formed(),
        ({
            let slots = crate::planner::unit_slots(config.planner, *manuscript);
            &&& r is Ok <==> 0 < slots.len() <= config.planner.max_units
            &&& r matches Err(e) ==> if slots.len() == 0 {
                e == AdvancedAnalysisError::EmptyManuscript
            } else {
                e matches AdvancedAnalysisError::Configuration(m) && m@ == crate::planner::too_many_units(
                    slots.len(),
                    config.planner.max_units as nat,
                )
            }
            &&& r matches Ok(res) ==> {
                &&& res.schema_version == ADVANCED_ANALYSIS_SCHEMA_VERSION
                &&& res.analysis_id@ == analysis_id_spec(
                    manuscript.book.id@,
                    res.provider_metadata.provider_name@,
                    res.provider_metadata.model@,
                )
                &&& res.manuscript_id == manuscript.book.id
                &&& res.manuscript_title == manuscript.book.title
                &&& (exists|n: &str|
                    call_ensures(P::name, (provider,), n) && n@ == res.provider_metadata.provider_name@)
                &&& (exists|m: &str|
                    call_ensures(P::model, (provider,), m) && m@ == res.provider_metadata.model@)
                &&& res.provider_metadata.prompt_version@ == PROMPT_VERSION@
                &&& res.provider_metadata.analysis_schema_version == ADVANCED_ANALYSIS_SCHEMA_VERSION
                &&& res.provider_metadata.configuration_fingerprint@ == crate::digest::sha256_hex(
                    vstd::utf8::encode_utf8(crate::orchestration::config_identity(*config)),
                )
                &&& res.total_units == slots.len()
                &&& res.succeeded_units + res.failed_units@.len() == res.total_units
                &&& res.cached_units <= res.succeeded_units
                &&& res.analyzed_at == analyzed_at
                &&& exists|units: Seq<AnalysisUnit>, runs: Seq<UnitRun>| {
                    &&& crate::planner::units_match(units, config.planner, manuscript.chapters@, *canon, slots)
                    &&& runs.len() == units.len()
                    &&& runs_ok(
                        runs,
                        units,
                        provider,
                        *canon,
                        config.categories@,
                        res.provider_metadata,
                        old(cache).contents(),
                        analyzed_at@,
                    )
                    &&& exists|pre: Seq<AdvancedLiteraryFinding>|
                        same_findings(pre, run_findings(runs)) && surfaced(pre, res.findings@)
                    &&& res.cached_units == cached_count(runs)
                    &&& res.failed_units@.map_values(|f: FailedUnit| (f.unit_id@, f.error@, f.retryable))
                        == failure_list(runs, units)
                    &&& cache_tracks(final(cache).contents(), old(cache).contents(), runs)
                }
            }
        }),
{
    let ghost old_cache = cache.contents();
    let planner = AnalysisPlanner::new(config.planner);
    let units = match planner.plan(manuscript, canon) {
        Ok(us) => us,
        Err(e) => {
            return Err(e);
        },
    };
    let ghost slots = crate::planner::unit_slots(config.planner, *manuscript);
    proof {
        crate::planner::lemma_chapter_slots(config.planner, manuscript.chapters@, manuscript.chapters@.len() as int);
    }
    let configuration_fingerprint = config.fingerprint();
    let pname = provider.name();
    let pmodel = provider.model();
    let name = String::from_str(pname);
    let model = String::from_str(pmodel);
    let metadata = ProviderMetadata {
        provider_name: name.clone(),
        model: model.clone(),
        prompt_version: String::from_str(PROMPT_VERSION),
        analysis_schema_version: ADVANCED_ANALYSIS_SCHEMA_VERSION,
        configuration_fingerprint: configuration_fingerprint.clone(),
    };
    let canon_fp = canon_fingerprint(&canon.character_names, &canon.glossary_terms);
    let mut findings: Vec<AdvancedLiteraryFinding> = Vec::new();
    let mut failed_units: Vec<FailedUnit> = Vec::new();
    let mut warnings: Vec<String> = Vec::new();
    let mut usage = UsageMetadata::zero();
    let mut succeeded_units: usize = 0;
    let mut cached_units: usize = 0;
    let ghost mut runs: Seq<UnitRun> = Seq::empty();
    proof {
        reveal(runs_ok);
        reveal(cache_tracks);
    }
    let mut i: usize = 0;
    while i < units.len()
        invariant
            i <= units@.len(),
            units@.len() == slots.len(),
            crate::planner::units_match(units@, config.planner, manuscript.chapters@, *canon, slots),
            analysis_ready(*manuscript),
            forall|k: int| 0 <= k < slots.len() ==> {
                let slot = #[trigger] slots[k];
                &&& 0 <= slot.0 < manuscript.chapters@.len()
                &&& !crate::text::is_blank(crate::planner::group_text(config.planner, manuscript.chapters@[slot.0].scenes@[slot.1], slot.2))
            },
            cache.well_formed(),
            succeeded_units + failed_units@.len() == i,
            cached_units <= succeeded_units,
            name@ == metadata.provider_name@,
            model@ == metadata.model@,
            metadata.prompt_version@ == PROMPT_VERSION@,
            configuration_fingerprint@ == metadata.configuration_fingerprint@,
            canon_fp@ == crate::digest::sha256_hex(
                vstd::utf8::encode_utf8(canon_identity(views(canon.character_names@), views(canon.glossary_terms@))),
            ),
            runs.len() == i,
            runs_ok(runs, units@, provider, *canon, config.categories@, metadata, old_cache, analyzed_at@),
            same_findings(findings@, run_findings(runs)),
            cached_units == cached_count(runs),
            failed_units@.map_values(|f: FailedUnit| (f.unit_id@, f.error@, f.retryable)) == failure_list(runs, units@),
            cache_tracks(cache.contents(), old_cache, runs),
        decreases units.len() - i,
    {
        let unit = &units[i];
        assert(crate::planner::unit_matches(units@[i as int], config.planner, manuscript.chapters@, *canon, slots[i as int]));
        assert(manuscript.chapters@[slots[i as int].0].index < usize::MAX);
        let prompt = match build_prompt(unit, canon, config.categories.as_slice()) {
            Ok(p) => p,
            Err(e) => {
                return Err(e);
            },
        };
        let key = cache_key(
            ADVANCED_ANALYSIS_SCHEMA_VERSION,
            prompt.prompt_version.as_str(),
            name.as_str(),
            model.as_str(),
            configuration_fingerprint.as_str(),
            canon_fp.as_str(),
            unit.unit_id.as_str(),
        );
        assert(key@ == unit_key(metadata, *canon, unit.unit_id@));
        let ghost prev_runs = runs;
        let ghost prev_findings = findings@;
        let ghost prev_failed = failed_units@;
        match cache.get(key.as_str()) {
            Some(entry) => {
                let ghost e = *entry;
                let mut reused = copy_findings(&entry.findings);
                let ghost rv = reused@;
                findings.append(&mut reused);
                cached_units += 1;
                succeeded_units += 1;
                proof {
                    let run = lemma_cached_step(prev_runs, e, cache.contents(), units@, provider, *canon, config.categories@, metadata, old_cache, analyzed_at@);
                    runs = prev_runs.push(run);
                    assert(runs.drop_last() =~= prev_runs);
                    assert(findings@ =~= prev_findings + rv);
                    assert(run_findings(runs) == run_findings(prev_runs) + e.findings@);
                    assert(same_findings(findings@, run_findings(runs))) by {
                        assert forall|t: int| 0 <= t < findings@.len() implies same_finding(#[trigger] findings@[t], run_findings(runs)[t]) by {
                            if t < prev_findings.len() {
                                assert(findings@[t] == prev_findings[t]);
                            } else {
                                assert(findings@[t] == rv[t - prev_findings.len()]);
                            }
                        }
                    }
                    assert(failure_list(runs, units@) == failure_list(prev_runs, units@));
                }
                i += 1;
                continue;
            },
            None => {},
        }
        let request = AnalysisProviderRequest {
            unit: copy_unit(unit),
            prompt: ProviderPrompt {
                system: prompt.system.clone(),
                user: prompt.user.clone(),
                prompt_version: prompt.prompt_version.clone(),
            },
            categories: copy_categories(&config.categories),
            canon_context: copy_canon(canon),
        };
        assert(request_for(request, *unit, *canon, config.categories@));
        match call_with_retry(provider, &request, config.max_retries, config.retry_delay_ms).0 {
            Ok(response) => {
                let ghost resp = response;
                succeeded_units += 1;
                match &response.usage {
                    Some(u) => add_usage(&mut usage, u),
                    None => {},
                }
                let outcome = validate_unit_response(unit, &metadata, &response.findings);
                match rejection_warning(unit.unit_id.as_str(), &outcome.rejected) {
                    Some(w) => warnings.push(w),
                    None => {},
                }
                let mut kept = copy_findings(&outcome.findings);
                let ghost kv = kept@;
                findings.append(&mut kept);
                let result = CachedUnitResult {
                    key,
                    unit_id: unit.unit_id.clone(),
                    provider: name.clone(),
                    model: model.clone(),
                    prompt_version: prompt.prompt_version.clone(),
                    findings: outcome.findings,
                    stored_at: analyzed_at.clone(),
                };
                let ghost stored = result;
                let ghost before = cache.contents();
                cache.insert(result);
                proof {
                    let run = UnitRun {
                        cached: false,
                        failed: false,
                        entry: vstd::pervasive::arbitrary(),
                        request: request,
                        response: resp,
                        stored: stored,
                        error: vstd::pervasive::arbitrary(),
                        findings: stored.findings@,
                    };
                    runs = prev_runs.push(run);
                    assert(runs.drop_last() =~= prev_runs);
                    assert(unit_run_ok(run, prev_runs, units@[i as int], provider, *canon, config.categories@, metadata, old_cache, analyzed_at@)) by {
                        reveal(unit_run_ok);
                    }
                    lemma_answered_step(prev_runs, run, before, cache.contents(), units@, provider, *canon, config.categories@, metadata, old_cache, analyzed_at@);
                    assert(findings@ =~= prev_findings + kv);
                    assert(run_findings(runs) == run_findings(prev_runs) + stored.findings@);
                    assert(same_findings(findings@, run_findings(runs))) by {
                        assert forall|t: int| 0 <= t < findings@.len() implies same_finding(#[trigger] findings@[t], run_findings(runs)[t]) by {
                            if t < prev_findings.len() {
                                assert(findings@[t] == prev_findings[t]);
                            } else {
                                assert(findings@[t] == kv[t - prev_findings.len()]);
                            }
                        }
                    }
                    assert(failure_list(runs, units@) == failure_list(prev_runs, units@));
                }
            },
            Err((error, retryable)) => {
                let ghost err = error;
                let fu = FailedUnit { unit_id: unit.unit_id.clone(), error: error.message(), retryable };
                failed_units.push(fu);
                proof {
                    let run = UnitRun {
                        cached: false,
                        failed: true,
                        entry: vstd::pervasive::arbitrary(),
                        request: request,
                        response: vstd::pervasive::arbitrary(),
                        stored: vstd::pervasive::arbitrary(),
                        error: err,
                        findings: Seq::empty(),
                    };
                    runs = prev_runs.push(run);
                    assert(runs.drop_last() =~= prev_runs);
                    assert(unit_run_ok(run, prev_runs, units@[i as int], provider, *canon, config.categories@, metadata, old_cache, analyzed_at@)) by {
                        reveal(unit_run_ok);
                    }
                    lemma_failed_step(prev_runs, run, cache.contents(), units@, provider, *canon, config.categories@, metadata, old_cache, analyzed_at@);
                    assert(run_findings(runs) =~= run_findings(prev_runs) + Seq::<AdvancedLiteraryFinding>::empty());
                    assert(failed_units@.map_values(|f: FailedUnit| (f.unit_id@, f.error@, f.retryable))
                        =~= prev_failed.map_values(|f: FailedUnit| (f.unit_id@, f.error@, f.retryable)).push((fu.unit_id@, fu.error@, fu.retryable)));
                }
            },
        }
        i += 1;
    }
    let ghost pre = findings@;
    adjust_cross_unit_disagreement(&mut findings, &mut warnings);
    let res = AdvancedAnalysisResult {
        schema_version: ADVANCED_ANALYSIS_SCHEMA_VERSION,
        analysis_id: analysis_id(manuscript.book.id.as_str(), name.as_str(), model.as_str()),
        manuscript_id: manuscript.book.id.clone(),
        manuscript_title: manuscript.book.title.clone(),
        provider_metadata: metadata,
        findings,
        failed_units,
        total_units: units.len(),
        succeeded_units,
        cached_units,
        warnings,
        usage,
        analyzed_at,
    };
    assert(surfaced(pre, res.findings@));
    assert(same_findings(pre, run_findings(runs)));
    Ok(res)
}

/// Every run is what the run owes its unit.
#[verifier::opaque]
pub open spec fn runs_ok<P: LiteraryAnalysisProvider>(
    runs: Seq<UnitRun>,
    units: Seq<AnalysisUnit>,
    provider: &P,
    canon: CanonContext,
    categories: Seq<FindingCategory>,
    meta: ProviderMetadata,
    old_cache: Seq<CachedUnitResult>,
    analyzed_at: Seq<char>,
) -> bool {
    forall|k: int| 0 <= k < runs.len() ==> #[trigger] unit_run_ok(
        runs[k],
        runs.take(k),
        units[k],
        provider,
        canon,
        categories,
        meta,
        old_cache,
        analyzed_at,
    )
}

/// The cache holds only entries it held before or that the runs stored, and
/// for each answered unit an entry stored under its key by it or a later
/// answered unit.
#[verifier::opaque]
pub open spec fn cache_tracks(
    cache: Seq<CachedUnitResult>,
    old_cache: Seq<CachedUnitResult>,
    runs: Seq<UnitRun>,
) -> bool {
    &&& forall|q: int| 0 <= q < cache.len() ==> (old_cache.contains(#[trigger] cache[q]) || exists|j: int|
        0 <= j < runs.len() && answered(#[trigger] runs[j]) && runs[j].stored == cache[q])
    &&& forall|j: int| 0 <= j < runs.len() && answered(#[trigger] runs[j]) ==> exists|j2: int|
        j <= j2 < runs.len() && answered(#[trigger] runs[j2]) && runs[j2].stored.key@ == runs[j].stored.key@
            && cache.contains(runs[j2].stored)
}

proof fn lemma_runs_extend<P: LiteraryAnalysisProvider>(
    prev: Seq<UnitRun>,
    run: UnitRun,
    units: Seq<AnalysisUnit>,
    provider: &P,
    canon: CanonContext,
    categories: Seq<FindingCategory>,
    meta: ProviderMetadata,
    old_cache: Seq<CachedUnitResult>,
    analyzed_at: Seq<char>,
)
    requires
        runs_ok(prev, units, provider, canon, categories, meta, old_cache, analyzed_at),
        unit_run_ok(run, prev, units[prev.len() as int], provider, canon, categories, meta, old_cache, analyzed_at),
    ensures
        runs_ok(prev.push(run), units, provider, canon, categories, meta, old_cache, analyzed_at),
{
    reveal(runs_ok);
    let runs = prev.push(run);
    let i = prev.len() as int;
    assert forall|k: int| 0 <= k < runs.len() implies #[trigger] unit_run_ok(
        runs[k],
        runs.take(k),
        units[k],
        provider,
        canon,
        categories,
        meta,
        old_cache,
        analyzed_at,
    ) by {
        if k < i {
            assert(runs.take(k) =~= prev.take(k));
            assert(runs[k] == prev[k]);
            assert(unit_run_ok(prev[k], prev.take(k), units[k], provider, canon, categories, meta, old_cache, analyzed_at));
        } else {
            assert(runs.take(k) =~= prev);
        }
    }
}

/// A unit answered from an entry of the cache.
#[verifier::spinoff_prover]
#[verifier::rlimit(80)]
proof fn lemma_cached_step<P: LiteraryAnalysisProvider>(
    prev: Seq<UnitRun>,
    e: CachedUnitResult,
    cache: Seq<CachedUnitResult>,
    units: Seq<AnalysisUnit>,
    provider: &P,
    canon: CanonContext,
    categories: Seq<FindingCategory>,
    meta: ProviderMetadata,
    old_cache: Seq<CachedUnitResult>,
    analyzed_at: Seq<char>,
) -> (run: UnitRun)
    requires
        runs_ok(prev, units, provider, canon, categories, meta, old_cache, analyzed_at),
        cache_tracks(cache, old_cache, prev),
        cache.contains(e),
        prev.len() < units.len(),
        e.key@ == unit_key(meta, canon, units[prev.len() as int].unit_id@),
    ensures
        run.cached && !run.failed && run.findings == e.findings@,
        runs_ok(prev.push(run), units, provider, canon, categories, meta, old_cache, analyzed_at),
        cache_tracks(cache, old_cache, prev.push(run)),
{
    reveal(cache_tracks);
    let run = UnitRun {
        cached: true,
        failed: false,
        entry: e,
        request: vstd::pervasive::arbitrary(),
        response: vstd::pervasive::arbitrary(),
        stored: vstd::pervasive::arbitrary(),
        error: vstd::pervasive::arbitrary(),
        findings: e.findings@,
    };
    let runs = prev.push(run);
    let i = prev.len() as int;
    let q = choose|q: int| 0 <= q < cache.len() && cache[q] == e;
    assert(unit_run_ok(run, prev, units[i], provider, canon, categories, meta, old_cache, analyzed_at)) by {
        reveal(unit_run_ok);
        if !old_cache.contains(e) {
            let j = choose|j: int| 0 <= j < prev.len() && answered(#[trigger] prev[j]) && prev[j].stored == cache[q];
        }
    }
    lemma_runs_extend(prev, run, units, provider, canon, categories, meta, old_cache, analyzed_at);
    assert forall|q2: int| 0 <= q2 < cache.len() implies (old_cache.contains(#[trigger] cache[q2]) || exists|j: int|
        0 <= j < runs.len() && answered(#[trigger] runs[j]) && runs[j].stored == cache[q2]) by {
        if !old_cache.contains(cache[q2]) {
            let j = choose|j: int| 0 <= j < prev.len() && answered(#[trigger] prev[j]) && prev[j].stored == cache[q2];
            assert(runs[j] == prev[j]);
        }
    }
    assert forall|j: int| 0 <= j < runs.len() && answered(#[trigger] runs[j]) implies exists|j2: int|
        j <= j2 < runs.len() && answered(#[trigger] runs[j2]) && runs[j2].stored.key@ == runs[j].stored.key@
            && cache.contains(runs[j2].stored) by {
        assert(j < i);
        assert(runs[j] == prev[j]);
        let j2 = choose|j2: int| j <= j2 < prev.len() && answered(#[trigger] prev[j2]) && prev[j2].stored.key@ == prev[j].stored.key@
            && cache.contains(prev[j2].stored);
        assert(runs[j2] == prev[j2]);
    }
    run
}

/// A unit the provider answered, its result stored into the cache.
#[verifier::spinoff_prover]
#[verifier::rlimit(80)]
proof fn lemma_answered_step<P: LiteraryAnalysisProvider>(
    prev: Seq<UnitRun>,
    run: UnitRun,
    before: Seq<CachedUnitResult>,
    after: Seq<CachedUnitResult>,
    units: Seq<AnalysisUnit>,
    provider: &P,
    canon: CanonContext,
    categories: Seq<FindingCategory>,
    meta: ProviderMetadata,
    old_cache: Seq<CachedUnitResult>,
    analyzed_at: Seq<char>,
)
    requires
        runs_ok(prev, units, provider, canon, categories, meta, old_cache, analyzed_at),
        cache_tracks(before, old_cache, prev),
        answered(run),
        prev.len() < units.len(),
        unit_run_ok(run, prev, units[prev.len() as int], provider, canon, categories, meta, old_cache, analyzed_at),
        after.contains(run.stored),
        forall|x: int| 0 <= x < after.len() ==> (#[trigger] after[x] == run.stored || (after[x].key@ != run.stored.key@ && before.contains(after[x]))),
        forall|y: int| 0 <= y < before.len() && (#[trigger] before[y]).key@ != run.stored.key@ ==> after.contains(before[y]),
    ensures
        runs_ok(prev.push(run), units, provider, canon, categories, meta, old_cache, analyzed_at),
        cache_tracks(after, old_cache, prev.push(run)),
{
    reveal(cache_tracks);
    let runs = prev.push(run);
    let i = prev.len() as int;
    lemma_runs_extend(prev, run, units, provider, canon, categories, meta, old_cache, analyzed_at);
    assert forall|q2: int| 0 <= q2 < after.len() implies (old_cache.contains(#[trigger] after[q2]) || exists|j: int|
        0 <= j < runs.len() && answered(#[trigger] runs[j]) && runs[j].stored == after[q2]) by {
        if after[q2] == run.stored {
            assert(answered(runs[i]));
        } else {
            let b = choose|b: int| 0 <= b < before.len() && before[b] == after[q2];
            if !old_cache.contains(before[b]) {
                let j = choose|j: int| 0 <= j < prev.len() && answered(#[trigger] prev[j]) && prev[j].stored == before[b];
                assert(runs[j] == prev[j]);
            }
        }
    }
    assert forall|j: int| 0 <= j < runs.len() && answered(#[trigger] runs[j]) implies exists|j2: int|
        j <= j2 < runs.len() && answered(#[trigger] runs[j2]) && runs[j2].stored.key@ == runs[j].stored.key@
            && after.contains(runs[j2].stored) by {
        if j == i {
            assert(answered(runs[i]));
        } else {
            assert(runs[j] == prev[j]);
            let j2 = choose|j2: int| j <= j2 < prev.len() && answered(#[trigger] prev[j2]) && prev[j2].stored.key@ == prev[j].stored.key@
                && before.contains(prev[j2].stored);
            assert(runs[j2] == prev[j2]);
            if prev[j2].stored.key@ == run.stored.key@ {
                assert(answered(runs[i]));
            } else {
                let b = choose|b: int| 0 <= b < before.len() && before[b] == prev[j2].stored;
                assert(after.contains(before[b]));
            }
        }
    }
}

/// A unit whose provider attempts failed.
#[verifier::spinoff_prover]
#[verifier::rlimit(80)]
proof fn lemma_failed_step<P: LiteraryAnalysisProvider>(
    prev: Seq<UnitRun>,
    run: UnitRun,
    cache: Seq<CachedUnitResult>,
    units: Seq<AnalysisUnit>,
    provider: &P,
    canon: CanonContext,
    categories: Seq<FindingCategory>,
    meta: ProviderMetadata,
    old_cache: Seq<CachedUnitResult>,
    analyzed_at: Seq<char>,
)
    requires
        runs_ok(prev, units, provider, canon, categories, meta, old_cache, analyzed_at),
        cache_tracks(cache, old_cache, prev),
        run.failed,
        prev.len() < units.len(),
        unit_run_ok(run, prev, units[prev.len() as int], provider, canon, categories, meta, old_cache, analyzed_at),
    ensures
        runs_ok(prev.push(run), units, provider, canon, categories, meta, old_cache, analyzed_at),
        cache_tracks(cache, old_cache, prev.push(run)),
{
    reveal(cache_tracks);
    let runs = prev.push(run);
    let i = prev.len() as int;
    lemma_runs_extend(prev, run, units, provider, canon, categories, meta, old_cache, analyzed_at);
    assert forall|q2: int| 0 <= q2 < cache.len() implies (old_cache.contains(#[trigger] cache[q2]) || exists|j: int|
        0 <= j < runs.len() && answered(#[trigger] runs[j]) && runs[j].stored == cache[q2]) by {
        if !old_cache.contains(cache[q2]) {
            let j = choose|j: int| 0 <= j < prev.len() && answered(#[trigger] prev[j]) && prev[j].stored == cache[q2];
            assert(runs[j] == prev[j]);
        }
    }
    assert forall|j: int| 0 <= j < runs.len() && answered(#[trigger] runs[j]) implies exists|j2: int|
        j <= j2 < runs.len() && answered(#[trigger] runs[j2]) && runs[j2].stored.key@ == runs[j].stored.key@
            && cache.contains(runs[j2].stored) by {
        assert(j < i);
        assert(runs[j] == prev[j]);
        let j2 = choose|j2: int| j <= j2 < prev.len() && answered(#[trigger] prev[j2]) && prev[j2].stored.key@ == prev[j].stored.key@
            && cache.contains(prev[j2].stored);
        assert(runs[j2] == prev[j2]);
    }
}



// ---------------------------------------------------------------------------
// Order independence of the canon fingerprint
// ---------------------------------------------------------------------------

proof fn lemma_sorted_unique(a: Seq<Seq<char>>, b: Seq<Seq<char>>)
    requires
        texts_sorted(a),
        texts_sorted(b),
        a.to_multiset() == b.to_multiset(),
    ensures
        a == b,
    decreases a.len(),
{
    broadcast use vstd::seq_lib::group_to_multiset_ensures;
    assert(a.len() == a.to_multiset().len());
    assert(b.len() == b.to_multiset().len());
    if a.len() == 0 {
        assert(a =~= b);
    } else {
        assert(a.to_multiset().count(a[0]) > 0);
        assert(b.contains(a[0]));
        let j = choose|j: int| 0 <= j < b.len() && b[j] == a[0];
        assert(b.to_multiset().count(b[0]) > 0);
        assert(a.contains(b[0]));
        let i = choose|i: int| 0 <= i < a.len() && a[i] == b[0];
        if j > 0 {
            assert(!seq_lt(b[j], b[0]));
        }
        if i > 0 {
            assert(!seq_lt(a[i], a[0]));
        }
        crate::text::lemma_seq_lt_total(a[0], b[0]);
        crate::text::lemma_seq_lt_irreflexive(a[0]);
        assert(a[0] == b[0]);
        assert(a.remove(0) =~= a.drop_first());
        assert(b.remove(0) =~= b.drop_first());
        assert(a.drop_first().to_multiset() =~= a.to_multiset().remove(a[0]));
        assert(b.drop_first().to_multiset() =~= b.to_multiset().remove(b[0]));
        assert forall|p: int, q: int| 0 <= p < q < a.drop_first().len() implies !seq_lt(
            #[trigger] a.drop_first()[q],
            #[trigger] a.drop_first()[p],
        ) by {
            assert(a.drop_first()[q] == a[q + 1] && a.drop_first()[p] == a[p + 1]);
        }
        assert forall|p: int, q: int| 0 <= p < q < b.drop_first().len() implies !seq_lt(
            #[trigger] b.drop_first()[q],
            #[trigger] b.drop_first()[p],
        ) by {
            assert(b.drop_first()[q] == b[q + 1] && b.drop_first()[p] == b[p + 1]);
        }
        lemma_sorted_unique(a.drop_first(), b.drop_first());
        assert(a =~= seq![a[0]] + a.drop_first());
        assert(b =~= seq![b[0]] + b.drop_first());
    }
}

/// The canon fingerprint does not depend on the order in which names and
/// terms are given: inputs holding the same names and the same terms, in any
/// order, give the same identity and so the same fingerprint.
pub proof fn lemma_canon_identity_order_independent(
    names1: Seq<Seq<char>>,
    names2: Seq<Seq<char>>,
    terms1: Seq<Seq<char>>,
    terms2: Seq<Seq<char>>,
)
    requires
        names1.to_multiset() == names2.to_multiset(),
        terms1.to_multiset() == terms2.to_multiset(),
    ensures
        canon_identity(names1, terms1) == canon_identity(names2, terms2),
{
    lemma_sort_texts(names1);
    lemma_sort_texts(names2);
    lemma_sort_texts(terms1);
    lemma_sort_texts(terms2);
    lemma_sorted_unique(sort_texts(names1), sort_texts(names2));
    lemma_sorted_unique(sort_texts(terms1), sort_texts(terms2));
}

} // verus!
