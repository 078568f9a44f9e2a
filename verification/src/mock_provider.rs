//! A deterministic analysis provider for offline runs and tests: it never calls
//! an external service and cites only evidence it was given.

use vstd::prelude::*;
use crate::analysis::{ordinal_token_spec, AnalysisProviderRequest, UsageMetadata};
use crate::analysis_run::{copy_strings, AnalysisProviderResponse, LiteraryAnalysisProvider};
use crate::provider::AnalysisProviderError;
use crate::text::{chars_of, extend_str, starts_with, starts_with_str, string_of, views};
use crate::validation::{ConfidenceBand, FindingResponse};

verus! {

broadcast use vstd::string::group_string_axioms;

/// One finding the mock provider reports for every unit.
#[derive(Debug, Clone)]
pub struct MockFindingTemplate {
    pub category: String,
    pub subject: String,
    pub claim: String,
    /// The reported confidence, by band and rendering.
    pub confidence: ConfidenceBand,
    pub confidence_text: String,
    /// Ordinals to cite; none means the first two supplied.
    pub evidence_ordinals: Vec<String>,
    pub uncertainty: Option<String>,
}

impl Default for MockFindingTemplate {
    fn default() -> (r: MockFindingTemplate)
        ensures
            r.category@ == "tone"@,
            r.subject@ == "scene"@,
            r.claim@ == "neutral narrative tone"@,
            r.confidence == ConfidenceBand::Medium,
            r.confidence_text@ == "0.7"@,
            r.evidence_ordinals@.len() == 0,
            r.uncertainty matches Some(u) && u@ == "based on limited textual evidence"@,
    {
        MockFindingTemplate {
            category: String::from_str("tone"),
            subject: String::from_str("scene"),
            claim: String::from_str("neutral narrative tone"),
            confidence: ConfidenceBand::Medium,
            confidence_text: String::from_str("0.7"),
            evidence_ordinals: Vec::new(),
            uncertainty: Some(String::from_str("based on limited textual evidence")),
        }
    }
}

/// What the mock provider does: its findings per unit, the unit id prefixes
/// that fail permanently or with a retryable error, and the usage it reports.
#[derive(Debug, Clone)]
pub struct MockAnalysisProviderConfig {
    pub findings_per_unit: Vec<MockFindingTemplate>,
    pub failing_unit_prefixes: Vec<String>,
    pub retryable_fail_prefixes: Vec<String>,
    pub usage: UsageMetadata,
}

impl Default for MockAnalysisProviderConfig {
    fn default() -> (r: MockAnalysisProviderConfig)
        ensures
            r.findings_per_unit@.len() == 0,
            r.failing_unit_prefixes@.len() == 0,
            r.retryable_fail_prefixes@.len() == 0,
            r.usage == (UsageMetadata { input_tokens: 0, output_tokens: 0, total_tokens: 0, request_count: 0 }),
    {
        MockAnalysisProviderConfig {
            findings_per_unit: Vec::new(),
            failing_unit_prefixes: Vec::new(),
            retryable_fail_prefixes: Vec::new(),
            usage: UsageMetadata::zero(),
        }
    }
}

/// The deterministic mock provider.
pub struct MockAnalysisProvider {
    pub config: MockAnalysisProviderConfig,
}

impl MockAnalysisProvider {
    /// A provider with the given behaviour.
    pub fn new(config: MockAnalysisProviderConfig) -> (r: MockAnalysisProvider)
        ensures
            r.config == config,
    {
        MockAnalysisProvider { config }
    }

    /// A provider reporting the default finding for every unit.
    pub fn with_default_findings() -> (r: MockAnalysisProvider)
        ensures
            r.config.findings_per_unit@.len() == 1,
            r.config.failing_unit_prefixes@.len() == 0,
            r.config.retryable_fail_prefixes@.len() == 0,
    {
        let mut config = MockAnalysisProviderConfig::default();
        config.findings_per_unit.push(MockFindingTemplate::default());
        MockAnalysisProvider { config }
    }

    /// A provider failing permanently on units with the given id prefixes.
    pub fn with_failing_units(prefixes: Vec<String>) -> (r: MockAnalysisProvider)
        ensures
            r.config.findings_per_unit@.len() == 0,
            r.config.failing_unit_prefixes == prefixes,
            r.config.retryable_fail_prefixes@.len() == 0,
    {
        let mut config = MockAnalysisProviderConfig::default();
        config.failing_unit_prefixes = prefixes;
        MockAnalysisProvider { config }
    }

    /// A provider rate-limited on units with the given id prefixes.
    pub fn with_retryable_failures(prefixes: Vec<String>) -> (r: MockAnalysisProvider)
        ensures
            r.config.findings_per_unit@.len() == 0,
            r.config.failing_unit_prefixes@.len() == 0,
            r.config.retryable_fail_prefixes == prefixes,
    {
        let mut config = MockAnalysisProviderConfig::default();
        config.retryable_fail_prefixes = prefixes;
        MockAnalysisProvider { config }
    }
}

/// Some prefix starts the id.
pub open spec fn has_prefix(id: Seq<char>, prefixes: Seq<String>) -> bool {
    exists|i: int| 0 <= i < prefixes.len() && starts_with(id, prefixes[i]@)
}

fn any_prefix(id: &Vec<char>, prefixes: &Vec<String>) -> (r: bool)
    ensures
        r == has_prefix(id@, prefixes@),
{
    let mut i: usize = 0;
    while i < prefixes.len()
        invariant
            i <= prefixes@.len(),
            forall|q: int| 0 <= q < i ==> !starts_with(id@, (#[trigger] prefixes@[q])@),
        decreases prefixes.len() - i,
    {
        if starts_with_str(id, prefixes[i].as_str()) {
            return true;
        }
        i += 1;
    }
    false
}

/// The ordinals the mock cites by default: the first two of those supplied.
pub open spec fn default_evidence(paragraphs: nat) -> Seq<Seq<char>> {
    Seq::new(if paragraphs < 2 { paragraphs } else { 2 }, |k: int| ordinal_token_spec(k as nat))
}

/// `f` is the response finding the mock makes of template `t`.
pub open spec fn mock_finding(f: FindingResponse, t: MockFindingTemplate, paragraphs: nat) -> bool {
    &&& f.category@ == t.category@
    &&& f.subject@ == t.subject@
    &&& f.claim@ == t.claim@
    &&& f.confidence == t.confidence
    &&& f.confidence_text@ == t.confidence_text@
    &&& views(f.evidence_ordinals@) == (if t.evidence_ordinals@.len() == 0 {
        default_evidence(paragraphs)
    } else {
        views(t.evidence_ordinals@)
    })
    &&& f.uncertainty == t.uncertainty
    &&& f.alternative_interpretations@.len() == 0
}

impl LiteraryAnalysisProvider for MockAnalysisProvider {
    fn name(&self) -> (r: &str)
        ensures
            r@ == "mock"@,
    {
        "mock"
    }

    fn model(&self) -> (r: &str)
        ensures
            r@ == "mock-v1"@,
    {
        "mock-v1"
    }

    /// Fails units with a failing prefix permanently, then units with a
    /// retryable prefix with rate limiting; otherwise reports every template,
    /// citing the first two supplied ordinals where a template names none.
    fn analyze(&self, request: &AnalysisProviderRequest) -> (r: Result<
        AnalysisProviderResponse,
        AnalysisProviderError,
    >)
        ensures
            ({
                let id = request.unit.unit_id@;
                let n = request.unit.paragraph_ids@.len();
                if has_prefix(id, self.config.failing_unit_prefixes@) {
                    r matches Err(AnalysisProviderError::Failed(m)) && m@
                        == "simulated permanent failure for unit "@ + id
                } else if has_prefix(id, self.config.retryable_fail_prefixes@) {
                    r == Err::<AnalysisProviderResponse, AnalysisProviderError>(
                        AnalysisProviderError::RateLimited,
                    )
                } else {
                    r matches Ok(resp) && resp.usage == Some(self.config.usage)
                        && resp.findings@.len() == self.config.findings_per_unit@.len()
                        && forall|k: int|
                        0 <= k < resp.findings@.len() ==> mock_finding(
                            #[trigger] resp.findings@[k],
                            self.config.findings_per_unit@[k],
                            n,
                        )
                }
            }),
    {
        let id = chars_of(request.unit.unit_id.as_str());
        if any_prefix(&id, &self.config.failing_unit_prefixes) {
            let mut m = chars_of("simulated permanent failure for unit ");
            extend_str(&mut m, request.unit.unit_id.as_str());
            return Err(AnalysisProviderError::Failed(string_of(&m)));
        }
        if any_prefix(&id, &self.config.retryable_fail_prefixes) {
            return Err(AnalysisProviderError::RateLimited);
        }
        let supplied = request.unit.supplied_ordinals();
        let ghost n = request.unit.paragraph_ids@.len();
        let mut defaults: Vec<String> = Vec::new();
        let mut j: usize = 0;
        while j < supplied.len() && j < 2
            invariant
                j <= supplied@.len(),
                j <= 2,
                supplied@.len() == n,
                forall|k: int| 0 <= k < supplied@.len() ==> #[trigger] supplied@[k]@ == ordinal_token_spec(k as nat),
                views(defaults@) == Seq::new(j as nat, |k: int| ordinal_token_spec(k as nat)),
            decreases supplied.len() - j,
        {
            let ghost before = views(defaults@);
            assert(supplied@[j as int]@ == ordinal_token_spec(j as nat));
            defaults.push(supplied[j].clone());
            assert(views(defaults@) =~= before.push(ordinal_token_spec(j as nat)));
            assert(views(defaults@) =~= Seq::new((j + 1) as nat, |k: int| ordinal_token_spec(k as nat)));
            j += 1;
        }
        assert(views(defaults@) =~= default_evidence(n));
        let templates = &self.config.findings_per_unit;
        let mut findings: Vec<FindingResponse> = Vec::new();
        let mut k: usize = 0;
        while k < templates.len()
            invariant
                k <= templates@.len(),
                templates == &self.config.findings_per_unit,
                views(defaults@) == default_evidence(n),
                findings@.len() == k,
                forall|q: int| 0 <= q < k ==> mock_finding(#[trigger] findings@[q], templates@[q], n),
            decreases templates.len() - k,
        {
            let t = &templates[k];
            let evidence = if t.evidence_ordinals.len() == 0 {
                copy_strings(&defaults)
            } else {
                copy_strings(&t.evidence_ordinals)
            };
            findings.push(
                FindingResponse {
                    category: t.category.clone(),
                    subject: t.subject.clone(),
                    claim: t.claim.clone(),
                    confidence: t.confidence,
                    confidence_text: t.confidence_text.clone(),
                    evidence_ordinals: evidence,
                    uncertainty: crate::models::copy_opt_string(&t.uncertainty),
                    alternative_interpretations: Vec::new(),
                },
            );
            k += 1;
        }
        Ok(AnalysisProviderResponse { findings, usage: Some(self.config.usage) })
    }
}

} // verus!
