use literary_engine::analysis::{
    AnalysisProviderRequest, AnalysisUnit, AnalysisUnitType, CanonContext, ConfidenceLevel,
    ProviderPrompt, UsageMetadata, PROMPT_VERSION,
};
use literary_engine::analysis_run::{
    cache_key, canon_fingerprint, check_analysis_ready, retry_step, run_advanced_analysis,
    sort_strings, AdvancedAnalysisResult, AnalysisCache, AnalysisProviderResponse,
    CachedUnitResult, LiteraryAnalysisProvider, RetryStep,
};
use literary_engine::mock_provider::{
    MockAnalysisProvider, MockAnalysisProviderConfig, MockFindingTemplate,
};
use literary_engine::models::{Book, Chapter, DocumentFormat, Manuscript, Paragraph, Scene, SourceLocation};
use literary_engine::orchestration::AdvancedAnalysisConfig;
use literary_engine::provider::AnalysisProviderError;
use literary_engine::validation::ConfidenceBand;
use std::cell::Cell;

fn paragraph(position: usize, text: &str) -> Paragraph {
    Paragraph {
        id: format!("paragraph-{position}"),
        scene_id: "scene-1".to_string(),
        original_text: text.to_string(),
        position,
        source: SourceLocation::new("synthetic.txt", DocumentFormat::Txt),
    }
}

fn scene(paragraphs: Vec<Paragraph>) -> Scene {
    Scene {
        id: "scene-1".to_string(),
        chapter_id: "chapter-1".to_string(),
        order: 1,
        text: paragraphs
            .iter()
            .map(|paragraph| paragraph.original_text.clone())
            .collect::<Vec<_>>()
            .join("\n\n"),
        importance_labels: Vec::new(),
        paragraphs,
        source: SourceLocation::new("synthetic.txt", DocumentFormat::Txt),
    }
}

fn manuscript_with_scenes(scenes: Vec<Scene>) -> Manuscript {
    Manuscript {
        book: Book {
            id: "book-1".to_string(),
            title: "Synthetic".to_string(),
            author: None,
            language: None,
            metadata: Vec::new(),
        },
        chapters: vec![Chapter {
            id: "chapter-1".to_string(),
            title: "Chapter 1".to_string(),
            order: 1,
            index: 0,
            content: String::new(),
            scenes,
            source: SourceLocation::new("synthetic.txt", DocumentFormat::Txt),
        }],
        source: SourceLocation::new("synthetic.txt", DocumentFormat::Txt),
    }
}

fn manuscript() -> Manuscript {
    manuscript_with_scenes(vec![scene(vec![
        paragraph(1, "Reza waited in the cold rain."),
        paragraph(2, "Mina arrived at last."),
    ])])
}

fn config() -> AdvancedAnalysisConfig {
    let mut config = AdvancedAnalysisConfig::default();
    config.max_retries = 1;
    config.retry_delay_ms = 0;
    config
}

fn run<P: LiteraryAnalysisProvider>(
    book: &Manuscript,
    provider: &P,
    cache: &mut AnalysisCache,
) -> AdvancedAnalysisResult {
    assert!(check_analysis_ready(book));
    run_advanced_analysis(
        book,
        &CanonContext::empty(),
        provider,
        &config(),
        cache,
        "2024-01-01T00:00:00Z".to_string(),
    )
    .unwrap()
}

struct SelectiveFail;

impl LiteraryAnalysisProvider for SelectiveFail {
    fn name(&self) -> &str {
        "mock"
    }
    fn model(&self) -> &str {
        "mock-v1"
    }
    fn analyze(
        &self,
        request: &AnalysisProviderRequest,
    ) -> Result<AnalysisProviderResponse, AnalysisProviderError> {
        if request.unit.text_content.contains("beta") {
            return Err(AnalysisProviderError::Failed("simulated failure".to_string()));
        }
        Ok(AnalysisProviderResponse {
            findings: Vec::new(),
            usage: None,
        })
    }
}

struct Flaky {
    calls: Cell<usize>,
}

impl LiteraryAnalysisProvider for Flaky {
    fn name(&self) -> &str {
        "mock"
    }
    fn model(&self) -> &str {
        "mock-v1"
    }
    fn analyze(
        &self,
        _request: &AnalysisProviderRequest,
    ) -> Result<AnalysisProviderResponse, AnalysisProviderError> {
        let attempt = self.calls.get();
        self.calls.set(attempt + 1);
        if attempt == 0 {
            Err(AnalysisProviderError::RateLimited)
        } else {
            Ok(AnalysisProviderResponse {
                findings: Vec::new(),
                usage: None,
            })
        }
    }
}

fn template(category: &str, claim: &str, band: ConfidenceBand, text: &str) -> MockFindingTemplate {
    let mut template = MockFindingTemplate::default();
    template.category = category.to_string();
    template.subject = "scene".to_string();
    template.claim = claim.to_string();
    template.confidence = band;
    template.confidence_text = text.to_string();
    template
}

fn unit() -> AnalysisUnit {
    AnalysisUnit {
        unit_id: "unit-test".to_string(),
        unit_type: AnalysisUnitType::Scene,
        chapter_id: "chapter-1".to_string(),
        chapter_index: 0,
        scene_id: Some("scene-1".to_string()),
        text_content: "[para-1] first paragraph\n\n[para-2] second paragraph".to_string(),
        text_fingerprint: "fp".to_string(),
        paragraph_ids: vec!["para-id-1".to_string(), "para-id-2".to_string()],
        previous_scene_context: None,
        next_scene_context: None,
        known_character_names: Vec::new(),
        known_glossary_terms: Vec::new(),
        source: SourceLocation::new("synthetic.txt", DocumentFormat::Txt),
    }
}

fn request(unit: &AnalysisUnit) -> AnalysisProviderRequest {
    AnalysisProviderRequest {
        unit: unit.clone(),
        prompt: ProviderPrompt {
            system: "system".to_string(),
            user: "user".to_string(),
            prompt_version: PROMPT_VERSION.to_string(),
        },
        categories: Vec::new(),
        canon_context: CanonContext::empty(),
    }
}

#[test]
fn partial_failure_preserves_successful_units_and_reports_failures() {
    let mut first_scene = scene(vec![paragraph(1, "alpha")]);
    first_scene.id = "scene-1".to_string();
    let mut second_scene = scene(vec![paragraph(1, "beta")]);
    second_scene.id = "scene-2".to_string();
    let book = manuscript_with_scenes(vec![first_scene, second_scene]);
    let result = run(&book, &SelectiveFail, &mut AnalysisCache::new());
    assert_eq!(result.total_units, 2);
    assert_eq!(result.succeeded_units, 1);
    assert_eq!(result.failed_units.len(), 1);
    assert!(!result.failed_units[0].retryable);
    assert!(result.findings.is_empty());
}

#[test]
fn retryable_failure_is_retried_and_eventually_succeeds() {
    let provider = Flaky { calls: Cell::new(0) };
    let result = run(&manuscript(), &provider, &mut AnalysisCache::new());
    assert_eq!(result.failed_units.len(), 0);
    assert_eq!(result.succeeded_units, 1);
    assert!(provider.calls.get() >= 2);
}

#[test]
fn unchanged_input_is_reused_from_cache_and_changed_unit_is_recomputed() {
    let provider = MockAnalysisProvider::with_default_findings();
    let mut cache = AnalysisCache::new();
    let first = run(&manuscript(), &provider, &mut cache);
    assert_eq!(first.cached_units, 0);
    assert_eq!(first.succeeded_units, 1);
    assert!(!first.findings.is_empty());

    let second = run(&manuscript(), &provider, &mut cache);
    assert_eq!(second.cached_units, 1, "identical input reuses the cached result");

    let changed = manuscript_with_scenes(vec![scene(vec![
        paragraph(1, "Reza waited in the cold rain, frowning."),
        paragraph(2, "Mina arrived at last."),
    ])]);
    let third = run(&changed, &provider, &mut cache);
    assert_eq!(
        third.cached_units, 0,
        "edited scene invalidates only the affected unit (here: the only unit)"
    );
}

#[test]
fn conflicting_findings_on_one_scope_are_surfaced_not_collapsed() {
    let mut config = MockAnalysisProviderConfig::default();
    config.findings_per_unit = vec![
        template("tone", "tense hostile tone", ConfidenceBand::High, "0.9"),
        template("tone", "warm affectionate tone", ConfidenceBand::High, "0.9"),
    ];
    let provider = MockAnalysisProvider::new(config);
    let result = run(&manuscript(), &provider, &mut AnalysisCache::new());
    assert_eq!(result.findings.len(), 2);
    assert!(result
        .warnings
        .iter()
        .any(|warning| warning.contains("conflicting model findings")));
    assert!(result
        .findings
        .iter()
        .all(|finding| finding.confidence.level != ConfidenceLevel::High));
    assert!(result
        .findings
        .iter()
        .all(|finding| finding.confidence.contradicting_unit_count == 1));
}

#[test]
fn findings_never_duplicate_across_identical_runs() {
    let provider = MockAnalysisProvider::with_default_findings();
    let first = run(&manuscript(), &provider, &mut AnalysisCache::new());
    let second = run(&manuscript(), &provider, &mut AnalysisCache::new());
    assert_eq!(first.findings.len(), second.findings.len());
    assert_eq!(first.findings[0].finding_id, second.findings[0].finding_id);
    assert_eq!(first.findings[0].claim, second.findings[0].claim);
}

#[test]
fn usage_metadata_is_accumulated() {
    let mut config = MockAnalysisProviderConfig::default();
    config.usage = UsageMetadata {
        input_tokens: 100,
        output_tokens: 40,
        total_tokens: 140,
        request_count: 1,
    };
    let result = run(&manuscript(), &MockAnalysisProvider::new(config), &mut AnalysisCache::new());
    assert_eq!(result.usage.input_tokens, 100);
    assert_eq!(result.usage.total_tokens, 140);
    assert_eq!(result.usage.request_count, 1);
}

#[test]
fn unicode_manuscript_text_is_handled_without_byte_indexing() {
    let book = manuscript_with_scenes(vec![scene(vec![
        paragraph(1, "رضا در باران سرد منتظر ماند."),
        paragraph(2, "«مینا، تو بالاخره رسیدی.» — کیم گفت."),
    ])]);
    let mut config = MockAnalysisProviderConfig::default();
    config.findings_per_unit = vec![template(
        "dialogue_function",
        "greeting relieves tension",
        ConfidenceBand::Medium,
        "0.6",
    )];
    let result = run(&book, &MockAnalysisProvider::new(config), &mut AnalysisCache::new());
    assert_eq!(result.succeeded_units, 1);
    assert_eq!(result.findings.len(), 1);
}

#[test]
fn keys_are_stable_and_sensitive_to_material_inputs() {
    let base = cache_key(1, "v1", "mock", "m", "cfg", "canon", "unit-1");
    assert_eq!(base, cache_key(1, "v1", "mock", "m", "cfg", "canon", "unit-1"));
    assert_ne!(base, cache_key(1, "v2", "mock", "m", "cfg", "canon", "unit-1"));
    assert_ne!(base, cache_key(1, "v1", "openai", "m", "cfg", "canon", "unit-1"));
    assert_ne!(base, cache_key(1, "v1", "mock", "m", "cfg", "canon", "unit-2"));
    assert!(base.starts_with("cache-"));
    assert_eq!(base.len(), "cache-".len() + 64);
}

#[test]
fn mock_provider_cites_only_supplied_evidence() {
    let provider = MockAnalysisProvider::with_default_findings();
    let response = provider.analyze(&request(&unit())).unwrap();
    let finding = &response.findings[0];
    assert!(finding
        .evidence_ordinals
        .iter()
        .all(|ordinal| unit().resolve_ordinal(ordinal).is_some()));
    assert_eq!(finding.evidence_ordinals, vec!["para-1", "para-2"]);
}

#[test]
fn mock_provider_reports_permanent_and_retryable_failures() {
    let provider = MockAnalysisProvider::with_failing_units(vec!["unit-test".to_string()]);
    assert!(matches!(
        provider.analyze(&request(&unit())),
        Err(AnalysisProviderError::Failed(_))
    ));
    let provider = MockAnalysisProvider::with_retryable_failures(vec!["unit-test".to_string()]);
    assert!(matches!(
        provider.analyze(&request(&unit())),
        Err(AnalysisProviderError::RateLimited)
    ));
    assert!(AnalysisProviderError::RateLimited.is_retryable());
    assert!(!matches!(
        AnalysisProviderError::ParseError("bad".to_string()),
        AnalysisProviderError::RateLimited
    ));
    assert!(!AnalysisProviderError::ParseError("bad".to_string()).is_retryable());
}

#[test]
fn mock_provider_usage_is_reported() {
    let mut config = MockAnalysisProviderConfig::default();
    config.usage = UsageMetadata {
        input_tokens: 10,
        output_tokens: 5,
        total_tokens: 15,
        request_count: 1,
    };
    let provider = MockAnalysisProvider::new(config);
    let response = provider.analyze(&request(&unit())).unwrap();
    let usage = response.usage.unwrap();
    assert_eq!(usage.input_tokens, 10);
    assert_eq!(usage.total_tokens, 15);
}

#[test]
fn retries_stop_at_the_budget_and_never_for_permanent_failures() {
    assert_eq!(retry_step(&AnalysisProviderError::RateLimited, 0, 2), RetryStep::Retry);
    assert_eq!(
        retry_step(&AnalysisProviderError::RateLimited, 2, 2),
        RetryStep::Stop { retryable: true }
    );
    assert_eq!(
        retry_step(&AnalysisProviderError::Unavailable("down".into()), 1, 2),
        RetryStep::Retry
    );
    assert_eq!(
        retry_step(&AnalysisProviderError::Failed("no".into()), 0, 2),
        RetryStep::Stop { retryable: false }
    );
}

#[test]
fn canon_fingerprint_ignores_input_order() {
    let a = canon_fingerprint(
        &vec!["Reza".to_string(), "Mina".to_string()],
        &vec!["tea".to_string(), "bread".to_string()],
    );
    let b = canon_fingerprint(
        &vec!["Mina".to_string(), "Reza".to_string()],
        &vec!["bread".to_string(), "tea".to_string()],
    );
    assert_eq!(a, b);
    let c = canon_fingerprint(&vec!["Mina".to_string()], &vec![]);
    assert_ne!(a, c);
    assert_eq!(
        sort_strings(&vec!["b".to_string(), "a".to_string(), "b".to_string()]),
        vec!["a", "b", "b"]
    );
}

#[test]
fn an_empty_manuscript_cannot_be_analyzed() {
    let book = manuscript_with_scenes(Vec::new());
    let result = run_advanced_analysis(
        &book,
        &CanonContext::empty(),
        &MockAnalysisProvider::with_default_findings(),
        &config(),
        &mut AnalysisCache::new(),
        "2024-01-01T00:00:00Z".to_string(),
    );
    assert!(matches!(
        result,
        Err(literary_engine::analysis::AdvancedAnalysisError::EmptyManuscript)
    ));
}

fn stored_entry(key: &str, stored_at: &str) -> CachedUnitResult {
    CachedUnitResult {
        key: key.into(),
        unit_id: format!("unit-{key}"),
        provider: "mock".into(),
        model: "mock-model".into(),
        prompt_version: "v".into(),
        findings: Vec::new(),
        stored_at: stored_at.into(),
    }
}

#[test]
fn capped_cache_keeps_the_newest_entries_in_key_order() {
    let mut cache = AnalysisCache::new();
    cache.insert(stored_entry("cache-c", "2024-03-01T00:00:00Z"));
    cache.insert(stored_entry("cache-a", "2024-01-01T00:00:00Z"));
    cache.insert(stored_entry("cache-d", "not a time"));
    cache.insert(stored_entry("cache-b", "2024-02-01T00:00:00+02:00"));
    // Key order: a, b, c, d.
    assert_eq!(cache.retained_positions(2), vec![1, 2]);
    assert_eq!(cache.retained_positions(3), vec![0, 1, 2]);
    assert_eq!(cache.retained_positions(10), vec![0, 1, 2, 3]);
    assert_eq!(cache.retained_positions(0), Vec::<usize>::new());
}

#[test]
fn entries_written_at_the_same_time_keep_the_earlier_key() {
    let mut cache = AnalysisCache::new();
    cache.insert(stored_entry("cache-b", "2024-01-01T00:00:00Z"));
    cache.insert(stored_entry("cache-a", "2024-01-01T00:00:00Z"));
    assert_eq!(cache.retained_positions(1), vec![0]);
}
