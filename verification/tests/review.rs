use literary_engine::admission::{
    assess, evidence_items, validate_profile, EvidenceItem, EvidenceStatus,
    ProviderGovernanceProfile, ReviewDossier,
};
use literary_engine::blind_review::{
    build_dossier, validate_authenticatable_ledger, validate_bundle, validate_key,
    validate_reviewer_principal, BlindAssignmentInput, BlindComparisonBundleInput,
    BlindComparisonCaseInput, BlindComparisonKeyInput, BlindReviewCase, BlindReviewLedger,
    CriterionNotes, ProviderReviewDossier, ReviewDecision,
};
use literary_engine::cli::{
    manifest_value, qualification_context, qualification_system_id, safe_file_stem,
    selected_provider_name, OutputFormat,
};
use literary_engine::cli_args::{flag_value, optional_flag, positional, strict_flag_value};
use literary_engine::digest::stable_hash;
use literary_engine::evidence::{check_bundle_key, check_ledger_evidence};
use literary_engine::fmt::{fingerprint, source_fingerprint};
use literary_engine::review_ledger::{count_pending, init_ledger, record_decision};
use literary_engine::reveal_authority::{
    authority_statement, bounded_command_error, check_reveal_options, flag, reject_flag,
    validate_atom,
};

fn key() -> BlindComparisonKeyInput {
    BlindComparisonKeyInput {
        schema_version: 1,
        corpus_id: "phase32-test".into(),
        bundle_sha256: None,
        system_one: "system-one".into(),
        system_two: "system-two".into(),
        assignments: vec![
            BlindAssignmentInput {
                case_id: "case-1".into(),
                candidate_a_system: "system-one".into(),
                candidate_b_system: "system-two".into(),
            },
            BlindAssignmentInput {
                case_id: "case-2".into(),
                candidate_a_system: "system-two".into(),
                candidate_b_system: "system-one".into(),
            },
        ],
    }
}

fn ledger(reviewer: &str, first: ReviewDecision, second: ReviewDecision) -> BlindReviewLedger {
    BlindReviewLedger {
        schema_version: 1,
        corpus_id: "phase32-test".into(),
        bundle_fingerprint: "fnv1a64-same".into(),
        bundle_sha256: None,
        reviewer: reviewer.into(),
        cases: vec![
            BlindReviewCase {
                case_id: "case-1".into(),
                decision: first,
                reason: Some("reason one".into()),
                notes: CriterionNotes::default(),
            },
            BlindReviewCase {
                case_id: "case-2".into(),
                decision: second,
                reason: Some("reason two".into()),
                notes: CriterionNotes::default(),
            },
        ],
        instructions: Vec::new(),
    }
}

fn preferences(dossier: &ProviderReviewDossier, system: &str) -> usize {
    dossier
        .system_preference_counts
        .iter()
        .find(|(name, _)| name == system)
        .map(|(_, count)| *count)
        .unwrap()
}

#[test]
fn dossier_reveals_counts_without_selecting_a_winner() {
    let dossier = build_dossier(
        &key(),
        &[ledger(
            "evaluator-1",
            ReviewDecision::CandidateA,
            ReviewDecision::CandidateA,
        )],
    )
    .unwrap();
    assert_eq!(preferences(&dossier, "system-one"), 1);
    assert_eq!(preferences(&dossier, "system-two"), 1);
    assert!(dossier.automatic_winner.is_none());
    assert_eq!(dossier.production_admission, "not_granted");
    assert_eq!(
        dossier.reveal_binding,
        "phase31-key-schema-v1: corpus_id + exact case-id set; ledger bundle fingerprint binds evaluators to the same blind bundle"
    );
    assert!(dossier.bundle_sha256.is_none());
}

#[test]
fn disagreement_is_reported_instead_of_collapsed() {
    let dossier = build_dossier(
        &key(),
        &[
            ledger("evaluator-1", ReviewDecision::CandidateA, ReviewDecision::Tie),
            ledger("evaluator-2", ReviewDecision::CandidateB, ReviewDecision::Tie),
        ],
    )
    .unwrap();
    assert_eq!(dossier.cases_with_multiple_reviews, 2);
    assert_eq!(dossier.unanimous_cases, 1);
    assert_eq!(dossier.disagreement_cases, 1);
}

#[test]
fn incomplete_ledgers_cannot_be_unblinded_into_a_dossier() {
    let mut incomplete = ledger(
        "evaluator-1",
        ReviewDecision::CandidateA,
        ReviewDecision::CandidateB,
    );
    incomplete.cases[1].decision = ReviewDecision::Pending;
    incomplete.cases[1].reason = None;
    let error = build_dossier(&key(), &[incomplete]).unwrap_err();
    assert!(error.contains("still pending"));
}

#[test]
fn duplicate_reviewer_ledgers_are_rejected() {
    let first = ledger("evaluator-1", ReviewDecision::CandidateA, ReviewDecision::CandidateB);
    let second = ledger("evaluator-1", ReviewDecision::CandidateB, ReviewDecision::CandidateA);
    let error = build_dossier(&key(), &[first, second]).unwrap_err();
    assert!(error.contains("appears more than once"));
}

#[test]
fn fingerprint_is_stable_and_sensitive() {
    assert_eq!(fingerprint(b"same"), fingerprint(b"same"));
    assert_ne!(fingerprint(b"same"), fingerprint(b"different"));
}

#[test]
fn fingerprint_of_nothing_is_the_fnv_offset_basis() {
    assert_eq!(fingerprint(b""), "fnv1a64-cbf29ce484222325");
}

#[test]
fn dossier_counts_every_judgment_once() {
    let dossier = build_dossier(
        &key(),
        &[
            ledger("zoe", ReviewDecision::CandidateB, ReviewDecision::Defer),
            ledger("adam", ReviewDecision::CandidateB, ReviewDecision::CandidateA),
        ],
    )
    .unwrap();
    assert_eq!(dossier.reviewers, vec!["adam", "zoe"]);
    assert_eq!(dossier.review_ledgers, 2);
    assert_eq!(dossier.cases_total, 2);
    assert_eq!(dossier.judgments_total, 4);
    assert_eq!(dossier.preference_judgments, 3);
    assert_eq!(dossier.ties, 0);
    assert_eq!(dossier.deferred, 1);
    assert_eq!(preferences(&dossier, "system-two"), 3);
    assert_eq!(preferences(&dossier, "system-one"), 0);
    assert_eq!(dossier.cases_with_multiple_reviews, 1);
    assert_eq!(dossier.unanimous_cases, 1);
    assert_eq!(dossier.notes.len(), 5);
}

#[test]
fn dossier_refuses_mismatched_ledgers() {
    let mut other_corpus = ledger("r", ReviewDecision::Tie, ReviewDecision::Tie);
    other_corpus.corpus_id = "elsewhere".into();
    assert_eq!(
        build_dossier(&key(), &[other_corpus]).unwrap_err(),
        "ledger for evaluator 'r' targets corpus 'elsewhere' but key targets 'phase32-test'"
    );
    let mut missing_case = ledger("r", ReviewDecision::Tie, ReviewDecision::Tie);
    missing_case.cases.pop();
    assert!(build_dossier(&key(), &[missing_case])
        .unwrap_err()
        .contains("does not match reveal-key case ids"));
    assert_eq!(build_dossier(&key(), &[]).unwrap_err(), "at least one ledger is required");
    let mut second = ledger("s", ReviewDecision::Tie, ReviewDecision::Tie);
    second.bundle_fingerprint = "fnv1a64-other".into();
    assert!(build_dossier(&key(), &[ledger("r", ReviewDecision::Tie, ReviewDecision::Tie), second])
        .unwrap_err()
        .contains("different blind bundle"));
}

#[test]
fn keys_and_bundles_are_validated() {
    let mut k = key();
    k.system_two = "system-one".into();
    assert_eq!(validate_key(&k).unwrap_err(), "reveal key must describe two distinct systems");
    let mut k = key();
    k.schema_version = 2;
    assert_eq!(validate_key(&k).unwrap_err(), "reveal-key schema 2 requires bundle_sha256");
    k.bundle_sha256 = Some("ab".repeat(32));
    assert!(validate_key(&k).is_ok());
    k.bundle_sha256 = Some("AB".repeat(32));
    assert!(validate_key(&k).is_err());
    let mut k = key();
    k.assignments[1].case_id = "case-1".into();
    assert_eq!(validate_key(&k).unwrap_err(), "reveal key duplicates case 'case-1'");
    let bundle = BlindComparisonBundleInput {
        schema_version: 1,
        corpus_id: "c".into(),
        cases: vec![
            BlindComparisonCaseInput { case_id: "x".into() },
            BlindComparisonCaseInput { case_id: "x".into() },
        ],
    };
    assert_eq!(validate_bundle(&bundle).unwrap_err(), "blind bundle duplicates case 'x'");
}

#[test]
fn authenticatable_ledgers_need_schema_two_and_a_clean_principal() {
    let l = ledger("evaluator-1", ReviewDecision::Tie, ReviewDecision::Tie);
    assert_eq!(
        validate_authenticatable_ledger(&l).unwrap_err(),
        "evaluator authentication requires a schema-2 review ledger"
    );
    let mut l2 = l.clone();
    l2.schema_version = 2;
    l2.bundle_sha256 = Some("0".repeat(64));
    assert!(validate_authenticatable_ledger(&l2).is_ok());
    assert!(validate_reviewer_principal(" padded").is_err());
    assert!(validate_reviewer_principal("bad/char").is_err());
    assert!(validate_reviewer_principal(&"a".repeat(129)).is_err());
    assert!(validate_reviewer_principal("editor@example.test").is_ok());
}

#[test]
fn decisions_parse_in_any_case() {
    assert_eq!(ReviewDecision::parse(" A ").unwrap(), ReviewDecision::CandidateA);
    assert_eq!(ReviewDecision::parse("Cannot-Judge").unwrap(), ReviewDecision::Defer);
    assert_eq!(
        ReviewDecision::parse("maybe").unwrap_err(),
        "unsupported decision 'maybe'; expected a, b, tie, or defer"
    );
}

#[test]
fn security_sensitive_flags_reject_missing_and_duplicate_values() {
    let missing = vec!["--revocations".to_string()];
    assert!(strict_flag_value(&missing, "--revocations", false)
        .unwrap_err()
        .contains("requires a non-empty path value"));

    let duplicate = vec![
        "--allowed-signers".to_string(),
        "one".to_string(),
        "--allowed-signers".to_string(),
        "two".to_string(),
    ];
    assert!(strict_flag_value(&duplicate, "--allowed-signers", true)
        .unwrap_err()
        .contains("only once"));
}

#[test]
fn argument_helpers_read_positions_and_flags() {
    let args: Vec<String> = ["a", "--model", "m", "--dry", "b", "--max-cases", " 3 "]
        .iter()
        .map(|s| s.to_string())
        .collect();
    let with_values = ["--provider", "--model", "--max-cases"];
    assert_eq!(positional(&args, 0, &with_values).as_deref(), Some("a"));
    assert_eq!(positional(&args, 1, &with_values).as_deref(), Some("b"));
    assert_eq!(positional(&args, 2, &with_values), None);
    assert_eq!(flag_value(&args, "--model").as_deref(), Some("m"));
    assert_eq!(optional_flag(&args, "--max-cases").as_deref(), Some("3"));
    assert_eq!(flag_value(&args, "--absent"), None);
    assert_eq!(strict_flag_value(&args, "--model", true).unwrap().as_deref(), Some("m"));
    assert!(strict_flag_value(&args, "--key", true).unwrap_err().contains("is required"));
}

fn item(status: EvidenceStatus) -> EvidenceItem {
    EvidenceItem {
        status,
        evidence: "reviewed evidence".into(),
    }
}

fn profile(status: EvidenceStatus) -> ProviderGovernanceProfile {
    ProviderGovernanceProfile {
        schema_version: 1,
        provider_id: "atria".into(),
        model_id: "Atria-Dawn-Preview".into(),
        reviewed_at: "2026-09-23".into(),
        terms_url: "https://example.test/terms".into(),
        privacy_url: "https://example.test/privacy".into(),
        data_retention: item(status),
        training_use: item(status),
        data_residency: item(status),
        deletion_process: item(status),
        incident_response: item(status),
        reliability_failure_behavior: item(status),
        rate_limits: item(status),
        cost_limits: item(status),
        rights_and_confidentiality: item(status),
    }
}

#[test]
fn unknown_evidence_is_not_complete() {
    let p = profile(EvidenceStatus::Unknown);
    assert!(!evidence_items(&p)
        .iter()
        .all(|(_, i)| i.status != EvidenceStatus::Unknown));
}

#[test]
fn unacceptable_evidence_is_distinct_from_unknown() {
    let p = profile(EvidenceStatus::Unacceptable);
    assert!(evidence_items(&p)
        .iter()
        .all(|(_, i)| i.status == EvidenceStatus::Unacceptable));
}

#[test]
fn complete_acceptable_profile_validates() {
    assert!(validate_profile(&profile(EvidenceStatus::Acceptable)).is_ok());
}

fn admission_dossier() -> ReviewDossier {
    ReviewDossier {
        schema_version: 1,
        system_one: "atria".into(),
        system_two: "other".into(),
        automatic_winner: None,
        human_comparative_evidence_only: true,
        production_admission: "not_granted".into(),
        requires_explicit_admission_decision: true,
    }
}

#[test]
fn assessment_blocks_on_unknown_or_unacceptable_evidence() {
    let mut p = profile(EvidenceStatus::Acceptable);
    p.rate_limits = item(EvidenceStatus::Unknown);
    p.cost_limits = item(EvidenceStatus::Unacceptable);
    let a = assess(&admission_dossier(), &p, b"d", b"p").unwrap();
    assert_eq!(a.blocking_items, vec!["rate_limits: unknown", "cost_limits: unacceptable"]);
    assert!(!a.evidence_complete);
    assert!(!a.eligible_for_owner_decision);
    assert_eq!(a.production_admission, "not_granted");
    assert!(!a.selector_changed);
    assert_eq!(a.dossier_fingerprint, fingerprint(b"d"));

    let ok = assess(&admission_dossier(), &profile(EvidenceStatus::Acceptable), b"d", b"p").unwrap();
    assert!(ok.eligible_for_owner_decision && ok.evidence_complete);

    let mut stranger = profile(EvidenceStatus::Acceptable);
    stranger.provider_id = "nobody".into();
    assert_eq!(
        assess(&admission_dossier(), &stranger, b"d", b"p").unwrap_err(),
        "provider 'nobody' is absent from the Phase 32 dossier"
    );
    let mut granted = admission_dossier();
    granted.production_admission = "granted".into();
    assert!(assess(&granted, &p, b"d", b"p").unwrap_err().contains("non-admission contract"));
    let mut blank = profile(EvidenceStatus::Unknown);
    blank.training_use.evidence = " ".into();
    assert_eq!(
        validate_profile(&blank).unwrap_err(),
        "governance evidence for training_use must be non-empty, including when status is unknown"
    );
}

#[test]
fn reveal_authority_context_rejects_ambiguous_fields() {
    for invalid in ["", "p\nreview=other", " leading", "a/b", "é"] {
        assert!(validate_atom(invalid, "project").is_err());
    }
    assert!(validate_atom("project_1@example.test", "project").is_ok());
}

#[test]
fn reveal_authority_statement_binds_exact_bytes_and_context() {
    let statement = authority_statement("p1", "r1", "editor", b"bundle", b"reveal");
    assert!(statement.starts_with("PLTE-REVEAL-AUTHORITY-V1\nproject=p1\nreview=r1\n"));
    assert!(statement.ends_with("authority=editor\n"));
    for changed in [
        authority_statement("p2", "r1", "editor", b"bundle", b"reveal"),
        authority_statement("p1", "r2", "editor", b"bundle", b"reveal"),
        authority_statement("p1", "r1", "other", b"bundle", b"reveal"),
        authority_statement("p1", "r1", "editor", b"bundle ", b"reveal"),
        authority_statement("p1", "r1", "editor", b"bundle", b"reveal "),
    ] {
        assert_ne!(statement, changed);
    }
}

#[test]
fn reveal_flags_are_single_and_valued() {
    let args: Vec<String> = ["sign", "b", "k", "s", "--project", "p", "--project", "q"]
        .iter()
        .map(|s| s.to_string())
        .collect();
    assert_eq!(flag(&args, "--project", true).unwrap_err(), "duplicate flag: --project");
    assert_eq!(flag(&args, "--review", true).unwrap_err(), "missing required flag: --review");
    assert_eq!(flag(&args, "--review", false).unwrap(), None);
    assert_eq!(reject_flag(&args, "--project").unwrap_err(), "--project is not valid for this command");
    assert!(check_reveal_options(&args).is_ok());
    let odd: Vec<String> = ["verify", "b", "k", "s", "--project"].iter().map(|s| s.to_string()).collect();
    assert_eq!(check_reveal_options(&odd).unwrap_err(), "reveal-authority option requires a value");
    let unknown: Vec<String> = ["verify", "b", "k", "s", "--nope", "x"].iter().map(|s| s.to_string()).collect();
    assert_eq!(check_reveal_options(&unknown).unwrap_err(), "invalid reveal-authority option or value");
    assert_eq!(bounded_command_error("  \n"), "ssh-keygen returned a non-zero exit status");
    assert_eq!(bounded_command_error(&"x".repeat(700)).len(), 600);
}

#[test]
fn qualification_context_keeps_neighbors_separate_from_passage() {
    let context = qualification_context(Some("before"), Some("after"));
    assert!(context.contains("CONTEXT BEFORE\nbefore"));
    assert!(context.contains("CONTEXT AFTER\nafter"));
    assert!(context.contains("do not translate the context itself"));
}

#[test]
fn qualification_ids_name_provider_and_model() {
    assert_eq!(qualification_system_id("echo", None), "phase31:echo:deterministic:default-literary-v1");
    assert_eq!(qualification_system_id("openai", Some("m")), "phase31:openai:m:default-literary-v1");
    assert!(!qualification_context(Some("  "), None).contains("CONTEXT BEFORE"));
}

#[test]
fn output_file_stems_are_deterministic_and_safe() {
    assert_eq!(safe_file_stem("Chapter 1: Arrival", 0), "001-Chapter_1__Arrival");
    assert_eq!(safe_file_stem("***", 1), "002-chapter-2");
}

#[test]
fn source_fingerprint_is_stable_and_sensitive_to_changes() {
    assert_eq!(source_fingerprint("سلام دنیا"), source_fingerprint("سلام دنیا"));
    assert_ne!(source_fingerprint("سلام دنیا"), source_fingerprint("سلام دنیا!"));
}

#[test]
fn fingerprints_are_stable_for_persian_text() {
    assert_eq!(source_fingerprint("سلام دنیا"), source_fingerprint("سلام دنیا"));
    assert_ne!(source_fingerprint("سلام دنیا"), source_fingerprint("سلام جهان"));
}

#[test]
fn provider_selection_prefers_openai_when_key_is_available() {
    assert_eq!(selected_provider_name(None, true).unwrap(), "openai");
    assert_eq!(selected_provider_name(None, false).unwrap(), "echo");
}

#[test]
fn explicit_provider_overrides_automatic_selection() {
    assert_eq!(selected_provider_name(Some("echo"), true).unwrap(), "echo");
    assert_eq!(selected_provider_name(Some("OpenAI"), false).unwrap(), "openai");
}

#[test]
fn unsupported_provider_is_rejected() {
    let error = selected_provider_name(Some("unknown"), true).unwrap_err();
    assert!(error.contains("unsupported provider"));
}

#[test]
fn output_format_parses_correctly() {
    assert_eq!(OutputFormat::from_arg("json").unwrap(), OutputFormat::Json);
    assert_eq!(OutputFormat::from_arg("text").unwrap(), OutputFormat::Text);
    assert_eq!(OutputFormat::from_arg("txt").unwrap(), OutputFormat::Text);
    assert!(OutputFormat::from_arg("yaml").is_err());
}

#[test]
fn manifest_values_stay_on_one_line() {
    assert_eq!(manifest_value("a\r\nb\nc"), "a  b c");
}

#[test]
fn schema_two_key_requires_matching_sha256_bound_ledgers() {
    let digest = stable_hash(b"bundle");
    let key = BlindComparisonKeyInput {
        schema_version: 2,
        corpus_id: "phase36-test".into(),
        bundle_sha256: Some(digest.clone()),
        system_one: "one".into(),
        system_two: "two".into(),
        assignments: vec![BlindAssignmentInput {
            case_id: "c1".into(),
            candidate_a_system: "one".into(),
            candidate_b_system: "two".into(),
        }],
    };
    let ledger = BlindReviewLedger {
        schema_version: 2,
        corpus_id: "phase36-test".into(),
        bundle_fingerprint: "fnv1a64-legacy".into(),
        bundle_sha256: Some(digest),
        reviewer: "evaluator".into(),
        cases: vec![BlindReviewCase {
            case_id: "c1".into(),
            decision: ReviewDecision::CandidateA,
            reason: Some("reason".into()),
            notes: CriterionNotes::default(),
        }],
        instructions: Vec::new(),
    };
    let dossier = build_dossier(&key, &[ledger]).unwrap();
    assert_eq!(dossier.schema_version, 2);
    assert!(dossier.bundle_sha256.is_some());
    assert!(dossier.reveal_binding.contains("SHA-256"));
}

#[test]
fn schema_two_key_rejects_legacy_ledger() {
    let mut legacy = ledger("evaluator", ReviewDecision::CandidateA, ReviewDecision::CandidateB);
    legacy.corpus_id = "phase36-test".into();
    legacy.cases = vec![BlindReviewCase {
        case_id: "c1".into(),
        decision: ReviewDecision::CandidateA,
        reason: Some("reason".into()),
        notes: CriterionNotes::default(),
    }];
    let key = BlindComparisonKeyInput {
        schema_version: 2,
        corpus_id: "phase36-test".into(),
        bundle_sha256: Some(stable_hash(b"bundle")),
        system_one: "one".into(),
        system_two: "two".into(),
        assignments: vec![BlindAssignmentInput {
            case_id: "c1".into(),
            candidate_a_system: "one".into(),
            candidate_b_system: "two".into(),
        }],
    };
    let error = build_dossier(&key, &[legacy]).unwrap_err();
    assert!(error.contains("schema-2 reveal key"));
}

#[test]
fn authenticated_path_rejects_legacy_ledger_and_unsafe_principals() {
    let legacy = ledger(
        "evaluator@example.test",
        ReviewDecision::CandidateA,
        ReviewDecision::CandidateB,
    );
    assert!(validate_authenticatable_ledger(&legacy).unwrap_err().contains("schema-2"));

    let mut current = BlindReviewLedger {
        schema_version: 2,
        corpus_id: "phase37".into(),
        bundle_fingerprint: "fnv1a64-test".into(),
        bundle_sha256: Some(stable_hash(b"bundle")),
        reviewer: "evaluator with spaces".into(),
        cases: vec![BlindReviewCase {
            case_id: "c1".into(),
            decision: ReviewDecision::CandidateA,
            reason: Some("reason".into()),
            notes: CriterionNotes::default(),
        }],
        instructions: Vec::new(),
    };
    assert!(validate_authenticatable_ledger(&current).unwrap_err().contains("principal"));

    current.reviewer = " evaluator@example.test".into();
    assert!(validate_authenticatable_ledger(&current)
        .unwrap_err()
        .contains("leading or trailing whitespace"));

    current.reviewer = "evaluator@example.test".into();
    current.cases[0].decision = ReviewDecision::Pending;
    current.cases[0].reason = None;
    assert!(validate_authenticatable_ledger(&current).unwrap_err().contains("completed ledger"));
}

fn bundle() -> BlindComparisonBundleInput {
    BlindComparisonBundleInput {
        schema_version: 1,
        corpus_id: "ledger-test".into(),
        cases: vec![
            BlindComparisonCaseInput { case_id: "c1".into() },
            BlindComparisonCaseInput { case_id: "c2".into() },
        ],
    }
}

#[test]
fn init_ledger_opens_every_case_pending_and_binds_the_bundle_bytes() {
    let bytes = b"{\"corpus_id\":\"ledger-test\"}";
    let ledger = init_ledger(&bundle(), bytes, "  evaluator-1 ").unwrap();
    assert_eq!(ledger.schema_version, 2);
    assert_eq!(ledger.corpus_id, "ledger-test");
    assert_eq!(ledger.reviewer, "evaluator-1");
    assert_eq!(ledger.bundle_fingerprint, fingerprint(bytes));
    assert_eq!(ledger.bundle_sha256, Some(stable_hash(bytes)));
    assert_eq!(ledger.bundle_sha256.as_ref().unwrap().len(), 64);
    assert_eq!(ledger.cases.len(), 2);
    assert_eq!(ledger.cases[1].case_id, "c2");
    assert!(ledger.cases.iter().all(|c| c.decision == ReviewDecision::Pending && c.reason.is_none()));
    assert_eq!(ledger.instructions.len(), 4);
    assert!(ledger.instructions[0].starts_with("Keep the reveal key"));
    assert_eq!(count_pending(&ledger.cases), 2);
}

#[test]
fn init_ledger_requires_an_evaluator_and_a_valid_bundle() {
    assert_eq!(
        init_ledger(&bundle(), b"x", "   ").unwrap_err(),
        "init requires a non-empty --evaluator value"
    );
    let mut empty = bundle();
    empty.cases.clear();
    assert_eq!(init_ledger(&empty, b"x", "evaluator").unwrap_err(), "blind bundle contains no cases");
    let mut future = bundle();
    future.schema_version = 3;
    assert_eq!(
        init_ledger(&future, b"x", "evaluator").unwrap_err(),
        "unsupported blind bundle schema 3; expected 1"
    );
}

#[test]
fn record_decision_fills_one_case_and_counts_the_rest() {
    let mut ledger = init_ledger(&bundle(), b"bytes", "evaluator").unwrap();
    let notes = CriterionNotes {
        adequacy: Some("faithful".into()),
        voice_style: None,
        cultural_pragmatic_fit: None,
        continuity: None,
    };
    assert_eq!(record_decision(&mut ledger, "c2", " TIE ", "  both fine ", notes), Ok(1));
    assert_eq!(ledger.cases[1].decision, ReviewDecision::Tie);
    assert_eq!(ledger.cases[1].reason.as_deref(), Some("both fine"));
    assert_eq!(ledger.cases[1].notes.adequacy.as_deref(), Some("faithful"));
    assert_eq!(ledger.cases[0].decision, ReviewDecision::Pending);
    assert_eq!(
        record_decision(&mut ledger, "c1", "candidate-a", "clearer", CriterionNotes::default()),
        Ok(0)
    );
    assert_eq!(ledger.cases[0].decision, ReviewDecision::CandidateA);
}

#[test]
fn record_decision_refusals_leave_the_ledger_unchanged() {
    let mut ledger = init_ledger(&bundle(), b"bytes", "evaluator").unwrap();
    assert_eq!(
        record_decision(&mut ledger, "c1", "maybe", "why", CriterionNotes::default()).unwrap_err(),
        "unsupported decision 'maybe'; expected a, b, tie, or defer"
    );
    assert_eq!(
        record_decision(&mut ledger, "c1", "a", "  ", CriterionNotes::default()).unwrap_err(),
        "record requires a non-empty --reason for every judgment"
    );
    assert_eq!(
        record_decision(&mut ledger, "c9", "b", "why", CriterionNotes::default()).unwrap_err(),
        "ledger does not contain case 'c9'"
    );
    assert_eq!(count_pending(&ledger.cases), 2);
    assert!(ledger.cases.iter().all(|c| c.reason.is_none()));
}

fn bundle_key(schema_version: u32, digest: Option<String>) -> BlindComparisonKeyInput {
    BlindComparisonKeyInput {
        schema_version,
        corpus_id: "ledger-test".into(),
        bundle_sha256: digest,
        system_one: "one".into(),
        system_two: "two".into(),
        assignments: vec![
            BlindAssignmentInput {
                case_id: "c2".into(),
                candidate_a_system: "two".into(),
                candidate_b_system: "one".into(),
            },
            BlindAssignmentInput {
                case_id: "c1".into(),
                candidate_a_system: "one".into(),
                candidate_b_system: "two".into(),
            },
        ],
    }
}

#[test]
fn bundle_and_key_must_share_corpus_cases_and_bytes() {
    let bytes = b"bundle bytes";
    let digest = stable_hash(bytes);
    assert_eq!(check_bundle_key(&bundle(), &bundle_key(1, None), bytes, false), Ok(digest.clone()));
    assert_eq!(
        check_bundle_key(&bundle(), &bundle_key(2, Some(digest.clone())), bytes, true),
        Ok(digest.clone())
    );
    assert_eq!(
        check_bundle_key(&bundle(), &bundle_key(1, None), bytes, true).unwrap_err(),
        "authenticated verification requires a schema-2 reveal key"
    );
    assert_eq!(
        check_bundle_key(&bundle(), &bundle_key(2, Some(stable_hash(b"other"))), bytes, false)
            .unwrap_err(),
        "reveal-key SHA-256 differs from the supplied blind bundle"
    );
    let mut fewer = bundle();
    fewer.cases.pop();
    assert_eq!(
        check_bundle_key(&fewer, &bundle_key(1, None), bytes, false).unwrap_err(),
        "blind bundle and reveal key have different corpus or case ids"
    );
    let mut elsewhere = bundle_key(1, None);
    elsewhere.corpus_id = "other".into();
    assert_eq!(
        check_bundle_key(&bundle(), &elsewhere, bytes, false).unwrap_err(),
        "blind bundle and reveal key have different corpus or case ids"
    );
}

#[test]
fn ledgers_must_be_bound_to_the_supplied_bundle() {
    let bytes = b"bundle bytes";
    let digest = stable_hash(bytes);
    let mut ledger = init_ledger(&bundle(), bytes, "evaluator").unwrap();
    let key = bundle_key(2, Some(digest.clone()));
    assert_eq!(check_ledger_evidence(bytes, &digest, &key, &vec![ledger.clone()], false), Ok(()));
    assert!(check_ledger_evidence(bytes, &digest, &key, &vec![ledger.clone()], true)
        .unwrap_err()
        .contains("completed ledger"));
    assert_eq!(
        check_ledger_evidence(b"other bytes", &digest, &key, &vec![ledger.clone()], false)
            .unwrap_err(),
        "review ledger fingerprint differs from the supplied blind bundle"
    );
    ledger.bundle_sha256 = Some(stable_hash(b"other"));
    assert_eq!(
        check_ledger_evidence(bytes, &digest, &key, &vec![ledger.clone()], false).unwrap_err(),
        "review ledger SHA-256 differs from the supplied blind bundle"
    );
    ledger.schema_version = 1;
    ledger.bundle_sha256 = None;
    assert_eq!(
        check_ledger_evidence(bytes, &digest, &key, &vec![ledger.clone()], false).unwrap_err(),
        "schema-2 reveal key requires schema-2 review ledgers"
    );
    assert_eq!(
        check_ledger_evidence(bytes, &digest, &bundle_key(1, None), &vec![ledger], false),
        Ok(())
    );
}

#[test]
fn dossier_does_not_depend_on_ledger_order() {
    let a = ledger("zoe", ReviewDecision::CandidateB, ReviewDecision::Defer);
    let b = ledger("adam", ReviewDecision::CandidateB, ReviewDecision::CandidateA);
    let c = ledger("mia", ReviewDecision::CandidateA, ReviewDecision::Tie);
    let one = build_dossier(&key(), &[a.clone(), b.clone(), c.clone()]).unwrap();
    let two = build_dossier(&key(), &[c.clone(), a.clone(), b.clone()]).unwrap();
    assert_eq!(one.reviewers, vec!["adam", "mia", "zoe"]);
    assert_eq!(one.reviewers, two.reviewers);
    assert_eq!(one.bundle_fingerprint, two.bundle_fingerprint);
    assert_eq!(one.judgments_total, two.judgments_total);
    assert_eq!(one.preference_judgments, two.preference_judgments);
    assert_eq!(one.ties, two.ties);
    assert_eq!(one.deferred, two.deferred);
    assert_eq!(one.system_preference_counts, two.system_preference_counts);
    assert_eq!(one.cases_with_multiple_reviews, two.cases_with_multiple_reviews);
    assert_eq!(one.unanimous_cases, two.unanimous_cases);
    assert_eq!(one.disagreement_cases, two.disagreement_cases);
    assert_eq!(one.disagreement_cases, 2);
    let duplicate = ledger("zoe", ReviewDecision::Tie, ReviewDecision::Tie);
    assert!(build_dossier(&key(), &[a.clone(), b.clone(), duplicate.clone()]).is_err());
    assert!(build_dossier(&key(), &[duplicate, a, b]).is_err());
}
