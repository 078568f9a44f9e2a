use literary_engine::blind_comparison::{
    build_blind_comparison, find_output, CandidateOutput, CandidateSubmission,
    EvaluationCaseInput, EvaluationCorpusInput,
};

fn first_case() -> EvaluationCaseInput {
    EvaluationCaseInput {
        id: "case-1".into(),
        title: "Context".into(),
        source: "I did not answer.".into(),
        context_before: Some("She waited.".into()),
        context_after: None,
        dimensions: vec!["semantic_fidelity".into()],
    }
}

fn submission(corpus_id: &str, system_id: &str, outputs: &[(&str, &str)]) -> CandidateSubmission {
    CandidateSubmission {
        schema_version: 1,
        corpus_id: corpus_id.into(),
        system_id: system_id.into(),
        outputs: outputs
            .iter()
            .map(|(case_id, translation)| CandidateOutput {
                case_id: (*case_id).into(),
                translation: (*translation).into(),
            })
            .collect(),
    }
}

fn two_case_corpus() -> EvaluationCorpusInput {
    EvaluationCorpusInput {
        corpus_id: "phase31-test".into(),
        cases: vec![
            first_case(),
            EvaluationCaseInput {
                id: "case-2".into(),
                title: "Second".into(),
                source: "Wait.".into(),
                context_before: None,
                context_after: None,
                dimensions: vec!["readability".into()],
            },
        ],
    }
}

#[test]
fn blind_comparison_counterbalances_system_labels_and_hides_ids_from_bundle() {
    let corpus = two_case_corpus();
    let first = submission(
        &corpus.corpus_id,
        "system-one",
        &[("case-1", "اول"), ("case-2", "یک")],
    );
    let second = submission(
        &corpus.corpus_id,
        "system-two",
        &[("case-1", "دوم"), ("case-2", "دو")],
    );

    let (bundle, key) = build_blind_comparison(&corpus, &first, &second).unwrap();
    assert_eq!(bundle.cases[0].candidate_a, "اول");
    assert_eq!(bundle.cases[1].candidate_a, "دو");
    let blind_text = format!("{:?}", bundle);
    assert!(!blind_text.contains("system-one"));
    assert!(!blind_text.contains("system-two"));
    assert_eq!(key.assignments[0].candidate_a_system, "system-one");
    assert_eq!(key.assignments[1].candidate_a_system, "system-two");
}

#[test]
fn blind_bundle_carries_the_case_and_the_key_both_systems() {
    let corpus = two_case_corpus();
    let first = submission("phase31-test", "one", &[("case-1", "a1"), ("case-2", "a2")]);
    let second = submission("phase31-test", "two", &[("case-2", "b2"), ("case-1", "b1")]);
    let (bundle, key) = build_blind_comparison(&corpus, &first, &second).unwrap();
    assert_eq!(bundle.schema_version, 1);
    assert_eq!(bundle.corpus_id, "phase31-test");
    assert_eq!(bundle.instructions.len(), 4);
    assert_eq!(bundle.cases[0].context_before.as_deref(), Some("She waited."));
    assert_eq!(bundle.cases[0].dimensions, vec!["semantic_fidelity".to_string()]);
    assert_eq!(bundle.cases[0].candidate_b, "b1");
    assert_eq!(bundle.cases[1].candidate_b, "a2");
    assert_eq!(key.system_one, "one");
    assert_eq!(key.system_two, "two");
    assert_eq!(key.assignments[1].candidate_b_system, "one");
}

#[test]
fn blind_comparison_refuses_foreign_corpora_same_systems_and_gaps() {
    let corpus = two_case_corpus();
    let full = [("case-1", "x"), ("case-2", "y")];
    let other = submission("elsewhere", "one", &full);
    let two = submission("phase31-test", "two", &full);
    assert_eq!(
        build_blind_comparison(&corpus, &other, &two).unwrap_err(),
        "blind comparison submissions must target the same corpus"
    );
    let same = submission("phase31-test", "two", &full);
    assert_eq!(
        build_blind_comparison(&corpus, &same, &two).unwrap_err(),
        "blind comparison requires two distinct system_id values"
    );
    let gap = submission("phase31-test", "one", &[("case-1", "x")]);
    assert_eq!(
        build_blind_comparison(&corpus, &gap, &two).unwrap_err(),
        "first submission is missing case 'case-2'"
    );
    let gap_two = submission("phase31-test", "two", &[("case-2", "y")]);
    let one = submission("phase31-test", "one", &full);
    assert_eq!(
        build_blind_comparison(&corpus, &one, &gap_two).unwrap_err(),
        "second submission is missing case 'case-1'"
    );
}

#[test]
fn a_later_output_for_a_case_replaces_an_earlier_one() {
    let outputs = submission("c", "s", &[("case-1", "old"), ("case-2", "b"), ("case-1", "new")]).outputs;
    assert_eq!(find_output(&outputs, &"case-1".to_string()), Some("new".to_string()));
    assert_eq!(find_output(&outputs, &"case-3".to_string()), None);
}
