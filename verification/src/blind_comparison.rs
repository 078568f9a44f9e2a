//! Blind A/B comparison of two systems' translations of an evaluation corpus:
//! a bundle that shows evaluators the two candidates under neutral labels,
//! and a separate reveal key that says which system wrote which candidate.
//! The labels are counterbalanced: the first system is candidate A on the
//! even-numbered cases and candidate B on the odd-numbered ones.

use vstd::prelude::*;
use crate::analysis_run::copy_strings;
use crate::models::copy_opt_string;
use crate::text::{chars_of, extend_str, same_text, string_of, views};

verus! {

broadcast use vstd::string::group_string_axioms;

/// A corpus case: the passage to translate, its neighbours, and the literary
/// dimensions it exercises (as labels, in the corpus's order).
#[derive(Debug, Clone)]
pub struct EvaluationCaseInput {
    pub id: String,
    pub title: String,
    pub source: String,
    pub context_before: Option<String>,
    pub context_after: Option<String>,
    pub dimensions: Vec<String>,
}

/// An evaluation corpus: its id and its cases in order.
#[derive(Debug, Clone)]
pub struct EvaluationCorpusInput {
    pub corpus_id: String,
    pub cases: Vec<EvaluationCaseInput>,
}

/// One system's translation of one case.
#[derive(Debug, Clone)]
pub struct CandidateOutput {
    pub case_id: String,
    pub translation: String,
}

/// One system's translations of a corpus.
#[derive(Debug, Clone)]
pub struct CandidateSubmission {
    pub schema_version: u32,
    pub corpus_id: String,
    pub system_id: String,
    pub outputs: Vec<CandidateOutput>,
}

/// A case as evaluators see it: no system is named.
#[derive(Debug, Clone)]
pub struct BlindComparisonCase {
    pub case_id: String,
    pub title: String,
    pub source: String,
    pub context_before: Option<String>,
    pub context_after: Option<String>,
    pub dimensions: Vec<String>,
    pub candidate_a: String,
    pub candidate_b: String,
}

/// What evaluators receive.
#[derive(Debug, Clone)]
pub struct BlindComparisonBundle {
    pub schema_version: u32,
    pub corpus_id: String,
    pub cases: Vec<BlindComparisonCase>,
    pub instructions: Vec<String>,
}

/// Which system wrote candidate A and which candidate B of a case.
#[derive(Debug, Clone)]
pub struct BlindAssignment {
    pub case_id: String,
    pub candidate_a_system: String,
    pub candidate_b_system: String,
}

/// The reveal key, kept apart from the bundle.
#[derive(Debug, Clone)]
pub struct BlindComparisonKey {
    pub schema_version: u32,
    pub corpus_id: String,
    pub system_one: String,
    pub system_two: String,
    pub assignments: Vec<BlindAssignment>,
}

/// The translation a submission gives for a case: that of its last output
/// with the case's id (a later output for the same case replaces an earlier
/// one).
pub open spec fn output_for(outputs: Seq<CandidateOutput>, case_id: Seq<char>) -> Option<Seq<char>>
    decreases outputs.len(),
{
    if outputs.len() == 0 {
        None
    } else if outputs.last().case_id@ == case_id {
        Some(outputs.last().translation@)
    } else {
        output_for(outputs.drop_last(), case_id)
    }
}

/// The first case from position `i` on that one of the submissions lacks,
/// as the refusal that names it.
pub open spec fn missing_case_fault(
    cases: Seq<EvaluationCaseInput>,
    first: Seq<CandidateOutput>,
    second: Seq<CandidateOutput>,
    i: int,
) -> Option<Seq<char>>
    decreases cases.len() - i,
{
    if i < 0 || i >= cases.len() {
        None
    } else if output_for(first, cases[i].id@) is None {
        Some("first submission is missing case '"@ + cases[i].id@ + "'"@)
    } else if output_for(second, cases[i].id@) is None {
        Some("second submission is missing case '"@ + cases[i].id@ + "'"@)
    } else {
        missing_case_fault(cases, first, second, i + 1)
    }
}

/// Why two submissions cannot be compared blind on a corpus, if they cannot.
pub open spec fn comparison_error(
    corpus: EvaluationCorpusInput,
    first: CandidateSubmission,
    second: CandidateSubmission,
) -> Option<Seq<char>> {
    if first.corpus_id@ != corpus.corpus_id@ || second.corpus_id@ != corpus.corpus_id@ {
        Some("blind comparison submissions must target the same corpus"@)
    } else if first.system_id@ == second.system_id@ {
        Some("blind comparison requires two distinct system_id values"@)
    } else {
        missing_case_fault(corpus.cases@, first.outputs@, second.outputs@, 0)
    }
}

/// Whether the labels of the case at position `k` are swapped: the second
/// system is candidate A on the odd-numbered cases.
pub open spec fn swapped(k: int) -> bool {
    k % 2 == 1
}

/// The guidance written into every bundle.
pub open spec fn bundle_instructions() -> Seq<Seq<char>> {
    seq![
        "Keep the reveal key closed until every judgment is recorded."@,
        "Compare Candidate A and Candidate B for the listed literary dimensions and overall reading quality."@,
        "Do not infer model identity from style; judge only the supplied source/context and translations."@,
        "Record ties when differences are not meaningful rather than forcing a winner."@,
    ]
}

/// The bundle case at position `k` shows the corpus case with the two
/// submissions' translations under counterbalanced labels.
pub open spec fn blind_case_ok(
    b: BlindComparisonCase,
    c: EvaluationCaseInput,
    first: CandidateSubmission,
    second: CandidateSubmission,
    k: int,
) -> bool {
    let one = output_for(first.outputs@, c.id@);
    let two = output_for(second.outputs@, c.id@);
    &&& b.case_id == c.id
    &&& b.title == c.title
    &&& b.source == c.source
    &&& b.context_before == c.context_before
    &&& b.context_after == c.context_after
    &&& b.dimensions@ == c.dimensions@
    &&& one matches Some(t1) && two matches Some(t2) && if swapped(k) {
        b.candidate_a@ == t2 && b.candidate_b@ == t1
    } else {
        b.candidate_a@ == t1 && b.candidate_b@ == t2
    }
}

/// The key's entry at position `k` names the system behind each label.
pub open spec fn assignment_ok(
    a: BlindAssignment,
    c: EvaluationCaseInput,
    first: CandidateSubmission,
    second: CandidateSubmission,
    k: int,
) -> bool {
    &&& a.case_id == c.id
    &&& if swapped(k) {
        a.candidate_a_system == second.system_id && a.candidate_b_system == first.system_id
    } else {
        a.candidate_a_system == first.system_id && a.candidate_b_system == second.system_id
    }
}

proof fn lemma_fault_step(
    cases: Seq<EvaluationCaseInput>,
    first: Seq<CandidateOutput>,
    second: Seq<CandidateOutput>,
    i: int,
)
    requires
        0 <= i < cases.len(),
        output_for(first, cases[i].id@) is Some,
        output_for(second, cases[i].id@) is Some,
    ensures
        missing_case_fault(cases, first, second, i) == missing_case_fault(cases, first, second, i + 1),
{
}

/// The translation a submission gives for a case (see `output_for`).
pub fn find_output(outputs: &Vec<CandidateOutput>, case_id: &String) -> (r: Option<String>)
    ensures
        match r {
            Some(t) => output_for(outputs@, case_id@) == Some(t@),
            None => output_for(outputs@, case_id@) is None,
        },
{
    let mut found: Option<String> = None;
    let mut i: usize = 0;
    while i < outputs.len()
        invariant
            i <= outputs@.len(),
            match found {
                Some(t) => output_for(outputs@.take(i as int), case_id@) == Some(t@),
                None => output_for(outputs@.take(i as int), case_id@) is None,
            },
        decreases outputs.len() - i,
    {
        assert(outputs@.take(i + 1).drop_last() =~= outputs@.take(i as int));
        if same_text(&outputs[i].case_id, case_id) {
            found = Some(outputs[i].translation.clone());
        }
        i += 1;
    }
    assert(outputs@.take(outputs@.len() as int) =~= outputs@);
    found
}

/// Builds the blind bundle and the reveal key for two submissions on a
/// corpus. Both must target the corpus, come from two distinct systems, and
/// translate every case; otherwise the first fault is returned. Case `k` of
/// the bundle shows the first system's translation as candidate A when `k` is
/// even and the second's when it is odd; the key records which is which. The
/// bundle names no system.
pub fn build_blind_comparison(
    corpus: &EvaluationCorpusInput,
    first: &CandidateSubmission,
    second: &CandidateSubmission,
) -> (r: Result<(BlindComparisonBundle, BlindComparisonKey), String>)
    ensures
        match r {
            Err(m) => comparison_error(*corpus, *first, *second) == Some(m@),
            Ok((bundle, key)) => {
                &&& comparison_error(*corpus, *first, *second) is None
                &&& bundle.schema_version == 1
                &&& bundle.corpus_id == corpus.corpus_id
                &&& views(bundle.instructions@) == bundle_instructions()
                &&& bundle.cases@.len() == corpus.cases@.len()
                &&& forall|k: int|
                    0 <= k < corpus.cases@.len() ==> blind_case_ok(
                        #[trigger] bundle.cases@[k],
                        corpus.cases@[k],
                        *first,
                        *second,
                        k,
                    )
                &&& key.schema_version == 1
                &&& key.corpus_id == corpus.corpus_id
                &&& key.system_one == first.system_id
                &&& key.system_two == second.system_id
                &&& key.assignments@.len() == corpus.cases@.len()
                &&& forall|k: int|
                    0 <= k < corpus.cases@.len() ==> assignment_ok(
                        #[trigger] key.assignments@[k],
                        corpus.cases@[k],
                        *first,
                        *second,
                        k,
                    )
            },
        },
{
    if !same_text(&first.corpus_id, &corpus.corpus_id) || !same_text(
        &second.corpus_id,
        &corpus.corpus_id,
    ) {
        return Err(String::from_str("blind comparison submissions must target the same corpus"));
    }
    if same_text(&first.system_id, &second.system_id) {
        return Err(String::from_str("blind comparison requires two distinct system_id values"));
    }
    let mut cases: Vec<BlindComparisonCase> = Vec::new();
    let mut assignments: Vec<BlindAssignment> = Vec::new();
    let mut k: usize = 0;
    while k < corpus.cases.len()
        invariant
            k <= corpus.cases@.len(),
            cases@.len() == k,
            assignments@.len() == k,
            first.corpus_id@ == corpus.corpus_id@,
            second.corpus_id@ == corpus.corpus_id@,
            first.system_id@ != second.system_id@,
            missing_case_fault(corpus.cases@, first.outputs@, second.outputs@, 0)
                == missing_case_fault(corpus.cases@, first.outputs@, second.outputs@, k as int),
            forall|q: int|
                0 <= q < k ==> blind_case_ok(
                    #[trigger] cases@[q],
                    corpus.cases@[q],
                    *first,
                    *second,
                    q,
                ),
            forall|q: int|
                0 <= q < k ==> assignment_ok(
                    #[trigger] assignments@[q],
                    corpus.cases@[q],
                    *first,
                    *second,
                    q,
                ),
        decreases corpus.cases.len() - k,
    {
        let case = &corpus.cases[k];
        let one = match find_output(&first.outputs, &case.id) {
            Some(t) => t,
            None => {
                let mut m = chars_of("first submission is missing case '");
                extend_str(&mut m, case.id.as_str());
                extend_str(&mut m, "'");
                return Err(string_of(&m));
            },
        };
        let two = match find_output(&second.outputs, &case.id) {
            Some(t) => t,
            None => {
                let mut m = chars_of("second submission is missing case '");
                extend_str(&mut m, case.id.as_str());
                extend_str(&mut m, "'");
                return Err(string_of(&m));
            },
        };
        proof {
            lemma_fault_step(corpus.cases@, first.outputs@, second.outputs@, k as int);
        }
        let swap = k % 2 == 1;
        let (candidate_a, candidate_b, a_system, b_system) = if swap {
            (two, one, second.system_id.clone(), first.system_id.clone())
        } else {
            (one, two, first.system_id.clone(), second.system_id.clone())
        };
        cases.push(
            BlindComparisonCase {
                case_id: case.id.clone(),
                title: case.title.clone(),
                source: case.source.clone(),
                context_before: copy_opt_string(&case.context_before),
                context_after: copy_opt_string(&case.context_after),
                dimensions: copy_strings(&case.dimensions),
                candidate_a,
                candidate_b,
            },
        );
        assignments.push(
            BlindAssignment {
                case_id: case.id.clone(),
                candidate_a_system: a_system,
                candidate_b_system: b_system,
            },
        );
        k += 1;
    }
    let mut instructions: Vec<String> = Vec::new();
    instructions.push(
        String::from_str("Keep the reveal key closed until every judgment is recorded."),
    );
    instructions.push(
        String::from_str(
            "Compare Candidate A and Candidate B for the listed literary dimensions and overall reading quality.",
        ),
    );
    instructions.push(
        String::from_str(
            "Do not infer model identity from style; judge only the supplied source/context and translations.",
        ),
    );
    instructions.push(
        String::from_str(
            "Record ties when differences are not meaningful rather than forcing a winner.",
        ),
    );
    assert(views(instructions@) =~= bundle_instructions());
    Ok(
        (
            BlindComparisonBundle {
                schema_version: 1,
                corpus_id: corpus.corpus_id.clone(),
                cases,
                instructions,
            },
            BlindComparisonKey {
                schema_version: 1,
                corpus_id: corpus.corpus_id.clone(),
                system_one: first.system_id.clone(),
                system_two: second.system_id.clone(),
                assignments,
            },
        ),
    )
}

} // verus!
