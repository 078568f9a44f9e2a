//! An evaluator's blind-review ledger: opened for a blind bundle with every
//! case pending, then filled in one recorded judgment at a time.

use vstd::prelude::*;
use vstd::string::StringSliceAdditionalSpecFns;
use crate::blind_review::{
    bundle_error, decision_named, ledger_error, validate_bundle, validate_ledger,
    BlindComparisonBundleInput, BlindReviewCase, BlindReviewLedger, CriterionNotes, ReviewDecision,
    LEDGER_SCHEMA_VERSION,
};
use crate::digest::{sha256_hex, stable_hash};
use crate::fmt::{fingerprint, fnv_fingerprint};
use crate::text::{
    ascii_lower_seq, chars_of, extend_str, is_blank, same_text, string_of, trim, trim_vec,
};

verus! {

broadcast use vstd::string::group_string_axioms;

/// The guidance written into every new ledger.
pub open spec fn ledger_instructions() -> Seq<Seq<char>> {
    seq![
        "Keep the reveal key physically/logically separate until all judgments are recorded."@,
        "Judge Candidate A versus Candidate B from source/context only; do not infer provider identity."@,
        "Use tie when no meaningful preference exists; use defer when the case cannot be judged reliably."@,
        "Record a concrete reason for every judgment so later disagreement is auditable."@,
    ]
}

/// A case not judged yet.
pub open spec fn fresh_case(c: BlindReviewCase, case_id: Seq<char>) -> bool {
    &&& c.case_id@ == case_id
    &&& c.decision == ReviewDecision::Pending
    &&& c.reason is None
    &&& c.notes.adequacy is None && c.notes.voice_style is None
        && c.notes.cultural_pragmatic_fit is None && c.notes.continuity is None
}

/// Opens an evaluator's ledger for a blind bundle: every case pending, bound
/// to the bundle's exact bytes by an FNV-1a fingerprint and a SHA-256 digest.
/// The evaluator must be named, and the bundle must be valid.
pub fn init_ledger(bundle: &BlindComparisonBundleInput, bundle_bytes: &[u8], reviewer: &str) -> (r:
    Result<BlindReviewLedger, String>)
    ensures
        is_blank(reviewer@) ==> (r matches Err(m) && m@ == "init requires a non-empty --evaluator value"@),
        !is_blank(reviewer@) && bundle_error(*bundle) is Some ==> (r matches Err(m) && bundle_error(
            *bundle,
        ) == Some(m@)),
        !is_blank(reviewer@) && bundle_error(*bundle) is None ==> (r matches Ok(l) && {
            &&& l.schema_version == LEDGER_SCHEMA_VERSION
            &&& l.corpus_id == bundle.corpus_id
            &&& l.bundle_fingerprint@ == fnv_fingerprint(bundle_bytes@)
            &&& l.bundle_sha256 matches Some(h) && h@ == sha256_hex(bundle_bytes@)
            &&& l.reviewer@ == trim(reviewer@)
            &&& l.cases@.len() == bundle.cases@.len()
            &&& forall|k: int|
                0 <= k < bundle.cases@.len() ==> fresh_case(
                    #[trigger] l.cases@[k],
                    bundle.cases@[k].case_id@,
                )
            &&& crate::text::views(l.instructions@) == ledger_instructions()
        }),
{
    let name = trim_vec(&chars_of(reviewer));
    if name.len() == 0 {
        return Err(String::from_str("init requires a non-empty --evaluator value"));
    }
    match validate_bundle(bundle) {
        Ok(()) => {},
        Err(m) => {
            return Err(m);
        },
    }
    let mut cases: Vec<BlindReviewCase> = Vec::new();
    let mut k: usize = 0;
    while k < bundle.cases.len()
        invariant
            k <= bundle.cases@.len(),
            cases@.len() == k,
            forall|q: int| 0 <= q < k ==> fresh_case(#[trigger] cases@[q], bundle.cases@[q].case_id@),
        decreases bundle.cases.len() - k,
    {
        cases.push(
            BlindReviewCase {
                case_id: bundle.cases[k].case_id.clone(),
                decision: ReviewDecision::Pending,
                reason: None,
                notes: CriterionNotes::default(),
            },
        );
        k += 1;
    }
    let mut instructions: Vec<String> = Vec::new();
    instructions.push(
        String::from_str(
            "Keep the reveal key physically/logically separate until all judgments are recorded.",
        ),
    );
    instructions.push(
        String::from_str(
            "Judge Candidate A versus Candidate B from source/context only; do not infer provider identity.",
        ),
    );
    instructions.push(
        String::from_str(
            "Use tie when no meaningful preference exists; use defer when the case cannot be judged reliably.",
        ),
    );
    instructions.push(
        String::from_str(
            "Record a concrete reason for every judgment so later disagreement is auditable.",
        ),
    );
    assert(crate::text::views(instructions@) =~= ledger_instructions());
    Ok(
        BlindReviewLedger {
            schema_version: LEDGER_SCHEMA_VERSION,
            corpus_id: bundle.corpus_id.clone(),
            bundle_fingerprint: fingerprint(bundle_bytes),
            bundle_sha256: Some(stable_hash(bundle_bytes)),
            reviewer: string_of(&name),
            cases,
            instructions,
        },
    )
}

/// The number of cases still pending.
pub open spec fn pending_count(cases: Seq<BlindReviewCase>) -> nat
    decreases cases.len(),
{
    if cases.len() == 0 {
        0
    } else {
        pending_count(cases.drop_last()) + if cases.last().decision == ReviewDecision::Pending {
            1nat
        } else {
            0nat
        }
    }
}

/// The number of cases still pending.
pub fn count_pending(cases: &Vec<BlindReviewCase>) -> (r: usize)
    ensures
        r == pending_count(cases@),
{
    let mut n: usize = 0;
    let mut i: usize = 0;
    while i < cases.len()
        invariant
            i <= cases@.len(),
            n == pending_count(cases@.take(i as int)),
            n <= i,
        decreases cases.len() - i,
    {
        assert(cases@.take(i + 1).drop_last() =~= cases@.take(i as int));
        if cases[i].decision == ReviewDecision::Pending {
            n += 1;
        }
        i += 1;
    }
    assert(cases@.take(cases@.len() as int) =~= cases@);
    n
}

/// The position of the first case with the given id.
pub open spec fn first_case(cases: Seq<BlindReviewCase>, case_id: Seq<char>) -> Option<int> {
    if exists|k: int| 0 <= k < cases.len() && cases[k].case_id@ == case_id {
        Some(
            choose|k: int|
                0 <= k < cases.len() && cases[k].case_id@ == case_id && forall|q: int|
                    0 <= q < k ==> cases[q].case_id@ != case_id,
        )
    } else {
        None
    }
}

proof fn lemma_first_case(cases: Seq<BlindReviewCase>, case_id: Seq<char>, k: int)
    requires
        0 <= k < cases.len(),
        cases[k].case_id@ == case_id,
        forall|q: int| 0 <= q < k ==> cases[q].case_id@ != case_id,
    ensures
        first_case(cases, case_id) == Some(k),
{
    let j = choose|j: int|
        0 <= j < cases.len() && cases[j].case_id@ == case_id && forall|q: int|
            0 <= q < j ==> cases[q].case_id@ != case_id;
    assert(0 <= k < cases.len() && cases[k].case_id@ == case_id && forall|q: int|
        0 <= q < k ==> cases[q].case_id@ != case_id);
    if j < k {
        assert(cases[j].case_id@ != case_id);
    } else if j > k {
        assert(cases[k].case_id@ != case_id);
    }
}

/// Records a judgment: the decision (`a`, `b`, `tie` or `defer`), a reason
/// that is not blank, and the criterion notes, on the first case with the
/// given id of a valid ledger. Returns how many cases are still pending. On
/// any refusal the ledger is left as it was.
pub fn record_decision(
    ledger: &mut BlindReviewLedger,
    case_id: &str,
    decision_text: &str,
    reason: &str,
    notes: CriterionNotes,
) -> (r: Result<usize, String>)
    ensures
        ({
            let d = decision_named(ascii_lower_seq(trim(decision_text@)));
            let pos = first_case(old(ledger).cases@, case_id@);
            &&& r is Err ==> *final(ledger) == *old(ledger)
            &&& d is None ==> (r matches Err(m) && m@ == "unsupported decision '"@ + ascii_lower_seq(
                trim(decision_text@),
            ) + "'; expected a, b, tie, or defer"@)
            &&& d is Some && is_blank(reason@) ==> (r matches Err(m) && m@
                == "record requires a non-empty --reason for every judgment"@)
            &&& d is Some && !is_blank(reason@) && ledger_error(*old(ledger)) is Some ==> (
            r matches Err(m) && ledger_error(*old(ledger)) == Some(m@))
            &&& d is Some && !is_blank(reason@) && ledger_error(*old(ledger)) is None && pos is None
                ==> (r matches Err(m) && m@ == "ledger does not contain case '"@ + case_id@ + "'"@)
            &&& d is Some && !is_blank(reason@) && ledger_error(*old(ledger)) is None && pos is Some
                ==> (r matches Ok(n) && {
                let k = pos->0;
                &&& final(ledger).schema_version == old(ledger).schema_version
                &&& final(ledger).corpus_id == old(ledger).corpus_id
                &&& final(ledger).bundle_fingerprint == old(ledger).bundle_fingerprint
                &&& final(ledger).bundle_sha256 == old(ledger).bundle_sha256
                &&& final(ledger).reviewer == old(ledger).reviewer
                &&& final(ledger).instructions == old(ledger).instructions
                &&& final(ledger).cases@ == old(ledger).cases@.update(
                    k,
                    BlindReviewCase {
                        case_id: old(ledger).cases@[k].case_id,
                        decision: d->0,
                        reason: Some(final(ledger).cases@[k].reason->0),
                        notes,
                    },
                )
                &&& final(ledger).cases@[k].reason matches Some(t) && t@ == trim(reason@)
                &&& n == pending_count(final(ledger).cases@)
            })
        }),
{
    let decision = match ReviewDecision::parse(decision_text) {
        Ok(d) => d,
        Err(m) => {
            return Err(m);
        },
    };
    let why = trim_vec(&chars_of(reason));
    if why.len() == 0 {
        return Err(String::from_str("record requires a non-empty --reason for every judgment"));
    }
    match validate_ledger(ledger) {
        Ok(()) => {},
        Err(m) => {
            return Err(m);
        },
    }
    let wanted = String::from_str(case_id);
    let mut k: usize = 0;
    while k < ledger.cases.len()
        invariant
            k <= ledger.cases@.len(),
            wanted@ == case_id@,
            forall|q: int| 0 <= q < k ==> (#[trigger] ledger.cases@[q]).case_id@ != case_id@,
        ensures
            k <= ledger.cases@.len(),
            forall|q: int| 0 <= q < k ==> (#[trigger] ledger.cases@[q]).case_id@ != case_id@,
            k < ledger.cases@.len() ==> ledger.cases@[k as int].case_id@ == case_id@,
        decreases ledger.cases.len() - k,
    {
        if same_text(&ledger.cases[k].case_id, &wanted) {
            break;
        }
        k += 1;
    }
    if k == ledger.cases.len() {
        let mut m = chars_of("ledger does not contain case '");
        extend_str(&mut m, case_id);
        extend_str(&mut m, "'");
        return Err(string_of(&m));
    }
    proof {
        lemma_first_case(ledger.cases@, case_id@, k as int);
    }
    let updated = BlindReviewCase {
        case_id: ledger.cases[k].case_id.clone(),
        decision,
        reason: Some(string_of(&why)),
        notes,
    };
    ledger.cases.set(k, updated);
    Ok(count_pending(&ledger.cases))
}

} // verus!
