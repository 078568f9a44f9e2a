//! Checks that a blind bundle, its reveal key and the evaluators' ledgers,
//! as read from their files, belong together: the same corpus and cases, and
//! ledgers bound to the exact bundle bytes.

use vstd::prelude::*;
use crate::blind_review::{
    assigned, authenticatable_error, bundle_error, key_error, validate_authenticatable_ledger,
    validate_bundle, validate_key, BlindAssignmentInput, BlindComparisonBundleInput,
    BlindComparisonCaseInput, BlindComparisonKeyInput, BlindReviewLedger, LEDGER_SCHEMA_VERSION,
};
use crate::digest::{sha256_hex, stable_hash};
use crate::fmt::{fingerprint, fnv_fingerprint};
use crate::text::same_text;

verus! {

broadcast use vstd::string::group_string_axioms;

/// The case ids of a blind bundle.
pub open spec fn bundle_case_ids(cs: Seq<BlindComparisonCaseInput>) -> Set<Seq<char>> {
    Set::new(|c: Seq<char>| exists|k: int| 0 <= k < cs.len() && #[trigger] cs[k].case_id@ == c)
}

/// The case ids a reveal key assigns.
pub open spec fn key_case_ids(asg: Seq<BlindAssignmentInput>) -> Set<Seq<char>> {
    Set::new(|c: Seq<char>| assigned(asg, c))
}

/// Why a bundle and a reveal key do not belong together, if they do not:
/// either is invalid, an authenticated check needs a schema-2 key, the corpus
/// or the set of case ids differs, or a schema-2 key binds other bundle bytes.
pub open spec fn bundle_key_error(
    bundle: BlindComparisonBundleInput,
    key: BlindComparisonKeyInput,
    bundle_bytes: Seq<u8>,
    require_authenticated_schema: bool,
) -> Option<Seq<char>> {
    if bundle_error(bundle) is Some {
        bundle_error(bundle)
    } else if key_error(key) is Some {
        key_error(key)
    } else if require_authenticated_schema && key.schema_version != 2 {
        Some("authenticated verification requires a schema-2 reveal key"@)
    } else if bundle.corpus_id@ != key.corpus_id@ || bundle_case_ids(bundle.cases@) != key_case_ids(
        key.assignments@,
    ) {
        Some("blind bundle and reveal key have different corpus or case ids"@)
    } else if key.schema_version == 2 && !(key.bundle_sha256 matches Some(h) && h@ == sha256_hex(
        bundle_bytes,
    )) {
        Some("reveal-key SHA-256 differs from the supplied blind bundle"@)
    } else {
        None
    }
}

/// Whether a key assigns case `id`.
fn key_assigns(asg: &Vec<BlindAssignmentInput>, id: &String) -> (r: bool)
    ensures
        r == assigned(asg@, id@),
{
    let mut k: usize = 0;
    while k < asg.len()
        invariant
            k <= asg@.len(),
            forall|q: int| 0 <= q < k ==> (#[trigger] asg@[q]).case_id@ != id@,
        decreases asg.len() - k,
    {
        if same_text(&asg[k].case_id, id) {
            return true;
        }
        k += 1;
    }
    false
}

/// Whether a bundle holds case `id`.
fn bundle_holds(cs: &Vec<BlindComparisonCaseInput>, id: &String) -> (r: bool)
    ensures
        r == bundle_case_ids(cs@).contains(id@),
{
    let mut k: usize = 0;
    while k < cs.len()
        invariant
            k <= cs@.len(),
            forall|q: int| 0 <= q < k ==> (#[trigger] cs@[q]).case_id@ != id@,
        decreases cs.len() - k,
    {
        if same_text(&cs[k].case_id, id) {
            assert(cs@[k as int].case_id@ == id@);
            return true;
        }
        k += 1;
    }
    false
}

/// Whether the bundle's case ids and the key's are the same set.
fn same_case_sets(cs: &Vec<BlindComparisonCaseInput>, asg: &Vec<BlindAssignmentInput>) -> (r: bool)
    ensures
        r == (bundle_case_ids(cs@) == key_case_ids(asg@)),
{
    let mut i: usize = 0;
    while i < cs.len()
        invariant
            i <= cs@.len(),
            forall|q: int| 0 <= q < i ==> assigned(asg@, #[trigger] cs@[q].case_id@),
        decreases cs.len() - i,
    {
        if !key_assigns(asg, &cs[i].case_id) {
            assert(bundle_case_ids(cs@).contains(cs@[i as int].case_id@));
            assert(!key_case_ids(asg@).contains(cs@[i as int].case_id@));
            return false;
        }
        i += 1;
    }
    let mut k: usize = 0;
    while k < asg.len()
        invariant
            k <= asg@.len(),
            forall|q: int| 0 <= q < cs@.len() ==> assigned(asg@, #[trigger] cs@[q].case_id@),
            forall|q: int| 0 <= q < k ==> bundle_case_ids(cs@).contains(#[trigger] asg@[q].case_id@),
        decreases asg.len() - k,
    {
        if !bundle_holds(cs, &asg[k].case_id) {
            assert(key_case_ids(asg@).contains(asg@[k as int].case_id@));
            return false;
        }
        k += 1;
    }
    assert(bundle_case_ids(cs@) =~= key_case_ids(asg@)) by {
        assert forall|c: Seq<char>| key_case_ids(asg@).contains(c) implies bundle_case_ids(
            cs@,
        ).contains(c) by {
            let q = choose|q: int| 0 <= q < asg@.len() && #[trigger] asg@[q].case_id@ == c;
            assert(bundle_case_ids(cs@).contains(asg@[q].case_id@));
        }
        assert forall|c: Seq<char>| bundle_case_ids(cs@).contains(c) implies key_case_ids(
            asg@,
        ).contains(c) by {
            let q = choose|q: int| 0 <= q < cs@.len() && #[trigger] cs@[q].case_id@ == c;
            assert(assigned(asg@, cs@[q].case_id@));
        }
    }
    true
}

/// Checks that a parsed bundle and reveal key belong together (see
/// `bundle_key_error`) and returns the SHA-256 of the bundle's bytes.
pub fn check_bundle_key(
    bundle: &BlindComparisonBundleInput,
    key: &BlindComparisonKeyInput,
    bundle_bytes: &[u8],
    require_authenticated_schema: bool,
) -> (r: Result<String, String>)
    ensures
        match r {
            Ok(h) => bundle_key_error(*bundle, *key, bundle_bytes@, require_authenticated_schema)
                is None && h@ == sha256_hex(bundle_bytes@),
            Err(m) => bundle_key_error(*bundle, *key, bundle_bytes@, require_authenticated_schema)
                == Some(m@),
        },
{
    match validate_bundle(bundle) {
        Ok(()) => {},
        Err(m) => {
            return Err(m);
        },
    }
    match validate_key(key) {
        Ok(()) => {},
        Err(m) => {
            return Err(m);
        },
    }
    if require_authenticated_schema && key.schema_version != 2 {
        return Err(String::from_str("authenticated verification requires a schema-2 reveal key"));
    }
    if !same_text(&bundle.corpus_id, &key.corpus_id) || !same_case_sets(
        &bundle.cases,
        &key.assignments,
    ) {
        return Err(
            String::from_str("blind bundle and reveal key have different corpus or case ids"),
        );
    }
    let digest = stable_hash(bundle_bytes);
    if key.schema_version == 2 {
        let bound = match &key.bundle_sha256 {
            Some(h) => same_text(h, &digest),
            None => false,
        };
        if !bound {
            return Err(
                String::from_str("reveal-key SHA-256 differs from the supplied blind bundle"),
            );
        }
    }
    Ok(digest)
}

/// The first ledger from position `i` on that cannot carry its evaluator's
/// signature, as the refusal.
pub open spec fn authentication_fault(ls: Seq<BlindReviewLedger>, i: int) -> Option<Seq<char>>
    decreases ls.len() - i,
{
    if i < 0 || i >= ls.len() {
        None
    } else if authenticatable_error(ls[i]) is Some {
        authenticatable_error(ls[i])
    } else {
        authentication_fault(ls, i + 1)
    }
}

/// Ledger `l` is bound by SHA-256 to other bundle bytes than `digest`.
pub open spec fn unbound_ledger(l: BlindReviewLedger, digest: Seq<char>) -> bool {
    l.schema_version == LEDGER_SCHEMA_VERSION && !(l.bundle_sha256 matches Some(h) && h@ == digest)
}

/// Why parsed ledgers are not evidence for a bundle and its key, if they are
/// not: under an authenticated check each must be signable; each must carry
/// the bundle's FNV-1a fingerprint; each schema-2 ledger must carry its
/// SHA-256; and a schema-2 key takes schema-2 ledgers only.
pub open spec fn ledger_evidence_error(
    bundle_bytes: Seq<u8>,
    bundle_sha256: Seq<char>,
    key: BlindComparisonKeyInput,
    ls: Seq<BlindReviewLedger>,
    require_authenticated_schema: bool,
) -> Option<Seq<char>> {
    if require_authenticated_schema && authentication_fault(ls, 0) is Some {
        authentication_fault(ls, 0)
    } else if exists|i: int|
        0 <= i < ls.len() && (#[trigger] ls[i]).bundle_fingerprint@ != fnv_fingerprint(
            bundle_bytes,
        ) {
        Some("review ledger fingerprint differs from the supplied blind bundle"@)
    } else if exists|i: int| 0 <= i < ls.len() && unbound_ledger(#[trigger] ls[i], bundle_sha256) {
        Some("review ledger SHA-256 differs from the supplied blind bundle"@)
    } else if key.schema_version == 2 && exists|i: int|
        0 <= i < ls.len() && (#[trigger] ls[i]).schema_version != LEDGER_SCHEMA_VERSION {
        Some("schema-2 reveal key requires schema-2 review ledgers"@)
    } else {
        None
    }
}

proof fn lemma_authentication_step(ls: Seq<BlindReviewLedger>, i: int)
    requires
        0 <= i < ls.len(),
    ensures
        authenticatable_error(ls[i]) is None ==> authentication_fault(ls, i) == authentication_fault(
            ls,
            i + 1,
        ),
        authenticatable_error(ls[i]) is Some ==> authentication_fault(ls, i) == authenticatable_error(
            ls[i],
        ),
{
}

/// Checks that every ledger can carry its evaluator's signature; the first
/// that cannot gives the refusal.
fn check_signable(ledgers: &Vec<BlindReviewLedger>) -> (r: Result<(), String>)
    ensures
        match r {
            Ok(()) => authentication_fault(ledgers@, 0) is None,
            Err(m) => authentication_fault(ledgers@, 0) == Some(m@),
        },
{
    let mut i: usize = 0;
    while i < ledgers.len()
        invariant
            i <= ledgers@.len(),
            authentication_fault(ledgers@, 0) == authentication_fault(ledgers@, i as int),
        decreases ledgers.len() - i,
    {
        proof {
            lemma_authentication_step(ledgers@, i as int);
        }
        match validate_authenticatable_ledger(&ledgers[i]) {
            Ok(()) => {},
            Err(m) => {
                return Err(m);
            },
        }
        i += 1;
    }
    Ok(())
}

/// Checks that parsed ledgers are evidence for the bundle with the given
/// bytes and SHA-256 and for its reveal key (see `ledger_evidence_error`).
pub fn check_ledger_evidence(
    bundle_bytes: &[u8],
    bundle_sha256: &str,
    key: &BlindComparisonKeyInput,
    ledgers: &Vec<BlindReviewLedger>,
    require_authenticated_schema: bool,
) -> (r: Result<(), String>)
    ensures
        match r {
            Ok(()) => ledger_evidence_error(
                bundle_bytes@,
                bundle_sha256@,
                *key,
                ledgers@,
                require_authenticated_schema,
            ) is None,
            Err(m) => ledger_evidence_error(
                bundle_bytes@,
                bundle_sha256@,
                *key,
                ledgers@,
                require_authenticated_schema,
            ) == Some(m@),
        },
{
    if require_authenticated_schema {
        match check_signable(ledgers) {
            Ok(()) => {},
            Err(m) => {
                return Err(m);
            },
        }
    }
    let print = fingerprint(bundle_bytes);
    let mut i: usize = 0;
    while i < ledgers.len()
        invariant
            i <= ledgers@.len(),
            print@ == fnv_fingerprint(bundle_bytes@),
            require_authenticated_schema ==> authentication_fault(ledgers@, 0) is None,
            forall|q: int|
                0 <= q < i ==> (#[trigger] ledgers@[q]).bundle_fingerprint@ == fnv_fingerprint(
                    bundle_bytes@,
                ),
        decreases ledgers.len() - i,
    {
        if !same_text(&ledgers[i].bundle_fingerprint, &print) {
            return Err(
                String::from_str("review ledger fingerprint differs from the supplied blind bundle"),
            );
        }
        i += 1;
    }
    let digest = String::from_str(bundle_sha256);
    let mut i: usize = 0;
    while i < ledgers.len()
        invariant
            i <= ledgers@.len(),
            digest@ == bundle_sha256@,
            require_authenticated_schema ==> authentication_fault(ledgers@, 0) is None,
            forall|q: int|
                0 <= q < ledgers@.len() ==> (#[trigger] ledgers@[q]).bundle_fingerprint@
                    == fnv_fingerprint(bundle_bytes@),
            forall|q: int| 0 <= q < i ==> !unbound_ledger(#[trigger] ledgers@[q], bundle_sha256@),
        decreases ledgers.len() - i,
    {
        if ledgers[i].schema_version == LEDGER_SCHEMA_VERSION {
            let bound = match &ledgers[i].bundle_sha256 {
                Some(h) => same_text(h, &digest),
                None => false,
            };
            if !bound {
                assert(unbound_ledger(ledgers@[i as int], bundle_sha256@));
                return Err(
                    String::from_str("review ledger SHA-256 differs from the supplied blind bundle"),
                );
            }
        }
        i += 1;
    }
    if key.schema_version == 2 {
        let mut i: usize = 0;
        while i < ledgers.len()
            invariant
                i <= ledgers@.len(),
                key.schema_version == 2,
                require_authenticated_schema ==> authentication_fault(ledgers@, 0) is None,
                forall|q: int|
                    0 <= q < ledgers@.len() ==> (#[trigger] ledgers@[q]).bundle_fingerprint@
                        == fnv_fingerprint(bundle_bytes@),
                forall|q: int|
                    0 <= q < ledgers@.len() ==> !unbound_ledger(#[trigger] ledgers@[q], bundle_sha256@),
                forall|q: int|
                    0 <= q < i ==> (#[trigger] ledgers@[q]).schema_version == LEDGER_SCHEMA_VERSION,
            decreases ledgers.len() - i,
        {
            if ledgers[i].schema_version != LEDGER_SCHEMA_VERSION {
                return Err(
                    String::from_str("schema-2 reveal key requires schema-2 review ledgers"),
                );
            }
            i += 1;
        }
    }
    Ok(())
}

} // verus!
