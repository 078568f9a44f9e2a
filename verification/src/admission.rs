//! Provider admission assessment: governance evidence is checked against the
//! review dossier, and the assessment can make a provider eligible for an
//! owner's decision but never admits it.

use vstd::prelude::*;
use crate::fmt::{dec_digits, dec_vec, fingerprint, fnv_fingerprint};
use crate::text::{chars_of, extend_all, extend_str, is_blank, string_of, trim_vec, vec_eq, eq_str};

verus! {

/// Schema of the assessment artifact.
pub const ASSESSMENT_SCHEMA_VERSION: u32 = 1;

/// The parts of a review dossier that the assessment relies on.
#[derive(Debug, Clone)]
pub struct ReviewDossier {
    pub schema_version: u32,
    pub system_one: String,
    pub system_two: String,
    pub automatic_winner: Option<String>,
    pub human_comparative_evidence_only: bool,
    pub production_admission: String,
    pub requires_explicit_admission_decision: bool,
}

#[derive(Debug, Clone, Copy, PartialEq, Eq, Structural)]
pub enum EvidenceStatus {
    Acceptable,
    Unacceptable,
    Unknown,
}

#[derive(Debug, Clone)]
pub struct EvidenceItem {
    pub status: EvidenceStatus,
    pub evidence: String,
}

#[derive(Debug, Clone)]
pub struct ProviderGovernanceProfile {
    pub schema_version: u32,
    pub provider_id: String,
    pub model_id: String,
    pub reviewed_at: String,
    pub terms_url: String,
    pub privacy_url: String,
    pub data_retention: EvidenceItem,
    pub training_use: EvidenceItem,
    pub data_residency: EvidenceItem,
    pub deletion_process: EvidenceItem,
    pub incident_response: EvidenceItem,
    pub reliability_failure_behavior: EvidenceItem,
    pub rate_limits: EvidenceItem,
    pub cost_limits: EvidenceItem,
    pub rights_and_confidentiality: EvidenceItem,
}

/// The outcome of an admission assessment.
#[derive(Debug, Clone)]
pub struct AdmissionAssessment {
    pub schema_version: u32,
    pub provider_id: String,
    pub model_id: String,
    pub reviewed_at: String,
    pub dossier_fingerprint: String,
    pub profile_fingerprint: String,
    pub evidence_complete: bool,
    pub blocking_items: Vec<String>,
    pub eligible_for_owner_decision: bool,
    pub production_admission: &'static str,
    pub requires_explicit_owner_authorization: bool,
    pub selector_changed: bool,
    pub notes: Vec<&'static str>,
}

pub const NOTE_PREFERENCE: &'static str = "Human comparative preference is evidence, not provider authorization.";

pub const NOTE_FAIL_CLOSED: &'static str = "Unknown or unacceptable governance evidence blocks eligibility fail-closed.";

pub const NOTE_SELECTOR: &'static str = "This artifact cannot change runtime provider selection.";

pub const NOTE_PRIVATE: &'static str = "Private manuscripts must not be sent to a candidate provider before a separate explicit owner authorization and runtime integration stage.";

/// The governance evidence items, named, in their fixed order.
pub open spec fn items_of(p: ProviderGovernanceProfile) -> Seq<(Seq<char>, EvidenceItem)> {
    seq![
        ("data_retention"@, p.data_retention),
        ("training_use"@, p.training_use),
        ("data_residency"@, p.data_residency),
        ("deletion_process"@, p.deletion_process),
        ("incident_response"@, p.incident_response),
        ("reliability_failure_behavior"@, p.reliability_failure_behavior),
        ("rate_limits"@, p.rate_limits),
        ("cost_limits"@, p.cost_limits),
        ("rights_and_confidentiality"@, p.rights_and_confidentiality),
    ]
}

/// The profile's evidence items with their names, in a fixed order.
pub fn evidence_items(p: &ProviderGovernanceProfile) -> (r: Vec<(&'static str, &EvidenceItem)>)
    ensures
        r@.map_values(|x: (&str, &EvidenceItem)| (x.0@, *x.1)) == items_of(*p),
{
    let r = vec![
        ("data_retention", &p.data_retention),
        ("training_use", &p.training_use),
        ("data_residency", &p.data_residency),
        ("deletion_process", &p.deletion_process),
        ("incident_response", &p.incident_response),
        ("reliability_failure_behavior", &p.reliability_failure_behavior),
        ("rate_limits", &p.rate_limits),
        ("cost_limits", &p.cost_limits),
        ("rights_and_confidentiality", &p.rights_and_confidentiality),
    ];
    assert(r@.map_values(|x: (&str, &EvidenceItem)| (x.0@, *x.1)) =~= items_of(*p));
    r
}

/// The dossier keeps the non-admission contract: schema 1, human evidence
/// only, admission not granted, an explicit decision required, no winner.
pub open spec fn dossier_preserves_contract(d: ReviewDossier) -> bool {
    d.schema_version == 1 && d.human_comparative_evidence_only && d.production_admission@
        == "not_granted"@ && d.requires_explicit_admission_decision && d.automatic_winner is None
}

/// Checks that the dossier keeps the non-admission contract.
pub fn validate_dossier(d: &ReviewDossier) -> (r: Result<(), String>)
    ensures
        dossier_preserves_contract(*d) ==> r is Ok,
        !dossier_preserves_contract(*d) ==> (r matches Err(m) && m@
            == "dossier does not preserve the Phase 32 non-admission contract"@),
{
    if d.schema_version != 1 || !d.human_comparative_evidence_only || !eq_str(
        &chars_of(d.production_admission.as_str()),
        "not_granted",
    ) || !d.requires_explicit_admission_decision || d.automatic_winner.is_some() {
        return Err("dossier does not preserve the Phase 32 non-admission contract".to_owned());
    }
    Ok(())
}

/// The identity fields of a profile, named, in their fixed order.
pub open spec fn identity_fields(p: ProviderGovernanceProfile) -> Seq<(Seq<char>, Seq<char>)> {
    seq![
        ("provider_id"@, p.provider_id@),
        ("model_id"@, p.model_id@),
        ("reviewed_at"@, p.reviewed_at@),
        ("terms_url"@, p.terms_url@),
        ("privacy_url"@, p.privacy_url@),
    ]
}

/// The first blank identity field from position `k` on.
pub open spec fn blank_field(fs: Seq<(Seq<char>, Seq<char>)>, k: int) -> Option<Seq<char>>
    decreases fs.len() - k,
{
    if k < 0 || k >= fs.len() {
        None
    } else if is_blank(fs[k].1) {
        Some(fs[k].0)
    } else {
        blank_field(fs, k + 1)
    }
}

/// The first evidence item with blank evidence, from position `k` on.
pub open spec fn blank_evidence(items: Seq<(Seq<char>, EvidenceItem)>, k: int) -> Option<Seq<char>>
    decreases items.len() - k,
{
    if k < 0 || k >= items.len() {
        None
    } else if is_blank(items[k].1.evidence@) {
        Some(items[k].0)
    } else {
        blank_evidence(items, k + 1)
    }
}

/// Why a governance profile is refused, if it is.
pub open spec fn profile_error(p: ProviderGovernanceProfile) -> Option<Seq<char>> {
    if p.schema_version != 1 {
        Some("unsupported governance profile schema "@ + dec_digits(p.schema_version as nat))
    } else if blank_field(identity_fields(p), 0) is Some {
        Some("governance profile requires non-empty "@ + blank_field(identity_fields(p), 0)->0)
    } else if blank_evidence(items_of(p), 0) is Some {
        Some("governance evidence for "@ + blank_evidence(items_of(p), 0)->0
            + " must be non-empty, including when status is unknown"@)
    } else {
        None
    }
}

/// Checks a governance profile: schema 1, every identity field present, and
/// evidence text for every item, even an unknown one.
pub fn validate_profile(p: &ProviderGovernanceProfile) -> (r: Result<(), String>)
    ensures
        match r {
            Ok(()) => profile_error(*p) is None,
            Err(m) => profile_error(*p) == Some(m@),
        },
{
    if p.schema_version != 1 {
        let mut m = chars_of("unsupported governance profile schema ");
        extend_all(&mut m, &dec_vec(p.schema_version as usize));
        return Err(string_of(&m));
    }
    let fields: Vec<(&str, &String)> = vec![
        ("provider_id", &p.provider_id),
        ("model_id", &p.model_id),
        ("reviewed_at", &p.reviewed_at),
        ("terms_url", &p.terms_url),
        ("privacy_url", &p.privacy_url),
    ];
    let ghost fs = identity_fields(*p);
    assert(fields@.map_values(|x: (&str, &String)| (x.0@, x.1@)) =~= fs);
    let mut k: usize = 0;
    while k < fields.len()
        invariant
            k <= fields.len(),
            fs == identity_fields(*p),
            fields@.map_values(|x: (&str, &String)| (x.0@, x.1@)) == fs,
            p.schema_version == 1,
            blank_field(fs, k as int) == blank_field(fs, 0),
        decreases fields.len() - k,
    {
        assert(fs[k as int] == (fields@[k as int].0@, fields@[k as int].1@));
        if trim_vec(&chars_of(fields[k].1.as_str())).len() == 0 {
            let mut m = chars_of("governance profile requires non-empty ");
            extend_str(&mut m, fields[k].0);
            return Err(string_of(&m));
        }
        k += 1;
    }
    let items = evidence_items(p);
    let ghost its = items_of(*p);
    let mut k: usize = 0;
    while k < items.len()
        invariant
            k <= items.len(),
            its == items_of(*p),
            items@.map_values(|x: (&str, &EvidenceItem)| (x.0@, *x.1)) == its,
            p.schema_version == 1,
            blank_field(identity_fields(*p), 0) is None,
            blank_evidence(its, k as int) == blank_evidence(its, 0),
        decreases items.len() - k,
    {
        assert(its[k as int] == (items@[k as int].0@, *items@[k as int].1));
        if trim_vec(&chars_of(items[k].1.evidence.as_str())).len() == 0 {
            let mut m = chars_of("governance evidence for ");
            extend_str(&mut m, items[k].0);
            extend_str(&mut m, " must be non-empty, including when status is unknown");
            return Err(string_of(&m));
        }
        k += 1;
    }
    Ok(())
}

/// The blocking item lines: each item that is not acceptable, as
/// `name: unknown` or `name: unacceptable`, in order.
pub open spec fn blocking_lines(items: Seq<(Seq<char>, EvidenceItem)>) -> Seq<Seq<char>>
    decreases items.len(),
{
    if items.len() == 0 {
        seq![]
    } else {
        let rest = blocking_lines(items.drop_last());
        let it = items.last();
        match it.1.status {
            EvidenceStatus::Acceptable => rest,
            EvidenceStatus::Unknown => rest.push(it.0 + ": unknown"@),
            EvidenceStatus::Unacceptable => rest.push(it.0 + ": unacceptable"@),
        }
    }
}

/// Why a profile cannot be assessed against a dossier, if it cannot.
pub open spec fn assessment_error(d: ReviewDossier, p: ProviderGovernanceProfile) -> Option<Seq<char>> {
    if !dossier_preserves_contract(d) {
        Some("dossier does not preserve the Phase 32 non-admission contract"@)
    } else if profile_error(p) is Some {
        profile_error(p)
    } else if p.provider_id@ != d.system_one@ && p.provider_id@ != d.system_two@ {
        Some("provider '"@ + p.provider_id@ + "' is absent from the Phase 32 dossier"@)
    } else {
        None
    }
}

/// Assesses a provider's governance evidence against the review dossier.
/// Unknown or unacceptable evidence blocks eligibility; the assessment never
/// grants admission and never changes the provider selector.
pub fn assess(
    dossier: &ReviewDossier,
    profile: &ProviderGovernanceProfile,
    dossier_bytes: &[u8],
    profile_bytes: &[u8],
) -> (r: Result<AdmissionAssessment, String>)
    ensures
        match r {
            Err(m) => assessment_error(*dossier, *profile) == Some(m@),
            Ok(a) => {
                &&& assessment_error(*dossier, *profile) is None
                &&& a.schema_version == ASSESSMENT_SCHEMA_VERSION
                &&& a.provider_id@ == profile.provider_id@
                &&& a.model_id@ == profile.model_id@
                &&& a.reviewed_at@ == profile.reviewed_at@
                &&& a.dossier_fingerprint@ == fnv_fingerprint(dossier_bytes@)
                &&& a.profile_fingerprint@ == fnv_fingerprint(profile_bytes@)
                &&& a.blocking_items@.map_values(|s: String| s@) == blocking_lines(items_of(*profile))
                &&& a.evidence_complete == forall|k: int|
                    0 <= k < 9 ==> (#[trigger] items_of(*profile)[k]).1.status
                        != EvidenceStatus::Unknown
                &&& a.eligible_for_owner_decision == (a.blocking_items@.len() == 0)
                &&& a.production_admission@ == "not_granted"@
                &&& a.requires_explicit_owner_authorization
                &&& !a.selector_changed
                &&& a.notes@.map_values(|n: &str| n@) == seq![
                    NOTE_PREFERENCE@,
                    NOTE_FAIL_CLOSED@,
                    NOTE_SELECTOR@,
                    NOTE_PRIVATE@,
                ]
            },
        },
{
    match validate_dossier(dossier) {
        Err(m) => {
            return Err(m);
        },
        Ok(()) => {},
    }
    match validate_profile(profile) {
        Err(m) => {
            return Err(m);
        },
        Ok(()) => {},
    }
    let pid = chars_of(profile.provider_id.as_str());
    if !vec_eq(&pid, &chars_of(dossier.system_one.as_str())) && !vec_eq(
        &pid,
        &chars_of(dossier.system_two.as_str()),
    ) {
        let mut m = chars_of("provider '");
        extend_str(&mut m, profile.provider_id.as_str());
        extend_str(&mut m, "' is absent from the Phase 32 dossier");
        return Err(string_of(&m));
    }
    let items = evidence_items(profile);
    let ghost its = items_of(*profile);
    let mut blocking: Vec<String> = Vec::new();
    let mut complete = true;
    let mut k: usize = 0;
    while k < items.len()
        invariant
            k <= items.len(),
            its == items_of(*profile),
            items@.map_values(|x: (&str, &EvidenceItem)| (x.0@, *x.1)) == its,
            blocking@.map_values(|s: String| s@) == blocking_lines(its.take(k as int)),
            complete == forall|q: int| 0 <= q < k ==> (#[trigger] its[q]).1.status
                != EvidenceStatus::Unknown,
        decreases items.len() - k,
    {
        assert(its[k as int] == (items@[k as int].0@, *items@[k as int].1));
        assert(its.take(k + 1).drop_last() =~= its.take(k as int));
        let ghost before = blocking@.map_values(|s: String| s@);
        match items[k].1.status {
            EvidenceStatus::Acceptable => {},
            EvidenceStatus::Unknown => {
                let mut m = chars_of(items[k].0);
                extend_str(&mut m, ": unknown");
                blocking.push(string_of(&m));
                complete = false;
                assert(blocking@.map_values(|s: String| s@) =~= before.push(its[k as int].0 + ": unknown"@));
            },
            EvidenceStatus::Unacceptable => {
                let mut m = chars_of(items[k].0);
                extend_str(&mut m, ": unacceptable");
                blocking.push(string_of(&m));
                assert(blocking@.map_values(|s: String| s@) =~= before.push(
                    its[k as int].0 + ": unacceptable"@,
                ));
            },
        }
        k += 1;
    }
    assert(its.take(9) =~= its);
    let eligible = blocking.len() == 0;
    let notes: Vec<&'static str> = vec![
        NOTE_PREFERENCE,
        NOTE_FAIL_CLOSED,
        NOTE_SELECTOR,
        NOTE_PRIVATE,
    ];
    let a = AdmissionAssessment {
        schema_version: ASSESSMENT_SCHEMA_VERSION,
        provider_id: profile.provider_id.clone(),
        model_id: profile.model_id.clone(),
        reviewed_at: profile.reviewed_at.clone(),
        dossier_fingerprint: fingerprint(dossier_bytes),
        profile_fingerprint: fingerprint(profile_bytes),
        evidence_complete: complete,
        blocking_items: blocking,
        eligible_for_owner_decision: eligible,
        production_admission: "not_granted",
        requires_explicit_owner_authorization: true,
        selector_changed: false,
        notes,
    };
    assert(a.notes@.map_values(|n: &str| n@) =~= seq![
        NOTE_PREFERENCE@,
        NOTE_FAIL_CLOSED@,
        NOTE_SELECTOR@,
        NOTE_PRIVATE@,
    ]);
    Ok(a)
}

proof fn lemma_blocking_empty(items: Seq<(Seq<char>, EvidenceItem)>)
    ensures
        blocking_lines(items).len() == 0 <==> forall|k: int|
            0 <= k < items.len() ==> (#[trigger] items[k]).1.status == EvidenceStatus::Acceptable,
    decreases items.len(),
{
    if items.len() > 0 {
        lemma_blocking_empty(items.drop_last());
        let init = items.drop_last();
        if forall|k: int| 0 <= k < items.len() ==> (#[trigger] items[k]).1.status == EvidenceStatus::Acceptable {
            assert forall|k: int| 0 <= k < init.len() implies (#[trigger] init[k]).1.status
                == EvidenceStatus::Acceptable by {
                assert(init[k] == items[k]);
            }
        }
        if blocking_lines(items).len() == 0 {
            assert forall|k: int| 0 <= k < items.len() implies (#[trigger] items[k]).1.status
                == EvidenceStatus::Acceptable by {
                if k < init.len() {
                    assert(init[k] == items[k]);
                }
            }
        }
    }
}

/// Law: a provider is eligible for the owner's decision exactly when every
/// governance evidence item is acceptable, and eligibility implies complete
/// evidence (stated over what `assess` ensures of its assessment).
pub proof fn lemma_eligibility_requires_acceptable_evidence(
    p: ProviderGovernanceProfile,
    a: AdmissionAssessment,
)
    requires
        a.blocking_items@.map_values(|s: String| s@) == blocking_lines(items_of(p)),
        a.eligible_for_owner_decision == (a.blocking_items@.len() == 0),
        a.evidence_complete == forall|k: int|
            0 <= k < 9 ==> (#[trigger] items_of(p)[k]).1.status != EvidenceStatus::Unknown,
    ensures
        a.eligible_for_owner_decision <==> forall|k: int|
            0 <= k < 9 ==> (#[trigger] items_of(p)[k]).1.status == EvidenceStatus::Acceptable,
        a.eligible_for_owner_decision ==> a.evidence_complete,
{
    lemma_blocking_empty(items_of(p));
    assert(a.blocking_items@.len() == blocking_lines(items_of(p)).len());
    if a.eligible_for_owner_decision {
        assert forall|k: int| 0 <= k < 9 implies (#[trigger] items_of(p)[k]).1.status
            != EvidenceStatus::Unknown by {
            assert(items_of(p)[k].1.status == EvidenceStatus::Acceptable);
        }
    }
}

} // verus!
