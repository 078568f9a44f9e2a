//! Cross-unit disagreement: findings that make different claims about the same
//! subject in the same scope are all kept and flagged, never collapsed.

use vstd::prelude::*;
use crate::analysis::{
    category_index, category_label, scope_key, ConfidenceLevel, FindingCategory,
};
use crate::fmt::{dec_digits, dec_vec};
use crate::norm::{identity_form, normalize_for_identity};
use crate::text::{
    chars_of, extend_all, extend_str, lemma_seq_lt_total,
    lemma_seq_lt_transitive, lt_exec, same_text, seq_lt, string_of, views,
};
use crate::validation::{AdvancedLiteraryFinding, FindingConfidence};

verus! {

broadcast use vstd::string::group_string_axioms;

/// The group of a finding: its category, normalized subject and scope key.
pub type GroupKey = (FindingCategory, Seq<char>, Seq<char>);

/// The group a finding belongs to.
pub open spec fn group_key(f: AdvancedLiteraryFinding) -> GroupKey {
    (f.category, identity_form(f.subject@), scope_key(f.scope))
}

/// The order of groups: by category, then subject, then scope.
pub open spec fn key_lt(a: GroupKey, b: GroupKey) -> bool {
    ||| category_index(a.0) < category_index(b.0)
    ||| (a.0 == b.0 && seq_lt(a.1, b.1))
    ||| (a.0 == b.0 && a.1 == b.1 && seq_lt(a.2, b.2))
}

/// The distinct normalized claims of the findings in group `k`.
pub open spec fn readings(fs: Seq<AdvancedLiteraryFinding>, k: GroupKey) -> Set<Seq<char>> {
    Set::new(
        |c: Seq<char>|
            exists|i: int| 0 <= i < fs.len() && group_key(fs[i]) == k && identity_form(fs[i].claim@) == c,
    )
}

/// Group `k` is in conflict when its findings make two or more distinct claims.
pub open spec fn in_conflict(fs: Seq<AdvancedLiteraryFinding>, k: GroupKey) -> bool {
    readings(fs, k).len() >= 2
}

/// The warning for a group with `n` distinct readings.
pub open spec fn conflict_message(k: GroupKey, n: nat) -> Seq<char> {
    "conflicting model findings for "@ + category_label(k.0) + " on '"@ + k.1 + "' at "@ + k.2
        + ": "@ + dec_digits(n)
        + " distinct readings retained with scope (human review required)"@
}

/// `new` is `old` flagged as contradicted by `n - 1` other readings: a high
/// confidence drops to moderate; nothing else changes.
pub open spec fn flagged(old: AdvancedLiteraryFinding, new: AdvancedLiteraryFinding, n: nat) -> bool {
    &&& new.finding_id == old.finding_id
    &&& new.analysis_unit_id == old.analysis_unit_id
    &&& new.category == old.category
    &&& new.subject == old.subject
    &&& new.claim == old.claim
    &&& new.evidence == old.evidence
    &&& new.scope == old.scope
    &&& new.provider_metadata == old.provider_metadata
    &&& new.uncertainty == old.uncertainty
    &&& new.alternative_interpretations == old.alternative_interpretations
    &&& new.is_review_eligible == old.is_review_eligible
    &&& new.confidence == FindingConfidence {
        level: if old.confidence.level == ConfidenceLevel::High {
            ConfidenceLevel::Moderate
        } else {
            old.confidence.level
        },
        contradicting_unit_count: (n - 1) as usize,
        ..old.confidence
    }
}

/// `ks` lists the groups in conflict once each, in ascending order.
pub open spec fn conflict_order(ks: Seq<GroupKey>, fs: Seq<AdvancedLiteraryFinding>) -> bool {
    &&& forall|a: int, b: int| 0 <= a < b < ks.len() ==> key_lt(#[trigger] ks[a], #[trigger] ks[b])
    &&& forall|j: int| 0 <= j < ks.len() ==> in_conflict(fs, #[trigger] ks[j])
    &&& forall|i: int|
        0 <= i < fs.len() && in_conflict(fs, group_key(#[trigger] fs[i])) ==> ks.contains(
            group_key(fs[i]),
        )
}

proof fn lemma_key_lt_transitive(a: GroupKey, b: GroupKey, c: GroupKey)
    requires
        key_lt(a, b),
        key_lt(b, c),
    ensures
        key_lt(a, c),
{
    lemma_category_index_injective(a.0, b.0);
    lemma_category_index_injective(b.0, c.0);
    lemma_category_index_injective(a.0, c.0);
    if a.0 == b.0 && b.0 == c.0 {
        if seq_lt(a.1, b.1) && seq_lt(b.1, c.1) {
            lemma_seq_lt_transitive(a.1, b.1, c.1);
        } else if a.1 == b.1 && b.1 == c.1 {
            lemma_seq_lt_transitive(a.2, b.2, c.2);
        }
    }
}

proof fn lemma_key_lt_total(a: GroupKey, b: GroupKey)
    ensures
        a == b || key_lt(a, b) || key_lt(b, a),
{
    lemma_category_index_injective(a.0, b.0);
    lemma_seq_lt_total(a.1, b.1);
    lemma_seq_lt_total(a.2, b.2);
}

proof fn lemma_category_index_injective(a: FindingCategory, b: FindingCategory)
    ensures
        category_index(a) == category_index(b) <==> a == b,
{
}

fn category_index_exec(c: FindingCategory) -> (r: usize)
    ensures
        r == category_index(c),
{
    match c {
        FindingCategory::PointOfView => 0,
        FindingCategory::NarratorVoice => 1,
        FindingCategory::Tone => 2,
        FindingCategory::CharacterVoice => 3,
        FindingCategory::RelationshipDynamic => 4,
        FindingCategory::PowerDynamic => 5,
        FindingCategory::EmotionalShift => 6,
        FindingCategory::Subtext => 7,
        FindingCategory::Sarcasm => 8,
        FindingCategory::Humor => 9,
        FindingCategory::IntimacyRegister => 10,
        FindingCategory::DialogueFunction => 11,
        FindingCategory::SceneIntent => 12,
        FindingCategory::NarrativeTension => 13,
        FindingCategory::Motif => 14,
        FindingCategory::RecurringImagery => 15,
        FindingCategory::RegisterShift => 16,
        FindingCategory::ContinuityObservation => 17,
    }
}

/// An exec group key.
pub type ExecKey = (FindingCategory, String, String);

/// The view of an exec group key.
pub open spec fn key_view(k: ExecKey) -> GroupKey {
    (k.0, k.1@, k.2@)
}

fn key_eq(a: &ExecKey, b: &ExecKey) -> (r: bool)
    ensures
        r == (key_view(*a) == key_view(*b)),
{
    a.0 == b.0 && same_text(&a.1, &b.1) && same_text(&a.2, &b.2)
}

fn key_lt_exec(a: &ExecKey, b: &ExecKey) -> (r: bool)
    ensures
        r == key_lt(key_view(*a), key_view(*b)),
{
    let ca = category_index_exec(a.0);
    let cb = category_index_exec(b.0);
    if ca < cb {
        return true;
    }
    proof {
        lemma_category_index_injective(a.0, b.0);
    }
    if ca != cb {
        return false;
    }
    let sa = chars_of(a.1.as_str());
    let sb = chars_of(b.1.as_str());
    if lt_exec(&sa, &sb) {
        return true;
    }
    if !same_text(&a.1, &b.1) {
        return false;
    }
    lt_exec(&chars_of(a.2.as_str()), &chars_of(b.2.as_str()))
}

fn key_copy(k: &ExecKey) -> (r: ExecKey)
    ensures
        key_view(r) == key_view(*k),
{
    (k.0, k.1.clone(), k.2.clone())
}


/// The distinct claims among `cv` whose keys in `kv` equal `k`.
pub open spec fn key_readings(kv: Seq<GroupKey>, cv: Seq<Seq<char>>, k: GroupKey, n: int) -> Set<Seq<char>> {
    Set::new(|c: Seq<char>| exists|i: int| 0 <= i < n && kv[i] == k && cv[i] == c)
}

/// The keys and claims of findings, index by index.
pub open spec fn keyed(fs: Seq<AdvancedLiteraryFinding>, kv: Seq<GroupKey>, cv: Seq<Seq<char>>) -> bool {
    &&& kv.len() == fs.len()
    &&& cv.len() == fs.len()
    &&& forall|i: int| 0 <= i < fs.len() ==> #[trigger] kv[i] == group_key(fs[i])
    &&& forall|i: int| 0 <= i < fs.len() ==> #[trigger] cv[i] == identity_form(fs[i].claim@)
}

fn finding_keys(findings: &Vec<AdvancedLiteraryFinding>) -> (r: (Vec<ExecKey>, Vec<String>))
    ensures
        keyed(findings@, r.0@.map_values(|k: ExecKey| key_view(k)), views(r.1@)),
{
    let mut keys: Vec<ExecKey> = Vec::new();
    let mut claims: Vec<String> = Vec::new();
    let mut i: usize = 0;
    while i < findings.len()
        invariant
            i <= findings@.len(),
            keys@.len() == i,
            claims@.len() == i,
            forall|q: int| 0 <= q < i ==> key_view(#[trigger] keys@[q]) == group_key(findings@[q]),
            forall|q: int| 0 <= q < i ==> (#[trigger] claims@[q])@ == identity_form(findings@[q].claim@),
        decreases findings.len() - i,
    {
        let f = &findings[i];
        keys.push((f.category, normalize_for_identity(f.subject.as_str()), f.scope.key()));
        claims.push(normalize_for_identity(f.claim.as_str()));
        i += 1;
    }
    let ghost kv = keys@.map_values(|k: ExecKey| key_view(k));
    let ghost cv = views(claims@);
    assert forall|q: int| 0 <= q < findings@.len() implies #[trigger] kv[q] == group_key(findings@[q]) by {
        assert(kv[q] == key_view(keys@[q]));
    }
    assert forall|q: int| 0 <= q < findings@.len() implies #[trigger] cv[q] == identity_form(
        findings@[q].claim@,
    ) by {
        assert(cv[q] == claims@[q]@);
    }
    (keys, claims)
}

/// The distinct claims of the findings whose key is `k`, each once.
fn distinct_readings(keys: &Vec<ExecKey>, claims: &Vec<String>, k: &ExecKey) -> (r: Vec<String>)
    requires
        keys@.len() == claims@.len(),
    ensures
        views(r@).no_duplicates(),
        views(r@).to_set() == key_readings(
            keys@.map_values(|q: ExecKey| key_view(q)),
            views(claims@),
            key_view(*k),
            keys@.len() as int,
        ),
{
    let ghost kv = keys@.map_values(|q: ExecKey| key_view(q));
    let ghost cv = views(claims@);
    let mut out: Vec<String> = Vec::new();
    let mut i: usize = 0;
    while i < keys.len()
        invariant
            i <= keys@.len(),
            keys@.len() == claims@.len(),
            kv == keys@.map_values(|q: ExecKey| key_view(q)),
            cv == views(claims@),
            views(out@).no_duplicates(),
            views(out@).to_set() == key_readings(kv, cv, key_view(*k), i as int),
        decreases keys.len() - i,
    {
        assert(kv[i as int] == key_view(keys@[i as int]));
        assert(cv[i as int] == claims@[i as int]@);
        let ghost before = views(out@);
        if key_eq(&keys[i], k) {
            let mut seen = false;
            let mut j: usize = 0;
            while j < out.len()
                invariant
                    j <= out@.len(),
                    i < claims@.len(),
                    seen <==> exists|w: int| 0 <= w < j && out@[w]@ == claims@[i as int]@,
                decreases out.len() - j,
            {
                if same_text(&out[j], &claims[i]) {
                    seen = true;
                }
                j += 1;
            }
            if !seen {
                out.push(claims[i].clone());
                assert(views(out@) =~= before.push(cv[i as int]));
                assert(views(out@)[before.len() as int] == cv[i as int]);
                assert forall|a: int, b: int|
                    0 <= a < views(out@).len() && 0 <= b < views(out@).len() && a != b implies views(
                    out@,
                )[a] != views(out@)[b] by {
                    if a < before.len() && b < before.len() {
                    } else if a == before.len() {
                        assert(views(out@)[b] == before[b]);
                        assert(before[b] == out@[b]@);
                    } else {
                        assert(views(out@)[a] == before[a]);
                        assert(before[a] == out@[a]@);
                    }
                }
            } else {
                let ghost w = choose|w: int| 0 <= w < out@.len() && out@[w]@ == claims@[i as int]@;
                assert(before[w] == cv[i as int]);
                assert(views(out@)[w] == cv[i as int]);
            }
        }
        assert(kv[i as int] == key_view(*k) ==> views(out@).contains(cv[i as int]));
        assert(views(out@).to_set() =~= key_readings(kv, cv, key_view(*k), i + 1)) by {
            assert forall|c: Seq<char>| key_readings(kv, cv, key_view(*k), i + 1).contains(c) implies views(
                out@,
            ).to_set().contains(c) by {
                let w = choose|w: int| 0 <= w < i + 1 && kv[w] == key_view(*k) && cv[w] == c;
                if w < i {
                    assert(key_readings(kv, cv, key_view(*k), i as int).contains(c));
                    assert(before.contains(c));
                    let t = choose|t: int| 0 <= t < before.len() && before[t] == c;
                    assert(views(out@)[t] == c);
                } else {
                    assert(views(out@).contains(c));
                }
            }
            assert forall|c: Seq<char>| views(out@).to_set().contains(c) implies key_readings(
                kv,
                cv,
                key_view(*k),
                i + 1,
            ).contains(c) by {
                let t = choose|t: int| 0 <= t < views(out@).len() && views(out@)[t] == c;
                if t < before.len() {
                    assert(before.contains(c));
                    assert(before.to_set().contains(c));
                    let w = choose|w: int| 0 <= w < i && kv[w] == key_view(*k) && cv[w] == c;
                    assert(0 <= w < i + 1 && kv[w] == key_view(*k) && cv[w] == c);
                } else {
                    assert(0 <= i < i + 1 && kv[i as int] == key_view(*k) && cv[i as int] == c);
                }
            }
        }
        i += 1;
    }
    out
}


proof fn lemma_keyed_readings(
    fs: Seq<AdvancedLiteraryFinding>,
    kv: Seq<GroupKey>,
    cv: Seq<Seq<char>>,
    k: GroupKey,
)
    requires
        keyed(fs, kv, cv),
    ensures
        readings(fs, k) == key_readings(kv, cv, k, fs.len() as int),
{
    assert forall|c: Seq<char>| readings(fs, k).contains(c) implies key_readings(kv, cv, k, fs.len() as int).contains(c) by {
        let i = choose|i: int| 0 <= i < fs.len() && group_key(fs[i]) == k && identity_form(fs[i].claim@) == c;
        assert(kv[i] == group_key(fs[i]) && cv[i] == identity_form(fs[i].claim@));
    }
    assert forall|c: Seq<char>| key_readings(kv, cv, k, fs.len() as int).contains(c) implies readings(fs, k).contains(c) by {
        let i = choose|i: int| 0 <= i < fs.len() && kv[i] == k && cv[i] == c;
        assert(kv[i] == group_key(fs[i]) && cv[i] == identity_form(fs[i].claim@));
    }
    assert(readings(fs, k) =~= key_readings(kv, cv, k, fs.len() as int));
}

/// The number of distinct readings in the group of each finding.
fn reading_counts(findings: &Vec<AdvancedLiteraryFinding>, keys: &Vec<ExecKey>, claims: &Vec<String>) -> (r: Vec<usize>)
    requires
        keyed(findings@, keys@.map_values(|k: ExecKey| key_view(k)), views(claims@)),
    ensures
        r@.len() == findings@.len(),
        forall|i: int| 0 <= i < r@.len() ==> #[trigger] r@[i] == readings(findings@, group_key(findings@[i])).len(),
        forall|i: int| 0 <= i < r@.len() ==> readings(findings@, group_key(findings@[i])).finite(),
{
    let ghost kv = keys@.map_values(|k: ExecKey| key_view(k));
    let ghost cv = views(claims@);
    let mut counts: Vec<usize> = Vec::new();
    let mut i: usize = 0;
    while i < keys.len()
        invariant
            i <= keys@.len(),
            kv == keys@.map_values(|k: ExecKey| key_view(k)),
            cv == views(claims@),
            keyed(findings@, kv, cv),
            counts@.len() == i,
            forall|q: int| 0 <= q < i ==> #[trigger] counts@[q] == readings(findings@, group_key(findings@[q])).len(),
            forall|q: int| 0 <= q < i ==> readings(findings@, group_key(findings@[q])).finite(),
        decreases keys.len() - i,
    {
        let d = distinct_readings(keys, claims, &keys[i]);
        proof {
            assert(kv[i as int] == key_view(keys@[i as int]));
            lemma_keyed_readings(findings@, kv, cv, kv[i as int]);
            views(d@).unique_seq_to_set();
        }
        counts.push(d.len());
        i += 1;
    }
    counts
}

fn flag(f: &mut AdvancedLiteraryFinding, n: usize)
    requires
        n >= 1,
    ensures
        flagged(*old(f), *final(f), n as nat),
{
    f.confidence.contradicting_unit_count = n - 1;
    if f.confidence.level == ConfidenceLevel::High {
        f.confidence.level = ConfidenceLevel::Moderate;
    }
}

fn conflict_message_exec(k: &ExecKey, n: usize) -> (r: String)
    ensures
        r@ == conflict_message(key_view(*k), n as nat),
{
    let mut v = chars_of("conflicting model findings for ");
    extend_str(&mut v, k.0.label_str());
    extend_str(&mut v, " on '");
    extend_str(&mut v, k.1.as_str());
    extend_str(&mut v, "' at ");
    extend_str(&mut v, k.2.as_str());
    extend_str(&mut v, ": ");
    extend_all(&mut v, &dec_vec(n));
    extend_str(&mut v, " distinct readings retained with scope (human review required)");
    string_of(&v)
}

/// Surfaces disagreement instead of collapsing it: findings with the same
/// category, normalized subject and scope but two or more distinct normalized
/// claims are all kept, each marked as contradicted by the other readings
/// (a high confidence drops to moderate), and one warning per such group is
/// appended, in group order. No finding is removed, reordered or merged.
pub fn adjust_cross_unit_disagreement(findings: &mut Vec<AdvancedLiteraryFinding>, warnings: &mut Vec<String>)
    ensures
        final(findings)@.len() == old(findings)@.len(),
        forall|i: int|
            0 <= i < old(findings)@.len() ==> if in_conflict(old(findings)@, group_key(old(findings)@[i])) {
                flagged(
                    old(findings)@[i],
                    #[trigger] final(findings)@[i],
                    readings(old(findings)@, group_key(old(findings)@[i])).len(),
                )
            } else {
                final(findings)@[i] == old(findings)@[i]
            },
        final(warnings)@.len() >= old(warnings)@.len(),
        final(warnings)@.take(old(warnings)@.len() as int) == old(warnings)@,
        exists|ks: Seq<GroupKey>|
            conflict_order(ks, old(findings)@) && views(final(warnings)@.skip(old(warnings)@.len() as int))
                == ks.map_values(|k: GroupKey| conflict_message(k, readings(old(findings)@, k).len())),
{
    let ghost fs = findings@;
    let ghost w0 = warnings@;
    let (keys, claims) = finding_keys(findings);
    let counts = reading_counts(findings, &keys, &claims);
    let ghost kv = keys@.map_values(|k: ExecKey| key_view(k));
    // The groups in conflict, in ascending order, with their reading counts.
    let mut order: Vec<(ExecKey, usize)> = Vec::new();
    let mut i: usize = 0;
    while i < keys.len()
        invariant
            i <= keys@.len(),
            fs == findings@,
            kv == keys@.map_values(|k: ExecKey| key_view(k)),
            keyed(fs, kv, views(claims@)),
            counts@.len() == fs.len(),
            forall|q: int| 0 <= q < counts@.len() ==> #[trigger] counts@[q] == readings(fs, group_key(fs[q])).len(),
            forall|a: int, b: int| 0 <= a < b < order@.len() ==> key_lt(key_view(#[trigger] order@[a].0), key_view(#[trigger] order@[b].0)),
            forall|j: int| 0 <= j < order@.len() ==> in_conflict(fs, key_view((#[trigger] order@[j]).0)) && order@[j].1 == readings(fs, key_view(order@[j].0)).len(),
            forall|q: int| 0 <= q < i && in_conflict(fs, group_key(#[trigger] fs[q])) ==> exists|j: int| 0 <= j < order@.len() && key_view(order@[j].0) == group_key(fs[q]),
        decreases keys.len() - i,
    {
        assert(kv[i as int] == key_view(keys@[i as int]));
        assert(kv[i as int] == group_key(fs[i as int]));
        if counts[i] >= 2 {
            let ghost ov = order@;
            let mut pos: usize = 0;
            while pos < order.len() && key_lt_exec(&order[pos].0, &keys[i])
                invariant
                    pos <= order@.len(),
                    i < keys@.len(),
                    ov == order@,
                    forall|q: int| 0 <= q < pos ==> key_lt(key_view(#[trigger] ov[q].0), key_view(keys@[i as int])),
                decreases order.len() - pos,
            {
                pos += 1;
            }
            if pos < order.len() && key_eq(&order[pos].0, &keys[i]) {
                // Already listed.
            } else {
                proof {
                    if pos < ov.len() {
                        lemma_key_lt_total(key_view(ov[pos as int].0), key_view(keys@[i as int]));
                    }
                }
                let entry = (key_copy(&keys[i]), counts[i]);
                order.insert(pos, entry);
                let ghost nv = order@;
                assert(nv =~= ov.take(pos as int).push(entry) + ov.skip(pos as int));
                assert forall|a: int, b: int| 0 <= a < b < nv.len() implies key_lt(key_view(#[trigger] nv[a].0), key_view(#[trigger] nv[b].0)) by {
                    if b < pos {
                        assert(nv[a] == ov[a] && nv[b] == ov[b]);
                    } else if b == pos {
                        assert(nv[a] == ov[a]);
                    } else if a == pos {
                        assert(nv[b] == ov[b - 1]);
                        if b - 1 > pos {
                            lemma_key_lt_transitive(key_view(entry.0), key_view(ov[pos as int].0), key_view(ov[b - 1].0));
                        }
                    } else if a < pos {
                        assert(nv[a] == ov[a] && nv[b] == ov[b - 1]);
                    } else {
                        assert(nv[a] == ov[a - 1] && nv[b] == ov[b - 1]);
                    }
                }
                assert forall|j: int| 0 <= j < nv.len() implies in_conflict(fs, key_view((#[trigger] nv[j]).0)) && nv[j].1 == readings(fs, key_view(nv[j].0)).len() by {
                    if j < pos {
                        assert(nv[j] == ov[j]);
                    } else if j > pos {
                        assert(nv[j] == ov[j - 1]);
                    }
                }
                assert forall|q: int| 0 <= q < i && in_conflict(fs, group_key(#[trigger] fs[q])) implies exists|j: int| 0 <= j < nv.len() && key_view(nv[j].0) == group_key(fs[q]) by {
                    let j = choose|j: int| 0 <= j < ov.len() && key_view(ov[j].0) == group_key(fs[q]);
                    if j < pos {
                        assert(nv[j] == ov[j]);
                    } else {
                        assert(nv[j + 1] == ov[j]);
                    }
                }
                assert(key_view(nv[pos as int].0) == group_key(fs[i as int]));
            }
        }
        i += 1;
    }
    // Flag every finding of a group in conflict.
    let mut rest: Vec<AdvancedLiteraryFinding> = Vec::new();
    std::mem::swap(findings, &mut rest);
    let mut k: usize = 0;
    while k < counts.len()
        invariant
            k <= counts@.len(),
            counts@.len() == fs.len(),
            forall|q: int| 0 <= q < counts@.len() ==> #[trigger] counts@[q] == readings(fs, group_key(fs[q])).len(),
            rest@ == fs.skip(k as int),
            findings@.len() == k,
            forall|q: int|
                0 <= q < k ==> if in_conflict(fs, group_key(fs[q])) {
                    flagged(fs[q], #[trigger] findings@[q], readings(fs, group_key(fs[q])).len())
                } else {
                    findings@[q] == fs[q]
                },
        decreases counts.len() - k,
    {
        assert(rest@[0] == fs[k as int]);
        let mut f = rest.remove(0);
        assert(rest@ =~= fs.skip(k + 1));
        if counts[k] >= 2 {
            flag(&mut f, counts[k]);
        }
        findings.push(f);
        k += 1;
    }
    // One warning per group in conflict, in group order.
    let mut j: usize = 0;
    while j < order.len()
        invariant
            j <= order@.len(),
            warnings@.len() == w0.len() + j,
            warnings@.take(w0.len() as int) == w0,
            views(warnings@.skip(w0.len() as int)) == order@.take(j as int).map_values(
                |e: (ExecKey, usize)| conflict_message(key_view(e.0), readings(fs, key_view(e.0)).len()),
            ),
            forall|q: int| 0 <= q < order@.len() ==> (#[trigger] order@[q]).1 == readings(fs, key_view(order@[q].0)).len(),
        decreases order.len() - j,
    {
        let m = conflict_message_exec(&order[j].0, order[j].1);
        let ghost before = warnings@;
        warnings.push(m);
        assert(warnings@.take(w0.len() as int) =~= before.take(w0.len() as int));
        assert(warnings@.skip(w0.len() as int) =~= before.skip(w0.len() as int).push(m));
        assert(order@.take(j + 1) =~= order@.take(j as int).push(order@[j as int]));
        assert(views(warnings@.skip(w0.len() as int)) =~= views(before.skip(w0.len() as int)).push(m@));
        j += 1;
    }
    let ghost ks = order@.map_values(|e: (ExecKey, usize)| key_view(e.0));
    assert(order@.take(order@.len() as int) =~= order@);
    assert(views(warnings@.skip(w0.len() as int)) =~= ks.map_values(|k: GroupKey| conflict_message(k, readings(fs, k).len())));
    assert forall|a: int, b: int| 0 <= a < b < ks.len() implies key_lt(#[trigger] ks[a], #[trigger] ks[b]) by {
        assert(key_lt(key_view(order@[a].0), key_view(order@[b].0)));
    }
    assert forall|q: int| 0 <= q < fs.len() && in_conflict(fs, group_key(#[trigger] fs[q])) implies ks.contains(group_key(fs[q])) by {
        let t = choose|t: int| 0 <= t < order@.len() && key_view(order@[t].0) == group_key(fs[q]);
        assert(ks[t] == group_key(fs[q]));
    }
    assert(conflict_order(ks, fs));
}

} // verus!
