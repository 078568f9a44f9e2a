//! Why the order in which review ledgers are handed in does not matter.

use vstd::prelude::*;
use crate::blind_review::{
    agreed, comparable, decision_count, disagreements, dossier_error, dossier_holds, first_pending,
    judgments, key_error, ledger_error, ledger_fault, ledgers_fault, multi_reviewed, preference_count,
    reviewed_twice, same_case_ids, same_digest, system_preferences, unanimous, BlindComparisonKeyInput,
    BlindReviewCase, BlindReviewLedger, ProviderReviewDossier, ReviewDecision, LEDGER_SCHEMA_VERSION,
};
use crate::text::views;

verus! {

/// The ledgers with the neighbours at `k` and `k + 1` exchanged.
pub open spec fn swap_neighbours(ls: Seq<BlindReviewLedger>, k: int) -> Seq<BlindReviewLedger> {
    ls.update(k, ls[k + 1]).update(k + 1, ls[k])
}

/// What a single ledger must satisfy, on its own, to join a dossier for the key.
pub open spec fn ledger_fits(key: BlindComparisonKeyInput, l: BlindReviewLedger) -> bool {
    &&& ledger_error(l) is None
    &&& l.corpus_id@ == key.corpus_id@
    &&& !(key.schema_version == 2 && !(l.schema_version == LEDGER_SCHEMA_VERSION && same_digest(
        l.bundle_sha256,
        key.bundle_sha256,
    )))
    &&& same_case_ids(l.cases@, key.assignments@)
    &&& first_pending(l.cases@, 0) is None
}

/// Every ledger fits, all come from one blind bundle, and no evaluator
/// appears twice: a condition on the ledgers that names no order.
pub open spec fn ledgers_fit(key: BlindComparisonKeyInput, ls: Seq<BlindReviewLedger>) -> bool {
    &&& forall|i: int| 0 <= i < ls.len() ==> ledger_fits(key, #[trigger] ls[i])
    &&& forall|i: int, j: int|
        0 <= i < ls.len() && 0 <= j < ls.len() ==> #[trigger] ls[i].bundle_fingerprint@
            == #[trigger] ls[j].bundle_fingerprint@
    &&& forall|i: int, j: int|
        0 <= i < ls.len() && 0 <= j < ls.len() && i != j ==> #[trigger] ls[i].reviewer@
            != #[trigger] ls[j].reviewer@
}

proof fn lemma_ledgers_fault_none(key: BlindComparisonKeyInput, ls: Seq<BlindReviewLedger>, i: int)
    requires
        0 <= i <= ls.len(),
    ensures
        ledgers_fault(key, ls, i) is None <==> forall|j: int|
            i <= j < ls.len() ==> #[trigger] ledger_fault(key, ls, j) is None,
    decreases ls.len() - i,
{
    if i < ls.len() {
        lemma_ledgers_fault_none(key, ls, i + 1);
    }
}

/// A dossier can be built exactly when the key is valid, there is a ledger,
/// and the ledgers fit.
proof fn lemma_dossier_error_none(key: BlindComparisonKeyInput, ls: Seq<BlindReviewLedger>)
    ensures
        dossier_error(key, ls) is None <==> (key_error(key) is None && ls.len() > 0 && ledgers_fit(
            key,
            ls,
        )),
{
    if key_error(key) is None && ls.len() > 0 {
        lemma_ledgers_fault_none(key, ls, 0);
        if ledgers_fault(key, ls, 0) is None {
            assert(ledger_fault(key, ls, 0) is None);
            assert forall|i: int, j: int|
                0 <= i < ls.len() && 0 <= j < ls.len() implies #[trigger] ls[i].bundle_fingerprint@
                == #[trigger] ls[j].bundle_fingerprint@ by {
                assert(ledger_fault(key, ls, i) is None);
                assert(ledger_fault(key, ls, j) is None);
            }
            assert forall|i: int, j: int|
                0 <= i < ls.len() && 0 <= j < ls.len() && i != j implies #[trigger] ls[i].reviewer@
                != #[trigger] ls[j].reviewer@ by {
                if i < j {
                    assert(ledger_fault(key, ls, j) is None);
                } else {
                    assert(ledger_fault(key, ls, i) is None);
                }
            }
            assert forall|i: int| 0 <= i < ls.len() implies ledger_fits(key, #[trigger] ls[i]) by {
                assert(ledger_fault(key, ls, i) is None);
            }
        }
        if ledgers_fit(key, ls) {
            assert forall|j: int| 0 <= j < ls.len() implies #[trigger] ledger_fault(key, ls, j) is None by {
                assert(ledger_fits(key, ls[j]));
                assert(ls[j].bundle_fingerprint@ == ls[0].bundle_fingerprint@);
                assert(!exists|q: int| 0 <= q < j && #[trigger] ls[q].reviewer@ == ls[j].reviewer@);
            }
            assert(ledger_fits(key, ls[0]));
        }
    }
}

/// Exchanging two neighbouring ledgers keeps them fitting.
proof fn lemma_swap_fits(key: BlindComparisonKeyInput, ls: Seq<BlindReviewLedger>, k: int)
    requires
        0 <= k,
        k + 1 < ls.len(),
        ledgers_fit(key, ls),
    ensures
        ledgers_fit(key, swap_neighbours(ls, k)),
{
    let s = swap_neighbours(ls, k);
    let sigma = |i: int| if i == k {
        k + 1
    } else if i == k + 1 {
        k
    } else {
        i
    };
    assert forall|i: int| 0 <= i < s.len() implies s[i] == ls[sigma(i)] by {}
    assert forall|i: int| 0 <= i < s.len() implies ledger_fits(key, #[trigger] s[i]) by {
        assert(s[i] == ls[sigma(i)]);
    }
    assert forall|i: int, j: int|
        0 <= i < s.len() && 0 <= j < s.len() implies #[trigger] s[i].bundle_fingerprint@
        == #[trigger] s[j].bundle_fingerprint@ by {
        assert(s[i] == ls[sigma(i)]);
        assert(s[j] == ls[sigma(j)]);
    }
    assert forall|i: int, j: int|
        0 <= i < s.len() && 0 <= j < s.len() && i != j implies #[trigger] s[i].reviewer@
        != #[trigger] s[j].reviewer@ by {
        assert(s[i] == ls[sigma(i)]);
        assert(s[j] == ls[sigma(j)]);
    }
}

/// Every element equals the first.
pub open spec fn all_same<T>(s: Seq<T>) -> bool {
    forall|i: int| 0 <= i < s.len() ==> #[trigger] s[i] == s[0]
}

proof fn lemma_judgments_add(a: Seq<BlindReviewLedger>, b: Seq<BlindReviewLedger>)
    ensures
        judgments(a + b) == judgments(a) + judgments(b),
    decreases b.len(),
{
    if b.len() == 0 {
        assert(a + b =~= a);
        assert(judgments(b) =~= Seq::<(Seq<char>, ReviewDecision)>::empty());
        assert(judgments(a) + judgments(b) =~= judgments(a));
    } else {
        lemma_judgments_add(a, b.drop_last());
        assert((a + b).drop_last() =~= a + b.drop_last());
        assert((a + b).last() == b.last());
        let m = b.last().cases@.map_values(|c: BlindReviewCase| (c.case_id@, c.decision));
        assert(judgments(a + b) == judgments(a + b.drop_last()) + m);
        assert(judgments(b) == judgments(b.drop_last()) + m);
        assert(judgments(a) + judgments(b.drop_last()) + m =~= judgments(a) + (judgments(b.drop_last())
            + m));
    }
}

/// The judgments of the ledgers and of the ledgers with neighbours `k` and
/// `k + 1` exchanged are the same four blocks, the middle two exchanged.
proof fn lemma_swap_judgments(ls: Seq<BlindReviewLedger>, k: int)
    requires
        0 <= k,
        k + 1 < ls.len(),
    ensures
        ({
            let jp = judgments(ls.take(k));
            let jx = judgments(seq![ls[k]]);
            let jy = judgments(seq![ls[k + 1]]);
            let js = judgments(ls.skip(k + 2));
            &&& judgments(ls) == jp + jx + jy + js
            &&& judgments(swap_neighbours(ls, k)) == jp + jy + jx + js
        }),
{
    let p = ls.take(k);
    let x = seq![ls[k]];
    let y = seq![ls[k + 1]];
    let q = ls.skip(k + 2);
    assert(ls =~= p + x + y + q);
    assert(swap_neighbours(ls, k) =~= p + y + x + q);
    lemma_judgments_add(p + x + y, q);
    lemma_judgments_add(p + x, y);
    lemma_judgments_add(p, x);
    lemma_judgments_add(p + y + x, q);
    lemma_judgments_add(p + y, x);
    lemma_judgments_add(p, y);
}

proof fn lemma_filter_len_swap<T>(a: Seq<T>, x: Seq<T>, y: Seq<T>, b: Seq<T>, p: spec_fn(T) -> bool)
    ensures
        (a + x + y + b).filter(p).len() == (a + y + x + b).filter(p).len(),
{
    Seq::filter_distributes_over_add(a + x + y, b, p);
    Seq::filter_distributes_over_add(a + x, y, p);
    Seq::filter_distributes_over_add(a, x, p);
    Seq::filter_distributes_over_add(a + y + x, b, p);
    Seq::filter_distributes_over_add(a + y, x, p);
    Seq::filter_distributes_over_add(a, y, p);
}

proof fn lemma_all_same_swap<T>(a: Seq<T>, x: Seq<T>, y: Seq<T>, b: Seq<T>)
    requires
        all_same(a + x + y + b),
    ensures
        all_same(a + y + x + b),
{
    let u = a + x + y + b;
    let v = a + y + x + b;
    let na = a.len() as int;
    let nx = x.len() as int;
    let ny = y.len() as int;
    let sigma = |i: int| if i < na {
        i
    } else if i < na + ny {
        i + nx
    } else if i < na + ny + nx {
        i - ny
    } else {
        i
    };
    assert forall|i: int| 0 <= i < v.len() implies v[i] == u[sigma(i)] by {
        if i < na {
        } else if i < na + ny {
            assert(v[i] == y[i - na]);
            assert(u[i + nx] == y[i - na]);
        } else if i < na + ny + nx {
            assert(v[i] == x[i - na - ny]);
            assert(u[i - ny] == x[i - na - ny]);
        } else {
            assert(v[i] == b[i - na - ny - nx]);
            assert(u[i] == b[i - na - ny - nx]);
        }
    }
    assert forall|i: int| 0 <= i < v.len() implies #[trigger] v[i] == v[0] by {
        assert(v[i] == u[sigma(i)]);
        assert(v[0] == u[sigma(0)]);
        assert(u[sigma(i)] == u[0]);
        assert(u[sigma(0)] == u[0]);
    }
}

proof fn lemma_comparable_add(s: Seq<(Seq<char>, ReviewDecision)>, t: Seq<(Seq<char>, ReviewDecision)>, c: Seq<char>)
    ensures
        comparable(s + t, c) == comparable(s, c) + comparable(t, c),
{
    broadcast use Seq::filter_distributes_over_add;

    assert(comparable(s + t, c) =~= comparable(s, c) + comparable(t, c));
}

proof fn lemma_outcomes_congruent(
    asg: Seq<crate::blind_review::BlindAssignmentInput>,
    js: Seq<(Seq<char>, ReviewDecision)>,
    jt: Seq<(Seq<char>, ReviewDecision)>,
)
    requires
        forall|c: Seq<char>| #[trigger] reviewed_twice(js, c) == reviewed_twice(jt, c),
        forall|c: Seq<char>| #[trigger] agreed(js, c) == agreed(jt, c),
    ensures
        multi_reviewed(asg, js) == multi_reviewed(asg, jt),
        unanimous(asg, js) == unanimous(asg, jt),
        disagreements(asg, js) == disagreements(asg, jt),
    decreases asg.len(),
{
    reveal_with_fuel(Seq::filter, 1);
    if asg.len() > 0 {
        lemma_outcomes_congruent(asg.drop_last(), js, jt);
        let c = asg.last().case_id@;
        assert(reviewed_twice(js, c) == reviewed_twice(jt, c));
        assert(agreed(js, c) == agreed(jt, c));
    }
}

/// Per case, the judgments in either block order are reviewed as often and
/// agree alike.
proof fn lemma_case_views_swap(
    a: Seq<(Seq<char>, ReviewDecision)>,
    x: Seq<(Seq<char>, ReviewDecision)>,
    y: Seq<(Seq<char>, ReviewDecision)>,
    b: Seq<(Seq<char>, ReviewDecision)>,
)
    ensures
        forall|c: Seq<char>| #[trigger] reviewed_twice(a + x + y + b, c) == reviewed_twice(a + y + x + b, c),
        forall|c: Seq<char>| #[trigger] agreed(a + x + y + b, c) == agreed(a + y + x + b, c),
{
    let u = a + x + y + b;
    let v = a + y + x + b;
    assert forall|c: Seq<char>|
        #[trigger] reviewed_twice(u, c) == reviewed_twice(v, c) && agreed(u, c) == agreed(v, c) by {
        lemma_comparable_add(a + x + y, b, c);
        lemma_comparable_add(a + x, y, c);
        lemma_comparable_add(a, x, c);
        lemma_comparable_add(a + y + x, b, c);
        lemma_comparable_add(a + y, x, c);
        lemma_comparable_add(a, y, c);
        let ca = comparable(a, c);
        let cx = comparable(x, c);
        let cy = comparable(y, c);
        let cb = comparable(b, c);
        assert(comparable(u, c) == ca + cx + cy + cb);
        assert(comparable(v, c) == ca + cy + cx + cb);
        assert(agreed(u, c) == all_same(comparable(u, c)));
        assert(agreed(v, c) == all_same(comparable(v, c)));
        if all_same(ca + cx + cy + cb) {
            lemma_all_same_swap(ca, cx, cy, cb);
        }
        if all_same(ca + cy + cx + cb) {
            lemma_all_same_swap(ca, cy, cx, cb);
        }
    }
    assert forall|c: Seq<char>| #[trigger] agreed(u, c) == agreed(v, c) by {
        assert(reviewed_twice(u, c) == reviewed_twice(v, c) && agreed(u, c) == agreed(v, c));
    }
}

/// Law: the order in which the ledgers are handed in does not matter.
/// Exchanging any two neighbouring ledgers (and so, step by step, any
/// reordering) neither turns a buildable dossier into a refused one nor the
/// reverse, and a dossier fits the reordered ledgers exactly when it fits the
/// original ones.
pub proof fn lemma_dossier_ledger_order_free(
    key: BlindComparisonKeyInput,
    ls: Seq<BlindReviewLedger>,
    k: int,
    d: ProviderReviewDossier,
)
    requires
        0 <= k,
        k + 1 < ls.len(),
    ensures
        dossier_error(key, swap_neighbours(ls, k)) is None <==> dossier_error(key, ls) is None,
        dossier_error(key, ls) is None ==> (dossier_holds(d, key, swap_neighbours(ls, k))
            <==> dossier_holds(d, key, ls)),
{
    broadcast use Seq::filter_distributes_over_add;

    let s = swap_neighbours(ls, k);
    assert(swap_neighbours(s, k) =~= ls);
    lemma_dossier_error_none(key, ls);
    lemma_dossier_error_none(key, s);
    if ledgers_fit(key, ls) {
        lemma_swap_fits(key, ls, k);
    }
    if ledgers_fit(key, s) {
        lemma_swap_fits(key, s, k);
    }
    if dossier_error(key, ls) is None {
        let sigma = |i: int| if i == k {
            k + 1
        } else if i == k + 1 {
            k
        } else {
            i
        };
        assert forall|i: int| 0 <= i < s.len() implies s[i] == ls[sigma(i)] by {}
        assert(s[0].bundle_fingerprint@ == ls[0].bundle_fingerprint@) by {
            assert(s[0] == ls[sigma(0)]);
        }
        assert forall|r: Seq<char>|
            #![trigger views(d.reviewers@).contains(r)]
            (exists|i: int| 0 <= i < ls.len() && #[trigger] ls[i].reviewer@ == r) <==> (exists|i: int|
                0 <= i < s.len() && #[trigger] s[i].reviewer@ == r) by {
            if exists|i: int| 0 <= i < ls.len() && #[trigger] ls[i].reviewer@ == r {
                let i = choose|i: int| 0 <= i < ls.len() && #[trigger] ls[i].reviewer@ == r;
                assert(s[sigma(i)] == ls[i]);
            }
            if exists|i: int| 0 <= i < s.len() && #[trigger] s[i].reviewer@ == r {
                let i = choose|i: int| 0 <= i < s.len() && #[trigger] s[i].reviewer@ == r;
                assert(s[i] == ls[sigma(i)]);
            }
        }
        lemma_swap_judgments(ls, k);
        let jp = judgments(ls.take(k));
        let jx = judgments(seq![ls[k]]);
        let jy = judgments(seq![ls[k + 1]]);
        let jq = judgments(ls.skip(k + 2));
        let u = jp + jx + jy + jq;
        let v = jp + jy + jx + jq;
        assert(judgments(ls) == u);
        assert(judgments(s) == v);
        lemma_case_views_swap(jp, jx, jy, jq);
        let asg = key.assignments@;
        lemma_outcomes_congruent(asg, u, v);
        assert(preference_count(u) == preference_count(v));
        assert(decision_count(u, ReviewDecision::Tie) == decision_count(v, ReviewDecision::Tie));
        assert(decision_count(u, ReviewDecision::Defer) == decision_count(v, ReviewDecision::Defer));
        assert forall|n: Seq<char>| #[trigger] system_preferences(asg, u, n) == system_preferences(asg, v, n) by {}
    }
}

/// The ledgers after exchanging neighbours at each position of `steps` in
/// turn (a position without a right neighbour changes nothing).
pub open spec fn reorder(ls: Seq<BlindReviewLedger>, steps: Seq<int>) -> Seq<BlindReviewLedger>
    decreases steps.len(),
{
    if steps.len() == 0 {
        ls
    } else {
        let before = reorder(ls, steps.drop_last());
        let k = steps.last();
        if 0 <= k && k + 1 < before.len() {
            swap_neighbours(before, k)
        } else {
            before
        }
    }
}

/// Law: any reordering made of neighbour exchanges leaves both whether a
/// dossier can be built and which dossier fits the ledgers unchanged.
pub proof fn lemma_dossier_reorder_free(
    key: BlindComparisonKeyInput,
    ls: Seq<BlindReviewLedger>,
    steps: Seq<int>,
    d: ProviderReviewDossier,
)
    ensures
        reorder(ls, steps).len() == ls.len(),
        dossier_error(key, reorder(ls, steps)) is None <==> dossier_error(key, ls) is None,
        dossier_error(key, ls) is None ==> (dossier_holds(d, key, reorder(ls, steps))
            <==> dossier_holds(d, key, ls)),
    decreases steps.len(),
{
    if steps.len() > 0 {
        lemma_dossier_reorder_free(key, ls, steps.drop_last(), d);
        let before = reorder(ls, steps.drop_last());
        let k = steps.last();
        if 0 <= k && k + 1 < before.len() {
            lemma_dossier_ledger_order_free(key, before, k, d);
        }
    }
}

/// Every step exchanges two neighbours that exist.
pub open spec fn steps_within(steps: Seq<int>, n: int) -> bool {
    forall|i: int| 0 <= i < steps.len() ==> 0 <= #[trigger] steps[i] && steps[i] + 1 < n
}

proof fn lemma_reorder_len(ls: Seq<BlindReviewLedger>, steps: Seq<int>)
    ensures
        reorder(ls, steps).len() == ls.len(),
    decreases steps.len(),
{
    if steps.len() > 0 {
        lemma_reorder_len(ls, steps.drop_last());
    }
}

proof fn lemma_reorder_push(a: Seq<BlindReviewLedger>, x: BlindReviewLedger, steps: Seq<int>)
    requires
        steps_within(steps, a.len() as int),
    ensures
        reorder(a.push(x), steps) == reorder(a, steps).push(x),
    decreases steps.len(),
{
    if steps.len() > 0 {
        let front = steps.drop_last();
        assert(steps_within(front, a.len() as int)) by {
            assert forall|i: int| 0 <= i < front.len() implies 0 <= #[trigger] front[i] && front[i] + 1
                < a.len() by {
                assert(front[i] == steps[i]);
            }
        }
        lemma_reorder_push(a, x, front);
        lemma_reorder_len(a, front);
        let before = reorder(a, front);
        let k = steps.last();
        assert(steps[steps.len() - 1] == k);
        assert(swap_neighbours(before.push(x), k) =~= swap_neighbours(before, k).push(x));
    }
}

proof fn lemma_reorder_append(ls: Seq<BlindReviewLedger>, s1: Seq<int>, s2: Seq<int>)
    ensures
        reorder(ls, s1 + s2) == reorder(reorder(ls, s1), s2),
    decreases s2.len(),
{
    if s2.len() == 0 {
        assert(s1 + s2 =~= s1);
    } else {
        lemma_reorder_append(ls, s1, s2.drop_last());
        assert((s1 + s2).drop_last() =~= s1 + s2.drop_last());
        assert((s1 + s2).last() == s2.last());
    }
}

/// The ledgers with the one at `j` carried `m` places to the right.
pub open spec fn carried(ls: Seq<BlindReviewLedger>, j: int, m: int) -> Seq<BlindReviewLedger> {
    ls.take(j) + ls.subrange(j + 1, j + m + 1) + seq![ls[j]] + ls.skip(j + m + 1)
}

proof fn lemma_carry(ls: Seq<BlindReviewLedger>, j: int, m: nat)
    requires
        0 <= j,
        j + m < ls.len(),
    ensures
        reorder(ls, Seq::new(m, |i: int| j + i)) == carried(ls, j, m as int),
        steps_within(Seq::new(m, |i: int| j + i), ls.len() as int),
    decreases m,
{
    let steps = Seq::new(m, |i: int| j + i);
    if m == 0 {
        assert(carried(ls, j, 0) =~= ls);
    } else {
        let front = Seq::new((m - 1) as nat, |i: int| j + i);
        assert(steps.drop_last() =~= front);
        lemma_carry(ls, j, (m - 1) as nat);
        lemma_reorder_len(ls, front);
        assert(steps.last() == j + m - 1);
        assert(swap_neighbours(carried(ls, j, m - 1), j + m - 1) =~= carried(ls, j, m as int));
    }
}

/// Neighbour exchanges that turn `ls` into `perm`, which holds the same
/// ledgers.
proof fn exchanges_to(ls: Seq<BlindReviewLedger>, perm: Seq<BlindReviewLedger>) -> (steps: Seq<int>)
    requires
        ls.to_multiset() == perm.to_multiset(),
    ensures
        steps_within(steps, ls.len() as int),
        reorder(ls, steps) == perm,
    decreases ls.len(),
{
    broadcast use vstd::seq_lib::group_to_multiset_ensures;

    vstd::seq_lib::to_multiset_len(ls);
    vstd::seq_lib::to_multiset_len(perm);
    if ls.len() == 0 {
        assert(perm.len() == 0);
        assert(perm =~= ls);
        Seq::empty()
    } else {
        assert(perm.len() == ls.len());
        let x = perm.last();
        assert(perm.to_multiset().count(x) > 0) by {
            assert(perm.contains(x)) by {
                assert(perm[perm.len() - 1] == x);
            }
        }
        assert(ls.contains(x));
        let j = choose|j: int| 0 <= j < ls.len() && ls[j] == x;
        let m = (ls.len() - 1 - j) as nat;
        let carry = Seq::new(m, |i: int| j + i);
        lemma_carry(ls, j, m);
        let rest = ls.remove(j);
        assert(carried(ls, j, m as int) =~= rest.push(x));
        let pfront = perm.drop_last();
        assert(perm =~= pfront.push(x));
        assert(rest.to_multiset() == ls.to_multiset().remove(x));
        assert(pfront.push(x).to_multiset() =~= pfront.to_multiset().insert(x));
        assert(pfront.to_multiset() =~= perm.to_multiset().remove(x));
        let tail = exchanges_to(rest, pfront);
        lemma_reorder_push(rest, x, tail);
        lemma_reorder_append(ls, carry, tail);
        assert(steps_within(carry + tail, ls.len() as int)) by {
            assert forall|i: int| 0 <= i < (carry + tail).len() implies 0 <= #[trigger] (carry + tail)[i]
                && (carry + tail)[i] + 1 < ls.len() by {
                if i < carry.len() {
                    assert((carry + tail)[i] == carry[i]);
                } else {
                    assert((carry + tail)[i] == tail[i - carry.len()]);
                }
            }
        }
        carry + tail
    }
}

/// Law: a dossier does not depend on the order of the ledgers. For any
/// reordering of the same ledgers, a dossier can be built exactly when it can
/// be built from the original order, and then a dossier fits the reordered
/// ledgers exactly when it fits the original ones.
pub proof fn lemma_dossier_permutation_free(
    key: BlindComparisonKeyInput,
    ls: Seq<BlindReviewLedger>,
    perm: Seq<BlindReviewLedger>,
    d: ProviderReviewDossier,
)
    requires
        perm.to_multiset() == ls.to_multiset(),
    ensures
        dossier_error(key, perm) is None <==> dossier_error(key, ls) is None,
        dossier_error(key, ls) is None ==> (dossier_holds(d, key, perm) <==> dossier_holds(d, key, ls)),
{
    let steps = exchanges_to(ls, perm);
    lemma_dossier_reorder_free(key, ls, steps, d);
}

} // verus!
