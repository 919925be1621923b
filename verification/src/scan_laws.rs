//! What the answer of a pair scan means, and why a scan may stop early.
use vstd::prelude::*;
use crate::float_order::{nan_bits, ordinal};
use crate::float_value::{is_ieee_nan, real_lt, lemma_nan_bits_are_ieee_nans, lemma_ordinal_follows_value};
use vstd::arithmetic::div_mod::{lemma_fundamental_div_mod, lemma_mod_pos_bound};
use crate::pair_scan::{
    lemma_select_in_range,
    ScanRule,
    select,
    scan_result,
    settled,
    has_hit,
    has_miss,
    no_nan_hit,
};

verus! {

proof fn lemma_drop_last_index(s: Seq<Option<u64>>)
    requires
        s.len() > 0,
    ensures
        forall|i: int| 0 <= i < s.len() - 1 ==> #[trigger] s.drop_last()[i] == s[i],
        !has_hit(s.drop_last()) ==> forall|i: int| 0 <= i < s.len() - 1 ==> #[trigger] s[i] is None,
{
    let t = s.drop_last();
    if !has_hit(t) {
        assert forall|i: int| 0 <= i < s.len() - 1 implies #[trigger] s[i] is None by {
            assert(t[i] == s[i]);
        }
    }
}

/// A scan has a result exactly when some pair produced an outcome (the nearest-distance
/// rule further needs every pair to have one), and the result designates a pair that
/// produced one.
pub proof fn lemma_result_exists(rule: ScanRule, s: Seq<Option<u64>>)
    ensures
        scan_result(rule, s) matches Some(k) ==> 0 <= k < s.len() && s[k] is Some,
        rule != ScanRule::Nearest ==> (scan_result(rule, s) is Some <==> has_hit(s)),
        rule == ScanRule::Nearest ==> (scan_result(rule, s) is Some <==> (has_hit(s)
            && !has_miss(s))),
{
    lemma_select_in_range(rule, s);
}

/// In collision-only mode the result is the first pair, in pair order, that produced
/// an outcome.
pub proof fn lemma_first_hit_is_first(s: Seq<Option<u64>>)
    ensures
        scan_result(ScanRule::FirstHit, s) matches Some(k) ==> forall|j: int|
            0 <= j < k ==> #[trigger] s[j] is None,
    decreases s.len(),
{
    if s.len() > 0 {
        let t = s.drop_last();
        lemma_first_hit_is_first(t);
        lemma_select_in_range(ScanRule::FirstHit, t);
        lemma_drop_last_index(s);
        if let Some(k) = select(ScanRule::FirstHit, s) {
            assert forall|j: int| 0 <= j < k implies #[trigger] s[j] is None by {
                assert(t[j] == s[j]);
            }
        }
    }
}

/// With the full-resolution intersection rule, the result is a contact of greatest
/// penetration depth, and no later pair has one as deep: of several deepest contacts,
/// the last one is returned.
pub proof fn lemma_deepest_is_deepest(s: Seq<Option<u64>>)
    requires
        no_nan_hit(s),
    ensures
        scan_result(ScanRule::Deepest, s) matches Some(k) ==> forall|j: int|
            0 <= j < s.len() && #[trigger] s[j] is Some ==> {
                &&& ordinal(s[j]->Some_0) <= ordinal(s[k]->Some_0)
                &&& j > k ==> ordinal(s[j]->Some_0) < ordinal(s[k]->Some_0)
            },
    decreases s.len(),
{
    if s.len() > 0 {
        let t = s.drop_last();
        lemma_drop_last_index(s);
        assert forall|i: int| 0 <= i < t.len() && t[i] is Some implies !nan_bits(
            #[trigger] t[i]->Some_0,
        ) by {
            assert(s[i] == t[i]);
        }
        lemma_deepest_is_deepest(t);
        lemma_select_in_range(ScanRule::Deepest, t);
        let n = s.len() - 1;
        if let Some(k) = select(ScanRule::Deepest, s) {
            assert forall|j: int| 0 <= j < s.len() && #[trigger] s[j] is Some implies {
                &&& ordinal(s[j]->Some_0) <= ordinal(s[k]->Some_0)
                &&& j > k ==> ordinal(s[j]->Some_0) < ordinal(s[k]->Some_0)
            } by {
                if j < n {
                    assert(t[j] == s[j]);
                }
                if let Some(p) = select(ScanRule::Deepest, t) {
                    assert(t[p] == s[p]);
                }
            }
        }
    }
}

/// With the full-resolution time-of-impact rule, the result is a smallest time of
/// impact, and no earlier pair has one as small: of several earliest times, the first
/// one is returned.
pub proof fn lemma_earliest_is_earliest(s: Seq<Option<u64>>)
    requires
        no_nan_hit(s),
    ensures
        scan_result(ScanRule::Earliest, s) matches Some(k) ==> forall|j: int|
            0 <= j < s.len() && #[trigger] s[j] is Some ==> {
                &&& ordinal(s[k]->Some_0) <= ordinal(s[j]->Some_0)
                &&& j < k ==> ordinal(s[k]->Some_0) < ordinal(s[j]->Some_0)
            },
    decreases s.len(),
{
    if s.len() > 0 {
        let t = s.drop_last();
        lemma_drop_last_index(s);
        assert forall|i: int| 0 <= i < t.len() && t[i] is Some implies !nan_bits(
            #[trigger] t[i]->Some_0,
        ) by {
            assert(s[i] == t[i]);
        }
        lemma_earliest_is_earliest(t);
        lemma_select_in_range(ScanRule::Earliest, t);
        let n = s.len() - 1;
        if let Some(k) = select(ScanRule::Earliest, s) {
            assert forall|j: int| 0 <= j < s.len() && #[trigger] s[j] is Some implies {
                &&& ordinal(s[k]->Some_0) <= ordinal(s[j]->Some_0)
                &&& j < k ==> ordinal(s[k]->Some_0) < ordinal(s[j]->Some_0)
            } by {
                if j < n {
                    assert(t[j] == s[j]);
                }
                if let Some(p) = select(ScanRule::Earliest, t) {
                    assert(t[p] == s[p]);
                    assert(!nan_bits(s[p]->Some_0));
                }
                assert(!nan_bits(s[n]->Some_0) || s[n] is None);
            }
        }
    }
}

proof fn lemma_nearest_select(s: Seq<Option<u64>>)
    ensures
        select(ScanRule::Nearest, s) matches Some(k) ==> {
            &&& !nan_bits(s[k]->Some_0) ==> forall|j: int|
                0 <= j < s.len() && #[trigger] s[j] is Some && !nan_bits(s[j]->Some_0)
                    ==> ordinal(s[k]->Some_0) <= ordinal(s[j]->Some_0)
            &&& nan_bits(s[k]->Some_0) ==> forall|j: int|
                0 <= j < s.len() && #[trigger] s[j] is Some ==> nan_bits(s[j]->Some_0)
        },
    decreases s.len(),
{
    if s.len() > 0 {
        let t = s.drop_last();
        lemma_drop_last_index(s);
        lemma_nearest_select(t);
        lemma_select_in_range(ScanRule::Nearest, t);
        let n = s.len() - 1;
        if let Some(k) = select(ScanRule::Nearest, s) {
            if let Some(p) = select(ScanRule::Nearest, t) {
                assert(t[p] == s[p]);
            }
            if !nan_bits(s[k]->Some_0) {
                assert forall|j: int|
                    0 <= j < s.len() && #[trigger] s[j] is Some && !nan_bits(s[j]->Some_0)
                        implies ordinal(s[k]->Some_0) <= ordinal(s[j]->Some_0) by {
                    if j < n {
                        assert(t[j] == s[j]);
                    }
                }
            } else {
                assert forall|j: int| 0 <= j < s.len() && #[trigger] s[j] is Some implies nan_bits(
                    s[j]->Some_0,
                ) by {
                    if j < n {
                        assert(t[j] == s[j]);
                    }
                }
            }
        }
    }
}

/// The distance of two complex shapes is the smallest of the distances of their pairs:
/// NaN distances are passed over, unless every distance is NaN.
pub proof fn lemma_nearest_is_nearest(s: Seq<Option<u64>>)
    ensures
        scan_result(ScanRule::Nearest, s) matches Some(k) ==> {
            &&& !has_miss(s)
            &&& !nan_bits(s[k]->Some_0) ==> forall|j: int|
                0 <= j < s.len() && !nan_bits(#[trigger] s[j]->Some_0) ==> ordinal(
                    s[k]->Some_0,
                ) <= ordinal(s[j]->Some_0)
            &&& nan_bits(s[k]->Some_0) ==> forall|j: int|
                0 <= j < s.len() ==> nan_bits(#[trigger] s[j]->Some_0)
        },
{
    lemma_nearest_select(s);
    if scan_result(ScanRule::Nearest, s) is Some {
        assert forall|j: int| 0 <= j < s.len() implies #[trigger] s[j] is Some by {
            if s[j] is None {
                assert(has_miss(s));
            }
        }
    }
}

proof fn lemma_first_hit_extends(s: Seq<Option<u64>>, rest: Seq<Option<u64>>)
    requires
        select(ScanRule::FirstHit, s) is Some,
    ensures
        select(ScanRule::FirstHit, s + rest) == select(ScanRule::FirstHit, s),
    decreases rest.len(),
{
    if rest.len() > 0 {
        let shorter = rest.drop_last();
        lemma_first_hit_extends(s, shorter);
        assert((s + rest).drop_last() =~= s + shorter);
    } else {
        assert(s + rest =~= s);
    }
}

/// A scan that stops as soon as its answer is settled (collision-only mode at the first
/// contact, distances at the first colliding pair) answers as a scan of every pair would.
pub proof fn lemma_scan_settles(rule: ScanRule, s: Seq<Option<u64>>, rest: Seq<Option<u64>>)
    requires
        settled(rule, s),
    ensures
        scan_result(rule, s + rest) == scan_result(rule, s),
{
    lemma_select_in_range(rule, s);
    if rule == ScanRule::FirstHit {
        lemma_first_hit_extends(s, rest);
    } else {
        let i = choose|i: int| 0 <= i < s.len() && s[i] is None;
        assert((s + rest)[i] is None);
    }
}

/// The outcome `v` occurs in `s`.
pub open spec fn occurs_in(s: Seq<Option<u64>>, v: Option<u64>) -> bool {
    exists|m: int| 0 <= m < s.len() && s[m] == v
}

/// Every outcome of `t` occurs in `s`.
pub open spec fn covers(s: Seq<Option<u64>>, t: Seq<Option<u64>>) -> bool {
    forall|k: int| 0 <= k < t.len() ==> occurs_in(s, #[trigger] t[k])
}

/// Some index in `0..n` is mapped to `j` by `p`.
pub open spec fn hit_by(p: spec_fn(int) -> int, n: int, j: int) -> bool {
    exists|i: int| 0 <= i < n && #[trigger] p(i) == j
}

/// `p` maps `0..n` onto itself.
pub open spec fn is_permutation(p: spec_fn(int) -> int, n: int) -> bool {
    &&& forall|i: int| 0 <= i < n ==> 0 <= #[trigger] p(i) < n
    &&& forall|j: int| 0 <= j < n ==> #[trigger] hit_by(p, n, j)
}

/// `t` holds the pair outcomes of two shapes whose primitives are those of the shapes
/// of `s`, the left ones reordered by `pl` and the right ones by `pr`: the pair at
/// `(i, j)` in `t` is the pair at `(pl(i), pr(j))` in `s`.
pub open spec fn reordered_pairs(
    s: Seq<Option<u64>>,
    t: Seq<Option<u64>>,
    n_left: nat,
    n_right: nat,
    pl: spec_fn(int) -> int,
    pr: spec_fn(int) -> int,
) -> bool {
    &&& s.len() == n_left * n_right
    &&& t.len() == n_left * n_right
    &&& is_permutation(pl, n_left as int)
    &&& is_permutation(pr, n_right as int)
    &&& forall|i: int, j: int|
        0 <= i < n_left && 0 <= j < n_right ==> #[trigger] t[i * n_right + j] == s[pl(i)
            * n_right + pr(j)]
}

proof fn lemma_pair_index(i: int, j: int, n_left: int, n_right: int)
    requires
        0 <= i < n_left,
        0 <= j < n_right,
    ensures
        0 <= i * n_right + j < n_left * n_right,
{
    assert(0 <= i * n_right + j < n_left * n_right) by (nonlinear_arith)
        requires
            0 <= i < n_left,
            0 <= j < n_right,
    ;
}

proof fn lemma_split_index(k: int, n_left: int, n_right: int)
    requires
        0 <= k < n_left * n_right,
        0 < n_right,
    ensures
        k == (k / n_right) * n_right + k % n_right,
        0 <= k / n_right < n_left,
        0 <= k % n_right < n_right,
{
    lemma_fundamental_div_mod(k, n_right);
    lemma_mod_pos_bound(k, n_right);
    let q = k / n_right;
    let r = k % n_right;
    assert(k == q * n_right + r) by (nonlinear_arith)
        requires
            k == n_right * q + r,
    ;
    assert(0 <= q < n_left) by (nonlinear_arith)
        requires
            k == q * n_right + r,
            0 <= r < n_right,
            0 <= k < n_left * n_right,
            0 < n_right,
    ;
}

proof fn lemma_positive_factor(n_left: int, n_right: int, k: int)
    requires
        0 <= n_left,
        0 <= n_right,
        0 <= k < n_left * n_right,
    ensures
        0 < n_right,
{
    if n_right == 0 {
        assert(n_left * n_right == 0) by (nonlinear_arith)
            requires
                n_right == 0,
        ;
    }
}

proof fn lemma_reordered_entry_in_s(
    s: Seq<Option<u64>>,
    t: Seq<Option<u64>>,
    n_left: nat,
    n_right: nat,
    pl: spec_fn(int) -> int,
    pr: spec_fn(int) -> int,
    k: int,
)
    requires
        reordered_pairs(s, t, n_left, n_right, pl, pr),
        0 <= k < t.len(),
    ensures
        occurs_in(s, t[k]),
{
    let nl = n_left as int;
    let nr = n_right as int;
    lemma_positive_factor(nl, nr, k);
    lemma_split_index(k, nl, nr);
    let i = k / nr;
    let j = k % nr;
    assert(t[i * nr + j] == s[pl(i) * nr + pr(j)]);
    assert(0 <= pl(i) < nl);
    assert(0 <= pr(j) < nr);
    lemma_pair_index(pl(i), pr(j), nl, nr);
    let m = pl(i) * nr + pr(j);
    assert(0 <= m < s.len() && s[m] == t[k]);
}

proof fn lemma_original_entry_in_t(
    s: Seq<Option<u64>>,
    t: Seq<Option<u64>>,
    n_left: nat,
    n_right: nat,
    pl: spec_fn(int) -> int,
    pr: spec_fn(int) -> int,
    m: int,
)
    requires
        reordered_pairs(s, t, n_left, n_right, pl, pr),
        0 <= m < s.len(),
    ensures
        occurs_in(t, s[m]),
{
    let nl = n_left as int;
    let nr = n_right as int;
    lemma_positive_factor(nl, nr, m);
    lemma_split_index(m, nl, nr);
    let a = m / nr;
    let b = m % nr;
    assert(hit_by(pl, nl, a));
    assert(hit_by(pr, nr, b));
    let i = choose|i: int| 0 <= i < nl && #[trigger] pl(i) == a;
    let j = choose|j: int| 0 <= j < nr && #[trigger] pr(j) == b;
    lemma_pair_index(i, j, nl, nr);
    assert(t[i * nr + j] == s[pl(i) * nr + pr(j)]);
    let k = i * nr + j;
    assert(0 <= k < t.len() && t[k] == s[m]);
}

proof fn lemma_reordering_covers(
    s: Seq<Option<u64>>,
    t: Seq<Option<u64>>,
    n_left: nat,
    n_right: nat,
    pl: spec_fn(int) -> int,
    pr: spec_fn(int) -> int,
)
    requires
        reordered_pairs(s, t, n_left, n_right, pl, pr),
    ensures
        covers(s, t),
        covers(t, s),
{
    assert forall|k: int| 0 <= k < t.len() implies occurs_in(s, #[trigger] t[k]) by {
        lemma_reordered_entry_in_s(s, t, n_left, n_right, pl, pr, k);
    }
    assert forall|m: int| 0 <= m < s.len() implies occurs_in(t, #[trigger] s[m]) by {
        lemma_original_entry_in_t(s, t, n_left, n_right, pl, pr, m);
    }
}

proof fn lemma_covers_facts(s: Seq<Option<u64>>, t: Seq<Option<u64>>)
    requires
        covers(s, t),
    ensures
        has_hit(t) ==> has_hit(s),
        has_miss(t) ==> has_miss(s),
        no_nan_hit(s) ==> no_nan_hit(t),
{
    if has_hit(t) {
        let k = choose|k: int| 0 <= k < t.len() && t[k] is Some;
        assert(occurs_in(s, t[k]));
        let m = choose|m: int| 0 <= m < s.len() && s[m] == t[k];
        assert(s[m] is Some);
    }
    if has_miss(t) {
        let k = choose|k: int| 0 <= k < t.len() && t[k] is None;
        assert(occurs_in(s, t[k]));
        let m = choose|m: int| 0 <= m < s.len() && s[m] == t[k];
        assert(s[m] is None);
    }
    if no_nan_hit(s) {
        assert forall|k: int| 0 <= k < t.len() && t[k] is Some implies !nan_bits(
            #[trigger] t[k]->Some_0,
        ) by {
            assert(occurs_in(s, t[k]));
            let m = choose|m: int| 0 <= m < s.len() && s[m] == t[k];
            assert(s[m] is Some);
        }
    }
}

proof fn lemma_extreme_values_equal(rule: ScanRule, s: Seq<Option<u64>>, t: Seq<Option<u64>>)
    requires
        covers(s, t),
        covers(t, s),
        no_nan_hit(s),
        no_nan_hit(t),
        rule != ScanRule::FirstHit,
        scan_result(rule, s) is Some,
        scan_result(rule, t) is Some,
    ensures
        ordinal(s[scan_result(rule, s)->Some_0]->Some_0) == ordinal(
            t[scan_result(rule, t)->Some_0]->Some_0,
        ),
{
    lemma_result_exists(rule, s);
    lemma_result_exists(rule, t);
    let k = scan_result(rule, s)->Some_0;
    let k2 = scan_result(rule, t)->Some_0;
    assert(occurs_in(t, s[k]));
    let m = choose|m: int| 0 <= m < t.len() && t[m] == s[k];
    assert(occurs_in(s, t[k2]));
    let m2 = choose|m: int| 0 <= m < s.len() && s[m] == t[k2];
    assert(t[m] is Some);
    assert(s[m2] is Some);
    if rule == ScanRule::Deepest {
        lemma_deepest_is_deepest(s);
        lemma_deepest_is_deepest(t);
        assert(ordinal(t[m]->Some_0) <= ordinal(t[k2]->Some_0));
        assert(ordinal(s[m2]->Some_0) <= ordinal(s[k]->Some_0));
    } else if rule == ScanRule::Earliest {
        lemma_earliest_is_earliest(s);
        lemma_earliest_is_earliest(t);
        assert(ordinal(t[k2]->Some_0) <= ordinal(t[m]->Some_0));
        assert(ordinal(s[k]->Some_0) <= ordinal(s[m2]->Some_0));
    } else {
        lemma_nearest_is_nearest(s);
        lemma_nearest_is_nearest(t);
        assert(!nan_bits(t[m]->Some_0));
        assert(!nan_bits(s[m2]->Some_0));
        assert(!nan_bits(t[k2]->Some_0));
        assert(!nan_bits(s[k]->Some_0));
        assert(ordinal(t[k2]->Some_0) <= ordinal(t[m]->Some_0));
        assert(ordinal(s[k]->Some_0) <= ordinal(s[m2]->Some_0));
    }
}

/// Two scans over the same outcomes, in whatever order, agree on whether there is a
/// result; without NaN, the deepest, earliest and nearest rules also agree on the value
/// of the result.
pub proof fn lemma_same_outcomes_same_result(
    rule: ScanRule,
    s: Seq<Option<u64>>,
    t: Seq<Option<u64>>,
)
    requires
        covers(s, t),
        covers(t, s),
    ensures
        scan_result(rule, s) is Some <==> scan_result(rule, t) is Some,
        no_nan_hit(s) && rule != ScanRule::FirstHit && scan_result(rule, s) is Some
            ==> ordinal(s[scan_result(rule, s)->Some_0]->Some_0) == ordinal(
            t[scan_result(rule, t)->Some_0]->Some_0,
        ),
{
    lemma_covers_facts(s, t);
    lemma_covers_facts(t, s);
    lemma_result_exists(rule, s);
    lemma_result_exists(rule, t);
    if no_nan_hit(s) && rule != ScanRule::FirstHit && scan_result(rule, s) is Some {
        lemma_extreme_values_equal(rule, s, t);
    }
}

/// Reordering the primitives of either shape changes neither whether a scan has a
/// result nor, without NaN values, the deepest penetration depth, the earliest time
/// of impact or the smallest distance that it returns.
pub proof fn lemma_reordering_keeps_result(
    rule: ScanRule,
    s: Seq<Option<u64>>,
    t: Seq<Option<u64>>,
    n_left: nat,
    n_right: nat,
    pl: spec_fn(int) -> int,
    pr: spec_fn(int) -> int,
)
    requires
        reordered_pairs(s, t, n_left, n_right, pl, pr),
    ensures
        scan_result(rule, s) is Some <==> scan_result(rule, t) is Some,
        no_nan_hit(s) && rule != ScanRule::FirstHit && scan_result(rule, s) is Some
            ==> ordinal(s[scan_result(rule, s)->Some_0]->Some_0) == ordinal(
            t[scan_result(rule, t)->Some_0]->Some_0,
        ),
{
    lemma_reordering_covers(s, t, n_left, n_right, pl, pr);
    lemma_same_outcomes_same_result(rule, s, t);
}

/// No outcome of the scan is an IEEE 754 NaN.
pub open spec fn no_ieee_nan_hit(s: Seq<Option<u64>>) -> bool {
    forall|i: int| 0 <= i < s.len() && s[i] is Some ==> !is_ieee_nan(#[trigger] s[i]->Some_0)
}

proof fn lemma_no_ieee_nan_hit(s: Seq<Option<u64>>)
    requires
        no_ieee_nan_hit(s),
    ensures
        no_nan_hit(s),
{
    assert forall|i: int| 0 <= i < s.len() && s[i] is Some implies !nan_bits(
        #[trigger] s[i]->Some_0,
    ) by {
        lemma_nan_bits_are_ieee_nans(s[i]->Some_0);
    }
}

/// With the full-resolution intersection rule, no colliding pair has a greater
/// penetration depth (as a number) than the contact returned, and every later pair has
/// a smaller one.
pub proof fn lemma_deepest_has_greatest_depth(s: Seq<Option<u64>>)
    requires
        no_ieee_nan_hit(s),
    ensures
        scan_result(ScanRule::Deepest, s) matches Some(k) ==> forall|j: int|
            0 <= j < s.len() && #[trigger] s[j] is Some ==> {
                &&& !real_lt(s[k]->Some_0, s[j]->Some_0)
                &&& j > k ==> real_lt(s[j]->Some_0, s[k]->Some_0)
            },
{
    lemma_no_ieee_nan_hit(s);
    lemma_deepest_is_deepest(s);
    lemma_result_exists(ScanRule::Deepest, s);
    if let Some(k) = scan_result(ScanRule::Deepest, s) {
        assert forall|j: int| 0 <= j < s.len() && #[trigger] s[j] is Some implies {
            &&& !real_lt(s[k]->Some_0, s[j]->Some_0)
            &&& j > k ==> real_lt(s[j]->Some_0, s[k]->Some_0)
        } by {
            lemma_ordinal_follows_value(s[k]->Some_0, s[j]->Some_0);
            lemma_ordinal_follows_value(s[j]->Some_0, s[k]->Some_0);
        }
    }
}

/// With the full-resolution time-of-impact rule, no pair meets earlier (as a number)
/// than the time returned, and every earlier pair meets later.
pub proof fn lemma_earliest_has_smallest_time(s: Seq<Option<u64>>)
    requires
        no_ieee_nan_hit(s),
    ensures
        scan_result(ScanRule::Earliest, s) matches Some(k) ==> forall|j: int|
            0 <= j < s.len() && #[trigger] s[j] is Some ==> {
                &&& !real_lt(s[j]->Some_0, s[k]->Some_0)
                &&& j < k ==> real_lt(s[k]->Some_0, s[j]->Some_0)
            },
{
    lemma_no_ieee_nan_hit(s);
    lemma_earliest_is_earliest(s);
    lemma_result_exists(ScanRule::Earliest, s);
    if let Some(k) = scan_result(ScanRule::Earliest, s) {
        assert forall|j: int| 0 <= j < s.len() && #[trigger] s[j] is Some implies {
            &&& !real_lt(s[j]->Some_0, s[k]->Some_0)
            &&& j < k ==> real_lt(s[k]->Some_0, s[j]->Some_0)
        } by {
            lemma_ordinal_follows_value(s[k]->Some_0, s[j]->Some_0);
            lemma_ordinal_follows_value(s[j]->Some_0, s[k]->Some_0);
        }
    }
}

/// The distance of two complex shapes is no greater (as a number) than any pair
/// distance that is not NaN; it is a NaN only when every pair distance is one, so no
/// number is ever passed over.
pub proof fn lemma_nearest_has_smallest_distance(s: Seq<Option<u64>>)
    ensures
        scan_result(ScanRule::Nearest, s) matches Some(k) ==> {
            &&& !is_ieee_nan(s[k]->Some_0) ==> forall|j: int|
                0 <= j < s.len() && !is_ieee_nan(#[trigger] s[j]->Some_0) ==> !real_lt(
                    s[j]->Some_0,
                    s[k]->Some_0,
                )
            &&& is_ieee_nan(s[k]->Some_0) ==> forall|j: int|
                0 <= j < s.len() ==> is_ieee_nan(#[trigger] s[j]->Some_0)
        },
{
    lemma_nearest_is_nearest(s);
    lemma_result_exists(ScanRule::Nearest, s);
    if let Some(k) = scan_result(ScanRule::Nearest, s) {
        lemma_nan_bits_are_ieee_nans(s[k]->Some_0);
        assert forall|j: int| 0 <= j < s.len() && !is_ieee_nan(#[trigger] s[j]->Some_0)
            && !is_ieee_nan(s[k]->Some_0) implies !real_lt(s[j]->Some_0, s[k]->Some_0) by {
            lemma_nan_bits_are_ieee_nans(s[j]->Some_0);
            lemma_ordinal_follows_value(s[j]->Some_0, s[k]->Some_0);
        }
        assert forall|j: int| 0 <= j < s.len() && is_ieee_nan(s[k]->Some_0) implies is_ieee_nan(
            #[trigger] s[j]->Some_0,
        ) by {
            lemma_nan_bits_are_ieee_nans(s[j]->Some_0);
        }
    }
}

} // verus!
