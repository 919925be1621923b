//! Scanning every pair of primitives of two complex shapes.
//!
//! A complex shape is a list of primitives. The shapes are tested pair by pair, the
//! left primitive in the outer loop and the right one in the inner loop, and the
//! per-pair outcomes are combined by a [`ScanRule`]. An outcome is `None` when the pair
//! produced nothing (no contact, colliding for distances) and otherwise carries the
//! `f64` bit pattern of the scalar that the rule compares (penetration depth, distance
//! or time of impact). The scan answers with the position, in pair order, of the
//! outcome that the shapes' result is taken from.
use vstd::prelude::*;
use crate::float_order::{nan_bits, ordinal, float_lt, is_nan, ordinal_of, less_than};
use crate::strategy::CollisionStrategy;

verus! {

/// How the outcomes of the primitive pairs are combined.
#[derive(PartialEq, Eq, Structural, Clone, Copy, Debug)]
pub enum ScanRule {
    /// The first pair with an outcome; the scan stops there.
    FirstHit,
    /// The outcome with the greatest scalar; the last one among equals. Once two
    /// outcomes have arrived, none may be NaN, as NaN depths cannot be ordered.
    Deepest,
    /// The outcome with the smallest scalar; the first one among equals, and a NaN
    /// neither replaces nor is replaced.
    Earliest,
    /// No result as soon as one pair has no outcome; otherwise the smallest scalar,
    /// NaN scalars being passed over unless all are NaN.
    Nearest,
}

impl ScanRule {
    /// The rule that intersection tests of complex shapes use: the first contact found
    /// when only the collision matters, the deepest contact otherwise.
    pub fn for_intersection(strategy: CollisionStrategy) -> (r: ScanRule)
        ensures
            r == (match strategy {
                CollisionStrategy::CollisionOnly => ScanRule::FirstHit,
                CollisionStrategy::FullResolution => ScanRule::Deepest,
            }),
    {
        match strategy {
            CollisionStrategy::CollisionOnly => ScanRule::FirstHit,
            CollisionStrategy::FullResolution => ScanRule::Deepest,
        }
    }

    /// The rule that time-of-impact tests of complex shapes use: the first time found
    /// when only the collision matters, the earliest time otherwise.
    pub fn for_time_of_impact(strategy: CollisionStrategy) -> (r: ScanRule)
        ensures
            r == (match strategy {
                CollisionStrategy::CollisionOnly => ScanRule::FirstHit,
                CollisionStrategy::FullResolution => ScanRule::Earliest,
            }),
    {
        match strategy {
            CollisionStrategy::CollisionOnly => ScanRule::FirstHit,
            CollisionStrategy::FullResolution => ScanRule::Earliest,
        }
    }
}

/// Whether the outcome held so far stays chosen when the outcome `v` arrives.
pub open spec fn keeps(rule: ScanRule, held: u64, v: u64) -> bool {
    match rule {
        ScanRule::FirstHit => true,
        ScanRule::Deepest => ordinal(held) > ordinal(v),
        ScanRule::Earliest => !float_lt(v, held),
        ScanRule::Nearest => nan_bits(v) || (!nan_bits(held) && !(ordinal(v) < ordinal(held))),
    }
}

/// The position of the chosen outcome among the pair outcomes `s`, ignoring pairs
/// without an outcome.
pub open spec fn select(rule: ScanRule, s: Seq<Option<u64>>) -> Option<int>
    decreases s.len(),
{
    if s.len() == 0 {
        None
    } else {
        let prev = select(rule, s.drop_last());
        let k = s.len() - 1;
        match s.last() {
            None => prev,
            Some(v) => match prev {
                None => Some(k),
                Some(p) => if keeps(rule, s[p]->Some_0, v) {
                    Some(p)
                } else {
                    Some(k)
                },
            },
        }
    }
}

/// Some pair produced an outcome.
pub open spec fn has_hit(s: Seq<Option<u64>>) -> bool {
    exists|i: int| 0 <= i < s.len() && s[i] is Some
}

/// Some pair produced no outcome.
pub open spec fn has_miss(s: Seq<Option<u64>>) -> bool {
    exists|i: int| 0 <= i < s.len() && s[i] is None
}

/// The answer of a scan over the pair outcomes `s`.
pub open spec fn scan_result(rule: ScanRule, s: Seq<Option<u64>>) -> Option<int> {
    if rule == ScanRule::Nearest && has_miss(s) {
        None
    } else {
        select(rule, s)
    }
}

/// The outcomes so far fix the answer, whatever the remaining pairs produce.
pub open spec fn settled(rule: ScanRule, s: Seq<Option<u64>>) -> bool {
    match rule {
        ScanRule::FirstHit => has_hit(s),
        ScanRule::Nearest => has_miss(s),
        _ => false,
    }
}

/// No outcome of the scan is a NaN.
pub open spec fn no_nan_hit(s: Seq<Option<u64>>) -> bool {
    forall|i: int| 0 <= i < s.len() && s[i] is Some ==> !nan_bits(#[trigger] s[i]->Some_0)
}

pub open spec fn index_of(r: Option<usize>) -> Option<int> {
    match r {
        Some(k) => Some(k as int),
        None => None,
    }
}

/// What the caller does next.
#[derive(PartialEq, Eq, Structural, Clone, Copy, Debug)]
pub enum ScanAction {
    /// Test this pair (indices into the left and right lists) and report the outcome.
    Evaluate { left: usize, right: usize },
    /// The scan is over: the result of the shapes is the outcome reported at this
    /// position in pair order, or there is none.
    Finish(Option<usize>),
}

/// A scan of the pairs of two complex shapes.
pub struct PairScan {
    rule: ScanRule,
    n_left: usize,
    n_right: usize,
    next_left: usize,
    next_right: usize,
    count: usize,
    best: Option<(usize, u64)>,
    missed: bool,
    outcomes: Ghost<Seq<Option<u64>>>,
}

proof fn lemma_mul_succ(a: int, n: int)
    ensures
        (a + 1) * n == a * n + n,
{
    assert((a + 1) * n == a * n + n) by (nonlinear_arith);
}

proof fn lemma_row_bound(l: int, r: int, n: int, big: int)
    requires
        0 <= l,
        0 <= r < n,
        0 <= big,
        l * n + r < big * n,
    ensures
        l < big,
{
    assert(l < big) by (nonlinear_arith)
        requires
            0 <= l,
            0 <= r < n,
            0 <= big,
            l * n + r < big * n,
    ;
}

proof fn lemma_row_done(l: int, r: int, n: int, big: int)
    requires
        0 <= l <= big,
        0 <= r < n,
        l == big ==> r == 0,
    ensures
        (l * n + r == big * n) == (l == big),
        l * n + r <= big * n,
{
    if l < big {
        assert(l * n + r < big * n) by (nonlinear_arith)
            requires
                0 <= l < big,
                0 <= r < n,
        ;
    }
}

pub(crate) proof fn lemma_select_in_range(rule: ScanRule, s: Seq<Option<u64>>)
    ensures
        select(rule, s) matches Some(k) ==> 0 <= k < s.len() && s[k] is Some,
        select(rule, s) is None <==> !has_hit(s),
    decreases s.len(),
{
    if s.len() > 0 {
        let t = s.drop_last();
        lemma_select_in_range(rule, t);
        assert forall|i: int| 0 <= i < t.len() implies t[i] == s[i] by {}
        if has_hit(s) && s.last() is None {
            let i = choose|i: int| 0 <= i < s.len() && s[i] is Some;
            assert(t[i] is Some);
        }
        if has_hit(t) {
            let i = choose|i: int| 0 <= i < t.len() && t[i] is Some;
            assert(s[i] is Some);
        }
    }
}

proof fn lemma_push_facts(s: Seq<Option<u64>>, o: Option<u64>)
    ensures
        s.push(o).drop_last() == s,
        has_miss(s.push(o)) == (has_miss(s) || o is None),
        has_hit(s.push(o)) == (has_hit(s) || o is Some),
        forall|i: int| 0 <= i < s.len() ==> s.push(o)[i] == s[i],
{
    assert(s.push(o).drop_last() =~= s);
    let t = s.push(o);
    if has_miss(t) && !(o is None) {
        let i = choose|i: int| 0 <= i < t.len() && t[i] is None;
        assert(s[i] is None);
    }
    if has_hit(t) && !(o is Some) {
        let i = choose|i: int| 0 <= i < t.len() && t[i] is Some;
        assert(s[i] is Some);
    }
    if has_miss(s) {
        let i = choose|i: int| 0 <= i < s.len() && s[i] is None;
        assert(t[i] is None);
    }
    if has_hit(s) {
        let i = choose|i: int| 0 <= i < s.len() && s[i] is Some;
        assert(t[i] is Some);
    }
    if o is None {
        assert(t[s.len() as int] is None);
    }
    if o is Some {
        assert(t[s.len() as int] is Some);
    }
}

impl PairScan {
    /// The rule this scan combines outcomes with.
    pub closed spec fn rule(self) -> ScanRule {
        self.rule
    }

    /// Number of primitives of the left shape.
    pub closed spec fn left_count(self) -> nat {
        self.n_left as nat
    }

    /// Number of primitives of the right shape.
    pub closed spec fn right_count(self) -> nat {
        self.n_right as nat
    }

    /// The outcomes reported so far, in pair order.
    pub closed spec fn reported(self) -> Seq<Option<u64>> {
        self.outcomes@
    }

    pub open spec fn pair_count(self) -> int {
        (self.left_count() * self.right_count()) as int
    }

    /// All pairs are tested, or the answer is already fixed.
    pub open spec fn is_done(self) -> bool {
        self.reported().len() == self.pair_count() || settled(self.rule(), self.reported())
    }

    pub closed spec fn wf(self) -> bool {
        &&& self.n_left * self.n_right <= usize::MAX
        &&& self.count == self.outcomes@.len()
        &&& self.next_left <= self.n_left
        &&& if self.n_right == 0 {
            self.next_left == 0 && self.next_right == 0
        } else {
            &&& self.next_right < self.n_right
            &&& self.next_left == self.n_left ==> self.next_right == 0
        }
        &&& self.count == self.next_left * self.n_right + self.next_right
        &&& self.missed == has_miss(self.outcomes@)
        &&& match select(self.rule, self.outcomes@) {
            None => self.best is None,
            Some(k) => self.best == Some((k as usize, self.outcomes@[k]->Some_0)),
        }
    }

    /// Start a scan over `n_left` by `n_right` pairs.
    pub fn new(rule: ScanRule, n_left: usize, n_right: usize) -> (s: PairScan)
        requires
            n_left * n_right <= usize::MAX,
        ensures
            s.wf(),
            s.rule() == rule,
            s.left_count() == n_left,
            s.right_count() == n_right,
            s.reported() == Seq::<Option<u64>>::empty(),
    {
        PairScan {
            rule,
            n_left,
            n_right,
            next_left: 0,
            next_right: 0,
            count: 0,
            best: None,
            missed: false,
            outcomes: Ghost(Seq::empty()),
        }
    }

    /// What the caller does next: test the next pair in order, or return the result.
    pub fn action(&self) -> (a: ScanAction)
        requires
            self.wf(),
        ensures
            (a is Finish) == self.is_done(),
            a matches ScanAction::Finish(r) ==> index_of(r) == scan_result(
                self.rule(),
                self.reported(),
            ),
            a matches ScanAction::Evaluate { left, right } ==> {
                &&& left < self.left_count()
                &&& right < self.right_count()
                &&& left * self.right_count() + right == self.reported().len()
            },
    {
        proof {
            lemma_select_in_range(self.rule, self.outcomes@);
            if self.n_right > 0 {
                lemma_row_done(
                    self.next_left as int,
                    self.next_right as int,
                    self.n_right as int,
                    self.n_left as int,
                );
            }
        }
        let all_tested = self.n_right == 0 || self.next_left == self.n_left;
        let fixed = match self.rule {
            ScanRule::FirstHit => self.best.is_some(),
            ScanRule::Nearest => self.missed,
            _ => false,
        };
        if all_tested || fixed {
            if self.rule == ScanRule::Nearest && self.missed {
                ScanAction::Finish(None)
            } else {
                match self.best {
                    Some((k, _)) => ScanAction::Finish(Some(k)),
                    None => ScanAction::Finish(None),
                }
            }
        } else {
            ScanAction::Evaluate { left: self.next_left, right: self.next_right }
        }
    }

    fn keeps_held(&self, held: u64, v: u64) -> (r: bool)
        ensures
            r == keeps(self.rule, held, v),
    {
        match self.rule {
            ScanRule::FirstHit => true,
            ScanRule::Deepest => ordinal_of(held) > ordinal_of(v),
            ScanRule::Earliest => !less_than(v, held),
            ScanRule::Nearest => is_nan(v) || (!is_nan(held) && !(ordinal_of(v) < ordinal_of(
                held,
            ))),
        }
    }

    /// Report the outcome of the pair that `action` asked for.
    pub fn report(&mut self, outcome: Option<u64>)
        requires
            old(self).wf(),
            !old(self).is_done(),
            old(self).rule() == ScanRule::Deepest && outcome is Some && has_hit(old(self).reported())
                ==> !nan_bits(outcome->Some_0) && no_nan_hit(old(self).reported()),
        ensures
            final(self).wf(),
            final(self).reported() == old(self).reported().push(outcome),
            final(self).rule() == old(self).rule(),
            final(self).left_count() == old(self).left_count(),
            final(self).right_count() == old(self).right_count(),
    {
        let ghost s = self.outcomes@;
        proof {
            if self.n_right == 0 {
                assert(self.n_left * self.n_right == 0) by (nonlinear_arith)
                    requires
                        self.n_right == 0,
                ;
            }
            lemma_select_in_range(self.rule, s);
            lemma_push_facts(s, outcome);
            if self.n_right > 0 {
                lemma_row_done(
                    self.next_left as int,
                    self.next_right as int,
                    self.n_right as int,
                    self.n_left as int,
                );
            }
        }
        let k = self.count;
        match outcome {
            None => {
                self.missed = true;
            },
            Some(v) => {
                match self.best {
                    None => {
                        self.best = Some((k, v));
                    },
                    Some((_, held)) => {
                        if !self.keeps_held(held, v) {
                            self.best = Some((k, v));
                        }
                    },
                }
            },
        }
        self.outcomes = Ghost(s.push(outcome));
        self.count = k + 1;
        if self.next_right + 1 < self.n_right {
            self.next_right = self.next_right + 1;
        } else {
            proof {
                lemma_mul_succ(self.next_left as int, self.n_right as int);
                lemma_row_bound(
                    self.next_left as int,
                    self.next_right as int,
                    self.n_right as int,
                    self.n_left as int,
                );
            }
            self.next_right = 0;
            self.next_left = self.next_left + 1;
        }
    }
}

} // verus!
