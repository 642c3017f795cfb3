//! Confidence gating: [`Policy`], [`NoulPolicy`], and [`Verdict`].
//!
//! Thresholds and signals are binary64 bit patterns (see [`crate::binary64`]).
use vstd::prelude::*;

use crate::binary64::{ge, in_unit, le, lt, num_le, num_lt, HALF_BITS, ONE_BITS, ZERO_BITS};

verus! {

/// Outcome of gating an answer.
#[derive(Clone, Copy, Debug, PartialEq, Eq)]
pub enum Verdict<T> {
    /// Signal is at or above the act threshold; take the typed value.
    Act(T),
    /// Signal is below act but at or above review; keep a guess for a human.
    Review(T),
    /// Signal is below review; escalate (LLM fallback, etc.).
    Escalate,
}

impl<T> Verdict<T> {
    /// Act ranks 2, Review 1, Escalate 0.
    pub open spec fn rank_of(&self) -> int {
        match self {
            Verdict::Act(_) => 2,
            Verdict::Review(_) => 1,
            Verdict::Escalate => 0,
        }
    }

    /// Rank used by monotonicity tests: Act (2) > Review (1) > Escalate (0).
    pub fn rank(&self) -> (r: u8)
        ensures
            r == self.rank_of(),
    {
        match self {
            Verdict::Act(_) => 2,
            Verdict::Review(_) => 1,
            Verdict::Escalate => 0,
        }
    }
}

/// Which scalar a [`Policy`] compares against thresholds.
#[derive(Clone, Copy, Debug, PartialEq, Eq)]
pub enum Signal {
    /// API `confidence` (default).
    Confidence,
    /// Probability of the chosen / top option.
    TopProb,
    /// Top-1 minus top-2 probability.
    Margin,
}

impl Default for Signal {
    fn default() -> (s: Signal)
        ensures
            s == Signal::Confidence,
    {
        Signal::Confidence
    }
}

/// Invalid [`Policy`] or [`NoulPolicy`] construction. Numbers are binary64
/// bit patterns.
#[derive(Clone, Debug, PartialEq)]
#[non_exhaustive]
pub enum PolicyError {
    /// A threshold was not in `[0, 1]`.
    OutOfUnitInterval(u64),
    /// Act threshold was strictly below the review threshold.
    ActBelowReview {
        /// Act threshold.
        act: u64,
        /// Review threshold.
        review: u64,
    },
    /// Review band lower bound exceeded the upper bound.
    InvalidReviewBand {
        /// Lower bound.
        lo: u64,
        /// Upper bound.
        hi: u64,
    },
    /// Noul `yes_act` was strictly below `no_act`.
    YesBelowNo {
        /// Yes-act threshold.
        yes: u64,
        /// No-act threshold.
        no: u64,
    },
}

/// Accept `t` when it lies in `[0, 1]` (NaN and the infinities do not).
pub fn check_unit(t: u64) -> (r: Result<u64, PolicyError>)
    ensures
        in_unit(t) ==> r == Ok::<u64, PolicyError>(t),
        !in_unit(t) ==> r == Err::<u64, PolicyError>(PolicyError::OutOfUnitInterval(t)),
{
    if le(ZERO_BITS, t) && le(t, ONE_BITS) {
        Ok(t)
    } else {
        Err(PolicyError::OutOfUnitInterval(t))
    }
}

/// An act threshold and a review threshold that a policy may hold.
pub open spec fn valid_pair(act: u64, review: u64) -> bool {
    in_unit(act) && in_unit(review) && num_le(review, act)
}

/// Gate `signal` against one pair of thresholds.
pub open spec fn gate_with<T>(signal: u64, value: T, act: u64, review: u64) -> Verdict<T> {
    if num_le(act, signal) {
        Verdict::Act(value)
    } else if num_le(review, signal) {
        Verdict::Review(value)
    } else {
        Verdict::Escalate
    }
}

/// What a [`Policy`] holds.
pub struct PolicyView<T> {
    /// Global act threshold.
    pub act: u64,
    /// Global review threshold.
    pub review: u64,
    /// Per-variant `(variant, act, review)` overrides, in the order added.
    pub overrides: Seq<(T, u64, u64)>,
    /// Scalar compared against the thresholds.
    pub signal: Signal,
}

impl<T> PolicyView<T> {
    /// Every threshold pair of the policy is valid.
    pub open spec fn wf(self) -> bool {
        &&& valid_pair(self.act, self.review)
        &&& forall|i: int|
            0 <= i < self.overrides.len() ==> valid_pair(
                #[trigger] self.overrides[i].1,
                self.overrides[i].2,
            )
    }
}

/// Confidence policy for Choice and Score answers.
///
/// Invariants: `act >= review`; every threshold is in `[0, 1]`.
#[derive(Debug, PartialEq)]
pub struct Policy<T> {
    act: u64,
    review: u64,
    per_variant: Vec<(T, u64, u64)>,
    signal: Signal,
}

impl<T> View for Policy<T> {
    type V = PolicyView<T>;

    closed spec fn view(&self) -> PolicyView<T> {
        PolicyView {
            act: self.act,
            review: self.review,
            overrides: self.per_variant@,
            signal: self.signal,
        }
    }
}

impl<T> Policy<T> {
    #[verifier::type_invariant]
    closed spec fn inv(self) -> bool {
        self@.wf()
    }
}

impl<T: Copy> Clone for Policy<T> {
    /// The same thresholds, overrides and signal.
    fn clone(&self) -> (c: Self)
        ensures
            c@ == self@,
    {
        proof {
            use_type_invariant(self);
        }
        let n = self.per_variant.len();
        let mut ovs: Vec<(T, u64, u64)> = Vec::new();
        let mut i: usize = 0;
        while i < n
            invariant
                n == self.per_variant@.len(),
                0 <= i <= n,
                ovs@ == self.per_variant@.take(i as int),
            decreases n - i,
        {
            ovs.push(self.per_variant[i]);
            proof {
                assert(ovs@ =~= self.per_variant@.take(i + 1));
            }
            i = i + 1;
        }
        proof {
            assert(ovs@ =~= self.per_variant@);
        }
        Policy { act: self.act, review: self.review, per_variant: ovs, signal: self.signal }
    }
}

impl<T: Copy + PartialEq> Policy<T> {
    /// Start a policy with an act threshold. Review defaults to `0.0`.
    /// The threshold must lie in `[0, 1]`.
    pub fn act(threshold: u64) -> (p: Self)
        requires
            in_unit(threshold),
        ensures
            p@.act == threshold,
            p@.review == ZERO_BITS,
            p@.overrides.len() == 0,
            p@.signal == Signal::Confidence,
            p@.wf(),
    {
        match Self::try_act(threshold) {
            Ok(p) => p,
            Err(_) => {
                proof {
                    assert(false);
                }
                Policy { act: ONE_BITS, review: ZERO_BITS, per_variant: Vec::new(), signal: Signal::Confidence }
            },
        }
    }

    /// Fallible [`Policy::act`].
    pub fn try_act(threshold: u64) -> (r: Result<Self, PolicyError>)
        ensures
            in_unit(threshold) <==> r is Ok,
            r matches Ok(p) ==> {
                &&& p@.act == threshold
                &&& p@.review == ZERO_BITS
                &&& p@.overrides.len() == 0
                &&& p@.signal == Signal::Confidence
                &&& p@.wf()
            },
            r matches Err(e) ==> e == PolicyError::OutOfUnitInterval(threshold),
    {
        let act = match check_unit(threshold) {
            Ok(t) => t,
            Err(e) => return Err(e),
        };
        let p = Policy { act, review: ZERO_BITS, per_variant: Vec::new(), signal: Signal::Confidence };
        proof {
            use_type_invariant(&p);
        }
        Ok(p)
    }

    /// Set the review threshold. It must lie in `[0, 1]` and not above `act`.
    pub fn review(self, threshold: u64) -> (p: Self)
        requires
            in_unit(threshold),
            num_le(threshold, self@.act),
        ensures
            p@ == (PolicyView { review: threshold, ..self@ }),
            p@.wf(),
    {
        match self.try_review(threshold) {
            Ok(p) => p,
            Err(_) => {
                proof {
                    assert(false);
                }
                Policy { act: ONE_BITS, review: ZERO_BITS, per_variant: Vec::new(), signal: Signal::Confidence }
            },
        }
    }

    /// Fallible [`Policy::review`].
    pub fn try_review(self, threshold: u64) -> (r: Result<Self, PolicyError>)
        ensures
            !in_unit(threshold) ==> r == Err::<Self, PolicyError>(
                PolicyError::OutOfUnitInterval(threshold),
            ),
            in_unit(threshold) && num_lt(self@.act, threshold) ==> r == Err::<Self, PolicyError>(
                PolicyError::ActBelowReview { act: self@.act, review: threshold },
            ),
            in_unit(threshold) && num_le(threshold, self@.act) <==> r is Ok,
            r matches Ok(p) ==> p@ == (PolicyView { review: threshold, ..self@ }) && p@.wf(),
    {
        proof {
            use_type_invariant(&self);
        }
        let review = match check_unit(threshold) {
            Ok(t) => t,
            Err(e) => return Err(e),
        };
        if lt(self.act, review) {
            return Err(PolicyError::ActBelowReview { act: self.act, review });
        }
        let mut p = self;
        p.review = review;
        proof {
            use_type_invariant(&p);
        }
        Ok(p)
    }

    /// Override thresholds for a high-risk variant; gating finds the first
    /// override whose variant has the answer's declaration index. Both
    /// thresholds must lie in `[0, 1]`, with `act >= review`.
    pub fn for_variant(self, v: T, act: u64, review: u64) -> (p: Self)
        requires
            valid_pair(act, review),
        ensures
            p@ == (PolicyView { overrides: self@.overrides.push((v, act, review)), ..self@ }),
            p@.wf(),
    {
        match self.try_for_variant(v, act, review) {
            Ok(p) => p,
            Err(_) => {
                proof {
                    assert(false);
                }
                Policy { act: ONE_BITS, review: ZERO_BITS, per_variant: Vec::new(), signal: Signal::Confidence }
            },
        }
    }

    /// Fallible [`Policy::for_variant`].
    pub fn try_for_variant(self, v: T, act: u64, review: u64) -> (r: Result<Self, PolicyError>)
        ensures
            !in_unit(act) ==> r == Err::<Self, PolicyError>(PolicyError::OutOfUnitInterval(act)),
            in_unit(act) && !in_unit(review) ==> r == Err::<Self, PolicyError>(
                PolicyError::OutOfUnitInterval(review),
            ),
            in_unit(act) && in_unit(review) && num_lt(act, review) ==> r == Err::<
                Self,
                PolicyError,
            >(PolicyError::ActBelowReview { act, review }),
            valid_pair(act, review) <==> r is Ok,
            r matches Ok(p) ==> p@ == (PolicyView {
                overrides: self@.overrides.push((v, act, review)),
                ..self@
            }) && p@.wf(),
    {
        proof {
            use_type_invariant(&self);
        }
        let act = match check_unit(act) {
            Ok(t) => t,
            Err(e) => return Err(e),
        };
        let review = match check_unit(review) {
            Ok(t) => t,
            Err(e) => return Err(e),
        };
        if lt(act, review) {
            return Err(PolicyError::ActBelowReview { act, review });
        }
        proof {
            use_type_invariant(&self);
        }
        let Policy { act: global_act, review: global_review, per_variant, signal } = self;
        let ghost old_ovs = per_variant@;
        let mut ovs = per_variant;
        ovs.push((v, act, review));
        proof {
            assert forall|i: int| 0 <= i < ovs@.len() implies valid_pair(
                #[trigger] ovs@[i].1,
                ovs@[i].2,
            ) by {
                if i < old_ovs.len() {
                    assert(ovs@[i] == old_ovs[i]);
                }
            }
        }
        let p = Policy { act: global_act, review: global_review, per_variant: ovs, signal };
        Ok(p)
    }

    /// Select the scalar compared to thresholds.
    pub fn using(self, signal: Signal) -> (p: Self)
        ensures
            p@ == (PolicyView { signal, ..self@ }),
            p@.wf(),
    {
        proof {
            use_type_invariant(&self);
        }
        let mut p = self;
        p.signal = signal;
        proof {
            use_type_invariant(&p);
        }
        p
    }

    /// Act threshold (global, before per-variant overrides).
    pub fn act_threshold(&self) -> (t: u64)
        ensures
            t == self@.act,
    {
        self.act
    }

    /// Review threshold (global, before per-variant overrides).
    pub fn review_threshold(&self) -> (t: u64)
        ensures
            t == self@.review,
    {
        self.review
    }

    /// The scalar this policy compares against its thresholds.
    pub fn signal(&self) -> (s: Signal)
        ensures
            s == self@.signal,
    {
        self.signal
    }

    /// How many per-variant overrides the policy holds.
    pub(crate) fn override_count(&self) -> (n: usize)
        ensures
            n == self@.overrides.len(),
    {
        self.per_variant.len()
    }

    /// The `i`-th per-variant override, in the order added.
    pub(crate) fn override_at(&self, i: usize) -> (o: (T, u64, u64))
        requires
            i < self@.overrides.len(),
        ensures
            o == self@.overrides[i as int],
    {
        self.per_variant[i]
    }
}

/// Gate `signal` against the pair `(act, review)`.
pub(crate) fn gate_at<T>(signal: u64, value: T, act: u64, review: u64) -> (v: Verdict<T>)
    ensures
        v == gate_with(signal, value, act, review),
{
    if ge(signal, act) {
        Verdict::Act(value)
    } else if ge(signal, review) {
        Verdict::Review(value)
    } else {
        Verdict::Escalate
    }
}

/// A larger signal never gets a lower-ranked verdict from one pair of
/// thresholds.
pub proof fn lemma_gate_monotone<T>(value: T, act: u64, review: u64, s1: u64, s2: u64)
    requires
        num_le(s1, s2),
    ensures
        gate_with(s1, value, act, review).rank_of() <= gate_with(s2, value, act, review).rank_of(),
{
}

/// The inclusive review band of a [`NoulPolicy`] and its act thresholds.
pub open spec fn valid_noul(yes: u64, no: u64, lo: u64, hi: u64) -> bool {
    &&& in_unit(yes)
    &&& in_unit(no)
    &&& in_unit(lo)
    &&& in_unit(hi)
    &&& num_le(no, yes)
    &&& num_le(lo, hi)
}

/// Gate a Noul probability `p`:
/// `p >= yes` → Act(true); `p <= no` → Act(false); `p` in `[lo, hi]` →
/// Review(p >= 0.5); otherwise Escalate.
pub open spec fn noul_gate(p: u64, yes: u64, no: u64, lo: u64, hi: u64) -> Verdict<bool> {
    if num_le(yes, p) {
        Verdict::Act(true)
    } else if num_le(p, no) {
        Verdict::Act(false)
    } else if num_le(lo, p) && num_le(p, hi) {
        Verdict::Review(num_le(HALF_BITS, p))
    } else {
        Verdict::Escalate
    }
}

/// A Noul review guesses yes exactly when `p >= 0.5`, whatever the band and
/// thresholds; a review only comes for a `p` inside the band and below the
/// yes threshold, and any `p` at or above the yes threshold acts on yes.
pub proof fn lemma_noul_review_guess(p: u64, yes: u64, no: u64, lo: u64, hi: u64)
    ensures
        noul_gate(p, yes, no, lo, hi) matches Verdict::Review(g) ==> g == num_le(HALF_BITS, p) && num_le(lo, p)
            && num_le(p, hi) && !num_le(yes, p),
        num_le(yes, p) ==> noul_gate(p, yes, no, lo, hi) == Verdict::Act(true),
        noul_gate(p, yes, no, lo, hi) matches Verdict::Act(x) ==> (x <==> num_le(yes, p)),
{
}

/// Gating policy for a Noul probability.
///
/// A probability at or above `yes_act` acts on yes; one at or below
/// `no_act` acts on no; one inside the review band is reviewed with the
/// guess `p >= 0.5`; any other escalates.
#[derive(Debug, PartialEq)]
pub struct NoulPolicy {
    yes_act: u64,
    no_act: u64,
    review_lo: u64,
    review_hi: u64,
}

impl Clone for NoulPolicy {
    fn clone(&self) -> (c: Self)
        ensures
            c == *self,
    {
        proof {
            use_type_invariant(self);
        }
        NoulPolicy {
            yes_act: self.yes_act,
            no_act: self.no_act,
            review_lo: self.review_lo,
            review_hi: self.review_hi,
        }
    }
}

impl NoulPolicy {
    #[verifier::type_invariant]
    closed spec fn inv(self) -> bool {
        valid_noul(self.yes_act, self.no_act, self.review_lo, self.review_hi)
    }

    /// Act-yes threshold.
    pub closed spec fn yes(self) -> u64 {
        self.yes_act
    }

    /// Act-no threshold.
    pub closed spec fn no(self) -> u64 {
        self.no_act
    }

    /// Inclusive review band.
    pub closed spec fn band(self) -> (u64, u64) {
        (self.review_lo, self.review_hi)
    }

    /// The verdict this policy gives for `p`.
    pub open spec fn verdict_of(self, p: u64) -> Verdict<bool> {
        noul_gate(p, self.yes(), self.no(), self.band().0, self.band().1)
    }


    /// Construct a policy. Every value must lie in `[0, 1]`, with
    /// `yes_act >= no_act` and `review_lo <= review_hi`.
    pub fn new(yes_act: u64, no_act: u64, review_lo: u64, review_hi: u64) -> (p: Self)
        requires
            valid_noul(yes_act, no_act, review_lo, review_hi),
        ensures
            p.yes() == yes_act,
            p.no() == no_act,
            p.band() == (review_lo, review_hi),
    {
        match Self::try_new(yes_act, no_act, review_lo, review_hi) {
            Ok(p) => p,
            Err(_) => {
                proof {
                    assert(false);
                }
                NoulPolicy { yes_act: ONE_BITS, no_act: ZERO_BITS, review_lo: ZERO_BITS, review_hi: ZERO_BITS }
            },
        }
    }

    /// Fallible [`NoulPolicy::new`]. Checks, in order: each value in
    /// `[0, 1]`, then `yes_act >= no_act`, then `review_lo <= review_hi`.
    pub fn try_new(yes_act: u64, no_act: u64, review_lo: u64, review_hi: u64) -> (r: Result<
        Self,
        PolicyError,
    >)
        ensures
            valid_noul(yes_act, no_act, review_lo, review_hi) <==> r is Ok,
            r matches Ok(p) ==> p.yes() == yes_act && p.no() == no_act && p.band() == (
                review_lo,
                review_hi,
            ),
            !in_unit(yes_act) ==> r == Err::<Self, PolicyError>(
                PolicyError::OutOfUnitInterval(yes_act),
            ),
            in_unit(yes_act) && !in_unit(no_act) ==> r == Err::<Self, PolicyError>(
                PolicyError::OutOfUnitInterval(no_act),
            ),
            in_unit(yes_act) && in_unit(no_act) && !in_unit(review_lo) ==> r == Err::<
                Self,
                PolicyError,
            >(PolicyError::OutOfUnitInterval(review_lo)),
            in_unit(yes_act) && in_unit(no_act) && in_unit(review_lo) && !in_unit(review_hi) ==> r
                == Err::<Self, PolicyError>(PolicyError::OutOfUnitInterval(review_hi)),
            in_unit(yes_act) && in_unit(no_act) && in_unit(review_lo) && in_unit(review_hi)
                && num_lt(yes_act, no_act) ==> r == Err::<Self, PolicyError>(
                PolicyError::YesBelowNo { yes: yes_act, no: no_act },
            ),
            in_unit(yes_act) && in_unit(no_act) && in_unit(review_lo) && in_unit(review_hi)
                && num_le(no_act, yes_act) && num_lt(review_hi, review_lo) ==> r == Err::<
                Self,
                PolicyError,
            >(PolicyError::InvalidReviewBand { lo: review_lo, hi: review_hi }),
    {
        let yes_act = match check_unit(yes_act) {
            Ok(t) => t,
            Err(e) => return Err(e),
        };
        let no_act = match check_unit(no_act) {
            Ok(t) => t,
            Err(e) => return Err(e),
        };
        let review_lo = match check_unit(review_lo) {
            Ok(t) => t,
            Err(e) => return Err(e),
        };
        let review_hi = match check_unit(review_hi) {
            Ok(t) => t,
            Err(e) => return Err(e),
        };
        if lt(yes_act, no_act) {
            return Err(PolicyError::YesBelowNo { yes: yes_act, no: no_act });
        }
        if lt(review_hi, review_lo) {
            return Err(PolicyError::InvalidReviewBand { lo: review_lo, hi: review_hi });
        }
        Ok(NoulPolicy { yes_act, no_act, review_lo, review_hi })
    }

    /// Act-yes threshold.
    pub fn yes_act(&self) -> (t: u64)
        ensures
            t == self.yes(),
    {
        self.yes_act
    }

    /// Act-no threshold.
    pub fn no_act(&self) -> (t: u64)
        ensures
            t == self.no(),
    {
        self.no_act
    }

    /// Inclusive review band.
    pub fn review_band(&self) -> (b: (u64, u64))
        ensures
            b == self.band(),
    {
        (self.review_lo, self.review_hi)
    }

    /// Gate the probability `p` (see the type's rules).
    pub fn verdict(&self, p: u64) -> (v: Verdict<bool>)
        ensures
            v == self.verdict_of(p),
    {
        if ge(p, self.yes_act) {
            Verdict::Act(true)
        } else if le(p, self.no_act) {
            Verdict::Act(false)
        } else if ge(p, self.review_lo) && le(p, self.review_hi) {
            Verdict::Review(ge(p, HALF_BITS))
        } else {
            Verdict::Escalate
        }
    }
}

} // verus!
