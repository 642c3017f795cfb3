//! Typed answers: [`ChoiceAnswer`], [`ScoreAnswer`], [`NoulAnswer`].
//!
//! Probabilities and confidences are binary64 bit patterns.
use serde_json::Value;
use vstd::prelude::*;

use crate::binary64::{
    clamped_round, finite, stands_for_whole, ge, gt, is_finite, is_nan, num_le, num_lt, round_clamped, whole_number,
    HALF_BITS, INFINITY_BITS, NEG_INFINITY_BITS, ONE_BITS, ZERO_BITS,
};
use crate::decode::{answer_for, in_range, type_name_of, wire_type_name, DecodeError, RANGE_LOW_BITS};
use crate::maps::{answer_entries, has_key, lookup, prob_entries, probs_get};
use crate::policy::{gate_at, gate_with, NoulPolicy, Policy, PolicyView, Signal, Verdict};
use crate::text::{decimal, decimal_of};
use crate::traits::{labelled, lemma_label_round_trip, ChoiceQuestion, ScoreQuestion};
use crate::wire::labels_distinct;
use std::marker::PhantomData;
use crate::wire::{WireAnswer, WireResponse};
use indexmap::IndexMap;

verus! {

/// Token usage reported by the backend.
#[derive(Debug, PartialEq, Eq)]
pub struct Usage {
    /// Prompt / input tokens.
    pub input_tokens: u64,
    /// Completion / output tokens.
    pub output_tokens: u64,
}

impl Clone for Usage {
    fn clone(&self) -> (u: Self)
        ensures
            u == *self,
    {
        Usage { input_tokens: self.input_tokens, output_tokens: self.output_tokens }
    }
}

impl Default for Usage {
    fn default() -> (u: Self)
        ensures
            u.input_tokens == 0 && u.output_tokens == 0,
    {
        Usage { input_tokens: 0, output_tokens: 0 }
    }
}

/// `x` clipped to the `u32` range, as saturating additions leave it.
pub open spec fn saturate(x: int) -> u32 {
    if x > u32::MAX {
        u32::MAX
    } else {
        x as u32
    }
}

/// Per-request metadata attached to a generated answers struct.
#[derive(Debug, PartialEq)]
pub struct AnswerMeta {
    /// Model that produced the answers.
    pub model: String,
    /// Token usage, when present.
    pub usage: Option<Usage>,
    /// Backend request id, when present.
    pub request_id: Option<String>,
    /// Count of missing probability labels and renormalizations applied while decoding.
    pub normalization_events: u32,
    raw: Option<Value>,
}

fn clone_usage(u: &Option<Usage>) -> (r: Option<Usage>)
    ensures
        r == *u,
{
    match u {
        Some(x) => Some(x.clone()),
        None => None,
    }
}

fn clone_text(s: &Option<String>) -> (r: Option<String>)
    ensures
        r == *s,
{
    match s {
        Some(x) => Some(x.clone()),
        None => None,
    }
}

/// What an [`AnswerMeta`] holds.
pub struct AnswerMetaView {
    /// Model name.
    pub model: Seq<char>,
    /// Token usage.
    pub usage: Option<Usage>,
    /// Backend request id.
    pub request_id: Option<Seq<char>>,
    /// Missing-label and renormalization count.
    pub normalization_events: u32,
    /// Retained JSON copy of the response.
    pub raw: Option<Value>,
}

/// The characters of an optional string.
pub open spec fn text_view(s: Option<String>) -> Option<Seq<char>> {
    match s {
        Some(t) => Some(t@),
        None => None,
    }
}

impl View for AnswerMeta {
    type V = AnswerMetaView;

    closed spec fn view(&self) -> AnswerMetaView {
        AnswerMetaView {
            model: self.model@,
            usage: self.usage,
            request_id: text_view(self.request_id),
            normalization_events: self.normalization_events,
            raw: self.raw,
        }
    }
}

impl AnswerMeta {

    /// Build metadata from a response. `raw` is the JSON copy of the
    /// response kept for audit (serialised by the caller).
    pub fn from_response(resp: &WireResponse, raw: Option<Value>) -> (m: Self)
        ensures
            m@.model == resp.model@,
            m@.usage == resp.usage,
            m@.request_id == text_view(resp.request_id),
            m@.normalization_events == 0,
            m@.raw == raw,
    {
        AnswerMeta {
            model: resp.model.clone(),
            usage: clone_usage(&resp.usage),
            request_id: clone_text(&resp.request_id),
            normalization_events: 0,
            raw,
        }
    }

    /// Raw JSON of the response, when it was kept.
    pub fn raw(&self) -> (r: Option<&Value>)
        ensures
            r is Some <==> self@.raw is Some,
            r matches Some(v) ==> self@.raw == Some(*v),
    {
        match &self.raw {
            Some(v) => Some(v),
            None => None,
        }
    }
}

/// A decoded Noul answer.
#[derive(Debug, PartialEq)]
pub struct NoulAnswer {
    p: u64,
}

impl Clone for NoulAnswer {
    fn clone(&self) -> (c: Self)
        ensures
            c == *self,
    {
        NoulAnswer { p: self.p }
    }
}

/// `p` is an accepted Noul probability: within `[0, 1]`.
pub open spec fn noul_in_range(p: u64) -> bool {
    num_le(ZERO_BITS, p) && num_le(p, ONE_BITS)
}

impl NoulAnswer {
    /// The probability held.
    pub closed spec fn prob(self) -> u64 {
        self.p
    }

    /// Probability the proposition is true.
    pub fn p(&self) -> (r: u64)
        ensures
            r == self.prob(),
    {
        self.p
    }

    /// `true` when `p >= 0.5`.
    pub fn is_likely(&self) -> (r: bool)
        ensures
            r == num_le(HALF_BITS, self.prob()),
    {
        ge(self.p, HALF_BITS)
    }

    /// Gate this answer with a [`NoulPolicy`].
    pub fn gate(&self, policy: &NoulPolicy) -> (v: Verdict<bool>)
        ensures
            v == policy.verdict_of(self.prob()),
    {
        policy.verdict(self.p)
    }

    /// Construct a noul answer. Returns [`DecodeError::OutOfRange`] (keyed
    /// `"noul"`) if `p` is outside `[0, 1]`.
    pub fn from_p(p: u64) -> (r: Result<Self, DecodeError>)
        ensures
            noul_in_range(p) <==> r is Ok,
            r matches Ok(a) ==> a.prob() == p,
            r matches Err(e) ==> e matches DecodeError::OutOfRange { key, value, min, max } && key@
                == "noul"@ && value == p && min == ZERO_BITS && max == ONE_BITS,
    {
        Self::checked("noul", p)
    }

    /// Decode from a [`WireResponse`].
    pub fn decode(key: &str, resp: &WireResponse, meta: &mut AnswerMeta) -> (r: Result<
        Self,
        DecodeError,
    >)
        ensures
            *final(meta) == *old(meta),
            !has_key(answer_entries(resp.answers), key@) ==> (r matches Err(
                DecodeError::MissingAnswer { key: k },
            ) && k@ == key@),
            has_key(answer_entries(resp.answers), key@) ==> match lookup(
                answer_entries(resp.answers),
                key@,
            ).unwrap() {
                WireAnswer::Noul { noul } => {
                    &&& noul_in_range(noul) <==> r is Ok
                    &&& r matches Ok(a) ==> a.prob() == noul
                    &&& r matches Err(e) ==> e matches DecodeError::OutOfRange {
                        key: k,
                        value,
                        min,
                        max,
                    } && k@ == key@ && value == noul && min == ZERO_BITS && max == ONE_BITS
                },
                other => r matches Err(DecodeError::WrongType { key: k, expected, actual })
                    && k@ == key@ && expected == "noul" && actual == type_name_of(other),
            },
    {
        let answer = match answer_for(key, resp) {
            Ok(a) => a,
            Err(e) => return Err(e),
        };
        match answer {
            WireAnswer::Noul { noul } => Self::checked(key, *noul),
            other => Err(DecodeError::wrong_type(key, "noul", wire_type_name(other))),
        }
    }

    fn checked(key: &str, p: u64) -> (r: Result<Self, DecodeError>)
        ensures
            noul_in_range(p) <==> r is Ok,
            r matches Ok(a) ==> a.prob() == p,
            r matches Err(e) ==> e matches DecodeError::OutOfRange { key: k, value, min, max } && k@
                == key@ && value == p && min == ZERO_BITS && max == ONE_BITS,
    {
        if !in_range(p, ZERO_BITS, ONE_BITS) {
            return Err(DecodeError::OutOfRange { key: key.to_owned(), value: p, min: ZERO_BITS, max: ONE_BITS });
        }
        Ok(NoulAnswer { p })
    }
}

/// What a [`ChoiceAnswer`] holds.
pub struct ChoiceAnswerView<T> {
    /// Chosen variant.
    pub value: T,
    /// Probability per variant position.
    pub dist: Seq<u64>,
    /// API confidence.
    pub confidence: u64,
}

/// A decoded Choice answer.
#[derive(Debug, PartialEq)]
pub struct ChoiceAnswer<T: ChoiceQuestion> {
    value: T,
    dist: Vec<u64>,
    confidence: u64,
}

impl<T: ChoiceQuestion> View for ChoiceAnswer<T> {
    type V = ChoiceAnswerView<T>;

    closed spec fn view(&self) -> ChoiceAnswerView<T> {
        ChoiceAnswerView { value: self.value, dist: self.dist@, confidence: self.confidence }
    }
}

/// Probability recorded for the variant at `index`, 0 when there is none.
pub open spec fn prob_at(dist: Seq<u64>, index: int) -> u64 {
    if 0 <= index < dist.len() {
        dist[index]
    } else {
        ZERO_BITS
    }
}

/// Distribution in variant order: each variant's probability from the
/// wire map, 0 where its label is missing.
pub open spec fn choice_dist<T: ChoiceQuestion>(vs: Seq<T>, probs: Seq<(Seq<char>, u64)>) -> Seq<
    u64,
> {
    vs.map_values(
        |v: T|
            match lookup(probs, v.label_of()) {
                Some(p) => p,
                None => ZERO_BITS,
            },
    )
}

/// How many of `vs` have no probability in `probs`.
pub open spec fn missing_labels<T: ChoiceQuestion>(vs: Seq<T>, probs: Seq<(Seq<char>, u64)>) -> nat
    decreases vs.len(),
{
    if vs.len() == 0 {
        0
    } else {
        missing_labels(vs.drop_last(), probs) + if has_key(probs, vs.last().label_of()) {
            0nat
        } else {
            1nat
        }
    }
}

/// Top-1 and top-2 probabilities as the scan of `dist` finds them, both
/// starting from 0: a value above the current top moves it down, a value
/// between the two replaces the second.
pub open spec fn top_two_of(dist: Seq<u64>) -> (u64, u64)
    decreases dist.len(),
{
    if dist.len() == 0 {
        (ZERO_BITS, ZERO_BITS)
    } else {
        let (t1, t2) = top_two_of(dist.drop_last());
        let p = dist.last();
        if num_lt(t1, p) {
            (p, t1)
        } else if num_lt(t2, p) {
            (t1, p)
        } else {
            (t1, t2)
        }
    }
}

/// The two tops of a distribution are its largest and second-largest
/// entries, counting from 0: the first is at least every entry; of any two
/// different entries, at least one is at most the second (so only one entry
/// can exceed it); the first is 0 or an entry, and the second is 0 or an
/// entry at another position than one holding the first.
pub proof fn lemma_top_two_ranks(dist: Seq<u64>)
    ensures
        ({
            let (t1, t2) = top_two_of(dist);
            &&& num_le(ZERO_BITS, t2) && num_le(t2, t1)
            &&& forall|i: int| 0 <= i < dist.len() && !is_nan(dist[i]) ==> num_le(#[trigger] dist[i], t1)
            &&& forall|i: int, j: int|
                0 <= i < dist.len() && 0 <= j < dist.len() && i != j && !is_nan(dist[i]) && !is_nan(dist[j])
                    ==> num_le(#[trigger] dist[i], t2) || num_le(#[trigger] dist[j], t2)
            &&& t1 == ZERO_BITS || exists|i: int| 0 <= i < dist.len() && #[trigger] dist[i] == t1
            &&& t2 == ZERO_BITS || exists|i: int, j: int|
                0 <= i < dist.len() && 0 <= j < dist.len() && i != j && #[trigger] dist[i] == t1
                    && #[trigger] dist[j] == t2
        }),
    decreases dist.len(),
{
    if dist.len() > 0 {
        let prev = dist.drop_last();
        let n = dist.len() - 1;
        let p = dist[n];
        lemma_top_two_ranks(prev);
        let (a1, a2) = top_two_of(prev);
        let (t1, t2) = top_two_of(dist);
        assert(dist.last() == p);
        assert forall|i: int| 0 <= i < n implies #[trigger] dist[i] == prev[i] by {}
        if num_lt(a1, p) {
            assert((t1, t2) == (p, a1));
            assert forall|i: int| 0 <= i < dist.len() && !is_nan(dist[i]) implies num_le(#[trigger] dist[i], t1) by {
                if i < n {
                    assert(prev[i] == dist[i]);
                }
            }
            assert forall|i: int, j: int|
                0 <= i < dist.len() && 0 <= j < dist.len() && i != j && !is_nan(dist[i]) && !is_nan(dist[j])
                    implies num_le(#[trigger] dist[i], t2) || num_le(#[trigger] dist[j], t2) by {
                if i < n && j < n {
                    assert(prev[i] == dist[i] && prev[j] == dist[j]);
                } else if i < n {
                    assert(prev[i] == dist[i]);
                } else {
                    assert(prev[j] == dist[j]);
                }
            }
            if a1 != ZERO_BITS {
                let k = choose|k: int| 0 <= k < prev.len() && #[trigger] prev[k] == a1;
                assert(dist[n] == t1 && dist[k] == t2);
            }
        } else if num_lt(a2, p) {
            assert((t1, t2) == (a1, p));
            assert forall|i: int| 0 <= i < dist.len() && !is_nan(dist[i]) implies num_le(#[trigger] dist[i], t1) by {
                if i < n {
                    assert(prev[i] == dist[i]);
                }
            }
            assert forall|i: int, j: int|
                0 <= i < dist.len() && 0 <= j < dist.len() && i != j && !is_nan(dist[i]) && !is_nan(dist[j])
                    implies num_le(#[trigger] dist[i], t2) || num_le(#[trigger] dist[j], t2) by {
                if i < n && j < n {
                    assert(prev[i] == dist[i] && prev[j] == dist[j]);
                }
            }
            assert(a1 != ZERO_BITS);
            let k = choose|k: int| 0 <= k < prev.len() && #[trigger] prev[k] == a1;
            assert(dist[k] == t1 && dist[n] == t2);
        } else {
            assert((t1, t2) == (a1, a2));
            assert forall|i: int| 0 <= i < dist.len() && !is_nan(dist[i]) implies num_le(#[trigger] dist[i], t1) by {
                if i < n {
                    assert(prev[i] == dist[i]);
                }
            }
            assert forall|i: int, j: int|
                0 <= i < dist.len() && 0 <= j < dist.len() && i != j && !is_nan(dist[i]) && !is_nan(dist[j])
                    implies num_le(#[trigger] dist[i], t2) || num_le(#[trigger] dist[j], t2) by {
                if i < n && j < n {
                    assert(prev[i] == dist[i] && prev[j] == dist[j]);
                }
            }
            if a1 != ZERO_BITS {
                let k = choose|k: int| 0 <= k < prev.len() && #[trigger] prev[k] == a1;
                assert(dist[k] == t1);
            }
            if a2 != ZERO_BITS {
                let (k, l) = choose|k: int, l: int|
                    0 <= k < prev.len() && 0 <= l < prev.len() && k != l && #[trigger] prev[k] == a1
                        && #[trigger] prev[l] == a2;
                assert(dist[k] == t1 && dist[l] == t2);
            }
        }
    }
}

/// Top-1 and top-2 of `dist` by the same scan (shared by Choice and Score).
pub fn top_two(dist: &Vec<u64>) -> (r: (u64, u64))
    ensures
        r == top_two_of(dist@),
        num_le(r.1, r.0),
        num_le(ZERO_BITS, r.1),
        forall|i: int| 0 <= i < dist@.len() && !is_nan(dist@[i]) ==> num_le(#[trigger] dist@[i], r.0),
{
    let mut top1: u64 = ZERO_BITS;
    let mut top2: u64 = ZERO_BITS;
    let n = dist.len();
    let mut i: usize = 0;
    while i < n
        invariant
            n == dist@.len(),
            0 <= i <= n,
            (top1, top2) == top_two_of(dist@.take(i as int)),
            num_le(top2, top1),
            num_le(ZERO_BITS, top2),
            forall|j: int| 0 <= j < i && !is_nan(dist@[j]) ==> num_le(#[trigger] dist@[j], top1),
        decreases n - i,
    {
        let p = dist[i];
        proof {
            assert(dist@.take(i + 1).drop_last() =~= dist@.take(i as int));
            assert(dist@.take(i + 1).last() == p);
        }
        if gt(p, top1) {
            top2 = top1;
            top1 = p;
        } else if gt(p, top2) {
            top2 = p;
        }
        i = i + 1;
    }
    proof {
        assert(dist@.take(n as int) =~= dist@);
    }
    (top1, top2)
}

impl<T: ChoiceQuestion> ChoiceAnswer<T> {
    /// Chosen variant (the wire `choice` label).
    pub fn value(&self) -> (v: T)
        ensures
            v == self@.value,
    {
        self.value
    }

    /// Probability assigned to `v`. Missing labels decode as `0.0`.
    pub fn prob(&self, v: T) -> (p: u64)
        ensures
            p == prob_at(self@.dist, v.index_of()),
            0 <= v.index_of() < T::variants_of().len() && T::variants_of()[v.index_of()] == v,
    {
        let i = v.index();
        if i < self.dist.len() {
            self.dist[i]
        } else {
            ZERO_BITS
        }
    }

    /// Distribution in variant-declaration order.
    pub fn distribution(&self) -> (d: Vec<(T, u64)>)
        ensures
            d@.len() == if T::variants_of().len() < self@.dist.len() {
                T::variants_of().len()
            } else {
                self@.dist.len()
            },
            forall|i: int|
                0 <= i < d@.len() ==> #[trigger] d@[i] == (T::variants_of()[i], self@.dist[i]),
    {
        let variants = T::variants();
        let mut out: Vec<(T, u64)> = Vec::new();
        let mut i: usize = 0;
        while i < variants.len() && i < self.dist.len()
            invariant
                variants@ == T::variants_of(),
                0 <= i <= variants@.len(),
                i <= self.dist@.len(),
                out@.len() == i,
                forall|j: int| 0 <= j < i ==> #[trigger] out@[j] == (variants@[j], self.dist@[j]),
            decreases variants@.len() - i,
        {
            out.push((variants[i], self.dist[i]));
            i = i + 1;
        }
        out
    }

    /// API confidence.
    pub fn confidence(&self) -> (c: u64)
        ensures
            c == self@.confidence,
    {
        self.confidence
    }

    /// Top-1 and top-2 probabilities of the distribution, from which the
    /// margin (top-1 minus top-2) is taken.
    pub fn top_two(&self) -> (r: (u64, u64))
        ensures
            r == top_two_of(self@.dist),
    {
        top_two(&self.dist)
    }

    /// Construct an answer from a chosen variant, a distribution, and
    /// confidence. Each pair sets the probability of its variant (a later
    /// pair for the same variant wins); variants with no pair get 0.
    pub fn from_distribution(value: T, dist: Vec<(T, u64)>, confidence: u64) -> (a: Self)
        ensures
            a@.value == value,
            a@.confidence == confidence,
            a@.dist == assign_probs(Seq::new(T::variants_of().len(), |i: int| ZERO_BITS), dist@),
            a@.dist.len() == T::variants_of().len(),
            forall|k: int|
                0 <= k < T::variants_of().len() ==> #[trigger] a@.dist[k] == last_prob(
                    dist@,
                    T::variants_of()[k],
                ),
    {
        let all = T::variants();
        let n = all.len();
        let mut values: Vec<u64> = Vec::new();
        let mut k: usize = 0;
        while k < n
            invariant
                0 <= k <= n,
                n == T::variants_of().len(),
                values@ =~= Seq::new(k as nat, |i: int| ZERO_BITS),
            decreases n - k,
        {
            values.push(ZERO_BITS);
            k = k + 1;
        }
        let ghost base = values@;
        let m = dist.len();
        let mut j: usize = 0;
        while j < m
            invariant
                m == dist@.len(),
                0 <= j <= m,
                base == Seq::new(T::variants_of().len(), |i: int| ZERO_BITS),
                values@ == assign_probs(base, dist@.take(j as int)),
                T::variants_of().no_duplicates(),
                forall|t: int|
                    0 <= t < j ==> 0 <= (#[trigger] dist@[t]).0.index_of() < T::variants_of().len()
                        && T::variants_of()[dist@[t].0.index_of()] == dist@[t].0,
            decreases m - j,
        {
            let (variant, p) = dist[j];
            let idx = variant.index();
            proof {
                assert(dist@.take(j + 1).drop_last() =~= dist@.take(j as int));
                assert(dist@.take(j + 1).last() == dist@[j as int]);
                lemma_assign_len(base, dist@.take(j as int));
            }
            if idx < values.len() {
                values.set(idx, p);
            }
            j = j + 1;
        }
        proof {
            assert(dist@.take(m as int) =~= dist@);
            lemma_assign_len(base, dist@);
            assert forall|k: int| 0 <= k < T::variants_of().len() implies #[trigger] values@[k] == last_prob(
                dist@,
                T::variants_of()[k],
            ) by {
                lemma_assign_last(base, dist@, k);
            }
        }
        ChoiceAnswer { value, dist: values, confidence }
    }

    /// Decode from a [`WireResponse`]. The distribution is assembled in
    /// variant order as sent (no rescaling); each variant whose label has no
    /// probability is counted in `meta.normalization_events`.
    pub fn decode(key: &str, resp: &WireResponse, meta: &mut AnswerMeta) -> (r: Result<
        Self,
        DecodeError,
    >)
        ensures
            !has_key(answer_entries(resp.answers), key@) ==> (r matches Err(
                DecodeError::MissingAnswer { key: k },
            ) && k@ == key@),
            has_key(answer_entries(resp.answers), key@) ==> match lookup(
                answer_entries(resp.answers),
                key@,
            ).unwrap() {
                WireAnswer::Choice { choice, probabilities, confidence } => choice_decoded::<T>(
                    key@,
                    choice@,
                    prob_entries(probabilities),
                    confidence,
                    *old(meta),
                    *final(meta),
                    r,
                ),
                other => r matches Err(DecodeError::WrongType { key: k, expected, actual })
                    && k@ == key@ && expected == "choice" && actual == type_name_of(other),
            },
            r is Err ==> *final(meta) == *old(meta),
    {
        let answer = match answer_for(key, resp) {
            Ok(a) => a,
            Err(e) => return Err(e),
        };
        match answer {
            WireAnswer::Choice { choice, probabilities, confidence } => Self::from_wire(
                key,
                choice.as_str(),
                probabilities,
                *confidence,
                meta,
            ),
            other => Err(DecodeError::wrong_type(key, "choice", wire_type_name(other))),
        }
    }

    fn from_wire(
        key: &str,
        choice: &str,
        probabilities: &IndexMap<String, u64>,
        confidence: u64,
        meta: &mut AnswerMeta,
    ) -> (r: Result<Self, DecodeError>)
        ensures
            choice_decoded::<T>(
                key@,
                choice@,
                prob_entries(*probabilities),
                confidence,
                *old(meta),
                *final(meta),
                r,
            ),
            r is Err ==> *final(meta) == *old(meta),
    {
        let value = match T::from_label(choice) {
            Some(v) => v,
            None => {
                return Err(DecodeError::UnknownLabel { key: key.to_owned(), label: choice.to_owned() });
            },
        };
        let ghost probs = prob_entries(*probabilities);
        let ghost start = meta@.normalization_events;
        let variants = T::variants();
        let n = variants.len();
        let mut dist: Vec<u64> = Vec::new();
        let mut i: usize = 0;
        while i < n
            invariant
                n == variants@.len(),
                variants@ == T::variants_of(),
                probs == prob_entries(*probabilities),
                0 <= i <= n,
                dist@ == choice_dist(variants@.take(i as int), probs),
                meta@ == (AnswerMetaView {
                    normalization_events: saturate(start + missing_labels(variants@.take(i as int), probs)),
                    ..old(meta)@
                }),
            decreases n - i,
        {
            let ghost before = variants@.take(i as int);
            proof {
                assert(variants@.take(i + 1).drop_last() =~= before);
                assert(variants@.take(i + 1).last() == variants@[i as int]);
            }
            match probs_get(probabilities, variants[i].label()) {
                Some(p) => {
                    dist.push(p);
                },
                None => {
                    dist.push(ZERO_BITS);
                    meta.normalization_events = meta.normalization_events.saturating_add(1);
                },
            }
            proof {
                assert(dist@ =~= choice_dist(variants@.take(i + 1), probs));
            }
            i = i + 1;
        }
        proof {
            assert(variants@.take(n as int) =~= variants@);
        }
        Ok(ChoiceAnswer { value, dist, confidence })
    }
}

/// `dist` with each `(variant, p)` pair written at the variant's index, in
/// order (indices outside `dist` are skipped).
pub open spec fn assign_probs<T: ChoiceQuestion>(dist: Seq<u64>, pairs: Seq<(T, u64)>) -> Seq<u64>
    decreases pairs.len(),
{
    if pairs.len() == 0 {
        dist
    } else {
        let prev = assign_probs(dist, pairs.drop_last());
        let idx = pairs.last().0.index_of();
        if 0 <= idx < prev.len() {
            prev.update(idx, pairs.last().1)
        } else {
            prev
        }
    }
}

proof fn lemma_assign_len<T: ChoiceQuestion>(dist: Seq<u64>, pairs: Seq<(T, u64)>)
    ensures
        assign_probs(dist, pairs).len() == dist.len(),
    decreases pairs.len(),
{
    if pairs.len() > 0 {
        lemma_assign_len(dist, pairs.drop_last());
    }
}

/// The probability of the last pair naming `v`, or 0 when none does.
pub open spec fn last_prob<T>(pairs: Seq<(T, u64)>, v: T) -> u64
    decreases pairs.len(),
{
    if pairs.len() == 0 {
        ZERO_BITS
    } else if pairs.last().0 == v {
        pairs.last().1
    } else {
        last_prob(pairs.drop_last(), v)
    }
}

proof fn lemma_assign_last<T: ChoiceQuestion>(base: Seq<u64>, pairs: Seq<(T, u64)>, k: int)
    requires
        base.len() == T::variants_of().len(),
        forall|i: int| 0 <= i < base.len() ==> base[i] == ZERO_BITS,
        T::variants_of().no_duplicates(),
        forall|t: int|
            0 <= t < pairs.len() ==> 0 <= (#[trigger] pairs[t]).0.index_of() < T::variants_of().len()
                && T::variants_of()[pairs[t].0.index_of()] == pairs[t].0,
        0 <= k < T::variants_of().len(),
    ensures
        assign_probs(base, pairs)[k] == last_prob(pairs, T::variants_of()[k]),
    decreases pairs.len(),
{
    if pairs.len() > 0 {
        let rest = pairs.drop_last();
        assert forall|t: int| 0 <= t < rest.len() implies 0 <= (#[trigger] rest[t]).0.index_of()
            < T::variants_of().len() && T::variants_of()[rest[t].0.index_of()] == rest[t].0 by {
            assert(rest[t] == pairs[t]);
        }
        lemma_assign_last(base, rest, k);
        lemma_assign_len(base, rest);
        let last = pairs[pairs.len() - 1];
        let idx = last.0.index_of();
        if idx != k && last.0 == T::variants_of()[k] {
            assert(T::variants_of()[idx] == T::variants_of()[k]);
        }
    }
}

/// Outcome of decoding a Choice answer with label `choice`, probability
/// entries `probs` and `confidence`, from metadata `before` to `after`:
/// an unknown label is an error that leaves the metadata alone; otherwise
/// the answer holds the labelled variant, the distribution in variant
/// order, the confidence, and the event count grows by the number of
/// variants whose label has no probability (saturating).
pub open spec fn choice_decoded<T: ChoiceQuestion>(
    key: Seq<char>,
    choice: Seq<char>,
    probs: Seq<(Seq<char>, u64)>,
    confidence: u64,
    before: AnswerMeta,
    after: AnswerMeta,
    r: Result<ChoiceAnswer<T>, DecodeError>,
) -> bool {
    match labelled::<T>(choice) {
        None => r matches Err(DecodeError::UnknownLabel { key: k, label: l }) && k@ == key && l@
            == choice && after == before,
        Some(v) => r matches Ok(a) && {
            &&& a@.value == v
            &&& a@.dist == choice_dist(T::variants_of(), probs)
            &&& a@.confidence == confidence
            &&& after@ == (AnswerMetaView {
                normalization_events: saturate(
                    before@.normalization_events + missing_labels(T::variants_of(), probs),
                ),
                ..before@
            })
        },
    }
}

/// What a Choice question sends comes back: when no two options of `T`
/// share a label, an answer naming option `i` by its label decodes to that
/// option, with its confidence, and each option's probability is the one
/// sent under that option's label (0 where none was sent).
pub proof fn lemma_choice_round_trip<T: ChoiceQuestion>(
    i: int,
    key: Seq<char>,
    probs: Seq<(Seq<char>, u64)>,
    confidence: u64,
    before: AnswerMeta,
    after: AnswerMeta,
    r: Result<ChoiceAnswer<T>, DecodeError>,
)
    requires
        labels_distinct::<T>(),
        0 <= i < T::variants_of().len(),
        choice_decoded::<T>(key, T::variants_of()[i].label_of(), probs, confidence, before, after, r),
    ensures
        r matches Ok(a) && a@.value == T::variants_of()[i] && a@.confidence == confidence,
        forall|j: int|
            0 <= j < T::variants_of().len() ==> #[trigger] r->Ok_0@.dist[j] == match lookup(
                probs,
                T::variants_of()[j].label_of(),
            ) {
                Some(p) => p,
                None => ZERO_BITS,
            },
{
    lemma_label_round_trip::<T>(i);
}

/// The thresholds of the first override whose variant has `value`'s
/// declaration index, if any.
pub open spec fn choice_override<T: ChoiceQuestion>(ovs: Seq<(T, u64, u64)>, value: T) -> Option<(u64, u64)>
    decreases ovs.len(),
{
    if ovs.len() == 0 {
        None
    } else if ChoiceQuestion::index_of(ovs[0].0) == ChoiceQuestion::index_of(value) {
        Some((ovs[0].1, ovs[0].2))
    } else {
        choice_override(ovs.drop_first(), value)
    }
}

/// The verdict of policy `p` on Choice value `value` for `signal`: the
/// thresholds of its first override for `value`'s variant, else the global
/// pair.
pub open spec fn choice_verdict<T: ChoiceQuestion>(p: PolicyView<T>, signal: u64, value: T) -> Verdict<T> {
    match choice_override(p.overrides, value) {
        Some((act, review)) => gate_with(signal, value, act, review),
        None => gate_with(signal, value, p.act, p.review),
    }
}

/// The thresholds of the first override whose level has `value`'s
/// declaration index, if any.
pub open spec fn score_override<T: ScoreQuestion>(ovs: Seq<(T, u64, u64)>, value: T) -> Option<(u64, u64)>
    decreases ovs.len(),
{
    if ovs.len() == 0 {
        None
    } else if ScoreQuestion::index_of(ovs[0].0) == ScoreQuestion::index_of(value) {
        Some((ovs[0].1, ovs[0].2))
    } else {
        score_override(ovs.drop_first(), value)
    }
}

/// The verdict of policy `p` on Score level `value` for `signal`.
pub open spec fn score_verdict<T: ScoreQuestion>(p: PolicyView<T>, signal: u64, value: T) -> Verdict<T> {
    match score_override(p.overrides, value) {
        Some((act, review)) => gate_with(signal, value, act, review),
        None => gate_with(signal, value, p.act, p.review),
    }
}

/// Gating a Choice value is monotone in the signal.
pub proof fn lemma_choice_verdict_monotone<T: ChoiceQuestion>(p: PolicyView<T>, value: T, s1: u64, s2: u64)
    requires
        num_le(s1, s2),
    ensures
        choice_verdict(p, s1, value).rank_of() <= choice_verdict(p, s2, value).rank_of(),
{
}

proof fn lemma_choice_override_push<T: ChoiceQuestion>(
    ovs: Seq<(T, u64, u64)>,
    v: T,
    act: u64,
    review: u64,
    value: T,
)
    ensures
        ChoiceQuestion::index_of(value) != ChoiceQuestion::index_of(v) ==> choice_override(
            ovs.push((v, act, review)),
            value,
        ) == choice_override(ovs, value),
        choice_override(ovs, value) is None && ChoiceQuestion::index_of(value) == ChoiceQuestion::index_of(v)
            ==> choice_override(ovs.push((v, act, review)), value) == Some((act, review)),
    decreases ovs.len(),
{
    if ovs.len() > 0 {
        assert(ovs.push((v, act, review)).drop_first() =~= ovs.drop_first().push((v, act, review)));
        lemma_choice_override_push(ovs.drop_first(), v, act, review, value);
    } else {
        assert(ovs.push((v, act, review)).drop_first() =~= ovs);
    }
}

/// Adding an override for `v` (as [`Policy::for_variant`] does) leaves the
/// verdict on every variant with another declaration index unchanged, and
/// gates `v`'s variant by the new pair unless an earlier override for it
/// stands.
pub proof fn lemma_choice_override_scoped<T: ChoiceQuestion>(
    p: PolicyView<T>,
    v: T,
    act: u64,
    review: u64,
    value: T,
    signal: u64,
)
    ensures
        ({
            let q = PolicyView { overrides: p.overrides.push((v, act, review)), ..p };
            &&& ChoiceQuestion::index_of(value) != ChoiceQuestion::index_of(v) ==> choice_verdict(
                q,
                signal,
                value,
            ) == choice_verdict(p, signal, value)
            &&& choice_override(p.overrides, v) is None ==> choice_verdict(q, signal, v) == gate_with(
                signal,
                v,
                act,
                review,
            )
        }),
{
    lemma_choice_override_push(p.overrides, v, act, review, value);
    lemma_choice_override_push(p.overrides, v, act, review, v);
}

proof fn lemma_score_override_push<T: ScoreQuestion>(
    ovs: Seq<(T, u64, u64)>,
    v: T,
    act: u64,
    review: u64,
    value: T,
)
    ensures
        ScoreQuestion::index_of(value) != ScoreQuestion::index_of(v) ==> score_override(
            ovs.push((v, act, review)),
            value,
        ) == score_override(ovs, value),
        score_override(ovs, value) is None && ScoreQuestion::index_of(value) == ScoreQuestion::index_of(v)
            ==> score_override(ovs.push((v, act, review)), value) == Some((act, review)),
    decreases ovs.len(),
{
    if ovs.len() > 0 {
        assert(ovs.push((v, act, review)).drop_first() =~= ovs.drop_first().push((v, act, review)));
        lemma_score_override_push(ovs.drop_first(), v, act, review, value);
    } else {
        assert(ovs.push((v, act, review)).drop_first() =~= ovs);
    }
}

/// Adding an override for `v` (as [`Policy::for_variant`] does) leaves the
/// verdict on every level with another declaration index unchanged, and
/// gates `v`'s level by the new pair unless an earlier override for it
/// stands.
pub proof fn lemma_score_override_scoped<T: ScoreQuestion>(
    p: PolicyView<T>,
    v: T,
    act: u64,
    review: u64,
    value: T,
    signal: u64,
)
    ensures
        ({
            let q = PolicyView { overrides: p.overrides.push((v, act, review)), ..p };
            &&& ScoreQuestion::index_of(value) != ScoreQuestion::index_of(v) ==> score_verdict(
                q,
                signal,
                value,
            ) == score_verdict(p, signal, value)
            &&& score_override(p.overrides, v) is None ==> score_verdict(q, signal, v) == gate_with(
                signal,
                v,
                act,
                review,
            )
        }),
{
    lemma_score_override_push(p.overrides, v, act, review, value);
    lemma_score_override_push(p.overrides, v, act, review, v);
}

/// Gating a Score level is monotone in the signal.
pub proof fn lemma_score_verdict_monotone<T: ScoreQuestion>(p: PolicyView<T>, value: T, s1: u64, s2: u64)
    requires
        num_le(s1, s2),
    ensures
        score_verdict(p, s1, value).rank_of() <= score_verdict(p, s2, value).rank_of(),
{
}

/// Which scalar a Choice answer is gated on: with TopProb, the probability
/// of its own value, so two answers with the same value and distribution
/// get the same verdict whatever their confidences; with Confidence, the
/// confidence; with Margin, the margin handed in.
pub proof fn lemma_choice_signal_kinds<T: ChoiceQuestion>(
    a: ChoiceAnswerView<T>,
    b: ChoiceAnswerView<T>,
    p: PolicyView<T>,
    margin: u64,
)
    ensures
        p.signal == Signal::TopProb ==> choice_verdict(p, choice_signal(a, p.signal, margin), a.value)
            == choice_verdict(p, prob_at(a.dist, a.value.index_of()), a.value),
        p.signal == Signal::TopProb && a.value == b.value && a.dist == b.dist ==> choice_verdict(
            p,
            choice_signal(a, p.signal, margin),
            a.value,
        ) == choice_verdict(p, choice_signal(b, p.signal, margin), b.value),
        p.signal == Signal::Confidence ==> choice_verdict(p, choice_signal(a, p.signal, margin), a.value)
            == choice_verdict(p, a.confidence, a.value),
        p.signal == Signal::Margin ==> choice_verdict(p, choice_signal(a, p.signal, margin), a.value)
            == choice_verdict(p, margin, a.value),
{
}

/// With a per-level distribution free of `+infinity`, the TopProb signal of
/// a Score answer is the largest per-level probability: at least every
/// level's probability, and one of them when some is finite.
pub proof fn lemma_score_top_prob_signal(a: ScoreAnswerView, margin: u64)
    requires
        a.dist is Some,
        forall|i: int| 0 <= i < a.dist.unwrap().len() ==> #[trigger] a.dist.unwrap()[i] != INFINITY_BITS,
    ensures
        forall|i: int|
            0 <= i < a.dist.unwrap().len() && !is_nan(a.dist.unwrap()[i]) ==> num_le(
                #[trigger] a.dist.unwrap()[i],
                score_signal(a, Signal::TopProb, margin),
            ),
        (exists|i: int| 0 <= i < a.dist.unwrap().len() && is_finite(#[trigger] a.dist.unwrap()[i])) ==> exists|
            k: int,
        | 0 <= k < a.dist.unwrap().len() && #[trigger] a.dist.unwrap()[k] == score_signal(a, Signal::TopProb, margin),
{
    lemma_top_of_is_max(a.dist.unwrap());
}

/// Thresholds of `policy` for Choice value `value`.
fn choice_thresholds<T: ChoiceQuestion + PartialEq>(policy: &Policy<T>, value: T) -> (r: (u64, u64))
    ensures
        r == match choice_override(policy@.overrides, value) {
            Some(pair) => pair,
            None => (policy@.act, policy@.review),
        },
{
    let n = policy.override_count();
    let k = value.index();
    let ghost ovs = policy@.overrides;
    let mut i: usize = 0;
    proof {
        assert(ovs.skip(0) =~= ovs);
    }
    while i < n
        invariant
            n == ovs.len(),
            ovs == policy@.overrides,
            k == ChoiceQuestion::index_of(value),
            0 <= i <= n,
            choice_override(ovs, value) == choice_override(ovs.skip(i as int), value),
        decreases n - i,
    {
        let o = policy.override_at(i);
        proof {
            assert(ovs.skip(i as int)[0] == o);
            assert(ovs.skip(i as int).drop_first() =~= ovs.skip(i + 1));
        }
        if o.0.index() == k {
            return (o.1, o.2);
        }
        i = i + 1;
    }
    (policy.act_threshold(), policy.review_threshold())
}

/// Thresholds of `policy` for Score level `value`.
fn score_thresholds<T: ScoreQuestion + PartialEq>(policy: &Policy<T>, value: T) -> (r: (u64, u64))
    ensures
        r == match score_override(policy@.overrides, value) {
            Some(pair) => pair,
            None => (policy@.act, policy@.review),
        },
{
    let n = policy.override_count();
    let k = value.index();
    let ghost ovs = policy@.overrides;
    let mut i: usize = 0;
    proof {
        assert(ovs.skip(0) =~= ovs);
    }
    while i < n
        invariant
            n == ovs.len(),
            ovs == policy@.overrides,
            k == ScoreQuestion::index_of(value),
            0 <= i <= n,
            score_override(ovs, value) == score_override(ovs.skip(i as int), value),
        decreases n - i,
    {
        let o = policy.override_at(i);
        proof {
            assert(ovs.skip(i as int)[0] == o);
            assert(ovs.skip(i as int).drop_first() =~= ovs.skip(i + 1));
        }
        if o.0.index() == k {
            return (o.1, o.2);
        }
        i = i + 1;
    }
    (policy.act_threshold(), policy.review_threshold())
}

impl<T: ChoiceQuestion + PartialEq> ChoiceAnswer<T> {
    /// Gate this answer with a [`Policy`]. The signal is the confidence,
    /// the probability of the chosen value, or `margin` (top-1 minus top-2
    /// of [`ChoiceAnswer::top_two`], a binary64 difference computed by the
    /// caller), as the policy selects. An override applies to the variant
    /// with its declaration index.
    pub fn gate(&self, policy: &Policy<T>, margin: u64) -> (v: Verdict<T>)
        ensures
            v == choice_verdict(policy@, choice_signal(self@, policy@.signal, margin), self@.value),
    {
        let signal = match policy.signal() {
            Signal::Confidence => self.confidence,
            Signal::TopProb => self.prob(self.value),
            Signal::Margin => margin,
        };
        let (act, review) = choice_thresholds(policy, self.value);
        gate_at(signal, self.value, act, review)
    }
}

/// The scalar a policy with signal kind `which` reads from a Choice answer.
pub open spec fn choice_signal<T: ChoiceQuestion>(a: ChoiceAnswerView<T>, which: Signal, margin: u64) -> u64 {
    match which {
        Signal::Confidence => a.confidence,
        Signal::TopProb => prob_at(a.dist, a.value.index_of()),
        Signal::Margin => margin,
    }
}

/// What a [`ScoreAnswer`] holds.
pub struct ScoreAnswerView {
    /// Probability-weighted score.
    pub expected: u64,
    /// Per-level probabilities, when the backend provided them.
    pub dist: Option<Seq<u64>>,
    /// API confidence.
    pub confidence: u64,
}

/// A decoded Score answer.
#[derive(Debug, PartialEq)]
pub struct ScoreAnswer<T: ScoreQuestion> {
    expected: u64,
    dist: Option<Vec<u64>>,
    confidence: u64,
    _ty: PhantomData<T>,
}

impl<T: ScoreQuestion> View for ScoreAnswer<T> {
    type V = ScoreAnswerView;

    closed spec fn view(&self) -> ScoreAnswerView {
        ScoreAnswerView {
            expected: self.expected,
            dist: match self.dist {
                Some(d) => Some(d@),
                None => None,
            },
            confidence: self.confidence,
        }
    }
}

/// The running maximum of `dist` from `-inf` (NaN never replaces it).
pub open spec fn max_scan(dist: Seq<u64>) -> u64
    decreases dist.len(),
{
    if dist.len() == 0 {
        NEG_INFINITY_BITS
    } else {
        let m = max_scan(dist.drop_last());
        if num_lt(m, dist.last()) {
            dist.last()
        } else {
            m
        }
    }
}

/// Largest probability of `dist`, 0 when that is not finite (empty, or
/// holding only NaN or infinities at the top).
pub open spec fn top_of(dist: Seq<u64>) -> u64 {
    if is_finite(max_scan(dist)) {
        max_scan(dist)
    } else {
        ZERO_BITS
    }
}

proof fn lemma_max_scan(dist: Seq<u64>)
    ensures
        !is_nan(max_scan(dist)),
        max_scan(dist) == NEG_INFINITY_BITS || exists|k: int| 0 <= k < dist.len() && #[trigger] dist[k]
            == max_scan(dist),
        forall|i: int| 0 <= i < dist.len() && !is_nan(dist[i]) ==> num_le(#[trigger] dist[i], max_scan(dist)),
    decreases dist.len(),
{
    if dist.len() > 0 {
        let prev = dist.drop_last();
        let n = dist.len() - 1;
        lemma_max_scan(prev);
        let m = max_scan(prev);
        assert(dist.last() == dist[n]);
        assert forall|i: int| 0 <= i < dist.len() && !is_nan(dist[i]) implies num_le(
            #[trigger] dist[i],
            max_scan(dist),
        ) by {
            if i < n {
                assert(prev[i] == dist[i]);
            }
        }
        if !num_lt(m, dist[n]) && m != NEG_INFINITY_BITS {
            let k = choose|k: int| 0 <= k < prev.len() && #[trigger] prev[k] == m;
            assert(dist[k] == m);
        }
    }
}

/// The top probability of a distribution with no `+infinity` is its
/// largest entry: it is at least every entry, and it is one of the entries
/// whenever some entry is finite (else it is 0).
pub proof fn lemma_top_of_is_max(dist: Seq<u64>)
    requires
        forall|i: int| 0 <= i < dist.len() ==> #[trigger] dist[i] != INFINITY_BITS,
    ensures
        forall|i: int| 0 <= i < dist.len() && !is_nan(dist[i]) ==> num_le(#[trigger] dist[i], top_of(dist)),
        (exists|i: int| 0 <= i < dist.len() && is_finite(#[trigger] dist[i])) ==> exists|k: int|
            0 <= k < dist.len() && #[trigger] dist[k] == top_of(dist),
        !(exists|i: int| 0 <= i < dist.len() && is_finite(#[trigger] dist[i])) ==> top_of(dist) == ZERO_BITS,
{
    lemma_max_scan(dist);
    let m = max_scan(dist);
    if !is_finite(m) && m != NEG_INFINITY_BITS {
        let k = choose|k: int| 0 <= k < dist.len() && #[trigger] dist[k] == m;
        assert(dist[k] != INFINITY_BITS);
    }
    if exists|i: int| 0 <= i < dist.len() && is_finite(#[trigger] dist[i]) {
        let i = choose|i: int| 0 <= i < dist.len() && is_finite(#[trigger] dist[i]);
        assert(num_le(dist[i], m));
    } else {
        if m != NEG_INFINITY_BITS {
            let k = choose|k: int| 0 <= k < dist.len() && #[trigger] dist[k] == m;
            assert(!is_finite(dist[k]));
        }
    }
}

/// Largest probability of `xs`, or 0 when that is not finite.
pub fn top_prob(xs: &Vec<u64>) -> (r: u64)
    ensures
        r == top_of(xs@),
{
    let mut m = NEG_INFINITY_BITS;
    let n = xs.len();
    let mut i: usize = 0;
    while i < n
        invariant
            n == xs@.len(),
            0 <= i <= n,
            m == max_scan(xs@.take(i as int)),
        decreases n - i,
    {
        proof {
            assert(xs@.take(i + 1).drop_last() =~= xs@.take(i as int));
            assert(xs@.take(i + 1).last() == xs@[i as int]);
        }
        if gt(xs[i], m) {
            m = xs[i];
        }
        i = i + 1;
    }
    proof {
        assert(xs@.take(n as int) =~= xs@);
    }
    if finite(m) {
        m
    } else {
        ZERO_BITS
    }
}

/// Index of the level nearest to the expected score `expected`, for `n`
/// levels: `round(expected)` clamped to `[0, n-1]`.
pub open spec fn nearest_index(expected: u64, n: nat) -> int {
    clamped_round(expected, n - 1)
}

/// Probability per level index: the wire entry keyed by the index's
/// decimal digits, 0 where it is missing.
pub open spec fn level_dist(n: nat, probs: Seq<(Seq<char>, u64)>) -> Seq<u64> {
    Seq::new(
        n,
        |i: int|
            match lookup(probs, decimal_of(i as nat)) {
                Some(p) => p,
                None => ZERO_BITS,
            },
    )
}

/// How many of the level keys `0..n` have no probability in `probs`.
pub open spec fn missing_levels(n: nat, probs: Seq<(Seq<char>, u64)>) -> nat
    decreases n,
{
    if n == 0 {
        0
    } else {
        missing_levels((n - 1) as nat, probs) + if has_key(probs, decimal_of((n - 1) as nat)) {
            0nat
        } else {
            1nat
        }
    }
}

/// Index of the last of `n` levels (0 when there are none).
pub open spec fn top_level(n: nat) -> int {
    if n == 0 {
        0
    } else {
        n - 1
    }
}

/// The scalar a policy with signal kind `which` reads from a Score answer:
/// with no per-level distribution, the confidence stands in for the top
/// probability and the margin.
pub open spec fn score_signal(a: ScoreAnswerView, which: Signal, margin: u64) -> u64 {
    match which {
        Signal::Confidence => a.confidence,
        Signal::TopProb => match a.dist {
            Some(d) => top_of(d),
            None => a.confidence,
        },
        Signal::Margin => match a.dist {
            Some(d) => margin,
            None => a.confidence,
        },
    }
}

/// Outcome of decoding a Score answer `score` (with `probs`, `confidence`)
/// for `n` levels, whose accepted range tops out at `upper`: an out-of-range
/// score is an error naming `[0, n-1]`; otherwise the answer holds the score,
/// the per-level distribution when one was sent, and the confidence, and
/// the event count grows by the missing level keys (saturating).
pub open spec fn score_decoded(
    key: Seq<char>,
    score: u64,
    probs: Option<Seq<(Seq<char>, u64)>>,
    confidence: u64,
    n: nat,
    upper: u64,
    before: AnswerMetaView,
    after: AnswerMetaView,
    r: Result<ScoreAnswerView, (Seq<char>, u64, u64)>,
) -> bool {
    if !(num_le(RANGE_LOW_BITS, score) && num_le(score, upper)) {
        r matches Err((k, value, min)) && k == key && value == score && min == ZERO_BITS && after
            == before
    } else {
        r matches Ok(a) && a.expected == score && a.confidence == confidence && match probs {
            None => a.dist is None && after == before,
            Some(p) => a.dist == Some(level_dist(n, p)) && after == (AnswerMetaView {
                normalization_events: saturate(before.normalization_events + missing_levels(n, p)),
                ..before
            }),
        }
    }
}

/// `decode` outcome seen through views.
pub open spec fn score_result_view<T: ScoreQuestion>(r: Result<ScoreAnswer<T>, DecodeError>) -> Result<
    ScoreAnswerView,
    (Seq<char>, u64, u64),
> {
    match r {
        Ok(a) => Ok(a@),
        Err(DecodeError::OutOfRange { key, value, min, .. }) => Err((key@, value, min)),
        Err(_) => Err((Seq::empty(), 0, 1)),
    }
}

impl<T: ScoreQuestion> ScoreAnswer<T> {
    /// Probability-weighted score (the wire `score` field).
    pub fn expected(&self) -> (e: u64)
        ensures
            e == self@.expected,
    {
        self.expected
    }

    /// API confidence.
    pub fn confidence(&self) -> (c: u64)
        ensures
            c == self@.confidence,
    {
        self.confidence
    }

    /// Nearest level: `round(expected)` clamped to `[0, n-1]`. The type must
    /// have at least one level (fewer than `2^53`).
    pub fn nearest(&self) -> (v: T)
        requires
            0 < T::levels_of().len() < 0x20_0000_0000_0000,
        ensures
            v == T::levels_of()[nearest_index(self@.expected, T::levels_of().len())],
    {
        let levels = T::levels();
        let max_idx = levels.len() - 1;
        let idx = round_clamped(self.expected, max_idx);
        match T::from_index(idx) {
            Some(v) => v,
            None => levels[0],
        }
    }

    /// Per-level distribution in declaration order, when provided.
    pub fn distribution(&self) -> (d: Option<Vec<(T, u64)>>)
        ensures
            d is Some <==> self@.dist is Some,
            d matches Some(v) ==> {
                let dist = self@.dist.unwrap();
                &&& v@.len() == if T::levels_of().len() < dist.len() {
                    T::levels_of().len()
                } else {
                    dist.len()
                }
                &&& forall|i: int|
                    0 <= i < v@.len() ==> #[trigger] v@[i] == (T::levels_of()[i], dist[i])
            },
    {
        let dist = match &self.dist {
            Some(d) => d,
            None => return None,
        };
        let levels = T::levels();
        let mut out: Vec<(T, u64)> = Vec::new();
        let mut i: usize = 0;
        while i < levels.len() && i < dist.len()
            invariant
                levels@ == T::levels_of(),
                0 <= i <= levels@.len(),
                i <= dist@.len(),
                out@.len() == i,
                forall|j: int| 0 <= j < i ==> #[trigger] out@[j] == (levels@[j], dist@[j]),
            decreases levels@.len() - i,
        {
            out.push((levels[i], dist[i]));
            i = i + 1;
        }
        Some(out)
    }

    /// Top-1 and top-2 probabilities of the per-level distribution, when
    /// provided (the margin is their difference).
    pub fn top_two(&self) -> (r: Option<(u64, u64)>)
        ensures
            r == match self@.dist {
                Some(d) => Some(top_two_of(d)),
                None => None,
            },
    {
        match &self.dist {
            Some(d) => Some(top_two(d)),
            None => None,
        }
    }

    /// This answer with its per-level distribution replaced by `dist`, in
    /// level order (used when the distribution is rescaled).
    pub fn with_distribution(self, dist: Vec<u64>) -> (a: Self)
        ensures
            a@ == (ScoreAnswerView { dist: Some(dist@), ..self@ }),
    {
        ScoreAnswer { expected: self.expected, dist: Some(dist), confidence: self.confidence, _ty: PhantomData }
    }

    /// Construct an answer from an expected score and confidence.
    pub fn from_expected(expected: u64, confidence: u64) -> (a: Self)
        ensures
            a@ == (ScoreAnswerView { expected, dist: None, confidence }),
    {
        ScoreAnswer { expected, dist: None, confidence, _ty: PhantomData }
    }

    /// Decode from a [`WireResponse`]. `upper` is the top of the accepted
    /// range, `(n - 1) + 1e-6` in binary64 for `n` levels, computed by the
    /// caller; it must be at least `n - 1`. The per-level distribution is
    /// taken as sent (no rescaling); missing level keys are counted in
    /// `meta.normalization_events`.
    pub fn decode(key: &str, resp: &WireResponse, meta: &mut AnswerMeta, upper: u64) -> (r: Result<
        Self,
        DecodeError,
    >)
        requires
            T::levels_of().len() < 0x20_0000_0000_0000,
            forall|w: u64| stands_for_whole(w, T::levels_of().len() - 1) ==> num_le(w, upper),
        ensures
            !has_key(answer_entries(resp.answers), key@) ==> (r matches Err(
                DecodeError::MissingAnswer { key: k },
            ) && k@ == key@),
            has_key(answer_entries(resp.answers), key@) ==> match lookup(
                answer_entries(resp.answers),
                key@,
            ).unwrap() {
                WireAnswer::Score { score, probabilities, confidence, .. } => score_decoded(
                    key@,
                    score,
                    match probabilities {
                        Some(p) => Some(prob_entries(p)),
                        None => None,
                    },
                    confidence,
                    T::levels_of().len(),
                    upper,
                    old(meta)@,
                    final(meta)@,
                    score_result_view(r),
                ) && (r matches Err(DecodeError::OutOfRange { max, .. }) ==> stands_for_whole(max, top_level(T::levels_of().len()))),
                other => r matches Err(DecodeError::WrongType { key: k, expected, actual })
                    && k@ == key@ && expected == "score" && actual == type_name_of(other),
            },
            r is Err ==> *final(meta) == *old(meta),
    {
        let answer = match answer_for(key, resp) {
            Ok(a) => a,
            Err(e) => return Err(e),
        };
        match answer {
            WireAnswer::Score { score, probabilities, confidence, .. } => {
                let probs = match probabilities {
                    Some(p) => Some(p),
                    None => None,
                };
                Self::from_wire(key, *score, probs, *confidence, meta, upper)
            },
            other => Err(DecodeError::wrong_type(key, "score", wire_type_name(other))),
        }
    }

    fn from_wire(
        key: &str,
        score: u64,
        probabilities: Option<&IndexMap<String, u64>>,
        confidence: u64,
        meta: &mut AnswerMeta,
        upper: u64,
    ) -> (r: Result<Self, DecodeError>)
        requires
            T::levels_of().len() < 0x20_0000_0000_0000,
        ensures
            score_decoded(
                key@,
                score,
                match probabilities {
                    Some(p) => Some(prob_entries(*p)),
                    None => None,
                },
                confidence,
                T::levels_of().len(),
                upper,
                old(meta)@,
                final(meta)@,
                score_result_view(r),
            ),
            r matches Err(DecodeError::OutOfRange { max, .. }) ==> stands_for_whole(max, top_level(T::levels_of().len())),
            r matches Err(e) ==> e is OutOfRange,
            r is Err ==> *final(meta) == *old(meta),
    {
        let n = T::levels().len();
        let top = if n == 0 {
            0
        } else {
            n - 1
        };
        if !in_range(score, RANGE_LOW_BITS, upper) {
            let max = whole_number(top as u64);
            return Err(DecodeError::OutOfRange { key: key.to_owned(), value: score, min: ZERO_BITS, max });
        }
        let dist = match probabilities {
            None => None,
            Some(probs) => {
                let ghost entries = prob_entries(*probs);
                let ghost start = meta@.normalization_events;
                let mut d: Vec<u64> = Vec::new();
                let mut i: usize = 0;
                while i < n
                    invariant
                        n == T::levels_of().len(),
                        entries == prob_entries(*probs),
                        0 <= i <= n,
                        d@ =~= level_dist(i as nat, entries),
                        meta@ == (AnswerMetaView {
                            normalization_events: saturate(start + missing_levels(i as nat, entries)),
                            ..old(meta)@
                        }),
                    decreases n - i,
                {
                    let k = decimal(i);
                    match probs_get(probs, k.as_str()) {
                        Some(p) => {
                            d.push(p);
                        },
                        None => {
                            d.push(ZERO_BITS);
                            meta.normalization_events = meta.normalization_events.saturating_add(1);
                        },
                    }
                    i = i + 1;
                }
                Some(d)
            },
        };
        Ok(ScoreAnswer { expected: score, dist, confidence, _ty: PhantomData })
    }
}

impl<T: ScoreQuestion + PartialEq> ScoreAnswer<T> {
    /// Gate this answer with a [`Policy`], using [`ScoreAnswer::nearest`] as
    /// the value. With a per-level distribution the TopProb signal is its
    /// largest probability and the Margin signal is `margin` (top-1 minus
    /// top-2 of [`ScoreAnswer::top_two`], computed by the caller); without
    /// one, both fall back to the confidence.
    pub fn gate(&self, policy: &Policy<T>, margin: u64) -> (v: Verdict<T>)
        requires
            0 < T::levels_of().len() < 0x20_0000_0000_0000,
        ensures
            v == score_verdict(
                policy@,
                score_signal(self@, policy@.signal, margin),
                T::levels_of()[nearest_index(self@.expected, T::levels_of().len())],
            ),
    {
        let value = self.nearest();
        let signal = match policy.signal() {
            Signal::Confidence => self.confidence,
            Signal::TopProb => match &self.dist {
                Some(d) => top_prob(d),
                None => self.confidence,
            },
            Signal::Margin => match &self.dist {
                Some(_) => margin,
                None => self.confidence,
            },
        };
        let (act, review) = score_thresholds(policy, value);
        gate_at(signal, value, act, review)
    }
}

} // verus!
