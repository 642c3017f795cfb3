//! Owned mirrors of the TypeSafe System One JSON request and response.
//!
//! Numbers that are floating point on the wire (`noul`, `confidence`,
//! `score`, probabilities) are held as binary64 bit patterns.
use indexmap::IndexMap;
use serde_json::Value;
use std::borrow::Cow;
use vstd::prelude::*;

use crate::answer::Usage;
use crate::maps::{
    criteria_entries, criteria_insert, criteria_with_capacity, keys_of, with_entry,
};
use crate::traits::{ChoiceQuestion, Description, ScoreQuestion};

verus! {

/// Ordered map of question id → question, matching the wire `questions` object.
pub type WireQuestions = IndexMap<String, Question>;

/// A System One evaluation request body (plus the model the backend should use).
pub struct WireRequest {
    /// Content to evaluate: string, object, or array.
    pub state: Value,
    /// Model name.
    pub model: String,
    /// Questions keyed by caller-chosen ids.
    pub questions: WireQuestions,
}

/// A System One evaluation response body.
pub struct WireResponse {
    /// Model that produced the answers.
    pub model: String,
    /// One answer per question, keyed by the same ids as the request.
    pub answers: IndexMap<String, WireAnswer>,
    /// Token usage, when the backend reports it.
    pub usage: Option<Usage>,
    /// Request correlation id.
    pub request_id: Option<String>,
}

/// A typed question as sent on the wire.
pub enum Question {
    /// Yes/no probability.
    Noul {
        /// What to evaluate.
        instructions: Entry,
        /// Optional descriptions of yes and no.
        criteria: Option<NoulCriteria>,
    },
    /// Pick one labelled option.
    Choice {
        /// What to decide.
        instructions: Entry,
        /// Option label → description (insertion order is wire order).
        criteria: IndexMap<String, Entry>,
    },
    /// Ordered rubric levels; index is the score.
    Score {
        /// What to rate.
        instructions: Entry,
        /// Level descriptions in declaration order.
        criteria: Vec<Entry>,
    },
}

/// Optional yes/no descriptions for a Noul question.
pub struct NoulCriteria {
    /// What a value near 1 means.
    pub when_true: Option<Entry>,
    /// What a value near 0 means.
    pub when_false: Option<Entry>,
}

/// A typed answer as returned on the wire.
pub enum WireAnswer {
    /// Noul probability in `[0, 1]`.
    Noul {
        /// Probability the answer is yes.
        noul: u64,
    },
    /// Chosen label plus the full distribution.
    Choice {
        /// Highest-probability option label.
        choice: String,
        /// Probability of every option.
        probabilities: IndexMap<String, u64>,
        /// Model confidence in `[0, 1]`.
        confidence: u64,
    },
    /// Expected score across ordered levels.
    Score {
        /// Probability-weighted level index; may fall between levels.
        score: u64,
        /// Level index (string key) → description.
        legend: IndexMap<String, Value>,
        /// Per-level probabilities when the backend provides them.
        probabilities: Option<IndexMap<String, u64>>,
        /// Model confidence in `[0, 1]`.
        confidence: u64,
    },
    /// Unknown `type` tag, retained for forward compatibility.
    Unknown,
}

/// An `instructions` or criteria value: string, JSON, or null.
pub enum Entry {
    /// Plain text.
    Text(Cow<'static, str>),
    /// Structured JSON (object, array, number, or bool).
    Json(Value),
    /// Explicit null.
    Null,
}

/// What `serde_json::from_str` makes of a text: the document, or `None`
/// when the text is not valid JSON.
pub uninterp spec fn json_parse(s: Seq<char>) -> Option<Value>;

/// `serde_json::from_str::<Value>`: the parsed document, or `None` on a
/// syntax error.
#[verifier::external_body]
pub(crate) fn parse_json(s: &str) -> (r: Option<Value>)
    ensures
        r == json_parse(s@),
{
    serde_json::from_str::<Value>(s).ok()
}

/// `e` is the text `s`.
pub open spec fn text_entry(s: Seq<char>, e: Entry) -> bool {
    e matches Entry::Text(t) && t@ == s
}

/// `e` is the JSON document that `s` parses to, or the text `s` when it
/// does not parse.
pub open spec fn json_entry(s: Seq<char>, e: Entry) -> bool {
    match json_parse(s) {
        Some(v) => e == Entry::Json(v),
        None => text_entry(s, e),
    }
}

/// No two variants share a label.
pub open spec fn labels_distinct<T: ChoiceQuestion>() -> bool {
    forall|i: int, j: int|
        0 <= i < j < T::variants_of().len() ==> #[trigger] T::variants_of()[i].label_of()
            != #[trigger] T::variants_of()[j].label_of()
}

impl Question {
    /// Build a Noul question, omitting `criteria` when both sides are unset.
    pub fn noul(instructions: Entry, when_true: Option<Entry>, when_false: Option<Entry>) -> (q:
        Question)
        ensures
            q matches Question::Noul { instructions: i, criteria: c } && i == instructions && (
            match c {
                None => when_true is None && when_false is None,
                Some(nc) => nc.when_true == when_true && nc.when_false == when_false && !(
                when_true is None && when_false is None),
            }),
    {
        let criteria = match (when_true, when_false) {
            (None, None) => None,
            (t, f) => Some(NoulCriteria { when_true: t, when_false: f }),
        };
        Question::Noul { instructions, criteria }
    }

    /// Build a Choice question from a [`ChoiceQuestion`] type: one criterion
    /// per variant, keyed by its label, in declaration order (a repeated
    /// label keeps its first place and takes the later description).
    pub fn from_choice<T: ChoiceQuestion>() -> (q: Question)
        ensures
            q matches Question::Choice { instructions: i, criteria: c } && T::instructions_of().renders_as(i) &&
                keys_of(criteria_entries(c)) == choice_keys(T::variants_of()),
            labels_distinct::<T>() ==> (q matches Question::Choice { criteria: c, .. } && {
                &&& criteria_entries(c).len() == T::variants_of().len()
                &&& forall|j: int|
                    0 <= j < T::variants_of().len() ==> {
                        &&& (#[trigger] criteria_entries(c)[j]).0 == T::variants_of()[j].label_of()
                        &&& T::variants_of()[j].description_of().renders_as(criteria_entries(c)[j].1)
                    }
            }),
    {
        let variants = T::variants();
        let mut criteria = criteria_with_capacity(variants.len());
        let n = variants.len();
        let mut i: usize = 0;
        while i < n
            invariant
                n == variants@.len(),
                variants@ == T::variants_of(),
                0 <= i <= n,
                keys_of(criteria_entries(criteria)) == choice_keys(T::variants_of().take(i as int)),
                labels_distinct::<T>() ==> {
                    &&& criteria_entries(criteria).len() == i
                    &&& forall|j: int|
                        0 <= j < i ==> {
                            &&& (#[trigger] criteria_entries(criteria)[j]).0
                                == T::variants_of()[j].label_of()
                            &&& T::variants_of()[j].description_of().renders_as(
                                criteria_entries(criteria)[j].1,
                            )
                        }
                },
            decreases n - i,
        {
            let variant = variants[i];
            let label = variant.label().to_owned();
            let entry = variant.description().to_entry();
            let ghost before = criteria_entries(criteria);
            let _ = criteria_insert(&mut criteria, label, entry);
            proof {
                let vs = T::variants_of();
                assert(vs.take(i + 1).drop_last() =~= vs.take(i as int));
                assert(vs.take(i + 1).last() == vs[i as int]);
                lemma_keys_of_with_entry(before, vs[i as int].label_of(), entry);
                if labels_distinct::<T>() {
                    if crate::maps::has_key(before, vs[i as int].label_of()) {
                        let k = choose|k: int|
                            0 <= k < before.len() && #[trigger] before[k].0 == vs[i as int].label_of();
                        assert(before[k].0 == vs[k].label_of());
                        assert(false);
                    }
                    let after = criteria_entries(criteria);
                    assert(after == before.push((vs[i as int].label_of(), entry)));
                    assert forall|j: int| 0 <= j < i + 1 implies {
                        &&& (#[trigger] after[j]).0 == vs[j].label_of()
                        &&& vs[j].description_of().renders_as(after[j].1)
                    } by {
                        if j < i {
                            assert(after[j] == before[j]);
                        }
                    }
                }
            }
            i = i + 1;
        }
        proof {
            assert(T::variants_of().take(n as int) =~= T::variants_of());
        }
        Question::Choice { instructions: T::instructions().to_entry(), criteria }
    }

    /// Build a Score question from a [`ScoreQuestion`] type: level
    /// descriptions in declaration order.
    pub fn from_score<T: ScoreQuestion>() -> (q: Question)
        ensures
            q matches Question::Score { instructions: i, criteria: c } && T::instructions_of().renders_as(i) && c.len()
                == T::levels_of().len() && forall|j: int|
                0 <= j < c.len() ==> T::levels_of()[j].level_description_of().renders_as(
                    #[trigger] c@[j],
                ),
    {
        let levels = T::levels();
        let n = levels.len();
        let mut criteria: Vec<Entry> = Vec::new();
        let mut i: usize = 0;
        while i < n
            invariant
                n == levels@.len(),
                levels@ == T::levels_of(),
                0 <= i <= n,
                criteria@.len() == i,
                forall|j: int|
                    0 <= j < i ==> T::levels_of()[j].level_description_of().renders_as(
                        #[trigger] criteria@[j],
                    ),
            decreases n - i,
        {
            let entry = levels[i].level_description().to_entry();
            criteria.push(entry);
            i = i + 1;
        }
        Question::Score { instructions: T::instructions().to_entry(), criteria }
    }
}

/// Keys of the criteria map built from `vs`: each label in order, a
/// repeated label counted once at its first place.
pub open spec fn choice_keys<T: ChoiceQuestion>(vs: Seq<T>) -> Seq<Seq<char>>
    decreases vs.len(),
{
    if vs.len() == 0 {
        Seq::empty()
    } else {
        let prev = choice_keys(vs.drop_last());
        if prev.contains(vs.last().label_of()) {
            prev
        } else {
            prev.push(vs.last().label_of())
        }
    }
}

proof fn lemma_keys_of_with_entry<V>(e: Seq<(Seq<char>, V)>, k: Seq<char>, v: V)
    ensures
        keys_of(with_entry(e, k, v)) == (if keys_of(e).contains(k) {
            keys_of(e)
        } else {
            keys_of(e).push(k)
        }),
{
    if crate::maps::has_key(e, k) {
        let p = crate::maps::key_position(e, k);
        assert(keys_of(e)[p] == k);
        assert(keys_of(with_entry(e, k, v)) =~= keys_of(e));
    } else {
        if keys_of(e).contains(k) {
            let p = choose|p: int| 0 <= p < keys_of(e).len() && keys_of(e)[p] == k;
            assert(e[p].0 == k);
        }
        assert(keys_of(with_entry(e, k, v)) =~= keys_of(e).push(k));
    }
}

} // verus!
