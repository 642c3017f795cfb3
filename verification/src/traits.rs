//! The question traits that typed Choice and Score enums and question-set
//! structs implement, and the texts they carry.
use std::borrow::Cow;
use vstd::prelude::*;

use crate::answer::AnswerMeta;
use crate::decode::DecodeError;
use crate::maps::{answer_entries, answers_contains_key, has_key};
use crate::wire::{json_entry, labels_distinct, parse_json, text_entry, Entry, Question, WireQuestions, WireResponse};

verus! {

/// Fewest options a Choice question may have.
pub const MIN_CHOICE_OPTIONS: usize = 2;

/// Most options a Choice question (or levels a Score question) may have.
pub const MAX_CHOICE_OPTIONS: usize = 255;

/// Fewest levels a Score question may have.
pub const MIN_SCORE_LEVELS: usize = 2;

/// The `instructions` of a question: plain text or a JSON document.
#[derive(Clone, Copy, Debug, PartialEq, Eq)]
pub enum Instructions {
    /// Plain text.
    Text(&'static str),
    /// JSON source text.
    Json(&'static str),
}

/// The description of one option or level: text, JSON, or none.
#[derive(Clone, Copy, Debug, PartialEq, Eq)]
pub enum Description {
    /// Plain text.
    Text(&'static str),
    /// JSON source text.
    Json(&'static str),
    /// No description (wire `null`).
    Null,
}

impl Instructions {
    /// `e` is what these instructions become on the wire: text stays text;
    /// JSON source becomes the parsed document (or stays text when it does
    /// not parse).
    pub open spec fn renders_as(self, e: Entry) -> bool {
        match self {
            Instructions::Text(s) => text_entry(s@, e),
            Instructions::Json(s) => json_entry(s@, e),
        }
    }

    /// The wire [`Entry`] for these instructions.
    pub fn to_entry(&self) -> (e: Entry)
        ensures
            self.renders_as(e),
    {
        match self {
            Instructions::Text(s) => Entry::Text(Cow::Borrowed(*s)),
            Instructions::Json(s) => match parse_json(s) {
                Some(v) => Entry::Json(v),
                None => Entry::Text(Cow::Borrowed(*s)),
            },
        }
    }
}

impl Description {
    /// `e` is what this description becomes on the wire.
    pub open spec fn renders_as(self, e: Entry) -> bool {
        match self {
            Description::Text(s) => text_entry(s@, e),
            Description::Json(s) => json_entry(s@, e),
            Description::Null => e is Null,
        }
    }

    /// The wire [`Entry`] for this description.
    pub fn to_entry(&self) -> (e: Entry)
        ensures
            self.renders_as(e),
    {
        match self {
            Description::Text(s) => Entry::Text(Cow::Borrowed(*s)),
            Description::Json(s) => match parse_json(s) {
                Some(v) => Entry::Json(v),
                None => Entry::Text(Cow::Borrowed(*s)),
            },
            Description::Null => Entry::Null,
        }
    }
}

/// Position of the first occurrence of `label` in `labels`.
pub open spec fn first_index_of(labels: Seq<Seq<char>>, label: Seq<char>) -> Option<int>
    decreases labels.len(),
{
    if labels.len() == 0 {
        None
    } else if labels[0] == label {
        Some(0)
    } else {
        match first_index_of(labels.drop_first(), label) {
            Some(i) => Some(i + 1),
            None => None,
        }
    }
}

/// The first variant of `T` whose label is `label`.
pub open spec fn labelled<T: ChoiceQuestion>(label: Seq<char>) -> Option<T> {
    match first_index_of(T::variants_of().map_values(|v: T| v.label_of()), label) {
        Some(i) => Some(T::variants_of()[i]),
        None => None,
    }
}

/// A label found at position `i` of a list with no repeated label is found
/// first at `i`.
proof fn lemma_first_index_of(labels: Seq<Seq<char>>, i: int)
    requires
        0 <= i < labels.len(),
        forall|a: int, b: int| 0 <= a < b < labels.len() ==> #[trigger] labels[a] != #[trigger] labels[b],
    ensures
        first_index_of(labels, labels[i]) == Some(i),
    decreases labels.len(),
{
    if i > 0 {
        assert(labels[0] != labels[i]);
        let rest = labels.drop_first();
        assert forall|a: int, b: int| 0 <= a < b < rest.len() implies #[trigger] rest[a] != #[trigger] rest[b] by {
            assert(rest[a] == labels[a + 1]);
            assert(rest[b] == labels[b + 1]);
        }
        lemma_first_index_of(rest, i - 1);
        assert(rest[i - 1] == labels[i]);
    }
}

/// When no two options of `T` share a wire label, each option's label reads
/// back as that option: `from_label(v.label())` is `Some(v)`.
pub proof fn lemma_label_round_trip<T: ChoiceQuestion>(i: int)
    requires
        labels_distinct::<T>(),
        0 <= i < T::variants_of().len(),
    ensures
        labelled::<T>(T::variants_of()[i].label_of()) == Some(T::variants_of()[i]),
{
    let labels = T::variants_of().map_values(|v: T| v.label_of());
    assert forall|a: int, b: int| 0 <= a < b < labels.len() implies #[trigger] labels[a] != #[trigger] labels[b] by {
        assert(labels[a] == T::variants_of()[a].label_of());
        assert(labels[b] == T::variants_of()[b].label_of());
    }
    lemma_first_index_of(labels, i);
    assert(labels[i] == T::variants_of()[i].label_of());
}

/// A fieldless enum asked as a Choice question: each variant is an option
/// with a wire label and a description.
pub trait ChoiceQuestion: Sized + Copy {
    /// Variants in declaration order.
    ///
    /// The contracts of this library speak of a `ChoiceQuestion` through
    /// its spec functions. An impl verified by Verus defines them and is
    /// held to the method contracts, so what is proved holds of it. An impl
    /// written in plain Rust (such as the code the `Choice` derive emits)
    /// cannot define them: it keeps the closed constant defaults below, its
    /// methods do not meet their `ensures` against those defaults, and
    /// nothing proved over these spec functions applies to such a type.
    closed spec fn variants_of() -> Seq<Self> {
        Seq::empty()
    }

    /// Wire label of a variant.
    closed spec fn label_of(self) -> Seq<char> {
        Seq::empty()
    }

    /// Description of a variant.
    closed spec fn description_of(self) -> Description {
        Description::Null
    }

    /// Declaration index of a variant.
    closed spec fn index_of(self) -> int {
        0
    }

    /// What to decide.
    closed spec fn instructions_of() -> Instructions {
        Instructions::Text("")
    }

    /// What to decide.
    fn instructions() -> (i: Instructions)
        ensures
            i == Self::instructions_of(),
    ;

    /// Variants in declaration order, each once.
    fn variants() -> (v: Vec<Self>)
        ensures
            v@ == Self::variants_of(),
            v@.no_duplicates(),
    ;

    /// Wire label.
    fn label(self) -> (l: &'static str)
        ensures
            l@ == self.label_of(),
    ;

    /// Description.
    fn description(self) -> (d: Description)
        ensures
            d == self.description_of(),
    ;

    /// The variant with this wire label.
    fn from_label(label: &str) -> (r: Option<Self>)
        ensures
            r == (match first_index_of(Self::variants_of().map_values(|v: Self| v.label_of()), label@) {
                Some(i) => Some(Self::variants_of()[i]),
                None => None,
            }),
    ;

    /// Declaration index: the position of this variant in
    /// [`ChoiceQuestion::variants`].
    fn index(self) -> (i: usize)
        ensures
            i == self.index_of(),
            i < Self::variants_of().len() && Self::variants_of()[i as int] == self,
    ;
}

/// A fieldless enum asked as a Score question: variants are ordered levels.
pub trait ScoreQuestion: Sized + Copy {
    /// Levels in declaration order. As for [`ChoiceQuestion`], what is
    /// proved over these spec functions holds of impls verified by Verus; an
    /// impl in plain Rust (such as the `Score` derive's) keeps the closed
    /// constant defaults, which its methods do not match.
    closed spec fn levels_of() -> Seq<Self> {
        Seq::empty()
    }

    /// Description of a level.
    closed spec fn level_description_of(self) -> Description {
        Description::Null
    }

    /// Declaration index of a level.
    closed spec fn index_of(self) -> int {
        0
    }

    /// What to rate.
    closed spec fn instructions_of() -> Instructions {
        Instructions::Text("")
    }

    /// What to rate.
    fn instructions() -> (i: Instructions)
        ensures
            i == Self::instructions_of(),
    ;

    /// Levels in declaration order, each once.
    fn levels() -> (v: Vec<Self>)
        ensures
            v@ == Self::levels_of(),
            v@.no_duplicates(),
    ;

    /// Description of a level.
    fn level_description(self) -> (d: Description)
        ensures
            d == self.level_description_of(),
    ;

    /// Declaration index: the position of this level in
    /// [`ScoreQuestion::levels`].
    fn index(self) -> (i: usize)
        ensures
            i == self.index_of(),
            i < Self::levels_of().len() && Self::levels_of()[i as int] == self,
    ;

    /// The level at declaration index `i`.
    fn from_index(i: usize) -> (r: Option<Self>)
        ensures
            r == (if i < Self::levels_of().len() {
                Some(Self::levels_of()[i as int])
            } else {
                None
            }),
    ;
}

/// A decode result `d` as an optional field's: the answer in `Some`, the
/// error as it is.
pub open spec fn optional_of<A>(d: Result<A, DecodeError>) -> Result<Option<A>, DecodeError> {
    match d {
        Ok(a) => Ok(Some(a)),
        Err(e) => Err(e),
    }
}

/// A field of a question set: how it is asked and how its answer is read.
pub trait QuestionField {
    /// The decoded answer type.
    type Answer;

    /// The question sent on the wire.
    fn wire_question() -> Question;

    /// Decode the answer stored under `key`.
    fn decode_field(key: &str, resp: &WireResponse, meta: &mut AnswerMeta) -> Result<
        Self::Answer,
        DecodeError,
    >;

    /// Decode an optional field: a missing answer is `None` and leaves
    /// `meta` alone; a present one is what [`QuestionField::decode_field`]
    /// gives for it, its answer in `Some`.
    fn decode_optional(key: &str, resp: &WireResponse, meta: &mut AnswerMeta) -> (r: Result<
        Option<Self::Answer>,
        DecodeError,
    >)
        ensures
            !has_key(answer_entries(resp.answers), key@) ==> (r matches Ok(None) && *final(meta)
                == *old(meta)),
            has_key(answer_entries(resp.answers), key@) ==> exists|
                m: &mut AnswerMeta,
                d: Result<Self::Answer, DecodeError>,
            |
                #![trigger call_ensures(Self::decode_field, (key, resp, m), d)]
                mut_ref_current(m) == *old(meta) && mut_ref_future(m) == *final(meta) && call_ensures(
                    Self::decode_field,
                    (key, resp, m),
                    d,
                ) && r == optional_of(d),
    {
        if answers_contains_key(&resp.answers, key) {
            let decode = Self::decode_field;
            let d = decode(key, resp, meta);
            let r = match d {
                Ok(a) => Ok(Some(a)),
                Err(e) => Err(e),
            };
            assert(r == optional_of(d));
            r
        } else {
            Ok(None)
        }
    }
}

/// A struct of questions asked together.
pub trait QuestionSet {
    /// The decoded answers struct.
    type Answers;

    /// Questions keyed by id, in field order.
    fn questions() -> WireQuestions;

    /// Decode every answer of a response.
    fn decode(resp: &WireResponse) -> Result<Self::Answers, DecodeError>;
}

} // verus!
