//! Typed System One decisions: questions, wire shapes, decoded answers and
//! confidence gating.
use vstd::prelude::*;

pub mod answer;
pub mod attr;
pub mod backend;
pub mod binary64;
pub mod decode;
pub mod derive;
pub mod fake;
pub mod maps;
pub mod policy;
pub mod refusal;
pub mod rename;
pub mod text;
pub mod traits;
pub mod wire;

pub use answer::{AnswerMeta, ChoiceAnswer, NoulAnswer, ScoreAnswer, Usage};
pub use decode::DecodeError;
pub use policy::{NoulPolicy, Policy, PolicyError, Signal, Verdict};
pub use traits::{
    ChoiceQuestion, Description, Instructions, QuestionField, QuestionSet, ScoreQuestion,
    MAX_CHOICE_OPTIONS, MIN_CHOICE_OPTIONS, MIN_SCORE_LEVELS,
};
pub use wire::{Entry, NoulCriteria, Question, WireAnswer, WireQuestions, WireRequest, WireResponse};

verus! {
} // verus!
