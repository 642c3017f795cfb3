//! Decode errors for turning a [`crate::WireResponse`] into typed answers.
use vstd::prelude::*;

use crate::binary64::{le, num_le};
use crate::maps::{answer_entries, answers_get, has_key, lookup};
use crate::wire::{WireAnswer, WireResponse};

verus! {

/// Failure to turn a wire answer into a typed field. Numbers are binary64
/// bit patterns.
#[derive(Clone, Debug, PartialEq)]
#[non_exhaustive]
pub enum DecodeError {
    /// The Choice label is not a variant of the target enum.
    UnknownLabel {
        /// Question id.
        key: String,
        /// Label returned by the model.
        label: String,
    },
    /// A required question id was missing from `answers`.
    MissingAnswer {
        /// Question id.
        key: String,
    },
    /// A Noul value outside `[0, 1]` or a Score outside `[0, n-1]`.
    OutOfRange {
        /// Question id.
        key: String,
        /// Offending number.
        value: u64,
        /// Inclusive lower bound.
        min: u64,
        /// Inclusive upper bound.
        max: u64,
    },
    /// The answer `type` did not match the field (e.g. noul where a choice was expected).
    WrongType {
        /// Question id.
        key: String,
        /// Expected wire type name.
        expected: &'static str,
        /// Actual wire type name.
        actual: &'static str,
    },
}

impl DecodeError {
    /// A [`DecodeError::WrongType`] for `key`.
    pub fn wrong_type(key: &str, expected: &'static str, actual: &'static str) -> (e: Self)
        ensures
            e matches DecodeError::WrongType { key: k, expected: x, actual: a } && k@ == key@ && x
                == expected && a == actual,
    {
        DecodeError::WrongType { key: key.to_owned(), expected, actual }
    }
}

/// Bit pattern of `-1e-6` (`0.0 - RANGE_EPS`), the lowest accepted value of
/// a range that starts at 0.
pub const RANGE_LOW_BITS: u64 = 0xbeb0_c6f7_a0b5_ed8d;

/// `value` lies between `low` and `high`, inclusive (the caller passes any
/// tolerance already applied to the bounds).
pub fn in_range(value: u64, low: u64, high: u64) -> (r: bool)
    ensures
        r == (num_le(low, value) && num_le(value, high)),
{
    le(low, value) && le(value, high)
}

/// Wire name of the answer's `type` tag.
pub open spec fn type_name_of(answer: WireAnswer) -> &'static str {
    match answer {
        WireAnswer::Noul { .. } => "noul",
        WireAnswer::Choice { .. } => "choice",
        WireAnswer::Score { .. } => "score",
        WireAnswer::Unknown => "unknown",
    }
}

/// Wire name of the answer's `type` tag.
pub fn wire_type_name(answer: &WireAnswer) -> (r: &'static str)
    ensures
        r == type_name_of(*answer),
{
    match answer {
        WireAnswer::Noul { .. } => "noul",
        WireAnswer::Choice { .. } => "choice",
        WireAnswer::Score { .. } => "score",
        WireAnswer::Unknown => "unknown",
    }
}

/// The answer stored under `key`, or [`DecodeError::MissingAnswer`].
pub fn answer_for<'a>(key: &str, resp: &'a WireResponse) -> (r: Result<&'a WireAnswer, DecodeError>)
    ensures
        has_key(answer_entries(resp.answers), key@) <==> r is Ok,
        r matches Ok(a) ==> lookup(answer_entries(resp.answers), key@) == Some(*a),
        r matches Err(e) ==> e matches DecodeError::MissingAnswer { key: k } && k@ == key@,
{
    match answers_get(&resp.answers, key) {
        Some(a) => Ok(a),
        None => Err(DecodeError::MissingAnswer { key: key.to_owned() }),
    }
}

} // verus!
