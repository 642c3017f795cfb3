//! The typed client [`S1`]: which model it asks for, and how a request is
//! built and a response decoded around the backend call.
use serde_json::Value;
use vstd::prelude::*;

use crate::decode::DecodeError;
use crate::traits::QuestionSet;
use crate::wire::{WireRequest, WireResponse};

verus! {

#[verifier::external_type_specification]
#[verifier::external_body]
pub struct ExJsonError(serde_json::Error);

/// Default model sent when [`S1::with_model`] is not used.
pub const DEFAULT_MODEL: &'static str = "jev-latest";

/// Typed System One client over a backend `C`.
#[derive(Clone, Debug)]
pub struct S1<C> {
    client: C,
    model: Option<String>,
}

/// Error from asking a question set.
#[derive(Debug)]
pub enum S1Error<E> {
    /// The backend failed.
    Backend(E),
    /// The response could not be decoded into the question set's answers.
    Decode(DecodeError),
    /// `state` could not be serialized to JSON.
    Serialize(serde_json::Error),
}

impl<C> S1<C> {
    /// The wrapped backend.
    pub closed spec fn backend(&self) -> C {
        self.client
    }

    /// The model set with [`S1::with_model`], if any.
    pub closed spec fn chosen_model(&self) -> Option<Seq<char>> {
        match self.model {
            Some(m) => Some(m@),
            None => None,
        }
    }

    /// The model requests ask for.
    pub open spec fn model_name(&self) -> Seq<char> {
        match self.chosen_model() {
            Some(m) => m,
            None => DEFAULT_MODEL@,
        }
    }

    /// Wrap a backend.
    pub fn new(client: C) -> (s: Self)
        ensures
            s.backend() == client,
            s.chosen_model() is None,
    {
        S1 { client, model: None }
    }

    /// Set the model name (default [`DEFAULT_MODEL`]).
    pub fn with_model(self, model: String) -> (s: Self)
        ensures
            s.backend() == self.backend(),
            s.chosen_model() == Some(model@),
    {
        S1 { client: self.client, model: Some(model) }
    }

    /// Model that will be sent on the next request.
    pub fn model(&self) -> (m: &str)
        ensures
            m@ == self.model_name(),
    {
        match &self.model {
            Some(m) => m.as_str(),
            None => DEFAULT_MODEL,
        }
    }

    /// Borrow the inner backend.
    pub fn client(&self) -> (c: &C)
        ensures
            *c == self.backend(),
    {
        &self.client
    }

    /// The request that asks question set `Q` about `state` (already turned
    /// into JSON): the state, this client's model, and what `Q::questions`
    /// returned.
    pub fn request<Q: QuestionSet>(&self, state: Value) -> (req: WireRequest)
        ensures
            req.state == state,
            req.model@ == self.model_name(),
            call_ensures(Q::questions, (), req.questions),
    {
        let questions_of = Q::questions;
        let questions = questions_of();
        assert(call_ensures(Q::questions, (), questions));
        WireRequest { state, model: self.model().to_owned(), questions }
    }
}

/// What [`finish`] gives for a result `d` of `Q::decode`: the answers
/// as they are, a decode failure as [`S1Error::Decode`].
pub open spec fn finished<A, E>(d: Result<A, DecodeError>) -> Result<A, S1Error<E>> {
    match d {
        Ok(a) => Ok(a),
        Err(e) => Err(S1Error::Decode(e)),
    }
}

/// Decode a backend response into `Q`'s answers; a decode failure becomes
/// [`S1Error::Decode`]. The result is [`finished`] of what `Q::decode`
/// returned for `resp`.
pub fn finish<Q: QuestionSet, E>(resp: &WireResponse) -> (r: Result<Q::Answers, S1Error<E>>)
    ensures
        exists|d: Result<Q::Answers, DecodeError>|
            call_ensures(Q::decode, (resp,), d) && r == finished::<Q::Answers, E>(d),
{
    let decode = Q::decode;
    let d = decode(resp);
    assert(call_ensures(Q::decode, (resp,), d));
    let r = match d {
        Ok(a) => Ok(a),
        Err(e) => Err(S1Error::Decode(e)),
    };
    assert(r == finished::<Q::Answers, E>(d));
    r
}

} // verus!
