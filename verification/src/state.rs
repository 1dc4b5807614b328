//! Where a query stands: answered, failed, or waiting for the user to confirm
//! a suggested word.

use vstd::prelude::*;
use vstd::string::*;
use crate::error::{DictionaryError, Failure};

verus! {

/// The state of a query after a step of its resolution.
#[derive(Debug, Clone, PartialEq, Eq)]
pub enum State {
    /// The word was found: its definitions, in their order.
    Resolved(Vec<String>),
    /// The word was not found, and the user is to be asked whether the given
    /// word of the book was meant.
    Confirming(String),
    /// The query has failed.
    Failed(DictionaryError),
}

/// A `State` with its texts as sequences of characters.
pub enum StateView {
    Resolved(Seq<Seq<char>>),
    Confirming(Seq<char>),
    Failed(Failure),
}

impl View for State {
    type V = StateView;

    open spec fn view(&self) -> StateView {
        match self {
            State::Resolved(definitions) => StateView::Resolved(definitions.deep_view()),
            State::Confirming(candidate) => StateView::Confirming(candidate@),
            State::Failed(error) => StateView::Failed(error@),
        }
    }
}

impl StateView {
    /// The state as the outcome of a query that asks nobody: a suggestion
    /// left open is the failure `IncorrectWord` with the suggested word.
    pub open spec fn outcome(self) -> Result<Seq<Seq<char>>, Failure> {
        match self {
            StateView::Resolved(definitions) => Ok(definitions),
            StateView::Confirming(candidate) => Err(Failure::IncorrectWord(candidate)),
            StateView::Failed(failure) => Err(failure),
        }
    }
}

impl StateView {
    /// The question to put to the user, where the state waits for an answer.
    pub open spec fn prompt(self) -> Option<Seq<char>> {
        match self {
            StateView::Confirming(candidate) => Some(
                "Did you mean "@ + candidate + "? (Y/N)"@,
            ),
            _ => None,
        }
    }
}

impl State {
    /// The question to put to the user, where the state waits for an answer.
    pub fn prompt(&self) -> (r: Option<String>)
        ensures
            match r {
                Some(question) => self@.prompt() == Some(question@),
                None => self@.prompt() is None,
            },
    {
        match self {
            State::Confirming(candidate) => Some(
                String::from_str("Did you mean ").concat(candidate.as_str()).concat("? (Y/N)"),
            ),
            _ => None,
        }
    }

    /// The state as the outcome of a query that asks nobody: a suggestion
    /// left open is the failure `IncorrectWord` with the suggested word.
    pub fn into_outcome(self) -> (r: Result<Vec<String>, DictionaryError>)
        ensures
            match r {
                Ok(definitions) => self@.outcome() == Ok::<Seq<Seq<char>>, Failure>(
                    definitions.deep_view(),
                ),
                Err(error) => self@.outcome() == Err::<Seq<Seq<char>>, Failure>(error@),
            },
    {
        match self {
            State::Resolved(definitions) => Ok(definitions),
            State::Confirming(candidate) => Err(DictionaryError::IncorrectWord(candidate)),
            State::Failed(error) => Err(error),
        }
    }
}

} // verus!
