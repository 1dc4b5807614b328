//! The ways a query can fail, and the ways a word book can fail to be built.

use vstd::prelude::*;
use vstd::string::*;

verus! {

/// Why a query gave no definitions.
#[derive(Debug, Clone, PartialEq, Eq)]
pub enum DictionaryError {
    /// The word is not in the book, and no word close to it was accepted.
    NotFound,
    /// The word is not in the book; the closest word in the book is given.
    IncorrectWord(String),
    /// The answer to a suggestion was neither a yes nor a no.
    UnknownInput,
}

/// A `DictionaryError` with its word as a sequence of characters.
pub enum Failure {
    NotFound,
    IncorrectWord(Seq<char>),
    UnknownInput,
}

impl Failure {
    /// The sentence that tells the user of the failure.
    pub open spec fn message(self) -> Seq<char> {
        match self {
            Failure::NotFound => "The word doesn't exist."@,
            Failure::IncorrectWord(word) => "Did you mean "@ + word + " instead?"@,
            Failure::UnknownInput => "We didn't understand your input."@,
        }
    }
}

impl View for DictionaryError {
    type V = Failure;

    open spec fn view(&self) -> Failure {
        match self {
            DictionaryError::NotFound => Failure::NotFound,
            DictionaryError::IncorrectWord(word) => Failure::IncorrectWord(word@),
            DictionaryError::UnknownInput => Failure::UnknownInput,
        }
    }
}

impl DictionaryError {
    /// The sentence that tells the user of the failure.
    pub fn message(&self) -> (r: String)
        ensures
            r@ == self@.message(),
    {
        match self {
            DictionaryError::NotFound => String::from_str("The word doesn't exist."),
            DictionaryError::IncorrectWord(word) => {
                String::from_str("Did you mean ").concat(word.as_str()).concat(" instead?")
            },
            DictionaryError::UnknownInput => String::from_str("We didn't understand your input."),
        }
    }
}

/// Why a list of entries, or a text that should hold one, makes no word book.
#[derive(Debug, Clone, PartialEq, Eq)]
pub enum BuildError {
    /// The text is not a JSON object of lists of strings; the parser's
    /// description of the fault is given.
    Malformed(String),
    /// The word of the entry at this index is not in normal form.
    NotNormal(usize),
    /// The word of the entry at this index stands in an earlier entry too.
    Repeated(usize),
}

} // verus!
