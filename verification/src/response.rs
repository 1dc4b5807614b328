//! What the user answers when asked to confirm a suggested word.

use vstd::prelude::*;
use vstd::string::*;
use crate::text::{normal_form, normalize};

verus! {

/// The three ways an answer to a yes/no question can be read.
#[derive(Debug, Clone, Copy, PartialEq, Eq, Structural)]
pub enum UserResponse {
    Yes,
    No,
    Unknown,
}

/// How an answer in normal form is read: `y` and `yes` agree, `n` and `no`
/// decline, anything else is not understood.
pub open spec fn classify(answer: Seq<char>) -> UserResponse {
    if answer == seq!['y'] || answer == seq!['y', 'e', 's'] {
        UserResponse::Yes
    } else if answer == seq!['n'] || answer == seq!['n', 'o'] {
        UserResponse::No
    } else {
        UserResponse::Unknown
    }
}

/// Whether `text` reads exactly as the literal `word`.
fn reads_as(text: &String, word: &str) -> (r: bool)
    ensures
        r == (text@ == word@),
{
    let other = String::from_str(word);
    *text == other
}

impl UserResponse {
    /// Reads one line of input as an answer, ignoring surrounding white space
    /// and letter case.
    pub fn from_str(input: &str) -> (r: UserResponse)
        ensures
            r == classify(normal_form(input@)),
    {
        let answer = normalize(input);
        proof {
            reveal_strlit("y");
            reveal_strlit("yes");
            reveal_strlit("n");
            reveal_strlit("no");
            assert("y"@ =~= seq!['y']);
            assert("yes"@ =~= seq!['y', 'e', 's']);
            assert("n"@ =~= seq!['n']);
            assert("no"@ =~= seq!['n', 'o']);
        }
        if reads_as(&answer, "y") || reads_as(&answer, "yes") {
            UserResponse::Yes
        } else if reads_as(&answer, "n") || reads_as(&answer, "no") {
            UserResponse::No
        } else {
            UserResponse::Unknown
        }
    }
}

} // verus!
