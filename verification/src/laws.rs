//! What holds of every word book, whatever its entries.

use vstd::prelude::*;
use crate::dictionary::{
    advance, closest_word, confirm, definitions_of, exact, has_word, lemma_index_of,
    lemma_no_closest_word, query, query_key, scores, well_formed, EntryView,
};
use crate::error::Failure;
use crate::response::{classify, UserResponse};
use crate::similarity::{
    is_closest, lemma_closest_exists, lemma_closest_is_unique, none_clears,
};
use crate::state::StateView;
use crate::text::{is_normal, normal_form};

verus! {

/// Every word of a word book is found, with the definitions of its own entry
/// in their order: by exact lookup, and by a query, which resolves at once.
pub proof fn lemma_every_word_is_found(entries: Seq<EntryView>, i: int)
    requires
        well_formed(entries),
        0 <= i < entries.len(),
    ensures
        exact(entries, entries[i].word) == Some(entries[i].definitions),
        query(entries, entries[i].word) == StateView::Resolved(entries[i].definitions),
{
    lemma_index_of(entries, i);
    assert(is_normal(entries[i].word));
}

/// A word typed with other letter case, or with white space around it, is
/// looked up as its normal form is: where that is a word of the book, exact
/// lookup and query give what they give for the word itself.
pub proof fn lemma_lookup_goes_by_normal_form(
    entries: Seq<EntryView>,
    word: Seq<char>,
    key: Seq<char>,
)
    requires
        well_formed(entries),
        has_word(entries, key),
        normal_form(word) == key,
    ensures
        exact(entries, word) == exact(entries, key),
        exact(entries, word) == definitions_of(entries, key),
        exact(entries, word) is Some,
        query(entries, word) == query(entries, key),
        query(entries, word) == StateView::Resolved(exact(entries, key)->0),
{
    let i = choose|i: int| 0 <= i < entries.len() && (#[trigger] entries[i]).word == key;
    assert(is_normal(entries[i].word));
}

/// Two words with the same normal form are looked up alike, in every book.
pub proof fn lemma_same_normal_form_same_state(
    entries: Seq<EntryView>,
    first: Seq<char>,
    second: Seq<char>,
)
    requires
        normal_form(first) == normal_form(second),
    ensures
        exact(entries, first) == exact(entries, second),
        closest_word(entries, normal_form(first)) == closest_word(entries, normal_form(second)),
        query(entries, first) == query(entries, second),
{
}

/// The closest word is determined by the entries and the word asked for: two
/// entries that both are the closest have the same word.
pub proof fn lemma_closest_word_is_determined(
    entries: Seq<EntryView>,
    key: Seq<char>,
    a: int,
    b: int,
)
    requires
        is_closest(scores(entries, key), a),
        is_closest(scores(entries, key), b),
    ensures
        a == b,
        closest_word(entries, key) == Some(entries[a].word),
{
    lemma_closest_is_unique(scores(entries, key), a, b);
    let chosen = choose|j: int| is_closest(scores(entries, key), j);
    lemma_closest_is_unique(scores(entries, key), a, chosen);
}

/// Where the similarity of every word of the book to the word asked for is
/// below the cutoff, no word is suggested, and a query for a word that is
/// not in the book fails with `NotFound`.
pub proof fn lemma_nothing_suggested_below_cutoff(entries: Seq<EntryView>, key: Seq<char>)
    requires
        none_clears(scores(entries, key)),
    ensures
        closest_word(entries, key) is None,
        !has_word(entries, key) ==> query_key(entries, key) == StateView::Failed(
            Failure::NotFound,
        ),
{
    lemma_no_closest_word(entries, key);
}

/// A word is suggested exactly where the similarity of some word of the book
/// to the word asked for clears the cutoff.
pub proof fn lemma_suggested_where_cutoff_is_cleared(entries: Seq<EntryView>, key: Seq<char>)
    ensures
        closest_word(entries, key) is None <==> none_clears(scores(entries, key)),
{
    let all = scores(entries, key);
    if none_clears(all) {
        lemma_no_closest_word(entries, key);
    } else {
        let k = lemma_closest_exists(all, all.len() as int);
        assert(is_closest(all, k));
    }
}

/// A suggested word is a word of the book.
pub proof fn lemma_suggestion_is_a_word(entries: Seq<EntryView>, key: Seq<char>)
    requires
        closest_word(entries, key) is Some,
    ensures
        has_word(entries, closest_word(entries, key)->0),
{
    let k = choose|k: int| is_closest(scores(entries, key), k);
    assert(0 <= k < entries.len());
}

/// A yes to the question whether a word of the book was meant resolves the
/// query with the definitions of that word: there is no second miss.
pub proof fn lemma_confirmed_word_resolves(
    entries: Seq<EntryView>,
    candidate: Seq<char>,
    input: Seq<char>,
)
    requires
        well_formed(entries),
        has_word(entries, candidate),
        classify(normal_form(input)) == UserResponse::Yes,
    ensures
        definitions_of(entries, candidate) is Some,
        confirm(entries, candidate, input) == StateView::Resolved(
            definitions_of(entries, candidate)->0,
        ),
{
    let i = choose|i: int| 0 <= i < entries.len() && (#[trigger] entries[i]).word == candidate;
    assert(is_normal(entries[i].word));
}

/// A yes to the suggestion that a query has made resolves the query.
pub proof fn lemma_confirmed_suggestion_resolves(
    entries: Seq<EntryView>,
    word: Seq<char>,
    candidate: Seq<char>,
    input: Seq<char>,
)
    requires
        well_formed(entries),
        query(entries, word) == StateView::Confirming(candidate),
        classify(normal_form(input)) == UserResponse::Yes,
    ensures
        definitions_of(entries, candidate) is Some,
        confirm(entries, candidate, input) == StateView::Resolved(
            definitions_of(entries, candidate)->0,
        ),
{
    lemma_suggestion_is_a_word(entries, normal_form(word));
    lemma_confirmed_word_resolves(entries, candidate, input);
}

/// One answer settles a query: whatever the user answers to the question
/// that a query has put, no second question follows.
pub proof fn lemma_one_answer_settles(entries: Seq<EntryView>, word: Seq<char>, input: Seq<char>)
    requires
        well_formed(entries),
    ensures
        !(advance(entries, query(entries, word), input) is Confirming),
{
    if let StateView::Confirming(candidate) = query(entries, word) {
        if classify(normal_form(input)) == UserResponse::Yes {
            lemma_confirmed_suggestion_resolves(entries, word, candidate, input);
        }
    }
}

/// A no to a suggestion fails the query with `NotFound`, and an answer that
/// is neither a yes nor a no fails it with `UnknownInput`, whatever the book
/// and the suggested word.
pub proof fn lemma_unconfirmed_word_fails(
    entries: Seq<EntryView>,
    candidate: Seq<char>,
    input: Seq<char>,
)
    ensures
        classify(normal_form(input)) == UserResponse::No ==> confirm(entries, candidate, input)
            == StateView::Failed(Failure::NotFound),
        classify(normal_form(input)) == UserResponse::Unknown ==> confirm(
            entries,
            candidate,
            input,
        ) == StateView::Failed(Failure::UnknownInput),
{
}

} // verus!
