use wordbook::dictionary::{Dictionary, Entry};
use wordbook::error::{BuildError, DictionaryError};
use wordbook::state::State;

fn entry(word: &str, definitions: &[&str]) -> Entry {
    Entry {
        word: word.to_string(),
        definitions: definitions.iter().map(|text| text.to_string()).collect(),
    }
}

fn texts(definitions: &[&str]) -> Vec<String> {
    definitions.iter().map(|text| text.to_string()).collect()
}

fn cat_book() -> Dictionary {
    Dictionary::new(vec![entry("cat", &["a feline"])]).unwrap()
}

fn animals() -> Dictionary {
    Dictionary::new(vec![
        entry("dog", &["a canine", "to follow closely"]),
        entry("cat", &["a feline"]),
        entry("cart", &["a vehicle with two wheels"]),
        entry("cast", &["to throw", "the actors of a play", "a mould"]),
        entry("ice cream", &[]),
    ])
    .unwrap()
}

#[test]
fn new_keeps_the_entries_in_order() {
    let book = animals();
    assert_eq!(book.len(), 5);
    assert_eq!(book.entry(0), Some(&entry("dog", &["a canine", "to follow closely"])));
    assert_eq!(book.entry(4), Some(&entry("ice cream", &[])));
    assert_eq!(book.entry(5), None);
}

#[test]
fn new_of_no_entries_is_an_empty_book() {
    let book = Dictionary::new(vec![]).unwrap();
    assert_eq!(book.len(), 0);
    assert!(book.is_empty());
    assert!(!cat_book().is_empty());
    assert_eq!(book.lookup_exact("cat"), None);
    assert_eq!(book.closest_candidate("cat"), None);
    assert_eq!(book.lookup("cat"), State::Failed(DictionaryError::NotFound));
}

#[test]
fn new_refuses_a_word_not_in_normal_form() {
    let built = Dictionary::new(vec![entry("cat", &[]), entry("Dog", &[]), entry("Emu", &[])]);
    assert_eq!(built.unwrap_err(), BuildError::NotNormal(1));
    let built = Dictionary::new(vec![entry(" cat", &["a feline"])]);
    assert_eq!(built.unwrap_err(), BuildError::NotNormal(0));
}

#[test]
fn new_refuses_a_repeated_word() {
    let built = Dictionary::new(vec![
        entry("cat", &["a feline"]),
        entry("dog", &[]),
        entry("cat", &["a feline"]),
        entry("dog", &[]),
    ]);
    assert_eq!(built.unwrap_err(), BuildError::Repeated(2));
}

#[test]
fn new_reports_the_first_fault() {
    let built = Dictionary::new(vec![entry("cat", &[]), entry("cat", &[]), entry("Dog", &[])]);
    assert_eq!(built.unwrap_err(), BuildError::Repeated(1));
    let built = Dictionary::new(vec![entry("Cat", &[]), entry("Cat", &[])]);
    assert_eq!(built.unwrap_err(), BuildError::NotNormal(0));
}

#[test]
fn lookup_exact_finds_every_word() {
    let book = animals();
    assert_eq!(book.lookup_exact("dog"), Some(&texts(&["a canine", "to follow closely"])));
    assert_eq!(book.lookup_exact("cat"), Some(&texts(&["a feline"])));
    assert_eq!(book.lookup_exact("cart"), Some(&texts(&["a vehicle with two wheels"])));
    assert_eq!(
        book.lookup_exact("cast"),
        Some(&texts(&["to throw", "the actors of a play", "a mould"]))
    );
    assert_eq!(book.lookup_exact("ice cream"), Some(&texts(&[])));
}

#[test]
fn lookup_exact_goes_by_normal_form() {
    let book = animals();
    for word in ["Cat", "CAT", " cat", "cat \n", "\tcAt  "] {
        assert_eq!(book.lookup_exact(word), book.lookup_exact("cat"));
        assert_eq!(book.lookup(word), book.lookup("cat"));
    }
    assert_eq!(book.lookup_exact(" Ice Cream "), Some(&texts(&[])));
}

#[test]
fn lookup_exact_misses_other_words() {
    let book = animals();
    assert_eq!(book.lookup_exact("cats"), None);
    assert_eq!(book.lookup_exact("ca"), None);
    assert_eq!(book.lookup_exact("c at"), None);
    assert_eq!(book.lookup_exact(""), None);
}

#[test]
fn closest_candidate_needs_four_fifths() {
    let book = cat_book();
    // 2 * 3 / 7
    assert_eq!(book.closest_candidate("cats"), Some("cat".to_string()));
    // 2 * 2 / 5
    assert_eq!(book.closest_candidate("ca"), Some("cat".to_string()));
    // 2 * 2 / 6
    assert_eq!(book.closest_candidate("kat"), None);
    // 2 * 3 / 8
    assert_eq!(book.closest_candidate("catch"), None);
    assert_eq!(book.closest_candidate("zzzzz"), None);
    assert_eq!(book.closest_candidate(""), None);
}

#[test]
fn closest_candidate_goes_by_normal_form() {
    let book = cat_book();
    assert_eq!(book.closest_candidate(" CATS\n"), Some("cat".to_string()));
    assert_eq!(book.closest_candidate("Cat"), Some("cat".to_string()));
}

#[test]
fn closest_candidate_takes_the_most_similar_word() {
    let book = animals();
    // "cat" 2 * 3 / 7, "cart" 2 * 3 / 8, "cast" 2 * 3 / 8
    assert_eq!(book.closest_candidate("cats"), Some("cat".to_string()));
    // "cast" 2 * 4 / 9, "cat" 2 * 3 / 8
    assert_eq!(book.closest_candidate("casts"), Some("cast".to_string()));
    // "cart" 2 * 4 / 9, "cat" 2 * 3 / 8
    assert_eq!(book.closest_candidate("carts"), Some("cart".to_string()));
    assert_eq!(book.closest_candidate("dig"), None);
}

#[test]
fn closest_candidate_takes_the_first_of_equals() {
    // against "cat", "cart" and "cast" both 2 * 3 / 7
    let book = Dictionary::new(vec![entry("cart", &[]), entry("cast", &[])]).unwrap();
    assert_eq!(book.closest_candidate("cat"), Some("cart".to_string()));
    let book = Dictionary::new(vec![entry("cast", &[]), entry("cart", &[])]).unwrap();
    assert_eq!(book.closest_candidate("cat"), Some("cast".to_string()));
}

#[test]
fn closest_candidate_is_the_same_on_every_call() {
    let book = animals();
    for word in ["cats", "carts", "casts", "dot", "doge", "zzzzz", "ice-cream", "cat"] {
        let first = book.closest_candidate(word);
        for _ in 0..5 {
            assert_eq!(book.closest_candidate(word), first);
        }
    }
}

#[test]
fn query_with_other_case_and_trailing_space_resolves() {
    let book = cat_book();
    assert_eq!(book.lookup("Cat "), State::Resolved(texts(&["a feline"])));
}

#[test]
fn query_close_to_a_word_asks_for_confirmation() {
    let book = cat_book();
    assert_eq!(book.lookup("cats"), State::Confirming("cat".to_string()));
    assert_eq!(book.lookup(" CATS"), State::Confirming("cat".to_string()));
}

#[test]
fn query_with_one_letter_of_three_changed_is_not_close_enough() {
    // "at" is all that matches: 2 * 2 / 6 < 0.8
    let book = cat_book();
    assert_eq!(book.lookup("kat"), State::Failed(DictionaryError::NotFound));
}

#[test]
fn query_far_from_every_word_fails() {
    let book = cat_book();
    assert_eq!(book.lookup("zzzzz"), State::Failed(DictionaryError::NotFound));
}

#[test]
fn confirming_with_yes_resolves() {
    let book = cat_book();
    assert_eq!(book.confirm_word("cat", "y"), State::Resolved(texts(&["a feline"])));
    assert_eq!(book.confirm_word("cat", "Yes\n"), State::Resolved(texts(&["a feline"])));
}

#[test]
fn confirming_with_no_fails_as_not_found() {
    let book = cat_book();
    assert_eq!(book.confirm_word("cat", "n"), State::Failed(DictionaryError::NotFound));
    assert_eq!(book.confirm_word("cat", " NO "), State::Failed(DictionaryError::NotFound));
}

#[test]
fn confirming_with_anything_else_fails_as_unknown_input() {
    let book = cat_book();
    assert_eq!(book.confirm_word("cat", "maybe"), State::Failed(DictionaryError::UnknownInput));
    assert_eq!(book.confirm_word("cat", ""), State::Failed(DictionaryError::UnknownInput));
}

#[test]
fn suggestion_confirmed_with_yes_resolves() {
    let book = animals();
    for word in ["cats", "carts", "doge", "icecream"] {
        match book.lookup(word) {
            State::Confirming(candidate) => {
                let definitions = book.lookup_exact(&candidate).unwrap().clone();
                assert_eq!(book.confirm_word(&candidate, "y"), State::Resolved(definitions));
                assert_eq!(
                    book.confirm_word(&candidate, "n"),
                    State::Failed(DictionaryError::NotFound)
                );
                assert_eq!(
                    book.confirm_word(&candidate, "what"),
                    State::Failed(DictionaryError::UnknownInput)
                );
            }
            other => panic!("{:?}", other),
        }
    }
}

#[test]
fn confirming_a_word_that_is_not_in_the_book_queries_anew() {
    let book = cat_book();
    assert_eq!(book.confirm_word("cats", "y"), State::Confirming("cat".to_string()));
    assert_eq!(book.confirm_word("zzzzz", "y"), State::Failed(DictionaryError::NotFound));
}

#[test]
fn outcome_of_each_state() {
    assert_eq!(State::Resolved(texts(&["a feline"])).into_outcome(), Ok(texts(&["a feline"])));
    assert_eq!(
        State::Confirming("cat".to_string()).into_outcome(),
        Err(DictionaryError::IncorrectWord("cat".to_string()))
    );
    assert_eq!(
        State::Failed(DictionaryError::NotFound).into_outcome(),
        Err(DictionaryError::NotFound)
    );
    assert_eq!(
        State::Failed(DictionaryError::UnknownInput).into_outcome(),
        Err(DictionaryError::UnknownInput)
    );
}

#[test]
fn outcome_of_a_query() {
    let book = cat_book();
    assert_eq!(book.lookup("cat").into_outcome(), Ok(texts(&["a feline"])));
    assert_eq!(
        book.lookup("cats").into_outcome(),
        Err(DictionaryError::IncorrectWord("cat".to_string()))
    );
    assert_eq!(book.lookup("kat").into_outcome(), Err(DictionaryError::NotFound));
    assert_eq!(
        book.confirm_word("cat", "maybe").into_outcome(),
        Err(DictionaryError::UnknownInput)
    );
}

#[test]
fn message_of_each_error() {
    assert_eq!(DictionaryError::NotFound.message(), "The word doesn't exist.");
    assert_eq!(
        DictionaryError::IncorrectWord("cat".to_string()).message(),
        "Did you mean cat instead?"
    );
    assert_eq!(DictionaryError::UnknownInput.message(), "We didn't understand your input.");
}

#[test]
fn prompt_names_the_candidate() {
    assert_eq!(
        State::Confirming("cat".to_string()).prompt(),
        Some("Did you mean cat? (Y/N)".to_string())
    );
    assert_eq!(cat_book().lookup("cats").prompt(), Some("Did you mean cat? (Y/N)".to_string()));
}

#[test]
fn prompt_of_a_settled_state_is_none() {
    assert_eq!(State::Resolved(texts(&["a feline"])).prompt(), None);
    assert_eq!(State::Failed(DictionaryError::NotFound).prompt(), None);
    assert_eq!(cat_book().lookup("zzzzz").prompt(), None);
    assert_eq!(cat_book().lookup("cat").prompt(), None);
}

#[test]
fn advance_answers_a_question() {
    let book = cat_book();
    let asked = book.lookup("cats");
    assert_eq!(book.advance(asked.clone(), "y"), State::Resolved(texts(&["a feline"])));
    assert_eq!(book.advance(asked.clone(), "n"), State::Failed(DictionaryError::NotFound));
    assert_eq!(book.advance(asked, "maybe"), State::Failed(DictionaryError::UnknownInput));
}

#[test]
fn advance_leaves_a_settled_state() {
    let book = cat_book();
    for answer in ["y", "n", "maybe"] {
        assert_eq!(
            book.advance(State::Resolved(texts(&["a feline"])), answer),
            State::Resolved(texts(&["a feline"]))
        );
        assert_eq!(
            book.advance(State::Failed(DictionaryError::UnknownInput), answer),
            State::Failed(DictionaryError::UnknownInput)
        );
    }
}

#[test]
fn one_answer_settles_every_query() {
    let book = animals();
    for word in ["cats", "carts", "casts", "doge", "cat", "emu", "", "icecream"] {
        for answer in ["y", "yes", "n", "no", "maybe", ""] {
            let state = book.advance(book.lookup(word), answer);
            assert!(!matches!(state, State::Confirming(_)));
        }
    }
}
