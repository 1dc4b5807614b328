use wordbook::dictionary::{Dictionary, Entry};
use wordbook::error::{BuildError, DictionaryError};
use wordbook::state::State;

fn texts(definitions: &[&str]) -> Vec<String> {
    definitions.iter().map(|text| text.to_string()).collect()
}

#[test]
fn from_json_reads_words_and_definitions() {
    let book = Dictionary::from_json(
        r#"{"dog": ["a canine", "to follow closely"], "cat": ["a feline"], "ant": []}"#,
    )
    .unwrap();
    assert_eq!(book.len(), 3);
    assert_eq!(book.lookup_exact("cat"), Some(&texts(&["a feline"])));
    assert_eq!(book.lookup_exact("dog"), Some(&texts(&["a canine", "to follow closely"])));
    assert_eq!(book.lookup_exact("ant"), Some(&texts(&[])));
    assert_eq!(book.lookup_exact("emu"), None);
}

#[test]
fn from_json_orders_the_entries_by_word() {
    let book = Dictionary::from_json(r#"{"dog": ["d"], "cat": ["c"], "emu": ["e"]}"#).unwrap();
    let words: Vec<&str> =
        (0..book.len()).map(|i| book.entry(i).unwrap().word.as_str()).collect();
    assert_eq!(words, vec!["cat", "dog", "emu"]);
    assert_eq!(
        book.entry(1),
        Some(&Entry { word: "dog".to_string(), definitions: texts(&["d"]) })
    );
}

#[test]
fn from_json_of_an_empty_object_is_an_empty_book() {
    let book = Dictionary::from_json("{}").unwrap();
    assert_eq!(book.len(), 0);
}

#[test]
fn from_json_keeps_the_last_of_a_key_written_twice() {
    let book = Dictionary::from_json(r#"{"cat": ["first"], "cat": ["second"]}"#).unwrap();
    assert_eq!(book.len(), 1);
    assert_eq!(book.lookup_exact("cat"), Some(&texts(&["second"])));
}

#[test]
fn from_json_refuses_what_is_not_json() {
    assert!(matches!(
        Dictionary::from_json(r#"{"cat": ["a feline"]"#),
        Err(BuildError::Malformed(_))
    ));
    assert!(matches!(Dictionary::from_json(""), Err(BuildError::Malformed(_))));
}

#[test]
fn from_json_refuses_other_shapes() {
    assert!(matches!(
        Dictionary::from_json(r#"{"cat": "a feline"}"#),
        Err(BuildError::Malformed(_))
    ));
    assert!(matches!(
        Dictionary::from_json(r#"[["cat", ["a feline"]]]"#),
        Err(BuildError::Malformed(_))
    ));
    assert!(matches!(Dictionary::from_json(r#"{"cat": [1]}"#), Err(BuildError::Malformed(_))));
}

#[test]
fn from_json_describes_the_fault() {
    match Dictionary::from_json("{") {
        Err(BuildError::Malformed(description)) => assert!(!description.is_empty()),
        other => panic!("{:?}", other),
    }
}

#[test]
fn from_json_refuses_a_key_not_in_normal_form() {
    let built = Dictionary::from_json(r#"{"cat": [], "Dog": []}"#);
    // "Dog" sorts before "cat"
    assert_eq!(built.unwrap_err(), BuildError::NotNormal(0));
    let built = Dictionary::from_json(r#"{"ant": [], "cat ": []}"#);
    assert_eq!(built.unwrap_err(), BuildError::NotNormal(1));
}

#[test]
fn book_from_json_resolves_queries() {
    let book = Dictionary::from_json(r#"{"cat": ["a feline"]}"#).unwrap();
    assert_eq!(book.lookup("Cat "), State::Resolved(texts(&["a feline"])));
    assert_eq!(book.lookup("cats"), State::Confirming("cat".to_string()));
    assert_eq!(book.confirm_word("cat", "y"), State::Resolved(texts(&["a feline"])));
    assert_eq!(book.confirm_word("cat", "n"), State::Failed(DictionaryError::NotFound));
    assert_eq!(book.confirm_word("cat", "maybe"), State::Failed(DictionaryError::UnknownInput));
    assert_eq!(book.lookup("zzzzz"), State::Failed(DictionaryError::NotFound));
}
