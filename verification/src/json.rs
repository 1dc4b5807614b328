//! Word books written as JSON: one object, each word a key, its definitions
//! a list of strings.

use std::collections::BTreeMap;
use vstd::prelude::*;
use crate::dictionary::{is_built_from, listing, well_formed, Dictionary, Entry, EntryView};
use crate::error::BuildError;

verus! {

/// `serde_json::Error`, known by name only: it is handed from the parser to
/// `describe` and never looked into.
#[verifier::external_type_specification]
#[verifier::external_body]
pub struct ExJsonError(serde_json::Error);

/// The entries that `serde_json` reads from `text` as a map from strings to
/// lists of strings, in the order of their words; `None` where it reads no
/// such map.
pub uninterp spec fn parsed_entries(text: Seq<char>) -> Option<Seq<EntryView>>;

/// `serde_json::from_str`, reading an ordered map from strings to lists of
/// strings. Trusted: whether the text is read, and the entries read from it,
/// depend on the text alone; `parsed_entries` names them.
#[verifier::external_body]
fn parse_entries(text: &str) -> (r: Result<Vec<Entry>, serde_json::Error>)
    ensures
        match r {
            Ok(entries) => parsed_entries(text@) == Some(listing(entries@)),
            Err(_) => parsed_entries(text@) is None,
        },
{
    match serde_json::from_str::<BTreeMap<String, Vec<String>>>(text) {
        Ok(map) => Ok(
            map.into_iter().map(|(word, definitions)| Entry { word, definitions }).collect(),
        ),
        Err(error) => Err(error),
    }
}

/// The `Display` text of a `serde_json::Error`. Nothing is claimed of it.
#[verifier::external_body]
fn describe(error: &serde_json::Error) -> String {
    error.to_string()
}

/// Whether `built` is what reading a word book from a text gives, where
/// `parsed` is what the text holds: `Malformed` where it holds no entries,
/// and else what building a book of the entries gives.
pub open spec fn is_read_from(
    built: Result<Dictionary, BuildError>,
    parsed: Option<Seq<EntryView>>,
) -> bool {
    match parsed {
        Some(entries) => is_built_from(built, entries),
        None => built matches Err(BuildError::Malformed(_)),
    }
}

impl Dictionary {
    /// Reads a word book from JSON: an object in which each key is a word in
    /// normal form and its value the list of the word's definitions. The
    /// entries of the book stand in the order of their words.
    pub fn from_json(json_data: &str) -> (r: Result<Dictionary, BuildError>)
        ensures
            is_read_from(r, parsed_entries(json_data@)),
            r is Ok <==> parsed_entries(json_data@) is Some && well_formed(
                parsed_entries(json_data@)->0,
            ),
    {
        match parse_entries(json_data) {
            Ok(entries) => Dictionary::new(entries),
            Err(error) => Err(BuildError::Malformed(describe(&error))),
        }
    }
}

} // verus!
