//! The word book: entries of a word and its definitions, exact lookup, the
//! closest word to a misspelt one, and the steps by which a query is resolved.

use vstd::prelude::*;
use vstd::string::*;
use crate::error::{BuildError, DictionaryError, Failure};
use crate::response::{classify, UserResponse};
use crate::similarity::{
    closest_index, is_closest, lemma_closest_is_unique, measure, none_clears, ratios, similarity,
    Ratio, Similarity,
};
use crate::state::{State, StateView};
use crate::text::{is_normal, normal_form, normalize};

verus! {

/// A word and its definitions, in the order in which they are shown.
#[derive(Debug, Clone, PartialEq, Eq)]
pub struct Entry {
    pub word: String,
    pub definitions: Vec<String>,
}

/// An `Entry` with its texts as sequences of characters.
pub struct EntryView {
    pub word: Seq<char>,
    pub definitions: Seq<Seq<char>>,
}

impl View for Entry {
    type V = EntryView;

    open spec fn view(&self) -> EntryView {
        EntryView { word: self.word@, definitions: self.definitions.deep_view() }
    }
}

/// The entries of a list, each by its view.
pub open spec fn listing(entries: Seq<Entry>) -> Seq<EntryView> {
    entries.map_values(|entry: Entry| entry@)
}

/// Whether the entry at `i` cannot stand in a word book: its word is not in
/// normal form, or an earlier entry has the same word.
pub open spec fn faulty(entries: Seq<EntryView>, i: int) -> bool {
    ||| !is_normal(entries[i].word)
    ||| exists|j: int| 0 <= j < i && (#[trigger] entries[j]).word == entries[i].word
}

/// Whether the entry at `i` is the first faulty one.
pub open spec fn first_fault(entries: Seq<EntryView>, i: int) -> bool {
    &&& 0 <= i < entries.len()
    &&& faulty(entries, i)
    &&& forall|k: int| 0 <= k < i ==> !faulty(entries, k)
}

/// Whether entries make a word book: every word is in normal form, and no
/// word stands in two entries.
pub open spec fn well_formed(entries: Seq<EntryView>) -> bool {
    &&& forall|i: int| 0 <= i < entries.len() ==> is_normal((#[trigger] entries[i]).word)
    &&& forall|i: int, j: int|
        0 <= i < j < entries.len() ==> (#[trigger] entries[i]).word != (#[trigger] entries[j]).word
}

/// Whether some entry has the word `word`.
pub open spec fn has_word(entries: Seq<EntryView>, word: Seq<char>) -> bool {
    exists|i: int| 0 <= i < entries.len() && (#[trigger] entries[i]).word == word
}

/// The index of an entry with the word `word`, where there is one.
pub open spec fn index_of(entries: Seq<EntryView>, word: Seq<char>) -> int {
    choose|i: int| 0 <= i < entries.len() && (#[trigger] entries[i]).word == word
}

/// The definitions that the entries give for exactly the word `word`.
pub open spec fn definitions_of(entries: Seq<EntryView>, word: Seq<char>) -> Option<
    Seq<Seq<char>>,
> {
    if has_word(entries, word) {
        Some(entries[index_of(entries, word)].definitions)
    } else {
        None
    }
}

/// The definitions that the entries give for `word` as it was typed: those
/// of its normal form.
pub open spec fn exact(entries: Seq<EntryView>, word: Seq<char>) -> Option<Seq<Seq<char>>> {
    definitions_of(entries, normal_form(word))
}

/// The similarity of each entry's word to `key`, in the order of the entries.
pub open spec fn scores(entries: Seq<EntryView>, key: Seq<char>) -> Seq<Ratio> {
    Seq::new(entries.len(), |k: int| similarity(entries[k].word, key))
}

/// The word of the entries that is closest to `key`: of the words whose
/// similarity to `key` is greatest, the one that comes first, if that
/// similarity clears the cutoff.
pub open spec fn closest_word(entries: Seq<EntryView>, key: Seq<char>) -> Option<Seq<char>> {
    if exists|k: int| is_closest(scores(entries, key), k) {
        Some(entries[choose|k: int| is_closest(scores(entries, key), k)].word)
    } else {
        None
    }
}

/// The state that a query for the word in normal form `key` reaches without
/// asking anybody.
pub open spec fn query_key(entries: Seq<EntryView>, key: Seq<char>) -> StateView {
    match definitions_of(entries, key) {
        Some(definitions) => StateView::Resolved(definitions),
        None => match closest_word(entries, key) {
            Some(candidate) => StateView::Confirming(candidate),
            None => StateView::Failed(Failure::NotFound),
        },
    }
}

/// The state that a query for `word`, as it was typed, reaches without asking
/// anybody.
pub open spec fn query(entries: Seq<EntryView>, word: Seq<char>) -> StateView {
    query_key(entries, normal_form(word))
}

/// The state that follows when the user answers `input` to the question
/// whether `candidate` was meant: on a yes a new query for `candidate`, on a
/// no the failure `NotFound`, on anything else the failure `UnknownInput`.
pub open spec fn confirm(
    entries: Seq<EntryView>,
    candidate: Seq<char>,
    input: Seq<char>,
) -> StateView {
    match classify(normal_form(input)) {
        UserResponse::Yes => query(entries, candidate),
        UserResponse::No => StateView::Failed(Failure::NotFound),
        UserResponse::Unknown => StateView::Failed(Failure::UnknownInput),
    }
}

/// The state that follows `state` when the user answers `input`: a state that
/// waits for an answer goes on as `confirm` says, one that does not stays as
/// it is.
pub open spec fn advance(
    entries: Seq<EntryView>,
    state: StateView,
    input: Seq<char>,
) -> StateView {
    match state {
        StateView::Confirming(candidate) => confirm(entries, candidate, input),
        settled => settled,
    }
}

/// Whether `built` is what building a word book of `entries` gives: the book
/// with these entries where they are well formed, and else the first faulty
/// entry, reported as not in normal form or, where it is, as repeated.
pub open spec fn is_built_from(
    built: Result<Dictionary, BuildError>,
    entries: Seq<EntryView>,
) -> bool {
    match built {
        Ok(book) => well_formed(entries) && book@ == entries,
        Err(BuildError::NotNormal(i)) => first_fault(entries, i as int) && !is_normal(
            entries[i as int].word,
        ),
        Err(BuildError::Repeated(i)) => first_fault(entries, i as int) && is_normal(
            entries[i as int].word,
        ),
        Err(BuildError::Malformed(_)) => false,
    }
}

/// In well-formed entries each word is found at its own index, and nowhere
/// else.
pub proof fn lemma_index_of(entries: Seq<EntryView>, i: int)
    requires
        well_formed(entries),
        0 <= i < entries.len(),
    ensures
        has_word(entries, entries[i].word),
        index_of(entries, entries[i].word) == i,
{
    let word = entries[i].word;
    let found = index_of(entries, word);
    assert(0 <= found < entries.len() && entries[found].word == word);
    if found < i {
        assert(entries[found].word != entries[i].word);
    } else if i < found {
        assert(entries[i].word != entries[found].word);
    }
}

/// A word book: entries with words in normal form, none of them twice.
#[derive(Debug)]
pub struct Dictionary {
    entries: Vec<Entry>,
}

impl View for Dictionary {
    type V = Seq<EntryView>;

    closed spec fn view(&self) -> Seq<EntryView> {
        listing(self.entries@)
    }
}

impl Dictionary {
    #[verifier::type_invariant]
    spec fn holds_a_word_book(self) -> bool {
        well_formed(self@)
    }

    /// Makes a word book of `entries`, kept in their order, unless one of
    /// them is faulty: then the first faulty entry is reported, as not in
    /// normal form or else as repeated. Each word is held against all the
    /// words before it.
    pub fn new(entries: Vec<Entry>) -> (r: Result<Dictionary, BuildError>)
        ensures
            is_built_from(r, listing(entries@)),
            r is Ok <==> well_formed(listing(entries@)),
    {
        let ghost all = listing(entries@);
        let mut i: usize = 0;
        while i < entries.len()
            invariant
                i <= entries.len(),
                all == listing(entries@),
                forall|k: int| 0 <= k < i ==> !faulty(all, k),
            decreases entries.len() - i,
        {
            let word = &entries[i].word;
            assert(all[i as int].word == word@);
            let normal = normalize(word.as_str());
            if !(normal == *word) {
                return Err(BuildError::NotNormal(i));
            }
            let mut j: usize = 0;
            while j < i
                invariant
                    j <= i < entries.len(),
                    all == listing(entries@),
                    word@ == all[i as int].word,
                    is_normal(word@),
                    forall|k: int| 0 <= k < i ==> !faulty(all, k),
                    forall|m: int| 0 <= m < j ==> (#[trigger] all[m]).word != word@,
                decreases i - j,
            {
                if entries[j].word == *word {
                    assert(all[j as int].word == word@);
                    return Err(BuildError::Repeated(i));
                }
                j = j + 1;
            }
            i = i + 1;
        }
        proof {
            assert forall|a: int, b: int| 0 <= a < b < all.len() implies (#[trigger] all[a]).word
                != (#[trigger] all[b]).word by {
                assert(!faulty(all, b));
            }
            assert forall|a: int| 0 <= a < all.len() implies is_normal(
                (#[trigger] all[a]).word,
            ) by {
                assert(!faulty(all, a));
            }
        }
        Ok(Dictionary { entries })
    }

    /// The number of entries.
    pub fn len(&self) -> (r: usize)
        ensures
            r == self@.len(),
            well_formed(self@),
    {
        proof {
            use_type_invariant(self);
        }
        self.entries.len()
    }

    /// Whether the book has no entries.
    pub fn is_empty(&self) -> (r: bool)
        ensures
            r == (self@.len() == 0),
    {
        self.entries.len() == 0
    }

    /// The entry at `index`, if there is one.
    pub fn entry(&self, index: usize) -> (r: Option<&Entry>)
        ensures
            match r {
                Some(entry) => index < self@.len() && entry@ == self@[index as int],
                None => index >= self@.len(),
            },
    {
        if index < self.entries.len() {
            Some(&self.entries[index])
        } else {
            None
        }
    }

    /// The index of the entry whose word is exactly `key`.
    fn find(&self, key: &String) -> (r: Option<usize>)
        ensures
            match r {
                Some(i) => i < self@.len() && self@[i as int].word == key@,
                None => !has_word(self@, key@),
            },
    {
        let mut i: usize = 0;
        while i < self.entries.len()
            invariant
                i <= self.entries.len(),
                forall|k: int| 0 <= k < i ==> (#[trigger] self@[k]).word != key@,
            decreases self.entries.len() - i,
        {
            assert(self@[i as int].word == self.entries[i as int].word@);
            if self.entries[i].word == *key {
                return Some(i);
            }
            i = i + 1;
        }
        None
    }

    /// The definitions of the entry whose word is exactly `key`.
    fn get(&self, key: &String) -> (r: Option<&Vec<String>>)
        ensures
            match r {
                Some(definitions) => definitions_of(self@, key@) == Some(definitions.deep_view()),
                None => definitions_of(self@, key@) is None,
            },
    {
        match self.find(key) {
            Some(i) => {
                proof {
                    use_type_invariant(self);
                    lemma_index_of(self@, i as int);
                }
                Some(&self.entries[i].definitions)
            },
            None => None,
        }
    }

    /// The index of the entry whose word is closest to `key`.
    fn closest_key(&self, key: &String) -> (r: Option<usize>)
        ensures
            match r {
                Some(k) => is_closest(scores(self@, key@), k as int),
                None => none_clears(scores(self@, key@)),
            },
    {
        let mut measured: Vec<Similarity> = Vec::new();
        let mut i: usize = 0;
        while i < self.entries.len()
            invariant
                i <= self.entries.len(),
                measured.len() == i,
                forall|j: int|
                    0 <= j < i ==> (#[trigger] measured@[j])@ == similarity(self@[j].word, key@),
            decreases self.entries.len() - i,
        {
            let score = measure(self.entries[i].word.as_str(), key.as_str());
            measured.push(score);
            i = i + 1;
        }
        proof {
            assert(ratios(measured@) =~= scores(self@, key@));
        }
        closest_index(&measured)
    }

    /// The state that a query for the word in normal form `key` reaches.
    fn resolve(&self, key: &String) -> (r: State)
        ensures
            r@ == query_key(self@, key@),
    {
        match self.get(key) {
            Some(definitions) => State::Resolved(copy_texts(definitions)),
            None => match self.closest_key(key) {
                Some(k) => {
                    proof {
                        lemma_closest_word(self@, key@, k as int);
                    }
                    State::Confirming(self.entries[k].word.clone())
                },
                None => {
                    proof {
                        lemma_no_closest_word(self@, key@);
                    }
                    State::Failed(DictionaryError::NotFound)
                },
            },
        }
    }

    /// The definitions of `word`, where its normal form is a word of the
    /// book.
    pub fn lookup_exact(&self, word: &str) -> (r: Option<&Vec<String>>)
        ensures
            match r {
                Some(definitions) => exact(self@, word@) == Some(definitions.deep_view()),
                None => exact(self@, word@) is None,
            },
    {
        let key = normalize(word);
        self.get(&key)
    }

    /// The word of the book that is closest to the normal form of `word`, if
    /// any is close enough: of the words most similar to it the first, where
    /// that similarity clears the cutoff.
    pub fn closest_candidate(&self, word: &str) -> (r: Option<String>)
        ensures
            match r {
                Some(candidate) => closest_word(self@, normal_form(word@)) == Some(candidate@)
                    && has_word(self@, candidate@),
                None => closest_word(self@, normal_form(word@)) is None,
            },
            r is None <==> none_clears(scores(self@, normal_form(word@))),
    {
        let key = normalize(word);
        match self.closest_key(&key) {
            Some(k) => {
                proof {
                    lemma_closest_word(self@, key@, k as int);
                }
                Some(self.entries[k].word.clone())
            },
            None => {
                proof {
                    lemma_no_closest_word(self@, key@);
                }
                None
            },
        }
    }

    /// Takes a query as far as it goes without the user: to the definitions
    /// of the word, to the question whether the closest word was meant, or to
    /// the failure `NotFound` where no word is close enough.
    pub fn lookup(&self, word: &str) -> (r: State)
        ensures
            r@ == query(self@, word@),
            well_formed(self@),
    {
        proof {
            use_type_invariant(self);
        }
        let key = normalize(word);
        self.resolve(&key)
    }

    /// Takes a query on from the question whether `candidate` was meant, with
    /// the line `input` that the user answered: a yes starts a query for
    /// `candidate`, a no fails with `NotFound`, anything else with
    /// `UnknownInput`.
    pub fn confirm_word(&self, candidate: &str, input: &str) -> (r: State)
        ensures
            r@ == confirm(self@, candidate@, input@),
            well_formed(self@),
    {
        proof {
            use_type_invariant(self);
        }
        match UserResponse::from_str(input) {
            UserResponse::Yes => self.lookup(candidate),
            UserResponse::No => State::Failed(DictionaryError::NotFound),
            UserResponse::Unknown => State::Failed(DictionaryError::UnknownInput),
        }
    }

    /// Takes the query in `state` one step on with the line `input` that the
    /// user answered. Only a state that waits for an answer changes.
    pub fn advance(&self, state: State, input: &str) -> (r: State)
        ensures
            r@ == advance(self@, state@, input@),
            well_formed(self@),
    {
        proof {
            use_type_invariant(self);
        }
        match state {
            State::Confirming(candidate) => self.confirm_word(candidate.as_str(), input),
            settled => settled,
        }
    }
}

/// A copy of `texts`.
fn copy_texts(texts: &Vec<String>) -> (r: Vec<String>)
    ensures
        r.deep_view() == texts.deep_view(),
{
    let mut copy: Vec<String> = Vec::new();
    let mut i: usize = 0;
    while i < texts.len()
        invariant
            i <= texts.len(),
            copy.len() == i,
            forall|j: int| 0 <= j < i ==> (#[trigger] copy@[j])@ == texts@[j]@,
        decreases texts.len() - i,
    {
        copy.push(texts[i].clone());
        i = i + 1;
    }
    proof {
        assert(copy.deep_view() =~= texts.deep_view());
    }
    copy
}

/// The closest of the scores is the closest word.
pub proof fn lemma_closest_word(entries: Seq<EntryView>, key: Seq<char>, k: int)
    requires
        is_closest(scores(entries, key), k),
    ensures
        closest_word(entries, key) == Some(entries[k].word),
        has_word(entries, entries[k].word),
{
    let chosen = choose|j: int| is_closest(scores(entries, key), j);
    lemma_closest_is_unique(scores(entries, key), k, chosen);
}

/// Where no score clears the cutoff there is no closest word.
pub proof fn lemma_no_closest_word(entries: Seq<EntryView>, key: Seq<char>)
    requires
        none_clears(scores(entries, key)),
    ensures
        closest_word(entries, key) is None,
{
    let all = scores(entries, key);
    assert forall|k: int| !is_closest(all, k) by {
        if 0 <= k < all.len() {
            assert(!all[k].clears_cutoff());
        }
    }
}

} // verus!
