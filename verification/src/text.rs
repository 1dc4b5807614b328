//! Normal form of words: trimmed of surrounding white space and lowercased.

use vstd::prelude::*;

verus! {

/// Whether `c` is white space in the sense of `char::is_whitespace`
/// (the Unicode property `White_Space`).
pub uninterp spec fn is_white_space(c: char) -> bool;

/// The lowercase form of `text` that `str::to_lowercase` produces.
pub uninterp spec fn lowercase_of(text: Seq<char>) -> Seq<char>;

/// `text` without its leading white space.
pub open spec fn trim_start(text: Seq<char>) -> Seq<char>
    decreases text.len(),
{
    if text.len() > 0 && is_white_space(text.first()) {
        trim_start(text.drop_first())
    } else {
        text
    }
}

/// `text` without its trailing white space.
pub open spec fn trim_end(text: Seq<char>) -> Seq<char>
    decreases text.len(),
{
    if text.len() > 0 && is_white_space(text.last()) {
        trim_end(text.drop_last())
    } else {
        text
    }
}

/// `text` without leading and trailing white space.
pub open spec fn trimmed(text: Seq<char>) -> Seq<char> {
    trim_end(trim_start(text))
}

/// The normal form of a word: trimmed, then lowercased.
pub open spec fn normal_form(text: Seq<char>) -> Seq<char> {
    lowercase_of(trimmed(text))
}

/// Whether a word is its own normal form.
pub open spec fn is_normal(text: Seq<char>) -> bool {
    normal_form(text) == text
}

/// Whether `text[from..to]` is `text` with white space, and nothing but white
/// space, cut off at both ends.
pub open spec fn is_trim_range(text: Seq<char>, from: int, to: int) -> bool {
    &&& 0 <= from <= to <= text.len()
    &&& forall|k: int| 0 <= k < from ==> is_white_space(#[trigger] text[k])
    &&& forall|k: int| to <= k < text.len() ==> is_white_space(#[trigger] text[k])
    &&& from < to ==> !is_white_space(text[from]) && !is_white_space(text[to - 1])
}

/// Cutting off a white-space prefix that ends before a visible character (or
/// at the end of the text) is what `trim_start` does.
proof fn lemma_trim_start(text: Seq<char>, from: int)
    requires
        0 <= from <= text.len(),
        forall|k: int| 0 <= k < from ==> is_white_space(#[trigger] text[k]),
        from < text.len() ==> !is_white_space(text[from]),
    ensures
        trim_start(text) == text.subrange(from, text.len() as int),
    decreases from,
{
    if from == 0 {
        assert(text.subrange(0, text.len() as int) =~= text);
    } else {
        let rest = text.drop_first();
        assert forall|k: int| 0 <= k < from - 1 implies is_white_space(#[trigger] rest[k]) by {
            assert(rest[k] == text[k + 1]);
        }
        lemma_trim_start(rest, from - 1);
        assert(rest.subrange(from - 1, rest.len() as int) =~= text.subrange(
            from,
            text.len() as int,
        ));
    }
}

/// Cutting off a white-space suffix that begins after a visible character (or
/// at the start of the text) is what `trim_end` does.
proof fn lemma_trim_end(text: Seq<char>, to: int)
    requires
        0 <= to <= text.len(),
        forall|k: int| to <= k < text.len() ==> is_white_space(#[trigger] text[k]),
        0 < to ==> !is_white_space(text[to - 1]),
    ensures
        trim_end(text) == text.subrange(0, to),
    decreases text.len() - to,
{
    if to == text.len() {
        assert(text.subrange(0, to) =~= text);
    } else {
        let rest = text.drop_last();
        assert forall|k: int| to <= k < rest.len() implies is_white_space(#[trigger] rest[k]) by {
            assert(rest[k] == text[k]);
        }
        lemma_trim_end(rest, to);
        assert(rest.subrange(0, to) =~= text.subrange(0, to));
    }
}

/// A trim range of a text holds exactly the trimmed text: there is one way to
/// trim.
pub proof fn lemma_trim_range(text: Seq<char>, from: int, to: int)
    requires
        is_trim_range(text, from, to),
    ensures
        text.subrange(from, to) == trimmed(text),
{
    let len = text.len() as int;
    if from < to {
        lemma_trim_start(text, from);
        let tail = text.subrange(from, len);
        assert forall|k: int| to - from <= k < tail.len() implies is_white_space(
            #[trigger] tail[k],
        ) by {
            assert(tail[k] == text[k + from]);
        }
        assert(tail[to - from - 1] == text[to - 1]);
        lemma_trim_end(tail, to - from);
        assert(tail.subrange(0, to - from) =~= text.subrange(from, to));
    } else {
        assert forall|k: int| 0 <= k < len implies is_white_space(#[trigger] text[k]) by {}
        lemma_trim_start(text, len);
        let tail = text.subrange(len, len);
        assert(tail.len() == 0);
        assert(trim_end(tail) == tail);
        assert(text.subrange(from, to) =~= tail);
    }
}

/// `str::trim`. Trusted: the result is a slice of the input; what is cut off
/// before and after it is white space only, and the slice, unless it is empty,
/// neither begins nor ends with white space.
#[verifier::external_body]
fn trim(text: &str) -> (r: &str)
    ensures
        exists|from: int|
            0 <= from <= text@.len() - r@.len()
                && #[trigger] text@.subrange(from, from + r@.len()) == r@
                && (forall|k: int|
                    (0 <= k < from || from + r@.len() <= k < text@.len()) ==> is_white_space(
                        #[trigger] text@[k],
                    ))
                && (r@.len() > 0 ==> !is_white_space(r@.first()) && !is_white_space(r@.last())),
{
    text.trim()
}

/// `str::to_lowercase`. Trusted: the result depends on the characters of the
/// input alone; `lowercase_of` names it.
#[verifier::external_body]
fn to_lowercase(text: &str) -> (r: String)
    ensures
        r@ == lowercase_of(text@),
{
    text.to_lowercase()
}

/// What `trim` promises of its result leaves one result open: the trimmed
/// text.
proof fn lemma_trim_result(text: Seq<char>, r: Seq<char>)
    requires
        exists|from: int|
            0 <= from <= text.len() - r.len() && #[trigger] text.subrange(from, from + r.len())
                == r && (forall|k: int|
                (0 <= k < from || from + r.len() <= k < text.len()) ==> is_white_space(
                    #[trigger] text[k],
                )) && (r.len() > 0 ==> !is_white_space(r.first()) && !is_white_space(r.last())),
    ensures
        r == trimmed(text),
{
    let from = choose|from: int|
        0 <= from <= text.len() - r.len() && #[trigger] text.subrange(from, from + r.len()) == r
            && (forall|k: int|
            (0 <= k < from || from + r.len() <= k < text.len()) ==> is_white_space(
                #[trigger] text[k],
            )) && (r.len() > 0 ==> !is_white_space(r.first()) && !is_white_space(r.last()));
    let to = from + r.len();
    if from < to {
        assert(r.first() == text[from]);
        assert(r.last() == text[to - 1]);
    }
    lemma_trim_range(text, from, to);
}

/// Brings a word into normal form.
pub fn normalize(word: &str) -> (r: String)
    ensures
        r@ == normal_form(word@),
{
    let inner = trim(word);
    proof {
        lemma_trim_result(word@, inner@);
    }
    to_lowercase(inner)
}

} // verus!
