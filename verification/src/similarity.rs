//! How alike two words are spelled, and which of several words is closest.

use vstd::prelude::*;
use vstd::string::*;
use vstd::utf8::encode_utf8;
use crate::wide::product_exceeds;

verus! {

/// The sizes of the blocks that `difflib`'s `SequenceMatcher` matches between
/// the bytes of `first` and the bytes of `second`, as `get_matching_blocks`
/// lists them.
pub uninterp spec fn block_sizes(first: Seq<char>, second: Seq<char>) -> Seq<usize>;

/// The number of bytes that `text` takes in UTF-8.
pub open spec fn byte_len(text: Seq<char>) -> nat {
    encode_utf8(text).len()
}

/// The sum of `sizes`.
pub open spec fn total(sizes: Seq<usize>) -> nat
    decreases sizes.len(),
{
    if sizes.len() == 0 {
        0
    } else {
        total(sizes.drop_last()) + sizes.last() as nat
    }
}

/// A similarity ratio, standing for the fraction `2 * matched / length`:
/// `matched` bytes of each of two texts match, and the two texts are `length`
/// bytes long together.
pub struct Ratio {
    pub matched: nat,
    pub length: nat,
}

impl Ratio {
    /// Whether the ratio is at least 0.8, the least that makes a word worth
    /// suggesting.
    pub open spec fn clears_cutoff(self) -> bool {
        10 * self.matched >= 4 * self.length
    }

    /// Whether this ratio is greater than `other`.
    pub open spec fn exceeds(self, other: Ratio) -> bool {
        self.matched * other.length > other.matched * self.length
    }
}

/// The ratio for two texts of `first_len` and `second_len` bytes in which
/// blocks of the given sizes match. Two empty texts are alike in full: their
/// ratio is 1.
pub open spec fn ratio_of(sizes: Seq<usize>, first_len: nat, second_len: nat) -> Ratio {
    if first_len + second_len == 0 {
        Ratio { matched: 1, length: 2 }
    } else {
        Ratio { matched: total(sizes), length: first_len + second_len }
    }
}

/// The similarity ratio of two texts.
pub open spec fn similarity(first: Seq<char>, second: Seq<char>) -> Ratio {
    ratio_of(block_sizes(first, second), byte_len(first), byte_len(second))
}

/// Whether `scores[k]` is the closest of the first `upto` scores: it clears
/// the cutoff, none of them exceeds it, and it exceeds every one before it
/// that clears the cutoff. Among equal scores the first one is the closest.
pub open spec fn is_closest_among(scores: Seq<Ratio>, upto: int, k: int) -> bool {
    &&& 0 <= k < upto <= scores.len()
    &&& scores[k].clears_cutoff()
    &&& forall|j: int| 0 <= j < upto ==> !(#[trigger] scores[j]).exceeds(scores[k])
    &&& forall|j: int|
        0 <= j < k && (#[trigger] scores[j]).clears_cutoff() ==> scores[k].exceeds(scores[j])
}

/// Whether `scores[k]` is the closest of all `scores`.
pub open spec fn is_closest(scores: Seq<Ratio>, k: int) -> bool {
    is_closest_among(scores, scores.len() as int, k)
}

/// Whether none of `scores` clears the cutoff.
pub open spec fn none_clears(scores: Seq<Ratio>) -> bool {
    forall|j: int| 0 <= j < scores.len() ==> !(#[trigger] scores[j]).clears_cutoff()
}

/// A ratio that exceeds `b` also exceeds every ratio that `b` is not below.
pub proof fn lemma_exceeds_chain(a: Ratio, b: Ratio, c: Ratio)
    requires
        a.length > 0,
        b.length > 0,
        c.length > 0,
        !a.exceeds(b),
        c.exceeds(b),
    ensures
        c.exceeds(a),
{
    let (am, al) = (a.matched as int, a.length as int);
    let (bm, bl) = (b.matched as int, b.length as int);
    let (cm, cl) = (c.matched as int, c.length as int);
    assert((am * bl) * cl <= (bm * al) * cl) by (nonlinear_arith)
        requires
            am * bl <= bm * al,
            cl > 0,
    ;
    assert((bm * cl) * al <= (cm * bl) * al) by (nonlinear_arith)
        requires
            bm * cl < cm * bl,
            al > 0,
    ;
    assert((bm * al) * cl == (bm * cl) * al) by (nonlinear_arith);
    assert((am * bl) * cl == (am * cl) * bl) by (nonlinear_arith);
    assert((cm * bl) * al == (cm * al) * bl) by (nonlinear_arith);
    if am > 0 {
        assert((bm * cl) * al < (cm * bl) * al) by (nonlinear_arith)
            requires
                bm * cl < cm * bl,
                al > 0,
        ;
        assert(am * cl < cm * al) by (nonlinear_arith)
            requires
                (am * cl) * bl < (cm * al) * bl,
                bl > 0,
        ;
    } else {
        assert(am * cl == 0) by (nonlinear_arith)
            requires
                am == 0,
        ;
        assert(cm > 0) by (nonlinear_arith)
            requires
                bm * cl < cm * bl,
                bm >= 0,
                cl > 0,
                bl > 0,
        ;
        assert(cm * al > 0) by (nonlinear_arith)
            requires
                cm > 0,
                al > 0,
        ;
    }
}

/// At most one score is the closest.
pub proof fn lemma_closest_is_unique(scores: Seq<Ratio>, a: int, b: int)
    requires
        is_closest(scores, a),
        is_closest(scores, b),
    ensures
        a == b,
{
    if a < b {
        assert(scores[b].exceeds(scores[a]));
        assert(!scores[b].exceeds(scores[a]));
    } else if b < a {
        assert(scores[a].exceeds(scores[b]));
        assert(!scores[a].exceeds(scores[b]));
    }
}

/// Among scores of which one clears the cutoff, one is the closest.
pub proof fn lemma_closest_exists(scores: Seq<Ratio>, upto: int) -> (k: int)
    requires
        0 <= upto <= scores.len(),
        forall|j: int| 0 <= j < upto ==> (#[trigger] scores[j]).length > 0,
        exists|j: int| 0 <= j < upto && (#[trigger] scores[j]).clears_cutoff(),
    ensures
        is_closest_among(scores, upto, k),
    decreases upto,
{
    let last = upto - 1;
    if exists|j: int| 0 <= j < last && (#[trigger] scores[j]).clears_cutoff() {
        let before = lemma_closest_exists(scores, last);
        if scores[last].clears_cutoff() && scores[last].exceeds(scores[before]) {
            assert forall|j: int| 0 <= j < upto implies !(#[trigger] scores[j]).exceeds(
                scores[last],
            ) by {
                if j < last {
                    lemma_exceeds_chain(scores[j], scores[before], scores[last]);
                }
            }
            assert forall|j: int|
                0 <= j < last && (#[trigger] scores[j]).clears_cutoff() implies scores[last]
                .exceeds(scores[j]) by {
                lemma_exceeds_chain(scores[j], scores[before], scores[last]);
            }
            last
        } else {
            if !scores[last].clears_cutoff() {
                lemma_below_cutoff_exceeds_none(scores[last], scores[before]);
            }
            before
        }
    } else {
        assert(scores[last].clears_cutoff());
        assert forall|j: int| 0 <= j < upto implies !(#[trigger] scores[j]).exceeds(
            scores[last],
        ) by {
            if j < last {
                lemma_below_cutoff_exceeds_none(scores[j], scores[last]);
            }
        }
        last
    }
}

/// A similarity ratio as the library holds it.
pub struct Similarity {
    matched: u128,
    length: u128,
}

impl View for Similarity {
    type V = Ratio;

    closed spec fn view(&self) -> Ratio {
        Ratio { matched: self.matched as nat, length: self.length as nat }
    }
}

/// The ratios that `scores` hold, in their order.
pub open spec fn ratios(scores: Seq<Similarity>) -> Seq<Ratio> {
    scores.map_values(|s: Similarity| s@)
}

impl Similarity {
    #[verifier::type_invariant]
    spec fn has_length(self) -> bool {
        self.length > 0
    }

    /// The ratio for two texts of `first_len` and `second_len` bytes in which
    /// blocks of the given sizes match.
    pub fn from_blocks(sizes: &Vec<usize>, first_len: usize, second_len: usize) -> (r: Similarity)
        ensures
            r@ == ratio_of(sizes@, first_len as nat, second_len as nat),
    {
        if first_len == 0 && second_len == 0 {
            return Similarity { matched: 1, length: 2 };
        }
        let mut matched: u128 = 0;
        let mut i: usize = 0;
        while i < sizes.len()
            invariant
                i <= sizes.len(),
                matched == total(sizes@.subrange(0, i as int)),
                matched <= i * usize::MAX,
            decreases sizes.len() - i,
        {
            proof {
                let next = sizes@.subrange(0, i + 1);
                assert(next.drop_last() =~= sizes@.subrange(0, i as int));
                assert(next.last() == sizes@[i as int]);
                assert((i + 1) * usize::MAX <= usize::MAX * usize::MAX) by (nonlinear_arith)
                    requires
                        i + 1 <= usize::MAX,
                ;
                assert(usize::MAX * usize::MAX <= u128::MAX) by (nonlinear_arith)
                    requires
                        usize::MAX <= 0xffff_ffff_ffff_ffff,
                ;
            }
            matched = matched + sizes[i] as u128;
            i = i + 1;
        }
        proof {
            assert(sizes@.subrange(0, i as int) =~= sizes@);
        }
        Similarity { matched, length: first_len as u128 + second_len as u128 }
    }

    /// The number of matching bytes.
    pub fn matched(&self) -> (r: u128)
        ensures
            r == self@.matched,
    {
        self.matched
    }

    /// The number of bytes of both texts together (2 where both are empty).
    pub fn length(&self) -> (r: u128)
        ensures
            r == self@.length,
            r > 0,
    {
        proof {
            use_type_invariant(self);
        }
        self.length
    }

    /// Whether the ratio is at least 0.8.
    pub fn clears_cutoff(&self) -> (r: bool)
        ensures
            r == self@.clears_cutoff(),
    {
        !product_exceeds(4, self.length, 10, self.matched)
    }

    /// Whether this ratio is greater than `other`.
    pub fn exceeds(&self, other: &Similarity) -> (r: bool)
        ensures
            r == self@.exceeds(other@),
    {
        product_exceeds(self.matched, other.length, other.matched, self.length)
    }
}

/// The index of the closest of `scores`: the first of those with the greatest
/// ratio, if that ratio clears the cutoff.
pub fn closest_index(scores: &Vec<Similarity>) -> (r: Option<usize>)
    ensures
        match r {
            Some(k) => is_closest(ratios(scores@), k as int),
            None => none_clears(ratios(scores@)),
        },
{
    let ghost all = ratios(scores@);
    let mut best: Option<usize> = None;
    let mut i: usize = 0;
    while i < scores.len()
        invariant
            i <= scores.len(),
            all == ratios(scores@),
            all.len() == scores.len(),
            forall|j: int| 0 <= j < i ==> (#[trigger] all[j]).length > 0,
            match best {
                Some(k) => is_closest_among(all, i as int, k as int),
                None => forall|j: int| 0 <= j < i ==> !(#[trigger] all[j]).clears_cutoff(),
            },
        decreases scores.len() - i,
    {
        let score = &scores[i];
        proof {
            use_type_invariant(score);
            assert(all[i as int] == score@);
        }
        if score.clears_cutoff() {
            match best {
                None => {
                    best = Some(i);
                    assert forall|j: int| 0 <= j < i + 1 implies !(#[trigger] all[j]).exceeds(
                        all[i as int],
                    ) by {
                        if j < i {
                            assert(!all[j].clears_cutoff());
                            lemma_below_cutoff_exceeds_none(all[j], all[i as int]);
                        }
                    }
                },
                Some(k) => {
                    assert(all[k as int] == scores[k as int]@);
                    if score.exceeds(&scores[k]) {
                        best = Some(i);
                        assert forall|j: int| 0 <= j < i + 1 implies !(#[trigger] all[j]).exceeds(
                            all[i as int],
                        ) by {
                            if j < i {
                                lemma_exceeds_chain(all[j], all[k as int], all[i as int]);
                            }
                        }
                        assert forall|j: int|
                            0 <= j < i && (#[trigger] all[j]).clears_cutoff() implies all[i
                            as int].exceeds(all[j]) by {
                            lemma_exceeds_chain(all[j], all[k as int], all[i as int]);
                        }
                    }
                },
            }
        } else {
            proof {
                if let Some(k) = best {
                    lemma_below_cutoff_exceeds_none(all[i as int], all[k as int]);
                }
            }
        }
        i = i + 1;
    }
    best
}

/// A ratio below the cutoff exceeds none that clears it.
proof fn lemma_below_cutoff_exceeds_none(low: Ratio, high: Ratio)
    requires
        low.length > 0,
        high.length > 0,
        !low.clears_cutoff(),
        high.clears_cutoff(),
    ensures
        !low.exceeds(high),
{
    let (lm, ll) = (low.matched as int, low.length as int);
    let (hm, hl) = (high.matched as int, high.length as int);
    // 10 * lm < 4 * ll and 10 * hm >= 4 * hl
    assert((10 * lm) * hl <= (4 * ll) * hl) by (nonlinear_arith)
        requires
            10 * lm < 4 * ll,
            hl > 0,
    ;
    assert((4 * hl) * ll <= (10 * hm) * ll) by (nonlinear_arith)
        requires
            4 * hl <= 10 * hm,
            ll > 0,
    ;
    assert((10 * lm) * hl == 10 * (lm * hl)) by (nonlinear_arith);
    assert((4 * ll) * hl == (4 * hl) * ll) by (nonlinear_arith);
    assert((10 * hm) * ll == 10 * (hm * ll)) by (nonlinear_arith);
}

/// `SequenceMatcher::new` and `SequenceMatcher::get_matching_blocks` of
/// `difflib`, on the bytes of the two texts. Trusted: the sizes of the blocks
/// it lists depend on the two texts alone; `block_sizes` names them.
#[verifier::external_body]
pub(crate) fn matching_block_sizes(first: &str, second: &str) -> (r: Vec<usize>)
    ensures
        r@ == block_sizes(first@, second@),
{
    let mut matcher = difflib::sequencematcher::SequenceMatcher::<u8>::new(first, second);
    matcher.get_matching_blocks().iter().map(|block| block.size).collect()
}

/// The similarity ratio of two texts.
pub fn measure(first: &str, second: &str) -> (r: Similarity)
    ensures
        r@ == similarity(first@, second@),
{
    let sizes = matching_block_sizes(first, second);
    Similarity::from_blocks(&sizes, first.as_bytes().len(), second.as_bytes().len())
}

} // verus!
