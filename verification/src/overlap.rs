//! How much two lists of words have in common.

use vstd::prelude::*;
use vstd::hash_map::StringHashMap;
use vstd::multiset::Multiset;
use crate::chars;

verus! {

/// A list of words.
pub type Words = Seq<Seq<char>>;

/// How many words `a` and `b` share, each as often as it stands in both.
pub open spec fn shared(a: Words, b: Words) -> nat {
    a.to_multiset().intersection_with(b.to_multiset()).len()
}

/// The Dice coefficient `2 * common / total` as the exact fraction that it is.
#[derive(Clone, Copy, Debug)]
pub struct OverlapRatio {
    pub common: usize,
    pub total: u128,
}

/// The overlap of two lists of words, as `common` and `total`. Two empty lists
/// overlap fully.
pub open spec fn overlap(a: Words, b: Words) -> (nat, nat) {
    if a.len() == 0 && b.len() == 0 {
        (1, 2)
    } else {
        (shared(a, b), a.len() + b.len())
    }
}

/// The fraction `p` is greater than `q`.
pub open spec fn exceeds(p: (nat, nat), q: (nat, nat)) -> bool {
    p.0 * q.1 > q.0 * p.1
}

/// `2 * p.0 / p.1` is at least four fifths.
pub open spec fn is_close(p: (nat, nat)) -> bool {
    5 * p.0 >= 2 * p.1
}

impl OverlapRatio {
    /// The fraction as a pair.
    pub open spec fn pair(self) -> (nat, nat) {
        (self.common as nat, self.total as nat)
    }

    /// The fraction is small enough to be compared in 128 bits.
    pub open spec fn fits(self) -> bool {
        self.common <= 0x8000_0000_0000_0000 && self.total <= 0x1_0000_0000_0000_0000
    }

    /// Whether this overlap is greater than `other`.
    pub fn exceeds(self, other: OverlapRatio) -> (r: bool)
        requires
            self.fits(),
            other.fits(),
        ensures
            r == exceeds(self.pair(), other.pair()),
    {
        proof {
            lemma_product_fits(self.common as int, other.total as int);
            lemma_product_fits(other.common as int, self.total as int);
        }
        self.common as u128 * other.total > other.common as u128 * self.total
    }

    /// Whether the overlap is at least four fifths.
    pub fn is_close(self) -> (r: bool)
        requires
            self.fits(),
        ensures
            r == is_close(self.pair()),
    {
        5 * (self.common as u128) >= 2 * self.total
    }
}

/// The products that compare two overlaps fit into 128 bits.
proof fn lemma_product_fits(common: int, total: int)
    by (nonlinear_arith)
    requires
        0 <= common <= 0x8000_0000_0000_0000,
        0 <= total <= 0x1_0000_0000_0000_0000,
    ensures
        0 <= common * total <= u128::MAX,
{
}

/// One more word is shared exactly where `b` still has it.
proof fn lemma_shared_push(a: Words, b: Words, w: Seq<char>)
    ensures
        shared(a.push(w), b) == shared(a, b) + if a.to_multiset().count(w) + 1
            <= b.to_multiset().count(w) {
            1nat
        } else {
            0nat
        },
        a.push(w).to_multiset().count(w) == a.to_multiset().count(w) + 1,
{
    broadcast use vstd::multiset::group_multiset_axioms, vstd::multiset::group_multiset_properties;

    a.to_multiset_ensures();
    let ma = a.to_multiset();
    let mb = b.to_multiset();
    let before = ma.intersection_with(mb);
    let after = a.push(w).to_multiset().intersection_with(mb);
    if ma.count(w) + 1 <= mb.count(w) {
        assert(after =~= before.insert(w));
    } else {
        assert(after =~= before);
    }
}

/// Counts how often each word stands in `words`.
fn count_words(words: &[String]) -> (counts: StringHashMap<usize>)
    ensures
        forall|w: Seq<char>| #[trigger]
            counts@.contains_key(w) ==> counts@[w] == chars::views(words@).to_multiset().count(w),
        forall|w: Seq<char>|
            chars::views(words@).to_multiset().count(w) > 0 ==> #[trigger] counts@.contains_key(w),
{
    broadcast use vstd::multiset::group_multiset_axioms, vstd::multiset::group_multiset_properties;

    let mut counts: StringHashMap<usize> = StringHashMap::new();
    let ghost all = chars::views(words@);
    let mut i: usize = 0;
    proof {
        all.take(0).to_multiset_ensures();
    }
    while i < words.len()
        invariant
            i <= words@.len(),
            all == chars::views(words@),
            forall|w: Seq<char>| #[trigger]
                counts@.contains_key(w) ==> counts@[w] == all.take(i as int).to_multiset().count(w),
            forall|w: Seq<char>|
                all.take(i as int).to_multiset().count(w) > 0 ==> #[trigger] counts@.contains_key(
                    w,
                ),
        decreases words.len() - i,
    {
        let ghost before = all.take(i as int);
        let ghost w = words@[i as int]@;
        proof {
            before.to_multiset_ensures();
            assert(all.take(i + 1) =~= before.push(w));
            assert(before.to_multiset().count(w) <= before.to_multiset().len());
        }
        let seen = match counts.get(words[i].as_str()) {
            Some(n) => *n,
            None => 0,
        };
        counts.insert(words[i].clone(), seen + 1);
        i += 1;
    }
    assert(all.take(i as int) =~= all);
    counts
}

/// The overlap of two lists of words.
pub fn word_overlap_ratio(a: &[String], b: &[String]) -> (r: OverlapRatio)
    ensures
        r.pair() == overlap(chars::views(a@), chars::views(b@)),
        a@.len() <= 0x8000_0000_0000_0000 && b@.len() <= 0x8000_0000_0000_0000 ==> r.fits(),
{
    broadcast use vstd::multiset::group_multiset_axioms, vstd::multiset::group_multiset_properties;

    if a.len() == 0 && b.len() == 0 {
        return OverlapRatio { common: 1, total: 2 };
    }
    let available = count_words(b);
    let mut used: StringHashMap<usize> = StringHashMap::new();
    let ghost wa = chars::views(a@);
    let ghost wb = chars::views(b@);
    let mut common: usize = 0;
    let mut i: usize = 0;
    proof {
        wa.take(0).to_multiset_ensures();
        assert(wa.take(0).to_multiset().intersection_with(wb.to_multiset()) =~= Multiset::empty());
    }
    while i < a.len()
        invariant
            i <= a@.len(),
            wa == chars::views(a@),
            wb == chars::views(b@),
            forall|w: Seq<char>| #[trigger]
                available@.contains_key(w) ==> available@[w] == wb.to_multiset().count(w),
            forall|w: Seq<char>|
                wb.to_multiset().count(w) > 0 ==> #[trigger] available@.contains_key(w),
            forall|w: Seq<char>| #[trigger]
                used@.contains_key(w) ==> used@[w] == wa.take(i as int).to_multiset().count(w),
            forall|w: Seq<char>|
                wa.take(i as int).to_multiset().count(w) > 0 ==> #[trigger] used@.contains_key(w),
            common <= i,
            common == shared(wa.take(i as int), wb),
        decreases a.len() - i,
    {
        let ghost before = wa.take(i as int);
        let ghost w = a@[i as int]@;
        proof {
            before.to_multiset_ensures();
            assert(wa.take(i + 1) =~= before.push(w));
            assert(before.to_multiset().count(w) <= before.to_multiset().len());
            lemma_shared_push(before, wb, w);
        }
        let seen = match used.get(a[i].as_str()) {
            Some(n) => *n,
            None => 0,
        };
        let left = match available.get(a[i].as_str()) {
            Some(n) => *n,
            None => 0,
        };
        if seen + 1 <= left {
            common += 1;
        }
        used.insert(a[i].clone(), seen + 1);
        i += 1;
    }
    assert(wa.take(i as int) =~= wa);
    OverlapRatio { common, total: a.len() as u128 + b.len() as u128 }
}

/// Overlap does not depend on the order of the two lists, and is never more
/// than full.
pub proof fn law_overlap_symmetric_and_bounded(a: Words, b: Words)
    ensures
        overlap(a, b) == overlap(b, a),
        2 * overlap(a, b).0 <= overlap(a, b).1,
{
    lemma_shared_le(a, b);
    lemma_shared_le(b, a);
    assert(a.to_multiset().intersection_with(b.to_multiset()) =~= b.to_multiset().intersection_with(
        a.to_multiset(),
    )) by {
        broadcast use
            vstd::multiset::group_multiset_axioms,
            vstd::multiset::group_multiset_properties,
        ;

    }
}

/// No more words are shared than the first list has.
proof fn lemma_shared_le(a: Words, b: Words)
    ensures
        shared(a, b) <= a.len(),
    decreases a.len(),
{
    broadcast use vstd::multiset::group_multiset_axioms, vstd::multiset::group_multiset_properties;

    if a.len() == 0 {
        a.to_multiset_ensures();
        assert(a.to_multiset().intersection_with(b.to_multiset()) =~= Multiset::empty());
    } else {
        lemma_shared_le(a.drop_last(), b);
        lemma_shared_push(a.drop_last(), b, a.last());
        assert(a.drop_last().push(a.last()) =~= a);
    }
}

/// A list overlaps fully with itself and its reorderings, and with no other.
pub proof fn law_overlap_full_iff_same_words(a: Words, b: Words)
    ensures
        2 * overlap(a, b).0 == overlap(a, b).1 <==> a.to_multiset() == b.to_multiset(),
{
    broadcast use vstd::multiset::group_multiset_axioms, vstd::multiset::group_multiset_properties;

    a.to_multiset_ensures();
    b.to_multiset_ensures();
    let ma = a.to_multiset();
    let mb = b.to_multiset();
    let both = ma.intersection_with(mb);
    if ma == mb {
        assert(both =~= ma);
    }
    if 2 * overlap(a, b).0 == overlap(a, b).1 {
        law_overlap_symmetric_and_bounded(a, b);
        lemma_shared_le(a, b);
        lemma_shared_le(b, a);
        if a.len() > 0 || b.len() > 0 {
            assert(shared(a, b) == shared(b, a));
            lemma_same_size(both, ma);
            lemma_same_size(both, mb);
        } else {
            assert(ma =~= mb);
        }
    }
}

/// A part of a multiset that is as large as it is all of it.
proof fn lemma_same_size(part: Multiset<Seq<char>>, whole: Multiset<Seq<char>>)
    requires
        part.subset_of(whole),
        part.len() == whole.len(),
    ensures
        part == whole,
{
    broadcast use vstd::multiset::group_multiset_axioms, vstd::multiset::group_multiset_properties;

    let rest = whole.sub(part);
    assert(rest.len() == 0);
    assert forall|w: Seq<char>| part.count(w) == whole.count(w) by {
        assert(rest.count(w) <= rest.len());
    }
    assert(part =~= whole);
}

/// Lists do not overlap exactly where they have no common word, unless both are
/// empty.
pub proof fn law_overlap_none_iff_disjoint(a: Words, b: Words)
    requires
        a.len() > 0 || b.len() > 0,
    ensures
        overlap(a, b).0 == 0 <==> forall|w: Seq<char>| !(a.contains(w) && #[trigger] b.contains(w)),
{
    broadcast use vstd::multiset::group_multiset_axioms, vstd::multiset::group_multiset_properties;

    a.to_multiset_ensures();
    b.to_multiset_ensures();
    let both = a.to_multiset().intersection_with(b.to_multiset());
    if forall|w: Seq<char>| !(a.contains(w) && #[trigger] b.contains(w)) {
        assert forall|w: Seq<char>| both.count(w) == 0 by {
            assert(!(a.contains(w) && b.contains(w)));
        }
        assert(both =~= Multiset::empty());
    }
    if overlap(a, b).0 == 0 {
        assert forall|w: Seq<char>| !(a.contains(w) && #[trigger] b.contains(w)) by {
            assert(both.count(w) <= both.len());
        }
    }
}

/// A word more on both sides is one common word more, of two words more; a word
/// more that the other side does not hold is none, of one word more.
pub proof fn law_overlap_word_by_word(a: Words, b: Words, w: Seq<char>)
    requires
        a.len() > 0 || b.len() > 0,
    ensures
        overlap(a.push(w), b.push(w)) == (overlap(a, b).0 + 1, overlap(a, b).1 + 2),
        !b.contains(w) ==> overlap(a.push(w), b) == (overlap(a, b).0, overlap(a, b).1 + 1),
        overlap(a, b).1 == a.len() + b.len(),
{
    broadcast use vstd::multiset::group_multiset_axioms, vstd::multiset::group_multiset_properties;

    a.to_multiset_ensures();
    b.to_multiset_ensures();
    let ma = a.to_multiset();
    let mb = b.to_multiset();
    let before = ma.intersection_with(mb);
    assert(a.push(w).to_multiset().intersection_with(b.push(w).to_multiset()) =~= before.insert(w));
    if !b.contains(w) {
        assert(a.push(w).to_multiset().intersection_with(mb) =~= before);
    }
}

/// Two empty lists overlap fully, and one word with itself.
pub proof fn law_overlap_at_least(w: Seq<char>)
    ensures
        2 * overlap(Seq::empty(), Seq::empty()).0 == overlap(Seq::empty(), Seq::empty()).1,
        overlap(seq![w], seq![w]) == (1nat, 2nat),
{
    broadcast use vstd::multiset::group_multiset_axioms, vstd::multiset::group_multiset_properties;

    let one = seq![w];
    one.to_multiset_ensures();
    assert(one.to_multiset().intersection_with(one.to_multiset()) =~= one.to_multiset());
}

/// Ratios are compared as the fractions that they are, and a ratio is close
/// where it is at least four fifths of a whole.
pub proof fn law_ratios_compare_as_fractions(a: nat, b: nat, c: nat, d: nat)
    ensures
        exceeds((a, b), (c, d)) <==> a * d > c * b,
        is_close((a, b)) <==> 5 * (2 * a) >= 4 * b,
{
}

} // verus!
