//! Counting the members of a set in a range.
use crate::bits;
use crate::c_fastpath;
use vstd::prelude::*;

verus! {

/// How many of the numbers from `lo` up to `hi` are in `set`.
pub open spec fn count_in(set: Set<int>, lo: int, hi: int) -> nat
    decreases hi - lo,
{
    if lo >= hi {
        0
    } else {
        count_in(set, lo, hi - 1) + (if set.contains(hi - 1) {
            1nat
        } else {
            0nat
        })
    }
}

pub proof fn lemma_count_bound(set: Set<int>, lo: int, hi: int)
    ensures
        lo <= hi ==> count_in(set, lo, hi) <= hi - lo,
        lo > hi ==> count_in(set, lo, hi) == 0,
    decreases hi - lo,
{
    if lo < hi {
        lemma_count_bound(set, lo, hi - 1);
    }
}

/// A range counts as its two parts do.
pub proof fn lemma_count_split(set: Set<int>, lo: int, mid: int, hi: int)
    requires
        lo <= mid <= hi,
    ensures
        count_in(set, lo, hi) == count_in(set, lo, mid) + count_in(set, mid, hi),
    decreases hi - mid,
{
    if mid < hi {
        lemma_count_split(set, lo, mid, hi - 1);
    }
}

/// Sets that agree on a range count alike there.
pub proof fn lemma_count_same(a: Set<int>, b: Set<int>, lo: int, hi: int)
    requires
        forall|i: int| lo <= i < hi ==> (#[trigger] a.contains(i) <==> b.contains(i)),
    ensures
        count_in(a, lo, hi) == count_in(b, lo, hi),
    decreases hi - lo,
{
    if lo < hi {
        lemma_count_same(a, b, lo, hi - 1);
        assert(a.contains(hi - 1) <==> b.contains(hi - 1));
    }
}

/// Nothing is counted exactly where nothing is in the set.
pub proof fn lemma_count_zero(set: Set<int>, lo: int, hi: int)
    ensures
        count_in(set, lo, hi) == 0 <==> (forall|i: int| lo <= i < hi ==> !#[trigger] set.contains(i)),
    decreases hi - lo,
{
    if lo < hi {
        lemma_count_zero(set, lo, hi - 1);
    }
}

/// Adding a number counts one more where it lies in the range.
pub proof fn lemma_count_insert(set: Set<int>, x: int, lo: int, hi: int)
    requires
        !set.contains(x),
    ensures
        count_in(set.insert(x), lo, hi) == count_in(set, lo, hi) + (if lo <= x < hi {
            1nat
        } else {
            0nat
        }),
    decreases hi - lo,
{
    if lo < hi {
        lemma_count_insert(set, x, lo, hi - 1);
    }
}

/// Taking a number away counts one less where it lies in the range.
pub proof fn lemma_count_remove(set: Set<int>, x: int, lo: int, hi: int)
    requires
        set.contains(x),
    ensures
        count_in(set, lo, hi) == count_in(set.remove(x), lo, hi) + (if lo <= x < hi {
            1nat
        } else {
            0nat
        }),
{
    lemma_count_insert(set.remove(x), x, lo, hi);
    assert(set.remove(x).insert(x) =~= set);
}

/// The set bits of a word count as the members of the set that they mark.
pub proof fn lemma_count_word(word: u64, set: Set<int>, base: int, n: nat)
    requires
        n <= 64,
        forall|j: int| 0 <= j < n ==> (#[trigger] bits::bit64(word, j) <==> set.contains(base + j)),
    ensures
        bits::ones64(word, n) == count_in(set, base, base + n),
    decreases n,
{
    if n > 0 {
        lemma_count_word(word, set, base, (n - 1) as nat);
        assert(bits::bit64(word, n - 1) <==> set.contains(base + n - 1));
    }
}

/// The clear bits of a bitmap count as the members of the set that they mark.
pub proof fn lemma_count_clear(words: Seq<u64>, set: Set<int>)
    requires
        forall|w: int, j: int|
            0 <= w < words.len() && 0 <= j < 64 ==> (!(#[trigger] bits::bit64(words[w], j))
                <==> set.contains(w * 64 + j)),
    ensures
        c_fastpath::clear_bits(words) == count_in(set, 0, words.len() as int * 64),
    decreases words.len(),
{
    if words.len() > 0 {
        let last = words.len() - 1;
        lemma_count_clear(words.drop_last(), set);
        lemma_count_split(set, 0, last * 64, words.len() as int * 64);
        let taken = Set::new(|i: int| !set.contains(i));
        lemma_count_word(words.last(), taken, last * 64, 64);
        lemma_count_complement(set, taken, last * 64, last * 64 + 64);
    }
}

proof fn lemma_count_complement(a: Set<int>, b: Set<int>, lo: int, hi: int)
    requires
        lo <= hi,
        forall|i: int| lo <= i < hi ==> (#[trigger] a.contains(i) <==> !b.contains(i)),
    ensures
        count_in(a, lo, hi) + count_in(b, lo, hi) == hi - lo,
    decreases hi - lo,
{
    if lo < hi {
        lemma_count_complement(a, b, lo, hi - 1);
        assert(a.contains(hi - 1) <==> !b.contains(hi - 1));
    }
}

} // verus!
