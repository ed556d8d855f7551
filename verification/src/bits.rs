//! Bit-level vocabulary shared by the bitmaps, masks and queues of the kernel.
use vstd::prelude::*;
use vstd::std_specs::bits::*;

verus! {

/// Whether bit `i` of `x` is set.
pub open spec fn bit64(x: u64, i: int) -> bool {
    (x >> (i as u64)) & 1 == 1
}

/// Whether bit `i` of `x` is set.
pub open spec fn bit16(x: u16, i: int) -> bool {
    (x >> (i as u16)) & 1 == 1
}

/// How many of the lowest `n` bits of `x` are set.
pub open spec fn ones64(x: u64, n: nat) -> nat
    decreases n,
{
    if n == 0 {
        0
    } else {
        ones64(x, (n - 1) as nat) + (if bit64(x, n - 1) { 1nat } else { 0nat })
    }
}

proof fn lemma_set_clear64_raw(x: u64, i: u64, j: u64)
    by (bit_vector)
    requires
        i < 64,
        j < 64,
    ensures
        (((x | (1u64 << i)) >> j) & 1 == 1) <==> (i == j || (x >> j) & 1 == 1),
        (((x & !(1u64 << i)) >> j) & 1 == 1) <==> (i != j && (x >> j) & 1 == 1),
        (x & (1u64 << i)) != 0 <==> (x >> i) & 1 == 1,
        (1u64 << i) != 0,
        (((1u64 << i) >> j) & 1 == 1) <==> i == j,
{
}

/// Setting or clearing bit `i` changes bit `i` and no other bit.
pub proof fn lemma_set_clear64(x: u64, i: int, j: int)
    requires
        0 <= i < 64,
        0 <= j < 64,
    ensures
        bit64(x | (1u64 << (i as u64)), j) <==> (i == j || bit64(x, j)),
        bit64(x & !(1u64 << (i as u64)), j) <==> (i != j && bit64(x, j)),
        (x & (1u64 << (i as u64))) != 0 <==> bit64(x, i),
        (1u64 << (i as u64)) != 0,
        bit64(1u64 << (i as u64), j) <==> i == j,
{
    lemma_set_clear64_raw(x, i as u64, j as u64);
}

proof fn lemma_set_clear16_raw(x: u16, i: u16, j: u16)
    by (bit_vector)
    requires
        i < 16,
        j < 16,
    ensures
        (((x | (1u16 << i)) >> j) & 1 == 1) <==> (i == j || (x >> j) & 1 == 1),
        (((x & !(1u16 << i)) >> j) & 1 == 1) <==> (i != j && (x >> j) & 1 == 1),
        (x & (1u16 << i)) != 0 <==> (x >> i) & 1 == 1,
        (((x & (0xffffu16 << i)) >> j) & 1 == 1) <==> (i <= j && (x >> j) & 1 == 1),
{
}

/// Setting or clearing bit `i` changes bit `i` and no other bit; masking with
/// `0xffff << i` keeps the bits from `i` on.
pub proof fn lemma_set_clear16(x: u16, i: int, j: int)
    requires
        0 <= i < 16,
        0 <= j < 16,
    ensures
        bit16(x | (1u16 << (i as u16)), j) <==> (i == j || bit16(x, j)),
        bit16(x & !(1u16 << (i as u16)), j) <==> (i != j && bit16(x, j)),
        (x & (1u16 << (i as u16))) != 0 <==> bit16(x, i),
        bit16(x & (0xffffu16 << (i as u16)), j) <==> (i <= j && bit16(x, j)),
{
    lemma_set_clear16_raw(x, i as u16, j as u16);
}

proof fn lemma_constant_bits_raw(i: u64, j: u16)
    by (bit_vector)
    ensures
        (0u64 >> i) & 1 == 0,
        i < 64 ==> (0xffff_ffff_ffff_ffffu64 >> i) & 1 == 1,
        (0u16 >> j) & 1 == 0,
{
}

/// A word is zero exactly when none of its bits is set.
pub proof fn lemma_zero64(x: u64)
    ensures
        x == 0 <==> (forall|i: int| 0 <= i < 64 ==> !#[trigger] bit64(x, i)),
        forall|i: int| 0 <= i < 64 ==> !#[trigger] bit64(0, i),
        forall|i: int| 0 <= i < 64 ==> #[trigger] bit64(u64::MAX, i),
{
    assert forall|i: int| 0 <= i < 64 implies !#[trigger] bit64(0, i) && bit64(u64::MAX, i) by {
        lemma_constant_bits_raw(i as u64, 0);
    }
    assert forall|i: int| 0 <= i < 64 implies #[trigger] bit64(u64::MAX, i) by {
        assert(!bit64(0, i));
    }
    if x != 0 {
        axiom_u64_trailing_zeros(x);
        assert(bit64(x, u64_trailing_zeros(x) as int));
    }
}

/// A half-word is zero exactly when none of its bits is set.
pub proof fn lemma_zero16(y: u16)
    ensures
        y == 0 <==> (forall|i: int| 0 <= i < 16 ==> !#[trigger] bit16(y, i)),
        forall|i: int| 0 <= i < 16 ==> !#[trigger] bit16(0, i),
{
    assert forall|i: int| 0 <= i < 16 implies !#[trigger] bit16(0, i) by {
        lemma_constant_bits_raw(0, i as u16);
    }
    if y != 0 {
        axiom_u16_trailing_zeros(y);
        assert(bit16(y, u16_trailing_zeros(y) as int));
    }
}

/// The bits below `n` are at most `n`; a bit that is set is counted.
pub proof fn lemma_ones_bound(x: u64, n: nat)
    requires
        n <= 64,
    ensures
        ones64(x, n) <= n,
        ones64(x, n) == 0 <==> (forall|i: int| 0 <= i < n ==> !#[trigger] bit64(x, i)),
    decreases n,
{
    if n > 0 {
        lemma_ones_bound(x, (n - 1) as nat);
        assert(ones64(x, n) == 0 ==> !bit64(x, n - 1));
    }
}

/// Counts the set bits of a word.
pub fn count_ones(x: u64) -> (count: u32)
    ensures
        count == ones64(x, 64),
        count <= 64,
{
    let mut count: u32 = 0;
    let mut i: u32 = 0;
    while i < 64
        invariant
            i <= 64,
            count == ones64(x, i as nat),
            count <= i,
        decreases 64 - i,
    {
        if (x >> (i as u64)) & 1 == 1 {
            count = count + 1;
        }
        i = i + 1;
    }
    count
}

} // verus!
