//! Words of 64 bits read as sets of cells: bit `i` stands for the cell with
//! flat index `i`.

use vstd::prelude::*;
use vstd::std_specs::bits::{u64_trailing_zeros, axiom_u64_trailing_zeros};

verus! {

/// Bit `i` of `x` is set. No bit is set outside `0..64`.
pub open spec fn bit(x: u64, i: int) -> bool {
    0 <= i < 64 && (x >> (i as u64)) & 1u64 == 1u64
}

/// The number of set bits among the lowest `n` bits of `x`.
pub open spec fn ones_upto(x: u64, n: nat) -> nat
    decreases n,
{
    if n == 0 {
        0
    } else {
        ones_upto(x, (n - 1) as nat) + if bit(x, n - 1) {
            1nat
        } else {
            0nat
        }
    }
}

/// The bits of a conjunction.
pub proof fn lemma_bit_and(x: u64, y: u64)
    ensures
        forall|i: int| #[trigger] bit(x & y, i) == (bit(x, i) && bit(y, i)),
{
    assert forall|i: int| #[trigger] bit(x & y, i) == (bit(x, i) && bit(y, i)) by {
        if 0 <= i < 64 {
            let k = i as u64;
            assert((((x & y) >> k) & 1u64 == 1u64) == ((x >> k) & 1u64 == 1u64 && (y >> k) & 1u64 == 1u64))
                by (bit_vector)
                requires
                    k < 64,
            ;
        }
    }
}

/// The bits of a disjunction.
pub proof fn lemma_bit_or(x: u64, y: u64)
    ensures
        forall|i: int| #[trigger] bit(x | y, i) == (bit(x, i) || bit(y, i)),
{
    assert forall|i: int| #[trigger] bit(x | y, i) == (bit(x, i) || bit(y, i)) by {
        if 0 <= i < 64 {
            let k = i as u64;
            assert((((x | y) >> k) & 1u64 == 1u64) == ((x >> k) & 1u64 == 1u64 || (y >> k) & 1u64 == 1u64))
                by (bit_vector)
                requires
                    k < 64,
            ;
        }
    }
}

/// The bits of an exclusive disjunction.
pub proof fn lemma_bit_xor(x: u64, y: u64)
    ensures
        forall|i: int| #[trigger] bit(x ^ y, i) == (bit(x, i) != bit(y, i)),
{
    assert forall|i: int| #[trigger] bit(x ^ y, i) == (bit(x, i) != bit(y, i)) by {
        if 0 <= i < 64 {
            let k = i as u64;
            assert((((x ^ y) >> k) & 1u64 == 1u64) == (((x >> k) & 1u64 == 1u64) != ((y >> k) & 1u64
                == 1u64))) by (bit_vector)
                requires
                    k < 64,
            ;
        }
    }
}

/// The bits of a complement.
pub proof fn lemma_bit_not(x: u64)
    ensures
        forall|i: int| 0 <= i < 64 ==> #[trigger] bit(!x, i) == !bit(x, i),
{
    assert forall|i: int| 0 <= i < 64 implies #[trigger] bit(!x, i) == !bit(x, i) by {
        let k = i as u64;
        assert((((!x) >> k) & 1u64 == 1u64) == !((x >> k) & 1u64 == 1u64)) by (bit_vector)
            requires
                k < 64,
        ;
    }
}

/// A shift to the left moves every bit `k` places up.
pub proof fn lemma_bit_shl(x: u64, k: u64)
    requires
        k < 64,
    ensures
        forall|i: int| #[trigger] bit(x << k, i) == (i < 64 && bit(x, i - k)),
{
    assert forall|i: int| #[trigger] bit(x << k, i) == (i < 64 && bit(x, i - k)) by {
        if 0 <= i < 64 {
            let j = i as u64;
            if j >= k {
                let d = (j - k) as u64;
                assert((((x << k) >> j) & 1u64 == 1u64) == ((x >> d) & 1u64 == 1u64)) by (bit_vector)
                    requires
                        k < 64,
                        j < 64,
                        j >= k,
                        d == j - k,
                ;
            } else {
                assert(((x << k) >> j) & 1u64 == 0u64) by (bit_vector)
                    requires
                        k < 64,
                        j < k,
                ;
            }
        }
    }
}

/// A shift to the right moves every bit `k` places down.
pub proof fn lemma_bit_shr(x: u64, k: u64)
    requires
        k < 64,
    ensures
        forall|i: int| #[trigger] bit(x >> k, i) == (0 <= i && bit(x, i + k)),
{
    assert forall|i: int| #[trigger] bit(x >> k, i) == (0 <= i && bit(x, i + k)) by {
        if 0 <= i < 64 {
            let j = i as u64;
            if j + k < 64 {
                let d = (j + k) as u64;
                assert((((x >> k) >> j) & 1u64 == 1u64) == ((x >> d) & 1u64 == 1u64)) by (bit_vector)
                    requires
                        k < 64,
                        j < 64,
                        d == j + k,
                        d < 64,
                ;
            } else {
                assert(((x >> k) >> j) & 1u64 == 0u64) by (bit_vector)
                    requires
                        k < 64,
                        j < 64,
                        j + k >= 64,
                ;
            }
        }
    }
}

/// The word `1 << y` has bit `y` set and no other.
pub proof fn lemma_bit_single(y: u64)
    requires
        y < 64,
    ensures
        forall|i: int| #[trigger] bit(1u64 << y, i) == (i == y),
{
    assert forall|i: int| #[trigger] bit(1u64 << y, i) == (i == y) by {
        if 0 <= i < 64 {
            let j = i as u64;
            assert((((1u64 << y) >> j) & 1u64 == 1u64) == (j == y)) by (bit_vector)
                requires
                    y < 64,
                    j < 64,
            ;
        }
    }
}

/// Zero has no bit set.
pub proof fn lemma_bit_zero()
    ensures
        forall|i: int| !#[trigger] bit(0u64, i),
{
    assert forall|i: int| !#[trigger] bit(0u64, i) by {
        if 0 <= i < 64 {
            let j = i as u64;
            assert((0u64 >> j) & 1u64 == 0u64) by (bit_vector);
        }
    }
}

/// A word with a bit set is not zero.
pub proof fn lemma_bit_nonzero(x: u64, i: int)
    requires
        bit(x, i),
    ensures
        x != 0,
{
    let j = i as u64;
    assert(x != 0) by (bit_vector)
        requires
            j < 64,
            (x >> j) & 1u64 == 1u64,
    ;
}

/// A word that is not zero has a bit set: its lowest one.
pub proof fn lemma_nonzero_bit(x: u64)
    requires
        x != 0,
    ensures
        bit(x, u64_trailing_zeros(x) as int),
{
    axiom_u64_trailing_zeros(x);
}

} // verus!

verus! {

/// At most `n` of the lowest `n` bits are set.
pub proof fn lemma_ones_upto_bound(x: u64, n: nat)
    ensures
        ones_upto(x, n) <= n,
    decreases n,
{
    if n > 0 {
        lemma_ones_upto_bound(x, (n - 1) as nat);
    }
}

/// `u64::count_ones` gives the number of bits of the word that are set.
pub assume_specification[ u64::count_ones ](x: u64) -> (r: u32)
    ensures
        r == ones_upto(x, 64),
;

/// `u64::count_zeros` gives the number of bits of the word that are not set.
pub assume_specification[ u64::count_zeros ](x: u64) -> (r: u32)
    ensures
        r == 64 - ones_upto(x, 64),
;

} // verus!

verus! {

/// The order of the two words of a conjunction does not matter.
pub proof fn lemma_and_commutes(x: u64, y: u64)
    ensures
        x & y == y & x,
{
    assert(x & y == y & x) by (bit_vector);
}

} // verus!

verus! {

/// Bit `i` of `x` is set.
pub fn has_bit(x: u64, i: u64) -> (b: bool)
    requires
        i < 64,
    ensures
        b == bit(x, i as int),
{
    let v: u64 = (x >> i) & 1;
    assert((v != 0) == (v == 1)) by (bit_vector)
        requires
            v == (x >> i) & 1,
    ;
    v != 0
}

} // verus!
