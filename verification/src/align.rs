//! Rounding an address to an alignment.
//!
//! For an alignment that is a power of two, rounding is plain arithmetic: the
//! nearest multiple of the alignment below or above the address. For any other
//! alignment the result is whatever clearing the bits of `align - 1` leaves,
//! which is what the mask arithmetic of a bump allocator computes.
use vstd::arithmetic::div_mod::{
    lemma_fundamental_div_mod, lemma_mod_decreases, lemma_mod_multiples_basic,
    lemma_mod_pos_bound,
};
use vstd::arithmetic::power::pow;
use vstd::arithmetic::power2::{
    is_pow2, is_pow2_equiv, is_pow2_exists, lemma_pow2, lemma_pow2_pos,
    lemma_pow2_strictly_increases, pow2,
};
use vstd::bits::{low_bits_mask, lemma_usize_low_bits_mask_is_mod};
use vstd::layout::unsigned_int_max_values;
use vstd::prelude::*;

verus! {

/// A size or an alignment of zero is served as one.
pub open spec fn at_least_one(x: int) -> int {
    if x < 1 {
        1
    } else {
        x
    }
}

/// `addr` rounded down to `align`.
///
/// For a power of two this is the largest multiple of `align` that is not
/// above `addr`. For another alignment it is `addr` with the bits of
/// `align - 1` cleared.
pub open spec fn align_down(addr: int, align: int) -> int {
    let a = at_least_one(align);
    if is_pow2(a) {
        addr - addr % a
    } else {
        ((addr as usize) & !((a - 1) as usize)) as int
    }
}

/// `addr` rounded up to `align`: `addr + align - 1`, rounded down.
///
/// For a power of two this is the least multiple of `align` that is not
/// below `addr`.
pub open spec fn align_up(addr: int, align: int) -> int {
    align_down(addr + at_least_one(align) - 1, align)
}

/// A power of two that fits in an address is two to an exponent below the
/// address width.
pub proof fn lemma_pow2_exponent(a: int) -> (k: nat)
    requires
        is_pow2(a),
        a <= usize::MAX,
    ensures
        a == pow2(k),
        k < usize::BITS,
{
    is_pow2_equiv(a);
    assert(is_pow2_exists(a));
    let k = choose|i: nat| pow(2, i) == a;
    lemma_pow2(k);
    unsigned_int_max_values();
    if k > usize::BITS {
        lemma_pow2_strictly_increases(usize::BITS as nat, k);
    }
    k
}

/// Two to any exponent is a power of two.
pub proof fn lemma_pow2_is_pow2(k: nat)
    ensures
        is_pow2(pow2(k) as int),
{
    lemma_pow2(k);
    assert(pow(2, k) == pow2(k) as int);
    assert(is_pow2_exists(pow2(k) as int));
    is_pow2_equiv(pow2(k) as int);
}

/// Clearing the low bits of a power of two rounds down to its multiple.
pub proof fn lemma_mask_rounds_down(x: usize, a: usize)
    requires
        is_pow2(a as int),
    ensures
        (x & !((a - 1) as usize)) == x - x % a,
{
    let k = lemma_pow2_exponent(a as int);
    lemma_pow2_pos(k);
    lemma_usize_low_bits_mask_is_mod(x, k);
    let m = (a - 1) as usize;
    assert(m == low_bits_mask(k) as usize);
    assert(x & !m == x - (x & m)) by (bit_vector);
}

/// Rounding down never moves an address upward, and moves it by less than
/// the alignment.
pub proof fn lemma_align_down_bounds(addr: int, align: int)
    requires
        0 <= addr <= usize::MAX,
    ensures
        0 <= align_down(addr, align) <= addr,
        addr - at_least_one(align) < align_down(addr, align),
{
    let a = at_least_one(align);
    if is_pow2(a) {
        lemma_mod_pos_bound(addr, a);
        lemma_mod_decreases(addr as nat, a as nat);
    } else {
        let x = addr as usize;
        let m = (a - 1) as usize;
        assert(x & !m <= x) by (bit_vector);
        assert(x - (x & !m) <= m) by (bit_vector);
    }
}

/// Rounded down to a power of two, an address is a multiple of it.
pub proof fn lemma_align_down_multiple(addr: int, align: int)
    requires
        is_pow2(at_least_one(align)),
    ensures
        align_down(addr, align) % at_least_one(align) == 0,
{
    let a = at_least_one(align);
    lemma_fundamental_div_mod(addr, a);
    lemma_mod_multiples_basic(addr / a, a);
}

/// Rounding up never moves an address downward, and moves it by less than
/// the alignment.
pub proof fn lemma_align_up_bounds(addr: int, align: int)
    requires
        0 <= addr,
        addr + at_least_one(align) - 1 <= usize::MAX,
    ensures
        addr <= align_up(addr, align) <= addr + at_least_one(align) - 1,
{
    lemma_align_down_bounds(addr + at_least_one(align) - 1, align);
}

/// Rounded up to a power of two, an address is a multiple of it.
pub proof fn lemma_align_up_multiple(addr: int, align: int)
    requires
        is_pow2(at_least_one(align)),
    ensures
        align_up(addr, align) % at_least_one(align) == 0,
{
    lemma_align_down_multiple(addr + at_least_one(align) - 1, align);
}

} // verus!
