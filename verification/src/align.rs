//! Rounding of offsets and sizes up to an alignment boundary.

use vstd::arithmetic::div_mod::{lemma_fundamental_div_mod_converse, lemma_mod_multiples_basic};
use vstd::arithmetic::power2::{lemma2_to64, lemma_pow2_pos, pow2};
use vstd::bits::{lemma_u64_low_bits_mask_is_mod, lemma_u64_pow2_no_overflow, low_bits_mask};
use vstd::prelude::*;

verus! {

/// The boundary, in bytes, on which the table's end and every payload start.
pub const ASSET_ALIGN_SIZE: u64 = 64;

/// `a` is one of 1, 2, 4, ..., 2^63.
pub open spec fn is_power_of_two(a: u64) -> bool {
    exists|k: nat| k < 64 && a == #[trigger] pow2(k)
}

/// The least multiple of `a` that is not below `v`, for `a > 0`.
pub open spec fn align_up_spec(v: int, a: int) -> int {
    if v % a == 0 {
        v
    } else {
        v - v % a + a
    }
}

/// What rounding up promises: the result is a multiple of the alignment, it is
/// not below the value, it is less than one alignment step above it, and
/// rounding it again changes nothing.
pub proof fn lemma_align_up_laws(v: int, a: int)
    requires
        a > 0,
    ensures
        align_up_spec(v, a) >= v,
        align_up_spec(v, a) < v + a,
        align_up_spec(v, a) % a == 0,
        align_up_spec(align_up_spec(v, a), a) == align_up_spec(v, a),
{
    if v % a != 0 {
        let q: int = v / a;
        assert(v == a * q + v % a) by {
            vstd::arithmetic::div_mod::lemma_fundamental_div_mod(v, a);
        }
        assert(v - v % a + a == a * (q + 1)) by (nonlinear_arith)
            requires
                v == a * q + v % a,
        ;
        assert((a * (q + 1)) % a == 0) by {
            lemma_mod_multiples_basic(q + 1, a);
            assert(a * (q + 1) == (q + 1) * a) by (nonlinear_arith);
        }
    }
}

/// 64 is a power of two.
pub proof fn lemma_asset_align_is_power_of_two()
    ensures
        is_power_of_two(ASSET_ALIGN_SIZE),
{
    lemma2_to64();
    assert(ASSET_ALIGN_SIZE == pow2(6));
}

proof fn lemma_clear_low_bits(x: u64, mask: u64)
    by (bit_vector)
    ensures
        x & !mask == x - (x & mask),
{
}

/// Rounds `val` up to the next multiple of `align`, which must be a power of
/// two, by `(val + (align - 1)) & !(align - 1)`.
pub fn align_up(val: u64, align: u64) -> (r: u64)
    requires
        is_power_of_two(align),
        val + (align - 1) <= u64::MAX,
    ensures
        r == align_up_spec(val as int, align as int),
        r >= val,
        r < val + align,
        r % align == 0,
{
    let ghost k: nat = choose|k: nat| k < 64 && align == #[trigger] pow2(k);
    proof {
        lemma_pow2_pos(k);
    }
    let mask: u64 = align - 1;
    let sum: u64 = val + mask;
    let r: u64 = sum & !mask;
    proof {
        lemma_u64_pow2_no_overflow(k);
        assert(mask == low_bits_mask(k) as u64);
        lemma_u64_low_bits_mask_is_mod(sum, k);
        assert(sum & mask == sum % align);
        lemma_clear_low_bits(sum, mask);
        assert(r == sum - sum % align);
        let a: int = align as int;
        let v: int = val as int;
        let q: int = v / a;
        vstd::arithmetic::div_mod::lemma_fundamental_div_mod(v, a);
        if v % a == 0 {
            assert(sum == q * a + (a - 1)) by (nonlinear_arith)
                requires
                    sum == v + (a - 1),
                    v == a * q + v % a,
                    v % a == 0,
            ;
            lemma_fundamental_div_mod_converse(sum as int, a, q, a - 1);
        } else {
            assert(sum == (q + 1) * a + (v % a - 1)) by (nonlinear_arith)
                requires
                    sum == v + (a - 1),
                    v == a * q + v % a,
            ;
            lemma_fundamental_div_mod_converse(sum as int, a, q + 1, v % a - 1);
        }
        lemma_align_up_laws(v, a);
    }
    r
}

} // verus!
