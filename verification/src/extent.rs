//! Image extents along the mip chain and row alignment for texture read-back.

use vstd::prelude::*;
use vstd::arithmetic::power2::pow2;
use vstd::arithmetic::div_mod::lemma_div_denominator;
use vstd::arithmetic::power2::lemma_pow2_pos;
use vstd::arithmetic::power2::lemma_pow2_unfold;
use vstd::arithmetic::power2::lemma2_to64;
use vstd::bits::lemma_u32_shr_is_div;

verus! {

/// Extent (width or height) of mip level `level` for a base extent `size`:
/// the base halved `level` times, never below one texel.
pub open spec fn spec_level_extent(size: u32, level: nat) -> nat {
    let halved = size as nat / pow2(level);
    if halved == 0 { 1 } else { halved }
}

/// `(size >> level).max(1)`: the extent of mip level `level`.
pub fn level_extent(size: u32, level: usize) -> (r: u32)
    requires
        level < 32,
    ensures
        r == spec_level_extent(size, level as nat),
        r >= 1,
{
    let shift: u32 = level as u32;
    let halved: u32 = size >> shift;
    proof {
        lemma_u32_shr_is_div(size, shift);
    }
    if halved == 0 { 1 } else { halved }
}

/// Each mip level is half the previous one (rounded down), but never below one texel.
pub proof fn lemma_level_extent_halves(size: u32, level: nat)
    ensures
        spec_level_extent(size, level + 1) == if spec_level_extent(size, level) / 2 == 0 {
            1
        } else {
            spec_level_extent(size, level) / 2
        },
        spec_level_extent(size, 0) == if size == 0 { 1 } else { size as nat },
{
    lemma_pow2_pos(level);
    lemma_pow2_unfold(level + 1);
    lemma_div_denominator(size as int, pow2(level) as int, 2);
    lemma2_to64();
}

/// A mip extent lies between one and the base extent (or one, for a zero base).
pub proof fn lemma_level_extent_bounded(size: u32, level: nat)
    ensures
        1 <= spec_level_extent(size, level) <= if size == 0 { 1 } else { size as nat },
{
    lemma_pow2_pos(level);
    let p = pow2(level);
    assert(size as nat / p <= size) by (nonlinear_arith)
        requires
            p >= 1,
    ;
}

/// Whether `align` is a power of two that fits in a `u32`.
pub open spec fn is_pow2_u32(align: u32) -> bool {
    exists|k: u32| k < 32 && align == (1u32 << k)
}

proof fn lemma_mask_round_up(x: u32, k: u32)
    requires
        k < 32,
        x as int + (1u32 << k) as int - 1 <= u32::MAX,
    ensures
        (((x + ((1u32 << k) - 1)) as u32) & !(((1u32 << k) - 1) as u32)) % (1u32 << k) == 0,
        x <= (((x + ((1u32 << k) - 1)) as u32) & !(((1u32 << k) - 1) as u32)),
        (((x + ((1u32 << k) - 1)) as u32) & !(((1u32 << k) - 1) as u32)) < x as int + (1u32 << k) as int,
{
    assert(
        (((x + ((1u32 << k) - 1)) as u32) & !(((1u32 << k) - 1) as u32)) % (1u32 << k) == 0
        && x <= (((x + ((1u32 << k) - 1)) as u32) & !(((1u32 << k) - 1) as u32))
        && (((x + ((1u32 << k) - 1)) as u32) & !(((1u32 << k) - 1) as u32)) < x as int + (1u32 << k) as int
    ) by (bit_vector)
        requires
            k < 32,
            x as int + (1u32 << k) as int - 1 <= u32::MAX,
    ;
}

/// Bytes per row of the read-back buffer: `4 * width` rounded up to a multiple of `align`,
/// computed as `(4 * width + (align - 1)) & !(align - 1)`.
pub fn padded_width_in_bytes(width: u32, align: u32) -> (r: u32)
    requires
        is_pow2_u32(align),
        4 * width as int + align as int - 1 <= u32::MAX,
    ensures
        r % align == 0,
        4 * width <= r,
        r < 4 * width + align,
{
    let ghost k = choose|k: u32| k < 32 && align == (1u32 << k);
    assert(k < 32 ==> (1u32 << k) >= 1) by (bit_vector);
    let row: u32 = 4 * width;
    let r: u32 = (row + (align - 1)) & !(align - 1);
    proof {
        lemma_mask_round_up(row, k);
    }
    r
}


/// Size in bytes of the read-back buffer: `height` rows of `padded_width_in_bytes` bytes.
pub fn readback_buffer_size(padded_width_in_bytes: u32, height: u32) -> (r: u64)
    requires
        (padded_width_in_bytes as int) * (height as int) <= u32::MAX,
    ensures
        r == (padded_width_in_bytes as int) * (height as int),
{
    (padded_width_in_bytes * height) as u64
}

/// Length of the QOI output file, set before encoding: `width * height * 4 + 22` bytes.
pub fn qoi_output_file_len(width: u32, height: u32) -> (r: u64)
    requires
        (width as int) * (height as int) * 4 + 22 <= u32::MAX,
    ensures
        r == (width as int) * (height as int) * 4 + 22,
{
    ((width * height * 4) + 22) as u64
}

} // verus!
