//! The pixel buffer model shared by every kernel.
//!
//! An image is `width × height` pixels of 4 bytes each (red, green, blue,
//! alpha), row-major, origin top-left, held in one contiguous byte buffer of
//! at least `width * height * 4` bytes. `width` and `height` arrive as
//! independently attacker-controllable 32-bit values, so that product is
//! always computed with overflow detection.

use vstd::prelude::*;

use vstd::arithmetic::div_mod::{
    lemma_fundamental_div_mod,
    lemma_fundamental_div_mod_converse,
    lemma_div_pos_is_pos,
    lemma_mod_bound,
    lemma_multiply_divide_lt,
};

verus! {

/// The byte size of a `w × h` image: four bytes for each pixel.
pub open spec fn image_size(w: int, h: int) -> int {
    w * h * 4
}

/// The byte index where pixel `(x, y)` starts.
pub open spec fn pixel_index(w: int, x: int, y: int) -> int {
    (y * w + x) * 4
}

/// Compute the byte size of a `width × height` image, refusing it when it
/// does not fit in the address space.
pub fn image_data_size(width: u32, height: u32) -> (r: Option<usize>)
    ensures
        r is Some <==> image_size(width as int, height as int) <= usize::MAX,
        r matches Some(n) ==> n == image_size(width as int, height as int),
{
    let wu: u128 = width as u128;
    let hu: u128 = height as u128;
    proof {
        assert(wu * hu <= 0xFFFF_FFFFu128 * 0xFFFF_FFFFu128) by (nonlinear_arith)
            requires
                wu <= 0xFFFF_FFFFu128,
                hu <= 0xFFFF_FFFFu128,
        ;
    }
    let bytes: u128 = wu * hu * 4;
    if bytes <= usize::MAX as u128 {
        Some(bytes as usize)
    } else {
        None
    }
}

/// A pixel's coordinates and channel determine its byte index, inside the
/// image, and the index decomposes back to them.
pub proof fn lemma_pixel_index(w: int, h: int, x: int, y: int, c: int)
    requires
        1 <= w,
        1 <= h,
        0 <= x < w,
        0 <= y < h,
        0 <= c < 4,
    ensures
        ({
            let i = pixel_index(w, x, y) + c;
            &&& 0 <= i < image_size(w, h)
            &&& i / 4 == y * w + x
            &&& i % 4 == c
            &&& (y * w + x) / w == y
            &&& (y * w + x) % w == x
        }),
{
    let p = y * w + x;
    assert(0 <= p && p + 1 <= w * h) by (nonlinear_arith)
        requires
            1 <= w,
            1 <= h,
            0 <= x < w,
            0 <= y < h,
            p == y * w + x,
    ;
    lemma_fundamental_div_mod_converse(p * 4 + c, 4, p, c);
    assert(p == x + w * y) by (nonlinear_arith)
        requires
            p == y * w + x,
    ;
    lemma_fundamental_div_mod_converse(p, w, y, x);
}

/// Every byte index inside the image belongs to exactly one pixel and
/// channel.
pub proof fn lemma_index_pixel(w: int, h: int, i: int)
    requires
        1 <= w,
        1 <= h,
        0 <= i < image_size(w, h),
    ensures
        ({
            let c = i % 4;
            let p = i / 4;
            let y = p / w;
            let x = p % w;
            &&& 0 <= c < 4
            &&& 0 <= x < w
            &&& 0 <= y < h
            &&& i == pixel_index(w, x, y) + c
        }),
{
    lemma_fundamental_div_mod(i, 4);
    lemma_mod_bound(i, 4);
    lemma_div_pos_is_pos(i, 4);
    let p = i / 4;
    assert(4 * (w * h) == w * h * 4) by (nonlinear_arith);
    lemma_multiply_divide_lt(i, 4, w * h);
    lemma_fundamental_div_mod(p, w);
    lemma_mod_bound(p, w);
    lemma_div_pos_is_pos(p, w);
    let y = p / w;
    let x = p % w;
    lemma_multiply_divide_lt(p, w, h);
    assert(p == y * w + x) by (nonlinear_arith)
        requires
            p == w * y + x,
    ;
}

} // verus!
