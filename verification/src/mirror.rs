//! The mirror plugin's kernels: pure in-place permutations of the pixel
//! buffer.
//!
//! Horizontal mirroring swaps pixel columns within each row; vertical
//! mirroring swaps whole rows. Both are their own inverse, and both leave a
//! buffer unchanged when the mirrored axis has size one.

use vstd::prelude::*;

use crate::image::{image_data_size, image_size, lemma_index_pixel, lemma_pixel_index, pixel_index};
use crate::params::{mirror_params_of, MirrorParams};
use crate::status::PluginError;
use vstd::arithmetic::div_mod::{
    lemma_fundamental_div_mod,
    lemma_fundamental_div_mod_converse,
    lemma_div_pos_is_pos,
    lemma_mod_bound,
    lemma_multiply_divide_lt,
};

verus! {

/// The byte index that byte `i` of a horizontally mirrored image is read
/// from: same row and channel, column `w - 1 - x`.
pub open spec fn mirror_h_source(w: int, i: int) -> int {
    let c = i % 4;
    let p = i / 4;
    let y = p / w;
    let x = p % w;
    pixel_index(w, w - 1 - x, y) + c
}

/// The horizontally mirrored image: every byte inside the image is read from
/// its column-mirrored position; bytes beyond the image are untouched.
pub open spec fn mirror_h(s: Seq<u8>, w: int, h: int) -> Seq<u8> {
    Seq::new(
        s.len(),
        |i: int|
            if 0 <= i < image_size(w, h) {
                s[mirror_h_source(w, i)]
            } else {
                s[i]
            },
    )
}

/// The byte index that byte `i` of a vertically mirrored image is read from:
/// same offset within the row, row `h - 1 - r`.
pub open spec fn mirror_v_source(w: int, h: int, i: int) -> int {
    let r = i / (w * 4);
    let o = i % (w * 4);
    (h - 1 - r) * (w * 4) + o
}

/// The vertically mirrored image: every byte inside the image is read from
/// its row-mirrored position; bytes beyond the image are untouched.
pub open spec fn mirror_v(s: Seq<u8>, w: int, h: int) -> Seq<u8> {
    Seq::new(
        s.len(),
        |i: int|
            if 0 <= i < image_size(w, h) {
                s[mirror_v_source(w, h, i)]
            } else {
                s[i]
            },
    )
}

/// Every byte index inside the image belongs to exactly one row and offset.
pub proof fn lemma_index_row(w: int, h: int, i: int)
    requires
        1 <= w,
        1 <= h,
        0 <= i < image_size(w, h),
    ensures
        ({
            let r = i / (w * 4);
            let o = i % (w * 4);
            &&& 0 <= r < h
            &&& 0 <= o < w * 4
            &&& i == r * (w * 4) + o
        }),
{
    assert(w * 4 > 0) by (nonlinear_arith)
        requires
            w >= 1,
    ;
    lemma_fundamental_div_mod(i, w * 4);
    lemma_mod_bound(i, w * 4);
    lemma_div_pos_is_pos(i, w * 4);
    assert(i < (w * 4) * h) by (nonlinear_arith)
        requires
            i < w * h * 4,
    ;
    lemma_multiply_divide_lt(i, w * 4, h);
    assert(i == (i / (w * 4)) * (w * 4) + i % (w * 4)) by (nonlinear_arith)
        requires
            i == (w * 4) * (i / (w * 4)) + i % (w * 4),
    ;
}

/// A row and offset determine their byte index, inside the image, and the
/// index decomposes back to them.
pub proof fn lemma_row_index(w: int, h: int, r: int, o: int)
    requires
        1 <= w,
        1 <= h,
        0 <= r < h,
        0 <= o < w * 4,
    ensures
        ({
            let i = r * (w * 4) + o;
            &&& 0 <= i < image_size(w, h)
            &&& i / (w * 4) == r
            &&& i % (w * 4) == o
        }),
{
    let i = r * (w * 4) + o;
    assert(0 <= i && i < w * h * 4) by (nonlinear_arith)
        requires
            1 <= w,
            1 <= h,
            0 <= r < h,
            0 <= o < w * 4,
            i == r * (w * 4) + o,
    ;
    lemma_fundamental_div_mod_converse(i, w * 4, r, o);
}

/// Swap the bytes at `a` and `b`.
fn swap_byte(pixels: &mut Vec<u8>, a: usize, b: usize)
    requires
        a < old(pixels)@.len(),
        b < old(pixels)@.len(),
    ensures
        final(pixels)@ == old(pixels)@.update(a as int, old(pixels)@[b as int]).update(
            b as int,
            old(pixels)@[a as int],
        ),
{
    let t = pixels[a];
    pixels[a] = pixels[b];
    pixels[b] = t;
}

/// Swap the two whole pixels starting at `a` and `b`, which do not overlap
/// unless equal.
fn swap_pixel(pixels: &mut Vec<u8>, a: usize, b: usize)
    requires
        a + 4 <= old(pixels)@.len(),
        b + 4 <= old(pixels)@.len(),
        a == b || a + 4 <= b || b + 4 <= a,
    ensures
        final(pixels)@.len() == old(pixels)@.len(),
        forall|i: int|
            0 <= i < final(pixels)@.len() ==> final(pixels)@[i] == (if a <= i < a + 4 {
                old(pixels)@[b + (i - a)]
            } else if b <= i < b + 4 {
                old(pixels)@[a + (i - b)]
            } else {
                old(pixels)@[i]
            }),
{
    let n = pixels.len();
    proof {
        assert(a + 4 <= n && b + 4 <= n);
    }
    let t = pixels[a];
    pixels[a] = pixels[b];
    pixels[b] = t;
    let t = pixels[a + 1];
    pixels[a + 1] = pixels[b + 1];
    pixels[b + 1] = t;
    let t = pixels[a + 2];
    pixels[a + 2] = pixels[b + 2];
    pixels[b + 2] = t;
    let t = pixels[a + 3];
    pixels[a + 3] = pixels[b + 3];
    pixels[b + 3] = t;
}

/// The buffer after the rows before `y` are fully mirrored and, within row
/// `y`, the outermost `k` column pairs are swapped.
spec fn mirror_h_partial(s: Seq<u8>, w: int, h: int, y: int, k: int) -> Seq<u8> {
    Seq::new(
        s.len(),
        |i: int|
            if 0 <= i < image_size(w, h) && {
                let p = i / 4;
                let py = p / w;
                let px = p % w;
                py < y || (py == y && (px < k || px >= w - k))
            } {
                s[mirror_h_source(w, i)]
            } else {
                s[i]
            },
    )
}

/// Mirror the image along its vertical axis: for each row independently,
/// pixel columns `x` and `w - 1 - x` trade places, all four bytes per pixel;
/// an odd middle column stays. In-place, touching nothing beyond the image.
pub fn mirror_horizontal(width: u32, height: u32, pixels: &mut Vec<u8>)
    requires
        image_size(width as int, height as int) <= usize::MAX,
        old(pixels)@.len() >= image_size(width as int, height as int),
    ensures
        final(pixels)@ == mirror_h(old(pixels)@, width as int, height as int),
{
    let w = width as usize;
    let h = height as usize;
    let ghost s0 = pixels@;
    let ghost wi = w as int;
    let ghost hi = h as int;

    if w == 0 || h == 0 {
        proof {
            assert(image_size(wi, hi) == 0) by (nonlinear_arith)
                requires
                    wi == 0 || hi == 0,
            ;
            assert(pixels@ =~= mirror_h(s0, wi, hi));
        }
        return ;
    }

    let mut y: usize = 0;
    proof {
        assert(pixels@ =~= mirror_h_partial(s0, wi, hi, 0, 0));
    }
    while y < h
        invariant
            0 < wi,
            0 < hi,
            w == wi,
            h == hi,
            y <= h,
            image_size(wi, hi) <= usize::MAX,
            s0.len() >= image_size(wi, hi),
            pixels@.len() == s0.len(),
            pixels@ == mirror_h_partial(s0, wi, hi, y as int, 0),
        decreases h - y,
    {
        let mut x: usize = 0;
        while x < w / 2
            invariant
                0 < wi,
                0 < hi,
                w == wi,
                h == hi,
                y < h,
                x <= w / 2,
                image_size(wi, hi) <= usize::MAX,
                s0.len() >= image_size(wi, hi),
                pixels@.len() == s0.len(),
                pixels@ == mirror_h_partial(s0, wi, hi, y as int, x as int),
            decreases w / 2 - x,
        {
            let ghost xi = x as int;
            let ghost yi = y as int;
            proof {
                lemma_pixel_index(wi, hi, xi, yi, 0);
                lemma_pixel_index(wi, hi, wi - 1 - xi, yi, 0);
            }
            let a = (y * w + x) * 4;
            let b = (y * w + (w - 1 - x)) * 4;
            let ghost prev = pixels@;
            proof {
                assert(a + 4 <= b) by {
                    assert(xi < wi - 1 - xi);
                    assert((yi * wi + xi) * 4 + 4 <= (yi * wi + (wi - 1 - xi)) * 4);
                }
            }
            swap_pixel(pixels, a, b);
            proof {
                let target = mirror_h_partial(s0, wi, hi, yi, xi + 1);
                assert forall|i: int| 0 <= i < pixels@.len() implies pixels@[i] == target[i] by {
                    if a <= i < a + 4 {
                        let c = i - a;
                        lemma_pixel_index(wi, hi, xi, yi, c);
                        lemma_pixel_index(wi, hi, wi - 1 - xi, yi, c);
                        assert(pixels@[i] == prev[b + c]);
                        assert(prev[b + c] == s0[b + c]);
                        assert(target[i] == s0[mirror_h_source(wi, i)]);
                        assert(mirror_h_source(wi, i) == pixel_index(wi, wi - 1 - xi, yi) + c);
                    } else if b <= i < b + 4 {
                        let c = i - b;
                        lemma_pixel_index(wi, hi, wi - 1 - xi, yi, c);
                        lemma_pixel_index(wi, hi, xi, yi, c);
                        assert(pixels@[i] == prev[a + c]);
                        assert(prev[a + c] == s0[a + c]);
                        assert(target[i] == s0[mirror_h_source(wi, i)]);
                        assert(mirror_h_source(wi, i) == pixel_index(wi, xi, yi) + c);
                    } else {
                        assert(pixels@[i] == prev[i]);
                        if 0 <= i < image_size(wi, hi) {
                            lemma_index_pixel(wi, hi, i);
                            let c = i % 4;
                            let p = i / 4;
                            let py = p / wi;
                            let px = p % wi;
                            if py == yi && px == xi {
                                lemma_pixel_index(wi, hi, xi, yi, c);
                                assert(false);
                            }
                            if py == yi && px == wi - 1 - xi {
                                lemma_pixel_index(wi, hi, wi - 1 - xi, yi, c);
                                assert(false);
                            }
                        }
                    }
                }
                assert(pixels@ =~= target);
            }
            x = x + 1;
        }
        proof {
            let target = mirror_h_partial(s0, wi, hi, y as int + 1, 0);
            assert forall|i: int| 0 <= i < pixels@.len() implies pixels@[i] == target[i] by {
                if 0 <= i < image_size(wi, hi) {
                    lemma_index_pixel(wi, hi, i);
                    let c = i % 4;
                    let p = i / 4;
                    let py = p / wi;
                    let px = p % wi;
                    if py == y as int && !(px < wi / 2 || px >= wi - wi / 2) {
                        // the odd middle column mirrors to itself
                        assert(px == wi - 1 - px);
                        lemma_pixel_index(wi, hi, px, py, c);
                        assert(mirror_h_source(wi, i) == i);
                    }
                }
            }
            assert(pixels@ =~= target);
        }
        y = y + 1;
    }
    proof {
        let target = mirror_h(s0, wi, hi);
        assert forall|i: int| 0 <= i < pixels@.len() implies pixels@[i] == target[i] by {
            if 0 <= i < image_size(wi, hi) {
                lemma_index_pixel(wi, hi, i);
            }
        }
        assert(pixels@ =~= target);
    }
}

/// The buffer after the row pairs before `y` are fully swapped and, within
/// the pair `(y, h - 1 - y)`, the first `k` bytes of each row are swapped.
spec fn mirror_v_partial(s: Seq<u8>, w: int, h: int, y: int, k: int) -> Seq<u8> {
    Seq::new(
        s.len(),
        |i: int|
            if 0 <= i < image_size(w, h) && {
                let r = i / (w * 4);
                let o = i % (w * 4);
                r < y || r > h - 1 - y || ((r == y || r == h - 1 - y) && o < k)
            } {
                s[mirror_v_source(w, h, i)]
            } else {
                s[i]
            },
    )
}

/// Mirror the image along its horizontal axis: rows `y` and `h - 1 - y`
/// trade places byte for byte; an odd middle row stays. In-place, touching
/// nothing beyond the image.
pub fn mirror_vertical(width: u32, height: u32, pixels: &mut Vec<u8>)
    requires
        image_size(width as int, height as int) <= usize::MAX,
        old(pixels)@.len() >= image_size(width as int, height as int),
    ensures
        final(pixels)@ == mirror_v(old(pixels)@, width as int, height as int),
{
    let w = width as usize;
    let h = height as usize;
    let ghost s0 = pixels@;
    let ghost wi = w as int;
    let ghost hi = h as int;

    if w == 0 || h == 0 {
        proof {
            assert(image_size(wi, hi) == 0) by (nonlinear_arith)
                requires
                    wi == 0 || hi == 0,
            ;
            assert(pixels@ =~= mirror_v(s0, wi, hi));
        }
        return ;
    }
    proof {
        assert(wi * 4 <= wi * hi * 4 <= usize::MAX) by (nonlinear_arith)
            requires
                1 <= wi,
                1 <= hi,
                image_size(wi, hi) <= usize::MAX,
        ;
    }
    let row_size = w * 4;

    let mut y: usize = 0;
    proof {
        assert(pixels@ =~= mirror_v_partial(s0, wi, hi, 0, 0)) by {
            assert forall|i: int| 0 <= i < s0.len() implies s0[i] == mirror_v_partial(
                s0,
                wi,
                hi,
                0,
                0,
            )[i] by {
                if 0 <= i < image_size(wi, hi) {
                    lemma_index_row(wi, hi, i);
                }
            }
        }
    }
    while y < h / 2
        invariant
            0 < wi,
            0 < hi,
            w == wi,
            h == hi,
            row_size == wi * 4,
            y <= h / 2,
            image_size(wi, hi) <= usize::MAX,
            s0.len() >= image_size(wi, hi),
            pixels@.len() == s0.len(),
            pixels@ == mirror_v_partial(s0, wi, hi, y as int, 0),
        decreases h / 2 - y,
    {
        let ghost yi = y as int;
        let mut k: usize = 0;
        while k < row_size
            invariant
                0 < wi,
                0 < hi,
                w == wi,
                h == hi,
                row_size == wi * 4,
                y < h / 2,
                yi == y as int,
                k <= row_size,
                image_size(wi, hi) <= usize::MAX,
                s0.len() >= image_size(wi, hi),
                pixels@.len() == s0.len(),
                pixels@ == mirror_v_partial(s0, wi, hi, yi, k as int),
            decreases row_size - k,
        {
            let ghost ki = k as int;
            proof {
                lemma_row_index(wi, hi, yi, ki);
                lemma_row_index(wi, hi, hi - 1 - yi, ki);
            }
            let a = y * row_size + k;
            let b = (h - 1 - y) * row_size + k;
            let ghost prev = pixels@;
            swap_byte(pixels, a, b);
            proof {
                let target = mirror_v_partial(s0, wi, hi, yi, ki + 1);
                assert(prev[b as int] == s0[b as int]);
                assert(prev[a as int] == s0[a as int]);
                assert forall|i: int| 0 <= i < pixels@.len() implies pixels@[i] == target[i] by {
                    if i == a as int {
                        assert(mirror_v_source(wi, hi, i) == b as int);
                    } else if i == b as int {
                        assert(mirror_v_source(wi, hi, i) == a as int);
                    } else if 0 <= i < image_size(wi, hi) {
                        lemma_index_row(wi, hi, i);
                        let r = i / (wi * 4);
                        let o = i % (wi * 4);
                        if o == ki && r == yi {
                            assert(false);
                        }
                        if o == ki && r == hi - 1 - yi {
                            assert(false);
                        }
                    }
                }
                assert(pixels@ =~= target);
            }
            k = k + 1;
        }
        proof {
            let target = mirror_v_partial(s0, wi, hi, yi + 1, 0);
            assert forall|i: int| 0 <= i < pixels@.len() implies pixels@[i] == target[i] by {
                if 0 <= i < image_size(wi, hi) {
                    lemma_index_row(wi, hi, i);
                }
            }
            assert(pixels@ =~= target);
        }
        y = y + 1;
    }
    proof {
        let target = mirror_v(s0, wi, hi);
        assert forall|i: int| 0 <= i < pixels@.len() implies pixels@[i] == target[i] by {
            if 0 <= i < image_size(wi, hi) {
                lemma_index_row(wi, hi, i);
                let r = i / (wi * 4);
                let o = i % (wi * 4);
                if !(r < hi / 2 || r > hi - 1 - hi / 2) {
                    // the odd middle row mirrors to itself
                    assert(r == hi - 1 - r);
                    assert(mirror_v_source(wi, hi, i) == i);
                }
            }
        }
        assert(pixels@ =~= target);
    }
}

/// Mirroring a one-column image along its vertical axis changes nothing.
pub proof fn lemma_mirror_h_width_one(s: Seq<u8>, h: int)
    requires
        0 <= h,
    ensures
        mirror_h(s, 1, h) == s,
{
    assert forall|i: int| 0 <= i < s.len() implies mirror_h(s, 1, h)[i] == s[i] by {
        if 0 <= i < image_size(1, h) {
            lemma_index_pixel(1, h, i);
            let c = i % 4;
            let p = i / 4;
            let y = p / 1;
            let x = p % 1;
            assert(x == 0);
            assert(mirror_h_source(1, i) == pixel_index(1, 0, y) + c == i);
        }
    }
    assert(mirror_h(s, 1, h) =~= s);
}

/// Mirroring a one-row image along its horizontal axis changes nothing.
pub proof fn lemma_mirror_v_height_one(s: Seq<u8>, w: int)
    requires
        0 <= w,
    ensures
        mirror_v(s, w, 1) == s,
{
    assert forall|i: int| 0 <= i < s.len() implies mirror_v(s, w, 1)[i] == s[i] by {
        if 0 <= i < image_size(w, 1) {
            lemma_index_row(w, 1, i);
            let r = i / (w * 4);
            let o = i % (w * 4);
            assert(r == 0);
            assert(mirror_v_source(w, 1, i) == i);
        }
    }
    assert(mirror_v(s, w, 1) =~= s);
}

/// Applying the horizontal mirror twice returns the buffer to its original
/// contents.
pub proof fn lemma_mirror_h_involution(s: Seq<u8>, w: int, h: int)
    requires
        0 <= w,
        0 <= h,
        s.len() >= image_size(w, h),
    ensures
        mirror_h(mirror_h(s, w, h), w, h) == s,
{
    let m1 = mirror_h(s, w, h);
    let m2 = mirror_h(m1, w, h);
    assert forall|i: int| 0 <= i < s.len() implies m2[i] == s[i] by {
        if 0 <= i < image_size(w, h) {
            assert(1 <= w && 1 <= h) by (nonlinear_arith)
                requires
                    0 <= w,
                    0 <= h,
                    0 <= i < w * h * 4,
            ;
            lemma_index_pixel(w, h, i);
            let c = i % 4;
            let p = i / 4;
            let y = p / w;
            let x = p % w;
            lemma_pixel_index(w, h, w - 1 - x, y, c);
            let src = pixel_index(w, w - 1 - x, y) + c;
            assert(m2[i] == m1[src]);
            assert(mirror_h_source(w, src) == pixel_index(w, x, y) + c);
            assert(mirror_h_source(w, src) == i);
        }
    }
    assert(m2 =~= s);
}

/// Applying the vertical mirror twice returns the buffer to its original
/// contents.
pub proof fn lemma_mirror_v_involution(s: Seq<u8>, w: int, h: int)
    requires
        0 <= w,
        0 <= h,
        s.len() >= image_size(w, h),
    ensures
        mirror_v(mirror_v(s, w, h), w, h) == s,
{
    let m1 = mirror_v(s, w, h);
    let m2 = mirror_v(m1, w, h);
    assert forall|i: int| 0 <= i < s.len() implies m2[i] == s[i] by {
        if 0 <= i < image_size(w, h) {
            assert(1 <= w && 1 <= h) by (nonlinear_arith)
                requires
                    0 <= w,
                    0 <= h,
                    0 <= i < w * h * 4,
            ;
            lemma_index_row(w, h, i);
            let r = i / (w * 4);
            let o = i % (w * 4);
            lemma_row_index(w, h, h - 1 - r, o);
            let src = (h - 1 - r) * (w * 4) + o;
            assert(m2[i] == m1[src]);
            assert(mirror_v_source(w, h, src) == r * (w * 4) + o);
            assert(mirror_v_source(w, h, src) == i);
        }
    }
    assert(m2 =~= s);
}

/// What the mirror plugin does to the buffer once its configuration is
/// decoded: horizontal mirroring is applied first, then vertical, each only
/// when its flag is set.
pub open spec fn apply_mirror(s: Seq<u8>, w: int, h: int, config: MirrorParams) -> Seq<u8> {
    let s1 = if config.horizontal {
        mirror_h(s, w, h)
    } else {
        s
    };
    if config.vertical {
        mirror_v(s1, w, h)
    } else {
        s1
    }
}

/// The mirror plugin's whole entry point over plain values: the boundary
/// guards, in order, and then the kernels. The caller reports whether each of
/// the two raw pointers was null; the unverifiable rim around this function
/// does nothing but that check, the construction of the byte views, and the
/// interception of abnormal termination.
///
/// The returned status code, and what the buffer holds afterwards, are pinned
/// down for every input: null pointers, then an undecodable parameter text,
/// then an oversized buffer each report their own code and leave the buffer
/// untouched; otherwise the mirrored buffer is reported as success.
pub fn process_image(
    width: u32,
    height: u32,
    image_null: bool,
    params_null: bool,
    pixels: &mut Vec<u8>,
    params: &Vec<u8>,
) -> (code: i32)
    requires
        image_size(width as int, height as int) <= usize::MAX ==> old(pixels)@.len()
            >= image_size(width as int, height as int),
    ensures
        image_null || params_null ==> code == PluginError::NullPointer.code_spec()
            && final(pixels)@ == old(pixels)@,
        !image_null && !params_null && mirror_params_of(params@) is None ==> code
            == PluginError::InvalidParams.code_spec() && final(pixels)@ == old(pixels)@,
        !image_null && !params_null ==> (mirror_params_of(params@) matches Some(config) ==>
        if image_size(width as int, height as int) > usize::MAX {
            code == PluginError::SizeIsTooBig.code_spec() && final(pixels)@ == old(pixels)@
        } else {
            code == PluginError::Success.code_spec() && final(pixels)@ == apply_mirror(
                old(pixels)@,
                width as int,
                height as int,
                config,
            )
        }),
{
    if image_null || params_null {
        return PluginError::NullPointer.code();
    }

    let config = match MirrorParams::parse(params) {
        None => {
            return PluginError::InvalidParams.code();
        },
        Some(config) => config,
    };

    if image_data_size(width, height).is_none() {
        return PluginError::SizeIsTooBig.code();
    }

    if config.horizontal {
        mirror_horizontal(width, height, pixels);
    }
    if config.vertical {
        mirror_vertical(width, height, pixels);
    }

    PluginError::Success.code()
}

} // verus!
