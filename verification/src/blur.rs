//! The blur plugin's box kernel: uniform local averaging over a square,
//! bounds-excluding neighborhood.
//!
//! For each pixel, the red, green and blue channels are averaged over all
//! pixels within `radius` of it in both axes that fall inside the image —
//! out-of-bounds neighbors are excluded from both sum and count, with no
//! wraparound and no clamping. The average truncates. The alpha channel is
//! copied unchanged. Each iteration writes into a scratch buffer before
//! copying back, so no pass ever averages over partially updated pixels.

use vstd::prelude::*;

use crate::image::{image_size, lemma_index_pixel, lemma_pixel_index, pixel_index};
use crate::params::{blur_params_of, BlurParams};
use crate::status::PluginError;
use vstd::arithmetic::div_mod::{lemma_div_is_ordered, lemma_div_multiples_vanish};

verus! {

/// Channel `c` of pixel `(x, y)`, as an integer.
pub open spec fn chan(s: Seq<u8>, w: int, x: int, y: int, c: int) -> int {
    s[pixel_index(w, x, y) + c] as int
}

/// Sum of channel `c` over the pixels `(kx, y)` for `x0 <= kx < x1`.
pub open spec fn row_sum(s: Seq<u8>, w: int, y: int, x0: int, x1: int, c: int) -> int
    decreases x1 - x0,
{
    if x0 >= x1 {
        0
    } else {
        chan(s, w, x0, y, c) + row_sum(s, w, y, x0 + 1, x1, c)
    }
}

/// Sum of channel `c` over the pixel window `x0 <= kx < x1`, `y0 <= ky < y1`.
pub open spec fn win_sum(s: Seq<u8>, w: int, y0: int, y1: int, x0: int, x1: int, c: int) -> int
    decreases y1 - y0,
{
    if y0 >= y1 {
        0
    } else {
        row_sum(s, w, y0, x0, x1, c) + win_sum(s, w, y0 + 1, y1, x0, x1, c)
    }
}

/// First column of the neighborhood of `x`: out-of-bounds columns excluded.
pub open spec fn win_lo(r: int, x: int) -> int {
    if x - r > 0 {
        x - r
    } else {
        0
    }
}

/// One past the last column of the neighborhood of `x` within width `w`.
pub open spec fn win_hi(w: int, r: int, x: int) -> int {
    if x + r + 1 < w {
        x + r + 1
    } else {
        w
    }
}

/// How many pixels the in-bounds neighborhood of `(x, y)` holds.
pub open spec fn box_count(w: int, h: int, r: int, x: int, y: int) -> int {
    (win_hi(w, r, x) - win_lo(r, x)) * (win_hi(h, r, y) - win_lo(r, y))
}

/// Byte `i` of the blurred image: color channels are the truncating average
/// of the neighborhood, the alpha channel is the source's own.
pub open spec fn box_pixel_value(s: Seq<u8>, w: int, h: int, r: int, i: int) -> u8 {
    let c = i % 4;
    let p = i / 4;
    let y = p / w;
    let x = p % w;
    if c == 3 {
        s[i]
    } else {
        (win_sum(s, w, win_lo(r, y), win_hi(h, r, y), win_lo(r, x), win_hi(w, r, x), c) / box_count(
            w,
            h,
            r,
            x,
            y,
        )) as u8
    }
}

/// One full averaging pass over the image; bytes beyond the image are
/// untouched.
pub open spec fn box_blur_once(s: Seq<u8>, w: int, h: int, r: int) -> Seq<u8> {
    Seq::new(
        s.len(),
        |i: int|
            if 0 <= i < image_size(w, h) {
                box_pixel_value(s, w, h, r, i)
            } else {
                s[i]
            },
    )
}

/// `n` averaging passes, each reading only the previous pass's output.
pub open spec fn box_blur_iter(s: Seq<u8>, w: int, h: int, r: int, n: nat) -> Seq<u8>
    decreases n,
{
    if n == 0 {
        s
    } else {
        box_blur_once(box_blur_iter(s, w, h, r, (n - 1) as nat), w, h, r)
    }
}

/// A row sum of `n` pixels lies between `0` and `255 * n`.
proof fn lemma_row_sum_bounds(s: Seq<u8>, w: int, h: int, y: int, x0: int, x1: int, c: int)
    requires
        1 <= w,
        1 <= h,
        s.len() >= image_size(w, h),
        0 <= y < h,
        0 <= x0,
        x1 <= w,
        0 <= c < 4,
    ensures
        0 <= row_sum(s, w, y, x0, x1, c) <= 255 * (if x1 - x0 >= 0 {
            x1 - x0
        } else {
            0
        }),
    decreases x1 - x0,
{
    if x0 < x1 {
        lemma_pixel_index(w, h, x0, y, c);
        lemma_row_sum_bounds(s, w, h, y, x0 + 1, x1, c);
    }
}

/// A window sum of `rows × cols` pixels lies between `0` and
/// `255 * rows * cols`.
proof fn lemma_win_sum_bounds(
    s: Seq<u8>,
    w: int,
    h: int,
    y0: int,
    y1: int,
    x0: int,
    x1: int,
    c: int,
)
    requires
        1 <= w,
        1 <= h,
        s.len() >= image_size(w, h),
        0 <= y0,
        y1 <= h,
        0 <= x0 <= x1 <= w,
        0 <= c < 4,
    ensures
        0 <= win_sum(s, w, y0, y1, x0, x1, c) <= 255 * (if y1 - y0 >= 0 {
            y1 - y0
        } else {
            0
        }) * (x1 - x0),
    decreases y1 - y0,
{
    if y0 < y1 {
        lemma_row_sum_bounds(s, w, h, y0, x0, x1, c);
        lemma_win_sum_bounds(s, w, h, y0 + 1, y1, x0, x1, c);
        assert(255 * (x1 - x0) + 255 * (y1 - y0 - 1) * (x1 - x0) == 255 * (y1 - y0) * (x1 - x0))
            by (nonlinear_arith);
    } else {
        assert(255 * 0 * (x1 - x0) == 0) by (nonlinear_arith);
    }
}

/// Extending a row sum by one column on the right adds that column's channel.
proof fn lemma_row_sum_snoc(s: Seq<u8>, w: int, y: int, x0: int, x1: int, c: int)
    requires
        x0 <= x1,
    ensures
        row_sum(s, w, y, x0, x1 + 1, c) == row_sum(s, w, y, x0, x1, c) + chan(s, w, x1, y, c),
    decreases x1 - x0,
{
    if x0 < x1 {
        lemma_row_sum_snoc(s, w, y, x0 + 1, x1, c);
    } else {
        assert(row_sum(s, w, y, x0, x1, c) == 0);
        assert(row_sum(s, w, y, x1 + 1, x1 + 1, c) == 0);
    }
}

/// Extending a window sum by one row at the bottom adds that row's sum.
proof fn lemma_win_sum_snoc(s: Seq<u8>, w: int, y0: int, y1: int, x0: int, x1: int, c: int)
    requires
        y0 <= y1,
    ensures
        win_sum(s, w, y0, y1 + 1, x0, x1, c) == win_sum(s, w, y0, y1, x0, x1, c) + row_sum(
            s,
            w,
            y1,
            x0,
            x1,
            c,
        ),
    decreases y1 - y0,
{
    if y0 < y1 {
        lemma_win_sum_snoc(s, w, y0 + 1, y1, x0, x1, c);
    } else {
        assert(win_sum(s, w, y0, y1, x0, x1, c) == 0);
        assert(win_sum(s, w, y1 + 1, y1 + 1, x0, x1, c) == 0);
    }
}

/// Average the three color channels of the in-bounds neighborhood of
/// `(x, y)`: exactly the window sums divided by the window's pixel count.
fn blur_pixel(src: &Vec<u8>, w: usize, h: usize, r: usize, x: usize, y: usize) -> (out: (
    u8,
    u8,
    u8,
))
    requires
        0 < w,
        0 < h,
        x < w,
        y < h,
        image_size(w as int, h as int) <= usize::MAX,
        src@.len() >= image_size(w as int, h as int),
    ensures
        ({
            let xl = win_lo(r as int, x as int);
            let xh = win_hi(w as int, r as int, x as int);
            let yl = win_lo(r as int, y as int);
            let yh = win_hi(h as int, r as int, y as int);
            let cnt = box_count(w as int, h as int, r as int, x as int, y as int);
            &&& out.0 as int == win_sum(src@, w as int, yl, yh, xl, xh, 0) / cnt
            &&& out.1 as int == win_sum(src@, w as int, yl, yh, xl, xh, 1) / cnt
            &&& out.2 as int == win_sum(src@, w as int, yl, yh, xl, xh, 2) / cnt
        }),
{
    let ghost wi = w as int;
    let ghost hi = h as int;
    let ghost ri = r as int;
    let ghost se = src@;

    let x0 = if x > r {
        x - r
    } else {
        0
    };
    let x1 = if w - 1 - x > r {
        x + r + 1
    } else {
        w
    };
    let y0 = if y > r {
        y - r
    } else {
        0
    };
    let y1 = if h - 1 - y > r {
        y + r + 1
    } else {
        h
    };
    proof {
        assert(x0 as int == win_lo(ri, x as int));
        assert(x1 as int == win_hi(wi, ri, x as int));
        assert(y0 as int == win_lo(ri, y as int));
        assert(y1 as int == win_hi(hi, ri, y as int));
        assert(x0 <= x < x1 <= w);
        assert(y0 <= y < y1 <= h);
    }

    let cols = x1 - x0;
    let rows = y1 - y0;
    proof {
        assert(cols as u128 * rows as u128 == (cols as int) * (rows as int)) by (nonlinear_arith)
            requires
                0 < cols,
                0 < rows,
        ;
        assert((cols as int) * (rows as int) >= 1) by (nonlinear_arith)
            requires
                0 < cols,
                0 < rows,
        ;
        assert((cols as int) * (rows as int) <= wi * hi) by (nonlinear_arith)
            requires
                0 < cols <= wi,
                0 < rows <= hi,
        ;
    }
    let cnt: u128 = cols as u128 * rows as u128;

    let mut r_acc: u128 = 0;
    let mut g_acc: u128 = 0;
    let mut b_acc: u128 = 0;
    let mut ky = y0;
    while ky < y1
        invariant
            0 < wi,
            0 < hi,
            w == wi,
            h == hi,
            r == ri,
            se == src@,
            image_size(wi, hi) <= usize::MAX,
            se.len() >= image_size(wi, hi),
            x < w,
            y < h,
            x0 as int == win_lo(ri, x as int),
            x1 as int == win_hi(wi, ri, x as int),
            y0 as int == win_lo(ri, y as int),
            y1 as int == win_hi(hi, ri, y as int),
            x0 <= x < x1 <= w,
            y0 <= ky <= y1 <= h,
            y0 <= y < y1,
            r_acc == win_sum(se, wi, y0 as int, ky as int, x0 as int, x1 as int, 0),
            g_acc == win_sum(se, wi, y0 as int, ky as int, x0 as int, x1 as int, 1),
            b_acc == win_sum(se, wi, y0 as int, ky as int, x0 as int, x1 as int, 2),
        decreases y1 - ky,
    {
        let ghost kyi = ky as int;
        let mut kx = x0;
        proof {
            assert(row_sum(se, wi, kyi, x0 as int, x0 as int, 0) == 0);
            assert(row_sum(se, wi, kyi, x0 as int, x0 as int, 1) == 0);
            assert(row_sum(se, wi, kyi, x0 as int, x0 as int, 2) == 0);
        }
        while kx < x1
            invariant
                0 < wi,
                0 < hi,
                w == wi,
                h == hi,
                r == ri,
                se == src@,
                image_size(wi, hi) <= usize::MAX,
                se.len() >= image_size(wi, hi),
                kyi == ky as int,
                x0 <= kx <= x1 <= w,
                y0 <= ky < y1 <= h,
                r_acc == win_sum(se, wi, y0 as int, kyi, x0 as int, x1 as int, 0) + row_sum(
                    se,
                    wi,
                    kyi,
                    x0 as int,
                    kx as int,
                    0,
                ),
                g_acc == win_sum(se, wi, y0 as int, kyi, x0 as int, x1 as int, 1) + row_sum(
                    se,
                    wi,
                    kyi,
                    x0 as int,
                    kx as int,
                    1,
                ),
                b_acc == win_sum(se, wi, y0 as int, kyi, x0 as int, x1 as int, 2) + row_sum(
                    se,
                    wi,
                    kyi,
                    x0 as int,
                    kx as int,
                    2,
                ),
            decreases x1 - kx,
        {
            proof {
                lemma_pixel_index(wi, hi, kx as int, kyi, 0);
                lemma_pixel_index(wi, hi, kx as int, kyi, 1);
                lemma_pixel_index(wi, hi, kx as int, kyi, 2);
                lemma_win_sum_bounds(se, wi, hi, y0 as int, kyi, x0 as int, x1 as int, 0);
                lemma_win_sum_bounds(se, wi, hi, y0 as int, kyi, x0 as int, x1 as int, 1);
                lemma_win_sum_bounds(se, wi, hi, y0 as int, kyi, x0 as int, x1 as int, 2);
                lemma_row_sum_bounds(se, wi, hi, kyi, x0 as int, kx as int, 0);
                lemma_row_sum_bounds(se, wi, hi, kyi, x0 as int, kx as int, 1);
                lemma_row_sum_bounds(se, wi, hi, kyi, x0 as int, kx as int, 2);
                assert(255 * (kyi - y0) * (x1 - x0) + 255 * (kx - x0) + 255 < u128::MAX)
                    by (nonlinear_arith)
                    requires
                        0 <= kyi - y0 <= hi,
                        0 < x1 as int - x0 <= wi,
                        0 <= kx as int - x0 <= wi,
                        wi * hi <= usize::MAX <= u64::MAX,
                        wi <= usize::MAX <= u64::MAX,
                ;
                assert(wi * hi <= usize::MAX) by (nonlinear_arith)
                    requires
                        wi * hi * 4 <= usize::MAX,
                        0 < wi,
                        0 < hi,
                ;
                lemma_row_sum_snoc(se, wi, kyi, x0 as int, kx as int, 0);
                lemma_row_sum_snoc(se, wi, kyi, x0 as int, kx as int, 1);
                lemma_row_sum_snoc(se, wi, kyi, x0 as int, kx as int, 2);
            }
            let idx = (ky * w + kx) * 4;
            r_acc = r_acc + src[idx] as u128;
            g_acc = g_acc + src[idx + 1] as u128;
            b_acc = b_acc + src[idx + 2] as u128;
            kx = kx + 1;
        }
        proof {
            lemma_win_sum_snoc(se, wi, y0 as int, kyi, x0 as int, x1 as int, 0);
            lemma_win_sum_snoc(se, wi, y0 as int, kyi, x0 as int, x1 as int, 1);
            lemma_win_sum_snoc(se, wi, y0 as int, kyi, x0 as int, x1 as int, 2);
        }
        ky = ky + 1;
    }

    proof {
        lemma_win_sum_bounds(se, wi, hi, y0 as int, y1 as int, x0 as int, x1 as int, 0);
        lemma_win_sum_bounds(se, wi, hi, y0 as int, y1 as int, x0 as int, x1 as int, 1);
        lemma_win_sum_bounds(se, wi, hi, y0 as int, y1 as int, x0 as int, x1 as int, 2);
        assert(255 * (y1 - y0) * (x1 - x0) == 255 * ((cols as int) * (rows as int)))
            by (nonlinear_arith)
            requires
                cols == x1 - x0,
                rows == y1 - y0,
        ;
        lemma_div_is_ordered(r_acc as int, 255 * (cnt as int), cnt as int);
        lemma_div_is_ordered(g_acc as int, 255 * (cnt as int), cnt as int);
        lemma_div_is_ordered(b_acc as int, 255 * (cnt as int), cnt as int);
        lemma_div_multiples_vanish(255, cnt as int);
        assert(cnt as int == box_count(wi, hi, ri, x as int, y as int));
    }
    ((r_acc / cnt) as u8, (g_acc / cnt) as u8, (b_acc / cnt) as u8)
}

/// The buffer `d` after its first `upto` pixels are overwritten with their
/// blurred values.
spec fn box_partial(s: Seq<u8>, d: Seq<u8>, w: int, h: int, r: int, upto: int) -> Seq<u8> {
    Seq::new(
        d.len(),
        |i: int|
            if 0 <= i < upto * 4 {
                box_pixel_value(s, w, h, r, i)
            } else {
                d[i]
            },
    )
}

/// One averaging pass: read every pixel's neighborhood from `src`, write the
/// averaged pixel to `dst`. Bytes of `dst` beyond the image are untouched.
pub fn apply_box_blur(width: usize, height: usize, src: &Vec<u8>, dst: &mut Vec<u8>, radius: usize)
    requires
        image_size(width as int, height as int) <= usize::MAX,
        src@.len() >= image_size(width as int, height as int),
        old(dst)@.len() >= image_size(width as int, height as int),
    ensures
        final(dst)@.len() == old(dst)@.len(),
        forall|i: int|
            0 <= i < image_size(width as int, height as int) ==> final(dst)@[i]
                == box_pixel_value(src@, width as int, height as int, radius as int, i),
        forall|i: int|
            image_size(width as int, height as int) <= i < final(dst)@.len() ==> final(dst)@[i]
                == old(dst)@[i],
{
    let w = width;
    let h = height;
    let r = radius;
    let ghost wi = w as int;
    let ghost hi = h as int;
    let ghost ri = r as int;
    let ghost se = src@;
    let ghost d0 = dst@;

    if w == 0 || h == 0 {
        proof {
            assert(image_size(wi, hi) == 0) by (nonlinear_arith)
                requires
                    wi == 0 || hi == 0,
            ;
        }
        return ;
    }

    let mut y: usize = 0;
    proof {
        assert(dst@ =~= box_partial(se, d0, wi, hi, ri, 0));
    }
    while y < h
        invariant
            0 < wi,
            0 < hi,
            w == wi,
            h == hi,
            r == ri,
            y <= h,
            image_size(wi, hi) <= usize::MAX,
            se == src@,
            se.len() >= image_size(wi, hi),
            dst@.len() == d0.len(),
            d0.len() >= image_size(wi, hi),
            dst@ == box_partial(se, d0, wi, hi, ri, y as int * wi),
        decreases h - y,
    {
        let ghost yi = y as int;
        let mut x: usize = 0;
        proof {
            assert(yi * wi + 0 == yi * wi);
        }
        while x < w
            invariant
                0 < wi,
                0 < hi,
                w == wi,
                h == hi,
                r == ri,
                yi == y as int,
                y < h,
                x <= w,
                image_size(wi, hi) <= usize::MAX,
                se == src@,
                se.len() >= image_size(wi, hi),
                dst@.len() == d0.len(),
                d0.len() >= image_size(wi, hi),
                dst@ == box_partial(se, d0, wi, hi, ri, yi * wi + x as int),
            decreases w - x,
        {
            let ghost xi = x as int;
            let (rv, gv, bv) = blur_pixel(src, w, h, r, x, y);
            proof {
                lemma_pixel_index(wi, hi, xi, yi, 0);
                lemma_pixel_index(wi, hi, xi, yi, 1);
                lemma_pixel_index(wi, hi, xi, yi, 2);
                lemma_pixel_index(wi, hi, xi, yi, 3);
            }
            let out = (y * w + x) * 4;
            let ghost prev = dst@;
            dst[out] = rv;
            dst[out + 1] = gv;
            dst[out + 2] = bv;
            dst[out + 3] = src[out + 3];
            proof {
                let upto = yi * wi + xi;
                let target = box_partial(se, d0, wi, hi, ri, upto + 1);
                assert forall|i: int| 0 <= i < dst@.len() implies dst@[i] == target[i] by {
                    if out <= i < out + 4 {
                        let c = i - out;
                        lemma_pixel_index(wi, hi, xi, yi, c);
                        assert(i / 4 == yi * wi + xi && i % 4 == c);
                    } else {
                        assert(dst@[i] == prev[i]);
                        if 0 <= i < (upto + 1) * 4 {
                            assert(i < upto * 4 || out <= i < out + 4);
                        }
                    }
                }
                assert(dst@ =~= target);
            }
            x = x + 1;
        }
        proof {
            assert((yi + 1) * wi == yi * wi + wi) by (nonlinear_arith);
        }
        y = y + 1;
    }
    proof {
        assert(hi * wi == wi * hi) by (nonlinear_arith);
        assert(dst@ == box_partial(se, d0, wi, hi, ri, wi * hi));
        assert forall|i: int| 0 <= i < image_size(wi, hi) implies dst@[i] == box_pixel_value(
            se,
            wi,
            hi,
            ri,
            i,
        ) by {
            assert(i < (wi * hi) * 4);
        }
    }
}

/// Apply `iterations` averaging passes of half-width `radius` to the image in
/// place, each pass writing into a scratch buffer and copying back, so that
/// no pass averages over partially updated pixels.
pub fn run_box_blur(width: u32, height: u32, pixels: &mut Vec<u8>, radius: u32, iterations: u32)
    requires
        image_size(width as int, height as int) <= usize::MAX,
        old(pixels)@.len() >= image_size(width as int, height as int),
    ensures
        final(pixels)@ == box_blur_iter(
            old(pixels)@,
            width as int,
            height as int,
            radius as int,
            iterations as nat,
        ),
{
    let ghost wi = width as int;
    let ghost hi = height as int;
    let ghost ri = radius as int;
    let ghost s0 = pixels@;

    let size = match crate::image::image_data_size(width, height) {
        Some(n) => n,
        None => {
            proof {
                assert(false);
            }
            0
        },
    };
    let mut buffer: Vec<u8> = vec![0u8; size];

    let mut it: u32 = 0;
    while it < iterations
        invariant
            it <= iterations,
            image_size(wi, hi) <= usize::MAX,
            size == image_size(wi, hi),
            width as int == wi,
            height as int == hi,
            radius as int == ri,
            s0.len() >= image_size(wi, hi),
            buffer@.len() == size,
            pixels@.len() == s0.len(),
            pixels@ == box_blur_iter(s0, wi, hi, ri, it as nat),
        decreases iterations - it,
    {
        let ghost cur = pixels@;
        apply_box_blur(width as usize, height as usize, pixels, &mut buffer, radius as usize);
        let mut i: usize = 0;
        while i < size
            invariant
                i <= size,
                size == image_size(wi, hi),
                buffer@.len() == size,
                pixels@.len() == cur.len(),
                cur.len() >= image_size(wi, hi),
                forall|k: int| 0 <= k < i ==> pixels@[k] == buffer@[k],
                forall|k: int| i <= k < pixels@.len() ==> pixels@[k] == cur[k],
                forall|k: int|
                    0 <= k < size ==> buffer@[k] == box_pixel_value(cur, wi, hi, ri, k),
            decreases size - i,
        {
            pixels[i] = buffer[i];
            i = i + 1;
        }
        proof {
            let target = box_blur_once(cur, wi, hi, ri);
            assert forall|k: int| 0 <= k < pixels@.len() implies pixels@[k] == target[k] by {
                if 0 <= k < size as int {
                    assert(pixels@[k] == buffer@[k]);
                    assert(buffer@[k] == box_pixel_value(cur, wi, hi, ri, k));
                } else {
                    assert(pixels@[k] == cur[k]);
                }
            }
            assert(pixels@ =~= target);
        }
        it = it + 1;
    }
}

/// Blurring never changes the buffer's length.
pub proof fn lemma_box_blur_iter_len(s: Seq<u8>, w: int, h: int, r: int, n: nat)
    ensures
        box_blur_iter(s, w, h, r, n).len() == s.len(),
    decreases n,
{
    if n > 0 {
        lemma_box_blur_iter_len(s, w, h, r, (n - 1) as nat);
    }
}

/// With radius `0` every neighborhood is the pixel itself, so one pass
/// changes nothing.
proof fn lemma_box_blur_once_radius_zero(s: Seq<u8>, w: int, h: int)
    requires
        0 <= w,
        0 <= h,
        s.len() >= image_size(w, h),
    ensures
        box_blur_once(s, w, h, 0) == s,
{
    assert forall|i: int| 0 <= i < s.len() implies box_blur_once(s, w, h, 0)[i] == s[i] by {
        if 0 <= i < image_size(w, h) {
            assert(1 <= w && 1 <= h) by (nonlinear_arith)
                requires
                    0 <= w,
                    0 <= h,
                    0 <= i < w * h * 4,
            ;
            lemma_index_pixel(w, h, i);
            let c = i % 4;
            let p = i / 4;
            let y = p / w;
            let x = p % w;
            if c != 3 {
                assert(win_lo(0, x) == x && win_hi(w, 0, x) == x + 1);
                assert(win_lo(0, y) == y && win_hi(h, 0, y) == y + 1);
                assert(row_sum(s, w, y, x + 1, x + 1, c) == 0);
                assert(row_sum(s, w, y, x, x + 1, c) == chan(s, w, x, y, c));
                assert(win_sum(s, w, y + 1, y + 1, x, x + 1, c) == 0);
                assert(win_sum(s, w, y, y + 1, x, x + 1, c) == chan(s, w, x, y, c));
                let cw = win_hi(w, 0, x) - win_lo(0, x);
                let ch = win_hi(h, 0, y) - win_lo(0, y);
                assert(cw == 1 && ch == 1);
                assert(cw * ch == 1) by (nonlinear_arith)
                    requires
                        cw == 1,
                        ch == 1,
                ;
                assert(box_count(w, h, 0, x, y) == 1);
                assert(chan(s, w, x, y, c) / 1 == chan(s, w, x, y, c));
            }
        }
    }
    assert(box_blur_once(s, w, h, 0) =~= s);
}

/// A blur with radius `0`, or with no iterations, leaves the buffer
/// byte-for-byte unchanged.
pub proof fn lemma_box_blur_identity(s: Seq<u8>, w: int, h: int, r: int, n: nat)
    requires
        0 <= w,
        0 <= h,
        s.len() >= image_size(w, h),
        r == 0 || n == 0,
    ensures
        box_blur_iter(s, w, h, r, n) == s,
    decreases n,
{
    if n > 0 {
        lemma_box_blur_identity(s, w, h, r, (n - 1) as nat);
        lemma_box_blur_once_radius_zero(s, w, h);
    }
}

/// The box blur preserves the alpha channel exactly at every pixel, whatever
/// the radius and however many the iterations.
pub proof fn lemma_box_blur_preserves_alpha(s: Seq<u8>, w: int, h: int, r: int, n: nat, i: int)
    requires
        0 <= i < s.len(),
        i % 4 == 3,
    ensures
        box_blur_iter(s, w, h, r, n)[i] == s[i],
    decreases n,
{
    if n > 0 {
        lemma_box_blur_preserves_alpha(s, w, h, r, (n - 1) as nat, i);
        lemma_box_blur_iter_len(s, w, h, r, (n - 1) as nat);
    }
}

/// What the blur plugin's entry point decides to do for one invocation.
#[derive(Clone, Copy, Debug, PartialEq, Eq, Structural)]
pub enum BlurAction {
    /// Return this failing status; the buffer must stay untouched.
    Reject(PluginError),
    /// Report success without touching the buffer.
    Identity,
    /// Run the box kernel with this configuration, then report success.
    RunBox(BlurParams),
    /// Run the weighted kernel with this configuration, then report success.
    /// That kernel computes with floating point, which this library does not
    /// hold; it runs outside, against this same decision.
    RunWeighted(BlurParams),
}

/// The blur plugin's boundary guards, in order, before any algorithm runs:
/// null pointers, then the parameter text, then the buffer size with its
/// overflow check — oversized dimensions are rejected even when the
/// configuration would ask for no work. Only then comes the defined no-op
/// for a zero radius or iteration count, and, past it, exactly which kernel
/// to run; the caller performs the returned action and reports success.
pub fn plan(
    width: u32,
    height: u32,
    image_null: bool,
    params_null: bool,
    params: &Vec<u8>,
) -> (action: BlurAction)
    ensures
        image_null || params_null ==> action == BlurAction::Reject(PluginError::NullPointer),
        !image_null && !params_null && blur_params_of(params@) is None ==> action
            == BlurAction::Reject(PluginError::InvalidParams),
        !image_null && !params_null ==> (blur_params_of(params@) matches Some(config) ==> (
        if image_size(width as int, height as int) > usize::MAX {
            action == BlurAction::Reject(PluginError::SizeIsTooBig)
        } else if config.radius == 0 || config.iterations == 0 {
            action == BlurAction::Identity
        } else if config.weighted {
            action == BlurAction::RunWeighted(config)
        } else {
            action == BlurAction::RunBox(config)
        })),
{
    if image_null || params_null {
        return BlurAction::Reject(PluginError::NullPointer);
    }

    let config = match BlurParams::parse(params) {
        None => {
            return BlurAction::Reject(PluginError::InvalidParams);
        },
        Some(config) => config,
    };

    if crate::image::image_data_size(width, height).is_none() {
        return BlurAction::Reject(PluginError::SizeIsTooBig);
    }

    if config.radius == 0 || config.iterations == 0 {
        return BlurAction::Identity;
    }

    if config.weighted {
        BlurAction::RunWeighted(config)
    } else {
        BlurAction::RunBox(config)
    }
}

} // verus!
