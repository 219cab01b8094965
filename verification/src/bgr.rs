//! Conversion of an RGBA raster into the bottom-up, row-padded BGR layout of a
//! 24-bit device-independent bitmap.

use vstd::prelude::*;
use vstd::arithmetic::div_mod::lemma_fundamental_div_mod_converse;
use crate::raster::{Raster, raster_dims, raster_bytes};

verus! {

/// Bytes in one padded BGR row of `w` pixels: `3 * w` rounded up to a multiple of 4.
pub open spec fn bgr_stride(w: int) -> int {
    3 * w + (4 - (3 * w) % 4) % 4
}

/// Byte `k` of BGR row `y` of a `w x h` RGBA raster `rgba`: rows run from the
/// bottom of the raster upwards, each pixel gives blue, green, red, and the
/// padding after `3 * w` bytes is zero.
pub open spec fn bgr_byte(rgba: Seq<u8>, w: int, h: int, y: int, k: int) -> u8 {
    if k < 3 * w {
        rgba[4 * ((h - 1 - y) * w + k / 3) + (2 - k % 3)]
    } else {
        0
    }
}

/// The whole bottom-up BGR bitmap of a `w x h` RGBA raster.
pub open spec fn bgr_bitmap(rgba: Seq<u8>, w: int, h: int) -> Seq<u8> {
    let stride = bgr_stride(w);
    Seq::new(
        (stride * h) as nat,
        |i: int| bgr_byte(rgba, w, h, i / stride, i % stride),
    )
}

proof fn lemma_stride_bounds(w: int)
    requires
        w >= 1,
    ensures
        3 * w <= bgr_stride(w) <= 4 * w,
        bgr_stride(w) % 4 == 0,
        bgr_stride(w) - 3 * w < 4,
{
}

proof fn lemma_split(i: int, stride: int, y: int, k: int)
    requires
        stride > 0,
        0 <= k < stride,
        i == y * stride + k,
    ensures
        i / stride == y,
        i % stride == k,
{
    lemma_fundamental_div_mod_converse(i, stride, y, k);
}

/// Convert an RGBA raster into the bottom-up BGR rows of a 24-bit DIB: the
/// first row of the result is the last row of the raster, each pixel becomes
/// blue, green, red (alpha is dropped), and every row is zero-padded to a
/// multiple of 4 bytes.
pub fn rgba_to_bgr(img: &Raster) -> (bgr: Vec<u8>)
    ensures
        bgr@ == bgr_bitmap(
            raster_bytes(*img),
            raster_dims(*img).0 as int,
            raster_dims(*img).1 as int,
        ),
{
    let w32 = img.width();
    let h32 = img.height();
    let raw = img.raw_bytes();
    let ghost rgba = raw@;
    let ghost wi = w32 as int;
    let ghost hi = h32 as int;
    if w32 == 0 || h32 == 0 {
        proof {
            if w32 == 0 {
                assert(bgr_stride(0) == 0);
            }
            assert(bgr_stride(wi) * hi == 0) by (nonlinear_arith)
                requires
                    wi == 0 || hi == 0,
                    bgr_stride(wi) == 0 || hi == 0,
            ;
        }
        let empty: Vec<u8> = Vec::new();
        assert(empty@ =~= bgr_bitmap(rgba, wi, hi));
        return empty;
    }
    proof {
        assert(4 * wi <= 4 * wi * hi) by (nonlinear_arith)
            requires
                hi >= 1,
                wi >= 1,
        ;
        lemma_stride_bounds(wi);
        assert(bgr_stride(wi) * hi <= 4 * wi * hi) by (nonlinear_arith)
            requires
                bgr_stride(wi) <= 4 * wi,
                hi >= 1,
        ;
    }
    let w = w32 as usize;
    let h = h32 as usize;
    let row_bytes = w * 3;
    let padding = (4 - (row_bytes % 4)) % 4;
    let stride = row_bytes + padding;
    let total = stride * h;
    let mut bgr: Vec<u8> = vec![0u8; total];
    let ghost target = bgr_bitmap(rgba, wi, hi);
    assert(stride as int == bgr_stride(wi));
    let mut y: usize = 0;
    while y < h
        invariant
            w as int == wi,
            h as int == hi,
            wi >= 1,
            hi >= 1,
            rgba == raw@,
            4 * wi * hi <= rgba.len() <= isize::MAX,
            stride as int == bgr_stride(wi),
            3 * wi <= stride <= 4 * wi,
            row_bytes == 3 * w,
            total == stride * h,
            target == bgr_bitmap(rgba, wi, hi),
            bgr@.len() == total,
            y <= h,
            forall|i: int|
                0 <= i < total ==> #[trigger] bgr@[i] == (if i < y * stride {
                    target[i]
                } else {
                    0u8
                }),
        decreases h - y,
    {
        let src_y = h - 1 - y;
        proof {
            assert((y + 1) * stride <= total) by (nonlinear_arith)
                requires
                    y < h,
                    total == stride * h,
            ;
            assert(y * stride + stride == (y + 1) * stride) by (nonlinear_arith);
            assert(src_y * w * 4 + w * 4 <= 4 * wi * hi) by (nonlinear_arith)
                requires
                    src_y < hi,
                    w == wi,
            ;
            assert(src_y * w <= src_y * w * 4) by (nonlinear_arith)
                requires src_y >= 0, w >= 0;
            assert(w * 4 >= 0);
        }
        let dest_row_start = y * stride;
        let src_row_start = src_y * w * 4;
        let mut x: usize = 0;
        while x < w
            invariant
                w as int == wi,
                h as int == hi,
                wi >= 1,
                rgba == raw@,
                4 * wi * hi <= rgba.len() <= isize::MAX,
                stride as int == bgr_stride(wi),
                3 * wi <= stride <= 4 * wi,
                total == stride * h,
                target == bgr_bitmap(rgba, wi, hi),
                bgr@.len() == total,
                y < h,
                src_y == h - 1 - y,
                dest_row_start == y * stride,
                dest_row_start + stride <= total,
                src_row_start == src_y * w * 4,
                src_row_start + w * 4 <= 4 * wi * hi,
                x <= w,
                forall|i: int|
                    0 <= i < total ==> #[trigger] bgr@[i] == (if i < dest_row_start + 3 * x {
                        target[i]
                    } else {
                        0u8
                    }),
            decreases w - x,
        {
            proof {
                assert(x * 4 + 4 <= w * 4) by (nonlinear_arith)
                    requires x < w;
            }
            let src_px = src_row_start + x * 4;
            let dest_px = dest_row_start + x * 3;
            proof {
                assert(forall|c: int|
                    0 <= c < 3 ==> #[trigger] target[dest_px + c] == rgba[src_px + 2 - c]) by {
                    assert forall|c: int| 0 <= c < 3 implies #[trigger] target[dest_px + c]
                        == rgba[src_px + 2 - c] by {
                        let k = 3 * x + c;
                        lemma_split(dest_px + c, stride as int, y as int, k);
                        lemma_fundamental_div_mod_converse(k, 3, x as int, c);
                        assert(4 * ((hi - 1 - y) * wi + k / 3) + (2 - k % 3) == src_px + 2 - c)
                            by (nonlinear_arith)
                            requires
                                k / 3 == x,
                                k % 3 == c,
                                src_px == src_y * w * 4 + x * 4,
                                src_y == hi - 1 - y,
                                w == wi,
                        ;
                    }
                }
            }
            let b = raw[src_px + 2];
            let g = raw[src_px + 1];
            let r = raw[src_px];
            bgr.set(dest_px, b);
            bgr.set(dest_px + 1, g);
            bgr.set(dest_px + 2, r);
            proof {
                assert forall|i: int|
                    0 <= i < total implies #[trigger] bgr@[i] == (if i < dest_row_start + 3 * (x + 1) {
                        target[i]
                    } else {
                        0u8
                    }) by {
                    if dest_px <= i < dest_px + 3 {
                        assert(target[dest_px + (i - dest_px)] == rgba[src_px + 2 - (i - dest_px)]);
                    }
                }
            }
            x = x + 1;
        }
        proof {
            assert forall|i: int| 0 <= i < total implies #[trigger] bgr@[i] == (if i < (y + 1)
                * stride {
                target[i]
            } else {
                0u8
            }) by {
                if dest_row_start + 3 * w <= i < (y + 1) * stride {
                    lemma_split(i, stride as int, y as int, i - dest_row_start);
                    assert(target[i] == 0);
                }
            }
        }
        y = y + 1;
    }
    proof {
        assert(y * stride == total) by (nonlinear_arith)
            requires y == h, total == stride * h;
        assert(target.len() == total);
        assert(bgr@ =~= target);
    }
    bgr
}

} // verus!
