//! Where a photo lands inside its cell: scaling to "contain" or "cover" the
//! cell, and the alignment of the part that is shown.
//!
//! Ratios are compared exactly by cross-multiplication. Every integer input
//! has a defined result, following the IEEE rules of the floating-point
//! formulation: `x / 0` is infinite with the sign of `x` and `0 / 0` is
//! undefined; an undefined comparison is false; `0 / b` is a zero with the
//! sign of `b`, so that `n / (0 / b)` is infinite with the sign of `n * b`;
//! an infinite result saturates into `i32` and an undefined one becomes 0.

use vstd::prelude::*;
use crate::arith::{lemma_i32_product_bound, div_round, sat_i32, sat_u32, div_round_i128, saturate_i32, saturate_u32};
use crate::alignment::{AlignFactor, aligned_offset, aligned_offset_spec, alignment_factors, printer_alignment, str_equal};

verus! {

/// The source rectangle `(x, y, w, h)` and destination rectangle `(x, y, w, h)`
/// that draw a photo into a cell.
pub type Placement = (i32, i32, i32, i32, i32, i32, i32, i32);

/// The sign of `x`: -1, 0 or 1.
pub open spec fn sign(x: int) -> int {
    if x > 0 {
        1
    } else if x < 0 {
        -1
    } else {
        0
    }
}

/// `n / d` rounded half away from zero, for a divisor of either sign.
pub open spec fn div_round_signed(n: int, d: int) -> int {
    if d > 0 {
        div_round(n, d)
    } else {
        div_round(-n, -d)
    }
}

/// An infinite value of sign `s` converted to `i32` (0 where undefined).
pub open spec fn infinite_i32(s: int) -> int {
    if s > 0 {
        i32::MAX as int
    } else if s < 0 {
        i32::MIN as int
    } else {
        0
    }
}

/// The ratio `a / b` exceeds the ratio `c / d` (each as a floating-point
/// quotient: infinite where the divisor is 0, undefined for `0 / 0`).
pub open spec fn ratio_exceeds(a: int, b: int, c: int, d: int) -> bool {
    if b == 0 && a == 0 || d == 0 && c == 0 {
        false
    } else if b == 0 {
        // +inf or -inf on the left
        a > 0 && !(d == 0 && c > 0)
    } else if d == 0 {
        // finite on the left, +inf or -inf on the right
        c < 0
    } else {
        (a * d - c * b) * b * d > 0
    }
}

/// The photo's aspect ratio `sw / sh` exceeds the cell's `cw / ch`.
pub open spec fn wider_than_cell(sw: int, sh: int, cw: int, ch: int) -> bool {
    ratio_exceeds(sw, sh, cw, ch)
}

/// `n * (a / b)` rounded and converted to `i32`.
pub open spec fn times_ratio(n: int, a: int, b: int) -> int {
    if b != 0 {
        sat_i32(div_round_signed(n * a, b)) as int
    } else {
        infinite_i32(sign(n) * sign(a))
    }
}

/// `n / (a / b)` rounded and converted to `i32`.
pub open spec fn over_ratio(n: int, a: int, b: int) -> int {
    if b == 0 {
        0
    } else if a != 0 {
        sat_i32(div_round_signed(n * b, a)) as int
    } else {
        infinite_i32(sign(n) * sign(b))
    }
}

/// Height of a contained photo that is wider than its cell.
pub open spec fn contain_height(sw: int, sh: int, dw: int) -> int {
    over_ratio(dw, sw, sh)
}

/// Width of a contained photo that is not wider than its cell.
pub open spec fn contain_width(sw: int, sh: int, dh: int) -> int {
    times_ratio(dh, sw, sh)
}

/// Visible source width of a covering photo that is wider than its cell.
pub open spec fn cover_visible_width(sh: int, cw: int, ch: int) -> int {
    times_ratio(sh, cw, ch)
}

/// Visible source height of a covering photo that is not wider than its cell.
pub open spec fn cover_visible_height(sw: int, cw: int, ch: int) -> int {
    over_ratio(sw, cw, ch)
}

/// The placement of a photo of `sw x sh` pixels into the destination rectangle
/// `(dx, dy, dw, dh)` of a cell whose sides have the ratio `cw : ch`.
///
/// "Contain" shows the whole photo and shrinks the destination along one
/// axis, aligned by `ax`/`ay`; "cover" fills the whole destination and crops
/// the source along one axis, aligned likewise.
pub open spec fn placement_spec(
    contain: bool,
    ax: AlignFactor,
    ay: AlignFactor,
    sw: int,
    sh: int,
    dx: int,
    dy: int,
    dw: int,
    dh: int,
    cw: int,
    ch: int,
) -> (int, int, int, int, int, int, int, int) {
    if contain {
        if wider_than_cell(sw, sh, cw, ch) {
            let adj_h = contain_height(sw, sh, dw);
            let oy = aligned_offset_spec(dh - adj_h, ay);
            (0, 0, sw, sh, dx, dy + oy, dw, adj_h)
        } else {
            let adj_w = contain_width(sw, sh, dh);
            let ox = aligned_offset_spec(dw - adj_w, ax);
            (0, 0, sw, sh, dx + ox, dy, adj_w, dh)
        }
    } else {
        if wider_than_cell(sw, sh, cw, ch) {
            let vis_w = cover_visible_width(sh, cw, ch);
            let cx = aligned_offset_spec(sw - vis_w, ax);
            (cx, 0, vis_w, sh, dx, dy, dw, dh)
        } else {
            let vis_h = cover_visible_height(sw, cw, ch);
            let cy = aligned_offset_spec(sh - vis_h, ay);
            (0, cy, sw, vis_h, dx, dy, dw, dh)
        }
    }
}

/// The `i32` arithmetic of [`placement_spec`] does not overflow (where it
/// does, the computation panics).
pub open spec fn placement_in_range(
    contain: bool,
    ax: AlignFactor,
    ay: AlignFactor,
    sw: int,
    sh: int,
    dx: int,
    dy: int,
    dw: int,
    dh: int,
    cw: int,
    ch: int,
) -> bool {
    if contain {
        if wider_than_cell(sw, sh, cw, ch) {
            let adj_h = contain_height(sw, sh, dw);
            i32::MIN <= dh - adj_h <= i32::MAX && dy + aligned_offset_spec(dh - adj_h, ay)
                <= i32::MAX
        } else {
            let adj_w = contain_width(sw, sh, dh);
            i32::MIN <= dw - adj_w <= i32::MAX && dx + aligned_offset_spec(dw - adj_w, ax)
                <= i32::MAX
        }
    } else {
        if wider_than_cell(sw, sh, cw, ch) {
            i32::MIN <= sw - cover_visible_width(sh, cw, ch) <= i32::MAX
        } else {
            i32::MIN <= sh - cover_visible_height(sw, cw, ch) <= i32::MAX
        }
    }
}

/// `n / d` rounded half away from zero and saturated into `i32` (`d != 0`).
fn div_round_sat(n: i128, d: i32) -> (r: i32)
    requires
        d != 0,
        -0x4000_0000_0000_0000 <= n <= 0x4000_0000_0000_0000,
    ensures
        r == sat_i32(div_round_signed(n as int, d as int)),
{
    if d > 0 {
        saturate_i32(div_round_i128(n, d as u64))
    } else {
        let m: i128 = 0 - n;
        let e: i64 = 0 - (d as i64);
        saturate_i32(div_round_i128(m, e as u64))
    }
}

/// See [`times_ratio`].
pub(crate) fn times(n: i32, a: i32, b: i32) -> (r: i32)
    ensures
        r == times_ratio(n as int, a as int, b as int),
{
    if b != 0 {
        proof {
            lemma_i32_product_bound(n as int, a as int);
        }
        div_round_sat((n as i128) * (a as i128), b)
    } else if (n > 0 && a > 0) || (n < 0 && a < 0) {
        i32::MAX
    } else if (n > 0 && a < 0) || (n < 0 && a > 0) {
        i32::MIN
    } else {
        0
    }
}

/// See [`over_ratio`].
pub(crate) fn over(n: i32, a: i32, b: i32) -> (r: i32)
    ensures
        r == over_ratio(n as int, a as int, b as int),
{
    if b == 0 {
        0
    } else if a != 0 {
        proof {
            lemma_i32_product_bound(n as int, b as int);
        }
        div_round_sat((n as i128) * (b as i128), a)
    } else if (n > 0 && b > 0) || (n < 0 && b < 0) {
        i32::MAX
    } else if (n > 0 && b < 0) || (n < 0 && b > 0) {
        i32::MIN
    } else {
        0
    }
}

/// Whether the photo is wider than the cell (see [`wider_than_cell`]).
pub(crate) fn is_wider(sw: i32, sh: i32, cw: i32, ch: i32) -> (r: bool)
    ensures
        r == wider_than_cell(sw as int, sh as int, cw as int, ch as int),
{
    if sh == 0 && sw == 0 || ch == 0 && cw == 0 {
        false
    } else if sh == 0 {
        sw > 0 && !(ch == 0 && cw > 0)
    } else if ch == 0 {
        cw < 0
    } else {
        proof {
            lemma_i32_product_bound(sw as int, ch as int);
            lemma_i32_product_bound(cw as int, sh as int);
            lemma_i32_product_bound(sh as int, ch as int);
        }
        let diff: i128 = (sw as i128) * (ch as i128) - (cw as i128) * (sh as i128);
        let den: i128 = (sh as i128) * (ch as i128);
        proof {
            assert(-0x8000_0000_0000_0000 <= diff <= 0x8000_0000_0000_0000);
            assert(-0x4000_0000_0000_0000_0000_0000_0000_0000 <= diff * den <= 0x4000_0000_0000_0000_0000_0000_0000_0000) by (nonlinear_arith)
                requires
                    -0x8000_0000_0000_0000 <= diff <= 0x8000_0000_0000_0000,
                    -0x4000_0000_0000_0000 <= den <= 0x4000_0000_0000_0000,
            ;
            assert((sw * ch - cw * sh) * sh * ch == diff * den) by (nonlinear_arith)
                requires diff == sw * ch - cw * sh, den == sh * ch;
        }
        diff * den > 0
    }
}

/// Source and destination rectangles for drawing a `src_w x src_h` photo into
/// the destination rectangle of a cell whose sides measure `cell_width` and
/// `cell_height` (any common unit; only their ratio matters).
pub fn compute_image_placement(
    object_fit: &str,
    alignment: &str,
    src_w: i32,
    src_h: i32,
    dest_x: i32,
    dest_y: i32,
    dest_w: i32,
    dest_h: i32,
    cell_width: i32,
    cell_height: i32,
) -> (r: Placement)
    requires
        placement_in_range(
            object_fit@ == "contain"@,
            printer_alignment(alignment@).0,
            printer_alignment(alignment@).1,
            src_w as int,
            src_h as int,
            dest_x as int,
            dest_y as int,
            dest_w as int,
            dest_h as int,
            cell_width as int,
            cell_height as int,
        ),
    ensures
        ({
            let s = placement_spec(
                object_fit@ == "contain"@,
                printer_alignment(alignment@).0,
                printer_alignment(alignment@).1,
                src_w as int,
                src_h as int,
                dest_x as int,
                dest_y as int,
                dest_w as int,
                dest_h as int,
                cell_width as int,
                cell_height as int,
            );
            r.0 == s.0 && r.1 == s.1 && r.2 == s.2 && r.3 == s.3 && r.4 == s.4 && r.5 == s.5
                && r.6 == s.6 && r.7 == s.7
        }),
{
    let (align_x, align_y) = alignment_factors(alignment);
    let wider = is_wider(src_w, src_h, cell_width, cell_height);
    if str_equal(object_fit, "contain") {
        if wider {
            let adj_h = over(dest_w, src_w, src_h);
            let oy = aligned_offset(dest_h - adj_h, align_y);
            (0, 0, src_w, src_h, dest_x, dest_y + oy, dest_w, adj_h)
        } else {
            let adj_w = times(dest_h, src_w, src_h);
            let ox = aligned_offset(dest_w - adj_w, align_x);
            (0, 0, src_w, src_h, dest_x + ox, dest_y, adj_w, dest_h)
        }
    } else {
        if wider {
            let vis_w = times(src_h, cell_width, cell_height);
            let cx = aligned_offset(src_w - vis_w, align_x);
            (cx, 0, vis_w, src_h, dest_x, dest_y, dest_w, dest_h)
        } else {
            let vis_h = over(src_w, cell_width, cell_height);
            let cy = aligned_offset(src_h - vis_h, align_y);
            (0, cy, src_w, vis_h, dest_x, dest_y, dest_w, dest_h)
        }
    }
}

} // verus!

verus! {

/// Size `(w, h)` of a non-empty `sw x sh` photo scaled, with its aspect ratio
/// kept, to lie inside a `cw x ch` cell and touch it on two opposite sides.
pub open spec fn contain_size(sw: int, sh: int, cw: int, ch: int) -> (int, int) {
    if cw * sh <= ch * sw {
        (cw, div_round(sh * cw, sw))
    } else {
        (div_round(sw * ch, sh), ch)
    }
}

/// Size `(w, h)` of a non-empty `sw x sh` photo scaled, with its aspect ratio
/// kept, to cover a `cw x ch` cell and match it on two opposite sides
/// (saturated into `u32`).
pub open spec fn cover_size(sw: int, sh: int, cw: int, ch: int) -> (int, int) {
    if cw * sh >= ch * sw {
        (cw, sat_u32(div_round(sh * cw, sw)) as int)
    } else {
        (sat_u32(div_round(sw * ch, sh)) as int, ch)
    }
}

proof fn lemma_u32_product(a: int, b: int)
    requires
        0 <= a <= u32::MAX,
        0 <= b <= u32::MAX,
    ensures
        0 <= a * b <= 0xffff_fffe_0000_0001,
{
    assert(0 <= a * b <= 0xffff_fffe_0000_0001) by (nonlinear_arith)
        requires
            0 <= a <= 0xffff_ffff,
            0 <= b <= 0xffff_ffff,
    ;
}

proof fn lemma_div_round_le(n: int, d: int, m: int)
    requires
        d > 0,
        n >= 0,
        n <= m * d,
    ensures
        0 <= div_round(n, d) <= m,
{
    assert(0 <= (2 * n + d) / (2 * d) <= m) by (nonlinear_arith)
        requires
            d > 0,
            n >= 0,
            n <= m * d,
    ;
}

proof fn lemma_div_round_ge(n: int, d: int, m: int)
    requires
        d > 0,
        n >= 0,
        n >= m * d,
    ensures
        div_round(n, d) >= m,
{
    assert((2 * n + d) / (2 * d) >= m) by (nonlinear_arith)
        requires
            d > 0,
            n >= 0,
            n >= m * d,
    ;
}

/// Size of a photo contained in its cell (see [`contain_size`]); it never
/// exceeds the cell.
pub fn contain_dims(sw: u32, sh: u32, cw: u32, ch: u32) -> (r: (u32, u32))
    requires
        sw > 0,
        sh > 0,
    ensures
        r.0 as int == contain_size(sw as int, sh as int, cw as int, ch as int).0,
        r.1 as int == contain_size(sw as int, sh as int, cw as int, ch as int).1,
        r.0 <= cw,
        r.1 <= ch,
{
    proof {
        lemma_u32_product(cw as int, sh as int);
        lemma_u32_product(ch as int, sw as int);
        lemma_u32_product(sh as int, cw as int);
        lemma_u32_product(sw as int, ch as int);
    }
    if (cw as u128) * (sh as u128) <= (ch as u128) * (sw as u128) {
        proof {
            lemma_div_round_le(sh as int * cw as int, sw as int, ch as int);
        }
        let h = div_round_i128((sh as i128) * (cw as i128), sw as u64);
        (cw, h as u32)
    } else {
        proof {
            lemma_div_round_le(sw as int * ch as int, sh as int, cw as int);
        }
        let w = div_round_i128((sw as i128) * (ch as i128), sh as u64);
        (w as u32, ch)
    }
}

/// Size of a photo covering its cell (see [`cover_size`]); it is never
/// smaller than the cell.
pub fn cover_dims(sw: u32, sh: u32, cw: u32, ch: u32) -> (r: (u32, u32))
    requires
        sw > 0,
        sh > 0,
    ensures
        r.0 as int == cover_size(sw as int, sh as int, cw as int, ch as int).0,
        r.1 as int == cover_size(sw as int, sh as int, cw as int, ch as int).1,
        r.0 >= cw,
        r.1 >= ch,
{
    proof {
        lemma_u32_product(cw as int, sh as int);
        lemma_u32_product(ch as int, sw as int);
        lemma_u32_product(sh as int, cw as int);
        lemma_u32_product(sw as int, ch as int);
    }
    if (cw as u128) * (sh as u128) >= (ch as u128) * (sw as u128) {
        proof {
            lemma_div_round_ge(sh as int * cw as int, sw as int, ch as int);
        }
        let h = div_round_i128((sh as i128) * (cw as i128), sw as u64);
        (cw, saturate_u32(h))
    } else {
        proof {
            lemma_div_round_ge(sw as int * ch as int, sh as int, cw as int);
        }
        let w = div_round_i128((sw as i128) * (ch as i128), sh as u64);
        (saturate_u32(w), ch)
    }
}

} // verus!
