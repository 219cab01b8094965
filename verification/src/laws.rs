//! Properties of the library as a whole, proved over the specifications that
//! the functions' own contracts use.

use vstd::prelude::*;
use crate::alignment::{AlignFactor, engine_alignment, printer_alignment};
use crate::arith::{div_round, sat_u32, sat_i32, nonneg};
use crate::alignment::aligned_offset_spec;
use crate::placement::{placement_spec, wider_than_cell, contain_height, contain_width, cover_visible_width, cover_visible_height};
use crate::layout::dots;
use crate::engine::{quarter_turns, compose_prefix, page_px, fitted_outcome, cell_failure, reaches};
use crate::engine::RasterModel;
use crate::raster::{PhotoModel, rotated_units};
use crate::layout::{cell_px_origin, device_rect, pen_width_spec};
use crate::printer::{paper_settings_spec, cell_draw_spec, cell_draw_in_range, PAPER_A4, PAPER_LETTER, PAPER_CUSTOM};
use crate::{CellInfo, GridConfig};
use vstd::arithmetic::div_mod::lemma_fundamental_div_mod_converse;
use crate::bgr::bgr_stride;
use crate::printer::{paper_size_code, devnames_spec, driver_name, loaded_keys, keys_after_load};
use crate::PrintJob;
use vstd::arithmetic::div_mod::lemma_div_is_ordered;

verus! {

/// The nine named alignments mean the same position to the print engine and
/// to the printer: horizontal `left`/`center`/`right` and vertical
/// `top`/`center`/`bottom` (the middle one is just `center`).
pub proof fn law_named_alignments_agree(a: Seq<char>)
    requires
        a == "top-left"@ || a == "top-center"@ || a == "top-right"@ || a == "center-left"@ || a
            == "center"@ || a == "center-right"@ || a == "bottom-left"@ || a == "bottom-center"@
            || a == "bottom-right"@,
    ensures
        engine_alignment(a) == printer_alignment(a),
{
    reveal_strlit("top-left");
    reveal_strlit("top-center");
    reveal_strlit("top-right");
    reveal_strlit("center-left");
    reveal_strlit("center");
    reveal_strlit("center-right");
    reveal_strlit("bottom-left");
    reveal_strlit("bottom-center");
    reveal_strlit("bottom-right");
    reveal_strlit("left");
    reveal_strlit("right");
    reveal_strlit("top");
    reveal_strlit("bottom");
    let l = "left"@;
    let r = "right"@;
    let t = "top"@;
    let b = "bottom"@;
    if a == "top-left"@ {
        assert(a.subrange(a.len() - 4, a.len() as int) =~= l);
        assert(a.subrange(0, 3) =~= t);
    } else if a == "top-center"@ {
        assert(a.subrange(a.len() - 4, a.len() as int)[0] != l[0]);
        assert(a.subrange(a.len() - 5, a.len() as int)[0] != r[0]);
        assert(a.subrange(0, 3) =~= t);
    } else if a == "top-right"@ {
        assert(a.subrange(a.len() - 4, a.len() as int)[0] != l[0]);
        assert(a.subrange(a.len() - 5, a.len() as int) =~= r);
        assert(a.subrange(0, 3) =~= t);
    } else if a == "center-left"@ {
        assert(a.subrange(a.len() - 4, a.len() as int) =~= l);
        assert(a.subrange(0, 3)[0] != t[0]);
        assert(a.subrange(0, 6)[0] != b[0]);
    } else if a == "center"@ {
        assert(a.subrange(a.len() - 4, a.len() as int)[0] != l[0]);
        assert(a.subrange(a.len() - 5, a.len() as int)[0] != r[0]);
        assert(a.subrange(0, 3)[0] != t[0]);
        assert(a.subrange(0, 6)[0] != b[0]);
    } else if a == "center-right"@ {
        assert(a.subrange(a.len() - 4, a.len() as int)[0] != l[0]);
        assert(a.subrange(a.len() - 5, a.len() as int) =~= r);
        assert(a.subrange(0, 3)[0] != t[0]);
        assert(a.subrange(0, 6)[0] != b[0]);
    } else if a == "bottom-left"@ {
        assert(a.subrange(a.len() - 4, a.len() as int) =~= l);
        assert(a.subrange(0, 3)[0] != t[0]);
        assert(a.subrange(0, 6) =~= b);
    } else if a == "bottom-center"@ {
        assert(a.subrange(a.len() - 4, a.len() as int)[0] != l[0]);
        assert(a.subrange(a.len() - 5, a.len() as int)[0] != r[0]);
        assert(a.subrange(0, 3)[0] != t[0]);
        assert(a.subrange(0, 6) =~= b);
    } else {
        assert(a.subrange(a.len() - 4, a.len() as int)[0] != l[0]);
        assert(a.subrange(a.len() - 5, a.len() as int) =~= r);
        assert(a.subrange(0, 3)[0] != t[0]);
        assert(a.subrange(0, 6) =~= b);
    }
}

/// Rounding a quotient keeps the order of the numerators.
pub proof fn law_div_round_monotone(n1: int, n2: int, d: int)
    requires
        n1 <= n2,
        d > 0,
    ensures
        div_round(n1, d) <= div_round(n2, d),
{
    if n1 >= 0 {
        lemma_div_is_ordered(2 * n1 + d, 2 * n2 + d, 2 * d);
    } else if n2 < 0 {
        lemma_div_is_ordered(-2 * n2 + d, -2 * n1 + d, 2 * d);
    } else {
        lemma_div_is_ordered(0, -2 * n1 + d, 2 * d);
        lemma_div_is_ordered(0, 2 * n2 + d, 2 * d);
    }
}

/// A longer length never covers fewer pixels: converting micrometres to
/// pixels at a non-negative resolution keeps their order.
pub proof fn law_length_to_px_monotone(a: int, b: int, dpi: int)
    requires
        a <= b,
        dpi >= 0,
    ensures
        sat_u32(dots(a, dpi)) <= sat_u32(dots(b, dpi)),
{
    assert(a * dpi <= b * dpi) by (nonlinear_arith)
        requires a <= b, dpi >= 0;
    law_div_round_monotone(a * dpi, b * dpi, 25400);
}

/// Turning a photo by a full turn more or less changes nothing.
pub proof fn law_rotation_is_periodic(rotation: int)
    ensures
        quarter_turns(rotation + 360) == quarter_turns(rotation),
        quarter_turns(rotation - 360) == quarter_turns(rotation),
{
    assert((rotation + 360) % 360 == rotation % 360);
    assert((rotation - 360) % 360 == rotation % 360);
}

/// Turning the page does not change which standard paper it is.
pub proof fn law_paper_size_ignores_orientation(w_mm: int, h_mm: int)
    ensures
        paper_size_code(w_mm, h_mm) == paper_size_code(h_mm, w_mm),
{
}

/// Rows of a 24-bit bitmap are as short as possible: a multiple of 4 bytes
/// that holds the row's `3 * w` bytes with fewer than 4 bytes to spare.
pub proof fn law_bgr_rows_are_padded_minimally(w: int)
    requires
        w >= 0,
    ensures
        bgr_stride(w) % 4 == 0,
        3 * w <= bgr_stride(w) < 3 * w + 4,
{
}

/// The printer-name block holds at its driver offset (8) the driver name, at
/// its device offset (17) the device name followed by a NUL, and at its
/// output offset an empty name; its header records these offsets when they
/// fit in 16 bits.
pub proof fn law_devnames_offsets_point_at_names(name: Seq<u8>)
    requires
        18 + name.len() < 65536,
    ensures
        devnames_spec(name).subrange(8, 17) == driver_name(),
        devnames_spec(name).subrange(17, 17 + name.len() as int) == name,
        devnames_spec(name)[17 + name.len() as int] == 0,
        devnames_spec(name)[18 + name.len() as int] == 0,
        devnames_spec(name)[0] + 256 * devnames_spec(name)[1] == 8,
        devnames_spec(name)[2] + 256 * devnames_spec(name)[3] == 17,
        devnames_spec(name)[4] + 256 * devnames_spec(name)[5] == 18 + name.len(),
{
    let b = devnames_spec(name);
    let n = name.len() as int;
    assert(b.subrange(8, 17) =~= driver_name());
    assert(b.subrange(17, 17 + n) =~= name);
    assert((18 + n) % 256 + 256 * (((18 + n) / 256) % 256) == 18 + n) by (nonlinear_arith)
        requires 0 <= 18 + n < 65536;
}

/// Composing keeps the page at the page size of the grid: whatever the cells
/// and their images, a composed page is as large as the grid's page at its
/// resolution.
pub proof fn law_composed_page_has_page_size(job: PrintJob, cimgs: Seq<RasterModel>, k: int)
    requires
        0 <= k,
        compose_prefix(job, cimgs, k) is Ok,
    ensures
        compose_prefix(job, cimgs, k)->Ok_0.0 == page_px(job.grid),
    decreases k,
{
    if k > 0 {
        law_composed_page_has_page_size(job, cimgs, k - 1);
    }
}

/// Whether composing fails, and how, does not depend on the cell images: the
/// page size is checked before any cell, and the first cell that fails (its
/// photo missing, undecodable or too large to fit) ends composing with its
/// failure. Composing the first `k` cells succeeds exactly where it reaches
/// every one of them and none fails.
pub proof fn law_failures_do_not_depend_on_images(job: PrintJob, a: Seq<RasterModel>, b: Seq<RasterModel>, k: int)
    requires
        0 <= k <= job.cells@.len(),
    ensures
        compose_prefix(job, a, k) is Ok <==> (reaches(job, k)),
        compose_prefix(job, a, k) is Err ==> compose_prefix(job, b, k) == compose_prefix(job, a, k),
    decreases k,
{
    if k > 0 {
        law_failures_do_not_depend_on_images(job, a, b, k - 1);
        law_failures_do_not_depend_on_images(job, b, a, k - 1);
        if reaches(job, k - 1) && cell_failure(job, job.cells@[k - 1]) is None {
            assert forall|j: int| 0 <= j < k implies cell_failure(job, #[trigger] job.cells@[j]) is None by {
                if j < k - 1 {
                    assert(cell_failure(job, job.cells@[j]) is None);
                }
            }
        }
        if !reaches(job, k - 1) {
            assert(!reaches(job, k)) by {
                if reaches(job, k) {
                    assert forall|j: int| 0 <= j < k - 1 implies cell_failure(job, #[trigger] job.cells@[j]) is None by {
                        assert(cell_failure(job, job.cells@[j]) is None);
                    }
                }
            }
        }
    }
}

/// A "cover" placement fills the whole destination and draws a part of the
/// photo that lies inside it; a "contain" placement draws the whole photo
/// into a part of the destination, provided the destination has the cell's
/// proportions.
pub proof fn law_cover_and_contain_placements(
    ax: AlignFactor,
    ay: AlignFactor,
    sw: int,
    sh: int,
    dx: int,
    dy: int,
    dw: int,
    dh: int,
    cw: int,
    ch: int,
)
    requires
        0 < sw <= i32::MAX,
        0 < sh <= i32::MAX,
        0 < cw,
        0 < ch,
        0 <= dw <= i32::MAX,
        0 <= dh <= i32::MAX,
    ensures
        ({
            let p = placement_spec(false, ax, ay, sw, sh, dx, dy, dw, dh, cw, ch);
            &&& p.4 == dx && p.5 == dy && p.6 == dw && p.7 == dh
            &&& 0 <= p.0 && p.0 + p.2 <= sw && 0 <= p.2
            &&& 0 <= p.1 && p.1 + p.3 <= sh && 0 <= p.3
        }),
        dw * ch == dh * cw ==> ({
            let p = placement_spec(true, ax, ay, sw, sh, dx, dy, dw, dh, cw, ch);
            &&& p.0 == 0 && p.1 == 0 && p.2 == sw && p.3 == sh
            &&& dx <= p.4 && p.4 + p.6 <= dx + dw && 0 <= p.6
            &&& dy <= p.5 && p.5 + p.7 <= dy + dh && 0 <= p.7
        }),
{
    let diff = sw * ch - cw * sh;
    assert(diff * sh * ch > 0 <==> diff > 0) by (nonlinear_arith)
        requires sh > 0, ch > 0;
    assert(wider_than_cell(sw, sh, cw, ch) <==> sw * ch > cw * sh);
    if wider_than_cell(sw, sh, cw, ch) {
        // cover: the visible width of the source is at most its width
        let n = sh * cw;
        assert(0 <= n <= sw * ch) by (nonlinear_arith)
            requires n == sh * cw, sw * ch > cw * sh, sh > 0, cw > 0;
        lemma_div_round_at_most(n, ch, sw);
        lemma_aligned_offset_bounds(sw - cover_visible_width(sh, cw, ch), ax);
        // contain: the adjusted height is at most the destination height
        if dw * ch == dh * cw {
            let m = dw * sh;
            assert(0 <= m <= dh * sw) by (nonlinear_arith)
                requires
                    m == dw * sh,
                    dw * ch == dh * cw,
                    sw * ch > cw * sh,
                    ch > 0,
                    dw >= 0,
                    dh >= 0,
                    sh > 0,
            ;
            lemma_div_round_at_most(m, sw, dh);
            lemma_aligned_offset_bounds(dh - contain_height(sw, sh, dw), ay);
        }
    } else {
        let n = sw * ch;
        assert(0 <= n <= sh * cw) by (nonlinear_arith)
            requires n == sw * ch, sw * ch <= cw * sh, sw > 0, ch > 0;
        lemma_div_round_at_most(n, cw, sh);
        lemma_aligned_offset_bounds(sh - cover_visible_height(sw, cw, ch), ay);
        if dw * ch == dh * cw {
            let m = dh * sw;
            assert(0 <= m <= dw * sh) by (nonlinear_arith)
                requires
                    m == dh * sw,
                    dw * ch == dh * cw,
                    sw * ch <= cw * sh,
                    cw > 0,
                    dw >= 0,
                    dh >= 0,
                    sw > 0,
            ;
            lemma_div_round_at_most(m, sh, dw);
            lemma_aligned_offset_bounds(dw - contain_width(sw, sh, dh), ax);
        }
    }
}

/// The cell images that fitting a photo can give (see `resize_for_cell`):
/// only the angle modulo 360 counts, and an angle other than 90, 180 or 270
/// (modulo 360) turns nothing; a fit other than `"contain"` covers the cell.
pub proof fn law_rotation_and_fit(
    m: PhotoModel,
    cw: u32,
    ch: u32,
    fit: Seq<char>,
    alignment: Seq<char>,
    r1: int,
    r2: int,
    out: RasterModel,
)
    requires
        r1 % 360 == r2 % 360 || (r1 % 360 != 90 && r1 % 360 != 180 && r1 % 360 != 270
            && r2 % 360 != 90 && r2 % 360 != 180 && r2 % 360 != 270),
    ensures
        fitted_outcome(m, cw, ch, fit, alignment, r1, out) == fitted_outcome(m, cw, ch, fit, alignment, r2, out),
        r2 % 360 != 90 && r2 % 360 != 180 && r2 % 360 != 270 ==> fitted_outcome(m, cw, ch, fit, alignment, r2, out)
            == fitted_outcome(m, cw, ch, fit, alignment, 0, out),
        fit != "contain"@ ==> fitted_outcome(m, cw, ch, fit, alignment, r1, out) == fitted_outcome(
            m,
            cw,
            ch,
            "cover"@,
            alignment,
            r1,
            out,
        ),
{
    reveal_strlit("contain");
    reveal_strlit("cover");
    assert("cover"@[2] != "contain"@[2]);
    assert(("cover"@ == "contain"@) == false);
    assert(quarter_turns(r1) == quarter_turns(r2));
}

/// Loading the bitmaps of a job's cells in order into an empty cache (see
/// `BitmapCache::load`, whose keys follow [`keys_after_load`]) decodes each
/// distinct `(photo id, rotation)` exactly once: the cached keys are
/// distinct, they are exactly the cells' keys, and there are as many as there
/// are distinct keys among the cells.
pub proof fn law_each_key_decoded_once(cells: Seq<(Seq<char>, i32)>)
    ensures
        loaded_keys(cells).no_duplicates(),
        loaded_keys(cells).to_set() == cells.to_set(),
        loaded_keys(cells).len() == cells.to_set().len(),
    decreases cells.len(),
{
    if cells.len() == 0 {
        assert(cells.to_set() =~= Set::<(Seq<char>, i32)>::empty());
        assert(loaded_keys(cells).to_set() =~= Set::<(Seq<char>, i32)>::empty());
    } else {
        let init = cells.drop_last();
        let key = cells.last();
        law_each_key_decoded_once(init);
        let before = loaded_keys(init);
        assert(cells =~= init.push(key));
        if before.contains(key) {
            assert(cells.to_set() =~= init.to_set()) by {
                assert forall|x: (Seq<char>, i32)| cells.contains(x) implies init.contains(x) by {
                    if x == key {
                        assert(before.to_set().contains(x));
                    } else {
                        let j = choose|j: int| 0 <= j < cells.len() && cells[j] == x;
                        assert(init[j] == x);
                    }
                }
                assert forall|x: (Seq<char>, i32)| init.contains(x) implies cells.contains(x) by {
                    let j = choose|j: int| 0 <= j < init.len() && init[j] == x;
                    assert(cells[j] == x);
                }
            }
        } else {
            let after = before.push(key);
            assert(after.no_duplicates()) by {
                assert forall|a: int, b: int| 0 <= a < after.len() && 0 <= b < after.len() && a != b implies after[a] != after[b] by {
                    if a < before.len() && b < before.len() {
                    } else if a == before.len() {
                        assert(after[b] == before[b]);
                    } else {
                        assert(after[a] == before[a]);
                    }
                }
            }
            assert(after.to_set() =~= cells.to_set()) by {
                assert forall|x: (Seq<char>, i32)| after.contains(x) <==> cells.contains(x) by {
                    if after.contains(x) {
                        let j = choose|j: int| 0 <= j < after.len() && after[j] == x;
                        if j == before.len() {
                            assert(cells[cells.len() - 1] == x);
                        } else {
                            assert(before[j] == x);
                            assert(before.to_set().contains(x));
                            let k = choose|k: int| 0 <= k < init.len() && init[k] == x;
                            assert(cells[k] == x);
                        }
                    }
                    if cells.contains(x) {
                        let j = choose|j: int| 0 <= j < cells.len() && cells[j] == x;
                        if j == cells.len() - 1 {
                            assert(after[before.len() as int] == x);
                        } else {
                            assert(init[j] == x);
                            assert(init.to_set().contains(x));
                            let k = choose|k: int| 0 <= k < before.len() && before[k] == x;
                            assert(after[k] == x);
                        }
                    }
                }
            }
        }
        loaded_keys(cells).unique_seq_to_set();
    }
}

/// Turning moves pixels clockwise. After a half turn the pixel at `(x, y)` is
/// the one that was at `(w-1-x, h-1-y)`: top-left and bottom-right swap.
/// After a quarter turn (the result is `h` wide and `w` high) the pixel at
/// `(x, y)` was at `(y, h-1-x)`: the bottom-left corner comes to the top-left.
/// After three quarter turns it was at `(w-1-y, x)`. Rotations of 90, 180 and
/// 270 degrees, in either direction modulo 360, ask for one, two and three
/// quarter turns.
pub proof fn law_turns_move_pixels_clockwise(src: Seq<u8>, w: int, h: int, unit: int, x: int, y: int, c: int)
    requires
        w > 0,
        h > 0,
        unit > 0,
        0 <= c < unit,
    ensures
        0 <= x < w && 0 <= y < h ==> rotated_units(src, w, h, 2, unit)[unit * (y * w + x) + c] == src[unit * ((
            h - 1 - y) * w + (w - 1 - x)) + c],
        0 <= x < h && 0 <= y < w ==> rotated_units(src, w, h, 1, unit)[unit * (y * h + x) + c] == src[unit * ((
            h - 1 - x) * w + y) + c],
        0 <= x < h && 0 <= y < w ==> rotated_units(src, w, h, 3, unit)[unit * (y * h + x) + c] == src[unit * (x
            * w + (w - 1 - y)) + c],
        quarter_turns(90) == 1,
        quarter_turns(180) == 2,
        quarter_turns(270) == 3,
        quarter_turns(-90) == 3,
        quarter_turns(-180) == 2,
        quarter_turns(-270) == 1,
        quarter_turns(0) == 0,
{
    if 0 <= x < w && 0 <= y < h {
        lemma_unit_index(unit, w, h, x, y, c);
    }
    if 0 <= x < h && 0 <= y < w {
        lemma_unit_index(unit, h, w, x, y, c);
        assert(unit * w * h == unit * h * w) by (nonlinear_arith);
    }
}

/// Subpixel `c` of pixel `(x, y)` of a `w x h` image of `unit`-byte pixels:
/// its index decomposes back into the pixel, and lies inside the image.
proof fn lemma_unit_index(unit: int, w: int, h: int, x: int, y: int, c: int)
    requires
        unit > 0,
        0 <= x < w,
        0 <= y < h,
        0 <= c < unit,
    ensures
        (unit * (y * w + x) + c) / unit == y * w + x,
        (unit * (y * w + x) + c) % unit == c,
        (y * w + x) % w == x,
        (y * w + x) / w == y,
        0 <= unit * (y * w + x) + c < unit * w * h,
{
    assert(unit * (y * w + x) == (y * w + x) * unit) by (nonlinear_arith);
    assert(y * w == y * w) by (nonlinear_arith);
    lemma_fundamental_div_mod_converse(unit * (y * w + x) + c, unit, y * w + x, c);
    lemma_fundamental_div_mod_converse(y * w + x, w, y, x);
    assert(0 <= unit * (y * w + x) + c < unit * w * h) by (nonlinear_arith)
        requires unit > 0, 0 <= x < w, 0 <= y < h, 0 <= c < unit;
}

/// The offsets of the two extreme alignments: none at the start, all the
/// free space at the end.
proof fn lemma_offset_extremes(extra: int)
    ensures
        aligned_offset_spec(extra, AlignFactor::Start) == 0,
        aligned_offset_spec(extra, AlignFactor::End) == nonneg(extra),
{
    let n = nonneg(extra);
    assert((2 * (n * 0) + 2) / (2 * 2int) == 0);
    assert((2 * (n * 2) + 2) / (2 * 2int) == n) by (nonlinear_arith)
        requires n >= 0;
}

/// Each axis of a placement follows its own alignment factor. A contained
/// photo no wider than the cell keeps the destination's top and height and is
/// placed horizontally by the horizontal factor alone: at the left edge for
/// `Start`, flush with the right edge for `End` where it fits. A contained
/// photo wider than the cell keeps the destination's left and width and is
/// placed vertically by the vertical factor alone. A covering photo's crop
/// starts at the source's left (top) edge and is moved only along the axis
/// it is cropped on, by that axis's factor: from the first column (row) for
/// `Start` to the last for `End`.
pub proof fn law_alignment_axes_are_independent(
    contain: bool,
    ax: AlignFactor,
    ay: AlignFactor,
    ax2: AlignFactor,
    ay2: AlignFactor,
    sw: int,
    sh: int,
    dx: int,
    dy: int,
    dw: int,
    dh: int,
    cw: int,
    ch: int,
)
    ensures
        ({
            let p = placement_spec(contain, ax, ay, sw, sh, dx, dy, dw, dh, cw, ch);
            let other_y = placement_spec(contain, ax, ay2, sw, sh, dx, dy, dw, dh, cw, ch);
            let other_x = placement_spec(contain, ax2, ay, sw, sh, dx, dy, dw, dh, cw, ch);
            let wider = wider_than_cell(sw, sh, cw, ch);
            &&& contain && !wider ==> {
                &&& p.4 == other_y.4 && p.5 == dy && p.7 == dh
                &&& ax == AlignFactor::Start ==> p.4 == dx
                &&& ax == AlignFactor::End && p.6 <= dw ==> p.4 + p.6 == dx + dw
            }
            &&& contain && wider ==> {
                &&& p.5 == other_x.5 && p.4 == dx && p.6 == dw
                &&& ay == AlignFactor::Start ==> p.5 == dy
                &&& ay == AlignFactor::End && p.7 <= dh ==> p.5 + p.7 == dy + dh
            }
            &&& !contain && wider ==> {
                &&& p.0 == other_y.0 && p.1 == 0 && p.3 == sh
                &&& ax == AlignFactor::Start ==> p.0 == 0
                &&& ax == AlignFactor::End && p.2 <= sw ==> p.0 + p.2 == sw
            }
            &&& !contain && !wider ==> {
                &&& p.1 == other_x.1 && p.0 == 0 && p.2 == sw
                &&& ay == AlignFactor::Start ==> p.1 == 0
                &&& ay == AlignFactor::End && p.3 <= sh ==> p.1 + p.3 == sh
            }
        }),
{
    lemma_offset_extremes(dw - contain_width(sw, sh, dh));
    lemma_offset_extremes(dh - contain_height(sw, sh, dw));
    lemma_offset_extremes(sw - cover_visible_width(sh, cw, ch));
    lemma_offset_extremes(sh - cover_visible_height(sw, cw, ch));
}

/// A cell's outline frames the cell on the printer: its pen is at least one
/// unit wide, and its rectangle is the cell's device rectangle (the cell's
/// grid position and its width and height, each converted at its own axis's
/// resolution) shrunk by half the pen width on every side, so that the pen
/// strokes the cell's border from within. Only a cell that asks for an
/// outline gets one. A covering photo is drawn onto the whole cell rectangle.
pub proof fn law_outline_frames_the_cell(
    grid: GridConfig,
    cell: CellInfo,
    dpi_x: int,
    dpi_y: int,
    sw: int,
    sh: int,
)
    requires
        i32::MIN <= dpi_x <= i32::MAX,
        i32::MIN <= dpi_y <= i32::MAX,
    ensures
        ({
            let d = cell_draw_spec(grid, cell, dpi_x, dpi_y, sw, sh);
            let left = sat_i32(div_round(
                (grid.padding_left + cell.col * (grid.cell_width + grid.gap_x)) * dpi_x,
                25400,
            )) as int;
            let top = sat_i32(div_round(
                (grid.padding_top + cell.row * (grid.cell_height + grid.gap_y)) * dpi_y,
                25400,
            )) as int;
            let width = sat_i32(div_round(grid.cell_width * dpi_x, 25400)) as int;
            let height = sat_i32(div_round(grid.cell_height * dpi_y, 25400)) as int;
            &&& (d.outline is Some) == cell.outline
            &&& cell.outline && cell_draw_in_range(grid, cell, dpi_x, dpi_y, sw, sh) ==> {
                let o = d.outline->Some_0;
                let half = o.pen_width / 2;
                &&& o.pen_width >= 1
                &&& o.left == left + half
                &&& o.top == top + half
                &&& o.right == left + width - half
                &&& o.bottom == top + height - half
            }
            &&& cell.object_fit@ != "contain"@ ==> d.dest == (left as i32, top as i32, width as i32, height
                as i32)
        }),
{
    let d = cell_draw_spec(grid, cell, dpi_x, dpi_y, sw, sh);
    let n = 130 * dpi_x;
    if n >= 0 {
        assert(0 <= (2 * n + 25400) / (2 * 25400int) <= 0x100_0000) by (nonlinear_arith)
            requires 0 <= n <= 130 * 0x8000_0000;
    }
    assert(1 <= pen_width_spec(dpi_x) <= 0x100_0000);
}

/// A cell's position on the page follows its own axis: its left pixel is
/// the padding plus `col` steps of a cell width and a column gap, its top
/// pixel the padding plus `row` steps of a cell height and a row gap, each
/// converted at the grid's resolution. So its left does not depend on the
/// row, the cell height, the row gap or the top padding, and its top does not
/// depend on the column, the cell width, the column gap or the left padding.
/// The same holds of its device rectangle on a printer, whose height follows
/// the cell height at the vertical resolution.
pub proof fn law_cell_position_follows_its_axis(
    g: GridConfig,
    c: CellInfo,
    g2: GridConfig,
    c2: CellInfo,
    dpi_x: int,
    dpi_y: int,
)
    ensures
        cell_px_origin(g, c).0 == sat_u32(div_round((g.padding_left + c.col * (g.cell_width + g.gap_x)) * g.dpi, 25400)),
        cell_px_origin(g, c).1 == sat_u32(div_round((g.padding_top + c.row * (g.cell_height + g.gap_y)) * g.dpi, 25400)),
        g.padding_left == g2.padding_left && g.cell_width == g2.cell_width && g.gap_x == g2.gap_x && g.dpi == g2.dpi
            && c.col == c2.col ==> cell_px_origin(g, c).0 == cell_px_origin(g2, c2).0,
        g.padding_top == g2.padding_top && g.cell_height == g2.cell_height && g.gap_y == g2.gap_y && g.dpi == g2.dpi
            && c.row == c2.row ==> cell_px_origin(g, c).1 == cell_px_origin(g2, c2).1,
        device_rect(g, c, dpi_x, dpi_y).1 == sat_i32(div_round((g.padding_top + c.row * (g.cell_height + g.gap_y)) * dpi_y, 25400)),
        device_rect(g, c, dpi_x, dpi_y).3 == sat_i32(div_round(g.cell_height * dpi_y, 25400)),
        device_rect(g, c, dpi_x, dpi_y).0 == sat_i32(div_round((g.padding_left + c.col * (g.cell_width + g.gap_x)) * dpi_x, 25400)),
        device_rect(g, c, dpi_x, dpi_y).2 == sat_i32(div_round(g.cell_width * dpi_x, 25400)),
{
}

/// Which standard paper a page is does not depend on which way round it is:
/// swapping the page's width and height keeps the paper size code, swaps the
/// paper width and length, and (for a page that is not square) flips the
/// orientation. A page of 210 x 297 mm either way round is A4, one of
/// 216 x 279 mm either way round is Letter (sizes rounded to whole
/// millimetres), any other page is custom.
pub proof fn law_paper_settings_ignore_orientation(w: int, h: int)
    ensures
        paper_settings_spec(w, h).paper_size == paper_settings_spec(h, w).paper_size,
        paper_settings_spec(w, h).paper_width == paper_settings_spec(h, w).paper_length,
        w != h ==> paper_settings_spec(w, h).orientation != paper_settings_spec(h, w).orientation,
        ({
            let wm = sat_i32(div_round(w, 1000)) as int;
            let hm = sat_i32(div_round(h, 1000)) as int;
            &&& (wm == 210 && hm == 297) || (wm == 297 && hm == 210) ==> paper_settings_spec(w, h).paper_size
                == PAPER_A4
            &&& (wm == 216 && hm == 279) || (wm == 279 && hm == 216) ==> paper_settings_spec(w, h).paper_size
                == PAPER_LETTER
            &&& !((wm == 210 && hm == 297) || (wm == 297 && hm == 210) || (wm == 216 && hm == 279) || (wm == 279
                && hm == 216)) ==> paper_settings_spec(w, h).paper_size == PAPER_CUSTOM
        }),
{
}

proof fn lemma_aligned_offset_bounds(e: int, f: AlignFactor)
    ensures
        0 <= aligned_offset_spec(e, f) <= nonneg(e),
{
    let x = nonneg(e);
    assert(0 <= (2 * (x * f.halves()) + 2) / (2 * 2int) <= x) by (nonlinear_arith)
        requires
            x >= 0,
            0 <= f.halves() <= 2,
    ;
}

proof fn lemma_div_round_at_most(n: int, d: int, m: int)
    requires
        d > 0,
        0 <= n <= m * d,
    ensures
        0 <= div_round(n, d) <= m,
{
    assert(0 <= (2 * n + d) / (2 * d) <= m) by (nonlinear_arith)
        requires
            d > 0,
            0 <= n <= m * d,
    ;
}

} // verus!
