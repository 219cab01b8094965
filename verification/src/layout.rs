//! Page layout: converting micrometre lengths to pixels and device units, and
//! where each cell of the grid lies.

use vstd::prelude::*;
use crate::arith::{div_round, sat_i32, sat_u32, div_round_i128, saturate_i32, saturate_u32};
use crate::{CellInfo, GridConfig};

verus! {

/// Micrometres in one inch.
pub const MICROMETRES_PER_INCH: u64 = 25400;

/// `length` micrometres at `dpi` dots per inch, rounded half away from zero.
pub open spec fn dots(length: int, dpi: int) -> int {
    div_round(length * dpi, 25400)
}

/// Offset of the cell with the given row or column index along one axis:
/// the padding plus `index` times (cell size plus gap).
pub open spec fn cell_origin(padding: int, index: int, size: int, gap: int) -> int {
    padding + index * (size + gap)
}

/// `|length| < 2^68`: such lengths times any `i32`/`u32` rate stay well inside `i128`.
pub open spec fn length_in_range(length: int) -> bool {
    -0x10_0000_0000_0000_0000 <= length <= 0x10_0000_0000_0000_0000
}

proof fn lemma_rate_product(length: int, rate: int)
    requires
        length_in_range(length),
        -0x1_0000_0000 <= rate <= 0x1_0000_0000,
    ensures
        -0x1_0000_0000_0000_0000_0000_0000_0000 <= length * rate
            <= 0x1_0000_0000_0000_0000_0000_0000_0000,
{
    assert(-0x1_0000_0000_0000_0000_0000_0000_0000 <= length * rate
        <= 0x1_0000_0000_0000_0000_0000_0000_0000) by (nonlinear_arith)
        requires
            -0x10_0000_0000_0000_0000 <= length <= 0x10_0000_0000_0000_0000,
            -0x1_0000_0000 <= rate <= 0x1_0000_0000,
    ;
}

/// Pixels that `length` micrometres cover at `dpi`, saturated into `u32`
/// (negative lengths give 0).
pub fn length_to_px(length: i128, dpi: u32) -> (r: u32)
    requires
        length_in_range(length as int),
    ensures
        r == sat_u32(dots(length as int, dpi as int)),
{
    proof {
        lemma_rate_product(length as int, dpi as int);
    }
    let d = div_round_i128(length * (dpi as i128), MICROMETRES_PER_INCH);
    saturate_u32(d)
}

/// Pixels that `length` micrometres cover at `dpi` (see [`length_to_px`]).
pub fn um_to_px(length: i32, dpi: u32) -> (r: u32)
    ensures
        r == sat_u32(dots(length as int, dpi as int)),
{
    length_to_px(length as i128, dpi)
}

/// Device units that `length` micrometres cover at `dpi` device units per
/// inch, saturated into `i32`.
pub fn length_to_device(length: i128, dpi: i32) -> (r: i32)
    requires
        length_in_range(length as int),
    ensures
        r == sat_i32(dots(length as int, dpi as int)),
{
    proof {
        lemma_rate_product(length as int, dpi as int);
    }
    let d = div_round_i128(length * (dpi as i128), MICROMETRES_PER_INCH);
    saturate_i32(d)
}

/// Offset in micrometres of row or column `index` (see [`cell_origin`]).
pub fn cell_origin_um(padding: i32, index: u32, size: i32, gap: i32) -> (r: i128)
    ensures
        r == cell_origin(padding as int, index as int, size as int, gap as int),
        length_in_range(r as int),
{
    let step: i128 = (size as i128) + (gap as i128);
    proof {
        assert(-0x1_0000_0000_0000_0000 <= (index as int) * step <= 0x1_0000_0000_0000_0000)
            by (nonlinear_arith)
            requires
                0 <= index <= 0xffff_ffff,
                -0x1_0000_0000 <= step <= 0x1_0000_0000,
        ;
    }
    (padding as i128) + (index as i128) * step
}

/// Top-left pixel of a cell on a page raster at the grid's resolution.
pub open spec fn cell_px_origin(grid: GridConfig, cell: CellInfo) -> (u32, u32) {
    (
        sat_u32(dots(cell_origin(grid.padding_left as int, cell.col as int, grid.cell_width as int, grid.gap_x as int), grid.dpi as int)),
        sat_u32(dots(cell_origin(grid.padding_top as int, cell.row as int, grid.cell_height as int, grid.gap_y as int), grid.dpi as int)),
    )
}

/// Top-left pixel of a cell on the page raster.
pub fn cell_pixel_origin(grid: &GridConfig, cell: &CellInfo) -> (r: (u32, u32))
    ensures
        r == cell_px_origin(*grid, *cell),
{
    let x = length_to_px(cell_origin_um(grid.padding_left, cell.col, grid.cell_width, grid.gap_x), grid.dpi);
    let y = length_to_px(cell_origin_um(grid.padding_top, cell.row, grid.cell_height, grid.gap_y), grid.dpi);
    (x, y)
}

/// The rectangle `(x, y, w, h)` in device units that a cell occupies on a
/// printer with `dpi_x` by `dpi_y` units per inch.
pub open spec fn device_rect(grid: GridConfig, cell: CellInfo, dpi_x: int, dpi_y: int) -> (i32, i32, i32, i32) {
    (
        sat_i32(dots(cell_origin(grid.padding_left as int, cell.col as int, grid.cell_width as int, grid.gap_x as int), dpi_x)),
        sat_i32(dots(cell_origin(grid.padding_top as int, cell.row as int, grid.cell_height as int, grid.gap_y as int), dpi_y)),
        sat_i32(dots(grid.cell_width as int, dpi_x)),
        sat_i32(dots(grid.cell_height as int, dpi_y)),
    )
}

/// The device rectangle of a cell (see [`device_rect`]).
pub fn cell_device_rect(grid: &GridConfig, cell: &CellInfo, dpi_x: i32, dpi_y: i32) -> (r: (i32, i32, i32, i32))
    ensures
        r == device_rect(*grid, *cell, dpi_x as int, dpi_y as int),
{
    let x = length_to_device(cell_origin_um(grid.padding_left, cell.col, grid.cell_width, grid.gap_x), dpi_x);
    let y = length_to_device(cell_origin_um(grid.padding_top, cell.row, grid.cell_height, grid.gap_y), dpi_y);
    let w = length_to_device(grid.cell_width as i128, dpi_x);
    let h = length_to_device(grid.cell_height as i128, dpi_y);
    (x, y, w, h)
}

/// Width of the outline pen: 0.13 mm at `dpi` units per inch, at least 1.
pub open spec fn pen_width_spec(dpi: int) -> int {
    let w = dots(130, dpi);
    if w < 1 { 1 } else { w }
}

/// Pen width in device units for a cell outline (see [`pen_width_spec`]).
pub fn outline_pen_width(dpi: i32) -> (r: i32)
    ensures
        r == pen_width_spec(dpi as int),
{
    let w = length_to_device(130, dpi);
    proof {
        let n = 130 * (dpi as int);
        assert(-0x100_0000_0000 <= n <= 0x100_0000_0000) by (nonlinear_arith)
            requires n == 130 * (dpi as int), i32::MIN <= dpi <= i32::MAX;
        if n >= 0 {
            assert((2 * n + 25400) / (2 * 25400int) <= n) by (nonlinear_arith)
                requires n >= 0;
            assert((2 * n + 25400) / (2 * 25400int) >= 0) by (nonlinear_arith)
                requires n >= 0;
        } else {
            assert((-2 * n + 25400) / (2 * 25400int) <= -n) by (nonlinear_arith)
                requires n < 0;
            assert((-2 * n + 25400) / (2 * 25400int) >= 0) by (nonlinear_arith)
                requires n < 0;
        }
        assert(-0x100_0000_0000 <= dots(130, dpi as int) <= 0x100_0000_0000);
    }
    if w < 1 { 1 } else { w }
}

/// The cell lies inside the grid (its row and column are in range).
pub fn cell_in_grid(grid: &GridConfig, cell: &CellInfo) -> (r: bool)
    ensures
        r == (cell.row < grid.rows && cell.col < grid.cols),
{
    !(cell.row >= grid.rows || cell.col >= grid.cols)
}

} // verus!
