//! Decisions of the direct-to-printer path: paper settings for the driver,
//! the printer-name block of the print dialog, default-printer bookkeeping,
//! where each cell is drawn in device units, and the cache of decoded photos.

use vstd::prelude::*;
use vstd::utf8::{encode_utf8, valid_utf8, decode_utf8};
use crate::arith::{div_round, sat_i32, div_round_i128, saturate_i32};
use crate::alignment::printer_alignment;
use crate::placement::{compute_image_placement, placement_spec, placement_in_range};
use crate::layout::{device_rect, pen_width_spec, cell_device_rect, outline_pen_width};
use crate::bgr::{rgba_to_bgr, bgr_bitmap};
use crate::engine::{data_uri_image, quarter_turns, image_lookup, find_image, prepare_cell_image};
use crate::raster::{PhotoModel, photo_rgba8, rotated_photo};
use crate::{CellInfo, GridConfig, PrintError, PrintFailure, PrintJob, PrinterInfo};

verus! {

/// Paper size code of A4 in a printer's device mode.
pub const PAPER_A4: i16 = 9;

/// Paper size code of US Letter in a printer's device mode.
pub const PAPER_LETTER: i16 = 1;

/// Paper size code of a custom size in a printer's device mode.
pub const PAPER_CUSTOM: i16 = 0;

/// Portrait orientation code.
pub const ORIENT_PORTRAIT: i16 = 1;

/// Landscape orientation code.
pub const ORIENT_LANDSCAPE: i16 = 2;

/// What the print driver is told about the paper.
#[derive(Clone, Copy, Debug, PartialEq, Eq)]
pub struct PaperSettings {
    /// A4, Letter or custom.
    pub paper_size: i16,
    /// Paper width in tenths of a millimetre.
    pub paper_width: i16,
    /// Paper length in tenths of a millimetre.
    pub paper_length: i16,
    /// Portrait or landscape.
    pub orientation: i16,
}

/// `v` saturated into the range of `i16`.
pub open spec fn sat_i16(v: int) -> i16 {
    if v < i16::MIN {
        i16::MIN
    } else if v > i16::MAX {
        i16::MAX
    } else {
        v as i16
    }
}

/// The paper size code for a page of `w_mm x h_mm` whole millimetres: A4
/// (210 x 297) and Letter (216 x 279) in either orientation, else custom.
pub open spec fn paper_size_code(w_mm: int, h_mm: int) -> i16 {
    if (w_mm == 210 && h_mm == 297) || (w_mm == 297 && h_mm == 210) {
        PAPER_A4
    } else if (w_mm == 216 && h_mm == 279) || (w_mm == 279 && h_mm == 216) {
        PAPER_LETTER
    } else {
        PAPER_CUSTOM
    }
}

/// The paper settings for a page of `page_width x page_height` micrometres:
/// the size code of the page rounded to whole millimetres, the size in tenths
/// of a millimetre, and landscape exactly when the page is wider than tall.
pub open spec fn paper_settings_spec(page_width: int, page_height: int) -> PaperSettings {
    PaperSettings {
        paper_size: paper_size_code(
            sat_i32(div_round(page_width, 1000)) as int,
            sat_i32(div_round(page_height, 1000)) as int,
        ),
        paper_width: sat_i16(div_round(page_width, 100)),
        paper_length: sat_i16(div_round(page_height, 100)),
        orientation: if page_width > page_height {
            ORIENT_LANDSCAPE
        } else {
            ORIENT_PORTRAIT
        },
    }
}

fn saturate_i16(v: i128) -> (r: i16)
    ensures
        r == sat_i16(v as int),
{
    if v < i16::MIN as i128 {
        i16::MIN
    } else if v > i16::MAX as i128 {
        i16::MAX
    } else {
        v as i16
    }
}

/// Paper settings for the grid's page (see [`paper_settings_spec`]).
pub fn paper_settings(grid: &GridConfig) -> (r: PaperSettings)
    ensures
        r == paper_settings_spec(grid.page_width as int, grid.page_height as int),
{
    let w_mm = saturate_i32(div_round_i128(grid.page_width as i128, 1000));
    let h_mm = saturate_i32(div_round_i128(grid.page_height as i128, 1000));
    let paper_size = if (w_mm == 210 && h_mm == 297) || (w_mm == 297 && h_mm == 210) {
        PAPER_A4
    } else if (w_mm == 216 && h_mm == 279) || (w_mm == 279 && h_mm == 216) {
        PAPER_LETTER
    } else {
        PAPER_CUSTOM
    };
    let orientation = if grid.page_width > grid.page_height {
        ORIENT_LANDSCAPE
    } else {
        ORIENT_PORTRAIT
    };
    PaperSettings {
        paper_size,
        paper_width: saturate_i16(div_round_i128(grid.page_width as i128, 100)),
        paper_length: saturate_i16(div_round_i128(grid.page_height as i128, 100)),
        orientation,
    }
}

/// Size of the fixed header of a printer-name block: four 16-bit offsets.
pub const DEVNAMES_HEADER_SIZE: usize = 8;

/// The driver name of every printer-name block, NUL-terminated.
pub open spec fn driver_name() -> Seq<u8> {
    seq![119u8, 105u8, 110u8, 115u8, 112u8, 111u8, 111u8, 108u8, 0u8]
}

/// Little-endian bytes of `v` modulo 2^16.
pub open spec fn le16(v: int) -> Seq<u8> {
    seq![(v % 256) as u8, ((v / 256) % 256) as u8]
}

/// The printer-name block for a device named `name` (UTF-8 bytes without a
/// NUL): a header of four 16-bit offsets (driver name, device name, output
/// name, default flag 0), then `winspool`, the device name and an empty
/// output name, each NUL-terminated. Offsets are truncated to 16 bits.
pub open spec fn devnames_spec(name: Seq<u8>) -> Seq<u8> {
    let device_offset = 17int;
    let output_offset = 18int + name.len();
    le16(8) + le16(device_offset) + le16(output_offset) + le16(0) + driver_name() + name + seq![0u8]
        + seq![0u8]
}

/// `bytes[i]` is the first NUL byte.
pub open spec fn is_first_nul(bytes: Seq<u8>, i: int) -> bool {
    &&& 0 <= i < bytes.len()
    &&& bytes[i] == 0
    &&& forall|j: int| 0 <= j < i ==> bytes[j] != 0
}

fn push_le16(v: &mut Vec<u8>, x: u16)
    ensures
        final(v)@ == old(v)@ + le16(x as int),
{
    v.push((x % 256) as u8);
    v.push((x / 256) as u8);
    assert(final(v)@ =~= old(v)@ + le16(x as int));
}

/// The printer-name block that the print dialog receives for `printer_name`
/// (see [`devnames_spec`]); a name holding a NUL byte is refused with the
/// position of its first NUL.
#[verifier::spinoff_prover]
#[verifier::rlimit(40)]
pub fn devnames_block(printer_name: &str) -> (r: Result<Vec<u8>, PrintError>)
    ensures
        match r {
            Ok(block) => (forall|i: int| !is_first_nul(encode_utf8(printer_name@), i)) && block@
                == devnames_spec(encode_utf8(printer_name@)),
            Err(e) => exists|i: int|
                is_first_nul(encode_utf8(printer_name@), i) && e@
                    == PrintFailure::InvalidPrinterName { nul_position: i as usize },
        },
{
    let name = printer_name.as_bytes();
    let ghost nb = encode_utf8(printer_name@);
    assert(name@ == nb);
    let n = name.len();
    let mut i: usize = 0;
    while i < n
        invariant
            n == name@.len(),
            i <= n,
            forall|j: int| 0 <= j < i ==> name@[j] != 0,
        ensures
            i <= n,
            forall|j: int| 0 <= j < i ==> name@[j] != 0,
            i < n ==> name@[i as int] == 0,
        decreases n - i,
    {
        if name[i] == 0 {
            break;
        }
        i = i + 1;
    }
    if i < n {
        assert(is_first_nul(nb, i as int));
        return Err(PrintError::InvalidPrinterName { nul_position: i });
    }
    assert forall|k: int| !is_first_nul(nb, k) by {
        if is_first_nul(nb, k) {
            assert(nb[k] != 0);
        }
    }
    let output_offset: u128 = (DEVNAMES_HEADER_SIZE as u128) + 9 + (n as u128) + 1;
    let mut block: Vec<u8> = Vec::new();
    push_le16(&mut block, 8);
    push_le16(&mut block, 17);
    push_le16(&mut block, (output_offset % 65536) as u16);
    push_le16(&mut block, 0);
    let ghost head = block@;
    assert(head =~= le16(8) + le16(17) + le16(18int + nb.len()) + le16(0)) by {
        assert(le16((output_offset % 65536) as int) =~= le16(18int + nb.len()));
    }
    let driver: [u8; 9] = [119, 105, 110, 115, 112, 111, 111, 108, 0];
    let mut k: usize = 0;
    while k < 9
        invariant
            k <= 9,
            driver@ == driver_name(),
            block@ == head + driver_name().subrange(0, k as int),
        decreases 9 - k,
    {
        block.push(driver[k]);
        k = k + 1;
        assert(block@ =~= head + driver_name().subrange(0, k as int));
    }
    assert(driver_name().subrange(0, 9) =~= driver_name());
    let ghost with_driver = block@;
    let mut j: usize = 0;
    while j < n
        invariant
            n == name@.len(),
            j <= n,
            block@ == with_driver + name@.subrange(0, j as int),
        decreases n - j,
    {
        block.push(name[j]);
        j = j + 1;
        assert(block@ =~= with_driver + name@.subrange(0, j as int));
    }
    assert(name@.subrange(0, n as int) =~= name@);
    block.push(0);
    block.push(0);
    assert(block@ =~= devnames_spec(nb));
    Ok(block)
}

/// The bytes before the first NUL of `buf`; none where `buf` holds no NUL.
pub open spec fn c_string_prefix(buf: Seq<u8>) -> Seq<u8> {
    if exists|i: int| is_first_nul(buf, i) {
        buf.subrange(0, choose|i: int| is_first_nul(buf, i))
    } else {
        Seq::empty()
    }
}

/// The characters that `String::from_utf8_lossy` makes of `bytes`.
pub uninterp spec fn utf8_lossy(bytes: Seq<u8>) -> Seq<char>;

/// `String::from_utf8_lossy`: the bytes as text, each invalid sequence
/// replaced by U+FFFD; valid UTF-8 comes out as it is.
#[verifier::external_body]
fn lossy_text(bytes: &[u8]) -> (s: String)
    ensures
        s@ == utf8_lossy(bytes@),
        valid_utf8(bytes@) ==> s@ == decode_utf8(bytes@),
{
    String::from_utf8_lossy(bytes).to_string()
}

/// The printer name in a buffer filled by the system: the text before the
/// first NUL (empty where there is none).
pub fn printer_name_from_buffer(buf: &[u8]) -> (r: String)
    ensures
        r@ == utf8_lossy(c_string_prefix(buf@)),
{
    let n = buf.len();
    let mut i: usize = 0;
    while i < n
        invariant
            n == buf@.len(),
            i <= n,
            forall|j: int| 0 <= j < i ==> buf@[j] != 0,
        ensures
            i <= n,
            forall|j: int| 0 <= j < i ==> buf@[j] != 0,
            i < n ==> buf@[i as int] == 0,
        decreases n - i,
    {
        if buf[i] == 0 {
            break;
        }
        i = i + 1;
    }
    if i == n {
        assert forall|k: int| !is_first_nul(buf@, k) by {
            if is_first_nul(buf@, k) {
                assert(buf@[k] != 0);
            }
        }
        let (empty, _) = buf.split_at(0);
        assert(empty@ =~= Seq::<u8>::empty());
        return lossy_text(empty);
    }
    proof {
        assert(is_first_nul(buf@, i as int));
        let k = choose|k: int| is_first_nul(buf@, k);
        if k < i {
            assert(buf@[k] != 0);
        }
        if k > i {
            assert(buf@[i as int] != 0);
        }
    }
    let (prefix, _) = buf.split_at(i);
    lossy_text(prefix)
}

/// The printers named `names`, each marked default exactly when its name is
/// `default_name`.
pub fn mark_default(names: &Vec<String>, default_name: &String) -> (r: Vec<PrinterInfo>)
    ensures
        r@.len() == names@.len(),
        forall|i: int|
            0 <= i < names@.len() ==> (#[trigger] r@[i]).name@ == names@[i]@ && r@[i].is_default
                == (names@[i]@ == default_name@),
{
    let mut out: Vec<PrinterInfo> = Vec::new();
    let n = names.len();
    let mut i: usize = 0;
    while i < n
        invariant
            n == names@.len(),
            i <= n,
            out@.len() == i,
            forall|k: int|
                0 <= k < i ==> (#[trigger] out@[k]).name@ == names@[k]@ && out@[k].is_default == (
                names@[k]@ == default_name@),
        decreases n - i,
    {
        let name = names[i].clone();
        let is_default = name == *default_name;
        out.push(PrinterInfo { name, is_default });
        i = i + 1;
    }
    out
}

/// The printer that the caller asked for by name, if any: an empty name asks
/// for the system's default printer.
pub fn requested_printer(printer_name: &str) -> (r: Option<String>)
    ensures
        match r {
            Some(s) => printer_name@.len() > 0 && s@ == printer_name@,
            None => printer_name@.len() == 0,
        },
{
    if printer_name.is_empty() {
        None
    } else {
        Some(printer_name.to_owned())
    }
}

/// The error that a print dialog closed without a device context stands for:
/// no extended error code means the user cancelled.
pub fn dialog_failure(code: u32) -> (r: PrintError)
    ensures
        r@ == (if code == 0 {
            PrintFailure::PrintCancelled
        } else {
            PrintFailure::PrintDialogFailed(code)
        }),
{
    if code == 0 {
        PrintError::PrintCancelled
    } else {
        PrintError::PrintDialogFailed(code)
    }
}

/// The colour handling offered to the printer driver while it validates the
/// page settings, in the order they are tried.
#[derive(Clone, Copy, Debug, PartialEq, Eq)]
pub enum IcmAttempt {
    /// The driver owns colour handling, with the contrast intent.
    DriverManaged,
    /// No colour management (the intent is left as it was set).
    NoColorManagement,
    /// The driver's own colour settings, untouched.
    DriverDefaults,
}

/// The attempt that follows a refused `attempt`, if any is left.
pub open spec fn icm_fallback(attempt: IcmAttempt) -> Option<IcmAttempt> {
    match attempt {
        IcmAttempt::DriverManaged => Some(IcmAttempt::NoColorManagement),
        IcmAttempt::NoColorManagement => Some(IcmAttempt::DriverDefaults),
        IcmAttempt::DriverDefaults => None,
    }
}

/// What follows the driver's answer `validated` to `attempt`: the next
/// attempt where the driver refused (a negative answer) and one is left, or
/// `None`, where the settings are kept as validated or, after the last
/// refusal, given up.
pub fn next_icm_attempt(attempt: IcmAttempt, validated: i32) -> (r: Option<IcmAttempt>)
    ensures
        r == (if validated >= 0 {
            None
        } else {
            icm_fallback(attempt)
        }),
{
    if validated >= 0 {
        return None;
    }
    match attempt {
        IcmAttempt::DriverManaged => Some(IcmAttempt::NoColorManagement),
        IcmAttempt::NoColorManagement => Some(IcmAttempt::DriverDefaults),
        IcmAttempt::DriverDefaults => None,
    }
}

/// Where a cell's photo is drawn on the printer, in device units.
#[derive(Clone, Copy, Debug, PartialEq, Eq)]
pub struct CellDraw {
    /// `(x, y, w, h)` of the part of the photo that is drawn.
    pub source: (i32, i32, i32, i32),
    /// `(x, y, w, h)` of the rectangle it is stretched onto.
    pub dest: (i32, i32, i32, i32),
    /// The cell's outline, where the cell asks for one.
    pub outline: Option<OutlineRect>,
}

/// A rectangle outline `(left, top)`-`(right, bottom)` drawn with a pen.
#[derive(Clone, Copy, Debug, PartialEq, Eq)]
pub struct OutlineRect {
    pub left: i32,
    pub top: i32,
    pub right: i32,
    pub bottom: i32,
    pub pen_width: i32,
}

/// The arithmetic of drawing a `src_w x src_h` photo into `cell` stays in range.
pub open spec fn cell_draw_in_range(grid: GridConfig, cell: CellInfo, dpi_x: int, dpi_y: int, src_w: int, src_h: int) -> bool {
    let (dx, dy, dw, dh) = device_rect(grid, cell, dpi_x, dpi_y);
    &&& placement_in_range(
        cell.object_fit@ == "contain"@,
        printer_alignment(cell.alignment@).0,
        printer_alignment(cell.alignment@).1,
        src_w,
        src_h,
        dx as int,
        dy as int,
        dw as int,
        dh as int,
        grid.cell_width as int,
        grid.cell_height as int,
    )
    &&& cell.outline ==> outline_in_range(dx as int, dy as int, dw as int, dh as int, pen_width_spec(dpi_x) / 2)
}

/// The corners of a cell's outline, shrunk by `half` on every side, stay in `i32`.
pub open spec fn outline_in_range(dx: int, dy: int, dw: int, dh: int, half: int) -> bool {
    &&& i32::MIN <= dx + half <= i32::MAX
    &&& i32::MIN <= dy + half <= i32::MAX
    &&& i32::MIN <= dx + dw - half <= i32::MAX
    &&& i32::MIN <= dy + dh - half <= i32::MAX
}

/// How a `src_w x src_h` photo is drawn into `cell` on a printer with
/// `dpi_x x dpi_y` device units per inch: the placement of
/// [`compute_image_placement`] in the cell's device rectangle (the cell's
/// micrometre size giving the ratio), and, where the cell asks for it, an
/// outline with a 0.13 mm pen whose stroke lies inside the cell: the cell's
/// rectangle shrunk by half the pen width on every side, so that a pen
/// centred on it strokes the cell's border from within.
pub open spec fn cell_draw_spec(grid: GridConfig, cell: CellInfo, dpi_x: int, dpi_y: int, src_w: int, src_h: int) -> CellDraw {
    let (dx, dy, dw, dh) = device_rect(grid, cell, dpi_x, dpi_y);
    let p = placement_spec(
        cell.object_fit@ == "contain"@,
        printer_alignment(cell.alignment@).0,
        printer_alignment(cell.alignment@).1,
        src_w,
        src_h,
        dx as int,
        dy as int,
        dw as int,
        dh as int,
        grid.cell_width as int,
        grid.cell_height as int,
    );
    CellDraw {
        source: (p.0 as i32, p.1 as i32, p.2 as i32, p.3 as i32),
        dest: (p.4 as i32, p.5 as i32, p.6 as i32, p.7 as i32),
        outline: if cell.outline {
            Some(OutlineRect {
                left: (dx + pen_width_spec(dpi_x) / 2) as i32,
                top: (dy + pen_width_spec(dpi_x) / 2) as i32,
                right: (dx + dw - pen_width_spec(dpi_x) / 2) as i32,
                bottom: (dy + dh - pen_width_spec(dpi_x) / 2) as i32,
                pen_width: pen_width_spec(dpi_x) as i32,
            })
        } else {
            None
        },
    }
}

/// Whether the placement arithmetic stays in range (see [`placement_in_range`]).
fn placement_fits(
    object_fit: &str,
    alignment: &str,
    src_w: i32,
    src_h: i32,
    dest_x: i32,
    dest_y: i32,
    dest_w: i32,
    dest_h: i32,
    cell_width: i32,
    cell_height: i32,
) -> (r: bool)
    ensures
        r == placement_in_range(
            object_fit@ == "contain"@,
            printer_alignment(alignment@).0,
            printer_alignment(alignment@).1,
            src_w as int,
            src_h as int,
            dest_x as int,
            dest_y as int,
            dest_w as int,
            dest_h as int,
            cell_width as int,
            cell_height as int,
        ),
{
    let wider = crate::placement::is_wider(src_w, src_h, cell_width, cell_height);
    if !crate::alignment::str_equal(object_fit, "contain") {
        let extra: i64 = if wider {
            (src_w as i64) - (crate::placement::times(src_h, cell_width, cell_height) as i64)
        } else {
            (src_h as i64) - (crate::placement::over(src_w, cell_width, cell_height) as i64)
        };
        return i32::MIN as i64 <= extra && extra <= i32::MAX as i64;
    }
    let (align_x, align_y) = crate::alignment::alignment_factors(alignment);
    if wider {
        let adj_h = crate::placement::over(dest_w, src_w, src_h);
        let extra: i64 = (dest_h as i64) - (adj_h as i64);
        if extra < i32::MIN as i64 || extra > i32::MAX as i64 {
            return false;
        }
        let oy = crate::alignment::aligned_offset(extra as i32, align_y);
        (dest_y as i64) + (oy as i64) <= i32::MAX as i64
    } else {
        let adj_w = crate::placement::times(dest_h, src_w, src_h);
        let extra: i64 = (dest_w as i64) - (adj_w as i64);
        if extra < i32::MIN as i64 || extra > i32::MAX as i64 {
            return false;
        }
        let ox = crate::alignment::aligned_offset(extra as i32, align_x);
        (dest_x as i64) + (ox as i64) <= i32::MAX as i64
    }
}

/// How to draw a `src_w x src_h` photo into `cell` (see [`cell_draw_spec`]),
/// or `None` where that arithmetic leaves `i32`.
pub fn plan_cell_draw(
    grid: &GridConfig,
    cell: &CellInfo,
    dpi_x: i32,
    dpi_y: i32,
    src_w: i32,
    src_h: i32,
) -> (r: Option<CellDraw>)
    ensures
        match r {
            Some(d) => cell_draw_in_range(*grid, *cell, dpi_x as int, dpi_y as int, src_w as int, src_h as int)
                && d == cell_draw_spec(*grid, *cell, dpi_x as int, dpi_y as int, src_w as int, src_h as int),
            None => !cell_draw_in_range(*grid, *cell, dpi_x as int, dpi_y as int, src_w as int, src_h as int),
        },
{
    let (dest_x, dest_y, dest_w, dest_h) = cell_device_rect(grid, cell, dpi_x, dpi_y);
    if !placement_fits(
        cell.object_fit.as_str(),
        cell.alignment.as_str(),
        src_w,
        src_h,
        dest_x,
        dest_y,
        dest_w,
        dest_h,
        grid.cell_width,
        grid.cell_height,
    ) {
        return None;
    }
    let pen_width = outline_pen_width(dpi_x);
    let half: i64 = (pen_width / 2) as i64;
    let left: i64 = (dest_x as i64) + half;
    let top: i64 = (dest_y as i64) + half;
    let right: i64 = (dest_x as i64) + (dest_w as i64) - half;
    let bottom: i64 = (dest_y as i64) + (dest_h as i64) - half;
    if cell.outline && !(i32::MIN as i64 <= left && left <= i32::MAX as i64 && i32::MIN as i64 <= top
        && top <= i32::MAX as i64 && i32::MIN as i64 <= right && right <= i32::MAX as i64
        && i32::MIN as i64 <= bottom && bottom <= i32::MAX as i64) {
        return None;
    }
    let p = compute_image_placement(
        cell.object_fit.as_str(),
        cell.alignment.as_str(),
        src_w,
        src_h,
        dest_x,
        dest_y,
        dest_w,
        dest_h,
        grid.cell_width,
        grid.cell_height,
    );
    let outline = if cell.outline {
        Some(OutlineRect { left: left as i32, top: top as i32, right: right as i32, bottom: bottom as i32, pen_width })
    } else {
        None
    };
    Some(CellDraw { source: (p.0, p.1, p.2, p.3), dest: (p.4, p.5, p.6, p.7), outline })
}

/// A decoded, turned photo in the bottom-up BGR layout a printer takes.
#[derive(Clone, Debug)]
pub struct CachedBitmap {
    pub image_id: String,
    pub rotation: i32,
    pub width: i32,
    pub height: i32,
    pub bgr: Vec<u8>,
}

/// The bitmap that the photo `id` turned by `rotation` degrees becomes, from
/// the turned photo `turned`.
pub open spec fn bitmap_of(b: CachedBitmap, id: Seq<char>, rotation: i32, turned: PhotoModel) -> bool {
    &&& b.image_id@ == id
    &&& b.rotation == rotation
    &&& b.width == turned.0.0 as i32
    &&& b.height == turned.0.1 as i32
    &&& b.bgr@ == bgr_bitmap(photo_rgba8(turned), turned.0.0 as int, turned.0.1 as int)
}

/// The job's photo `id` decoded and turned by `rotation` degrees, or why it
/// cannot be had: it is missing, does not decode, or its 8-bit RGBA form
/// would not fit in memory.
pub open spec fn turned_photo_of(images: Seq<(String, String)>, id: Seq<char>, rotation: i32) -> Result<PhotoModel, PrintFailure> {
    match image_lookup(images, id) {
        None => Err(PrintFailure::ImageNotFound(id)),
        Some(uri) => match data_uri_image(encode_utf8(uri)) {
            Err(f) => Err(f),
            Ok(m) => {
                let turned = rotated_photo(m, quarter_turns(rotation as int));
                if 4 * turned.0.0 * turned.0.1 <= isize::MAX {
                    Ok(turned)
                } else {
                    Err(PrintFailure::ScaledImageTooLarge { width: turned.0.0, height: turned.0.1 })
                }
            },
        },
    }
}

/// `b` is the bitmap of the job's photo `b.image_id` turned by `b.rotation`
/// degrees: the photo is found in the job and decodes.
pub open spec fn bitmap_from_job(job: PrintJob, b: CachedBitmap) -> bool {
    turned_photo_of(job.images@, b.image_id@, b.rotation) matches Ok(turned)
        && bitmap_of(b, b.image_id@, b.rotation, turned)
}

/// The key `(photo id, rotation)` under which a bitmap is cached.
pub open spec fn bitmap_key(b: CachedBitmap) -> (Seq<char>, i32) {
    (b.image_id@, b.rotation)
}

/// The keys of a cache holding `keys` after loading the bitmap for `key`: a
/// key already cached adds nothing, a new one is appended.
pub open spec fn keys_after_load(keys: Seq<(Seq<char>, i32)>, key: (Seq<char>, i32)) -> Seq<(Seq<char>, i32)> {
    if keys.contains(key) {
        keys
    } else {
        keys.push(key)
    }
}

/// The keys of an empty cache after loading the bitmaps for `cells` in order.
pub open spec fn loaded_keys(cells: Seq<(Seq<char>, i32)>) -> Seq<(Seq<char>, i32)>
    decreases cells.len(),
{
    if cells.len() == 0 {
        Seq::empty()
    } else {
        keys_after_load(loaded_keys(cells.drop_last()), cells.last())
    }
}

/// Entry `i` of `entries` is the first one for `(id, rotation)`.
pub open spec fn is_first_entry(entries: Seq<CachedBitmap>, id: Seq<char>, rotation: i32, i: int) -> bool {
    &&& 0 <= i < entries.len()
    &&& entries[i].image_id@ == id
    &&& entries[i].rotation == rotation
    &&& forall|j: int| 0 <= j < i ==> !(entries[j].image_id@ == id && entries[j].rotation == rotation)
}

/// Decoded photos by `(id, rotation)`, each decoded once per print job.
pub struct BitmapCache {
    entries: Vec<CachedBitmap>,
}

impl BitmapCache {
    /// The cached bitmaps, in the order they were decoded.
    pub closed spec fn entries(&self) -> Seq<CachedBitmap> {
        self.entries@
    }

    /// The keys of the cached bitmaps, in the order they were decoded.
    pub open spec fn keys(&self) -> Seq<(Seq<char>, i32)> {
        self.entries().map_values(|b: CachedBitmap| bitmap_key(b))
    }

    /// Every cached bitmap is that of the job's photo under its key.
    pub open spec fn holds_bitmaps_of(&self, job: PrintJob) -> bool {
        forall|i: int| 0 <= i < self.entries().len() ==> bitmap_from_job(job, #[trigger] self.entries()[i])
    }

    /// No two cached bitmaps share a photo id and a rotation.
    pub open spec fn keys_distinct(&self) -> bool {
        forall|i: int, j: int|
            0 <= i < j < self.entries().len() ==> !(#[trigger] self.entries()[i].image_id@
                == #[trigger] self.entries()[j].image_id@ && self.entries()[i].rotation
                == self.entries()[j].rotation)
    }

    /// An empty cache.
    pub fn new() -> (r: BitmapCache)
        ensures
            r.entries() == Seq::<CachedBitmap>::empty(),
            r.keys_distinct(),
    {
        BitmapCache { entries: Vec::new() }
    }

    /// Number of cached bitmaps.
    pub fn len(&self) -> (n: usize)
        ensures
            n == self.entries().len(),
    {
        self.entries.len()
    }

    /// The `i`-th cached bitmap.
    pub fn get(&self, i: usize) -> (b: &CachedBitmap)
        requires
            i < self.entries().len(),
        ensures
            *b == self.entries()[i as int],
    {
        &self.entries[i]
    }

    /// Index of the first bitmap cached for `(id, rotation)`, if any.
    pub fn find(&self, id: &String, rotation: i32) -> (r: Option<usize>)
        ensures
            match r {
                Some(i) => is_first_entry(self.entries(), id@, rotation, i as int),
                None => forall|i: int|
                    0 <= i < self.entries().len() ==> !(#[trigger] self.entries()[i].image_id@ == id@
                        && self.entries()[i].rotation == rotation),
            },
    {
        let n = self.entries.len();
        let mut i: usize = 0;
        while i < n
            invariant
                n == self.entries@.len(),
                i <= n,
                forall|j: int|
                    0 <= j < i ==> !(#[trigger] self.entries@[j].image_id@ == id@ && self.entries@[j].rotation
                        == rotation),
            decreases n - i,
        {
            if self.entries[i].rotation == rotation && self.entries[i].image_id == *id {
                return Some(i);
            }
            i = i + 1;
        }
        None
    }

    /// The index of the bitmap for `cell`'s photo and rotation: the cached one
    /// where there is one; else the photo is looked up in the job, decoded,
    /// turned and converted, and appended to the cache. Fails, leaving the
    /// cache as it is, where the photo is missing or cannot be decoded.
    pub fn load(&mut self, job: &PrintJob, cell: &CellInfo) -> (r: Result<usize, PrintError>)
        ensures
            old(self).keys_distinct() ==> final(self).keys_distinct(),
            old(self).holds_bitmaps_of(*job) ==> final(self).holds_bitmaps_of(*job),
            match r {
                Ok(i) => {
                    &&& i < final(self).entries().len()
                    &&& final(self).keys() == keys_after_load(old(self).keys(), (cell.image_id@, cell.rotation))
                    &&& old(self).holds_bitmaps_of(*job) ==> bitmap_from_job(*job, final(self).entries()[i as int])
                    &&& final(self).entries()[i as int].image_id@ == cell.image_id@
                    &&& final(self).entries()[i as int].rotation == cell.rotation
                    &&& (exists|k: int| is_first_entry(old(self).entries(), cell.image_id@, cell.rotation, k))
                        ==> final(self).entries() == old(self).entries()
                            && is_first_entry(old(self).entries(), cell.image_id@, cell.rotation, i as int)
                    &&& (!exists|k: int| is_first_entry(old(self).entries(), cell.image_id@, cell.rotation, k))
                        ==> {
                        &&& turned_photo_of(job.images@, cell.image_id@, cell.rotation) matches Ok(turned)
                        &&& i == old(self).entries().len()
                        &&& final(self).entries().len() == i + 1
                        &&& final(self).entries().subrange(0, i as int) == old(self).entries()
                        &&& bitmap_of(final(self).entries()[i as int], cell.image_id@, cell.rotation, turned)
                    }
                },
                Err(e) => {
                    &&& final(self).entries() == old(self).entries()
                    &&& !exists|k: int| is_first_entry(old(self).entries(), cell.image_id@, cell.rotation, k)
                    &&& !old(self).keys().contains((cell.image_id@, cell.rotation))
                    &&& turned_photo_of(job.images@, cell.image_id@, cell.rotation) == Err::<PhotoModel, PrintFailure>(e@)
                },
            },
    {
        if let Some(i) = self.find(&cell.image_id, cell.rotation) {
            assert(self.keys()[i as int] == (cell.image_id@, cell.rotation));
            return Ok(i);
        }
        assert(!self.keys().contains((cell.image_id@, cell.rotation))) by {
            if self.keys().contains((cell.image_id@, cell.rotation)) {
                let k = choose|k: int| 0 <= k < self.keys().len() && self.keys()[k] == (cell.image_id@, cell.rotation);
                assert(self.entries()[k].image_id@ == cell.image_id@);
            }
        }
        assert(!exists|k: int| is_first_entry(old(self).entries(), cell.image_id@, cell.rotation, k)) by {
            assert forall|k: int| !is_first_entry(old(self).entries(), cell.image_id@, cell.rotation, k) by {
                if is_first_entry(old(self).entries(), cell.image_id@, cell.rotation, k) {
                    assert(!(self.entries()[k].image_id@ == cell.image_id@ && self.entries()[k].rotation == cell.rotation));
                }
            }
        }
        let uri = match find_image(&job.images, &cell.image_id) {
            Some(u) => u,
            None => {
                return Err(PrintError::ImageNotFound(cell.image_id.clone()));
            },
        };
        let photo = prepare_cell_image(uri.as_str(), cell.rotation)?;
        let img = match photo.to_rgba() {
            Some(r) => r,
            None => {
                return Err(PrintError::ScaledImageTooLarge { width: photo.width(), height: photo.height() });
            },
        };
        let bgr = rgba_to_bgr(&img);
        let entry = CachedBitmap {
            image_id: cell.image_id.clone(),
            rotation: cell.rotation,
            width: img.width() as i32,
            height: img.height() as i32,
            bgr,
        };
        let i = self.entries.len();
        self.entries.push(entry);
        assert(self.entries().subrange(0, i as int) =~= old(self).entries());
        assert(self.keys() =~= old(self).keys().push((cell.image_id@, cell.rotation)));
        Ok(i)
    }
}

/// What the printer does for one cell of a job.
#[derive(Clone, Debug)]
pub enum PrintStep {
    /// The cell lies outside the grid: it is passed over.
    Skip,
    /// Stretch the cached bitmap `bitmap` onto the page as `plan` says.
    Draw { bitmap: usize, plan: CellDraw },
    /// Stop printing with this error.
    Abort(PrintError),
}

impl BitmapCache {
    /// The step for `cell`, in the job's order, on a printer with
    /// `dpi_x x dpi_y` device units per inch: a cell outside the grid is
    /// passed over; otherwise its bitmap is loaded (see [`BitmapCache::load`])
    /// and drawn as [`plan_cell_draw`] says, or printing stops with the
    /// loading error. `None` where the cell's placement arithmetic leaves
    /// `i32`.
    pub fn print_step(&mut self, job: &PrintJob, cell: &CellInfo, dpi_x: i32, dpi_y: i32) -> (r: Option<PrintStep>)
        ensures
            old(self).keys_distinct() ==> final(self).keys_distinct(),
            old(self).holds_bitmaps_of(*job) ==> final(self).holds_bitmaps_of(*job),
            !(cell.row < job.grid.rows && cell.col < job.grid.cols) ==> r == Some(PrintStep::Skip)
                && final(self).entries() == old(self).entries(),
            cell.row < job.grid.rows && cell.col < job.grid.cols ==> !(r matches Some(PrintStep::Skip)),
            r matches Some(PrintStep::Abort(e)) ==> {
                &&& final(self).entries() == old(self).entries()
                &&& !old(self).keys().contains((cell.image_id@, cell.rotation))
                &&& turned_photo_of(job.images@, cell.image_id@, cell.rotation) == Err::<PhotoModel, PrintFailure>(e@)
            },
            r matches Some(PrintStep::Draw { bitmap, plan }) ==> {
                &&& bitmap < final(self).entries().len()
                &&& bitmap_key(final(self).entries()[bitmap as int]) == (cell.image_id@, cell.rotation)
                &&& final(self).keys() == keys_after_load(old(self).keys(), (cell.image_id@, cell.rotation))
                &&& old(self).holds_bitmaps_of(*job) ==> bitmap_from_job(*job, final(self).entries()[bitmap as int])
                &&& cell_draw_in_range(job.grid, *cell, dpi_x as int, dpi_y as int,
                    final(self).entries()[bitmap as int].width as int, final(self).entries()[bitmap as int].height as int)
                &&& plan == cell_draw_spec(job.grid, *cell, dpi_x as int, dpi_y as int,
                    final(self).entries()[bitmap as int].width as int, final(self).entries()[bitmap as int].height as int)
            },
            r is None ==> exists|i: int|
                0 <= i < final(self).entries().len() && bitmap_key(#[trigger] final(self).entries()[i]) == (cell.image_id@, cell.rotation)
                    && !cell_draw_in_range(job.grid, *cell, dpi_x as int, dpi_y as int,
                    final(self).entries()[i].width as int, final(self).entries()[i].height as int),
    {
        if !crate::layout::cell_in_grid(&job.grid, cell) {
            return Some(PrintStep::Skip);
        }
        let index = match self.load(job, cell) {
            Ok(i) => i,
            Err(e) => {
                return Some(PrintStep::Abort(e));
            },
        };
        let cached = self.get(index);
        match plan_cell_draw(&job.grid, cell, dpi_x, dpi_y, cached.width, cached.height) {
            Some(plan) => Some(PrintStep::Draw { bitmap: index, plan }),
            None => {
                assert(bitmap_key(self.entries()[index as int]) == (cell.image_id@, cell.rotation));
                None
            },
        }
    }
}

} // verus!
