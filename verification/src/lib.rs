//! Geometry, pixel-buffer and page-composition logic of a photo-grid printing
//! tool: where each photo goes on the page, how it is scaled, cropped and
//! aligned inside its cell, how a page raster is composed, and how RGBA pixels
//! become the bottom-up BGR rows that a GDI printer expects.
//!
//! All lengths are whole micrometres and all arithmetic is exact: ratios are
//! compared by cross-multiplication and every rounding is "half away from zero".

pub mod arith;
pub mod alignment;
pub mod placement;
pub mod layout;
pub mod bgr;
pub mod raster;
pub mod engine;
pub mod printer;
pub mod laws;

pub use alignment::{AlignFactor, aligned_offset, alignment_factors, parse_alignment};
pub use placement::compute_image_placement;
pub use layout::{um_to_px, cell_in_grid};
pub use bgr::rgba_to_bgr;
pub use raster::{Photo, Raster};
pub use engine::{compose_page, decode_data_uri, draw_outline, prepare_cell_image, resize_for_cell};
pub use printer::{BitmapCache, CachedBitmap, CellDraw, OutlineRect, PaperSettings, plan_cell_draw};


use vstd::prelude::*;

verus! {

/// Grid layout of one page. Every length is in micrometres.
#[derive(Clone, Copy, Debug, PartialEq, Eq)]
pub struct GridConfig {
    pub rows: u32,
    pub cols: u32,
    pub cell_width: i32,
    pub cell_height: i32,
    pub gap_x: i32,
    pub gap_y: i32,
    pub padding_top: i32,
    pub padding_left: i32,
    pub page_width: i32,
    pub page_height: i32,
    pub dpi: u32,
}

/// One photo placement on the grid.
#[derive(Clone, Debug)]
pub struct CellInfo {
    pub row: u32,
    pub col: u32,
    /// Key of the photo in [`PrintJob::images`].
    pub image_id: String,
    /// `"cover"` or `"contain"`; anything else behaves as `"cover"`.
    pub object_fit: String,
    /// e.g. `"center"`, `"top-left"`.
    pub alignment: String,
    /// Clockwise rotation in degrees (0, 90, 180, 270).
    pub rotation: i32,
    pub outline: bool,
}

/// A complete print job: the grid, the photos by id (data URIs), and the cells.
#[derive(Clone, Debug)]
pub struct PrintJob {
    pub grid: GridConfig,
    /// `(id, data URI)` pairs; lookups use the first pair with a matching id.
    pub images: Vec<(String, String)>,
    pub cells: Vec<CellInfo>,
}

/// A printer known to the system.
#[derive(Clone, Debug)]
pub struct PrinterInfo {
    pub name: String,
    pub is_default: bool,
}

/// Everything that can go wrong while preparing or printing a page.
#[derive(Clone, Debug)]
pub enum PrintError {
    /// The data URI holds no `,` separating the header from the payload.
    InvalidDataUri,
    /// The payload is not valid standard base64; the text describes why.
    Base64(String),
    /// The bytes are not an image that can be decoded; the text describes why.
    ImageDecode(String),
    /// The page raster would exceed 20000 pixels in some direction.
    PageTooLarge { width: u32, height: u32 },
    /// A scaled photo would not fit in memory.
    ScaledImageTooLarge { width: u32, height: u32 },
    /// A cell refers to a photo id that the job does not hold.
    ImageNotFound(String),
    /// A printer name holds a NUL byte at the given byte position.
    InvalidPrinterName { nul_position: usize },
    /// The user closed the print dialog.
    PrintCancelled,
    /// The print dialog failed with the given extended error code.
    PrintDialogFailed(u32),
}

/// What a [`PrintError`] says, with its texts as character sequences.
pub ghost enum PrintFailure {
    InvalidDataUri,
    Base64(Seq<char>),
    ImageDecode(Seq<char>),
    PageTooLarge { width: u32, height: u32 },
    ScaledImageTooLarge { width: u32, height: u32 },
    ImageNotFound(Seq<char>),
    InvalidPrinterName { nul_position: usize },
    PrintCancelled,
    PrintDialogFailed(u32),
}

impl View for PrintError {
    type V = PrintFailure;

    open spec fn view(&self) -> PrintFailure {
        match self {
            PrintError::InvalidDataUri => PrintFailure::InvalidDataUri,
            PrintError::Base64(m) => PrintFailure::Base64(m@),
            PrintError::ImageDecode(m) => PrintFailure::ImageDecode(m@),
            PrintError::PageTooLarge { width, height } => PrintFailure::PageTooLarge { width: *width, height: *height },
            PrintError::ScaledImageTooLarge { width, height } => PrintFailure::ScaledImageTooLarge { width: *width, height: *height },
            PrintError::ImageNotFound(id) => PrintFailure::ImageNotFound(id@),
            PrintError::InvalidPrinterName { nul_position } => PrintFailure::InvalidPrinterName { nul_position: *nul_position },
            PrintError::PrintCancelled => PrintFailure::PrintCancelled,
            PrintError::PrintDialogFailed(code) => PrintFailure::PrintDialogFailed(*code),
        }
    }
}

} // verus!
