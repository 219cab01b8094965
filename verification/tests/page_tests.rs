use print_catalog::engine::try_compose_page;
use base64::Engine;
use print_catalog::{compose_page, um_to_px, CellInfo, GridConfig, PrintError, PrintJob, Raster};
use print_catalog::layout::{cell_device_rect, cell_pixel_origin, outline_pen_width};
use print_catalog::cell_in_grid;

fn png_data_uri(width: u32, height: u32, rgba: [u8; 4]) -> String {
    let img = image::RgbaImage::from_pixel(width, height, image::Rgba(rgba));
    let mut bytes: Vec<u8> = Vec::new();
    image::DynamicImage::ImageRgba8(img)
        .write_to(&mut std::io::Cursor::new(&mut bytes), image::ImageFormat::Png)
        .unwrap();
    format!("data:image/png;base64,{}", base64::engine::general_purpose::STANDARD.encode(&bytes))
}

fn pixel(img: &Raster, x: u32, y: u32) -> [u8; 4] {
    let b = img.to_bytes();
    let i = (4 * (y * img.width() + x)) as usize;
    [b[i], b[i + 1], b[i + 2], b[i + 3]]
}

/// 10 x 10 mm page at 254 dpi (100 x 100 px), 2 mm cells (20 px), 1 mm padding and gaps.
fn grid() -> GridConfig {
    GridConfig {
        rows: 3,
        cols: 3,
        cell_width: 2_000,
        cell_height: 2_000,
        gap_x: 1_000,
        gap_y: 1_000,
        padding_top: 1_000,
        padding_left: 1_000,
        page_width: 10_000,
        page_height: 10_000,
        dpi: 254,
    }
}

fn cell(row: u32, col: u32, id: &str, fit: &str, outline: bool) -> CellInfo {
    CellInfo {
        row,
        col,
        image_id: id.to_string(),
        object_fit: fit.to_string(),
        alignment: "center".to_string(),
        rotation: 0,
        outline,
    }
}

#[test]
fn um_to_px_rounds_at_resolution() {
    assert_eq!(um_to_px(25_400, 300), 300);
    assert_eq!(um_to_px(210_000, 300), 2480);
    assert_eq!(um_to_px(12_700, 1), 1);
    assert_eq!(um_to_px(12_699, 1), 0);
    assert_eq!(um_to_px(-5_000, 300), 0);
    assert_eq!(um_to_px(i32::MAX, u32::MAX), u32::MAX);
}

#[test]
fn cell_positions_follow_padding_and_gaps() {
    let g = grid();
    assert_eq!(cell_pixel_origin(&g, &cell(0, 0, "a", "cover", false)), (10, 10));
    assert_eq!(cell_pixel_origin(&g, &cell(1, 2, "a", "cover", false)), (70, 40));
    assert_eq!(cell_device_rect(&g, &cell(1, 2, "a", "cover", false), 600, 300), (165, 47, 47, 24));
}

#[test]
fn outline_pen_is_thirteen_hundredths_of_a_millimetre() {
    assert_eq!(outline_pen_width(600), 3);
    assert_eq!(outline_pen_width(300), 2);
    assert_eq!(outline_pen_width(72), 1);
    assert_eq!(outline_pen_width(0), 1);
}

#[test]
fn cells_outside_grid_are_recognised() {
    let g = grid();
    assert!(cell_in_grid(&g, &cell(2, 2, "a", "cover", false)));
    assert!(!cell_in_grid(&g, &cell(3, 0, "a", "cover", false)));
    assert!(!cell_in_grid(&g, &cell(0, 3, "a", "cover", false)));
}

#[test]
fn compose_page_places_photo_in_cell() {
    let job = PrintJob {
        grid: grid(),
        images: vec![("red".to_string(), png_data_uri(4, 2, [220, 0, 0, 255]))],
        cells: vec![cell(0, 0, "red", "contain", true)],
    };
    let page = compose_page(&job).unwrap();
    assert_eq!((page.width(), page.height()), (100, 100));
    // the 4 x 2 photo fills rows 15..25 of the 20 x 20 cell at (10, 10)
    let inside = pixel(&page, 20, 20);
    assert!(inside[0] >= 200 && inside[1] <= 10, "{:?}", inside);
    assert_eq!(pixel(&page, 20, 12), [255, 255, 255, 255]);
    assert_eq!(pixel(&page, 50, 50), [255, 255, 255, 255]);
    // outline on the cell border
    assert_eq!(pixel(&page, 10, 10), [0, 0, 0, 255]);
    assert_eq!(pixel(&page, 29, 20), [0, 0, 0, 255]);
}

#[test]
fn compose_page_empty_job_is_white() {
    let job = PrintJob { grid: grid(), images: vec![], cells: vec![] };
    let page = compose_page(&job).unwrap();
    assert_eq!(page.to_bytes(), vec![255u8; 4 * 100 * 100]);
}

#[test]
fn compose_page_refuses_oversized_page() {
    let mut g = grid();
    g.page_width = 300_000;
    g.dpi = 2_000;
    let job = PrintJob { grid: g, images: vec![], cells: vec![] };
    match compose_page(&job) {
        Err(PrintError::PageTooLarge { width, height }) => {
            assert_eq!(width, 23622);
            assert_eq!(height, 787);
        },
        other => panic!("unexpected {:?}", other.map(|p| p.width())),
    }
}

#[test]
fn compose_page_reports_missing_photo() {
    let job = PrintJob {
        grid: grid(),
        images: vec![("red".to_string(), png_data_uri(1, 1, [220, 0, 0, 255]))],
        cells: vec![cell(0, 0, "red", "cover", false), cell(0, 1, "blue", "cover", false)],
    };
    match compose_page(&job) {
        Err(PrintError::ImageNotFound(id)) => assert_eq!(id, "blue"),
        other => panic!("unexpected {:?}", other.map(|p| p.width())),
    }
}

#[test]
fn compose_page_reports_undecodable_photo() {
    let job = PrintJob {
        grid: grid(),
        images: vec![("bad".to_string(), "data:image/png;base64,AAAA".to_string())],
        cells: vec![cell(0, 0, "bad", "cover", false)],
    };
    assert!(matches!(compose_page(&job), Err(PrintError::ImageDecode(_))));
}

#[test]
fn compose_page_uses_first_photo_with_an_id() {
    let job = PrintJob {
        grid: grid(),
        images: vec![
            ("p".to_string(), png_data_uri(2, 2, [0, 0, 230, 255])),
            ("p".to_string(), png_data_uri(2, 2, [230, 0, 0, 255])),
        ],
        cells: vec![cell(0, 0, "p", "cover", false)],
    };
    let page = compose_page(&job).unwrap();
    let p = pixel(&page, 20, 20);
    assert!(p[2] >= 200 && p[0] <= 10, "{:?}", p);
}

#[test]
fn try_compose_page_refuses_outlines_past_the_pixel_range() {
    let images = vec![("a".to_string(), png_data_uri(2, 2, [1, 2, 3, 255]))];
    let ok = PrintJob { grid: grid(), images: images.clone(), cells: vec![cell(0, 0, "a", "cover", true)] };
    assert!(matches!(try_compose_page(&ok), Some(Ok(_))));
    // a column so far right that the cell's origin saturates at u32::MAX
    let far = PrintJob { grid: grid(), images: images.clone(), cells: vec![cell(0, 200_000_000, "a", "cover", true)] };
    assert!(try_compose_page(&far).is_none());
    let plain = PrintJob { grid: grid(), images: images.clone(), cells: vec![cell(0, 200_000_000, "a", "cover", false)] };
    let page = try_compose_page(&plain).unwrap().unwrap();
    assert_eq!(page.to_bytes(), vec![255u8; 4 * 100 * 100]);
    // a missing photo ends composing before the outline is reached
    let missing = PrintJob { grid: grid(), images: vec![], cells: vec![cell(0, 200_000_000, "b", "cover", true)] };
    assert!(matches!(try_compose_page(&missing), Some(Err(PrintError::ImageNotFound(_)))));
    // an oversized page is refused before any cell
    let mut huge = grid();
    huge.dpi = 100_000;
    let job = PrintJob { grid: huge, images: vec![], cells: vec![cell(0, 200_000_000, "a", "cover", true)] };
    match try_compose_page(&job) {
        Some(Err(PrintError::PageTooLarge { width, height })) => assert_eq!((width, height), (39370, 39370)),
        other => panic!("unexpected {:?}", other.map(|r| r.map(|p| p.width()))),
    }
}

#[test]
fn compose_page_later_cell_shows_where_cells_overlap() {
    let mut g = grid();
    g.gap_x = -1_000; // the second cell starts 10 px into the first
    let job = PrintJob {
        grid: g,
        images: vec![
            ("red".to_string(), png_data_uri(2, 2, [200, 0, 0, 255])),
            ("blue".to_string(), png_data_uri(2, 2, [0, 0, 200, 255])),
        ],
        cells: vec![cell(0, 0, "red", "cover", false), cell(0, 1, "blue", "cover", false)],
    };
    let page = compose_page(&job).unwrap();
    // cell 0 covers x 10..30, cell 1 covers x 20..40 (rows 10..30)
    assert_eq!(pixel(&page, 15, 15), [200, 0, 0, 255]);
    assert_eq!(pixel(&page, 25, 15), [0, 0, 200, 255]);
    assert_eq!(pixel(&page, 35, 15), [0, 0, 200, 255]);
    // outside both rectangles the page stays white
    assert_eq!(pixel(&page, 45, 15), [255, 255, 255, 255]);
    assert_eq!(pixel(&page, 15, 35), [255, 255, 255, 255]);
}
