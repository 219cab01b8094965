use print_catalog::printer::PrintStep;
use print_catalog::printer::{next_icm_attempt, IcmAttempt};
use base64::Engine;
use print_catalog::printer::{
    devnames_block, dialog_failure, mark_default, paper_settings, printer_name_from_buffer,
    requested_printer, PAPER_A4, PAPER_CUSTOM, PAPER_LETTER,
};
use print_catalog::{plan_cell_draw, BitmapCache, CellInfo, GridConfig, OutlineRect, PrintError, PrintJob};

fn grid(page_w: i32, page_h: i32) -> GridConfig {
    GridConfig {
        rows: 2,
        cols: 2,
        cell_width: 50_000,
        cell_height: 50_000,
        gap_x: 5_000,
        gap_y: 5_000,
        padding_top: 10_000,
        padding_left: 10_000,
        page_width: page_w,
        page_height: page_h,
        dpi: 300,
    }
}

fn cell(id: &str, rotation: i32, outline: bool) -> CellInfo {
    CellInfo {
        row: 0,
        col: 1,
        image_id: id.to_string(),
        object_fit: "cover".to_string(),
        alignment: "center".to_string(),
        rotation,
        outline,
    }
}

fn png_data_uri(width: u32, height: u32) -> String {
    let img = image::RgbaImage::from_pixel(width, height, image::Rgba([1, 2, 3, 255]));
    let mut bytes: Vec<u8> = Vec::new();
    image::DynamicImage::ImageRgba8(img)
        .write_to(&mut std::io::Cursor::new(&mut bytes), image::ImageFormat::Png)
        .unwrap();
    format!("data:image/png;base64,{}", base64::engine::general_purpose::STANDARD.encode(&bytes))
}

#[test]
fn paper_settings_recognise_standard_sizes() {
    let a4 = paper_settings(&grid(210_000, 297_000));
    assert_eq!((a4.paper_size, a4.paper_width, a4.paper_length, a4.orientation), (PAPER_A4, 2100, 2970, 1));
    let a4_land = paper_settings(&grid(297_000, 210_000));
    assert_eq!((a4_land.paper_size, a4_land.orientation), (PAPER_A4, 2));
    let letter = paper_settings(&grid(215_900, 279_400));
    assert_eq!((letter.paper_size, letter.paper_width, letter.paper_length), (PAPER_LETTER, 2159, 2794));
    let photo = paper_settings(&grid(101_600, 152_400));
    assert_eq!((photo.paper_size, photo.paper_width, photo.paper_length, photo.orientation), (PAPER_CUSTOM, 1016, 1524, 1));
    let huge = paper_settings(&grid(5_000_000, 10));
    assert_eq!((huge.paper_width, huge.paper_length, huge.orientation), (i16::MAX, 0, 2));
}

#[test]
fn devnames_block_lays_out_names_after_header() {
    let block = devnames_block("HP").unwrap();
    let mut expected = vec![8u8, 0, 17, 0, 20, 0, 0, 0];
    expected.extend_from_slice(b"winspool\0HP\0\0");
    assert_eq!(block, expected);
}

#[test]
fn devnames_block_refuses_nul_in_name() {
    assert!(matches!(devnames_block("a\0b"), Err(PrintError::InvalidPrinterName { nul_position: 1 })));
}

#[test]
fn printer_name_is_text_before_nul() {
    assert_eq!(printer_name_from_buffer(b"Office Jet\0garbage"), "Office Jet");
    assert_eq!(printer_name_from_buffer(b"no terminator"), "");
    assert_eq!(printer_name_from_buffer(b"\0"), "");
    assert_eq!(printer_name_from_buffer(b"caf\xe9\0"), "caf\u{fffd}");
}

#[test]
fn default_printer_is_marked_by_name() {
    let names = vec!["A".to_string(), "B".to_string(), "A".to_string()];
    let marked = mark_default(&names, &"A".to_string());
    let flags: Vec<(String, bool)> = marked.into_iter().map(|p| (p.name, p.is_default)).collect();
    assert_eq!(flags, vec![("A".to_string(), true), ("B".to_string(), false), ("A".to_string(), true)]);
}

#[test]
fn empty_printer_name_asks_for_default() {
    assert_eq!(requested_printer(""), None);
    assert_eq!(requested_printer("Lab"), Some("Lab".to_string()));
}

#[test]
fn dialog_without_error_code_was_cancelled() {
    assert!(matches!(dialog_failure(0), PrintError::PrintCancelled));
    assert!(matches!(dialog_failure(4100), PrintError::PrintDialogFailed(4100)));
}

#[test]
fn plan_cell_draw_places_in_device_units() {
    let g = grid(210_000, 297_000);
    let plan = plan_cell_draw(&g, &cell("a", 0, true), 600, 600, 400, 200).unwrap();
    // x = (10 + 55) mm = 1535 units, y = 10 mm = 236 units, 50 mm = 1181 units
    assert_eq!(plan.dest, (1535, 236, 1181, 1181));
    assert_eq!(plan.source, (100, 0, 200, 200));
    assert_eq!(
        plan.outline,
        // the 3-unit pen, centred half a pen width inside the cell, strokes within it
        Some(OutlineRect { left: 1536, top: 237, right: 2715, bottom: 1416, pen_width: 3 })
    );
    let plain = plan_cell_draw(&g, &cell("a", 0, false), 600, 600, 400, 200).unwrap();
    assert_eq!(plain.outline, None);
    // a negative source width is placed as the floating-point formulas place it
    let odd = plan_cell_draw(&g, &cell("a", 0, false), 600, 600, -1, 200).unwrap();
    assert_eq!(odd.source, (0, 101, -1, -1));
    assert_eq!(odd.dest, (1535, 236, 1181, 1181));
}

#[test]
fn bitmap_cache_decodes_each_photo_once() {
    let job = PrintJob {
        grid: grid(210_000, 297_000),
        images: vec![("a".to_string(), png_data_uri(3, 2))],
        cells: vec![],
    };
    let mut cache = BitmapCache::new();
    let i = cache.load(&job, &cell("a", 90, false)).unwrap();
    assert_eq!(i, 0);
    let b = cache.get(i);
    assert_eq!((b.width, b.height, b.rotation), (2, 3, 90));
    assert_eq!(b.bgr.len(), 8 * 3);
    assert_eq!(&b.bgr[0..3], &[3, 2, 1]);
    assert_eq!(cache.load(&job, &cell("a", 90, false)).unwrap(), 0);
    assert_eq!(cache.len(), 1);
    assert_eq!(cache.load(&job, &cell("a", 0, false)).unwrap(), 1);
    assert_eq!(cache.get(1).width, 3);
    match cache.load(&job, &cell("b", 0, false)) {
        Err(PrintError::ImageNotFound(id)) => assert_eq!(id, "b"),
        other => panic!("unexpected {:?}", other),
    }
    assert_eq!(cache.len(), 2);
}

#[test]
fn icm_attempts_fall_back_in_order() {
    assert_eq!(next_icm_attempt(IcmAttempt::DriverManaged, 1), None);
    assert_eq!(next_icm_attempt(IcmAttempt::DriverManaged, -1), Some(IcmAttempt::NoColorManagement));
    assert_eq!(next_icm_attempt(IcmAttempt::NoColorManagement, -1), Some(IcmAttempt::DriverDefaults));
    assert_eq!(next_icm_attempt(IcmAttempt::DriverDefaults, -1), None);
    assert_eq!(next_icm_attempt(IcmAttempt::NoColorManagement, 0), None);
}

#[test]
fn cached_bitmap_is_reused_for_the_same_photo_and_rotation() {
    let job = PrintJob {
        grid: grid(210_000, 297_000),
        images: vec![("a".to_string(), png_data_uri(3, 2)), ("b".to_string(), png_data_uri(1, 1))],
        cells: vec![],
    };
    let mut cache = BitmapCache::new();
    // keys a/90, b/0, a/90, a/0, b/0: three distinct keys, three decodes
    let keys = [("a", 90), ("b", 0), ("a", 90), ("a", 0), ("b", 0)];
    let idx: Vec<usize> = keys.iter().map(|(id, r)| cache.load(&job, &cell(id, *r, false)).unwrap()).collect();
    assert_eq!(idx, vec![0, 1, 0, 2, 1]);
    assert_eq!(cache.len(), 3);
    let fresh = {
        let mut c = BitmapCache::new();
        let i = c.load(&job, &cell("a", 90, false)).unwrap();
        c.get(i).bgr.clone()
    };
    assert_eq!(cache.get(idx[2]).bgr, fresh);
}

#[test]
fn print_step_skips_draws_and_aborts_in_order() {
    let job = PrintJob {
        grid: grid(210_000, 297_000),
        images: vec![("a".to_string(), png_data_uri(400, 200))],
        cells: vec![],
    };
    let mut cache = BitmapCache::new();
    let mut outside = cell("a", 0, false);
    outside.col = 2;
    assert!(matches!(cache.print_step(&job, &outside, 600, 600), Some(PrintStep::Skip)));
    assert_eq!(cache.len(), 0);
    match cache.print_step(&job, &cell("a", 0, true), 600, 600) {
        Some(PrintStep::Draw { bitmap, plan }) => {
            assert_eq!(bitmap, 0);
            assert_eq!(plan.dest, (1535, 236, 1181, 1181));
            assert_eq!(plan.source, (100, 0, 200, 200));
        }
        other => panic!("unexpected {:?}", other),
    }
    match cache.print_step(&job, &cell("missing", 0, false), 600, 600) {
        Some(PrintStep::Abort(PrintError::ImageNotFound(id))) => assert_eq!(id, "missing"),
        other => panic!("unexpected {:?}", other),
    }
    assert_eq!(cache.len(), 1);
}
