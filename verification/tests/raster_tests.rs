use print_catalog::engine::place_in_cell;
use base64::Engine;
use print_catalog::raster::Photo;
use print_catalog::{
    decode_data_uri, draw_outline, prepare_cell_image, resize_for_cell, rgba_to_bgr, PrintError, Raster,
};

fn png_data_uri(width: u32, height: u32, pixel: impl Fn(u32, u32) -> [u8; 4]) -> String {
    let img = image::RgbaImage::from_fn(width, height, |x, y| image::Rgba(pixel(x, y)));
    let mut bytes: Vec<u8> = Vec::new();
    image::DynamicImage::ImageRgba8(img)
        .write_to(&mut std::io::Cursor::new(&mut bytes), image::ImageFormat::Png)
        .unwrap();
    format!("data:image/png;base64,{}", base64::engine::general_purpose::STANDARD.encode(&bytes))
}

fn pixel(img: &Raster, x: u32, y: u32) -> [u8; 4] {
    let b = img.to_bytes();
    let i = (4 * (y * img.width() + x)) as usize;
    [b[i], b[i + 1], b[i + 2], b[i + 3]]
}

fn ppx(img: &Photo, x: u32, y: u32) -> [u8; 4] {
    pixel(&img.to_rgba().unwrap(), x, y)
}

fn white(w: u32, h: u32) -> Raster {
    Raster::from_rgba(w, h, vec![255u8; (4 * w * h) as usize]).unwrap()
}

#[test]
fn from_rgba_checks_length() {
    assert!(Raster::from_rgba(2, 2, vec![0u8; 15]).is_none());
    let r = Raster::from_rgba(2, 2, (0u8..16).collect()).unwrap();
    assert_eq!((r.width(), r.height()), (2, 2));
    assert_eq!(r.to_bytes(), (0u8..16).collect::<Vec<u8>>());
}

#[test]
fn rgba_to_bgr_flips_rows_swaps_channels_and_pads() {
    let img = Raster::from_rgba(2, 2, (1u8..=16).collect()).unwrap();
    let bgr = rgba_to_bgr(&img);
    assert_eq!(bgr, vec![11, 10, 9, 15, 14, 13, 0, 0, 3, 2, 1, 7, 6, 5, 0, 0]);
}

#[test]
fn rgba_to_bgr_row_stride_is_multiple_of_four() {
    let img = Raster::from_rgba(1, 3, vec![10, 20, 30, 40, 50, 60, 70, 80, 90, 100, 110, 120]).unwrap();
    assert_eq!(rgba_to_bgr(&img), vec![110, 100, 90, 0, 70, 60, 50, 0, 30, 20, 10, 0]);
    let wide = Raster::from_rgba(4, 1, vec![7u8; 16]).unwrap();
    assert_eq!(rgba_to_bgr(&wide).len(), 12);
    let empty = Raster::from_rgba(0, 5, vec![]).unwrap();
    assert_eq!(rgba_to_bgr(&empty), Vec::<u8>::new());
}

#[test]
fn draw_outline_blackens_border_only() {
    let mut page = white(5, 4);
    draw_outline(&mut page, 1, 0, 3, 3);
    let black = [0, 0, 0, 255];
    let wh = [255, 255, 255, 255];
    for y in 0..4 {
        for x in 0..5 {
            let on = (1..=3).contains(&x) && (y == 0 || y == 2) || (y <= 2 && (x == 1 || x == 3));
            assert_eq!(pixel(&page, x, y), if on { black } else { wh }, "({}, {})", x, y);
        }
    }
}

#[test]
fn draw_outline_is_clipped_to_page() {
    let mut page = white(5, 4);
    draw_outline(&mut page, 3, 2, 4, 4);
    let black = [0, 0, 0, 255];
    for (x, y) in [(3, 2), (4, 2), (3, 3)] {
        assert_eq!(pixel(&page, x, y), black);
    }
    assert_eq!(pixel(&page, 4, 3), [255, 255, 255, 255]);
    assert_eq!(pixel(&page, 2, 2), [255, 255, 255, 255]);
}

#[test]
fn decode_data_uri_reports_each_failure() {
    assert!(matches!(decode_data_uri("no separator here"), Err(PrintError::InvalidDataUri)));
    assert!(matches!(decode_data_uri("data:image/png;base64,@@@"), Err(PrintError::Base64(_))));
    let not_an_image = format!(
        "data:text/plain;base64,{}",
        base64::engine::general_purpose::STANDARD.encode(b"hello, world")
    );
    assert!(matches!(decode_data_uri(&not_an_image), Err(PrintError::ImageDecode(_))));
}

#[test]
fn decode_data_uri_decodes_png() {
    let uri = png_data_uri(3, 2, |x, y| [x as u8 * 10, y as u8 * 20, 7, 255]);
    let img = decode_data_uri(&uri).unwrap();
    assert_eq!((img.width(), img.height()), (3, 2));
    assert_eq!(ppx(&img, 2, 1), [20, 20, 7, 255]);
}

#[test]
fn prepare_cell_image_turns_clockwise() {
    let uri = png_data_uri(3, 2, |x, y| [x as u8, y as u8, 0, 255]);
    let turned = prepare_cell_image(&uri, 90).unwrap();
    assert_eq!((turned.width(), turned.height()), (2, 3));
    // the bottom-left source pixel (0, 1) lands on the top-left corner
    assert_eq!(ppx(&turned, 0, 0), [0, 1, 0, 255]);
    let half = prepare_cell_image(&uri, 180).unwrap();
    assert_eq!(ppx(&half, 0, 0), [2, 1, 0, 255]);
    let back = prepare_cell_image(&uri, -90).unwrap();
    assert_eq!((back.width(), back.height()), (2, 3));
    assert_eq!(ppx(&back, 0, 0), [2, 0, 0, 255]);
    let none = prepare_cell_image(&uri, 45).unwrap();
    assert_eq!((none.width(), none.height()), (3, 2));
    let full = prepare_cell_image(&uri, 450).unwrap();
    assert_eq!(full.to_rgba().unwrap().to_bytes(), turned.to_rgba().unwrap().to_bytes());
}

#[test]
fn resize_for_cell_contain_pads_with_white() {
    let src = Photo::from_rgba(4, 2, [200u8, 0, 0, 255].repeat(8)).unwrap();
    let cell = resize_for_cell(&src, 20, 20, "contain", "center", 0);
    assert_eq!((cell.width(), cell.height()), (20, 20));
    assert_eq!(pixel(&cell, 10, 2), [255, 255, 255, 255]);
    assert_eq!(pixel(&cell, 10, 17), [255, 255, 255, 255]);
    let p = pixel(&cell, 10, 10);
    assert!(p[0] >= 190 && p[1] <= 10 && p[3] == 255, "{:?}", p);
    let top = resize_for_cell(&src, 20, 20, "contain", "top-left", 0);
    assert!(pixel(&top, 10, 2)[1] <= 10);
    assert_eq!(pixel(&top, 10, 15), [255, 255, 255, 255]);
}

#[test]
fn resize_for_cell_cover_crops_to_cell() {
    // left half red, right half blue: a cover crop aligned left keeps red only
    let src = Photo::from_rgba(
        4,
        2,
        (0..8).flat_map(|i| if i % 4 < 2 { [255u8, 0, 0, 255] } else { [0, 0, 255, 255] }).collect(),
    )
    .unwrap();
    let left = resize_for_cell(&src, 10, 10, "cover", "center-left", 0);
    assert_eq!((left.width(), left.height()), (10, 10));
    assert!(pixel(&left, 1, 5)[0] > 200);
    let right = resize_for_cell(&src, 10, 10, "cover", "center-right", 0);
    assert!(pixel(&right, 8, 5)[2] > 200);
    let turned = resize_for_cell(&src, 10, 10, "cover", "center", 90);
    assert_eq!((turned.width(), turned.height()), (10, 10));
}

#[test]
fn resize_for_cell_empty_photo_gives_white_cell() {
    let empty = Photo::from_rgba(0, 0, vec![]).unwrap();
    let cell = resize_for_cell(&empty, 3, 2, "cover", "center", 0);
    assert_eq!(cell.to_bytes(), vec![255u8; 24]);
}

#[test]
fn resize_for_cell_takes_angles_modulo_360_and_unknown_fits_as_cover() {
    let src = Photo::from_rgba(
        4,
        2,
        (0..8).flat_map(|i| [(i * 30) as u8, 0, 255 - (i * 30) as u8, 255]).collect(),
    )
    .unwrap();
    let a = resize_for_cell(&src, 6, 5, "cover", "top-left", 90);
    let b = resize_for_cell(&src, 6, 5, "cover", "top-left", 450);
    let c = resize_for_cell(&src, 6, 5, "cover", "top-left", -270);
    assert_eq!(a.to_bytes(), b.to_bytes());
    assert_eq!(a.to_bytes(), c.to_bytes());
    let odd = resize_for_cell(&src, 6, 5, "cover", "top-left", 45);
    let none = resize_for_cell(&src, 6, 5, "cover", "top-left", 0);
    assert_eq!(odd.to_bytes(), none.to_bytes());
    let unknown = resize_for_cell(&src, 6, 5, "stretch", "top-left", 90);
    assert_eq!(unknown.to_bytes(), a.to_bytes());
}

#[test]
fn resize_for_cell_scales_deep_colour_photos_in_their_own_colour_type() {
    // a 16-bit photo with fine gradations: scaled at 16 bits, then converted
    let deep = image::ImageBuffer::<image::Rgba<u16>, Vec<u16>>::from_fn(7, 3, |x, y| {
        image::Rgba([x as u16 * 9000 + 77, y as u16 * 20000 + 129, 65535 - x as u16 * 5000, 65535])
    });
    let mut bytes: Vec<u8> = Vec::new();
    image::DynamicImage::ImageRgba16(deep.clone())
        .write_to(&mut std::io::Cursor::new(&mut bytes), image::ImageFormat::Png)
        .unwrap();
    let uri = format!("data:image/png;base64,{}", base64::engine::general_purpose::STANDARD.encode(&bytes));
    let photo = decode_data_uri(&uri).unwrap();
    let cell = resize_for_cell(&photo, 5, 4, "cover", "center", 0);
    let expected = image::imageops::crop_imm(
        &image::DynamicImage::ImageRgba16(deep)
            .resize_exact(9, 4, image::imageops::FilterType::Lanczos3)
            .to_rgba8(),
        2,
        0,
        5,
        4,
    )
    .to_image();
    assert_eq!(cell.to_bytes(), expected.into_raw());
}

#[test]
fn resize_for_cell_contain_leaves_white_beside_the_photo() {
    let black = Photo::from_rgba(2, 1, [0u8, 0, 0, 255].repeat(2)).unwrap();
    let bottom = resize_for_cell(&black, 2, 2, "contain", "bottom-center", 0);
    assert_eq!(pixel(&bottom, 0, 0), [255, 255, 255, 255]);
    assert_eq!(pixel(&bottom, 1, 0), [255, 255, 255, 255]);
    assert_eq!(pixel(&bottom, 0, 1), [0, 0, 0, 255]);
    assert_eq!(pixel(&bottom, 1, 1), [0, 0, 0, 255]);
    // -270 degrees is a quarter turn: the 1 x 2 photo sits at the right
    let right = resize_for_cell(&black, 2, 2, "contain", "center-right", -270);
    assert_eq!(pixel(&right, 1, 0), [0, 0, 0, 255]);
    assert_eq!(pixel(&right, 1, 1), [0, 0, 0, 255]);
    assert_eq!(pixel(&right, 0, 0), [255, 255, 255, 255]);
    assert_eq!(pixel(&right, 0, 1), [255, 255, 255, 255]);
}

#[test]
fn place_in_cell_lays_or_crops_a_scaled_photo() {
    let scaled = Raster::from_rgba(2, 1, vec![10, 20, 30, 255, 40, 50, 60, 255]).unwrap();
    let laid = place_in_cell(&scaled, 3, 2, "contain", "top-right");
    assert_eq!(pixel(&laid, 0, 0), [255, 255, 255, 255]);
    assert_eq!(pixel(&laid, 1, 0), [10, 20, 30, 255]);
    assert_eq!(pixel(&laid, 2, 0), [40, 50, 60, 255]);
    assert_eq!(pixel(&laid, 2, 1), [255, 255, 255, 255]);
    let cropped = place_in_cell(&scaled, 1, 1, "cover", "center-right");
    assert_eq!(cropped.to_bytes(), vec![40, 50, 60, 255]);
}
