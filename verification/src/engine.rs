//! Page composition at full resolution: cell outlines, fitting a photo into
//! its cell, decoding photos from data URIs, and composing the page raster.

use vstd::prelude::*;
use vstd::arithmetic::div_mod::lemma_fundamental_div_mod_converse;
use vstd::utf8::encode_utf8;
use base64::Engine;
use crate::raster::{
    Raster, Photo, PhotoModel, raster_dims, raster_bytes, pixel_offset, with_pixel, decoded_photo,
    filled_bytes, photo_content, rotated_photo, resize_allocatable, raster_wf,
    overlaid, crop_dims, crop_of, cropped_bytes, photo_rgba8, rotated_units,
};
use crate::alignment::{
    AlignFactor, aligned_offset_spec, align_within, engine_alignment, parse_alignment, str_equal,
};
use crate::placement::{contain_size, cover_size, contain_dims, cover_dims};
use crate::arith::{sat_u32, div_round};
use crate::layout::{dots, um_to_px, cell_px_origin, cell_pixel_origin};
use crate::{CellInfo, GridConfig, PrintError, PrintFailure, PrintJob};

verus! {

/// Subpixel `c` of opaque black.
pub open spec fn black_byte(c: int) -> u8 {
    if c == 3 {
        255
    } else {
        0
    }
}

/// Pixel `(px, py)` belongs to the part of the outline of `(x, y, w, h)` drawn
/// after `cols` steps along the top and bottom edges and `rows` steps along the
/// left and right edges. The bottom edge is row `y + h - 1` and the right edge
/// column `x + w - 1`.
pub open spec fn outline_progress(
    px: int,
    py: int,
    x: int,
    y: int,
    w: int,
    h: int,
    cols: int,
    rows: int,
) -> bool {
    ||| (x <= px < x + cols && (py == y || py == y + h - 1))
    ||| (y <= py < y + rows && (px == x || px == x + w - 1))
}

/// Pixel `(px, py)` lies on the one-pixel outline of the rectangle `(x, y, w, h)`.
pub open spec fn on_outline(px: int, py: int, x: int, y: int, w: int, h: int) -> bool {
    outline_progress(px, py, x, y, w, h, w, h)
}

/// `bytes` of a `pw x ph` raster with every pixel on the raster that `sel`
/// selects painted opaque black; every other subpixel is unchanged.
pub open spec fn paint_black(bytes: Seq<u8>, pw: int, ph: int, sel: spec_fn(int, int) -> bool) -> Seq<u8> {
    Seq::new(
        bytes.len(),
        |i: int|
            if 0 <= i < 4 * pw * ph && sel((i / 4) % pw, (i / 4) / pw) {
                black_byte(i % 4)
            } else {
                bytes[i]
            },
    )
}

/// `bytes` of a `pw x ph` raster with the part of the outline of
/// `(x, y, w, h)` that [`outline_progress`] describes painted black.
pub open spec fn paint_progress(
    bytes: Seq<u8>,
    pw: int,
    ph: int,
    x: int,
    y: int,
    w: int,
    h: int,
    cols: int,
    rows: int,
) -> Seq<u8> {
    Seq::new(
        bytes.len(),
        |i: int|
            if 0 <= i < 4 * pw * ph && outline_progress(
                (i / 4) % pw,
                (i / 4) / pw,
                x,
                y,
                w,
                h,
                cols,
                rows,
            ) {
                black_byte(i % 4)
            } else {
                bytes[i]
            },
    )
}

/// `bytes` of a `pw x ph` raster with the outline of `(x, y, w, h)` drawn in
/// black where it lies on the raster; every other subpixel is unchanged.
pub open spec fn outlined_bytes(bytes: Seq<u8>, pw: int, ph: int, x: int, y: int, w: int, h: int) -> Seq<u8> {
    paint_progress(bytes, pw, ph, x, y, w, h, w, h)
}

/// Drawing the outline never leaves `u32`: the arithmetic that the drawing
/// performs for a `pw x ph` raster stays in range.
pub open spec fn outline_fits(pw: int, ph: int, x: int, y: int, w: int, h: int) -> bool {
    &&& w > 0 ==> x + w - 1 <= u32::MAX
    &&& w > 0 && x < pw ==> 1 <= y + h <= u32::MAX
    &&& h > 0 ==> y + h - 1 <= u32::MAX
    &&& h > 0 && y < ph ==> 1 <= x + w <= u32::MAX
}

/// Pixel `(px, py)` of a raster of width `pw` starts at `pixel_offset`, and
/// its subpixels decompose back into the pixel.
proof fn lemma_offset_pixel(pw: int, px: int, py: int, c: int)
    requires
        0 <= px < pw,
        0 <= py,
        0 <= c < 4,
    ensures
        (pixel_offset(pw, px, py) + c) / 4 == py * pw + px,
        (pixel_offset(pw, px, py) + c) % 4 == c,
        ((pixel_offset(pw, px, py) + c) / 4) % pw == px,
        ((pixel_offset(pw, px, py) + c) / 4) / pw == py,
{
    lemma_fundamental_div_mod_converse(pixel_offset(pw, px, py) + c, 4, py * pw + px, c);
    lemma_fundamental_div_mod_converse(py * pw + px, pw, py, px);
}

/// A subpixel index inside a `pw x ph` raster belongs to a pixel on it.
proof fn lemma_index_pixel(i: int, pw: int, ph: int)
    requires
        pw >= 0,
        ph >= 0,
        0 <= i < 4 * pw * ph,
    ensures
        pw > 0,
        0 <= (i / 4) % pw < pw,
        0 <= (i / 4) / pw < ph,
        i == pixel_offset(pw, (i / 4) % pw, (i / 4) / pw) + i % 4,
{
    if pw <= 0 {
        assert(4 * pw * ph <= 0) by (nonlinear_arith)
            requires pw <= 0, pw >= 0, ph >= 0;
    }
    let p = i / 4;
    assert(0 <= p < pw * ph) by (nonlinear_arith)
        requires p == i / 4, 0 <= i < 4 * pw * ph;
    assert(p / pw < ph) by (nonlinear_arith)
        requires 0 <= p < pw * ph, pw > 0;
    assert(p == (p / pw) * pw + p % pw) by (nonlinear_arith)
        requires pw > 0;
    assert(i == 4 * p + i % 4);
    assert(i == pixel_offset(pw, p % pw, p / pw) + i % 4);
}

/// Putting a black pixel at `(px, py)` on a painted raster paints a
/// selection that also holds `(px, py)`.
proof fn lemma_paint_put(
    bytes: Seq<u8>,
    pw: int,
    ph: int,
    sel: spec_fn(int, int) -> bool,
    sel2: spec_fn(int, int) -> bool,
    px: int,
    py: int,
    black: [u8; 4],
)
    requires
        0 <= px < pw,
        0 <= py < ph,
        4 * pw * ph <= bytes.len(),
        forall|a: int, b: int| #[trigger] sel2(a, b) == (sel(a, b) || (a == px && b == py)),
        black@[0] == 0 && black@[1] == 0 && black@[2] == 0 && black@[3] == 255,
    ensures
        with_pixel(paint_black(bytes, pw, ph, sel), pixel_offset(pw, px, py), black)
            == paint_black(bytes, pw, ph, sel2),
{
    let cur = paint_black(bytes, pw, ph, sel);
    let at = pixel_offset(pw, px, py);
    let lhs = with_pixel(cur, at, black);
    let rhs = paint_black(bytes, pw, ph, sel2);
    assert(0 <= at && at + 4 <= 4 * pw * ph) by (nonlinear_arith)
        requires at == 4 * (py * pw + px), 0 <= px < pw, 0 <= py < ph;
    assert forall|i: int| 0 <= i < lhs.len() implies lhs[i] == rhs[i] by {
        if at <= i < at + 4 {
            lemma_offset_pixel(pw, px, py, i - at);
        } else if 0 <= i < 4 * pw * ph {
            lemma_index_pixel(i, pw, ph);
            if (i / 4) % pw == px && (i / 4) / pw == py {
                assert(i == at + i % 4);
            }
        }
    }
    assert(lhs =~= rhs);
}

/// Paintings of selections that agree on the raster are equal.
proof fn lemma_paint_ext(bytes: Seq<u8>, pw: int, ph: int, s1: spec_fn(int, int) -> bool, s2: spec_fn(int, int) -> bool)
    requires
        pw >= 0,
        ph >= 0,
        forall|a: int, b: int| 0 <= a < pw && 0 <= b < ph ==> #[trigger] s1(a, b) == s2(a, b),
    ensures
        paint_black(bytes, pw, ph, s1) == paint_black(bytes, pw, ph, s2),
{
    let l = paint_black(bytes, pw, ph, s1);
    let r = paint_black(bytes, pw, ph, s2);
    assert forall|i: int| 0 <= i < l.len() implies l[i] == r[i] by {
        if 0 <= i < 4 * pw * ph {
            lemma_index_pixel(i, pw, ph);
        }
    }
    assert(l =~= r);
}

/// A painting of a selection that agrees with the outline progress on the
/// raster is the painting of that progress.
proof fn lemma_paint_progress(
    bytes: Seq<u8>,
    pw: int,
    ph: int,
    sel: spec_fn(int, int) -> bool,
    x: int,
    y: int,
    w: int,
    h: int,
    cols: int,
    rows: int,
)
    requires
        pw >= 0,
        ph >= 0,
        forall|a: int, b: int|
            0 <= a < pw && 0 <= b < ph ==> #[trigger] sel(a, b) == outline_progress(a, b, x, y, w, h, cols, rows),
    ensures
        paint_black(bytes, pw, ph, sel) == paint_progress(bytes, pw, ph, x, y, w, h, cols, rows),
{
    let l = paint_black(bytes, pw, ph, sel);
    let r = paint_progress(bytes, pw, ph, x, y, w, h, cols, rows);
    assert forall|i: int| 0 <= i < l.len() implies l[i] == r[i] by {
        if 0 <= i < 4 * pw * ph {
            lemma_index_pixel(i, pw, ph);
        }
    }
    assert(l =~= r);
}

/// An outline of no progress paints nothing.
proof fn lemma_paint_none(bytes: Seq<u8>, pw: int, ph: int, x: int, y: int, w: int, h: int)
    ensures
        paint_progress(bytes, pw, ph, x, y, w, h, 0, 0) == bytes,
{
    assert(paint_progress(bytes, pw, ph, x, y, w, h, 0, 0) =~= bytes);
}

/// Draw a one-pixel black outline around the rectangle `(x, y, w, h)` of
/// the page, clipped to the page; the rest of the page is unchanged.
pub fn draw_outline(page: &mut Raster, x: u32, y: u32, w: u32, h: u32)
    requires
        outline_fits(
            raster_dims(*old(page)).0 as int,
            raster_dims(*old(page)).1 as int,
            x as int,
            y as int,
            w as int,
            h as int,
        ),
    ensures
        raster_dims(*final(page)) == raster_dims(*old(page)),
        raster_bytes(*final(page)) == outlined_bytes(
            raster_bytes(*old(page)),
            raster_dims(*old(page)).0 as int,
            raster_dims(*old(page)).1 as int,
            x as int,
            y as int,
            w as int,
            h as int,
        ),
{
    let black: [u8; 4] = [0, 0, 0, 255];
    assert(black@[0] == 0 && black@[1] == 0 && black@[2] == 0 && black@[3] == 255);
    let page_w = page.width();
    let page_h = page.height();
    let ghost pw = page_w as int;
    let ghost ph = page_h as int;
    let ghost b0 = raster_bytes(*page);
    let ghost dims0 = raster_dims(*page);
    let _ = page.raw_bytes();
    proof {
        lemma_paint_none(b0, pw, ph, x as int, y as int, w as int, h as int);
    }
    let mut dx: u32 = 0;
    while dx < w
        invariant
            raster_dims(*page) == dims0,
            dims0 == (page_w, page_h),
            pw == page_w as int,
            ph == page_h as int,
            4 * pw * ph <= b0.len(),
            dx <= w,
            black@[0] == 0 && black@[1] == 0 && black@[2] == 0 && black@[3] == 255,
            outline_fits(pw, ph, x as int, y as int, w as int, h as int),
            raster_bytes(*page) == paint_progress(b0, pw, ph, x as int, y as int, w as int, h as int, dx as int, 0),
        decreases w - dx,
    {
        let px = x + dx;
        let ghost s0 = |a: int, b: int| outline_progress(a, b, x as int, y as int, w as int, h as int, dx as int, 0);
        let ghost s1 = |a: int, b: int| s0(a, b) || (a == px && b == y);
        let ghost s2 = |a: int, b: int| s1(a, b) || (a == px && b == y + h - 1);
        proof {
            lemma_paint_progress(b0, pw, ph, s0, x as int, y as int, w as int, h as int, dx as int, 0);
        }
        if px < page_w {
            if y < page_h {
                proof {
                    lemma_paint_put(b0, pw, ph, s0, s1, px as int, y as int, black);
                }
                page.put_pixel(px, y, black);
            } else {
                proof {
                    lemma_paint_ext(b0, pw, ph, s0, s1);
                }
            }
            let bottom = y + h - 1;
            if bottom < page_h {
                proof {
                    lemma_paint_put(b0, pw, ph, s1, s2, px as int, bottom as int, black);
                }
                page.put_pixel(px, bottom, black);
            } else {
                proof {
                    lemma_paint_ext(b0, pw, ph, s1, s2);
                }
            }
        } else {
            proof {
                lemma_paint_ext(b0, pw, ph, s0, s2);
            }
        }
        proof {
            lemma_paint_progress(b0, pw, ph, s2, x as int, y as int, w as int, h as int, dx + 1, 0);
        }
        dx = dx + 1;
    }
    let mut dy: u32 = 0;
    while dy < h
        invariant
            raster_dims(*page) == dims0,
            dims0 == (page_w, page_h),
            pw == page_w as int,
            ph == page_h as int,
            4 * pw * ph <= b0.len(),
            dy <= h,
            black@[0] == 0 && black@[1] == 0 && black@[2] == 0 && black@[3] == 255,
            outline_fits(pw, ph, x as int, y as int, w as int, h as int),
            raster_bytes(*page) == paint_progress(b0, pw, ph, x as int, y as int, w as int, h as int, w as int, dy as int),
        decreases h - dy,
    {
        let py = y + dy;
        let ghost s0 = |a: int, b: int| outline_progress(a, b, x as int, y as int, w as int, h as int, w as int, dy as int);
        let ghost s1 = |a: int, b: int| s0(a, b) || (a == x && b == py);
        let ghost s2 = |a: int, b: int| s1(a, b) || (a == x + w - 1 && b == py);
        proof {
            lemma_paint_progress(b0, pw, ph, s0, x as int, y as int, w as int, h as int, w as int, dy as int);
        }
        if py < page_h {
            if x < page_w {
                proof {
                    lemma_paint_put(b0, pw, ph, s0, s1, x as int, py as int, black);
                }
                page.put_pixel(x, py, black);
            } else {
                proof {
                    lemma_paint_ext(b0, pw, ph, s0, s1);
                }
            }
            let right = x + w - 1;
            if right < page_w {
                proof {
                    lemma_paint_put(b0, pw, ph, s1, s2, right as int, py as int, black);
                }
                page.put_pixel(right, py, black);
            } else {
                proof {
                    lemma_paint_ext(b0, pw, ph, s1, s2);
                }
            }
        } else {
            proof {
                lemma_paint_ext(b0, pw, ph, s0, s2);
            }
        }
        proof {
            lemma_paint_progress(b0, pw, ph, s2, x as int, y as int, w as int, h as int, w as int, dy + 1);
        }
        dy = dy + 1;
    }
}

/// The text of the error with which standard base64 (with padding) refuses
/// `input`, or the bytes that it decodes to.
pub uninterp spec fn base64_decoded(input: Seq<u8>) -> Result<Seq<u8>, Seq<char>>;

/// `base64::engine::general_purpose::STANDARD.decode`; on failure the text
/// of the `base64::DecodeError`.
#[verifier::external_body]
fn decode_base64(input: &[u8]) -> (r: Result<Vec<u8>, String>)
    ensures
        match r {
            Ok(v) => base64_decoded(input@) == Ok::<Seq<u8>, Seq<char>>(v@),
            Err(m) => base64_decoded(input@) == Err::<Seq<u8>, Seq<char>>(m@),
        },
{
    match base64::engine::general_purpose::STANDARD.decode(input) {
        Ok(v) => Ok(v),
        Err(e) => Err(format!("{}", e)),
    }
}

/// A raster as a plain value: its size and its subpixels.
pub type RasterModel = ((u32, u32), Seq<u8>);

/// The plain value of a raster.
pub open spec fn model_of(r: Raster) -> RasterModel {
    (raster_dims(r), raster_bytes(r))
}

/// Byte `i` is the first `,` of `bytes`.
pub open spec fn is_first_comma(bytes: Seq<u8>, i: int) -> bool {
    &&& 0 <= i < bytes.len()
    &&& bytes[i] == 44
    &&& forall|j: int| 0 <= j < i ==> bytes[j] != 44
}

/// What follows the first `,` of a data URI (`data:image/png;base64,...`),
/// or `None` where it holds no `,`.
pub open spec fn data_uri_payload(uri: Seq<u8>) -> Option<Seq<u8>> {
    if exists|i: int| is_first_comma(uri, i) {
        let i = choose|i: int| is_first_comma(uri, i);
        Some(uri.subrange(i + 1, uri.len() as int))
    } else {
        None
    }
}

/// The photo that a data URI (as UTF-8 bytes) carries, or why it carries none.
pub open spec fn data_uri_image(uri: Seq<u8>) -> Result<PhotoModel, PrintFailure> {
    match data_uri_payload(uri) {
        None => Err(PrintFailure::InvalidDataUri),
        Some(payload) => match base64_decoded(payload) {
            Err(m) => Err(PrintFailure::Base64(m)),
            Ok(bytes) => match decoded_photo(bytes) {
                Err(m) => Err(PrintFailure::ImageDecode(m)),
                Ok(img) => Ok(img),
            },
        },
    }
}

/// `r` is the outcome that `spec` describes.
pub open spec fn raster_outcome(r: Result<Raster, PrintError>, spec: Result<RasterModel, PrintFailure>) -> bool {
    match r {
        Ok(img) => spec == Ok::<RasterModel, PrintFailure>(model_of(img)),
        Err(e) => spec == Err::<RasterModel, PrintFailure>(e@),
    }
}

/// `r` is the outcome that `spec` describes.
pub open spec fn photo_outcome(r: Result<Photo, PrintError>, spec: Result<PhotoModel, PrintFailure>) -> bool {
    match r {
        Ok(p) => spec == Ok::<PhotoModel, PrintFailure>(photo_content(p)),
        Err(e) => spec == Err::<PhotoModel, PrintFailure>(e@),
    }
}

/// Decode the photo that a data URI carries (the base64 payload after the
/// first `,`), in the colour type it was stored in.
pub fn decode_data_uri(data_uri: &str) -> (r: Result<Photo, PrintError>)
    ensures
        photo_outcome(r, data_uri_image(encode_utf8(data_uri@))),
{
    let bytes = data_uri.as_bytes();
    let ghost ub = encode_utf8(data_uri@);
    assert(bytes@ == ub);
    let n = bytes.len();
    let mut i: usize = 0;
    while i < n
        invariant
            n == bytes@.len(),
            i <= n,
            forall|j: int| 0 <= j < i ==> bytes@[j] != 44,
        ensures
            i <= n,
            forall|j: int| 0 <= j < i ==> bytes@[j] != 44,
            i < n ==> bytes@[i as int] == 44,
        decreases n - i,
    {
        if bytes[i] == 44 {
            break;
        }
        i = i + 1;
    }
    if i == n {
        assert(!exists|k: int| is_first_comma(ub, k)) by {
            assert forall|k: int| !is_first_comma(ub, k) by {
                if is_first_comma(ub, k) {
                    assert(ub[k] != 44);
                }
            }
        }
        return Err(PrintError::InvalidDataUri);
    }
    proof {
        assert(is_first_comma(ub, i as int));
        let k = choose|k: int| is_first_comma(ub, k);
        if k < i {
            assert(ub[k] != 44);
        }
        if k > i {
            assert(ub[i as int] != 44);
        }
        assert(k == i);
    }
    let (_, payload) = bytes.split_at(i + 1);
    assert(payload@ == ub.subrange(i + 1, ub.len() as int));
    let decoded = match decode_base64(payload) {
        Ok(d) => d,
        Err(m) => {
            return Err(PrintError::Base64(m));
        },
    };
    match Photo::decode(decoded.as_slice()) {
        Ok(img) => Ok(img),
        Err(m) => Err(PrintError::ImageDecode(m)),
    }
}

/// Quarter turns clockwise that a rotation in degrees asks for: 90, 180 and
/// 270 (modulo 360) turn the photo, any other angle leaves it as it is.
pub open spec fn quarter_turns(rotation: int) -> int {
    let r = rotation % 360;
    if r == 90 {
        1
    } else if r == 180 {
        2
    } else if r == 270 {
        3
    } else {
        0
    }
}

/// Turn a photo by a rotation in degrees (see [`quarter_turns`]).
pub fn rotate_by(img: &Photo, rotation: i32) -> (r: Photo)
    ensures
        photo_content(r) == rotated_photo(photo_content(*img), quarter_turns(rotation as int)),
        quarter_turns(rotation as int) != 0 ==> photo_rgba8(photo_content(r)) == rotated_units(
            photo_rgba8(photo_content(*img)),
            photo_content(*img).0.0 as int,
            photo_content(*img).0.1 as int,
            quarter_turns(rotation as int),
            4,
        ),
{
    let turn = match rotation.checked_rem_euclid(360) {
        Some(t) => t,
        None => 0,
    };
    if turn == 90 {
        img.rotate90()
    } else if turn == 180 {
        img.rotate180()
    } else if turn == 270 {
        img.rotate270()
    } else {
        img.duplicate()
    }
}

/// Decode a photo from its data URI and turn it by `rotation` degrees.
pub fn prepare_cell_image(image_data: &str, rotation: i32) -> (r: Result<Photo, PrintError>)
    ensures
        photo_outcome(
            r,
            match data_uri_image(encode_utf8(image_data@)) {
                Ok(m) => Ok(rotated_photo(m, quarter_turns(rotation as int))),
                Err(f) => Err(f),
            },
        ),
{
    let img = decode_data_uri(image_data)?;
    Ok(rotate_by(&img, rotation))
}

/// Opaque white.
pub open spec fn white() -> [u8; 4] {
    [255u8, 255u8, 255u8, 255u8]
}

/// Size to which a non-empty `sw x sh` photo is scaled to contain or to
/// cover a `cw x ch` cell.
pub open spec fn fit_size(contain: bool, sw: int, sh: int, cw: int, ch: int) -> (int, int) {
    if contain {
        contain_size(sw, sh, cw, ch)
    } else {
        cover_size(sw, sh, cw, ch)
    }
}

/// Fitting the (turned) photo `m` into a `cw x ch` cell stays within memory:
/// the cell image, and the scaling of a non-empty photo (a covering photo
/// can be much larger than its cell).
pub open spec fn fit_allocatable(contain: bool, m: PhotoModel, cw: int, ch: int) -> bool {
    let (sw, sh) = m.0;
    &&& 4 * cw * ch <= isize::MAX
    &&& (sw > 0 && sh > 0) ==> resize_allocatable(
        m,
        fit_size(contain, sw as int, sh as int, cw, ch).0,
        fit_size(contain, sw as int, sh as int, cw, ch).1,
    )
}

/// The pixels of a white `cw x ch` cell with the scaled photo `s` laid over
/// it at `(ox, oy)`: white outside the photo, the photo's own pixel where
/// that pixel is opaque, and the blend of the two (see [`overlaid`]) elsewhere.
pub open spec fn contained_cell(s: RasterModel, cw: int, ch: int, ox: int, oy: int) -> Seq<u8> {
    let (nw, nh) = s.0;
    Seq::new(
        (4 * cw * ch) as nat,
        |i: int|
            {
                let px = (i / 4) % cw;
                let py = (i / 4) / cw;
                let c = i % 4;
                if !(ox <= px < ox + nw && oy <= py < oy + nh) {
                    white()@[c]
                } else if s.1[pixel_offset(nw as int, px - ox, py - oy) + 3] == 255 {
                    s.1[pixel_offset(nw as int, px - ox, py - oy) + c]
                } else {
                    overlaid(
                        filled_bytes(cw, ch, white()),
                        cw as u32,
                        ch as u32,
                        s.1,
                        nw,
                        nh,
                        ox as i64,
                        oy as i64,
                    )[i]
                }
            },
    )
}

/// The `cw x ch` image of a cell holding the scaled photo `s` (RGBA), aligned
/// by `(ax, ay)`: a contained photo is laid over a white cell, a covering one
/// is cropped to the cell.
pub open spec fn placed_cell(
    s: RasterModel,
    cw: u32,
    ch: u32,
    contain: bool,
    ax: AlignFactor,
    ay: AlignFactor,
) -> RasterModel {
    let (nw, nh) = s.0;
    if contain {
        let ox = aligned_offset_spec(cw - nw, ax);
        let oy = aligned_offset_spec(ch - nh, ay);
        ((cw, ch), contained_cell(s, cw as int, ch as int, ox, oy))
    } else {
        let cx = aligned_offset_spec(nw - cw, ax);
        let cy = aligned_offset_spec(nh - ch, ay);
        (crop_dims((nw, nh), cx as u32, cy as u32, cw, ch), crop_of(s.1, (nw, nh), cx as u32, cy as u32, cw, ch))
    }
}

/// `s` is an RGBA raster of `nw x nh` pixels.
pub open spec fn scaled_raster(s: RasterModel, nw: int, nh: int) -> bool {
    s.0.0 == nw && s.0.1 == nh && s.1.len() == 4 * nw * nh
}

/// `out` is a cell image that fitting the photo `m` into a `cw x ch` cell can
/// give, for the cell's fit (`"contain"`, anything else covering), named
/// alignment and rotation in degrees: the photo is turned, scaled to
/// [`fit_size`] (the scaled pixels are whatever the resampling gives),
/// converted to RGBA and placed (see [`placed_cell`]); scaling a photo to its
/// own size keeps its pixels. An empty photo gives a white cell.
pub open spec fn fitted_outcome(
    m: PhotoModel,
    cw: u32,
    ch: u32,
    fit: Seq<char>,
    alignment: Seq<char>,
    rotation: int,
    out: RasterModel,
) -> bool {
    let turned = rotated_photo(m, quarter_turns(rotation));
    let (sw, sh) = turned.0;
    let contain = fit == "contain"@;
    if sw == 0 || sh == 0 {
        out == ((cw, ch), filled_bytes(cw as int, ch as int, white()))
    } else {
        let (nw, nh) = fit_size(contain, sw as int, sh as int, cw as int, ch as int);
        exists|s: RasterModel|
            #[trigger] scaled_raster(s, nw, nh) && ((nw == sw && nh == sh && turned.3.len() == turned.2 * sw * sh)
                ==> s.1 == photo_rgba8(turned)) && out == placed_cell(
                s,
                cw,
                ch,
                contain,
                engine_alignment(alignment).0,
                engine_alignment(alignment).1,
            )
    }
}

/// Pixel `(px, py)` of a cell lies outside the place where a photo of
/// `sw x sh` pixels, contained in the `cw x ch` cell and aligned by
/// `(ax, ay)`, is drawn.
pub open spec fn outside_contained_photo(
    sw: int,
    sh: int,
    cw: u32,
    ch: u32,
    ax: AlignFactor,
    ay: AlignFactor,
    px: int,
    py: int,
) -> bool {
    let (nw, nh) = contain_size(sw, sh, cw as int, ch as int);
    let ox = aligned_offset_spec(cw - nw, ax);
    let oy = aligned_offset_spec(ch - nh, ay);
    !(ox <= px < ox + nw && oy <= py < oy + nh)
}

/// Subpixel `(px, py, c)` of a contained cell is white outside the photo and
/// the photo's own where the photo's pixel is opaque.
proof fn lemma_contained_pixel(s: RasterModel, cw: int, ch: int, ox: int, oy: int, px: int, py: int, c: int)
    requires
        0 <= px < cw,
        0 <= py < ch,
        0 <= c < 4,
    ensures
        !(ox <= px < ox + s.0.0 && oy <= py < oy + s.0.1) ==> contained_cell(s, cw, ch, ox, oy)[pixel_offset(
            cw,
            px,
            py,
        ) + c] == white()@[c],
        (ox <= px < ox + s.0.0 && oy <= py < oy + s.0.1 && s.1[pixel_offset(s.0.0 as int, px - ox, py - oy) + 3]
            == 255) ==> contained_cell(s, cw, ch, ox, oy)[pixel_offset(cw, px, py) + c] == s.1[pixel_offset(
            s.0.0 as int,
            px - ox,
            py - oy,
        ) + c],
{
    lemma_offset_pixel(cw, px, py, c);
    assert(0 <= 4 * (py * cw + px) + c < 4 * cw * ch) by (nonlinear_arith)
        requires 0 <= px < cw, 0 <= py < ch, 0 <= c < 4;
}

/// Covering a cell of a photo's own size keeps the photo's size.
proof fn lemma_cover_size_same(w: int, h: int)
    requires
        0 < w <= u32::MAX,
        0 < h <= u32::MAX,
    ensures
        cover_size(w, h, w, h) == (w, h),
{
    assert((2 * (h * w) + w) / (2 * w) == h) by (nonlinear_arith)
        requires w > 0, h > 0;
    assert(w * h == h * w) by (nonlinear_arith);
    assert(h * w >= 0) by (nonlinear_arith)
        requires w > 0, h > 0;
    assert(div_round(h * w, w) == h);
}

/// A turned photo's samples are exactly as long as its pixels need.
proof fn lemma_turned_exact(m: PhotoModel, q: int)
    requires
        q == 1 || q == 2 || q == 3,
    ensures
        rotated_photo(m, q).3.len() == rotated_photo(m, q).2 * rotated_photo(m, q).0.0 * rotated_photo(m, q).0.1,
{
    let (w, h) = m.0;
    assert(m.2 * w * h == m.2 * h * w) by (nonlinear_arith);
    assert(m.2 * w * h >= 0) by (nonlinear_arith);
}

/// Cropping a raster to its own size from its corner keeps every subpixel.
proof fn lemma_crop_whole(src: Seq<u8>, w: int, h: int)
    requires
        w > 0,
        h >= 0,
        src.len() == 4 * w * h,
    ensures
        cropped_bytes(src, w, 0, 0, w, h) == src,
{
    assert forall|i: int| 0 <= i < 4 * w * h implies cropped_bytes(src, w, 0, 0, w, h)[i] == src[i] by {
        lemma_index_pixel(i, w, h);
    }
    assert(cropped_bytes(src, w, 0, 0, w, h) =~= src);
}

/// Lay a scaled photo (RGBA) into a `cell_w x cell_h` cell: for `"contain"`
/// over a white cell at the offset its alignment gives, otherwise by cropping
/// the part of the cell's size that its alignment picks (see
/// [`placed_cell`]). A contained photo leaves the rest of the cell white and
/// shows its opaque pixels as they are.
pub fn place_in_cell(scaled: &Raster, cell_w: u32, cell_h: u32, object_fit: &str, alignment: &str) -> (r: Raster)
    requires
        raster_wf(*scaled),
        4 * cell_w * cell_h <= isize::MAX,
        object_fit@ == "contain"@ ==> raster_dims(*scaled).0 <= cell_w && raster_dims(*scaled).1 <= cell_h,
        object_fit@ != "contain"@ ==> raster_dims(*scaled).0 >= cell_w && raster_dims(*scaled).1 >= cell_h,
    ensures
        model_of(r) == placed_cell(
            model_of(*scaled),
            cell_w,
            cell_h,
            object_fit@ == "contain"@,
            engine_alignment(alignment@).0,
            engine_alignment(alignment@).1,
        ),
        raster_dims(r) == (cell_w, cell_h),
{
    let (align_x, align_y) = parse_alignment(alignment);
    let new_w = scaled.width();
    let new_h = scaled.height();
    if str_equal(object_fit, "contain") {
        let white_px: [u8; 4] = [255, 255, 255, 255];
        assert(white_px == white());
        let mut canvas = Raster::filled(cell_w, cell_h, white_px);
        let offset_x = align_within(cell_w - new_w, align_x);
        let offset_y = align_within(cell_h - new_h, align_y);
        let ghost blank = raster_bytes(canvas);
        canvas.overlay(scaled, offset_x as i64, offset_y as i64);
        proof {
            let cw = cell_w as int;
            let ch = cell_h as int;
            let target = contained_cell(model_of(*scaled), cw, ch, offset_x as int, offset_y as int);
            assert(blank == filled_bytes(cw, ch, white()));
            assert forall|i: int| 0 <= i < 4 * cw * ch implies raster_bytes(canvas)[i] == target[i] by {
                lemma_index_pixel(i, cw, ch);
                let px = (i / 4) % cw;
                let py = (i / 4) / cw;
                let c = i % 4;
                lemma_filled_pixel(cw, ch, white_px, px, py, c);
                lemma_contained_pixel(model_of(*scaled), cw, ch, offset_x as int, offset_y as int, px, py, c);
                assert(raster_bytes(canvas)[pixel_offset(cw, px, py) + c] == raster_bytes(canvas)[i]);
            }
            assert(raster_bytes(canvas).len() == 4 * cw * ch);
            assert(raster_bytes(canvas) =~= target);
        }
        canvas
    } else {
        let crop_x = align_within(new_w - cell_w, align_x);
        let crop_y = align_within(new_h - cell_h, align_y);
        scaled.cropped(crop_x, crop_y, cell_w, cell_h)
    }
}

/// Fit a photo into a `cell_w x cell_h` cell: turn it by `rotation` degrees,
/// scale it in its own colour type to contain (`object_fit == "contain"`) or
/// else to cover the cell, convert it to RGBA and place it by the named
/// alignment (see [`fitted_outcome`], [`place_in_cell`]). The result is
/// exactly cell-sized; a contained photo leaves the rest of the cell white.
pub fn resize_for_cell(
    img: &Photo,
    cell_w: u32,
    cell_h: u32,
    object_fit: &str,
    alignment: &str,
    rotation: i32,
) -> (r: Raster)
    requires
        fit_allocatable(
            object_fit@ == "contain"@,
            rotated_photo(photo_content(*img), quarter_turns(rotation as int)),
            cell_w as int,
            cell_h as int,
        ),
    ensures
        fitted_outcome(photo_content(*img), cell_w, cell_h, object_fit@, alignment@, rotation as int, model_of(r)),
        raster_dims(r) == (cell_w, cell_h),
        object_fit@ == "contain"@ ==> forall|px: int, py: int, c: int|
            0 <= px < cell_w && 0 <= py < cell_h && 0 <= c < 4 && outside_contained_photo(
                rotated_photo(photo_content(*img), quarter_turns(rotation as int)).0.0 as int,
                rotated_photo(photo_content(*img), quarter_turns(rotation as int)).0.1 as int,
                cell_w,
                cell_h,
                engine_alignment(alignment@).0,
                engine_alignment(alignment@).1,
                px,
                py,
            ) ==> #[trigger] raster_bytes(r)[pixel_offset(cell_w as int, px, py) + c] == white()@[c],
        ({
            let turned = rotated_photo(photo_content(*img), quarter_turns(rotation as int));
            object_fit@ != "contain"@ && turned.0 == (cell_w, cell_h) && cell_w > 0 && cell_h > 0
                && turned.3.len() == turned.2 * cell_w * cell_h ==> raster_bytes(r) == photo_rgba8(turned)
        }),
        ({
            let m = photo_content(*img);
            let turned = rotated_photo(m, quarter_turns(rotation as int));
            object_fit@ != "contain"@ && turned.0 == (cell_w, cell_h) && cell_w > 0 && cell_h > 0
                && quarter_turns(rotation as int) != 0 ==> raster_bytes(r) == rotated_units(
                photo_rgba8(m),
                m.0.0 as int,
                m.0.1 as int,
                quarter_turns(rotation as int),
                4,
            )
        }),
{
    let rotated = rotate_by(img, rotation);
    let src_w = rotated.width();
    let src_h = rotated.height();
    let white_px: [u8; 4] = [255, 255, 255, 255];
    assert(white_px == white());
    if src_w == 0 || src_h == 0 {
        let blank = Raster::filled(cell_w, cell_h, white_px);
        assert forall|px: int, py: int, c: int| 0 <= px < cell_w && 0 <= py < cell_h && 0 <= c < 4 implies
            #[trigger] raster_bytes(blank)[pixel_offset(cell_w as int, px, py) + c] == white()@[c] by {
            lemma_filled_pixel(cell_w as int, cell_h as int, white_px, px, py, c);
        }
        return blank;
    }
    let contain = str_equal(object_fit, "contain");
    let (new_w, new_h) = if contain {
        contain_dims(src_w, src_h, cell_w, cell_h)
    } else {
        cover_dims(src_w, src_h, cell_w, cell_h)
    };
    let resized = rotated.resized(new_w, new_h);
    let scaled = resized.to_raster();
    let _ = scaled.raw_bytes();
    let ghost turned = photo_content(rotated);
    proof {
        if new_w == src_w && new_h == src_h && turned.3.len() == turned.2 * src_w * src_h {
            assert(turned.3.subrange(0, turned.2 * src_w * src_h) =~= turned.3);
            assert(photo_content(resized) == turned);
        }
        if quarter_turns(rotation as int) != 0 {
            let m = photo_content(*img);
            lemma_turned_exact(m, quarter_turns(rotation as int));
        }
        if !contain && src_w == cell_w && src_h == cell_h {
            lemma_cover_size_same(src_w as int, src_h as int);
        }
    }
    assert(scaled_raster(model_of(scaled), new_w as int, new_h as int));
    let r = place_in_cell(&scaled, cell_w, cell_h, object_fit, alignment);
    proof {
        if !contain && src_w == cell_w && src_h == cell_h {
            let (ax, ay) = engine_alignment(alignment@);
            assert(aligned_offset_spec(0, ax) == 0 && aligned_offset_spec(0, ay) == 0) by (nonlinear_arith)
                requires 0 <= ax.halves() <= 2, 0 <= ay.halves() <= 2;
            lemma_crop_whole(raster_bytes(scaled), cell_w as int, cell_h as int);
        }
        if contain {
            let (ax, ay) = engine_alignment(alignment@);
            let ox = aligned_offset_spec(cell_w - new_w, ax);
            let oy = aligned_offset_spec(cell_h - new_h, ay);
            assert forall|px: int, py: int, c: int|
                0 <= px < cell_w && 0 <= py < cell_h && 0 <= c < 4 && outside_contained_photo(
                    src_w as int,
                    src_h as int,
                    cell_w,
                    cell_h,
                    ax,
                    ay,
                    px,
                    py,
                ) implies #[trigger] raster_bytes(r)[pixel_offset(cell_w as int, px, py) + c] == white()@[c] by {
                lemma_contained_pixel(model_of(scaled), cell_w as int, cell_h as int, ox, oy, px, py, c);
            }
        }
    }
    r
}

/// Largest page side, in pixels, that a page raster may have.
pub const MAX_PAGE_PIXELS: u32 = 20000;

/// Page size in pixels at the grid's resolution.
pub open spec fn page_px(grid: GridConfig) -> (u32, u32) {
    (sat_u32(dots(grid.page_width as int, grid.dpi as int)), sat_u32(dots(grid.page_height as int, grid.dpi as int)))
}

/// Cell size in pixels at the grid's resolution.
pub open spec fn cell_px(grid: GridConfig) -> (u32, u32) {
    (sat_u32(dots(grid.cell_width as int, grid.dpi as int)), sat_u32(dots(grid.cell_height as int, grid.dpi as int)))
}

/// `images[i]` is the first pair whose id is `id`.
pub open spec fn is_first_match(images: Seq<(String, String)>, id: Seq<char>, i: int) -> bool {
    &&& 0 <= i < images.len()
    &&& images[i].0@ == id
    &&& forall|j: int| 0 <= j < i ==> images[j].0@ != id
}

/// The data URI of the photo `id`: that of the first pair with that id.
pub open spec fn image_lookup(images: Seq<(String, String)>, id: Seq<char>) -> Option<Seq<char>> {
    if exists|i: int| is_first_match(images, id, i) {
        Some(images[choose|i: int| is_first_match(images, id, i)].1@)
    } else {
        None
    }
}

/// Find the data URI of the photo `id` (see [`image_lookup`]).
pub fn find_image<'a>(images: &'a Vec<(String, String)>, id: &String) -> (r: Option<&'a String>)
    ensures
        match r {
            Some(uri) => image_lookup(images@, id@) == Some(uri@),
            None => image_lookup(images@, id@) is None,
        },
{
    let n = images.len();
    let mut i: usize = 0;
    while i < n
        invariant
            n == images@.len(),
            i <= n,
            forall|j: int| 0 <= j < i ==> images@[j].0@ != id@,
        decreases n - i,
    {
        if images[i].0 == *id {
            proof {
                assert(is_first_match(images@, id@, i as int));
                let k = choose|k: int| is_first_match(images@, id@, k);
                if k < i {
                    assert(images@[k].0@ != id@);
                }
                if k > i {
                    assert(images@[i as int].0@ != id@);
                }
            }
            return Some(&images[i].1);
        }
        i = i + 1;
    }
    assert forall|k: int| !is_first_match(images@, id@, k) by {
        if is_first_match(images@, id@, k) {
            assert(images@[k].0@ != id@);
        }
    }
    None
}

/// The page before any cell: white, or too large.
pub open spec fn compose_start(grid: GridConfig) -> Result<RasterModel, PrintFailure> {
    let (pw, ph) = page_px(grid);
    if pw > 20000 || ph > 20000 {
        Err(PrintFailure::PageTooLarge { width: pw, height: ph })
    } else {
        Ok(((pw, ph), filled_bytes(pw as int, ph as int, white())))
    }
}

/// The photo of `cell`, decoded, where the job holds it and it decodes.
pub open spec fn cell_photo(job: PrintJob, cell: CellInfo) -> Option<PhotoModel> {
    match image_lookup(job.images@, cell.image_id@) {
        None => None,
        Some(uri) => match data_uri_image(encode_utf8(uri)) {
            Err(_) => None,
            Ok(src) => Some(src),
        },
    }
}

/// The size reported when fitting a `sw x sh` photo into a `cw x ch` cell
/// would not fit in memory: the scaled size, or the cell's for an empty photo.
pub open spec fn failing_size(contain: bool, sw: int, sh: int, cw: int, ch: int) -> (int, int) {
    if sw > 0 && sh > 0 {
        fit_size(contain, sw, sh, cw, ch)
    } else {
        (cw, ch)
    }
}

/// Why `cell` cannot be placed, if it cannot: its photo is missing or does
/// not decode, or fitting the turned photo into the cell would not fit in
/// memory.
pub open spec fn cell_failure(job: PrintJob, cell: CellInfo) -> Option<PrintFailure> {
    let (cw, ch) = cell_px(job.grid);
    match image_lookup(job.images@, cell.image_id@) {
        None => Some(PrintFailure::ImageNotFound(cell.image_id@)),
        Some(uri) => match data_uri_image(encode_utf8(uri)) {
            Err(f) => Some(f),
            Ok(src) => {
                let turned = rotated_photo(src, quarter_turns(cell.rotation as int));
                let contain = cell.object_fit@ == "contain"@;
                if fit_allocatable(contain, turned, cw as int, ch as int) {
                    None
                } else {
                    let (nw, nh) = failing_size(contain, turned.0.0 as int, turned.0.1 as int, cw as int, ch as int);
                    Some(PrintFailure::ScaledImageTooLarge { width: nw as u32, height: nh as u32 })
                }
            },
        },
    }
}

/// The page after laying the cell image `cimg` of `cell` onto `page` at the
/// cell's position, and outlining the cell if it asks for it.
pub open spec fn place_cell(grid: GridConfig, cell: CellInfo, page: RasterModel, cimg: RasterModel) -> RasterModel {
    let (cw, ch) = cell_px(grid);
    let (x, y) = cell_px_origin(grid, cell);
    let (pw, ph) = page.0;
    let over = overlaid(page.1, pw, ph, cimg.1, cimg.0.0, cimg.0.1, x as i64, y as i64);
    let out = if cell.outline {
        outlined_bytes(over, pw as int, ph as int, x as int, y as int, cw as int, ch as int)
    } else {
        over
    };
    (page.0, out)
}

/// The page after the first `k` cells of the job, cell `i` placed with the
/// cell image `cimgs[i]`, or the first failure.
pub open spec fn compose_prefix(job: PrintJob, cimgs: Seq<RasterModel>, k: int) -> Result<RasterModel, PrintFailure>
    decreases k,
{
    if k <= 0 {
        compose_start(job.grid)
    } else {
        match compose_prefix(job, cimgs, k - 1) {
            Err(f) => Err(f),
            Ok(page) => match cell_failure(job, job.cells@[k - 1]) {
                Some(f) => Err(f),
                None => Ok(place_cell(job.grid, job.cells@[k - 1], page, cimgs[k - 1])),
            },
        }
    }
}

/// Only the first `k` cell images count for the first `k` cells.
proof fn lemma_prefix_agree(job: PrintJob, a: Seq<RasterModel>, b: Seq<RasterModel>, k: int)
    requires
        forall|j: int| 0 <= j < k ==> a[j] == b[j],
    ensures
        compose_prefix(job, a, k) == compose_prefix(job, b, k),
    decreases k,
{
    if k > 0 {
        lemma_prefix_agree(job, a, b, k - 1);
    }
}

/// Once composing fails, it keeps failing the same way.
proof fn lemma_prefix_failure_sticks(job: PrintJob, cimgs: Seq<RasterModel>, k: int, m: int)
    requires
        0 <= k <= m,
        compose_prefix(job, cimgs, k) is Err,
    ensures
        compose_prefix(job, cimgs, m) == compose_prefix(job, cimgs, k),
    decreases m - k,
{
    if m > k {
        lemma_prefix_failure_sticks(job, cimgs, k, m - 1);
    }
}

/// What composing the whole job gives with the cell images `cimgs`.
pub open spec fn compose_spec(job: PrintJob, cimgs: Seq<RasterModel>) -> Result<RasterModel, PrintFailure> {
    compose_prefix(job, cimgs, job.cells@.len() as int)
}

/// Composing reaches cell `i`: the page size is within bounds and no earlier
/// cell fails.
pub open spec fn reaches(job: PrintJob, i: int) -> bool {
    &&& page_px(job.grid).0 <= 20000
    &&& page_px(job.grid).1 <= 20000
    &&& forall|j: int| 0 <= j < i ==> cell_failure(job, #[trigger] job.cells@[j]) is None
}

/// `cimgs` holds, for every cell that composing reaches and places, a cell
/// image that fitting the cell's photo can give.
pub open spec fn cell_images_fit(job: PrintJob, cimgs: Seq<RasterModel>) -> bool {
    let (cw, ch) = cell_px(job.grid);
    &&& cimgs.len() == job.cells@.len()
    &&& forall|i: int|
        0 <= i < job.cells@.len() && reaches(job, i) && cell_failure(job, job.cells@[i]) is None
            ==> fitted_outcome(
            cell_photo(job, job.cells@[i])->Some_0,
            cw,
            ch,
            job.cells@[i].object_fit@,
            job.cells@[i].alignment@,
            job.cells@[i].rotation as int,
            #[trigger] cimgs[i],
        )
}

/// Composing stays within the machine: for every cell that composing reaches
/// and places with an outline, the outline's arithmetic stays inside `u32`.
pub open spec fn compose_in_range(job: PrintJob) -> bool {
    let (pw, ph) = page_px(job.grid);
    let (cw, ch) = cell_px(job.grid);
    forall|i: int|
        0 <= i < job.cells@.len() && reaches(job, i) && cell_failure(job, #[trigger] job.cells@[i]) is None
            && job.cells@[i].outline ==> outline_fits(
            pw as int,
            ph as int,
            cell_px_origin(job.grid, job.cells@[i]).0 as int,
            cell_px_origin(job.grid, job.cells@[i]).1 as int,
            cw as int,
            ch as int,
        )
}

/// Pixel `(px, py)` of the page lies in the rectangle of `cell`: its
/// cell-sized square at the cell's position.
pub open spec fn covered_by_cell(grid: GridConfig, cell: CellInfo, px: int, py: int) -> bool {
    let (x, y) = cell_px_origin(grid, cell);
    let (cw, ch) = cell_px(grid);
    x <= px < x + cw && y <= py < y + ch
}

/// No cell among the first `k` of the job covers pixel `(px, py)`.
pub open spec fn uncovered(job: PrintJob, k: int, px: int, py: int) -> bool {
    forall|i: int| 0 <= i < k ==> !covered_by_cell(job.grid, #[trigger] job.cells@[i], px, py)
}

/// Among the first `k` cells, cell `i` is the last whose rectangle covers
/// pixel `(px, py)`.
pub open spec fn last_cover(job: PrintJob, i: int, k: int, px: int, py: int) -> bool {
    &&& covered_by_cell(job.grid, job.cells@[i], px, py)
    &&& forall|j: int| i < j < k ==> !covered_by_cell(job.grid, #[trigger] job.cells@[j], px, py)
}

/// Page pixel `(px, py)` lies on the outline of cell `i`, the last of the
/// first `k` cells to cover it, which asks for an outline.
pub open spec fn on_cell_border(job: PrintJob, i: int, k: int, px: int, py: int) -> bool {
    let cell = job.cells@[i];
    let (x, y) = cell_px_origin(job.grid, cell);
    let (cw, ch) = cell_px(job.grid);
    &&& last_cover(job, i, k, px, py)
    &&& cell.outline
    &&& on_outline(px, py, x as int, y as int, cw as int, ch as int)
}

/// Page pixel `(px, py)` shows cell `i`'s image once the first `k` cells are
/// placed with the images `cimgs`: cell `i` is the last of them to cover it,
/// it is not on cell `i`'s outline (where the cell has one), and the image's
/// pixel there is opaque.
pub open spec fn shows_cell_pixel(job: PrintJob, cimgs: Seq<RasterModel>, i: int, k: int, px: int, py: int) -> bool {
    let cell = job.cells@[i];
    let (x, y) = cell_px_origin(job.grid, cell);
    let (cw, ch) = cell_px(job.grid);
    &&& last_cover(job, i, k, px, py)
    &&& !(cell.outline && on_outline(px, py, x as int, y as int, cw as int, ch as int))
    &&& cimgs[i].1[pixel_offset(cw as int, px - x, py - y) + 3] == 255
}

/// What the page `m` shows after the first `k` cells, placed with the images
/// `cimgs`: where cells are not empty, a pixel that no cell covers is white;
/// a pixel on the outline of the last cell to cover it is black; a pixel
/// showing a cell's opaque image pixel is that pixel.
pub open spec fn page_shows_cells(job: PrintJob, cimgs: Seq<RasterModel>, k: int, m: RasterModel) -> bool {
    let (pw, ph) = m.0;
    let (cw, ch) = cell_px(job.grid);
    &&& cw > 0 && ch > 0 ==> forall|px: int, py: int, c: int|
        0 <= px < pw && 0 <= py < ph && 0 <= c < 4 && uncovered(job, k, px, py) ==> #[trigger] m.1[pixel_offset(
            pw as int,
            px,
            py,
        ) + c] == white()@[c]
    &&& forall|i: int, px: int, py: int, c: int|
        0 <= i < k && 0 <= px < pw && 0 <= py < ph && 0 <= c < 4 && #[trigger] on_cell_border(job, i, k, px, py)
            ==> #[trigger] m.1[pixel_offset(pw as int, px, py) + c] == black_byte(c)
    &&& forall|i: int, px: int, py: int, c: int|
        0 <= i < k && 0 <= px < pw && 0 <= py < ph && 0 <= c < 4 && #[trigger] shows_cell_pixel(
            job,
            cimgs,
            i,
            k,
            px,
            py,
        ) ==> #[trigger] m.1[pixel_offset(pw as int, px, py) + c] == cimgs[i].1[pixel_offset(
            cw as int,
            px - cell_px_origin(job.grid, job.cells@[i]).0,
            py - cell_px_origin(job.grid, job.cells@[i]).1,
        ) + c]
}

/// `r` is what composing `job` can give: for some cell images that fitting
/// the cells' photos can give, the outcome of [`compose_spec`], and a page
/// that shows its cells as [`page_shows_cells`] says.
pub open spec fn composed(job: PrintJob, r: Result<Raster, PrintError>) -> bool {
    exists|cimgs: Seq<RasterModel>|
        #[trigger] cell_images_fit(job, cimgs) && raster_outcome(r, compose_spec(job, cimgs)) && (r matches Ok(
            page,
        ) ==> page_shows_cells(job, cimgs, job.cells@.len() as int, model_of(page)))
}

/// Whether fitting the turned photo `m` (of `sw x sh` pixels taking
/// `pixel_bytes` bytes each) into a `cw x ch` cell stays within memory (see
/// [`fit_allocatable`]), and the size reported where it does not.
fn check_fit(
    contain: bool,
    m: Ghost<PhotoModel>,
    sw: u32,
    sh: u32,
    pixel_bytes: u8,
    cw: u32,
    ch: u32,
) -> (r: (bool, u32, u32))
    requires
        m@.0 == (sw, sh),
        m@.2 == pixel_bytes,
    ensures
        r.0 == fit_allocatable(contain, m@, cw as int, ch as int),
        (r.1 as int, r.2 as int) == failing_size(contain, sw as int, sh as int, cw as int, ch as int),
{
    proof {
        assert(0 <= (cw as int) * (ch as int) <= 0xffff_fffe_0000_0001) by (nonlinear_arith)
            requires cw <= 0xffff_ffff, ch <= 0xffff_ffff;
        assert(4 * (cw as int) * (ch as int) == 4 * ((cw as int) * (ch as int))) by (nonlinear_arith);
    }
    let max: u128 = isize::MAX as u128;
    let cell_ok = 4 * ((cw as u128) * (ch as u128)) <= max;
    if sw == 0 || sh == 0 {
        return (cell_ok, cw, ch);
    }
    let (nw, nh) = if contain {
        contain_dims(sw, sh, cw, ch)
    } else {
        cover_dims(sw, sh, cw, ch)
    };
    proof {
        assert(0 <= (nw as int) * (nh as int) <= 0xffff_fffe_0000_0001) by (nonlinear_arith)
            requires nw <= 0xffff_ffff, nh <= 0xffff_ffff;
        assert(0 <= (sw as int) * (nh as int) <= 0xffff_fffe_0000_0001) by (nonlinear_arith)
            requires sw <= 0xffff_ffff, nh <= 0xffff_ffff;
        assert((pixel_bytes as int) * (nw as int) * (nh as int) == (pixel_bytes as int) * ((nw as int) * (nh as int))) by (nonlinear_arith);
        assert(4 * (nw as int) * (nh as int) == 4 * ((nw as int) * (nh as int))) by (nonlinear_arith);
        assert(16 * (sw as int) * (nh as int) == 16 * ((sw as int) * (nh as int))) by (nonlinear_arith);
        assert(0 <= (pixel_bytes as int) * ((nw as int) * (nh as int)) <= 255 * 0xffff_fffe_0000_0001) by (nonlinear_arith)
            requires pixel_bytes <= 255, 0 <= (nw as int) * (nh as int) <= 0xffff_fffe_0000_0001;
    }
    let area: u128 = (nw as u128) * (nh as u128);
    let strip: u128 = (sw as u128) * (nh as u128);
    let fits = cell_ok && (pixel_bytes as u128) * area <= max && 4 * area <= max && ((nw == sw && nh == sh)
        || 16 * strip <= max);
    (fits, nw, nh)
}

/// Whether fitting `img`, turned by `rotation` degrees, into a
/// `cell_w x cell_h` cell stays within memory: the condition that
/// [`resize_for_cell`] asks for.
pub fn fits_in_memory(img: &Photo, cell_w: u32, cell_h: u32, object_fit: &str, rotation: i32) -> (r: bool)
    ensures
        r == fit_allocatable(
            object_fit@ == "contain"@,
            rotated_photo(photo_content(*img), quarter_turns(rotation as int)),
            cell_w as int,
            cell_h as int,
        ),
{
    let turned = rotate_dims(img, rotation);
    let (ok, _, _) = check_fit(
        str_equal(object_fit, "contain"),
        Ghost(rotated_photo(photo_content(*img), quarter_turns(rotation as int))),
        turned.0,
        turned.1,
        img.pixel_bytes(),
        cell_w,
        cell_h,
    );
    ok
}

/// Size of `img` turned by `rotation` degrees.
fn rotate_dims(img: &Photo, rotation: i32) -> (r: (u32, u32))
    ensures
        r == rotated_photo(photo_content(*img), quarter_turns(rotation as int)).0,
        rotated_photo(photo_content(*img), quarter_turns(rotation as int)).2 == photo_content(*img).2,
{
    let turns = match rotation.checked_rem_euclid(360) {
        Some(t) => t,
        None => 0,
    };
    if turns == 90 || turns == 270 {
        (img.height(), img.width())
    } else {
        (img.width(), img.height())
    }
}

/// Every subpixel of a filled raster has its colour.
proof fn lemma_filled_pixel(pw: int, ph: int, color: [u8; 4], px: int, py: int, c: int)
    requires
        0 <= px < pw,
        0 <= py < ph,
        0 <= c < 4,
    ensures
        filled_bytes(pw, ph, color)[pixel_offset(pw, px, py) + c] == color@[c],
        0 <= pixel_offset(pw, px, py) + c < 4 * pw * ph,
{
    lemma_offset_pixel(pw, px, py, c);
    assert(0 <= 4 * (py * pw + px) + c < 4 * pw * ph) by (nonlinear_arith)
        requires 0 <= px < pw, 0 <= py < ph, 0 <= c < 4;
}

/// A pixel off the outline of the rectangle `(x, y, w, h)` keeps its
/// subpixels when that outline is drawn, or when nothing is; a pixel on it
/// turns black when it is drawn.
proof fn lemma_pixel_kept(
    before: Seq<u8>,
    after: Seq<u8>,
    pw: int,
    ph: int,
    x: int,
    y: int,
    w: int,
    h: int,
    outline: bool,
    px: int,
    py: int,
    c: int,
)
    requires
        0 <= px < pw,
        0 <= py < ph,
        0 <= c < 4,
        before.len() >= 4 * pw * ph,
        outline ==> after == outlined_bytes(before, pw, ph, x, y, w, h),
        !outline ==> after == before,
    ensures
        !(outline && on_outline(px, py, x, y, w, h)) ==> after[pixel_offset(pw, px, py) + c]
            == before[pixel_offset(pw, px, py) + c],
        outline && on_outline(px, py, x, y, w, h) ==> after[pixel_offset(pw, px, py) + c] == black_byte(c),
{
    if outline {
        lemma_offset_pixel(pw, px, py, c);
        assert(0 <= 4 * (py * pw + px) + c < 4 * pw * ph) by (nonlinear_arith)
            requires 0 <= px < pw, 0 <= py < ph, 0 <= c < 4;
    }
}

/// Whether drawing the outline of the `w x h` rectangle at `(x, y)` on a
/// `pw x ph` raster stays inside `u32` (see [`outline_fits`]).
fn outline_in_range(pw: u32, ph: u32, x: u32, y: u32, w: u32, h: u32) -> (r: bool)
    ensures
        r == outline_fits(pw as int, ph as int, x as int, y as int, w as int, h as int),
{
    let (pw, ph, x, y, w, h) = (pw as i64, ph as i64, x as i64, y as i64, w as i64, h as i64);
    let max = u32::MAX as i64;
    (w <= 0 || x + w - 1 <= max) && (!(w > 0 && x < pw) || (1 <= y + h && y + h <= max)) && (h <= 0 || y + h
        - 1 <= max) && (!(h > 0 && y < ph) || (1 <= x + w && x + w <= max))
}

/// Compose the full-resolution page, or `None` where drawing a cell's outline
/// would leave `u32` (see [`compose_in_range`]). The page is white, of the
/// grid's page size at its resolution (at most 20000 pixels a side, else
/// [`PrintError::PageTooLarge`] before any cell); each cell's photo in order
/// is looked up, decoded, turned, fitted into its cell, laid onto the page at
/// the cell's position and outlined where the cell asks for it; the first
/// cell that fails ends composing with its failure (see [`composed`]).
pub fn try_compose_page(job: &PrintJob) -> (r: Option<Result<Raster, PrintError>>)
    ensures
        r is None <==> !compose_in_range(*job),
        r matches Some(res) ==> composed(*job, res),
{
    let grid = &job.grid;
    let dpi = grid.dpi;
    let page_w = um_to_px(grid.page_width, dpi);
    let page_h = um_to_px(grid.page_height, dpi);
    let cell_w = um_to_px(grid.cell_width, dpi);
    let cell_h = um_to_px(grid.cell_height, dpi);
    let n = job.cells.len();
    let ghost filler: Seq<RasterModel> = Seq::new(n as nat, |j: int| ((0u32, 0u32), Seq::<u8>::empty()));
    if page_w > MAX_PAGE_PIXELS || page_h > MAX_PAGE_PIXELS {
        proof {
            lemma_prefix_failure_sticks(*job, filler, 0, n as int);
            assert(cell_images_fit(*job, filler));
        }
        return Some(Err(PrintError::PageTooLarge { width: page_w, height: page_h }));
    }
    proof {
        assert(4 * (page_w as int) * (page_h as int) <= 1_600_000_000) by (nonlinear_arith)
            requires page_w <= 20000, page_h <= 20000;
    }
    let white_px: [u8; 4] = [255, 255, 255, 255];
    assert(white_px == white());
    let mut page = Raster::filled(page_w, page_h, white_px);
    let ghost mut cimgs: Seq<RasterModel> = Seq::empty();
    assert forall|px: int, py: int, c: int|
        0 <= px < page_w && 0 <= py < page_h && 0 <= c < 4 implies #[trigger] raster_bytes(page)[pixel_offset(
            page_w as int,
            px,
            py,
        ) + c] == white()@[c] by {
        lemma_filled_pixel(page_w as int, page_h as int, white_px, px, py, c);
    }
    let mut i: usize = 0;
    while i < n
        invariant
            n == job.cells@.len(),
            i <= n,
            (page_w, page_h) == page_px(job.grid),
            (cell_w, cell_h) == cell_px(job.grid),
            *grid == job.grid,
            page_w <= 20000,
            page_h <= 20000,
            raster_dims(page) == (page_w, page_h),
            filler.len() == n,
            cimgs.len() == i,
            forall|j: int| 0 <= j < i ==> cell_failure(*job, #[trigger] job.cells@[j]) is None,
            forall|j: int|
                0 <= j < i ==> fitted_outcome(
                    cell_photo(*job, job.cells@[j])->Some_0,
                    cell_w,
                    cell_h,
                    job.cells@[j].object_fit@,
                    job.cells@[j].alignment@,
                    job.cells@[j].rotation as int,
                    #[trigger] cimgs[j],
                ),
            forall|j: int|
                0 <= j < i && (#[trigger] job.cells@[j]).outline ==> outline_fits(
                    page_w as int,
                    page_h as int,
                    cell_px_origin(job.grid, job.cells@[j]).0 as int,
                    cell_px_origin(job.grid, job.cells@[j]).1 as int,
                    cell_w as int,
                    cell_h as int,
                ),
            compose_prefix(*job, cimgs, i as int) == Ok::<RasterModel, PrintFailure>(model_of(page)),
            page_shows_cells(*job, cimgs, i as int, model_of(page)),
        decreases n - i,
    {
        let cell = &job.cells[i];
        let ghost padded = cimgs + filler.subrange(i as int, n as int);
        proof {
            assert forall|j: int| 0 <= j < i implies padded[j] == cimgs[j] by {}
            lemma_prefix_agree(*job, cimgs, padded, i as int);
        }
        let uri = match find_image(&job.images, &cell.image_id) {
            Some(u) => u,
            None => {
                proof {
                    lemma_failure_ends(*job, cimgs, padded, filler, i as int);
                }
                return Some(Err(PrintError::ImageNotFound(cell.image_id.clone())));
            },
        };
        let img = match decode_data_uri(uri.as_str()) {
            Ok(d) => d,
            Err(e) => {
                proof {
                    lemma_failure_ends(*job, cimgs, padded, filler, i as int);
                }
                return Some(Err(e));
            },
        };
        let contain = str_equal(cell.object_fit.as_str(), "contain");
        let ghost turned = rotated_photo(photo_content(img), quarter_turns(cell.rotation as int));
        let (turned_w, turned_h) = rotate_dims(&img, cell.rotation);
        let pixel_bytes = img.pixel_bytes();
        let (fits, new_w, new_h) = check_fit(contain, Ghost(turned), turned_w, turned_h, pixel_bytes, cell_w, cell_h);
        if !fits {
            proof {
                lemma_failure_ends(*job, cimgs, padded, filler, i as int);
            }
            return Some(Err(PrintError::ScaledImageTooLarge { width: new_w, height: new_h }));
        }
        assert(cell_failure(*job, job.cells@[i as int]) is None);
        let (x, y) = cell_pixel_origin(grid, cell);
        if cell.outline && !outline_in_range(page_w, page_h, x, y, cell_w, cell_h) {
            assert(reaches(*job, i as int));
            return None;
        }
        let cell_image = resize_for_cell(
            &img,
            cell_w,
            cell_h,
            cell.object_fit.as_str(),
            cell.alignment.as_str(),
            cell.rotation,
        );
        let ghost cimg = model_of(cell_image);
        let ghost before = raster_bytes(page);
        let ghost old_cimgs = cimgs;
        page.overlay(&cell_image, x as i64, y as i64);
        let ghost overlaid_page = raster_bytes(page);
        let _ = page.raw_bytes();
        if cell.outline {
            draw_outline(&mut page, x, y, cell_w, cell_h);
        }
        let _ = page.raw_bytes();
        proof {
            cimgs = cimgs.push(cimg);
            lemma_prefix_agree(*job, old_cimgs, cimgs, i as int);
            lemma_step_shows(
                *job,
                old_cimgs,
                i as int,
                page_w,
                page_h,
                x as int,
                y as int,
                cell_w as int,
                cell_h as int,
                before,
                overlaid_page,
                raster_bytes(page),
                cimg,
            );
        }
        i = i + 1;
    }
    proof {
        assert(cimgs.len() == n);
        assert(cell_images_fit(*job, cimgs));
    }
    Some(Ok(page))
}

/// Compose the full-resolution page (see [`try_compose_page`]), where no
/// cell's outline leaves `u32`.
pub fn compose_page(job: &PrintJob) -> (r: Result<Raster, PrintError>)
    requires
        compose_in_range(*job),
    ensures
        composed(*job, r),
{
    match try_compose_page(job) {
        Some(r) => r,
        None => {
            // `try_compose_page` gives `None` only outside `compose_in_range`.
            proof {
                assert(false);
            }
            Err(PrintError::PageTooLarge { width: 0, height: 0 })
        },
    }
}

/// Cell `i`, reached with the images `cimgs` of the cells before it, fails:
/// composing ends with its failure, whatever images are given for the cells
/// from `i` on, and every cell that composing places fits.
proof fn lemma_failure_ends(
    job: PrintJob,
    cimgs: Seq<RasterModel>,
    padded: Seq<RasterModel>,
    filler: Seq<RasterModel>,
    i: int,
)
    requires
        0 <= i < job.cells@.len(),
        filler.len() == job.cells@.len(),
        cimgs.len() == i,
        padded == cimgs + filler.subrange(i, job.cells@.len() as int),
        cell_failure(job, job.cells@[i]) is Some,
        compose_prefix(job, padded, i) is Ok,
        forall|j: int| 0 <= j < i ==> cell_failure(job, #[trigger] job.cells@[j]) is None,
        forall|j: int|
            0 <= j < i ==> fitted_outcome(
                cell_photo(job, job.cells@[j])->Some_0,
                cell_px(job.grid).0,
                cell_px(job.grid).1,
                job.cells@[j].object_fit@,
                job.cells@[j].alignment@,
                job.cells@[j].rotation as int,
                #[trigger] cimgs[j],
            ),
        forall|j: int|
            0 <= j < i && (#[trigger] job.cells@[j]).outline ==> outline_fits(
                page_px(job.grid).0 as int,
                page_px(job.grid).1 as int,
                cell_px_origin(job.grid, job.cells@[j]).0 as int,
                cell_px_origin(job.grid, job.cells@[j]).1 as int,
                cell_px(job.grid).0 as int,
                cell_px(job.grid).1 as int,
            ),
    ensures
        compose_spec(job, padded) == Err::<RasterModel, PrintFailure>(cell_failure(job, job.cells@[i])->Some_0),
        cell_images_fit(job, padded),
        compose_in_range(job),
{
    let n = job.cells@.len() as int;
    lemma_prefix_failure_sticks(job, padded, i + 1, n);
    assert forall|j: int| i < j < n implies !reaches(job, j) by {
        assert(cell_failure(job, job.cells@[i]) is Some);
    }
    assert forall|j: int| 0 <= j < i implies padded[j] == cimgs[j] by {}
}

/// After placing cell `i` with the image `cimg`, the page still shows the
/// earlier cells where cell `i` does not cover it, and shows cell `i` where
/// it is the last to cover a pixel.
proof fn lemma_step_shows(
    job: PrintJob,
    cimgs: Seq<RasterModel>,
    i: int,
    pw: u32,
    ph: u32,
    x: int,
    y: int,
    cw: int,
    ch: int,
    before: Seq<u8>,
    over: Seq<u8>,
    after: Seq<u8>,
    cimg: RasterModel,
)
    requires
        0 <= i < job.cells@.len(),
        cimgs.len() == i,
        (pw, ph) == page_px(job.grid),
        (cw, ch) == (cell_px(job.grid).0 as int, cell_px(job.grid).1 as int),
        (x, y) == (cell_px_origin(job.grid, job.cells@[i]).0 as int, cell_px_origin(job.grid, job.cells@[i]).1 as int),
        cimg.0 == (cw as u32, ch as u32),
        page_shows_cells(job, cimgs, i, ((pw, ph), before)),
        over.len() >= 4 * pw * ph,
        forall|px: int, py: int, c: int|
            0 <= px < pw && 0 <= py < ph && 0 <= c < 4 && !(x <= px < x + cw && y <= py < y + ch)
                ==> #[trigger] over[pixel_offset(pw as int, px, py) + c] == before[pixel_offset(pw as int, px, py) + c],
        forall|px: int, py: int, c: int|
            0 <= px < pw && 0 <= py < ph && 0 <= c < 4 && x <= px < x + cw && y <= py < y + ch
                && cimg.1[pixel_offset(cw, px - x, py - y) + 3] == 255
                ==> #[trigger] over[pixel_offset(pw as int, px, py) + c] == cimg.1[pixel_offset(cw, px - x, py - y) + c],
        job.cells@[i].outline ==> after == outlined_bytes(over, pw as int, ph as int, x, y, cw, ch),
        !job.cells@[i].outline ==> after == over,
    ensures
        page_shows_cells(job, cimgs.push(cimg), i + 1, ((pw, ph), after)),
{
    let cimgs2 = cimgs.push(cimg);
    let cell = job.cells@[i];
    let m = ((pw, ph), after);
    if cw > 0 && ch > 0 {
        assert forall|px: int, py: int, c: int|
            0 <= px < pw && 0 <= py < ph && 0 <= c < 4 && uncovered(job, i + 1, px, py) implies #[trigger] after[pixel_offset(
                pw as int,
                px,
                py,
            ) + c] == white()@[c] by {
            assert(!covered_by_cell(job.grid, job.cells@[i], px, py));
            assert(uncovered(job, i, px, py)) by {
                assert forall|j: int| 0 <= j < i implies !covered_by_cell(job.grid, #[trigger] job.cells@[j], px, py) by {
                    assert(!covered_by_cell(job.grid, job.cells@[j], px, py));
                }
            }
            let m0: RasterModel = ((pw, ph), before);
            assert(page_shows_cells(job, cimgs, i, m0));
            assert(cell_px(job.grid).0 > 0 && cell_px(job.grid).1 > 0);
            assert(0 <= px < m0.0.0 && 0 <= py < m0.0.1);
            assert(m0.1[pixel_offset(m0.0.0 as int, px, py) + c] == white()@[c]);
            assert(before[pixel_offset(pw as int, px, py) + c] == white()@[c]);
            lemma_pixel_kept(over, after, pw as int, ph as int, x, y, cw, ch, cell.outline, px, py, c);
        }
    }
    assert forall|k: int, px: int, py: int, c: int|
        0 <= k < i + 1 && 0 <= px < pw && 0 <= py < ph && 0 <= c < 4 && #[trigger] on_cell_border(job, k, i + 1, px, py)
            implies #[trigger] after[pixel_offset(pw as int, px, py) + c] == black_byte(c) by {
        lemma_pixel_kept(over, after, pw as int, ph as int, x, y, cw, ch, cell.outline, px, py, c);
        if k < i {
            assert(!covered_by_cell(job.grid, job.cells@[i], px, py));
            assert(on_cell_border(job, k, i, px, py));
            let m0: RasterModel = ((pw, ph), before);
            assert(page_shows_cells(job, cimgs, i, m0));
            assert(0 <= px < m0.0.0 && 0 <= py < m0.0.1);
            assert(m0.1[pixel_offset(m0.0.0 as int, px, py) + c] == black_byte(c));
        }
    }
    assert forall|k: int, px: int, py: int, c: int|
        0 <= k < i + 1 && 0 <= px < pw && 0 <= py < ph && 0 <= c < 4 && #[trigger] shows_cell_pixel(
            job,
            cimgs2,
            k,
            i + 1,
            px,
            py,
        ) implies #[trigger] after[pixel_offset(pw as int, px, py) + c] == cimgs2[k].1[pixel_offset(
            cw,
            px - cell_px_origin(job.grid, job.cells@[k]).0,
            py - cell_px_origin(job.grid, job.cells@[k]).1,
        ) + c] by {
        lemma_pixel_kept(over, after, pw as int, ph as int, x, y, cw, ch, cell.outline, px, py, c);
        if k < i {
            assert(!covered_by_cell(job.grid, job.cells@[i], px, py));
            assert(cimgs2[k] == cimgs[k]);
            assert(shows_cell_pixel(job, cimgs, k, i, px, py));
            let m0: RasterModel = ((pw, ph), before);
            assert(page_shows_cells(job, cimgs, i, m0));
            assert(0 <= px < m0.0.0 && 0 <= py < m0.0.1);
            assert(m0.1[pixel_offset(m0.0.0 as int, px, py) + c] == cimgs[k].1[pixel_offset(
                cw,
                px - cell_px_origin(job.grid, job.cells@[k]).0,
                py - cell_px_origin(job.grid, job.cells@[k]).1,
            ) + c]);
        } else {
            assert(cimgs2[k] == cimg);
        }
    }
}

} // verus!
