//! Decoded photos, held in an `image::DynamicImage` in the colour type they
//! were stored in, and RGBA rasters, held in an `image::RgbaImage`.
//!
//! `image::ImageBuffer` carries a bound on an outside trait (`Pixel`), so the
//! buffer sits in a private field of [`Raster`] and is never seen inside. What a
//! raster holds is named by [`raster_dims`] (width, height) and
//! [`raster_bytes`] (the RGBA subpixels, row by row from the top), and every
//! operation that the library performs on it is a small trusted method below
//! whose contract is stated over those two names. A [`Photo`] is held the same
//! way, its contents named by [`photo_content`].

use vstd::prelude::*;

verus! {

/// An 8-bit RGBA raster.
#[verifier::external_body]
pub struct Raster {
    img: image::RgbaImage,
}

/// Width and height of a raster.
pub uninterp spec fn raster_dims(r: Raster) -> (u32, u32);

/// Subpixels of a raster: pixel `(x, y)` occupies `4 * (y * width + x) .. + 4`,
/// in the order red, green, blue, alpha.
pub uninterp spec fn raster_bytes(r: Raster) -> Seq<u8>;

/// A photo as a plain value: its size, its colour type (an identifier of the
/// `image::ColorType` it is stored in), the bytes one pixel takes in that
/// colour type, and its samples' bytes, row by row from the top, `pixel_bytes`
/// per pixel.
pub type PhotoModel = ((u32, u32), u8, nat, Seq<u8>);

/// A decoded photo, in the colour type it was stored in.
#[verifier::external_body]
pub struct Photo {
    img: image::DynamicImage,
}

/// What a photo holds (see [`PhotoModel`]).
pub uninterp spec fn photo_content(p: Photo) -> PhotoModel;

/// The photo that `bytes` encode, or the text of the error with which
/// `image::load_from_memory` refuses them.
pub uninterp spec fn decoded_photo(bytes: Seq<u8>) -> Result<PhotoModel, Seq<char>>;

/// The RGBA subpixels of a photo converted to 8-bit RGBA
/// (`DynamicImage::to_rgba8`).
pub uninterp spec fn photo_rgba8(p: PhotoModel) -> Seq<u8>;


/// Subpixels of the `w x h` RGBA raster `bottom` after alpha-blending the
/// `tw x th` raster `top` over it with its top-left corner at `(x, y)`.
pub uninterp spec fn overlaid(
    bottom: Seq<u8>,
    w: u32,
    h: u32,
    top: Seq<u8>,
    tw: u32,
    th: u32,
    x: i64,
    y: i64,
) -> Seq<u8>;

/// Byte offset of pixel `(x, y)` in a raster of width `w`.
pub open spec fn pixel_offset(w: int, x: int, y: int) -> int {
    4 * (y * w + x)
}

/// A `w x h` raster whose every pixel is `color`.
pub open spec fn filled_bytes(w: int, h: int, color: [u8; 4]) -> Seq<u8> {
    Seq::new((4 * w * h) as nat, |i: int| color@[i % 4])
}

/// `bytes` with the pixel at byte offset `at` replaced by `color`.
pub open spec fn with_pixel(bytes: Seq<u8>, at: int, color: [u8; 4]) -> Seq<u8> {
    bytes.update(at, color@[0]).update(at + 1, color@[1]).update(at + 2, color@[2]).update(
        at + 3,
        color@[3],
    )
}

/// The bytes of a `w x h` image of `unit` bytes per pixel turned by
/// `quarter_turns` quarter turns clockwise (the result is `h x w` for an odd
/// number of turns).
pub open spec fn rotated_units(src: Seq<u8>, w: int, h: int, quarter_turns: int, unit: int) -> Seq<u8> {
    let (nw, nh) = if quarter_turns % 2 == 1 {
        (h, w)
    } else {
        (w, h)
    };
    Seq::new(
        (unit * w * h) as nat,
        |i: int|
            {
                let p = i / unit;
                let c = i % unit;
                let nx = p % nw;
                let ny = p / nw;
                // the source pixel that lands on (nx, ny)
                let (sx, sy) = if quarter_turns == 1 {
                    (ny, h - 1 - nx)
                } else if quarter_turns == 2 {
                    (w - 1 - nx, h - 1 - ny)
                } else {
                    (w - 1 - ny, nx)
                };
                src[unit * (sy * w + sx) + c]
            },
    )
}

/// A photo turned by `turns` quarter turns clockwise (`turns` of 0 leaves it
/// as it is).
pub open spec fn rotated_photo(m: PhotoModel, turns: int) -> PhotoModel {
    let (w, h) = m.0;
    if turns == 1 || turns == 3 {
        ((h, w), m.1, m.2, rotated_units(m.3, w as int, h as int, turns, m.2 as int))
    } else if turns == 2 {
        ((w, h), m.1, m.2, rotated_units(m.3, w as int, h as int, 2, m.2 as int))
    } else {
        m
    }
}

/// Resampling a photo to `new_w x new_h` stays within a vector's limit: the
/// result, its RGBA conversion, and (unless the size is unchanged or the photo
/// empty) the `w x new_h` intermediate of 16-byte pixels that resampling uses.
pub open spec fn resize_allocatable(m: PhotoModel, new_w: int, new_h: int) -> bool {
    let (w, h) = m.0;
    &&& m.2 * new_w * new_h <= isize::MAX
    &&& 4 * new_w * new_h <= isize::MAX
    &&& (w == 0 || h == 0 || (new_w == w && new_h == h) || 16 * w * new_h <= isize::MAX)
}

/// The region `(x, y, cw, ch)` of a `w x h` raster, clamped to the raster as
/// `image::imageops::crop_imm` does: `(x', y', cw', ch')`.
pub open spec fn crop_region(w: int, h: int, x: int, y: int, cw: int, ch: int) -> (int, int, int, int) {
    let x2 = if x < w { x } else { w };
    let y2 = if y < h { y } else { h };
    let cw2 = if cw < w - x2 { cw } else { w - x2 };
    let ch2 = if ch < h - y2 { ch } else { h - y2 };
    (x2, y2, cw2, ch2)
}

/// Subpixels of the region `(x, y, cw, ch)` (already clamped) of a raster of width `w`.
pub open spec fn cropped_bytes(src: Seq<u8>, w: int, x: int, y: int, cw: int, ch: int) -> Seq<u8> {
    Seq::new(
        (4 * cw * ch) as nat,
        |i: int|
            {
                let p = i / 4;
                src[pixel_offset(w, x + p % cw, y + p / cw) + i % 4]
            },
    )
}

/// Size of the region `(x, y, w, h)` of a raster of size `dims` after clamping.
pub open spec fn crop_dims(dims: (u32, u32), x: u32, y: u32, w: u32, h: u32) -> (u32, u32) {
    let (_, _, w2, h2) = crop_region(dims.0 as int, dims.1 as int, x as int, y as int, w as int, h as int);
    (w2 as u32, h2 as u32)
}

/// Subpixels of the region `(x, y, w, h)` of a raster of size `dims` after clamping.
pub open spec fn crop_of(src: Seq<u8>, dims: (u32, u32), x: u32, y: u32, w: u32, h: u32) -> Seq<u8> {
    let (x2, y2, w2, h2) = crop_region(dims.0 as int, dims.1 as int, x as int, y as int, w as int, h as int);
    cropped_bytes(src, dims.0 as int, x2, y2, w2, h2)
}

/// Every raster holds at least `4 * width * height` subpixels, and no more
/// than a vector can.
pub open spec fn raster_wf(r: Raster) -> bool {
    4 * raster_dims(r).0 * raster_dims(r).1 <= raster_bytes(r).len() <= isize::MAX
}

impl Raster {
    /// `image::ImageBuffer::from_pixel`: a `width x height` raster filled with
    /// `color`. The buffer length is checked against `usize` and a vector's
    /// limit, so the contract asks for both.
    #[verifier::external_body]
    pub(crate) fn filled(width: u32, height: u32, color: [u8; 4]) -> (r: Raster)
        requires
            4 * width * height <= isize::MAX,
        ensures
            raster_dims(r) == (width, height),
            raster_bytes(r) == filled_bytes(width as int, height as int, color),
    {
        Raster { img: image::ImageBuffer::from_pixel(width, height, image::Rgba(color)) }
    }

    /// `image::ImageBuffer::from_raw`: a raster over the given subpixels
    /// (which must hold exactly `4 * width * height` of them).
    #[verifier::external_body]
    pub(crate) fn over_bytes(width: u32, height: u32, bytes: Vec<u8>) -> (r: Raster)
        requires
            bytes@.len() == 4 * width * height,
        ensures
            raster_dims(r) == (width, height),
            raster_bytes(r) == bytes@,
    {
        Raster { img: image::ImageBuffer::from_raw(width, height, bytes).unwrap() }
    }

    /// `ImageBuffer::width`.
    #[verifier::external_body]
    pub(crate) fn raw_width(&self) -> (w: u32)
        ensures
            w == raster_dims(*self).0,
    {
        self.img.width()
    }

    /// `ImageBuffer::height`.
    #[verifier::external_body]
    pub(crate) fn raw_height(&self) -> (h: u32)
        ensures
            h == raster_dims(*self).1,
    {
        self.img.height()
    }

    /// `ImageBuffer::as_raw`: the subpixels. The buffer holds at least
    /// `4 * width * height` of them (`ImageBuffer` keeps that invariant) and, as
    /// any vector, at most `isize::MAX` bytes.
    #[verifier::external_body]
    pub(crate) fn raw_bytes(&self) -> (b: &Vec<u8>)
        ensures
            b@ == raster_bytes(*self),
            4 * raster_dims(*self).0 * raster_dims(*self).1 <= b@.len() <= isize::MAX,
    {
        self.img.as_raw()
    }

    /// `ImageBuffer::put_pixel`, which panics outside the raster.
    #[verifier::external_body]
    pub(crate) fn put_pixel(&mut self, x: u32, y: u32, color: [u8; 4])
        requires
            x < raster_dims(*old(self)).0,
            y < raster_dims(*old(self)).1,
        ensures
            raster_dims(*final(self)) == raster_dims(*old(self)),
            raster_bytes(*final(self)) == with_pixel(
                raster_bytes(*old(self)),
                pixel_offset(raster_dims(*old(self)).0 as int, x as int, y as int),
                color,
            ),
    {
        self.img.put_pixel(x, y, image::Rgba(color))
    }

    /// `image::imageops::crop_imm`, copied out into a raster of its own.
    /// The region is clamped to the raster (see [`crop_region`]).
    #[verifier::external_body]
    pub(crate) fn cropped(&self, x: u32, y: u32, w: u32, h: u32) -> (r: Raster)
        requires
            raster_wf(*self),
        ensures
            raster_dims(r) == crop_dims(raster_dims(*self), x, y, w, h),
            raster_bytes(r) == crop_of(raster_bytes(*self), raster_dims(*self), x, y, w, h),
    {
        Raster { img: image::imageops::crop_imm(&self.img, x, y, w, h).to_image() }
    }

    /// `image::imageops::overlay`: blends `top` over this raster at `(x, y)`.
    /// Only the pixels under `top` change, and one under an opaque pixel of
    /// `top` becomes that pixel.
    #[verifier::external_body]
    pub(crate) fn overlay(&mut self, top: &Raster, x: i64, y: i64)
        ensures
            raster_dims(*final(self)) == raster_dims(*old(self)),
            raster_bytes(*final(self)).len() == raster_bytes(*old(self)).len(),
            forall|px: int, py: int, c: int|
                0 <= px < raster_dims(*old(self)).0 && 0 <= py < raster_dims(*old(self)).1 && 0 <= c < 4
                    && !(x <= px < x + raster_dims(*top).0 && y <= py < y + raster_dims(*top).1)
                    ==> #[trigger] raster_bytes(*final(self))[pixel_offset(raster_dims(*old(self)).0 as int, px, py) + c]
                    == raster_bytes(*old(self))[pixel_offset(raster_dims(*old(self)).0 as int, px, py) + c],
            forall|px: int, py: int, c: int|
                0 <= px < raster_dims(*old(self)).0 && 0 <= py < raster_dims(*old(self)).1 && 0 <= c < 4
                    && x <= px < x + raster_dims(*top).0 && y <= py < y + raster_dims(*top).1
                    && raster_bytes(*top)[pixel_offset(raster_dims(*top).0 as int, px - x, py - y) + 3] == 255
                    ==> #[trigger] raster_bytes(*final(self))[pixel_offset(raster_dims(*old(self)).0 as int, px, py) + c]
                    == raster_bytes(*top)[pixel_offset(raster_dims(*top).0 as int, px - x, py - y) + c],
            raster_bytes(*final(self)) == overlaid(
                raster_bytes(*old(self)),
                raster_dims(*old(self)).0,
                raster_dims(*old(self)).1,
                raster_bytes(*top),
                raster_dims(*top).0,
                raster_dims(*top).1,
                x,
                y,
            ),
    {
        image::imageops::overlay(&mut self.img, &top.img, x, y)
    }

    /// Width of the raster.
    pub fn width(&self) -> (w: u32)
        ensures
            w == raster_dims(*self).0,
    {
        self.raw_width()
    }

    /// Height of the raster.
    pub fn height(&self) -> (h: u32)
        ensures
            h == raster_dims(*self).1,
    {
        self.raw_height()
    }

    /// A copy of the raster's subpixels (see [`raster_bytes`]).
    pub fn to_bytes(&self) -> (b: Vec<u8>)
        ensures
            b@ == raster_bytes(*self),
    {
        let raw = self.raw_bytes();
        let mut out: Vec<u8> = Vec::new();
        let n = raw.len();
        let mut i: usize = 0;
        while i < n
            invariant
                n == raw@.len(),
                i <= n,
                out@ == raw@.subrange(0, i as int),
            decreases n - i,
        {
            out.push(raw[i]);
            i = i + 1;
            assert(out@ =~= raw@.subrange(0, i as int));
        }
        assert(raw@.subrange(0, n as int) =~= raw@);
        out
    }

    /// A raster of `width x height` pixels over `bytes` (RGBA, row by row),
    /// or `None` where `bytes` does not hold exactly `4 * width * height`
    /// subpixels.
    pub fn from_rgba(width: u32, height: u32, bytes: Vec<u8>) -> (r: Option<Raster>)
        ensures
            r is Some <==> bytes@.len() == 4 * width * height,
            r matches Some(img) ==> raster_dims(img) == (width, height) && raster_bytes(img)
                == bytes@,
    {
        let n = bytes.len();
        proof {
            assert(4 * (width as int) * (height as int) <= 0x4_0000_0000_0000_0000) by (nonlinear_arith)
                requires
                    width <= 0xffff_ffff,
                    height <= 0xffff_ffff,
            ;
        }
        if (n as u128) == 4 * (width as u128) * (height as u128) {
            Some(Raster::over_bytes(width, height, bytes))
        } else {
            None
        }
    }
}

impl Photo {
    /// `image::load_from_memory`: the photo that `bytes` encode, in its own
    /// colour type, its buffer exactly as long as its pixels need (the decoder
    /// fills a buffer of `width * height * bytes_per_pixel` bytes). The error
    /// carries the text of the `image::ImageError`.
    #[verifier::external_body]
    pub(crate) fn decode(bytes: &[u8]) -> (r: Result<Photo, String>)
        ensures
            match r {
                Ok(p) => decoded_photo(bytes@) == Ok::<PhotoModel, Seq<char>>(photo_content(p))
                    && photo_content(p).3.len() == photo_content(p).2 * photo_content(p).0.0
                    * photo_content(p).0.1,
                Err(m) => decoded_photo(bytes@) == Err::<PhotoModel, Seq<char>>(m@),
            },
    {
        match image::load_from_memory(bytes) {
            Ok(d) => Ok(Photo { img: d }),
            Err(e) => Err(format!("{}", e)),
        }
    }

    /// `DynamicImage::width`.
    #[verifier::external_body]
    pub(crate) fn raw_width(&self) -> (w: u32)
        ensures
            w == photo_content(*self).0.0,
    {
        self.img.width()
    }

    /// `DynamicImage::height`.
    #[verifier::external_body]
    pub(crate) fn raw_height(&self) -> (h: u32)
        ensures
            h == photo_content(*self).0.1,
    {
        self.img.height()
    }

    /// `ColorType::bytes_per_pixel` of the photo's colour type.
    #[verifier::external_body]
    pub(crate) fn pixel_bytes(&self) -> (n: u8)
        ensures
            n == photo_content(*self).2,
    {
        self.img.color().bytes_per_pixel()
    }

    /// `Clone::clone`.
    #[verifier::external_body]
    pub(crate) fn duplicate(&self) -> (r: Photo)
        ensures
            photo_content(r) == photo_content(*self),
    {
        Photo { img: self.img.clone() }
    }

    /// `DynamicImage::rotate90`: a quarter turn clockwise, pixel by pixel, in
    /// the same colour type. Conversion to RGBA works pixel by pixel, so the
    /// turned photo's RGBA form is the photo's RGBA form turned.
    #[verifier::external_body]
    pub(crate) fn rotate90(&self) -> (r: Photo)
        ensures
            photo_content(r) == rotated_photo(photo_content(*self), 1),
            photo_rgba8(photo_content(r)) == rotated_units(
                photo_rgba8(photo_content(*self)),
                photo_content(*self).0.0 as int,
                photo_content(*self).0.1 as int,
                1,
                4,
            ),
    {
        Photo { img: self.img.rotate90() }
    }

    /// `DynamicImage::rotate180`: a half turn, pixel by pixel.
    #[verifier::external_body]
    pub(crate) fn rotate180(&self) -> (r: Photo)
        ensures
            photo_content(r) == rotated_photo(photo_content(*self), 2),
            photo_rgba8(photo_content(r)) == rotated_units(
                photo_rgba8(photo_content(*self)),
                photo_content(*self).0.0 as int,
                photo_content(*self).0.1 as int,
                2,
                4,
            ),
    {
        Photo { img: self.img.rotate180() }
    }

    /// `DynamicImage::rotate270`: three quarter turns clockwise, pixel by pixel.
    #[verifier::external_body]
    pub(crate) fn rotate270(&self) -> (r: Photo)
        ensures
            photo_content(r) == rotated_photo(photo_content(*self), 3),
            photo_rgba8(photo_content(r)) == rotated_units(
                photo_rgba8(photo_content(*self)),
                photo_content(*self).0.0 as int,
                photo_content(*self).0.1 as int,
                3,
                4,
            ),
    {
        Photo { img: self.img.rotate270() }
    }

    /// `DynamicImage::resize_exact` with the Lanczos3 filter, in the photo's
    /// own colour type. It allocates the result and, for a new size of a
    /// non-empty photo, a `width x new_h` intermediate of 16-byte pixels.
    /// The resampled samples are left unsaid: the filter's weights come from
    /// `f32::sin`, whose precision std leaves to the platform. A resize to the
    /// photo's own size copies its pixels instead of resampling.
    #[verifier::external_body]
    pub(crate) fn resized(&self, new_w: u32, new_h: u32) -> (r: Photo)
        requires
            resize_allocatable(photo_content(*self), new_w as int, new_h as int),
        ensures
            photo_content(r).0 == (new_w, new_h),
            photo_content(r).1 == photo_content(*self).1,
            photo_content(r).2 == photo_content(*self).2,
            (new_w, new_h) == photo_content(*self).0 ==> photo_content(r).3 == photo_content(*self).3.subrange(
                0,
                photo_content(*self).2 * new_w * new_h,
            ),
    {
        Photo { img: self.img.resize_exact(new_w, new_h, image::imageops::FilterType::Lanczos3) }
    }

    /// `DynamicImage::to_rgba8`: the photo as an 8-bit RGBA raster of the same
    /// size, `4 * width * height` subpixels long.
    #[verifier::external_body]
    pub(crate) fn to_raster(&self) -> (r: Raster)
        requires
            4 * photo_content(*self).0.0 * photo_content(*self).0.1 <= isize::MAX,
        ensures
            raster_dims(r) == photo_content(*self).0,
            raster_bytes(r) == photo_rgba8(photo_content(*self)),
            raster_bytes(r).len() == 4 * photo_content(*self).0.0 * photo_content(*self).0.1,
    {
        Raster { img: self.img.to_rgba8() }
    }

    /// `DynamicImage::ImageRgba8`: an 8-bit RGBA raster as a photo.
    #[verifier::external_body]
    pub(crate) fn from_raster(r: Raster) -> (p: Photo)
        ensures
            photo_content(p).0 == raster_dims(r),
            photo_content(p).2 == 4,
            photo_content(p).3 == raster_bytes(r),
    {
        Photo { img: image::DynamicImage::ImageRgba8(r.img) }
    }

    /// Width of the photo.
    pub fn width(&self) -> (w: u32)
        ensures
            w == photo_content(*self).0.0,
    {
        self.raw_width()
    }

    /// Height of the photo.
    pub fn height(&self) -> (h: u32)
        ensures
            h == photo_content(*self).0.1,
    {
        self.raw_height()
    }

    /// An 8-bit RGBA photo of `width x height` pixels over `bytes` (row by
    /// row), or `None` where `bytes` does not hold exactly `4 * width * height`
    /// subpixels.
    pub fn from_rgba(width: u32, height: u32, bytes: Vec<u8>) -> (r: Option<Photo>)
        ensures
            r is Some <==> bytes@.len() == 4 * width * height,
            r matches Some(p) ==> photo_content(p).0 == (width, height) && photo_content(p).2 == 4
                && photo_content(p).3 == bytes@,
    {
        match Raster::from_rgba(width, height, bytes) {
            Some(r) => Some(Photo::from_raster(r)),
            None => None,
        }
    }

    /// The photo as an 8-bit RGBA raster, or `None` where that raster would
    /// exceed a vector's limit.
    pub fn to_rgba(&self) -> (r: Option<Raster>)
        ensures
            r is Some <==> 4 * photo_content(*self).0.0 * photo_content(*self).0.1 <= isize::MAX,
            r matches Some(img) ==> raster_dims(img) == photo_content(*self).0 && raster_bytes(img)
                == photo_rgba8(photo_content(*self)),
    {
        let w = self.width();
        let h = self.height();
        proof {
            assert(4 * (w as int) * (h as int) <= 0x4_0000_0000_0000_0000) by (nonlinear_arith)
                requires w <= 0xffff_ffff, h <= 0xffff_ffff;
        }
        if 4 * (w as u128) * (h as u128) <= isize::MAX as u128 {
            Some(self.to_raster())
        } else {
            None
        }
    }
}

} // verus!
