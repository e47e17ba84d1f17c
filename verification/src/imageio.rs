//! Decoding, scaling and encoding of images through the `image` crate.
//!
//! A decoded image is opaque to the verifier; [`DecodedImg`] carries it
//! together with its pixel dimensions as plain values, and every operation
//! that produces a `DecodedImg` is a trusted wrapper that fills the
//! dimensions in from the image itself. All geometry decisions (where to
//! crop, when to downscale) are made by verified callers on those plain
//! dimensions.

use vstd::prelude::*;

verus! {

#[verifier::external_type_specification]
#[verifier::external_body]
pub struct ExDynamicImage(image::DynamicImage);

/// Decoding failed: the bytes were not a recognizable, well-formed image.
#[derive(Clone, Copy, Debug, PartialEq, Eq, Structural)]
pub struct DecodeFailed;

/// Encoding failed: the encoder refused the image (for instance dimensions
/// beyond what the container format can express).
#[derive(Clone, Copy, Debug, PartialEq, Eq, Structural)]
pub struct EncodeFailed;

/// A fully decoded image together with its pixel dimensions.
///
/// The fields are private: only the trusted wrappers in this module build a
/// `DecodedImg`, and each of them stores the dimensions the `image` crate
/// reports for the wrapped image.
pub struct DecodedImg {
    img: image::DynamicImage,
    w: u32,
    h: u32,
}

impl DecodedImg {
    pub closed spec fn width(self) -> u32 {
        self.w
    }

    pub closed spec fn height(self) -> u32 {
        self.h
    }

    pub fn w(&self) -> (r: u32)
        ensures
            r == self.width(),
    {
        self.w
    }

    pub fn h(&self) -> (r: u32)
        ensures
            r == self.height(),
    {
        self.h
    }
}

/// What decoding a byte string yields, when it yields anything: the
/// decoded image's width and height, and whether the sniffed container
/// format was PNG. Decoding an in-memory byte string is a function of the
/// bytes alone.
pub uninterp spec fn decode_outcome(bytes: Seq<u8>) -> Option<(u32, u32, bool)>;

/// Relies on `image::ImageReader`: `with_guessed_format` sniffs the format
/// from the in-memory bytes, `decode` yields the image or fails, and
/// `dimensions` reports its size — all deterministic functions of the
/// bytes, named by `decode_outcome`. The returned flag says whether the
/// sniffed format was PNG.
#[verifier::external_body]
pub fn decode_image(bytes: &Vec<u8>) -> (r: Result<(DecodedImg, bool), DecodeFailed>)
    ensures
        r is Ok <==> decode_outcome(bytes@) is Some,
        r is Ok ==> (r->Ok_0).0.width() == (decode_outcome(bytes@)->0).0 && (
        r->Ok_0).0.height() == (decode_outcome(bytes@)->0).1 && (r->Ok_0).1 == (decode_outcome(
            bytes@,
        )->0).2,
{
    let reader = match image::ImageReader::new(std::io::Cursor::new(bytes.as_slice()))
        .with_guessed_format()
    {
        Ok(reader) => reader,
        Err(_) => return Err(DecodeFailed),
    };
    let png = reader.format() == Some(image::ImageFormat::Png);
    match reader.decode() {
        Ok(img) => {
            let (w, h) = image::GenericImageView::dimensions(&img);
            Ok((DecodedImg { img, w, h }, png))
        },
        Err(_) => Err(DecodeFailed),
    }
}

/// Relies on `image::DynamicImage::clone`: the copy is the same image, so
/// it has the same dimensions.
#[verifier::external_body]
pub fn clone_decoded(img: &DecodedImg) -> (r: DecodedImg)
    ensures
        r.width() == img.width(),
        r.height() == img.height(),
{
    DecodedImg { img: img.img.clone(), w: img.w, h: img.h }
}

/// Relies on `image::DynamicImage::thumbnail`: the result is the maximum
/// size that fits within the given bounds while keeping the aspect ratio,
/// with each dimension floored at one pixel.
#[verifier::external_body]
pub fn thumbnail(img: &DecodedImg, max_w: u32, max_h: u32) -> (r: DecodedImg)
    requires
        max_w >= 1,
        max_h >= 1,
    ensures
        1 <= r.width() <= max_w,
        1 <= r.height() <= max_h,
{
    let t = img.img.thumbnail(max_w, max_h);
    let (w, h) = image::GenericImageView::dimensions(&t);
    DecodedImg { img: t, w, h }
}

/// Relies on `image::DynamicImage::thumbnail_exact`: the result has exactly
/// the asked-for dimensions; the aspect ratio is not preserved.
#[verifier::external_body]
pub fn thumbnail_exact(img: &DecodedImg, w: u32, h: u32) -> (r: DecodedImg)
    ensures
        r.width() == w,
        r.height() == h,
{
    let t = img.img.thumbnail_exact(w, h);
    DecodedImg { img: t, w, h }
}

/// Relies on `image::DynamicImage::crop_imm`: a rectangle that lies fully
/// inside the image is cut out exactly.
#[verifier::external_body]
pub fn crop(img: &DecodedImg, x: u32, y: u32, w: u32, h: u32) -> (r: DecodedImg)
    requires
        x + w <= img.width(),
        y + h <= img.height(),
    ensures
        r.width() == w,
        r.height() == h,
{
    let c = img.img.crop_imm(x, y, w, h);
    let (cw, ch) = image::GenericImageView::dimensions(&c);
    DecodedImg { img: c, w: cw, h: ch }
}

/// Relies on `image::DynamicImage::resize` with the Triangle filter: either
/// the size already matched the bounds and the image is returned unchanged,
/// or the result is the maximum size fitting within the bounds while keeping
/// the aspect ratio, each dimension floored at one pixel (a zero bound
/// rounds the scaled size down to that floor).
#[verifier::external_body]
pub fn resize_to_fit(img: &DecodedImg, max_w: u32, max_h: u32) -> (r: DecodedImg)
    ensures
        (img.width() == max_w && img.height() == max_h && r.width() == max_w && r.height()
            == max_h) || (1 <= r.width() <= (
        if max_w == 0 {
            1int
        } else {
            max_w as int
        }) && 1 <= r.height() <= (
        if max_h == 0 {
            1int
        } else {
            max_h as int
        })),
{
    let t = img.img.resize(max_w, max_h, image::imageops::FilterType::Triangle);
    let (w, h) = image::GenericImageView::dimensions(&t);
    DecodedImg { img: t, w, h }
}

/// Relies on `image::DynamicImage::to_luma8` and `ImageBuffer::into_raw`:
/// an 8-bit grayscale buffer holds exactly one byte per pixel, row-major.
#[verifier::external_body]
pub fn to_luma_bytes(img: &DecodedImg) -> (r: Vec<u8>)
    ensures
        r@.len() == img.width() * img.height(),
{
    img.img.to_luma8().into_raw()
}

/// Relies on `image::DynamicImage::to_rgba8` and `ImageBuffer::into_raw`:
/// an 8-bit RGBA buffer holds exactly four bytes per pixel, row-major.
#[verifier::external_body]
pub fn to_rgba_bytes(img: &DecodedImg) -> (r: Vec<u8>)
    ensures
        r@.len() == 4 * img.width() * img.height(),
{
    img.img.to_rgba8().into_raw()
}

/// Relies on `image::DynamicImage::write_to` into an in-memory buffer,
/// which never fails on I/O. For JPEG, `write_to` first converts every
/// pixel type to one the encoder takes, and the encoder then accepts
/// exactly the dimensions from 1 to 65535 on each side; the PNG encoder
/// refuses an empty dimension.
#[verifier::external_body]
pub fn encode_image(img: &DecodedImg, png: bool) -> (r: Result<Vec<u8>, EncodeFailed>)
    ensures
        !png && 1 <= img.width() <= 65535 && 1 <= img.height() <= 65535 ==> r is Ok,
        !png && !(1 <= img.width() <= 65535 && 1 <= img.height() <= 65535) ==> r is Err,
        png && (img.width() == 0 || img.height() == 0) ==> r is Err,
{
    let mut out: Vec<u8> = Vec::new();
    let format = if png {
        image::ImageFormat::Png
    } else {
        image::ImageFormat::Jpeg
    };
    match img.img.write_to(&mut std::io::Cursor::new(&mut out), format) {
        Ok(()) => Ok(out),
        Err(_) => Err(EncodeFailed),
    }
}

} // verus!
