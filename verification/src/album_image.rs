//! Target sizes for scaled images, and where an album image is read from.

use vstd::prelude::*;
use crate::text::{chars_of, push_str, str_eq, string_of};
use fast_image_resize::{ResizeOptions, Resizer};
use image::{DynamicImage, ImageBuffer, ImageFormat};

verus! {

/// The two named image sizes.
pub enum Sizes {
    Big,
    Small,
}

/// A bounding box: width, then height, in pixels.
#[derive(Debug, Clone, Copy)]
pub struct Size(pub u32, pub u32);

/// The bounding box of a named size: 1000x800 for big, 600x600 for small.
pub fn get_size(size: Sizes) -> (r: Size)
    ensures
        size is Big ==> r.0 == 1000 && r.1 == 800,
        size is Small ==> r.0 == 600 && r.1 == 600,
{
    match size {
        Sizes::Big => Size(1000, 800),
        _ => Size(600, 600),
    }
}

/// The size a request asks for by its label: `"big"` is big, anything else is small.
pub fn size_for_label(label: &str) -> (r: Size)
    ensures
        label@ == "big"@ ==> r.0 == 1000 && r.1 == 800,
        label@ != "big"@ ==> r.0 == 600 && r.1 == 600,
{
    if str_eq(label, "big") {
        get_size(Sizes::Big)
    } else {
        get_size(Sizes::Small)
    }
}

/// `"{base}/{album}/{img}"`.
pub open spec fn image_source_text(base: Seq<char>, album: Seq<char>, img: Seq<char>) -> Seq<char> {
    base + seq!['/'] + album + seq!['/'] + img
}

/// The file an album image is read from before it is scaled.
pub fn image_source_path(base: &str, album: &str, img: &str) -> (r: String)
    ensures
        r@ == image_source_text(base@, album@, img@),
{
    let mut v = chars_of(base);
    v.push('/');
    push_str(&mut v, album);
    v.push('/');
    push_str(&mut v, img);
    string_of(&v)
}

} // verus!

verus! {

// ---------------------------------------------------------------------------
// Scaling and encoding images
// ---------------------------------------------------------------------------

#[verifier::external_type_specification]
#[verifier::external_body]
pub struct ExDynamicImage(DynamicImage);

/// The layout of an image's samples: grey, grey with alpha, RGB or RGBA, with
/// 8- or 16-bit samples.
#[derive(Debug, Clone, Copy, PartialEq, Eq, Structural)]
pub enum PixelKind {
    L8,
    La8,
    Rgb8,
    Rgba8,
    L16,
    La16,
    Rgb16,
    Rgba16,
}

/// A decoded image: width and height in pixels, sample layout, and the samples
/// row by row (16-bit samples in the machine's byte order).
pub struct RawImage {
    pub width: u32,
    pub height: u32,
    pub color: PixelKind,
    pub pixels: Vec<u8>,
}

/// The plain value of a raw image.
pub open spec fn image_value(img: RawImage) -> (u32, u32, PixelKind, Seq<u8>) {
    (img.width, img.height, img.color, img.pixels@)
}

/// Bytes per pixel of a sample layout.
pub open spec fn bytes_per_pixel(c: PixelKind) -> nat {
    match c {
        PixelKind::L8 => 1,
        PixelKind::La8 => 2,
        PixelKind::Rgb8 => 3,
        PixelKind::Rgba8 => 4,
        PixelKind::L16 => 2,
        PixelKind::La16 => 4,
        PixelKind::Rgb16 => 6,
        PixelKind::Rgba16 => 8,
    }
}

/// The samples fill the image exactly: `width * height` pixels of the layout's size.
pub open spec fn fills(w: u32, h: u32, c: PixelKind, pixels: Seq<u8>) -> bool {
    pixels.len() == w * h * bytes_per_pixel(c)
}

impl RawImage {
    /// A well-formed image: its samples fill it exactly.
    pub open spec fn wf(self) -> bool {
        fills(self.width, self.height, self.color, self.pixels@)
    }
}

/// The working buffers for scaling a `w` by `h` image to at most `tw` by `th`
/// (source, target and the passes between them, up to 8 bytes a pixel) can be
/// addressed; beyond that the scaling code's buffer arithmetic overflows.
pub open spec fn buffers_fit(w: u32, h: u32, tw: u32, th: u32) -> bool {
    (w + tw) * (h + th) * 8 <= usize::MAX
}

/// Whether the working buffers of a scaling fit (see `buffers_fit`).
pub fn check_buffers_fit(w: u32, h: u32, tw: u32, th: u32) -> (r: bool)
    ensures
        r == buffers_fit(w, h, tw, th),
{
    let a: u128 = w as u128 + tw as u128;
    let b: u128 = h as u128 + th as u128;
    assert(a * b * 8 <= 0x3_ffff_ffff_ffff_ffff_ffff) by (nonlinear_arith)
        requires
            a <= 0x1_ffff_fffe,
            b <= 0x1_ffff_fffe,
    ;
    a * b * 8 <= usize::MAX as u128
}

/// Whether an image is well formed (see `RawImage::wf`).
pub fn check_filled(img: &RawImage) -> (r: bool)
    ensures
        r == img.wf(),
{
    let per: u128 = match img.color {
        PixelKind::L8 => 1,
        PixelKind::La8 => 2,
        PixelKind::Rgb8 => 3,
        PixelKind::Rgba8 => 4,
        PixelKind::L16 => 2,
        PixelKind::La16 => 4,
        PixelKind::Rgb16 => 6,
        PixelKind::Rgba16 => 8,
    };
    let w: u128 = img.width as u128;
    let h: u128 = img.height as u128;
    assert(w * h * per <= 0x8_0000_0000_0000_0000) by (nonlinear_arith)
        requires
            w <= 0xffff_ffff,
            h <= 0xffff_ffff,
            per <= 8,
    ;
    img.pixels.len() as u128 == w * h * per
}

/// Moves a raw image's 8-bit samples into the `image` crate's buffer of the same
/// layout; none when the samples do not fill the image. Conversion only.
#[verifier::external_body]
fn dynamic_of(img: &RawImage) -> Option<DynamicImage> {
    let (w, h, p) = (img.width, img.height, img.pixels.clone());
    match img.color {
        PixelKind::L8 => Some(DynamicImage::ImageLuma8(ImageBuffer::from_raw(w, h, p)?)),
        PixelKind::La8 => Some(DynamicImage::ImageLumaA8(ImageBuffer::from_raw(w, h, p)?)),
        PixelKind::Rgb8 => Some(DynamicImage::ImageRgb8(ImageBuffer::from_raw(w, h, p)?)),
        PixelKind::Rgba8 => Some(DynamicImage::ImageRgba8(ImageBuffer::from_raw(w, h, p)?)),
        _ => wide_dynamic_of(img),
    }
}

/// Moves a raw image's 16-bit samples (read in the machine's byte order) into the
/// `image` crate's buffer of the same layout; none when the samples do not fill
/// the image. Conversion only.
#[verifier::external_body]
fn wide_dynamic_of(img: &RawImage) -> Option<DynamicImage> {
    let (w, h) = (img.width, img.height);
    let q: Vec<u16> = img.pixels.chunks_exact(2).map(|c| u16::from_ne_bytes([c[0], c[1]])).collect();
    match img.color {
        PixelKind::L16 => Some(DynamicImage::ImageLuma16(ImageBuffer::from_raw(w, h, q)?)),
        PixelKind::La16 => Some(DynamicImage::ImageLumaA16(ImageBuffer::from_raw(w, h, q)?)),
        PixelKind::Rgb16 => Some(DynamicImage::ImageRgb16(ImageBuffer::from_raw(w, h, q)?)),
        PixelKind::Rgba16 => Some(DynamicImage::ImageRgba16(ImageBuffer::from_raw(w, h, q)?)),
        _ => None,
    }
}

/// Copies the `image` crate's picture out as a raw image: its size, layout and
/// sample bytes; none for float layouts. Conversion only.
#[verifier::external_body]
fn raw_of(img: &DynamicImage) -> Option<RawImage> {
    let color = match img {
        DynamicImage::ImageLuma8(_) => PixelKind::L8,
        DynamicImage::ImageLumaA8(_) => PixelKind::La8,
        DynamicImage::ImageRgb8(_) => PixelKind::Rgb8,
        DynamicImage::ImageRgba8(_) => PixelKind::Rgba8,
        DynamicImage::ImageLuma16(_) => PixelKind::L16,
        DynamicImage::ImageLumaA16(_) => PixelKind::La16,
        DynamicImage::ImageRgb16(_) => PixelKind::Rgb16,
        DynamicImage::ImageRgba16(_) => PixelKind::Rgba16,
        _ => return None,
    };
    Some(RawImage { width: img.width(), height: img.height(), color, pixels: img.as_bytes().to_vec() })
}

/// The image the `image` crate decodes from file content, its format told by the file's extension.
pub uninterp spec fn decoded_image_as(bytes: Seq<u8>, path: Seq<char>) -> Option<(u32, u32, PixelKind, Seq<u8>)>;

/// Calls `image::ImageFormat::from_path` and `image::load_from_memory_with_format`;
/// claimed: the result is the named decoded image of the bytes for that path, none
/// when the extension names no format, the bytes do not decode, or the layout is a
/// float one; a decoded image's samples fill it (the decoder allocates exactly
/// `width * height * bytes_per_pixel`).
#[verifier::external_body]
fn decode_by_extension(bytes: &[u8], path: &str) -> (r: Option<RawImage>)
    ensures
        match r {
            Some(img) => decoded_image_as(bytes@, path@) == Some(image_value(img)) && img.wf(),
            None => decoded_image_as(bytes@, path@) is None,
        },
{
    let format = ImageFormat::from_path(path).ok()?;
    raw_of(&image::load_from_memory_with_format(bytes, format).ok()?)
}

/// The image the `image` crate decodes from file content, its format guessed from the content.
pub uninterp spec fn decoded_image(bytes: Seq<u8>) -> Option<(u32, u32, PixelKind, Seq<u8>)>;

/// Calls `image::load_from_memory`; claimed: the result is the named decoded image
/// of the bytes, none when they do not decode or the layout is a float one; a
/// decoded image's samples fill it.
#[verifier::external_body]
fn decode_guessed(bytes: &[u8]) -> (r: Option<RawImage>)
    ensures
        match r {
            Some(img) => decoded_image(bytes@) == Some(image_value(img)) && img.wf(),
            None => decoded_image(bytes@) is None,
        },
{
    raw_of(&image::load_from_memory(bytes).ok()?)
}

/// The samples `fast_image_resize` computes when it scales an image of the given
/// samples, size and layout to exactly `tw` by `th` with its default options.
pub uninterp spec fn resized_pixels(pixels: Seq<u8>, w: u32, h: u32, color: PixelKind, tw: u32, th: u32) -> Seq<u8>;

/// Calls `fast_image_resize::Resizer::resize` from the image into a new
/// `DynamicImage::new(tw, th, color)`; claimed: a well-formed image always scales
/// (`resize` fails only on unlike or unsupported pixel types, and does nothing on a
/// zero size); the result has exactly that size and the source's layout, its
/// samples are the named resized ones and fill it. The `requires` rules out the
/// buffer sizes on which the allocation or the crate's arithmetic overflows.
#[verifier::external_body]
fn resize_exact(img: &RawImage, tw: u32, th: u32) -> (r: Option<RawImage>)
    requires
        buffers_fit(img.width, img.height, tw, th),
    ensures
        img.wf() ==> r is Some,
        r matches Some(o) ==> o.width == tw && o.height == th && o.color == img.color && o.wf()
            && o.pixels@ == resized_pixels(img.pixels@, img.width, img.height, img.color, tw, th),
{
    let src = dynamic_of(img)?;
    let mut dst = DynamicImage::new(tw, th, src.color());
    Resizer::new().resize(&src, &mut dst, &ResizeOptions::new()).ok()?;
    raw_of(&dst)
}

/// Width, height and samples of the image the `image` crate makes when it scales an
/// image to fit a bounding box with its aspect ratio kept (Lanczos3 filter).
pub uninterp spec fn fitted_image(pixels: Seq<u8>, w: u32, h: u32, color: PixelKind, bw: u32, bh: u32) -> (u32, u32, Seq<u8>);

/// Calls `DynamicImage::resize` with the Lanczos3 filter; claimed: a well-formed
/// image always scales, to a well-formed image of the same layout whose size and
/// samples are the named fitted ones; as the crate documents, the result is the
/// largest that fits the box with the aspect ratio kept, so for non-empty image and
/// box it fits inside the box and touches it on one side. The `requires` rules out
/// the buffer sizes on which the allocation overflows.
#[verifier::external_body]
fn resize_to_fit(img: &RawImage, bw: u32, bh: u32) -> (r: Option<RawImage>)
    requires
        buffers_fit(img.width, img.height, bw, bh),
    ensures
        img.wf() ==> r is Some,
        r matches Some(o) ==> (img.wf() ==> o.wf()),
        r matches Some(o) ==> o.color == img.color && (o.width, o.height, o.pixels@) == fitted_image(
            img.pixels@,
            img.width,
            img.height,
            img.color,
            bw,
            bh,
        ),
        r matches Some(o) ==> (img.width > 0 && img.height > 0 && bw > 0 && bh > 0 ==> o.width <= bw
            && o.height <= bh && (o.width == bw || o.height == bh)),
{
    raw_of(&dynamic_of(img)?.resize(bw, bh, image::imageops::FilterType::Lanczos3))
}

/// The JPEG file the `image` crate writes for an image.
pub uninterp spec fn jpeg_bytes(pixels: Seq<u8>, w: u32, h: u32, color: PixelKind) -> Seq<u8>;

/// Calls `DynamicImage::write_to` with `ImageFormat::Jpeg` into memory; claimed: it
/// succeeds exactly when width and height are both between 1 and 65535 (the JPEG
/// encoder's size check; `write_to` first converts other layouts to grey or RGB, and
/// writing to memory does not fail), and the bytes written are the named JPEG file
/// of the image. The `requires` rules out the buffer-length assertion of the encoder.
#[verifier::external_body]
fn write_jpeg(img: &RawImage) -> (r: Option<Vec<u8>>)
    requires
        img.wf(),
    ensures
        r is Some <==> (1 <= img.width <= 65535 && 1 <= img.height <= 65535),
        r matches Some(b) ==> b@ == jpeg_bytes(img.pixels@, img.width, img.height, img.color),
{
    let mut out = std::io::Cursor::new(Vec::new());
    dynamic_of(img)?.write_to(&mut out, ImageFormat::Jpeg).ok()?;
    Some(out.into_inner())
}

/// An image scaled to exactly the given size, keeping its layout; a well-formed
/// image always scales.
pub fn scale_image(img: &RawImage, size: Size) -> (r: Option<RawImage>)
    requires
        buffers_fit(img.width, img.height, size.0, size.1),
    ensures
        img.wf() ==> r is Some,
        r matches Some(o) ==> o.width == size.0 && o.height == size.1 && o.color == img.color && o.wf()
            && o.pixels@ == resized_pixels(img.pixels@, img.width, img.height, img.color, size.0, size.1),
{
    resize_exact(img, size.0, size.1)
}

/// The image in a file (its content `file_bytes`, its format told by the path's
/// extension), scaled to exactly the given size. None when it does not decode, and
/// none where the scaling's working buffers could not be addressed (there the
/// scaling code's buffer arithmetic overflows).
pub fn resize_image_path(file: &str, file_bytes: &[u8], size: Size) -> (r: Option<RawImage>)
    ensures
        r is Some <==> (decoded_image_as(file_bytes@, file@) matches Some((w, h, c, p)) && buffers_fit(
            w,
            h,
            size.0,
            size.1,
        )),
        r matches Some(o) ==> (decoded_image_as(file_bytes@, file@) matches Some((w, h, c, p)) && o.width
            == size.0 && o.height == size.1 && o.color == c && o.wf() && o.pixels@ == resized_pixels(
            p,
            w,
            h,
            c,
            size.0,
            size.1,
        )),
{
    match decode_by_extension(file_bytes, file) {
        Some(img) => {
            if check_buffers_fit(img.width, img.height, size.0, size.1) {
                scale_image(&img, size)
            } else {
                None
            }
        },
        None => None,
    }
}

/// The image in file content (format guessed from the content), scaled to fit the
/// given size with its aspect ratio kept: inside the box and touching it on one
/// side. None when it does not decode, and none where the scaling's working buffers
/// could not be addressed (there the scaling code's buffer arithmetic overflows).
pub fn resize_image_img(file_bytes: &[u8], size: Size) -> (r: Option<RawImage>)
    ensures
        r is Some <==> (decoded_image(file_bytes@) matches Some((w, h, c, p)) && buffers_fit(
            w,
            h,
            size.0,
            size.1,
        )),
        r matches Some(o) ==> (decoded_image(file_bytes@) matches Some((w, h, c, p)) && o.color == c
            && o.wf() && (o.width, o.height, o.pixels@) == fitted_image(p, w, h, c, size.0, size.1)),
        r matches Some(o) ==> (decoded_image(file_bytes@) matches Some((w, h, c, p)) && (w > 0 && h > 0
            && size.0 > 0 && size.1 > 0 ==> o.width <= size.0 && o.height <= size.1 && (o.width
            == size.0 || o.height == size.1))),
{
    match decode_guessed(file_bytes) {
        Some(img) => {
            if check_buffers_fit(img.width, img.height, size.0, size.1) {
                resize_to_fit(&img, size.0, size.1)
            } else {
                None
            }
        },
        None => None,
    }
}

/// The JPEG file of an image: none when its samples do not fill it, or when a side
/// is 0 or longer than 65535 pixels.
pub fn encode_jpeg(img: &RawImage) -> (r: Option<Vec<u8>>)
    ensures
        r is Some <==> (img.wf() && 1 <= img.width <= 65535 && 1 <= img.height <= 65535),
        r matches Some(b) ==> b@ == jpeg_bytes(img.pixels@, img.width, img.height, img.color),
{
    if check_filled(img) {
        write_jpeg(img)
    } else {
        None
    }
}

} // verus!
