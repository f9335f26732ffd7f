//! The images of the `image` crate, as far as the library reads them, and
//! the encodings they travel in.

use base64::engine::general_purpose;
use base64::Engine;
use image::imageops::FilterType;
use image::{DynamicImage, GenericImageView, ImageError, ImageFormat};
use vstd::prelude::*;

verus! {

/// An image of the `image` crate, whatever its color type.
#[verifier::external_type_specification]
#[verifier::external_body]
pub struct ExDynamicImage(DynamicImage);

/// An error of the `image` crate.
#[verifier::external_type_specification]
#[verifier::external_body]
pub struct ExImageError(ImageError);

/// An error of the base64 decoder.
#[verifier::external_type_specification]
#[verifier::external_body]
pub struct ExDecodeError(base64::DecodeError);

/// A pixel as the synthesizers read it: red, green, blue, alpha.
pub type Rgba = (u8, u8, u8, u8);

/// The columns and rows of an image.
pub uninterp spec fn image_size(image: DynamicImage) -> (u32, u32);

/// The pixels of an image, row by row.
pub uninterp spec fn image_pixels(image: DynamicImage) -> Seq<Rgba>;

/// The bytes of an image once converted to 8-bit RGBA.
pub uninterp spec fn image_rgba(image: DynamicImage) -> Seq<u8>;

/// What `DynamicImage::rotate90` makes of an image.
pub uninterp spec fn rotated_image(image: DynamicImage) -> DynamicImage;

/// What `DynamicImage::resize_exact` makes of an image with the nearest
/// neighbor filter.
pub uninterp spec fn nearest_image(image: DynamicImage, width: u32, height: u32) -> DynamicImage;

/// True of the images that `DynamicImage::resize` makes of an image with the
/// Lanczos filter.
pub uninterp spec fn fits_from(
    image: DynamicImage,
    width: u32,
    height: u32,
    resized: DynamicImage,
) -> bool;

/// True of the images that `image::load_from_memory` makes of a file.
pub uninterp spec fn decodes_to(bytes: Seq<u8>, image: DynamicImage) -> bool;

/// True of the files that `image::load_from_memory` refuses.
pub uninterp spec fn refuses(bytes: Seq<u8>) -> bool;

/// What `DynamicImage::brighten` makes of an image.
pub uninterp spec fn brightened_image(image: DynamicImage, value: i32) -> DynamicImage;

/// True of the images whose samples are floating-point numbers.
pub uninterp spec fn has_float_samples(image: DynamicImage) -> bool;

/// The bytes that the buffer of an image holds.
pub uninterp spec fn buffer_length(image: DynamicImage) -> usize;

/// The bytes that a pixel of an image takes in its buffer.
pub uninterp spec fn pixel_length(image: DynamicImage) -> u8;

/// The PNG file of an image; `None` where it cannot be encoded.
pub uninterp spec fn image_png(image: DynamicImage) -> Option<Seq<u8>>;

/// The standard base64 text of some bytes.
pub uninterp spec fn base64_text(bytes: Seq<u8>) -> Seq<char>;

/// The bytes that a standard base64 text stands for; `None` where it is not
/// one.
pub uninterp spec fn base64_bytes(text: Seq<char>) -> Option<Seq<u8>>;

/// The pixel of an image in column `x`, row `y`.
pub open spec fn pixel_spec(image: DynamicImage, x: int, y: int) -> Rgba {
    image_pixels(image)[y * image_size(image).0 + x]
}

/// True when the buffer of an image holds its pixels and nothing more.
pub open spec fn exact_buffer(image: DynamicImage) -> bool {
    buffer_length(image) == pixel_length(image) * (image_size(image).0 * image_size(image).1)
}

/// The longest side up to which a filter places its pixels exactly: halves of
/// a pixel are exact in single precision.
pub const LONGEST_FILTERED_SIDE: u32 = 0x80_0000;

/// The longest buffer that a file is decoded into, in bytes: the allocation
/// limit of the `image` crate, which `image::load_from_memory` keeps to.
pub const LONGEST_DECODED_BUFFER: usize = 0x2000_0000;

/// True when two images have the same size and show the same pixels.
pub open spec fn same_picture(a: DynamicImage, b: DynamicImage) -> bool {
    &&& image_size(a) == image_size(b)
    &&& forall|x: int, y: int|
        0 <= x < image_size(b).0 && 0 <= y < image_size(b).1 ==> #[trigger] pixel_spec(a, x, y)
            == pixel_spec(b, x, y)
}

/// True when a buffer for an image of this size is no larger than a vector
/// can be.
pub open spec fn buffer_fits(bytes_per_pixel: int, width: int, height: int) -> bool {
    bytes_per_pixel * (width * height) <= isize::MAX
}

/// Tells whether a buffer for an image of this size is no larger than a
/// vector can be.
pub fn can_hold(bytes_per_pixel: u8, width: u32, height: u32) -> (possible: bool)
    ensures
        possible == buffer_fits(bytes_per_pixel as int, width as int, height as int),
{
    assert(0 <= width * height <= 0xffff_ffff * 0xffff_ffff) by (nonlinear_arith)
        requires
            0 <= width <= 0xffff_ffff,
            0 <= height <= 0xffff_ffff,
    ;
    let pixels: u128 = width as u128 * height as u128;
    assert(0 <= bytes_per_pixel * pixels <= 255 * (0xffff_ffff * 0xffff_ffff)) by (nonlinear_arith)
        requires
            0 <= bytes_per_pixel <= 255,
            0 <= pixels <= 0xffff_ffff * 0xffff_ffff,
    ;
    bytes_per_pixel as u128 * pixels <= isize::MAX as u128
}

/// Calls `DynamicImage::dimensions`: the width and height of the image. The
/// buffer of an image holds at least one element per pixel, so that their
/// number fits.
#[verifier::external_body]
pub(crate) fn image_dimensions(image: &DynamicImage) -> (size: (u32, u32))
    ensures
        size == image_size(*image),
        size.0 * size.1 <= usize::MAX,
{
    image.dimensions()
}

/// Calls `DynamicImage::as_bytes`: the length of the buffer, which may be
/// longer than the pixels need.
#[verifier::external_body]
fn buffer_len(image: &DynamicImage) -> (length: usize)
    ensures
        length == buffer_length(*image),
{
    image.as_bytes().len()
}

/// Calls `DynamicImage::color` and `ColorType::bytes_per_pixel`.
#[verifier::external_body]
fn pixel_len(image: &DynamicImage) -> (length: u8)
    ensures
        length == pixel_length(*image),
{
    image.color().bytes_per_pixel()
}

/// Tells whether the buffer of an image holds its pixels and nothing more.
pub fn has_exact_buffer(image: &DynamicImage) -> (exact: bool)
    ensures
        exact == exact_buffer(*image),
{
    let (width, height) = image_dimensions(image);
    assert(0 <= width * height <= 0xffff_ffff * 0xffff_ffff) by (nonlinear_arith)
        requires
            0 <= width <= 0xffff_ffff,
            0 <= height <= 0xffff_ffff,
    ;
    let pixels: u128 = width as u128 * height as u128;
    let each: u8 = pixel_len(image);
    assert(0 <= each * pixels <= 255 * (0xffff_ffff * 0xffff_ffff)) by (nonlinear_arith)
        requires
            0 <= each <= 255,
            0 <= pixels <= 0xffff_ffff * 0xffff_ffff,
    ;
    buffer_len(image) as u128 == each as u128 * pixels
}

/// Calls `DynamicImage::get_pixel`, which panics outside the image: one
/// pixel, converted to 8-bit RGBA.
#[verifier::external_body]
pub(crate) fn pixel_at(image: &DynamicImage, x: u32, y: u32) -> (pixel: Rgba)
    requires
        x < image_size(*image).0,
        y < image_size(*image).1,
    ensures
        pixel == image_pixels(*image)[y * image_size(*image).0 + x],
{
    let pixel = image.get_pixel(x, y);
    (pixel[0], pixel[1], pixel[2], pixel[3])
}

/// Calls `DynamicImage::clone`: the same image.
#[verifier::external_body]
pub(crate) fn copy_image(image: &DynamicImage) -> (copy: DynamicImage)
    ensures
        copy == *image,
{
    image.clone()
}

/// Calls `DynamicImage::to_rgba8`, and hands out the bytes of the result: four
/// per pixel, unless the buffer of the image is longer than its pixels.
#[verifier::external_body]
pub(crate) fn rgba_bytes(image: &DynamicImage) -> (bytes: Vec<u8>)
    requires
        buffer_fits(4, image_size(*image).0 as int, image_size(*image).1 as int),
    ensures
        bytes@ == image_rgba(*image),
        exact_buffer(*image) ==> bytes@.len() == 4 * (image_size(*image).0 * image_size(*image).1),
{
    image.to_rgba8().into_raw()
}

/// Calls `DynamicImage::rotate90`: a clockwise quarter turn. The pixel in
/// column `x`, row `y` of an image of `h` rows comes to column `h - 1 - y`,
/// row `x`. The result has a buffer of its own.
#[verifier::external_body]
pub(crate) fn rotate90(image: &DynamicImage) -> (rotated: DynamicImage)
    ensures
        rotated == rotated_image(*image),
        exact_buffer(rotated),
        image_size(rotated) == (image_size(*image).1, image_size(*image).0),
        forall|x: int, y: int|
            0 <= x < image_size(*image).0 && 0 <= y < image_size(*image).1 ==> pixel_spec(
                rotated,
                image_size(*image).1 - 1 - y,
                x,
            ) == #[trigger] pixel_spec(*image, x, y),
{
    image.rotate90()
}

/// Calls `imageops::crop_imm` and `SubImage::to_image`: an 8-bit RGBA image
/// of the pixels inside the rectangle.
#[verifier::external_body]
pub(crate) fn crop_imm(image: &DynamicImage, x: u32, y: u32, width: u32, height: u32) -> (cropped:
    DynamicImage)
    requires
        x + width <= image_size(*image).0,
        y + height <= image_size(*image).1,
        buffer_fits(4, width as int, height as int),
    ensures
        image_size(cropped) == (width, height),
        exact_buffer(cropped),
        forall|column: int, row: int|
            0 <= column < width && 0 <= row < height ==> #[trigger] pixel_spec(cropped, column, row)
                == pixel_spec(*image, x + column, y + row),
{
    DynamicImage::ImageRgba8(image::imageops::crop_imm(image, x, y, width, height).to_image())
}

/// Calls `DynamicImage::resize_exact` with the nearest neighbor filter: an
/// image of exactly the given size, with a buffer of its own. Buffers of the
/// old width or the new one times the new height are needed on the way.
#[verifier::external_body]
pub(crate) fn resize_nearest(image: &DynamicImage, width: u32, height: u32) -> (resized:
    DynamicImage)
    requires
        buffer_fits(16, image_size(*image).0 as int, height as int),
        buffer_fits(16, width as int, height as int),
    ensures
        resized == nearest_image(*image, width, height),
        image_size(resized) == (width, height),
        exact_buffer(resized),
{
    image.resize_exact(width, height, FilterType::Nearest)
}

/// Calls `DynamicImage::resize` with the Lanczos filter: the image scaled,
/// its aspect ratio kept, to the largest size within the bounds; one that has
/// that size already is copied, its buffer too. The filter evaluates sines in
/// single precision, so the pixels that come out may differ from one machine
/// to another. It places the pixels in single precision as well, and panics
/// where it finds none around a place; up to the longest side it is asked for
/// here a place is off by less than a pixel.
#[verifier::external_body]
pub(crate) fn resize_to_fit(image: &DynamicImage, width: u32, height: u32) -> (resized:
    DynamicImage)
    requires
        width > 0,
        height > 0,
        image_size(*image).0 <= LONGEST_FILTERED_SIDE,
        image_size(*image).1 <= LONGEST_FILTERED_SIDE,
        width <= LONGEST_FILTERED_SIDE,
        height <= LONGEST_FILTERED_SIDE,
        buffer_fits(16, image_size(*image).0 as int, height as int),
        buffer_fits(16, width as int, height as int),
    ensures
        fits_from(*image, width, height, resized),
        exact_buffer(*image) ==> exact_buffer(resized),
        1 <= image_size(resized).0 <= width,
        1 <= image_size(resized).1 <= height,
{
    image.resize(width, height, FilterType::Lanczos3)
}

/// Tells the floating-point variants of `DynamicImage` from the others.
#[verifier::external_body]
pub(crate) fn float_samples(image: &DynamicImage) -> (float: bool)
    ensures
        float == has_float_samples(*image),
{
    matches!(image, DynamicImage::ImageRgb32F(_) | DynamicImage::ImageRgba32F(_))
}

/// Calls `DynamicImage::brighten`: an image of the same size. It adds the
/// value to each sample as a 32-bit integer, where a sample of 16 bits is the
/// largest; a floating-point sample need not be one. The result has a buffer
/// of its own.
#[verifier::external_body]
pub(crate) fn brighten(image: &DynamicImage, value: i32) -> (brightened: DynamicImage)
    requires
        value + 65535 <= i32::MAX,
        !has_float_samples(*image),
    ensures
        brightened == brightened_image(*image, value),
        image_size(brightened) == image_size(*image),
        exact_buffer(brightened),
{
    image.brighten(value)
}

/// Calls `DynamicImage::write_to` for a PNG file in memory. The file holds
/// the samples as they are, whether of 8 or of 16 bits (floating-point ones
/// are refused), and says which they are, so whatever it is decoded to has
/// them in a buffer of their length, shows the same pixels, and is encoded to
/// the same file again. It is refused only where that buffer would be longer
/// than the decoder is allowed. The encoder panics on a buffer that is longer
/// than the pixels.
#[verifier::external_body]
pub(crate) fn png_bytes(image: &DynamicImage) -> (png: Result<Vec<u8>, ImageError>)
    requires
        exact_buffer(*image),
    ensures
        png matches Ok(bytes) ==> image_png(*image) == Some(bytes@),
        png matches Ok(bytes) ==> forall|decoded: DynamicImage| #[trigger]
            decodes_to(bytes@, decoded) ==> {
                &&& same_picture(decoded, *image)
                &&& exact_buffer(decoded)
                &&& image_png(decoded) == Some(bytes@)
            },
        png matches Ok(bytes) ==> buffer_length(*image) <= LONGEST_DECODED_BUFFER ==> !refuses(
            bytes@,
        ),
        png is Err ==> image_png(*image) is None,
{
    let mut buffer = std::io::Cursor::new(Vec::new());
    image.write_to(&mut buffer, ImageFormat::Png)?;
    Ok(buffer.into_inner())
}

/// Calls `image::load_from_memory`, which guesses the format of the file
/// from its first bytes and hands it to the decoder of that format. Some of
/// the decoders pick their arithmetic by what the processor offers, so one
/// file may decode to more than one image. Whether it is refused rests on its
/// bytes: on the format that they show, on what the decoder finds in them,
/// and on a fixed limit on the memory that decoding them takes. A decoding
/// hook could change that; the library registers none.
#[verifier::external_body]
pub(crate) fn load_from_memory(bytes: &[u8]) -> (image: Result<DynamicImage, ImageError>)
    ensures
        image matches Ok(image) ==> decodes_to(bytes@, image),
        image is Err <==> refuses(bytes@),
{
    image::load_from_memory(bytes)
}

/// Calls `ImageError::to_string`: a message for the user, of which nothing is
/// stated.
#[verifier::external_body]
pub(crate) fn image_error_text(error: &ImageError) -> (text: String) {
    error.to_string()
}

/// Calls `Engine::encode` on the standard base64 engine.
#[verifier::external_body]
pub(crate) fn encode_base64(bytes: &[u8]) -> (text: String)
    ensures
        text@ == base64_text(bytes@),
        base64_bytes(text@) == Some(bytes@),
{
    general_purpose::STANDARD.encode(bytes)
}

/// Calls `Engine::decode` on the standard base64 engine. It gives back the
/// bytes of a text that the same engine encoded.
#[verifier::external_body]
pub(crate) fn decode_base64(text: &str) -> (bytes: Result<Vec<u8>, base64::DecodeError>)
    ensures
        bytes matches Ok(bytes) ==> base64_bytes(text@) == Some(bytes@),
        bytes is Err ==> base64_bytes(text@) is None,
        forall|original: Seq<u8>| #[trigger]
            base64_text(original) == text@ ==> (bytes matches Ok(bytes) && bytes@ == original),
{
    general_purpose::STANDARD.decode(text)
}

/// Calls `DecodeError::to_string`: a message for the user, of which nothing
/// is stated.
#[verifier::external_body]
pub(crate) fn decode_error_text(error: &base64::DecodeError) -> (text: String) {
    error.to_string()
}

} // verus!
