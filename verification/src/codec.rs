//! The `image` crate as the library uses it: every call into it goes through
//! one of the functions here.

use vstd::prelude::*;

verus! {

/// A decoded image of any colour type.
#[verifier::external_type_specification]
#[verifier::external_body]
pub struct ExDynamicImage(image::DynamicImage);

/// An image file format.
#[verifier::external_type_specification]
#[verifier::external_body]
pub struct ExImageFormat(image::ImageFormat);

/// A failure of the `image` crate.
#[verifier::external_type_specification]
#[verifier::external_body]
pub struct ExImageError(image::ImageError);

/// An 8-bit RGB image, row-major.
pub struct RgbPixels {
    /// Columns.
    pub width: u32,
    /// Rows.
    pub height: u32,
    /// `width · height` pixels.
    pub pixels: Vec<[u8; 3]>,
}

impl RgbPixels {
    /// There is one pixel for every place.
    pub open spec fn wf(self) -> bool {
        self.pixels@.len() == self.width * self.height
    }
}

/// The stream begins with the JPEG signature.
pub open spec fn is_jpeg_stream(bytes: Seq<u8>) -> bool {
    bytes.len() >= 3 && bytes[0] == 0xff && bytes[1] == 0xd8 && bytes[2] == 0xff
}

/// JPEG can hold an image of this width and height.
pub open spec fn encodable(size: (u32, u32)) -> bool {
    1 <= size.0 <= 65535 && 1 <= size.1 <= 65535
}

/// The message of a failure.
pub uninterp spec fn error_text(e: image::ImageError) -> Seq<char>;

/// The 8-bit RGB image that `image::load_from_memory` reads from `bytes`, as
/// width, height and pixels.
pub uninterp spec fn loaded_rgb8(bytes: Seq<u8>) -> Result<
    (u32, u32, Seq<[u8; 3]>),
    image::ImageError,
>;

/// The format that `image::guess_format` tells from the first bytes.
pub uninterp spec fn guessed_format(bytes: Seq<u8>) -> Result<
    image::ImageFormat,
    image::ImageError,
>;

/// The format is JPEG.
pub uninterp spec fn is_jpeg_format(format: image::ImageFormat) -> bool;

/// The image that `image::load_from_memory_with_format` reads.
pub uninterp spec fn decoded_image(bytes: Seq<u8>, format: image::ImageFormat) -> Result<
    image::DynamicImage,
    image::ImageError,
>;

/// Width and height of an image.
pub uninterp spec fn image_size(img: image::DynamicImage) -> (u32, u32);

/// The cut-out `width × height` at `(x, y)`.
pub uninterp spec fn cropped_image(
    img: image::DynamicImage,
    x: u32,
    y: u32,
    width: u32,
    height: u32,
) -> image::DynamicImage;

/// The image resampled bilinearly to `width × height`.
pub uninterp spec fn resized_image(
    img: image::DynamicImage,
    width: u32,
    height: u32,
) -> image::DynamicImage;

/// The RGB part of an image as a JPEG stream at `quality`.
pub uninterp spec fn jpeg_stream(img: image::DynamicImage, quality: u8) -> Result<
    Seq<u8>,
    image::ImageError,
>;

/// `image::ImageError`'s `Display` text, which is a function of the error.
#[verifier::external_body]
pub(crate) fn message(e: &image::ImageError) -> (out: String)
    ensures
        out@ == error_text(*e),
{
    e.to_string()
}

/// `image::load_from_memory`, the image then brought to 8-bit RGB by
/// `DynamicImage::into_rgb8` and handed out pixel by pixel, row-major: what
/// it reads, or why it fails, depends on the bytes alone, and there are
/// `width · height` pixels.
#[verifier::external_body]
pub(crate) fn load_rgb8(bytes: &[u8]) -> (r: Result<RgbPixels, image::ImageError>)
    ensures
        r is Ok <==> loaded_rgb8(bytes@) is Ok,
        r is Ok ==> r->Ok_0.wf(),
        r is Ok ==> loaded_rgb8(bytes@)->Ok_0 == (
            r->Ok_0.width,
            r->Ok_0.height,
            r->Ok_0.pixels@,
        ),
        r is Err ==> loaded_rgb8(bytes@)->Err_0 == r->Err_0,
{
    let img = image::load_from_memory(bytes)?.into_rgb8();
    let pixels = img.pixels().map(|p| p.0).collect();
    Ok(RgbPixels { width: img.width(), height: img.height(), pixels })
}

/// `image::guess_format`: goes by the first bytes alone. Of the signatures it
/// knows only JPEG's is `FF D8 FF`, and it is not shadowed by an earlier one,
/// so such a stream is always told to be JPEG and no other ever is.
#[verifier::external_body]
pub(crate) fn guess_format(bytes: &[u8]) -> (r: Result<image::ImageFormat, image::ImageError>)
    ensures
        r == guessed_format(bytes@),
        is_jpeg_stream(bytes@) ==> r is Ok,
        r is Ok ==> is_jpeg_format(r->Ok_0) == is_jpeg_stream(bytes@),
{
    image::guess_format(bytes)
}

/// Compares a format with `image::ImageFormat::Jpeg`.
#[verifier::external_body]
pub(crate) fn is_jpeg(format: &image::ImageFormat) -> (b: bool)
    ensures
        b == is_jpeg_format(*format),
{
    *format == image::ImageFormat::Jpeg
}

/// `image::load_from_memory_with_format`: what it reads, or why it fails,
/// depends on the bytes and the format alone.
#[verifier::external_body]
pub(crate) fn decode(bytes: &[u8], format: image::ImageFormat) -> (r: Result<
    image::DynamicImage,
    image::ImageError,
>)
    ensures
        r == decoded_image(bytes@, format),
{
    image::load_from_memory_with_format(bytes, format)
}

/// `image::DynamicImage::width` and `height`.
#[verifier::external_body]
pub(crate) fn dimensions(img: &image::DynamicImage) -> (r: (u32, u32))
    ensures
        r == image_size(*img),
{
    (img.width(), img.height())
}

/// `image::DynamicImage::crop_imm`: a cut-out that lies inside the image has
/// the size that was asked for.
#[verifier::external_body]
pub(crate) fn crop(img: &image::DynamicImage, x: u32, y: u32, width: u32, height: u32) -> (r:
    image::DynamicImage)
    requires
        x + width <= image_size(*img).0,
        y + height <= image_size(*img).1,
    ensures
        r == cropped_image(*img, x, y, width, height),
        image_size(r) == (width, height),
{
    img.crop_imm(x, y, width, height)
}

/// `image::DynamicImage::resize_exact` with the `Triangle` (bilinear) filter:
/// the result has the size that was asked for. A size whose pixels no buffer
/// could hold is left out.
#[verifier::external_body]
pub(crate) fn resize(img: &image::DynamicImage, width: u32, height: u32) -> (r:
    image::DynamicImage)
    requires
        width <= 256,
        height <= 256,
    ensures
        r == resized_image(*img, width, height),
        image_size(r) == (width, height),
{
    img.resize_exact(width, height, image::imageops::FilterType::Triangle)
}

/// `JpegEncoder::encode_image` of the image's RGB part (`to_rgb8`): the
/// stream depends on the image and the quality alone, and starts with the
/// JPEG signature. Only an image with an edge of zero or of more than 65535
/// pixels is refused.
#[verifier::external_body]
pub(crate) fn encode(img: &image::DynamicImage, quality: u8) -> (r: Result<
    Vec<u8>,
    image::ImageError,
>)
    ensures
        r is Ok <==> jpeg_stream(*img, quality) is Ok,
        r is Ok <==> encodable(image_size(*img)),
        r is Ok ==> r->Ok_0@ == jpeg_stream(*img, quality)->Ok_0,
        r is Ok ==> is_jpeg_stream(r->Ok_0@),
        r is Err ==> jpeg_stream(*img, quality)->Err_0 == r->Err_0,
{
    let mut out = Vec::new();
    let mut encoder = image::codecs::jpeg::JpegEncoder::new_with_quality(&mut out, quality);
    encoder.encode_image(&img.to_rgb8())?;
    Ok(out)
}

} // verus!
