//! Decoding image files.
//!
//! The file's format is chosen from its extension; the `image` crate decodes
//! the bytes, and its decoded pixels, read as 8-bit RGBA samples, become an
//! `Image` in the storage format that the decoder reports.
use image::GenericImageView;
use vstd::prelude::*;
use vstd::string::StringSliceAdditionalSpecFns;
use crate::raster::{lemma_same_as_equal, uniform_flags_of, ColorFormat, Image, ImageView};
use crate::saving::equal_ignoring_ascii_case;

verus! {

/// The file formats that can be decoded.
#[derive(Clone, Copy, PartialEq, Eq, Structural, Debug)]
pub enum FileFormat {
    Png,
    Jpeg,
}

/// The format that a file extension names, in any case: `png` and `apng` name
/// PNG; `jpg`, `jpeg` and `jfif` name JPEG.
pub open spec fn format_named_by(extension: Seq<u8>) -> Option<FileFormat> {
    if equal_ignoring_ascii_case(extension, seq![0x70u8, 0x6eu8, 0x67u8])
        || equal_ignoring_ascii_case(extension, seq![0x61u8, 0x70u8, 0x6eu8, 0x67u8]) {
        Some(FileFormat::Png)
    } else if equal_ignoring_ascii_case(extension, seq![0x6au8, 0x70u8, 0x67u8])
        || equal_ignoring_ascii_case(extension, seq![0x6au8, 0x70u8, 0x65u8, 0x67u8])
        || equal_ignoring_ascii_case(extension, seq![0x6au8, 0x66u8, 0x69u8, 0x66u8]) {
        Some(FileFormat::Jpeg)
    } else {
        None
    }
}

/// The format of a file with this extension; `None` for an extension that
/// names no format that can be decoded.
pub fn file_format_from_extension(extension: &str) -> (format: Option<FileFormat>)
    ensures
        format == format_named_by(extension.spec_bytes()),
{
    let bytes = extension.as_bytes();
    let png: [u8; 3] = [0x70, 0x6e, 0x67];
    let apng: [u8; 4] = [0x61, 0x70, 0x6e, 0x67];
    let jpg: [u8; 3] = [0x6a, 0x70, 0x67];
    let jpeg: [u8; 4] = [0x6a, 0x70, 0x65, 0x67];
    let jfif: [u8; 4] = [0x6a, 0x66, 0x69, 0x66];
    assert(png@ =~= seq![0x70u8, 0x6eu8, 0x67u8]);
    assert(apng@ =~= seq![0x61u8, 0x70u8, 0x6eu8, 0x67u8]);
    assert(jpg@ =~= seq![0x6au8, 0x70u8, 0x67u8]);
    assert(jpeg@ =~= seq![0x6au8, 0x70u8, 0x65u8, 0x67u8]);
    assert(jfif@ =~= seq![0x6au8, 0x66u8, 0x69u8, 0x66u8]);
    if crate::saving::equal_ignoring_case(bytes, png.as_slice())
        || crate::saving::equal_ignoring_case(bytes, apng.as_slice()) {
        Some(FileFormat::Png)
    } else if crate::saving::equal_ignoring_case(bytes, jpg.as_slice())
        || crate::saving::equal_ignoring_case(bytes, jpeg.as_slice())
        || crate::saving::equal_ignoring_case(bytes, jfif.as_slice()) {
        Some(FileFormat::Jpeg)
    } else {
        None
    }
}

#[verifier::external_type_specification]
#[verifier::external_body]
pub struct ExImageError(image::ImageError);

/// What the decoder reports for a file: its size, whether its storage format
/// has color, whether it has alpha, how many bytes a stored pixel takes, and
/// its pixels, row after row, as 8-bit RGBA samples.
pub struct DecodedPixels {
    pub width: u32,
    pub height: u32,
    pub has_color: bool,
    pub has_alpha: bool,
    pub bytes_per_pixel: u8,
    pub pixels: Vec<[u8; 4]>,
}

/// What `image::load_from_memory_with_format` decodes from `bytes` in
/// `format` (see `DecodedPixels`); `None` when it reports an error.
pub uninterp spec fn decoded_pixels(bytes: Seq<u8>, format: FileFormat) -> Option<
    (u32, u32, bool, bool, u8, Seq<[u8; 4]>),
>;

/// Decodes `bytes` as `format` with `image::load_from_memory_with_format`, and
/// reads the result's size, its color type's `has_color`, `has_alpha` and
/// `bytes_per_pixel`, and its pixels through `GenericImageView::pixels`. The
/// contract claims that the call succeeds exactly when `decoded_pixels` is
/// `Some`, and then returns that value; what the decoder computes is not
/// stated.
#[verifier::external_body]
fn decode_pixels(bytes: &[u8], format: FileFormat) -> (decoded: Result<DecodedPixels, image::ImageError>)
    ensures
        decoded is Ok <==> decoded_pixels(bytes@, format) is Some,
        decoded matches Ok(d) ==> decoded_pixels(bytes@, format) == Some(
            (d.width, d.height, d.has_color, d.has_alpha, d.bytes_per_pixel, d.pixels@),
        ),
{
    let format = match format {
        FileFormat::Png => image::ImageFormat::Png,
        FileFormat::Jpeg => image::ImageFormat::Jpeg,
    };
    let decoded = image::load_from_memory_with_format(bytes, format)?;
    let (width, height, color) = (decoded.width(), decoded.height(), decoded.color());
    let pixels = decoded.pixels().map(|(_, _, pixel)| pixel.0).collect();
    let (has_color, has_alpha, bytes_per_pixel) =
        (color.has_color(), color.has_alpha(), color.bytes_per_pixel());
    Ok(DecodedPixels { width, height, has_color, has_alpha, bytes_per_pixel, pixels })
}

/// The storage format with these traits: gray or color, with or without
/// alpha, and this many bytes per stored pixel.
pub open spec fn format_with(has_color: bool, has_alpha: bool, bytes_per_pixel: u8) -> Option<ColorFormat> {
    if !has_color && !has_alpha && bytes_per_pixel == 1 {
        Some(ColorFormat::L8)
    } else if !has_color && has_alpha && bytes_per_pixel == 2 {
        Some(ColorFormat::La8)
    } else if has_color && !has_alpha && bytes_per_pixel == 3 {
        Some(ColorFormat::Rgb8)
    } else if has_color && has_alpha && bytes_per_pixel == 4 {
        Some(ColorFormat::Rgba8)
    } else if !has_color && !has_alpha && bytes_per_pixel == 2 {
        Some(ColorFormat::L16)
    } else if !has_color && has_alpha && bytes_per_pixel == 4 {
        Some(ColorFormat::La16)
    } else if has_color && !has_alpha && bytes_per_pixel == 6 {
        Some(ColorFormat::Rgb16)
    } else if has_color && has_alpha && bytes_per_pixel == 8 {
        Some(ColorFormat::Rgba16)
    } else if has_color && !has_alpha && bytes_per_pixel == 12 {
        Some(ColorFormat::Rgb32F)
    } else if has_color && has_alpha && bytes_per_pixel == 16 {
        Some(ColorFormat::Rgba32F)
    } else {
        None
    }
}

pub fn format_of(has_color: bool, has_alpha: bool, bytes_per_pixel: u8) -> (format: Option<ColorFormat>)
    ensures
        format == format_with(has_color, has_alpha, bytes_per_pixel),
{
    match (has_color, has_alpha, bytes_per_pixel) {
        (false, false, 1) => Some(ColorFormat::L8),
        (false, true, 2) => Some(ColorFormat::La8),
        (true, false, 3) => Some(ColorFormat::Rgb8),
        (true, true, 4) => Some(ColorFormat::Rgba8),
        (false, false, 2) => Some(ColorFormat::L16),
        (false, true, 4) => Some(ColorFormat::La16),
        (true, false, 6) => Some(ColorFormat::Rgb16),
        (true, true, 8) => Some(ColorFormat::Rgba16),
        (true, false, 12) => Some(ColorFormat::Rgb32F),
        (true, true, 16) => Some(ColorFormat::Rgba32F),
        _ => None,
    }
}

/// The image whose pixels, row after row, are `pixels`, if there are
/// `width * height` of them and each can be stored in `format`.
pub open spec fn image_of_pixels(width: u32, height: u32, format: ColorFormat, pixels: Seq<[u8; 4]>) -> Option<
    ImageView,
> {
    if pixels.len() == width * height && forall|i: int|
        0 <= i < pixels.len() ==> format.holds(#[trigger] pixels[i]) {
        Some(
            ImageView {
                width: width as nat,
                height: height as nat,
                format,
                rows: Seq::new(height as nat, |y: int| Seq::new(width as nat, |x: int| pixels[y * width + x])),
                kept: uniform_flags_of(width as nat, height as nat, true),
            },
        )
    } else {
        None
    }
}

/// The image decoded from a file's bytes in `format`: what the decoder
/// reports, in the storage format it names; `None` when the bytes do not
/// decode, or when what the decoder reports is not an image of that format.
pub open spec fn decoded_image(bytes: Seq<u8>, format: FileFormat) -> Option<ImageView> {
    match decoded_pixels(bytes, format) {
        Some((width, height, has_color, has_alpha, bytes_per_pixel, pixels)) => match format_with(
            has_color,
            has_alpha,
            bytes_per_pixel,
        ) {
            Some(color) => image_of_pixels(width, height, color, pixels),
            None => None,
        },
        None => None,
    }
}

/// Why a file could not be decoded.
pub enum DecodeError {
    /// The decoder reported an error.
    Undecodable(image::ImageError),
    /// The decoder's result is not an image of the storage format it names.
    UnexpectedPixels,
}

proof fn lemma_image_of_pixels_wf(width: u32, height: u32, format: ColorFormat, pixels: Seq<[u8; 4]>)
    requires
        image_of_pixels(width, height, format, pixels) is Some,
    ensures
        image_of_pixels(width, height, format, pixels).unwrap().wf(),
{
    let v = image_of_pixels(width, height, format, pixels).unwrap();
    assert forall|x: int, y: int| 0 <= x < v.width && 0 <= y < v.height implies format.holds(
        #[trigger] v.rows[y][x],
    ) by {
        assert(0 <= y * width + x < width * height) by (nonlinear_arith)
            requires 0 <= x < width, 0 <= y < height;
    }
}

/// Decodes an image file's bytes in the given format.
pub fn decode_image(bytes: &[u8], format: FileFormat) -> (img: Result<Image, DecodeError>)
    ensures
        img is Ok <==> decoded_image(bytes@, format) is Some,
        img matches Ok(i) ==> decoded_image(bytes@, format) == Some(i@),
        img matches Err(DecodeError::Undecodable(_)) <==> decoded_pixels(bytes@, format) is None,
{
    match decode_pixels(bytes, format) {
        Err(error) => Err(DecodeError::Undecodable(error)),
        Ok(decoded) => {
            let ghost seen = decoded.pixels@;
            match format_of(decoded.has_color, decoded.has_alpha, decoded.bytes_per_pixel) {
                None => Err(DecodeError::UnexpectedPixels),
                Some(color) => match Image::from_pixels(decoded.width, decoded.height, color, decoded.pixels) {
                    None => Err(DecodeError::UnexpectedPixels),
                    Some(img) => {
                        let _ = img.width();
                        proof {
                            let v = image_of_pixels(decoded.width, decoded.height, color, seen).unwrap();
                            lemma_image_of_pixels_wf(decoded.width, decoded.height, color, seen);
                            assert(img@.same_as(v));
                            lemma_same_as_equal(img@, v);
                        }
                        Ok(img)
                    },
                },
            }
        },
    }
}

/// Bytes that one sample takes in a storage format.
pub open spec fn sample_size(f: ColorFormat) -> int {
    match f {
        ColorFormat::L8 | ColorFormat::La8 | ColorFormat::Rgb8 | ColorFormat::Rgba8 => 1,
        ColorFormat::L16 | ColorFormat::La16 | ColorFormat::Rgb16 | ColorFormat::Rgba16 => 2,
        ColorFormat::Rgb32F | ColorFormat::Rgba32F => 4,
    }
}

/// Samples per pixel in a storage format: one gray or three color samples,
/// and one more for alpha.
pub open spec fn sample_count(f: ColorFormat) -> int {
    (if f.spec_is_gray() { 1int } else { 3int }) + (if f.spec_has_alpha() { 1int } else { 0int })
}

/// The storage format that a decoder's color type names has the traits of
/// that color type: color exactly when it has color, alpha exactly when it has
/// alpha, and as many bytes per pixel.
pub proof fn a_named_format_has_the_traits_of_its_color_type(
    has_color: bool,
    has_alpha: bool,
    bytes_per_pixel: u8,
)
    ensures
        format_with(has_color, has_alpha, bytes_per_pixel) matches Some(f) ==> {
            &&& f.spec_is_gray() == !has_color
            &&& f.spec_has_alpha() == has_alpha
            &&& sample_count(f) * sample_size(f) == bytes_per_pixel
        },
{
}

/// Every storage format is named by the color type with its traits, so a
/// decoded image of any of them (an 8-bit RGBA one among them) is read in
/// that very format.
pub proof fn every_format_is_named_by_its_color_type(f: ColorFormat)
    ensures
        format_with(!f.spec_is_gray(), f.spec_has_alpha(), (sample_count(f) * sample_size(f)) as u8)
            == Some(f),
{
}

} // verus!
