use std::io::Cursor;

use image::{DynamicImage, GrayImage, ImageBuffer, ImageFormat, Luma, Rgb, RgbImage};
use lenscrust::codec::{decode_image, file_format_from_extension, DecodeError, FileFormat};
use lenscrust::raster::ColorFormat;

fn encoded(image: DynamicImage, format: ImageFormat) -> Vec<u8> {
    let mut bytes = Cursor::new(Vec::new());
    image.write_to(&mut bytes, format).unwrap();
    bytes.into_inner()
}

#[test]
fn extensions_name_their_formats_in_any_case() {
    assert_eq!(file_format_from_extension("png"), Some(FileFormat::Png));
    assert_eq!(file_format_from_extension("APNG"), Some(FileFormat::Png));
    assert_eq!(file_format_from_extension("Jpg"), Some(FileFormat::Jpeg));
    assert_eq!(file_format_from_extension("jpeg"), Some(FileFormat::Jpeg));
    assert_eq!(file_format_from_extension("JFIF"), Some(FileFormat::Jpeg));
    assert_eq!(file_format_from_extension("gif"), None);
    assert_eq!(file_format_from_extension(""), None);
    assert_eq!(file_format_from_extension("pngx"), None);
}

#[test]
fn decoding_a_color_png_gives_its_pixels() {
    let mut source = RgbImage::new(2, 1);
    source.put_pixel(0, 0, Rgb([10, 20, 30]));
    source.put_pixel(1, 0, Rgb([40, 50, 60]));
    let bytes = encoded(DynamicImage::ImageRgb8(source), ImageFormat::Png);
    let image = match decode_image(&bytes, FileFormat::Png) {
        Ok(image) => image,
        Err(_) => panic!("a PNG must decode"),
    };
    assert_eq!((image.width(), image.height()), (2, 1));
    assert_eq!(image.format(), ColorFormat::Rgb8);
    assert_eq!(image.to_rgba8(), vec![[10, 20, 30, 255], [40, 50, 60, 255]]);
}

#[test]
fn decoding_a_gray_png_gives_a_gray_image() {
    let mut source = GrayImage::new(1, 2);
    source.put_pixel(0, 0, Luma([7]));
    source.put_pixel(0, 1, Luma([200]));
    let bytes = encoded(DynamicImage::ImageLuma8(source), ImageFormat::Png);
    let image = decode_image(&bytes, FileFormat::Png).ok().unwrap();
    assert_eq!(image.format(), ColorFormat::L8);
    assert_eq!(image.to_rgba8(), vec![[7, 7, 7, 255], [200, 200, 200, 255]]);
}

#[test]
fn decoding_a_sixteen_bit_png_reads_its_eight_bit_view() {
    let source: ImageBuffer<Luma<u16>, Vec<u16>> = ImageBuffer::from_pixel(1, 1, Luma([0xffff]));
    let bytes = encoded(DynamicImage::ImageLuma16(source), ImageFormat::Png);
    let image = decode_image(&bytes, FileFormat::Png).ok().unwrap();
    assert_eq!(image.format(), ColorFormat::L16);
    assert_eq!(image.get_pixel(0, 0), [255, 255, 255, 255]);
    assert!(image.is_kept(0, 0));
}

#[test]
fn bytes_that_are_not_an_image_do_not_decode() {
    let result = decode_image(&[1, 2, 3, 4], FileFormat::Png);
    assert!(matches!(result, Err(DecodeError::Undecodable(_))));
    let result = decode_image(&[], FileFormat::Jpeg);
    assert!(matches!(result, Err(DecodeError::Undecodable(_))));
}

#[test]
fn a_png_read_as_jpeg_does_not_decode() {
    let bytes = encoded(DynamicImage::ImageLuma8(GrayImage::new(1, 1)), ImageFormat::Png);
    assert!(decode_image(&bytes, FileFormat::Jpeg).is_err());
}
