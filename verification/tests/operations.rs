use lenscrust::saving::is_jpeg_extension;
use lenscrust::convolution::Kernel;
use lenscrust::operations::Edit;
use lenscrust::raster::{ColorFormat, Image};

fn gray_weighted(r: u8, g: u8, b: u8) -> u8 {
    (r as f64 * 0.299 + g as f64 * 0.587 + b as f64 * 0.114).round() as u8
}

fn bin_index(tone: u8, min_tone: u8, range: u16, levels: u16) -> i64 {
    let bin_width = range as f64 / levels as f64;
    ((tone as f64 - (min_tone as f64 - 0.5)) / bin_width).floor() as i64
}

fn bin_tone(bin: i64, min_tone: u8, range: u16, levels: u16) -> u8 {
    let bin_width = range as f64 / levels as f64;
    ((min_tone as f64 - 0.5) + (bin as f64 + 0.5) * bin_width).round() as u8
}

fn color(width: u32, height: u32, pixels: &[[u8; 3]]) -> Image {
    let pixels: Vec<[u8; 4]> = pixels.iter().map(|p| [p[0], p[1], p[2], 255]).collect();
    Image::from_pixels(width, height, ColorFormat::Rgb8, pixels).unwrap()
}

#[test]
fn quantize_edit_turns_the_image_gray_first() {
    let mut img = color(4, 1, &[[0, 0, 0], [1, 1, 1], [2, 2, 2], [3, 3, 3]]);
    Edit::Quantize(2).apply(&mut img, &gray_weighted, &bin_index, &bin_tone);
    assert_eq!(img.format(), ColorFormat::L8);
    let tones: Vec<u8> = img.to_rgba8().iter().map(|p| p[0]).collect();
    assert_eq!(tones, vec![1, 1, 3, 3]);
}

#[test]
fn rotate_edit_turns_the_image() {
    let mut img = color(2, 1, &[[1, 1, 1], [2, 2, 2]]);
    Edit::RotateClockwise.apply(&mut img, &gray_weighted, &bin_index, &bin_tone);
    assert_eq!((img.width(), img.height()), (1, 2));
    assert_eq!(img.get_pixel(0, 1), [2, 2, 2, 255]);
}

#[test]
fn convolve_edit_with_gaussian_keeps_color() {
    let mut img = color(3, 3, &[[10, 20, 30]; 9]);
    Edit::Convolve(Kernel::gaussian_low_pass()).apply(&mut img, &gray_weighted, &bin_index, &bin_tone);
    assert_eq!(img.format(), ColorFormat::Rgb8);
}

#[test]
fn zoom_out_edit_averages_windows() {
    let mut img = color(2, 2, &[[0, 0, 0], [4, 4, 4], [8, 8, 8], [12, 12, 12]]);
    let edit = Edit::ZoomOut { columns: vec![(0, 2)], rows: vec![(0, 2)] };
    edit.apply(&mut img, &gray_weighted, &bin_index, &bin_tone);
    assert_eq!(img.get_pixel(0, 0), [6, 6, 6, 255]);
}

#[test]
fn new_images_are_black_and_transparent_where_there_is_alpha() {
    let img = Image::new(2, 1, ColorFormat::Rgba8);
    assert_eq!(img.get_pixel(1, 0), [0, 0, 0, 0]);
    let img = Image::new(1, 1, ColorFormat::Rgb8);
    assert_eq!(img.get_pixel(0, 0), [0, 0, 0, 255]);
}

#[test]
fn from_pixels_refuses_wrong_counts_and_unfit_pixels() {
    assert!(Image::from_pixels(2, 2, ColorFormat::Rgb8, vec![[0, 0, 0, 255]; 3]).is_none());
    assert!(Image::from_pixels(1, 1, ColorFormat::L8, vec![[1, 2, 3, 255]]).is_none());
    assert!(Image::from_pixels(1, 1, ColorFormat::Rgb8, vec![[1, 2, 3, 4]]).is_none());
    assert!(Image::from_pixels(1, 1, ColorFormat::Rgba8, vec![[1, 2, 3, 4]]).is_some());
}

#[test]
fn jpeg_extensions_are_recognized_in_any_case() {
    assert!(is_jpeg_extension("jpg"));
    assert!(is_jpeg_extension("JPEG"));
    assert!(is_jpeg_extension("JpG"));
    assert!(!is_jpeg_extension("png"));
    assert!(!is_jpeg_extension("jpgx"));
    assert!(!is_jpeg_extension(""));
}
