use lenscrust::histogram::compute_histogram;
use lenscrust::raster::{ColorFormat, Image};

fn luma_bt601(r: u8, g: u8, b: u8) -> u8 {
    (r as f64 * 0.299 + g as f64 * 0.587 + b as f64 * 0.114).round() as u8
}

fn gray_image(width: u32, height: u32, pixels: &[u8]) -> Image {
    let pixels: Vec<[u8; 4]> = pixels.iter().map(|&p| [p, p, p, 255]).collect();
    Image::from_pixels(width, height, ColorFormat::L8, pixels).unwrap()
}

fn rgb_image(width: u32, height: u32, pixels: &[[u8; 3]]) -> Image {
    let pixels: Vec<[u8; 4]> = pixels.iter().map(|p| [p[0], p[1], p[2], 255]).collect();
    Image::from_pixels(width, height, ColorFormat::Rgb8, pixels).unwrap()
}

#[test]
fn compute_histogram_counts_each_tone() {
    let image = gray_image(4, 1, &[10, 10, 200, 10]);
    let histogram = compute_histogram(&image, &luma_bt601);
    assert_eq!(histogram[10], 3);
    assert_eq!(histogram[200], 1);
    assert_eq!(histogram.iter().sum::<u32>(), 4);
}

#[test]
fn compute_histogram_converts_color_images_to_grayscale_first() {
    // luminance(255, 0, 0) = round(0.299 * 255) = 76
    let image = rgb_image(1, 1, &[[255, 0, 0]]);
    let histogram = compute_histogram(&image, &luma_bt601);
    assert_eq!(histogram[76], 1);
    assert_eq!(histogram.iter().sum::<u32>(), 1);
}

// --- further cases ---

#[test]
fn compute_histogram_of_an_empty_image_is_all_zero() {
    let image = Image::new(0, 0, ColorFormat::Rgb8);
    let histogram = compute_histogram(&image, &luma_bt601);
    assert!(histogram.iter().all(|&c| c == 0));
}

#[test]
fn compute_histogram_leaves_the_image_unchanged() {
    let image = rgb_image(2, 1, &[[1, 2, 3], [4, 5, 6]]);
    let before = image.to_rgba8();
    let histogram = compute_histogram(&image, &luma_bt601);
    assert_eq!(image.to_rgba8(), before);
    assert_eq!(histogram.iter().sum::<u32>(), 2);
}
