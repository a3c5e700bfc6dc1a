use std::collections::HashSet;

use lenscrust::point::{luminance, quantize};
use lenscrust::raster::{ColorFormat, Image};

/// ITU-R BT.601 luma, rounded half away from zero.
fn bt601(r: u8, g: u8, b: u8) -> u8 {
    (r as f64 * 0.299 + g as f64 * 0.587 + b as f64 * 0.114).round() as u8
}

fn bin_of(tone: u8, min_tone: u8, range: u16, levels: u16) -> i64 {
    let bin_width = range as f64 / levels as f64;
    ((tone as f64 - (min_tone as f64 - 0.5)) / bin_width).floor() as i64
}

fn tone_of(bin: i64, min_tone: u8, range: u16, levels: u16) -> u8 {
    let bin_width = range as f64 / levels as f64;
    ((min_tone as f64 - 0.5) + (bin as f64 + 0.5) * bin_width).round() as u8
}

fn make_rgb(width: u32, height: u32, pixels: &[[u8; 3]]) -> Image {
    let pixels: Vec<[u8; 4]> = pixels.iter().map(|p| [p[0], p[1], p[2], 255]).collect();
    Image::from_pixels(width, height, ColorFormat::Rgb8, pixels).unwrap()
}

fn make_gray(width: u32, height: u32, pixels: &[u8]) -> Image {
    let pixels: Vec<[u8; 4]> = pixels.iter().map(|&p| [p, p, p, 255]).collect();
    Image::from_pixels(width, height, ColorFormat::L8, pixels).unwrap()
}

#[test]
fn luminance_applies_bt601_formula() {
    let mut img = make_rgb(2, 2, &[[255, 0, 0], [0, 255, 0], [0, 0, 255], [255, 255, 255]]);
    luminance(&mut img, &bt601);
    let gray = img.as_luma8().expect("image should be grayscale");
    assert_eq!(gray.get_pixel(0, 0)[0], 76);
    assert_eq!(gray.get_pixel(1, 0)[0], 150);
    assert_eq!(gray.get_pixel(0, 1)[0], 29);
    assert_eq!(gray.get_pixel(1, 1)[0], 255);
}

#[test]
fn luminance_is_noop_on_already_grayscale() {
    let mut img = make_gray(2, 1, &[10, 20]);
    luminance(&mut img, &bt601);
    let gray = img.as_luma8().unwrap();
    assert_eq!(gray.get_pixel(0, 0)[0], 10);
    assert_eq!(gray.get_pixel(1, 0)[0], 20);
}

#[test]
fn quantize_noop_when_levels_cover_full_range() {
    let mut img = make_gray(2, 1, &[20, 10]);
    quantize(&mut img, 11, &bin_of, &tone_of);
    let gray = img.as_luma8().unwrap();
    assert_eq!(gray.get_pixel(0, 0)[0], 20);
    assert_eq!(gray.get_pixel(1, 0)[0], 10);
}

#[test]
fn quantize_produces_at_most_requested_levels() {
    let pixels: Vec<u8> = (0..16).map(|x| (x * 17) as u8).collect();
    let mut img = make_gray(16, 1, &pixels);
    quantize(&mut img, 4, &bin_of, &tone_of);
    let gray = img.as_luma8().unwrap();
    let distinct: HashSet<u8> = gray.to_rgba8().iter().map(|p| p[0]).collect();
    assert!(distinct.len() <= 4);
}

#[test]
fn quantize_tracks_min_even_when_first_pixel_is_the_minimum() {
    let mut img = make_gray(2, 1, &[10, 200]);
    quantize(&mut img, 200, &bin_of, &tone_of); // tone_range_size = 191, levels(200) >= it -> no-op
    let gray = img.as_luma8().unwrap();
    assert_eq!(gray.get_pixel(0, 0)[0], 10);
    assert_eq!(gray.get_pixel(1, 0)[0], 200);
}

// --- further cases ---

#[test]
fn luminance_drops_alpha_and_keeps_gray_with_alpha() {
    let pixels = vec![[255, 0, 0, 7]];
    let mut color = Image::from_pixels(1, 1, ColorFormat::Rgba8, pixels).unwrap();
    luminance(&mut color, &bt601);
    assert_eq!(color.format(), ColorFormat::L8);
    assert_eq!(color.get_pixel(0, 0), [76, 76, 76, 255]);

    let mut gray_alpha = Image::from_pixels(1, 1, ColorFormat::La8, vec![[5, 5, 5, 9]]).unwrap();
    luminance(&mut gray_alpha, &bt601);
    assert_eq!(gray_alpha.format(), ColorFormat::La8);
    assert_eq!(gray_alpha.get_pixel(0, 0), [5, 5, 5, 9]);
}

#[test]
fn luminance_twice_is_luminance_once() {
    let mut once = make_rgb(2, 1, &[[1, 2, 3], [200, 100, 50]]);
    luminance(&mut once, &bt601);
    let mut twice = once.duplicate();
    luminance(&mut twice, &bt601);
    assert_eq!(once.to_rgba8(), twice.to_rgba8());
}

#[test]
fn quantize_maps_tones_into_levels_bins() {
    // tones 0..=3, two levels: bin width 2, bins {0,1} -> 1 (0.5 rounds up), {2,3} -> 3 (2.5 rounds up)
    let mut img = make_gray(4, 1, &[0, 1, 2, 3]);
    quantize(&mut img, 2, &bin_of, &tone_of);
    let tones: Vec<u8> = img.to_rgba8().iter().map(|p| p[0]).collect();
    assert_eq!(tones, vec![1, 1, 3, 3]);
}

#[test]
fn quantize_to_one_level_makes_a_single_tone() {
    let mut img = make_gray(3, 1, &[10, 20, 30]);
    quantize(&mut img, 1, &bin_of, &tone_of);
    let distinct: HashSet<u8> = img.to_rgba8().iter().map(|p| p[0]).collect();
    assert_eq!(distinct.len(), 1);
    assert!(distinct.contains(&20));
}
