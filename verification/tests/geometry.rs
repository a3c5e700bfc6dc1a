use lenscrust::geometry::{
    mirror_horizontal, mirror_vertical, rotate_90_clockwise, rotate_90_counterclockwise, zoom_in,
    zoom_out,
};
use lenscrust::raster::{ColorFormat, Image};

fn make_rgb_image(width: u32, height: u32, pixels: &[[u8; 3]]) -> Image {
    let pixels: Vec<[u8; 4]> = pixels.iter().map(|p| [p[0], p[1], p[2], 255]).collect();
    Image::from_pixels(width, height, ColorFormat::Rgb8, pixels).unwrap()
}

fn make_gray_image(width: u32, height: u32, pixels: &[u8]) -> Image {
    let pixels: Vec<[u8; 4]> = pixels.iter().map(|&p| [p, p, p, 255]).collect();
    Image::from_pixels(width, height, ColorFormat::L8, pixels).unwrap()
}

/// The source windows of zooming out by a factor along an axis of `length`
/// pixels: `ceil(length / factor)` windows, window `k` spanning
/// `floor(k * factor) ..< min(floor((k + 1) * factor), length)`.
fn windows(length: u32, factor: f64) -> Vec<(u32, u32)> {
    let count = (length as f64 / factor).ceil() as u32;
    (0..count)
        .map(|k| {
            let start = (k as f64 * factor).floor() as u32;
            let end = (((k + 1) as f64 * factor).floor() as u32).min(length);
            (start, end)
        })
        .collect()
}

fn zoom_out_by(image: &mut Image, factor_x: f64, factor_y: f64) {
    let columns = windows(image.width(), factor_x);
    let rows = windows(image.height(), factor_y);
    zoom_out(image, &columns, &rows);
}

fn make_rotation_test_grid() -> Image {
    make_rgb_image(
        2,
        3,
        &[[1, 1, 1], [2, 2, 2], [3, 3, 3], [4, 4, 4], [5, 5, 5], [6, 6, 6]],
    )
}

#[test]
fn mirror_horizontal_reverses_rows() {
    let mut img = make_rgb_image(
        3,
        2,
        &[[1, 1, 1], [2, 2, 2], [3, 3, 3], [4, 4, 4], [5, 5, 5], [6, 6, 6]],
    );
    mirror_horizontal(&mut img);
    let expected = make_rgb_image(
        3,
        2,
        &[[3, 3, 3], [2, 2, 2], [1, 1, 1], [6, 6, 6], [5, 5, 5], [4, 4, 4]],
    );
    assert_eq!(img.to_rgba8(), expected.to_rgba8());
}

#[test]
fn mirror_horizontal_twice_is_identity() {
    let original = make_rgb_image(
        3,
        2,
        &[[1, 1, 1], [2, 2, 2], [3, 3, 3], [4, 4, 4], [5, 5, 5], [6, 6, 6]],
    );
    let mut img = original.duplicate();
    mirror_horizontal(&mut img);
    mirror_horizontal(&mut img);
    assert_eq!(img.to_rgba8(), original.to_rgba8());
}

#[test]
fn mirror_vertical_reverses_columns() {
    let mut img = make_rgb_image(
        2,
        3,
        &[[1, 1, 1], [2, 2, 2], [3, 3, 3], [4, 4, 4], [5, 5, 5], [6, 6, 6]],
    );
    mirror_vertical(&mut img);
    let expected = make_rgb_image(
        2,
        3,
        &[[5, 5, 5], [6, 6, 6], [3, 3, 3], [4, 4, 4], [1, 1, 1], [2, 2, 2]],
    );
    assert_eq!(img.to_rgba8(), expected.to_rgba8());
}

#[test]
fn mirror_vertical_twice_is_identity() {
    let original = make_rgb_image(
        2,
        3,
        &[[1, 1, 1], [2, 2, 2], [3, 3, 3], [4, 4, 4], [5, 5, 5], [6, 6, 6]],
    );
    let mut img = original.duplicate();
    mirror_vertical(&mut img);
    mirror_vertical(&mut img);
    assert_eq!(img.to_rgba8(), original.to_rgba8());
}

#[test]
fn rotate_90_clockwise_transforms_dimensions_and_pixels() {
    let mut img = make_rotation_test_grid();
    rotate_90_clockwise(&mut img);

    assert_eq!((img.width(), img.height()), (3, 2));
    let expected = make_rgb_image(
        3,
        2,
        &[[5, 5, 5], [3, 3, 3], [1, 1, 1], [6, 6, 6], [4, 4, 4], [2, 2, 2]],
    );
    assert_eq!(img.to_rgba8(), expected.to_rgba8());
}

#[test]
fn rotate_90_counterclockwise_transforms_dimensions_and_pixels() {
    let mut img = make_rotation_test_grid();
    rotate_90_counterclockwise(&mut img);

    assert_eq!((img.width(), img.height()), (3, 2));
    let expected = make_rgb_image(
        3,
        2,
        &[[2, 2, 2], [4, 4, 4], [6, 6, 6], [1, 1, 1], [3, 3, 3], [5, 5, 5]],
    );
    assert_eq!(img.to_rgba8(), expected.to_rgba8());
}

#[test]
fn rotating_clockwise_four_times_is_identity() {
    let original = make_rotation_test_grid();
    let mut img = original.duplicate();
    for _ in 0..4 {
        rotate_90_clockwise(&mut img);
    }
    assert_eq!(
        (img.width(), img.height()),
        (original.width(), original.height())
    );
    assert_eq!(img.to_rgba8(), original.to_rgba8());
}

#[test]
fn rotating_clockwise_then_counterclockwise_is_identity() {
    let original = make_rotation_test_grid();
    let mut img = original.duplicate();
    rotate_90_clockwise(&mut img);
    rotate_90_counterclockwise(&mut img);
    assert_eq!(
        (img.width(), img.height()),
        (original.width(), original.height())
    );
    assert_eq!(img.to_rgba8(), original.to_rgba8());
}

#[test]
fn zoom_out_averages_windows_and_handles_a_partial_last_window() {
    // width 5, factor 2.0 -> windows [0,2), [2,4), [4,5) (partial)
    let mut img = make_gray_image(5, 1, &[0, 10, 20, 30, 40]);
    zoom_out_by(&mut img, 2.0, 1.0);

    assert_eq!((img.width(), img.height()), (3, 1));
    let gray_image = img.as_luma8().unwrap();
    assert_eq!(gray_image.get_pixel(0, 0)[0], 5); // avg(0, 10)
    assert_eq!(gray_image.get_pixel(1, 0)[0], 25); // avg(20, 30)
    assert_eq!(gray_image.get_pixel(2, 0)[0], 40); // avg(40) alone
}

#[test]
fn zoom_out_averages_each_color_channel_independently() {
    let mut img = make_rgb_image(2, 1, &[[10, 20, 30], [30, 40, 50]]);
    zoom_out_by(&mut img, 2.0, 1.0);

    assert_eq!((img.width(), img.height()), (1, 1));
    let p = img.get_pixel(0, 0);
    assert_eq!([p[0], p[1], p[2]], [20, 30, 40]);
}

#[test]
fn zoom_out_supports_different_factors_per_axis() {
    let mut img = make_gray_image(6, 4, &[0; 24]);
    zoom_out_by(&mut img, 3.0, 2.0);
    assert_eq!((img.width(), img.height()), (2, 2));
}

#[test]
fn zoom_in_interpolates_a_linear_ramp_in_both_directions() {
    // a linear ramp interpolates back to itself: value(x, y) = 5*x + 15*y
    let mut img = make_gray_image(3, 3, &[0, 10, 20, 30, 40, 50, 60, 70, 80]);
    zoom_in(&mut img);

    assert_eq!((img.width(), img.height()), (5, 5));
    let expected = make_gray_image(
        5,
        5,
        &[
            0, 5, 10, 15, 20, //
            15, 20, 25, 30, 35, //
            30, 35, 40, 45, 50, //
            45, 50, 55, 60, 65, //
            60, 65, 70, 75, 80, //
        ],
    );
    assert_eq!(img.to_rgba8(), expected.to_rgba8());
}

#[test]
fn zoom_in_interpolates_each_color_channel_independently() {
    let mut img = make_rgb_image(2, 1, &[[10, 20, 30], [50, 60, 70]]);
    zoom_in(&mut img);

    assert_eq!((img.width(), img.height()), (3, 1));
    let expected = make_rgb_image(3, 1, &[[10, 20, 30], [30, 40, 50], [50, 60, 70]]);
    assert_eq!(img.to_rgba8(), expected.to_rgba8());
}

#[test]
fn zoom_in_output_dimensions_match_the_two_minus_one_rule() {
    let mut img = make_gray_image(4, 2, &[0; 8]);
    zoom_in(&mut img);
    assert_eq!((img.width(), img.height()), (7, 3));
}

// --- further cases ---

#[test]
fn mirror_horizontal_keeps_the_middle_column_of_an_odd_width() {
    let mut img = make_gray_image(3, 1, &[1, 2, 3]);
    mirror_horizontal(&mut img);
    assert_eq!(img.get_pixel(1, 0), [2, 2, 2, 255]);
    assert_eq!(img.get_pixel(0, 0), [3, 3, 3, 255]);
}

#[test]
fn rotating_counterclockwise_then_clockwise_is_identity() {
    let original = make_rotation_test_grid();
    let mut img = original.duplicate();
    rotate_90_counterclockwise(&mut img);
    rotate_90_clockwise(&mut img);
    assert_eq!(img.to_rgba8(), original.to_rgba8());
}

#[test]
fn zoom_in_leaves_an_empty_image_unchanged() {
    let mut img = Image::new(0, 3, ColorFormat::Rgb8);
    zoom_in(&mut img);
    assert_eq!((img.width(), img.height()), (0, 3));
}

#[test]
fn zoom_in_rounds_half_averages_up_and_keeps_the_first_alpha() {
    let pixels = vec![[1, 2, 3, 10], [2, 4, 6, 20]];
    let mut img = Image::from_pixels(2, 1, ColorFormat::Rgba8, pixels).unwrap();
    zoom_in(&mut img);
    assert_eq!(img.get_pixel(1, 0), [2, 3, 5, 10]);
}

#[test]
fn zoom_in_averages_the_row_averages_in_the_middle_of_four_pixels() {
    let mut img = make_gray_image(2, 2, &[0, 1, 1, 3]);
    zoom_in(&mut img);
    // row averages: (0 + 1 + 1) / 2 = 1 and (1 + 3 + 1) / 2 = 2; then (1 + 2 + 1) / 2 = 2
    assert_eq!(img.get_pixel(1, 1)[0], 2);
}

#[test]
fn zoom_out_rounds_a_half_mean_up() {
    let mut img = make_gray_image(2, 1, &[0, 1]);
    zoom_out(&mut img, &vec![(0, 2)], &vec![(0, 1)]);
    assert_eq!(img.get_pixel(0, 0)[0], 1);
}

#[test]
fn zoom_out_gives_zero_for_an_empty_window() {
    let mut img = make_rgb_image(2, 1, &[[9, 9, 9], [9, 9, 9]]);
    zoom_out(&mut img, &vec![(1, 1)], &vec![(0, 1)]);
    assert_eq!(img.get_pixel(0, 0), [0, 0, 0, 255]);
}

#[test]
fn windows_must_start_inside_the_image_and_end_at_its_edge() {
    let img = make_gray_image(3, 2, &[0; 6]);
    assert!(lenscrust::geometry::fits_windows(&img, &vec![(0, 2), (2, 3)], &vec![(0, 2)]));
    assert!(!lenscrust::geometry::fits_windows(&img, &vec![(3, 3)], &vec![(0, 2)]));
    assert!(!lenscrust::geometry::fits_windows(&img, &vec![(0, 4)], &vec![(0, 2)]));
    assert!(!lenscrust::geometry::fits_windows(&img, &vec![(0, 1)], &vec![(1, 3)]));
}

#[test]
fn zoom_out_by_one_gives_back_the_image() {
    let original = make_rgb_image(3, 2, &[[1, 2, 3], [4, 5, 6], [7, 8, 9], [10, 11, 12], [13, 14, 15], [16, 17, 18]]);
    let mut img = original.duplicate();
    let columns: Vec<(u32, u32)> = (0..3).map(|i| (i, i + 1)).collect();
    let rows: Vec<(u32, u32)> = (0..2).map(|j| (j, j + 1)).collect();
    zoom_out(&mut img, &columns, &rows);
    assert_eq!((img.width(), img.height()), (3, 2));
    assert_eq!(img.to_rgba8(), original.to_rgba8());
    assert!(!img.is_kept(0, 0));
}

#[test]
fn mirroring_keeps_only_the_middle_column_of_an_odd_width() {
    let mut img = make_gray_image(3, 2, &[1, 2, 3, 4, 5, 6]);
    assert!(img.is_kept(0, 0));
    mirror_horizontal(&mut img);
    for y in 0..2 {
        assert!(!img.is_kept(0, y));
        assert!(img.is_kept(1, y));
        assert!(!img.is_kept(2, y));
    }
    let mut even = make_gray_image(2, 1, &[1, 2]);
    mirror_horizontal(&mut even);
    assert!(!even.is_kept(0, 0));
    assert!(!even.is_kept(1, 0));
}

#[test]
fn mirroring_keeps_only_the_middle_row_of_an_odd_height() {
    let mut img = make_gray_image(2, 3, &[1, 2, 3, 4, 5, 6]);
    mirror_vertical(&mut img);
    for x in 0..2 {
        assert!(!img.is_kept(x, 0));
        assert!(img.is_kept(x, 1));
        assert!(!img.is_kept(x, 2));
    }
}

#[test]
fn rotating_and_zooming_in_write_every_pixel() {
    let mut img = make_rotation_test_grid();
    rotate_90_clockwise(&mut img);
    assert!(!img.is_kept(0, 0));
    let mut img = make_rotation_test_grid();
    rotate_90_counterclockwise(&mut img);
    assert!(!img.is_kept(2, 1));
    let mut img = make_gray_image(2, 2, &[0, 10, 20, 30]);
    zoom_in(&mut img);
    assert!(!img.is_kept(0, 0));
    let mut empty = Image::new(0, 4, ColorFormat::L16);
    zoom_in(&mut empty);
    assert_eq!((empty.width(), empty.height()), (0, 4));
}
