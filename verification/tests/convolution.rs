use lenscrust::convolution::{convolve, ConvolutionKernelType, Kernel};
use lenscrust::raster::{ColorFormat, Image};

fn gray_601(r: u8, g: u8, b: u8) -> u8 {
    (r as f64 * 0.299 + g as f64 * 0.587 + b as f64 * 0.114).round() as u8
}

fn gray_of_values(width: u32, height: u32, pixels: &[u8]) -> Image {
    let pixels: Vec<[u8; 4]> = pixels.iter().map(|&p| [p, p, p, 255]).collect();
    Image::from_pixels(width, height, ColorFormat::L8, pixels).unwrap()
}

fn rgb_of_values(width: u32, height: u32, pixels: &[[u8; 3]]) -> Image {
    let pixels: Vec<[u8; 4]> = pixels.iter().map(|p| [p[0], p[1], p[2], 255]).collect();
    Image::from_pixels(width, height, ColorFormat::Rgb8, pixels).unwrap()
}

#[test]
fn convolve_applies_the_kernel_rotated_180_degrees() {
    let kernel = Kernel::new([[1, 2, 3], [4, 5, 6], [7, 8, 9]], 1, false).unwrap();
    let mut image = gray_of_values(3, 3, &[1, 2, 3, 4, 5, 6, 7, 8, 9]);

    convolve(&mut image, &kernel, &gray_601);

    let gray_image = image.as_luma8().unwrap();
    // 9*1 + 8*2 + 7*3 + 6*4 + 5*5 + 4*6 + 3*7 + 2*8 + 1*9 = 165
    assert_eq!(gray_image.get_pixel(1, 1)[0], 165);
}

#[test]
fn convolve_leaves_the_border_pixels_untouched() {
    let kernel = Kernel::new([[1, 1, 1], [1, 1, 1], [1, 1, 1]], 1, false).unwrap();
    let original_pixels = [10, 20, 30, 40, 50, 60, 70, 80, 90];
    let mut image = gray_of_values(3, 3, &original_pixels);

    convolve(&mut image, &kernel, &gray_601);

    let gray_image = image.as_luma8().unwrap();
    let border_positions = [(0, 0), (1, 0), (2, 0), (0, 1), (2, 1), (0, 2), (1, 2), (2, 2)];
    for (x, y) in border_positions {
        let original_value = original_pixels[(y * 3 + x) as usize];
        assert_eq!(gray_image.get_pixel(x, y)[0], original_value);
    }
}

#[test]
fn convolve_adds_bias_before_clamping_when_requested() {
    let pixels = [1, 2, 3, 4, 5, 6, 7, 8, 9];
    let kernel_without_bias = Kernel::new([[-2; 3]; 3], 1, false).unwrap();
    let mut image_without_bias = gray_of_values(3, 3, &pixels);
    convolve(&mut image_without_bias, &kernel_without_bias, &gray_601);
    assert_eq!(image_without_bias.as_luma8().unwrap().get_pixel(1, 1)[0], 0);

    let kernel_with_bias = Kernel::new([[-2; 3]; 3], 1, true).unwrap();
    let mut image_with_bias = gray_of_values(3, 3, &pixels);
    convolve(&mut image_with_bias, &kernel_with_bias, &gray_601);
    // -90.0 + 127.0 = 37.0, within [0, 255], so no clamping.
    assert_eq!(image_with_bias.as_luma8().unwrap().get_pixel(1, 1)[0], 37);
}

#[test]
fn convolve_forces_grayscale_unless_the_kernel_supports_color() {
    let mut color_image = rgb_of_values(
        3,
        3,
        &[
            [10, 20, 30],
            [40, 50, 60],
            [70, 80, 90],
            [15, 25, 35],
            [45, 55, 65],
            [75, 85, 95],
            [11, 21, 31],
            [41, 51, 61],
            [71, 81, 91],
        ],
    );

    convolve(&mut color_image, &Kernel::positive_laplacian_high_pass(), &gray_601);

    assert!(color_image.as_luma8().is_some());
}

#[test]
fn convolve_preserves_color_when_the_kernel_supports_it() {
    // the Gaussian weights sum to 1, so a uniformly-colored image comes out
    // of the blur unchanged, on every channel
    let mut color_image = rgb_of_values(3, 3, &[[10, 20, 30]; 9]);

    convolve(&mut color_image, &Kernel::gaussian_low_pass(), &gray_601);

    assert!(color_image.as_luma8().is_none());
    let p = color_image.get_pixel(1, 1);
    assert_eq!([p[0], p[1], p[2]], [10, 20, 30]);
}

// --- further cases ---

#[test]
fn convolve_leaves_images_smaller_than_the_kernel_unchanged() {
    let kernel = Kernel::new([[1, 1, 1], [1, 1, 1], [1, 1, 1]], 1, false).unwrap();
    let mut image = gray_of_values(2, 3, &[1, 2, 3, 4, 5, 6]);
    let before = image.to_rgba8();
    convolve(&mut image, &kernel, &gray_601);
    assert_eq!(image.to_rgba8(), before);
}

#[test]
fn convolve_clamps_to_255_and_rounds_halves_up() {
    let big = Kernel::new([[1, 1, 1], [1, 1, 1], [1, 1, 1]], 1, false).unwrap();
    let mut image = gray_of_values(3, 3, &[100; 9]);
    convolve(&mut image, &big, &gray_601);
    assert_eq!(image.get_pixel(1, 1)[0], 255);

    // a weight of 1/2 on the center: 5 / 2 = 2.5 rounds to 3
    let half = Kernel::new([[0, 0, 0], [0, 1, 0], [0, 0, 0]], 2, false).unwrap();
    let mut image = gray_of_values(3, 3, &[5; 9]);
    convolve(&mut image, &half, &gray_601);
    assert_eq!(image.get_pixel(1, 1)[0], 3);
}

#[test]
fn kernel_needs_a_positive_divisor() {
    assert!(Kernel::new([[0; 3]; 3], 0, false).is_none());
    let k = Kernel::new([[2, 4, 2], [4, 8, 4], [2, 4, 2]], 32, false).unwrap();
    assert!(k.same_as(&Kernel::gaussian_low_pass()));
    assert!(!Kernel::sobel_vertical_gradient().same_as(&Kernel::gaussian_low_pass()));
}

#[test]
fn kernel_types_have_their_labels_and_kernels() {
    assert_eq!(ConvolutionKernelType::GaussianLowPass.label(), "Gaussian (low-pass / blur)");
    assert_eq!(ConvolutionKernelType::Custom.label(), "Custom");
    let custom = Kernel::new([[0, 0, 0], [0, 3, 0], [0, 0, 0]], 4, true).unwrap();
    let k = ConvolutionKernelType::Custom.to_kernel(&custom);
    assert_eq!(k.weights(), [[0, 0, 0], [0, 3, 0], [0, 0, 0]]);
    assert_eq!(k.divisor(), 4);
    assert!(!k.bias_before_clamping());
    let sobel = ConvolutionKernelType::SobelHorizontalGradient.to_kernel(&custom);
    assert_eq!(sobel.weights(), [[-1, 0, 1], [-2, 0, 2], [-1, 0, 1]]);
    assert!(sobel.bias_before_clamping());
}

#[test]
fn convolving_a_sixteen_bit_gray_image_keeps_its_border_samples() {
    let pixels: Vec<[u8; 4]> = (0..16).map(|v| [v, v, v, 255]).collect();
    let mut image = Image::from_pixels(4, 4, ColorFormat::L16, pixels).unwrap();
    let kernel = Kernel::new([[1, 1, 1], [1, 1, 1], [1, 1, 1]], 9, false).unwrap();

    convolve(&mut image, &kernel, &gray_601);

    assert_eq!(image.format(), ColorFormat::L16);
    for y in 0..4 {
        for x in 0..4 {
            let on_border = x == 0 || y == 0 || x == 3 || y == 3;
            assert_eq!(image.is_kept(x, y), on_border);
        }
    }
    // the mean of 0, 1, 2, 4, 5, 6, 8, 9, 10
    assert_eq!(image.get_pixel(1, 1), [5, 5, 5, 255]);
}

#[test]
fn converting_a_color_image_to_gray_writes_every_pixel() {
    let mut image = rgb_of_values(3, 3, &[[10, 20, 30]; 9]);
    let kernel = Kernel::new([[0, 0, 0], [0, 1, 0], [0, 0, 0]], 1, false).unwrap();

    convolve(&mut image, &kernel, &gray_601);

    assert_eq!(image.format(), ColorFormat::L8);
    assert!(!image.is_kept(0, 0));
    assert!(!image.is_kept(1, 1));
}
