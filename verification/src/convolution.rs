//! 3x3 convolution.
//!
//! A kernel's weights are fractions with a common positive divisor: weight
//! `(r, c)` is `weights[r][c] / divisor`. The kernels that the library offers
//! all have exact weights in this form.
use vstd::prelude::*;
use crate::raster::{Image, ImageView};
use crate::point::{gray_callable, luminance, luminance_result};

verus! {

/// A 3x3 convolution kernel.
#[derive(Clone, Copy)]
pub struct Kernel {
    weights: [[i32; 3]; 3],
    divisor: u32,
    bias_before_clamping: bool,
}

impl Kernel {
    #[verifier::type_invariant]
    closed spec fn inv(self) -> bool {
        self.divisor > 0
    }

    /// Numerator of the weight in row `r`, column `c`.
    pub closed spec fn weight(self, r: int, c: int) -> int {
        self.weights[r][c] as int
    }

    /// The common divisor of all weights.
    pub closed spec fn spec_divisor(self) -> int {
        self.divisor as int
    }

    /// Whether 127 is added to each sample before it is rounded and clamped.
    pub closed spec fn spec_bias(self) -> bool {
        self.bias_before_clamping
    }

    /// A kernel with weights `weights[r][c] / divisor`; `None` when the
    /// divisor is 0.
    pub fn new(weights: [[i32; 3]; 3], divisor: u32, bias_before_clamping: bool) -> (k: Option<
        Kernel,
    >)
        ensures
            k is Some <==> divisor > 0,
            k matches Some(k) ==> {
                &&& forall|r: int, c: int|
                    0 <= r < 3 && 0 <= c < 3 ==> #[trigger] k.weight(r, c) == weights[r][c]
                &&& k.spec_divisor() == divisor
                &&& k.spec_bias() == bias_before_clamping
            },
    {
        if divisor == 0 {
            None
        } else {
            Some(Kernel { weights, divisor, bias_before_clamping })
        }
    }

    pub fn weights(&self) -> (w: [[i32; 3]; 3])
        ensures
            forall|r: int, c: int| 0 <= r < 3 && 0 <= c < 3 ==> #[trigger] w[r][c] == self.weight(r, c),
    {
        self.weights
    }

    pub fn divisor(&self) -> (d: u32)
        ensures
            d == self.spec_divisor(),
            d > 0,
    {
        proof {
            use_type_invariant(self);
        }
        self.divisor
    }

    pub fn bias_before_clamping(&self) -> (b: bool)
        ensures
            b == self.spec_bias(),
    {
        self.bias_before_clamping
    }

    /// Gaussian blur: `[[1, 2, 1], [2, 4, 2], [1, 2, 1]] / 16`.
    pub fn gaussian_low_pass() -> (k: Kernel)
        ensures
            has_weights(k, gaussian_weights(), 16, false),
            is_gaussian_low_pass(k),
    {
        Kernel { weights: [[1, 2, 1], [2, 4, 2], [1, 2, 1]], divisor: 16, bias_before_clamping: false }
    }

    /// Laplacian high-pass: `[[0, -1, 0], [-1, 4, -1], [0, -1, 0]]`.
    pub fn positive_laplacian_high_pass() -> (k: Kernel)
        ensures
            has_weights(k, [[0i32, -1i32, 0i32], [-1i32, 4i32, -1i32], [0i32, -1i32, 0i32]], 1, false),
    {
        Kernel { weights: [[0, -1, 0], [-1, 4, -1], [0, -1, 0]], divisor: 1, bias_before_clamping: false }
    }

    /// Generic high-pass: `[[-1, -1, -1], [-1, 8, -1], [-1, -1, -1]]`.
    pub fn negative_laplacian_high_pass() -> (k: Kernel)
        ensures
            has_weights(k, [[-1i32, -1i32, -1i32], [-1i32, 8i32, -1i32], [-1i32, -1i32, -1i32]], 1, false),
    {
        Kernel { weights: [[-1, -1, -1], [-1, 8, -1], [-1, -1, -1]], divisor: 1, bias_before_clamping: false }
    }

    /// Prewitt horizontal gradient, biased: `[[-1, 0, 1], [-1, 0, 1], [-1, 0, 1]]`.
    pub fn prewitt_horizontal_gradient() -> (k: Kernel)
        ensures
            has_weights(k, [[-1i32, 0i32, 1i32], [-1i32, 0i32, 1i32], [-1i32, 0i32, 1i32]], 1, true),
    {
        Kernel { weights: [[-1, 0, 1], [-1, 0, 1], [-1, 0, 1]], divisor: 1, bias_before_clamping: true }
    }

    /// Prewitt vertical gradient, biased: `[[-1, -1, -1], [0, 0, 0], [1, 1, 1]]`.
    pub fn prewitt_vertical_gradient() -> (k: Kernel)
        ensures
            has_weights(k, [[-1i32, -1i32, -1i32], [0i32, 0i32, 0i32], [1i32, 1i32, 1i32]], 1, true),
    {
        Kernel { weights: [[-1, -1, -1], [0, 0, 0], [1, 1, 1]], divisor: 1, bias_before_clamping: true }
    }

    /// Sobel horizontal gradient, biased: `[[-1, 0, 1], [-2, 0, 2], [-1, 0, 1]]`.
    pub fn sobel_horizontal_gradient() -> (k: Kernel)
        ensures
            has_weights(k, [[-1i32, 0i32, 1i32], [-2i32, 0i32, 2i32], [-1i32, 0i32, 1i32]], 1, true),
    {
        Kernel { weights: [[-1, 0, 1], [-2, 0, 2], [-1, 0, 1]], divisor: 1, bias_before_clamping: true }
    }

    /// Sobel vertical gradient, biased: `[[-1, -2, -1], [0, 0, 0], [1, 2, 1]]`.
    pub fn sobel_vertical_gradient() -> (k: Kernel)
        ensures
            has_weights(k, [[-1i32, -2i32, -1i32], [0i32, 0i32, 0i32], [1i32, 2i32, 1i32]], 1, true),
    {
        Kernel { weights: [[-1, -2, -1], [0, 0, 0], [1, 2, 1]], divisor: 1, bias_before_clamping: true }
    }

    /// Whether the two kernels have the same weights (as fractions) and the
    /// same bias setting.
    pub fn same_as(&self, other: &Kernel) -> (r: bool)
        ensures
            r == same_kernel(*self, *other),
    {
        let d1 = self.divisor as i64;
        let d2 = other.divisor as i64;
        let mut r: usize = 0;
        while r < 3
            invariant
                r <= 3,
                d1 == self.spec_divisor(),
                d2 == other.spec_divisor(),
                forall|i: int, j: int| 0 <= i < r && 0 <= j < 3 ==> #[trigger] self.weight(i, j) * other.spec_divisor()
                    == other.weight(i, j) * self.spec_divisor(),
            decreases 3 - r,
        {
            let mut c: usize = 0;
            while c < 3
                invariant
                    r < 3,
                    c <= 3,
                    d1 == self.spec_divisor(),
                    d2 == other.spec_divisor(),
                    forall|i: int, j: int| 0 <= i < r && 0 <= j < 3 ==> #[trigger] self.weight(i, j) * other.spec_divisor()
                        == other.weight(i, j) * self.spec_divisor(),
                    forall|j: int| 0 <= j < c ==> #[trigger] self.weight(r as int, j) * other.spec_divisor()
                        == other.weight(r as int, j) * self.spec_divisor(),
                decreases 3 - c,
            {
                let a = self.weights[r][c] as i64;
                let b = other.weights[r][c] as i64;
                assert(i64::MIN <= a * d2 <= i64::MAX) by (nonlinear_arith)
                    requires
                        -0x8000_0000 <= a < 0x8000_0000,
                        0 <= d2 < 0x1_0000_0000,
                {
                    assert(a * d2 <= 0x8000_0000 * 0x1_0000_0000);
                    assert(a * d2 >= -0x8000_0000 * 0x1_0000_0000);
                }
                assert(i64::MIN <= b * d1 <= i64::MAX) by (nonlinear_arith)
                    requires
                        -0x8000_0000 <= b < 0x8000_0000,
                        0 <= d1 < 0x1_0000_0000,
                {
                    assert(b * d1 <= 0x8000_0000 * 0x1_0000_0000);
                    assert(b * d1 >= -0x8000_0000 * 0x1_0000_0000);
                }
                if a * d2 != b * d1 {
                    assert(self.weight(r as int, c as int) * other.spec_divisor() != other.weight(r as int, c as int)
                        * self.spec_divisor());
                    return false;
                }
                c = c + 1;
            }
            assert forall|i: int, j: int| 0 <= i < r + 1 && 0 <= j < 3 implies #[trigger] self.weight(i, j)
                * other.spec_divisor() == other.weight(i, j) * self.spec_divisor() by {
                if i == r {
                    assert(self.weight(r as int, j) * other.spec_divisor() == other.weight(r as int, j) * self.spec_divisor());
                }
            }
            r = r + 1;
        }
        self.bias_before_clamping == other.bias_before_clamping
    }
}

/// The kernel has weights `weights[r][c] / divisor` and the given bias setting.
pub open spec fn has_weights(k: Kernel, weights: [[i32; 3]; 3], divisor: int, bias: bool) -> bool {
    &&& forall|r: int, c: int| 0 <= r < 3 && 0 <= c < 3 ==> #[trigger] k.weight(r, c) == weights[r][c]
    &&& k.spec_divisor() == divisor
    &&& k.spec_bias() == bias
}

/// Both kernels have the same weights, compared as fractions, and the same
/// bias setting.
pub open spec fn same_kernel(a: Kernel, b: Kernel) -> bool {
    &&& forall|r: int, c: int| 0 <= r < 3 && 0 <= c < 3 ==> #[trigger] a.weight(r, c) * b.spec_divisor()
        == b.weight(r, c) * a.spec_divisor()
    &&& a.spec_bias() == b.spec_bias()
}

/// The kernel is the Gaussian blur, the one kernel that convolution applies
/// to color images without first turning them gray.
pub open spec fn is_gaussian_low_pass(k: Kernel) -> bool {
    &&& forall|r: int, c: int| 0 <= r < 3 && 0 <= c < 3 ==> #[trigger] k.weight(r, c) * 16
        == gaussian_weights()[r][c] * k.spec_divisor()
    &&& !k.spec_bias()
}

/// The numerators of the Gaussian blur, over a divisor of 16.
pub open spec fn gaussian_weights() -> [[i32; 3]; 3] {
    [[1i32, 2i32, 1i32], [2i32, 4i32, 2i32], [1i32, 2i32, 1i32]]
}

/// One product of the convolution at `(x, y)`: the neighbor at offset
/// `(kc - 1, kr - 1)` weighted by the kernel turned half a turn, that is by
/// the weight in row `2 - kr`, column `2 - kc`.
pub open spec fn product(v: ImageView, k: Kernel, x: int, y: int, c: int, kr: int, kc: int) -> int {
    v.pixel(x + kc - 1, y + kr - 1)[c] * k.weight(2 - kr, 2 - kc)
}

/// The products of one kernel row.
pub open spec fn row_products(v: ImageView, k: Kernel, x: int, y: int, c: int, kr: int) -> int {
    product(v, k, x, y, c, kr, 0) + product(v, k, x, y, c, kr, 1) + product(v, k, x, y, c, kr, 2)
}

/// Numerator (over the kernel's divisor) of sample `c` at `(x, y)` before
/// rounding: the weighted sum of the 3x3 neighborhood, plus 127 when the
/// kernel is biased.
pub open spec fn convolution_numerator(v: ImageView, k: Kernel, x: int, y: int, c: int) -> int {
    row_products(v, k, x, y, c, 0) + row_products(v, k, x, y, c, 1) + row_products(v, k, x, y, c, 2)
        + if k.spec_bias() { 127 * k.spec_divisor() } else { 0 }
}

/// `n / d` rounded half away from zero, then held to `0 ..= 255`.
pub open spec fn rounded_sample(n: int, d: int) -> u8 {
    if n < 0 {
        0
    } else if (2 * n + d) / (2 * d) > 255 {
        255
    } else {
        ((2 * n + d) / (2 * d)) as u8
    }
}

/// The convolved pixel at `(x, y)`: each color sample is rounded and
/// clamped; the alpha sample is that of the pixel at `(x, y)`.
pub open spec fn convolved_pixel(v: ImageView, k: Kernel, x: int, y: int) -> [u8; 4] {
    [
        rounded_sample(convolution_numerator(v, k, x, y, 0), k.spec_divisor()),
        rounded_sample(convolution_numerator(v, k, x, y, 1), k.spec_divisor()),
        rounded_sample(convolution_numerator(v, k, x, y, 2), k.spec_divisor()),
        v.pixel(x, y)[3],
    ]
}

/// Whether `(x, y)` is on the one-pixel border of the image.
pub open spec fn on_border(v: ImageView, x: int, y: int) -> bool {
    x == 0 || y == 0 || x == v.width - 1 || y == v.height - 1
}

/// The image convolved with the kernel: images narrower or shorter than 3
/// pixels are left as they are; otherwise every pixel off the border is
/// convolved (and written) and the border is left as it is.
pub open spec fn convolved(v: ImageView, k: Kernel) -> ImageView {
    if v.width < 3 || v.height < 3 {
        v
    } else {
        ImageView {
            width: v.width,
            height: v.height,
            format: v.format,
            rows: Seq::new(
                v.height,
                |y: int|
                    Seq::new(
                        v.width,
                        |x: int|
                            if on_border(v, x, y) {
                                v.pixel(x, y)
                            } else {
                                convolved_pixel(v, k, x, y)
                            },
                    ),
            ),
            kept: Seq::new(v.height, |y: int| Seq::new(v.width, |x: int| v.kept[y][x] && on_border(v, x, y))),
        }
    }
}

/// The three color samples of a pixel of a gray image are equal, so the
/// convolved samples are too.
proof fn lemma_convolved_pixel_holds(v: ImageView, k: Kernel, x: int, y: int)
    requires
        v.wf(),
        1 <= x < v.width - 1,
        1 <= y < v.height - 1,
    ensures
        v.format.holds(convolved_pixel(v, k, x, y)),
{
    assert(v.format.holds(v.pixel(x, y)));
    if v.format.spec_is_gray() {
        assert forall|kr: int, kc: int| 0 <= kr < 3 && 0 <= kc < 3 implies #[trigger] product(v, k, x, y, 0, kr, kc)
            == product(v, k, x, y, 1, kr, kc) && product(v, k, x, y, 1, kr, kc) == product(v, k, x, y, 2, kr, kc) by {
            assert(v.format.holds(v.pixel(x + kc - 1, y + kr - 1)));
        }
        assert(convolution_numerator(v, k, x, y, 0) == convolution_numerator(v, k, x, y, 1));
        assert(convolution_numerator(v, k, x, y, 1) == convolution_numerator(v, k, x, y, 2));
    }
}

/// The convolved value of sample `c` at `(x, y)`.
fn convolve_sample(image: &Image, kernel: &Kernel, x: u32, y: u32, c: usize) -> (s: u8)
    requires
        1 <= x < image@.width - 1,
        1 <= y < image@.height - 1,
        c < 3,
    ensures
        s == rounded_sample(convolution_numerator(image@, *kernel, x as int, y as int, c as int), kernel.spec_divisor()),
{
    let ghost v = image@;
    let _ = image.width();
    let d = kernel.divisor();
    let mut sum: i64 = 0;
    let mut kr: u32 = 0;
    while kr < 3
        invariant
            v == image@,
            v.wf(),
            1 <= x < v.width - 1,
            1 <= y < v.height - 1,
            c < 3,
            kr <= 3,
            d == kernel.spec_divisor(),
            sum == (if kr > 0 { row_products(v, *kernel, x as int, y as int, c as int, 0) } else { 0 })
                + (if kr > 1 { row_products(v, *kernel, x as int, y as int, c as int, 1) } else { 0 })
                + (if kr > 2 { row_products(v, *kernel, x as int, y as int, c as int, 2) } else { 0 }),
            -0x8000_0000 * 256 * 3 * kr <= sum <= 0x8000_0000 * 256 * 3 * kr,
        decreases 3 - kr,
    {
        let mut row_sum: i64 = 0;
        let mut kc: u32 = 0;
        while kc < 3
            invariant
                v == image@,
                v.wf(),
                1 <= x < v.width - 1,
                1 <= y < v.height - 1,
                c < 3,
                kr < 3,
                kc <= 3,
                row_sum == (if kc > 0 { product(v, *kernel, x as int, y as int, c as int, kr as int, 0) } else { 0 })
                    + (if kc > 1 { product(v, *kernel, x as int, y as int, c as int, kr as int, 1) } else { 0 })
                    + (if kc > 2 { product(v, *kernel, x as int, y as int, c as int, kr as int, 2) } else { 0 }),
                -0x8000_0000 * 256 * kc <= row_sum <= 0x8000_0000 * 256 * kc,
            decreases 3 - kc,
        {
            let weight = kernel.weights[(2 - kr) as usize][(2 - kc) as usize];
            let neighbor = image.get_pixel(x + kc - 1, y + kr - 1);
            let sample = neighbor[c] as i64;
            assert(-0x8000_0000 * 256 <= sample * (weight as i64) <= 0x8000_0000 * 256) by (nonlinear_arith)
                requires 0 <= sample < 256, -0x8000_0000 <= weight < 0x8000_0000;
            row_sum = row_sum + sample * weight as i64;
            kc = kc + 1;
        }
        sum = sum + row_sum;
        kr = kr + 1;
    }
    if kernel.bias_before_clamping() {
        sum = sum + 127 * d as i64;
    }
    let d = d as i64;
    if sum < 0 {
        0
    } else {
        let rounded = (2 * sum + d) / (2 * d);
        if rounded > 255 {
            255
        } else {
            rounded as u8
        }
    }
}

/// The image convolved with the kernel, with no conversion to gray.
fn convolve_as_is(image: &mut Image, kernel: &Kernel)
    ensures
        final(image)@ == convolved(old(image)@, *kernel),
{
    let width = image.width();
    let height = image.height();
    if width < 3 || height < 3 {
        return;
    }
    let ghost before = image@;
    let mut rows: Vec<Vec<[u8; 4]>> = Vec::new();
    let mut kept: Vec<Vec<bool>> = Vec::new();
    for y in 0..height
        invariant
            before == image@,
            before.wf(),
            width == before.width,
            height == before.height,
            width >= 3,
            height >= 3,
            rows.len() == y,
            kept.len() == y,
            forall|j: int| 0 <= j < y ==> #[trigger] rows[j].len() == width,
            forall|j: int| 0 <= j < y ==> #[trigger] kept[j].len() == width,
            forall|i: int, j: int|
                0 <= i < width && 0 <= j < y ==> #[trigger] rows[j]@[i] == convolved(before, *kernel).rows[j][i],
            forall|i: int, j: int|
                0 <= i < width && 0 <= j < y ==> #[trigger] kept[j]@[i] == convolved(before, *kernel).kept[j][i],
            forall|i: int, j: int| 0 <= i < width && 0 <= j < y ==> before.format.holds(#[trigger] rows[j]@[i]),
    {
        let mut row: Vec<[u8; 4]> = Vec::new();
        let mut flags: Vec<bool> = Vec::new();
        for x in 0..width
            invariant
                before == image@,
                before.wf(),
                width == before.width,
                height == before.height,
                width >= 3,
                height >= 3,
                y < height,
                row.len() == x,
                flags.len() == x,
                forall|i: int| 0 <= i < x ==> #[trigger] row@[i] == convolved(before, *kernel).rows[y as int][i],
                forall|i: int| 0 <= i < x ==> #[trigger] flags@[i] == convolved(before, *kernel).kept[y as int][i],
                forall|i: int| 0 <= i < x ==> before.format.holds(#[trigger] row@[i]),
        {
            let center = image.get_pixel(x, y);
            if x == 0 || y == 0 || x == width - 1 || y == height - 1 {
                row.push(center);
                flags.push(image.is_kept(x, y));
            } else {
                let mut out = center;
                out[0] = convolve_sample(image, kernel, x, y, 0);
                out[1] = convolve_sample(image, kernel, x, y, 1);
                out[2] = convolve_sample(image, kernel, x, y, 2);
                proof {
                    assert(out =~= convolved_pixel(before, *kernel, x as int, y as int));
                    lemma_convolved_pixel_holds(before, *kernel, x as int, y as int);
                }
                row.push(out);
                flags.push(false);
            }
        }
        let ghost done = row@;
        let ghost done_flags = flags@;
        rows.push(row);
        kept.push(flags);
        assert forall|i: int, j: int| 0 <= i < width && 0 <= j < y + 1 implies #[trigger] rows[j]@[i]
            == convolved(before, *kernel).rows[j][i] && before.format.holds(rows[j]@[i]) by {
            if j == y {
                assert(rows[j]@ == done);
            }
        }
        assert forall|i: int, j: int| 0 <= i < width && 0 <= j < y + 1 implies #[trigger] kept[j]@[i]
            == convolved(before, *kernel).kept[j][i] by {
            if j == y {
                assert(kept[j]@ == done_flags);
            }
        }
    }
    let format = image.format();
    let result = Image::from_rows_and_flags(width, height, format, rows, kept);
    proof {
        let z = convolved(before, *kernel);
        assert forall|x: int, y: int| 0 <= x < z.width && 0 <= y < z.height implies z.format.holds(
            #[trigger] z.rows[y][x],
        ) by {
            assert(z.rows[y][x] == rows[y]@[x]);
        }
        crate::raster::lemma_same_as_equal(result@, z);
    }
    *image = result;
}

/// Convolves the image with the kernel turned half a turn (see `convolved`).
/// Unless the kernel is the Gaussian blur, the image is first turned gray by
/// `luminance` with `gray_of`.
pub fn convolve<F: Fn(u8, u8, u8) -> u8>(image: &mut Image, kernel: &Kernel, gray_of: &F)
    requires
        gray_callable(*gray_of),
    ensures
        is_gaussian_low_pass(*kernel) ==> final(image)@ == convolved(old(image)@, *kernel),
        !is_gaussian_low_pass(*kernel) ==> exists|gray: ImageView|
            luminance_result(old(image)@, gray, *gray_of) && final(image)@ == convolved(gray, *kernel),
{
    let ghost before = image@;
    let gaussian = Kernel::gaussian_low_pass();
    if !kernel.same_as(&gaussian) {
        luminance(image, gray_of);
    }
    let ghost gray = image@;
    convolve_as_is(image, kernel);
}

/// The kernels offered for convolution.
#[derive(Clone, Copy, PartialEq, Eq, Structural, Debug)]
pub enum ConvolutionKernelType {
    GaussianLowPass,
    LaplacianHighPass,
    GenericHighPass,
    PrewittHorizontalGradient,
    PrewittVerticalGradient,
    SobelHorizontalGradient,
    SobelVerticalGradient,
    Custom,
}

/// The name under which each kernel is offered.
pub open spec fn kernel_type_label(t: ConvolutionKernelType) -> Seq<char> {
    match t {
        ConvolutionKernelType::GaussianLowPass => "Gaussian (low-pass / blur)"@,
        ConvolutionKernelType::LaplacianHighPass => "Laplacian (high-pass)"@,
        ConvolutionKernelType::GenericHighPass => "Generic high-pass"@,
        ConvolutionKernelType::PrewittHorizontalGradient => "Prewitt horizontal gradient"@,
        ConvolutionKernelType::PrewittVerticalGradient => "Prewitt vertical gradient"@,
        ConvolutionKernelType::SobelHorizontalGradient => "Sobel horizontal gradient"@,
        ConvolutionKernelType::SobelVerticalGradient => "Sobel vertical gradient"@,
        ConvolutionKernelType::Custom => "Custom"@,
    }
}

impl ConvolutionKernelType {
    /// The name under which the kernel is offered.
    pub fn label(&self) -> (name: &'static str)
        ensures
            name@ == kernel_type_label(*self),
    {
        match self {
            ConvolutionKernelType::GaussianLowPass => "Gaussian (low-pass / blur)",
            ConvolutionKernelType::LaplacianHighPass => "Laplacian (high-pass)",
            ConvolutionKernelType::GenericHighPass => "Generic high-pass",
            ConvolutionKernelType::PrewittHorizontalGradient => "Prewitt horizontal gradient",
            ConvolutionKernelType::PrewittVerticalGradient => "Prewitt vertical gradient",
            ConvolutionKernelType::SobelHorizontalGradient => "Sobel horizontal gradient",
            ConvolutionKernelType::SobelVerticalGradient => "Sobel vertical gradient",
            ConvolutionKernelType::Custom => "Custom",
        }
    }

    /// The kernel of this type; the custom type takes the weights of
    /// `custom`, without bias.
    pub fn to_kernel(self, custom: &Kernel) -> (k: Kernel)
        ensures
            self is GaussianLowPass ==> has_weights(k, gaussian_weights(), 16, false),
            self is LaplacianHighPass ==> has_weights(k, [[0i32, -1i32, 0i32], [-1i32, 4i32, -1i32], [0i32, -1i32, 0i32]], 1, false),
            self is GenericHighPass ==> has_weights(k, [[-1i32, -1i32, -1i32], [-1i32, 8i32, -1i32], [-1i32, -1i32, -1i32]], 1, false),
            self is PrewittHorizontalGradient ==> has_weights(k, [[-1i32, 0i32, 1i32], [-1i32, 0i32, 1i32], [-1i32, 0i32, 1i32]], 1, true),
            self is PrewittVerticalGradient ==> has_weights(k, [[-1i32, -1i32, -1i32], [0i32, 0i32, 0i32], [1i32, 1i32, 1i32]], 1, true),
            self is SobelHorizontalGradient ==> has_weights(k, [[-1i32, 0i32, 1i32], [-2i32, 0i32, 2i32], [-1i32, 0i32, 1i32]], 1, true),
            self is SobelVerticalGradient ==> has_weights(k, [[-1i32, -2i32, -1i32], [0i32, 0i32, 0i32], [1i32, 2i32, 1i32]], 1, true),
            self is Custom ==> {
                &&& forall|r: int, c: int| 0 <= r < 3 && 0 <= c < 3 ==> #[trigger] k.weight(r, c) == custom.weight(r, c)
                &&& k.spec_divisor() == custom.spec_divisor()
                &&& !k.spec_bias()
            },
    {
        match self {
            ConvolutionKernelType::GaussianLowPass => Kernel::gaussian_low_pass(),
            ConvolutionKernelType::LaplacianHighPass => Kernel::positive_laplacian_high_pass(),
            ConvolutionKernelType::GenericHighPass => Kernel::negative_laplacian_high_pass(),
            ConvolutionKernelType::PrewittHorizontalGradient => Kernel::prewitt_horizontal_gradient(),
            ConvolutionKernelType::PrewittVerticalGradient => Kernel::prewitt_vertical_gradient(),
            ConvolutionKernelType::SobelHorizontalGradient => Kernel::sobel_horizontal_gradient(),
            ConvolutionKernelType::SobelVerticalGradient => Kernel::sobel_vertical_gradient(),
            ConvolutionKernelType::Custom => Kernel {
                weights: custom.weights(),
                divisor: custom.divisor(),
                bias_before_clamping: false,
            },
        }
    }
}

/// Convolution leaves every pixel on the border of the image untouched: the
/// pixel stays, and it is kept if it was.
pub proof fn convolve_leaves_the_border_untouched(v: ImageView, k: Kernel, x: int, y: int)
    requires
        v.wf(),
        0 <= x < v.width,
        0 <= y < v.height,
        on_border(v, x, y),
    ensures
        convolved(v, k).pixel(x, y) == v.pixel(x, y),
        convolved(v, k).is_kept(x, y) == v.is_kept(x, y),
{
}

} // verus!
