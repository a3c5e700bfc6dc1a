//! One edit of an image, as the editor applies it.
use vstd::prelude::*;
use crate::raster::{ColorFormat, Image, ImageView};
use crate::geometry::{
    mirror_horizontal, mirror_vertical, mirrored_horizontally, mirrored_vertically,
    rotate_90_clockwise, rotate_90_counterclockwise, rotated_clockwise, rotated_counterclockwise,
    windows_fit, zoom_in, zoom_out, zoomed_in, zoomed_out,
};
use crate::point::{
    gray_callable, luminance, luminance_result, quantize, quantize_callable, quantize_result,
};
use crate::convolution::{convolve, convolved, is_gaussian_low_pass, Kernel};

verus! {

/// An edit, with every parameter in exact form: zooming out names the source
/// windows that each output column and row average.
pub enum Edit {
    MirrorHorizontal,
    MirrorVertical,
    RotateClockwise,
    RotateCounterclockwise,
    ZoomOut { columns: Vec<(u32, u32)>, rows: Vec<(u32, u32)> },
    ZoomIn,
    Luminance,
    Quantize(u16),
    Convolve(Kernel),
}

/// Quantization applies to the gray version of the image, which must come
/// out as 8-bit gray and hold at least one pixel, and needs at least one
/// level.
pub open spec fn can_quantize(v: ImageView, levels: u16) -> bool {
    &&& levels >= 1
    &&& v.width > 0
    &&& v.height > 0
    &&& v.format != ColorFormat::La8
    &&& v.format != ColorFormat::L16
    &&& v.format != ColorFormat::La16
}

impl Edit {
    /// The edit can be applied to an image of this view.
    pub open spec fn applies_to(&self, v: ImageView) -> bool {
        match self {
            Edit::ZoomOut { columns, rows } => windows_fit(v, columns@, rows@),
            Edit::ZoomIn => v.width < 0x8000_0000 && v.height < 0x8000_0000,
            Edit::Quantize(levels) => can_quantize(v, *levels),
            _ => true,
        }
    }

    /// `after` is what the edit makes of `before`; quantization first turns
    /// the image gray.
    pub open spec fn result<
        F: Fn(u8, u8, u8) -> u8,
        B: Fn(u8, u8, u16, u16) -> i64,
        T: Fn(i64, u8, u16, u16) -> u8,
    >(&self, before: ImageView, after: ImageView, gray_of: F, bin_of: B, tone_of: T) -> bool {
        match self {
            Edit::MirrorHorizontal => after == mirrored_horizontally(before),
            Edit::MirrorVertical => after == mirrored_vertically(before),
            Edit::RotateClockwise => after == rotated_clockwise(before),
            Edit::RotateCounterclockwise => after == rotated_counterclockwise(before),
            Edit::ZoomOut { columns, rows } => after == zoomed_out(before, columns@, rows@),
            Edit::ZoomIn => after == zoomed_in(before),
            Edit::Luminance => luminance_result(before, after, gray_of),
            Edit::Quantize(levels) => exists|gray: ImageView|
                #[trigger] luminance_result(before, gray, gray_of) && quantize_result(
                    gray,
                    after,
                    *levels,
                    bin_of,
                    tone_of,
                ),
            Edit::Convolve(kernel) => if is_gaussian_low_pass(*kernel) {
                after == convolved(before, *kernel)
            } else {
                exists|gray: ImageView|
                    #[trigger] luminance_result(before, gray, gray_of) && after == convolved(
                        gray,
                        *kernel,
                    )
            },
        }
    }

    /// Applies the edit to the image. `gray_of` gives the gray value of a
    /// color; `bin_of` and `tone_of` give the bin of a tone and the tone of a
    /// bin when quantizing (see `quantize`).
    pub fn apply<
        F: Fn(u8, u8, u8) -> u8,
        B: Fn(u8, u8, u16, u16) -> i64,
        T: Fn(i64, u8, u16, u16) -> u8,
    >(&self, image: &mut Image, gray_of: &F, bin_of: &B, tone_of: &T)
        requires
            self.applies_to(old(image)@),
            gray_callable(*gray_of),
            quantize_callable(*bin_of, *tone_of),
        ensures
            self.result(old(image)@, final(image)@, *gray_of, *bin_of, *tone_of),
    {
        match self {
            Edit::MirrorHorizontal => mirror_horizontal(image),
            Edit::MirrorVertical => mirror_vertical(image),
            Edit::RotateClockwise => rotate_90_clockwise(image),
            Edit::RotateCounterclockwise => rotate_90_counterclockwise(image),
            Edit::ZoomOut { columns, rows } => zoom_out(image, columns, rows),
            Edit::ZoomIn => zoom_in(image),
            Edit::Luminance => luminance(image, gray_of),
            Edit::Quantize(levels) => {
                let ghost before = image@;
                luminance(image, gray_of);
                let ghost gray = image@;
                quantize(image, *levels, bin_of, tone_of);
                assert(luminance_result(before, gray, *gray_of));
            },
            Edit::Convolve(kernel) => convolve(image, kernel, gray_of),
        }
    }
}

/// Mirroring left to right reverses every row: the image keeps its size and
/// format, and its pixel `(x, y)` is the source pixel `(width - 1 - x, y)`.
pub proof fn mirroring_left_to_right_reverses_each_row<
    F: Fn(u8, u8, u8) -> u8,
    B: Fn(u8, u8, u16, u16) -> i64,
    T: Fn(i64, u8, u16, u16) -> u8,
>(before: ImageView, after: ImageView, gray_of: F, bin_of: B, tone_of: T)
    requires
        before.wf(),
        Edit::MirrorHorizontal.result(before, after, gray_of, bin_of, tone_of),
    ensures
        after.width == before.width,
        after.height == before.height,
        after.format == before.format,
        forall|x: int, y: int|
            0 <= x < before.width && 0 <= y < before.height ==> #[trigger] after.pixel(x, y)
                == before.pixel(before.width - 1 - x, y),
{
}

/// Mirroring top to bottom reverses every column: the image keeps its size
/// and format, and its pixel `(x, y)` is the source pixel
/// `(x, height - 1 - y)`.
pub proof fn mirroring_top_to_bottom_reverses_each_column<
    F: Fn(u8, u8, u8) -> u8,
    B: Fn(u8, u8, u16, u16) -> i64,
    T: Fn(i64, u8, u16, u16) -> u8,
>(before: ImageView, after: ImageView, gray_of: F, bin_of: B, tone_of: T)
    requires
        before.wf(),
        Edit::MirrorVertical.result(before, after, gray_of, bin_of, tone_of),
    ensures
        after.width == before.width,
        after.height == before.height,
        after.format == before.format,
        forall|x: int, y: int|
            0 <= x < before.width && 0 <= y < before.height ==> #[trigger] after.pixel(x, y)
                == before.pixel(x, before.height - 1 - y),
{
}

/// A clockwise quarter turn swaps width and height and takes pixel `(x, y)`
/// from the source pixel `(y, height - 1 - x)`: the source's first column,
/// read upward, becomes the first row.
pub proof fn turning_clockwise_moves_the_first_column_to_the_first_row<
    F: Fn(u8, u8, u8) -> u8,
    B: Fn(u8, u8, u16, u16) -> i64,
    T: Fn(i64, u8, u16, u16) -> u8,
>(before: ImageView, after: ImageView, gray_of: F, bin_of: B, tone_of: T)
    requires
        before.wf(),
        Edit::RotateClockwise.result(before, after, gray_of, bin_of, tone_of),
    ensures
        after.width == before.height,
        after.height == before.width,
        after.format == before.format,
        forall|x: int, y: int|
            0 <= x < before.height && 0 <= y < before.width ==> #[trigger] after.pixel(x, y)
                == before.pixel(y, before.height - 1 - x),
{
}

/// A counterclockwise quarter turn swaps width and height and takes pixel
/// `(x, y)` from the source pixel `(width - 1 - y, x)`: the source's last
/// column, read downward, becomes the first row.
pub proof fn turning_counterclockwise_moves_the_last_column_to_the_first_row<
    F: Fn(u8, u8, u8) -> u8,
    B: Fn(u8, u8, u16, u16) -> i64,
    T: Fn(i64, u8, u16, u16) -> u8,
>(before: ImageView, after: ImageView, gray_of: F, bin_of: B, tone_of: T)
    requires
        before.wf(),
        Edit::RotateCounterclockwise.result(before, after, gray_of, bin_of, tone_of),
    ensures
        after.width == before.height,
        after.height == before.width,
        after.format == before.format,
        forall|x: int, y: int|
            0 <= x < before.height && 0 <= y < before.width ==> #[trigger] after.pixel(x, y)
                == before.pixel(before.width - 1 - y, x),
{
}

/// Zooming in a non-empty image makes it `2 * width - 1` wide and
/// `2 * height - 1` tall, with every source pixel at twice its coordinates.
pub proof fn zooming_in_spreads_the_source_pixels_two_apart<
    F: Fn(u8, u8, u8) -> u8,
    B: Fn(u8, u8, u16, u16) -> i64,
    T: Fn(i64, u8, u16, u16) -> u8,
>(before: ImageView, after: ImageView, gray_of: F, bin_of: B, tone_of: T)
    requires
        before.wf(),
        before.width > 0,
        before.height > 0,
        Edit::ZoomIn.result(before, after, gray_of, bin_of, tone_of),
    ensures
        after.width == 2 * before.width - 1,
        after.height == 2 * before.height - 1,
        after.format == before.format,
        forall|x: int, y: int|
            0 <= x < before.width && 0 <= y < before.height ==> #[trigger] after.pixel(2 * x, 2 * y)
                == before.pixel(x, y),
{
}

} // verus!
