//! Geometric operations: mirroring, quarter-turn rotations, zooming in by
//! interpolation and zooming out by averaging windows.
use vstd::prelude::*;
use crate::raster::{uniform_flags_of, ColorFormat, Image, ImageView};

verus! {

/// The image mirrored left to right: column `x` becomes column `width - 1 - x`.
/// Every pixel is written but those of the middle column of an image of odd
/// width, which stay where they are.
pub open spec fn mirrored_horizontally(v: ImageView) -> ImageView {
    ImageView {
        width: v.width,
        height: v.height,
        format: v.format,
        rows: Seq::new(v.height, |y: int| Seq::new(v.width, |x: int| v.rows[y][v.width - 1 - x])),
        kept: Seq::new(v.height, |y: int| Seq::new(v.width, |x: int| v.kept[y][x] && 2 * x + 1 == v.width)),
    }
}

/// The image mirrored top to bottom: row `y` becomes row `height - 1 - y`.
/// Every pixel is written but those of the middle row of an image of odd
/// height, which stay where they are.
pub open spec fn mirrored_vertically(v: ImageView) -> ImageView {
    ImageView {
        width: v.width,
        height: v.height,
        format: v.format,
        rows: Seq::new(v.height, |y: int| Seq::new(v.width, |x: int| v.rows[v.height - 1 - y][x])),
        kept: Seq::new(v.height, |y: int| Seq::new(v.width, |x: int| v.kept[y][x] && 2 * y + 1 == v.height)),
    }
}

/// The image turned a quarter clockwise: it is `height` wide and `width` tall,
/// and its pixel `(x, y)` is the source pixel `(y, height - 1 - x)`.
pub open spec fn rotated_clockwise(v: ImageView) -> ImageView {
    ImageView {
        width: v.height,
        height: v.width,
        format: v.format,
        rows: Seq::new(v.width, |y: int| Seq::new(v.height, |x: int| v.rows[v.height - 1 - x][y])),
        kept: uniform_flags_of(v.height, v.width, false),
    }
}

/// The image turned a quarter counterclockwise: it is `height` wide and
/// `width` tall, and its pixel `(x, y)` is the source pixel
/// `(width - 1 - y, x)`.
pub open spec fn rotated_counterclockwise(v: ImageView) -> ImageView {
    ImageView {
        width: v.height,
        height: v.width,
        format: v.format,
        rows: Seq::new(v.width, |y: int| Seq::new(v.height, |x: int| v.rows[x][v.width - 1 - y])),
        kept: uniform_flags_of(v.height, v.width, false),
    }
}

proof fn lemma_mirrored_horizontally_wf(v: ImageView)
    requires
        v.wf(),
    ensures
        mirrored_horizontally(v).wf(),
{
    let m = mirrored_horizontally(v);
    assert forall|x: int, y: int| 0 <= x < m.width && 0 <= y < m.height implies m.format.holds(
        #[trigger] m.rows[y][x],
    ) by {
        assert(m.rows[y][x] == v.rows[y][v.width - 1 - x]);
    }
}

proof fn lemma_mirrored_vertically_wf(v: ImageView)
    requires
        v.wf(),
    ensures
        mirrored_vertically(v).wf(),
{
    let m = mirrored_vertically(v);
    assert forall|x: int, y: int| 0 <= x < m.width && 0 <= y < m.height implies m.format.holds(
        #[trigger] m.rows[y][x],
    ) by {
        assert(m.rows[y][x] == v.rows[v.height - 1 - y][x]);
    }
}

proof fn lemma_rotated_clockwise_wf(v: ImageView)
    requires
        v.wf(),
    ensures
        rotated_clockwise(v).wf(),
{
    let m = rotated_clockwise(v);
    assert forall|x: int, y: int| 0 <= x < m.width && 0 <= y < m.height implies m.format.holds(
        #[trigger] m.rows[y][x],
    ) by {
        assert(m.rows[y][x] == v.rows[v.height - 1 - x][y]);
    }
}

proof fn lemma_rotated_counterclockwise_wf(v: ImageView)
    requires
        v.wf(),
    ensures
        rotated_counterclockwise(v).wf(),
{
    let m = rotated_counterclockwise(v);
    assert forall|x: int, y: int| 0 <= x < m.width && 0 <= y < m.height implies m.format.holds(
        #[trigger] m.rows[y][x],
    ) by {
        assert(m.rows[y][x] == v.rows[x][v.width - 1 - y]);
    }
}

/// Mirrors the image left to right.
pub fn mirror_horizontal(image: &mut Image)
    ensures
        final(image)@ == mirrored_horizontally(old(image)@),
{
    let width = image.width();
    let height = image.height();
    let ghost before = image@;
    let mut rows: Vec<Vec<[u8; 4]>> = Vec::new();
    let mut kept: Vec<Vec<bool>> = Vec::new();
    for y in 0..height
        invariant
            before == image@,
            before.wf(),
            width == before.width,
            height == before.height,
            rows.len() == y,
            kept.len() == y,
            forall|j: int| 0 <= j < y ==> #[trigger] rows[j].len() == width,
            forall|j: int| 0 <= j < y ==> #[trigger] kept[j].len() == width,
            forall|i: int, j: int|
                0 <= i < width && 0 <= j < y ==> #[trigger] rows[j]@[i] == before.pixel(
                    width - 1 - i,
                    j,
                ),
            forall|i: int, j: int|
                0 <= i < width && 0 <= j < y ==> #[trigger] kept[j]@[i] == (before.is_kept(i, j)
                    && 2 * i + 1 == width),
    {
        let mut row: Vec<[u8; 4]> = Vec::new();
        let mut flags: Vec<bool> = Vec::new();
        for x in 0..width
            invariant
                before == image@,
                before.wf(),
                width == before.width,
                height == before.height,
                y < height,
                row.len() == x,
                flags.len() == x,
                forall|i: int| 0 <= i < x ==> #[trigger] row@[i] == before.pixel(width - 1 - i, y as int),
                forall|i: int| 0 <= i < x ==> #[trigger] flags@[i] == (before.is_kept(i, y as int) && 2 * i + 1 == width),
        {
            row.push(image.get_pixel(width - 1 - x, y));
            flags.push(image.is_kept(x, y) && 2 * (x as u64) + 1 == width as u64);
        }
        let ghost done = row@;
        let ghost done_flags = flags@;
        rows.push(row);
        kept.push(flags);
        assert forall|i: int, j: int| 0 <= i < width && 0 <= j < y + 1 implies #[trigger] rows[j]@[i]
            == before.pixel(width - 1 - i, j) by {
            if j == y {
                assert(rows[j]@ == done);
            }
        }
        assert forall|i: int, j: int| 0 <= i < width && 0 <= j < y + 1 implies #[trigger] kept[j]@[i]
            == (before.is_kept(i, j) && 2 * i + 1 == width) by {
            if j == y {
                assert(kept[j]@ == done_flags);
            }
        }
    }
    let format = image.format();
    let result = Image::from_rows_and_flags(width, height, format, rows, kept);
    proof {
        lemma_mirrored_horizontally_wf(before);
        crate::raster::lemma_same_as_equal(result@, mirrored_horizontally(before));
    }
    *image = result;
}

/// Mirrors the image top to bottom.
pub fn mirror_vertical(image: &mut Image)
    ensures
        final(image)@ == mirrored_vertically(old(image)@),
{
    let width = image.width();
    let height = image.height();
    let ghost before = image@;
    let mut rows: Vec<Vec<[u8; 4]>> = Vec::new();
    let mut kept: Vec<Vec<bool>> = Vec::new();
    for y in 0..height
        invariant
            before == image@,
            before.wf(),
            width == before.width,
            height == before.height,
            rows.len() == y,
            kept.len() == y,
            forall|j: int| 0 <= j < y ==> #[trigger] rows[j].len() == width,
            forall|j: int| 0 <= j < y ==> #[trigger] kept[j].len() == width,
            forall|i: int, j: int|
                0 <= i < width && 0 <= j < y ==> #[trigger] rows[j]@[i] == before.pixel(
                    i,
                    height - 1 - j,
                ),
            forall|i: int, j: int|
                0 <= i < width && 0 <= j < y ==> #[trigger] kept[j]@[i] == (before.is_kept(i, j)
                    && 2 * j + 1 == height),
    {
        let mut row: Vec<[u8; 4]> = Vec::new();
        let mut flags: Vec<bool> = Vec::new();
        let middle = 2 * (y as u64) + 1 == height as u64;
        for x in 0..width
            invariant
                before == image@,
                before.wf(),
                width == before.width,
                height == before.height,
                y < height,
                middle == (2 * y + 1 == height),
                row.len() == x,
                flags.len() == x,
                forall|i: int| 0 <= i < x ==> #[trigger] row@[i] == before.pixel(i, height - 1 - y),
                forall|i: int| 0 <= i < x ==> #[trigger] flags@[i] == (before.is_kept(i, y as int) && middle),
        {
            row.push(image.get_pixel(x, height - 1 - y));
            flags.push(image.is_kept(x, y) && middle);
        }
        let ghost done = row@;
        let ghost done_flags = flags@;
        rows.push(row);
        kept.push(flags);
        assert forall|i: int, j: int| 0 <= i < width && 0 <= j < y + 1 implies #[trigger] rows[j]@[i]
            == before.pixel(i, height - 1 - j) by {
            if j == y {
                assert(rows[j]@ == done);
            }
        }
        assert forall|i: int, j: int| 0 <= i < width && 0 <= j < y + 1 implies #[trigger] kept[j]@[i]
            == (before.is_kept(i, j) && 2 * j + 1 == height) by {
            if j == y {
                assert(kept[j]@ == done_flags);
            }
        }
    }
    let format = image.format();
    let result = Image::from_rows_and_flags(width, height, format, rows, kept);
    proof {
        lemma_mirrored_vertically_wf(before);
        crate::raster::lemma_same_as_equal(result@, mirrored_vertically(before));
    }
    *image = result;
}

/// Turns the image a quarter clockwise.
pub fn rotate_90_clockwise(image: &mut Image)
    ensures
        final(image)@ == rotated_clockwise(old(image)@),
{
    let old_width = image.width();
    let old_height = image.height();
    let ghost before = image@;
    let mut rows: Vec<Vec<[u8; 4]>> = Vec::new();
    for new_y in 0..old_width
        invariant
            before == image@,
            before.wf(),
            old_width == before.width,
            old_height == before.height,
            rows.len() == new_y,
            forall|j: int| 0 <= j < new_y ==> #[trigger] rows[j].len() == old_height,
            forall|i: int, j: int|
                0 <= i < old_height && 0 <= j < new_y ==> #[trigger] rows[j]@[i] == before.pixel(
                    j,
                    old_height - 1 - i,
                ),
    {
        let mut row: Vec<[u8; 4]> = Vec::new();
        for new_x in 0..old_height
            invariant
                before == image@,
                before.wf(),
                old_width == before.width,
                old_height == before.height,
                new_y < old_width,
                row.len() == new_x,
                forall|i: int| 0 <= i < new_x ==> #[trigger] row@[i] == before.pixel(new_y as int, old_height - 1 - i),
        {
            row.push(image.get_pixel(new_y, old_height - 1 - new_x));
        }
        let ghost done = row@;
        rows.push(row);
        assert forall|i: int, j: int| 0 <= i < old_height && 0 <= j < new_y + 1 implies #[trigger] rows[j]@[i]
            == before.pixel(j, old_height - 1 - i) by {
            if j == new_y {
                assert(rows[j]@ == done);
            }
        }
    }
    let format = image.format();
    let result = Image::from_rows(old_height, old_width, format, rows);
    proof {
        lemma_rotated_clockwise_wf(before);
        crate::raster::lemma_same_as_equal(result@, rotated_clockwise(before));
    }
    *image = result;
}

/// Turns the image a quarter counterclockwise.
pub fn rotate_90_counterclockwise(image: &mut Image)
    ensures
        final(image)@ == rotated_counterclockwise(old(image)@),
{
    let old_width = image.width();
    let old_height = image.height();
    let ghost before = image@;
    let mut rows: Vec<Vec<[u8; 4]>> = Vec::new();
    for new_y in 0..old_width
        invariant
            before == image@,
            before.wf(),
            old_width == before.width,
            old_height == before.height,
            rows.len() == new_y,
            forall|j: int| 0 <= j < new_y ==> #[trigger] rows[j].len() == old_height,
            forall|i: int, j: int|
                0 <= i < old_height && 0 <= j < new_y ==> #[trigger] rows[j]@[i] == before.pixel(
                    old_width - 1 - j,
                    i,
                ),
    {
        let mut row: Vec<[u8; 4]> = Vec::new();
        for new_x in 0..old_height
            invariant
                before == image@,
                before.wf(),
                old_width == before.width,
                old_height == before.height,
                new_y < old_width,
                row.len() == new_x,
                forall|i: int| 0 <= i < new_x ==> #[trigger] row@[i] == before.pixel(old_width - 1 - new_y, i),
        {
            row.push(image.get_pixel(old_width - 1 - new_y, new_x));
        }
        let ghost done = row@;
        rows.push(row);
        assert forall|i: int, j: int| 0 <= i < old_height && 0 <= j < new_y + 1 implies #[trigger] rows[j]@[i]
            == before.pixel(old_width - 1 - j, i) by {
            if j == new_y {
                assert(rows[j]@ == done);
            }
        }
    }
    let format = image.format();
    let result = Image::from_rows(old_height, old_width, format, rows);
    proof {
        lemma_rotated_counterclockwise_wf(before);
        crate::raster::lemma_same_as_equal(result@, rotated_counterclockwise(before));
    }
    *image = result;
}

/// The average of two pixels: each color sample is the mean of the two,
/// halves rounded up; the alpha sample is the first pixel's.
pub open spec fn average_of(a: [u8; 4], b: [u8; 4]) -> [u8; 4] {
    [
        ((a[0] + b[0] + 1) / 2) as u8,
        ((a[1] + b[1] + 1) / 2) as u8,
        ((a[2] + b[2] + 1) / 2) as u8,
        a[3],
    ]
}

/// Pixel `(x, y)` of the image zoomed in: source pixels stand at even
/// positions; a pixel between two source pixels in a row or a column is their
/// average; a pixel in the middle of four source pixels is the average of the
/// averages of its upper and of its lower pair.
pub open spec fn zoomed_in_pixel(v: ImageView, x: int, y: int) -> [u8; 4] {
    let x0 = x / 2;
    let y0 = y / 2;
    if x % 2 == 0 && y % 2 == 0 {
        v.pixel(x0, y0)
    } else if y % 2 == 0 {
        average_of(v.pixel(x0, y0), v.pixel(x0 + 1, y0))
    } else if x % 2 == 0 {
        average_of(v.pixel(x0, y0), v.pixel(x0, y0 + 1))
    } else {
        average_of(
            average_of(v.pixel(x0, y0), v.pixel(x0 + 1, y0)),
            average_of(v.pixel(x0, y0 + 1), v.pixel(x0 + 1, y0 + 1)),
        )
    }
}

/// The image zoomed in: an empty image stays as it is; otherwise the image
/// becomes `2 * width - 1` wide and `2 * height - 1` tall, with the pixels of
/// `zoomed_in_pixel`.
pub open spec fn zoomed_in(v: ImageView) -> ImageView {
    if v.width == 0 || v.height == 0 {
        v
    } else {
        ImageView {
            width: (2 * v.width - 1) as nat,
            height: (2 * v.height - 1) as nat,
            format: v.format,
            rows: Seq::new(
                (2 * v.height - 1) as nat,
                |y: int| Seq::new((2 * v.width - 1) as nat, |x: int| zoomed_in_pixel(v, x, y)),
            ),
            kept: uniform_flags_of((2 * v.width - 1) as nat, (2 * v.height - 1) as nat, false),
        }
    }
}

proof fn lemma_average_holds(format: ColorFormat, a: [u8; 4], b: [u8; 4])
    requires
        format.holds(a),
        format.holds(b),
    ensures
        format.holds(average_of(a, b)),
{
}

/// The average of two pixels, each color sample rounded half up, keeping the
/// first pixel's alpha.
fn average_pixel(first: [u8; 4], second: [u8; 4]) -> (averaged: [u8; 4])
    ensures
        averaged == average_of(first, second),
{
    let mut averaged = first;
    averaged[0] = ((first[0] as u16 + second[0] as u16 + 1) / 2) as u8;
    averaged[1] = ((first[1] as u16 + second[1] as u16 + 1) / 2) as u8;
    averaged[2] = ((first[2] as u16 + second[2] as u16 + 1) / 2) as u8;
    assert(averaged =~= average_of(first, second));
    averaged
}

fn zoom_in_pixel(image: &Image, x: u32, y: u32) -> (p: [u8; 4])
    requires
        image@.width > 0,
        image@.height > 0,
        x < 2 * image@.width - 1,
        y < 2 * image@.height - 1,
    ensures
        p == zoomed_in_pixel(image@, x as int, y as int),
        image@.format.holds(p),
{
    let x0 = x / 2;
    let y0 = y / 2;
    let format = image.format();
    if x % 2 == 0 && y % 2 == 0 {
        image.get_pixel(x0, y0)
    } else if y % 2 == 0 {
        let a = image.get_pixel(x0, y0);
        let b = image.get_pixel(x0 + 1, y0);
        proof { lemma_average_holds(format, a, b); }
        average_pixel(a, b)
    } else if x % 2 == 0 {
        let a = image.get_pixel(x0, y0);
        let b = image.get_pixel(x0, y0 + 1);
        proof { lemma_average_holds(format, a, b); }
        average_pixel(a, b)
    } else {
        let a = image.get_pixel(x0, y0);
        let b = image.get_pixel(x0 + 1, y0);
        let c = image.get_pixel(x0, y0 + 1);
        let d = image.get_pixel(x0 + 1, y0 + 1);
        proof {
            lemma_average_holds(format, a, b);
            lemma_average_holds(format, c, d);
            lemma_average_holds(format, average_of(a, b), average_of(c, d));
        }
        average_pixel(average_pixel(a, b), average_pixel(c, d))
    }
}

/// Zooms the image in, placing the source pixels two apart and filling the
/// gaps by interpolation (see `zoomed_in_pixel`); an empty image is left as it
/// is.
pub fn zoom_in(image: &mut Image)
    requires
        old(image)@.width < 0x8000_0000,
        old(image)@.height < 0x8000_0000,
    ensures
        final(image)@ == zoomed_in(old(image)@),
{
    let old_width = image.width();
    let old_height = image.height();
    if old_width == 0 || old_height == 0 {
        return;
    }
    let new_width = 2 * old_width - 1;
    let new_height = 2 * old_height - 1;
    let ghost before = image@;
    let mut rows: Vec<Vec<[u8; 4]>> = Vec::new();
    for y in 0..new_height
        invariant
            before == image@,
            before.wf(),
            old_width == before.width,
            old_height == before.height,
            old_width > 0,
            old_height > 0,
            new_width == 2 * old_width - 1,
            new_height == 2 * old_height - 1,
            rows.len() == y,
            forall|j: int| 0 <= j < y ==> #[trigger] rows[j].len() == new_width,
            forall|i: int, j: int|
                0 <= i < new_width && 0 <= j < y ==> #[trigger] rows[j]@[i] == zoomed_in_pixel(before, i, j),
            forall|i: int, j: int|
                0 <= i < new_width && 0 <= j < y ==> before.format.holds(#[trigger] rows[j]@[i]),
    {
        let mut row: Vec<[u8; 4]> = Vec::new();
        for x in 0..new_width
            invariant
                before == image@,
                before.wf(),
                old_width == before.width,
                old_height == before.height,
                old_width > 0,
                old_height > 0,
                new_width == 2 * old_width - 1,
                new_height == 2 * old_height - 1,
                y < new_height,
                row.len() == x,
                forall|i: int| 0 <= i < x ==> #[trigger] row@[i] == zoomed_in_pixel(before, i, y as int),
                forall|i: int| 0 <= i < x ==> before.format.holds(#[trigger] row@[i]),
        {
            row.push(zoom_in_pixel(image, x, y));
        }
        let ghost done = row@;
        rows.push(row);
        assert forall|i: int, j: int| 0 <= i < new_width && 0 <= j < y + 1 implies #[trigger] rows[j]@[i]
            == zoomed_in_pixel(before, i, j) && before.format.holds(rows[j]@[i]) by {
            if j == y {
                assert(rows[j]@ == done);
            }
        }
    }
    let format = image.format();
    let result = Image::from_rows(new_width, new_height, format, rows);
    proof {
        let z = zoomed_in(before);
        assert forall|x: int, y: int| 0 <= x < z.width && 0 <= y < z.height implies z.format.holds(
            #[trigger] z.rows[y][x],
        ) by {
            assert(z.rows[y][x] == rows[y]@[x]);
        }
        crate::raster::lemma_same_as_equal(result@, z);
    }
    *image = result;
}

/// Sum of sample `c` over columns `x0 ..< x1` of row `y`.
pub open spec fn row_sum(v: ImageView, c: int, x0: int, x1: int, y: int) -> int
    decreases x1 - x0,
{
    if x1 <= x0 {
        0
    } else {
        row_sum(v, c, x0, x1 - 1, y) + v.pixel(x1 - 1, y)[c]
    }
}

/// Sum of sample `c` over the window of columns `x0 ..< x1` and rows
/// `y0 ..< y1`.
pub open spec fn window_sum(v: ImageView, c: int, x0: int, x1: int, y0: int, y1: int) -> int
    decreases y1 - y0,
{
    if y1 <= y0 {
        0
    } else {
        window_sum(v, c, x0, x1, y0, y1 - 1) + row_sum(v, c, x0, x1, y1 - 1)
    }
}

/// Number of pixels in the window of columns `x0 ..< x1` and rows `y0 ..< y1`.
pub open spec fn window_count(x0: int, x1: int, y0: int, y1: int) -> int {
    if x1 <= x0 || y1 <= y0 {
        0
    } else {
        (x1 - x0) * (y1 - y0)
    }
}

/// The mean `sum / count` rounded half up; an empty window gives 0.
pub open spec fn rounded_mean(sum: int, count: int) -> int {
    if count <= 0 {
        0
    } else {
        (2 * sum + count) / (2 * count)
    }
}

/// The pixel that a window averages to: each color sample is the rounded
/// mean of that sample over the window; the alpha sample is that of the
/// window's first pixel.
pub open spec fn window_average(v: ImageView, column: (u32, u32), row: (u32, u32)) -> [u8; 4] {
    let count = window_count(column.0 as int, column.1 as int, row.0 as int, row.1 as int);
    [
        rounded_mean(window_sum(v, 0, column.0 as int, column.1 as int, row.0 as int, row.1 as int), count) as u8,
        rounded_mean(window_sum(v, 1, column.0 as int, column.1 as int, row.0 as int, row.1 as int), count) as u8,
        rounded_mean(window_sum(v, 2, column.0 as int, column.1 as int, row.0 as int, row.1 as int), count) as u8,
        v.pixel(column.0 as int, row.0 as int)[3],
    ]
}

/// The image zoomed out over the given windows: output column `i` averages
/// source columns `columns[i].0 ..< columns[i].1`, and output row `j` source
/// rows `rows[j].0 ..< rows[j].1`.
pub open spec fn zoomed_out(v: ImageView, columns: Seq<(u32, u32)>, rows: Seq<(u32, u32)>) -> ImageView {
    ImageView {
        width: columns.len(),
        height: rows.len(),
        format: v.format,
        rows: Seq::new(rows.len(), |y: int| Seq::new(columns.len(), |x: int| window_average(v, columns[x], rows[y]))),
        kept: uniform_flags_of(columns.len(), rows.len(), false),
    }
}

/// The windows can be averaged: each starts inside the image and ends at its
/// edge at the latest, and no window holds more than `u32::MAX` pixels.
pub open spec fn windows_fit(v: ImageView, columns: Seq<(u32, u32)>, rows: Seq<(u32, u32)>) -> bool {
    &&& columns.len() <= u32::MAX
    &&& rows.len() <= u32::MAX
    &&& forall|i: int| 0 <= i < columns.len() ==> #[trigger] columns[i].0 < v.width && columns[i].1 <= v.width
    &&& forall|j: int| 0 <= j < rows.len() ==> #[trigger] rows[j].0 < v.height && rows[j].1 <= v.height
    &&& forall|i: int, j: int| 0 <= i < columns.len() && 0 <= j < rows.len() ==>
        window_count(columns[i].0 as int, columns[i].1 as int, rows[j].0 as int, rows[j].1 as int) <= u32::MAX
}

/// Width of a window, 0 when it holds no column (or row).
pub open spec fn span(w: (u32, u32)) -> int {
    if w.1 <= w.0 {
        0
    } else {
        w.1 - w.0
    }
}

fn window_span(w: (u32, u32)) -> (s: u32)
    ensures
        s == span(w),
{
    if w.1 <= w.0 {
        0
    } else {
        w.1 - w.0
    }
}

/// Whether the windows fit the image (see `windows_fit`).
pub fn fits_windows(image: &Image, columns: &Vec<(u32, u32)>, rows: &Vec<(u32, u32)>) -> (fit:
    bool)
    ensures
        fit == windows_fit(image@, columns@, rows@),
{
    let width = image.width();
    let height = image.height();
    if columns.len() > u32::MAX as usize || rows.len() > u32::MAX as usize {
        return false;
    }
    let mut widest: u32 = 0;
    let mut i: usize = 0;
    while i < columns.len()
        invariant
            i <= columns.len(),
            width == image@.width,
            forall|k: int| 0 <= k < i ==> #[trigger] columns[k].0 < width && columns[k].1 <= width,
            forall|k: int| 0 <= k < i ==> span(#[trigger] columns[k]) <= widest,
            widest == 0 || exists|k: int| 0 <= k < i && span(#[trigger] columns[k]) == widest,
        decreases columns.len() - i,
    {
        let (start, end) = columns[i];
        if start >= width || end > width {
            assert(!(columns[i as int].0 < width && columns[i as int].1 <= width));
            return false;
        }
        let s = window_span(columns[i]);
        if s > widest {
            widest = s;
        }
        i = i + 1;
    }
    let mut tallest: u32 = 0;
    let mut j: usize = 0;
    while j < rows.len()
        invariant
            j <= rows.len(),
            height == image@.height,
            forall|k: int| 0 <= k < j ==> #[trigger] rows[k].0 < height && rows[k].1 <= height,
            forall|k: int| 0 <= k < j ==> span(#[trigger] rows[k]) <= tallest,
            tallest == 0 || exists|k: int| 0 <= k < j && span(#[trigger] rows[k]) == tallest,
        decreases rows.len() - j,
    {
        let (start, end) = rows[j];
        if start >= height || end > height {
            assert(!(rows[j as int].0 < height && rows[j as int].1 <= height));
            return false;
        }
        let s = window_span(rows[j]);
        if s > tallest {
            tallest = s;
        }
        j = j + 1;
    }
    assert(widest as u64 * tallest as u64 <= u64::MAX) by (nonlinear_arith)
        requires widest <= u32::MAX, tallest <= u32::MAX;
    let fit = widest as u64 * tallest as u64 <= u32::MAX as u64;
    proof {
        assert forall|a: int, b: int| 0 <= a < columns.len() && 0 <= b < rows.len() implies
            window_count(columns[a].0 as int, columns[a].1 as int, rows[b].0 as int, rows[b].1 as int)
                == #[trigger] span(columns[a]) * #[trigger] span(rows[b]) by {
            let sa = span(columns[a]);
            let sb = span(rows[b]);
            if sa == 0 {
                assert(sa * sb == 0);
            }
            if sb == 0 {
                assert(sa * sb == 0);
            }
        }
        if fit {
            assert forall|a: int, b: int| 0 <= a < columns.len() && 0 <= b < rows.len() implies
                window_count(columns[a].0 as int, columns[a].1 as int, rows[b].0 as int, rows[b].1 as int) <= u32::MAX by {
                let sa = span(columns[a]);
                let sb = span(rows[b]);
                assert(sa * sb <= widest * tallest) by (nonlinear_arith)
                    requires 0 <= sa <= widest, 0 <= sb <= tallest;
            }
        } else {
            assert(widest != 0 && tallest != 0) by (nonlinear_arith)
                requires widest * tallest > u32::MAX;
            let a = choose|k: int| 0 <= k < columns.len() && span(#[trigger] columns[k]) == widest;
            let b = choose|k: int| 0 <= k < rows.len() && span(#[trigger] rows[k]) == tallest;
            assert(span(columns[a]) * span(rows[b]) > u32::MAX);
        }
    }
    fit
}

proof fn lemma_row_sum_gray(v: ImageView, x0: int, x1: int, y: int)
    requires
        v.wf(),
        v.format.spec_is_gray(),
        0 <= x0,
        x1 <= v.width,
        0 <= y < v.height,
    ensures
        row_sum(v, 0, x0, x1, y) == row_sum(v, 1, x0, x1, y),
        row_sum(v, 1, x0, x1, y) == row_sum(v, 2, x0, x1, y),
    decreases x1 - x0,
{
    if x1 > x0 {
        lemma_row_sum_gray(v, x0, x1 - 1, y);
        assert(v.format.holds(v.rows[y][x1 - 1]));
    }
}

proof fn lemma_window_sum_gray(v: ImageView, x0: int, x1: int, y0: int, y1: int)
    requires
        v.wf(),
        v.format.spec_is_gray(),
        0 <= x0,
        x1 <= v.width,
        0 <= y0,
        y1 <= v.height,
    ensures
        window_sum(v, 0, x0, x1, y0, y1) == window_sum(v, 1, x0, x1, y0, y1),
        window_sum(v, 1, x0, x1, y0, y1) == window_sum(v, 2, x0, x1, y0, y1),
    decreases y1 - y0,
{
    if y1 > y0 {
        lemma_window_sum_gray(v, x0, x1, y0, y1 - 1);
        lemma_row_sum_gray(v, x0, x1, y1 - 1);
    }
}

proof fn lemma_rounded_mean_bound(sum: int, count: int)
    requires
        0 <= sum <= 255 * count,
    ensures
        0 <= rounded_mean(sum, count) <= 255,
{
    if count > 0 {
        assert(0 <= (2 * sum + count) / (2 * count) <= 255) by (nonlinear_arith)
            requires
                count > 0,
                0 <= sum <= 255 * count,
        ;
    }
}

/// Averages one window, one color sample at a time.
fn average_window(image: &Image, column: (u32, u32), row: (u32, u32)) -> (p: [u8; 4])
    requires
        column.0 < image@.width,
        column.1 <= image@.width,
        row.0 < image@.height,
        row.1 <= image@.height,
        window_count(column.0 as int, column.1 as int, row.0 as int, row.1 as int) <= u32::MAX,
    ensures
        p == window_average(image@, column, row),
        image@.format.holds(p),
{
    let ghost v = image@;
    let format = image.format();
    let (start_x, end_x) = column;
    let (start_y, end_y) = row;
    let mut sums: [u64; 3] = [0, 0, 0];
    let mut count: u64 = 0;
    let ghost span: int = if end_x <= start_x { 0 } else { end_x - start_x };
    let mut y = start_y;
    while y < end_y
        invariant
            v == image@,
            v.wf(),
            start_x < v.width,
            end_x <= v.width,
            start_y <= y,
            start_y < v.height,
            end_y <= v.height,
            y <= end_y || y == start_y,
            span == (if end_x <= start_x { 0 } else { end_x - start_x }),
            window_count(start_x as int, end_x as int, start_y as int, end_y as int) <= u32::MAX,
            count == span * (y - start_y),
            forall|c: int| 0 <= c < 3 ==> #[trigger] sums[c] == window_sum(v, c, start_x as int, end_x as int, start_y as int, y as int),
            forall|c: int| 0 <= c < 3 ==> #[trigger] sums[c] <= 255 * count,
        decreases end_y - y,
    {
        let ghost before_row = count;
        let mut x = start_x;
        if start_x < end_x {
        while x < end_x
            invariant
                v == image@,
                v.wf(),
                start_x < v.width,
                end_x <= v.width,
                start_y <= y < end_y,
                end_y <= v.height,
                start_x <= x,
                x <= end_x,
                span == end_x - start_x,
                window_count(start_x as int, end_x as int, start_y as int, end_y as int) <= u32::MAX,
                before_row == span * (y - start_y),
                count == before_row + (x - start_x),
                forall|c: int| 0 <= c < 3 ==> #[trigger] sums[c] == window_sum(v, c, start_x as int, end_x as int, start_y as int, y as int) + row_sum(v, c, start_x as int, x as int, y as int),
                forall|c: int| 0 <= c < 3 ==> #[trigger] sums[c] <= 255 * count,
            decreases end_x - x,
        {
            assert(count + 1 <= span * (end_y - start_y)) by (nonlinear_arith)
                requires
                    count == before_row + (x - start_x),
                    before_row == span * (y - start_y),
                    start_x <= x < end_x,
                    span == end_x - start_x,
                    start_y <= y < end_y,
            {
                assert(span * (y - start_y) + span == span * (y + 1 - start_y));
                assert(span * (y + 1 - start_y) <= span * (end_y - start_y));
            }
            assert(span * (end_y - start_y) == window_count(start_x as int, end_x as int, start_y as int, end_y as int));
            let p = image.get_pixel(x, y);
            sums[0] = sums[0] + p[0] as u64;
            sums[1] = sums[1] + p[1] as u64;
            sums[2] = sums[2] + p[2] as u64;
            count = count + 1;
            x = x + 1;
        }
        }
        proof {
            if end_x <= start_x {
                assert(x == start_x);
                assert(span == 0);
            }
            assert(count == span * (y + 1 - start_y)) by (nonlinear_arith)
                requires
                    count == before_row + span,
                    before_row == span * (y - start_y),
            ;
        }
        y = y + 1;
    }
    if end_y <= start_y {
        assert(count == 0) by (nonlinear_arith)
            requires
                count == span * (y - start_y),
                y == start_y,
        ;
    } else {
        assert(y == end_y);
    }
    assert(count == window_count(start_x as int, end_x as int, start_y as int, end_y as int)) by (nonlinear_arith)
        requires
            count == span * (y - start_y),
            span == (if end_x <= start_x { 0 } else { end_x - start_x }),
            end_y <= start_y ==> count == 0,
            end_y > start_y ==> y == end_y,
    ;
    let mut averaged = image.get_pixel(start_x, start_y);
    let mut c: usize = 0;
    while c < 3
        invariant
            c <= 3,
            v == image@,
            count == window_count(start_x as int, end_x as int, start_y as int, end_y as int),
            count <= u32::MAX,
            forall|k: int| 0 <= k < 3 ==> #[trigger] sums[k] == window_sum(v, k, start_x as int, end_x as int, start_y as int, end_y as int),
            forall|k: int| 0 <= k < 3 ==> #[trigger] sums[k] <= 255 * count,
            forall|k: int| 0 <= k < c ==> #[trigger] averaged[k] == rounded_mean(sums[k] as int, count as int) as u8,
            averaged[3] == v.pixel(start_x as int, start_y as int)[3],
        decreases 3 - c,
    {
        proof {
            lemma_rounded_mean_bound(sums[c as int] as int, count as int);
        }
        if count == 0 {
            averaged[c] = 0;
        } else {
            averaged[c] = ((2 * sums[c] + count) / (2 * count)) as u8;
        }
        c = c + 1;
    }
    proof {
        assert(averaged =~= window_average(v, column, row));
        if v.format.spec_is_gray() {
            lemma_window_sum_gray(v, start_x as int, end_x as int, start_y as int, end_y as int);
        }
        assert(v.format.holds(v.pixel(start_x as int, start_y as int)));
    }
    averaged
}

/// Zooms the image out: output pixel `(i, j)` averages the source window of
/// columns `columns[i].0 ..< columns[i].1` and rows `rows[j].0 ..< rows[j].1`
/// (see `window_average`); a window without pixels averages to 0.
pub fn zoom_out(image: &mut Image, columns: &Vec<(u32, u32)>, rows: &Vec<(u32, u32)>)
    requires
        windows_fit(old(image)@, columns@, rows@),
    ensures
        final(image)@ == zoomed_out(old(image)@, columns@, rows@),
{
    let ghost before = image@;
    let format = image.format();
    let new_width = columns.len() as u32;
    let new_height = rows.len() as u32;
    let mut out_rows: Vec<Vec<[u8; 4]>> = Vec::new();
    for y in 0..new_height
        invariant
            before == image@,
            before.wf(),
            windows_fit(before, columns@, rows@),
            new_width == columns.len(),
            new_height == rows.len(),
            out_rows.len() == y,
            forall|j: int| 0 <= j < y ==> #[trigger] out_rows[j].len() == new_width,
            forall|i: int, j: int|
                0 <= i < new_width && 0 <= j < y ==> #[trigger] out_rows[j]@[i] == window_average(before, columns[i], rows[j]),
            forall|i: int, j: int|
                0 <= i < new_width && 0 <= j < y ==> before.format.holds(#[trigger] out_rows[j]@[i]),
    {
        let mut row: Vec<[u8; 4]> = Vec::new();
        for x in 0..new_width
            invariant
                before == image@,
                before.wf(),
                windows_fit(before, columns@, rows@),
                new_width == columns.len(),
                new_height == rows.len(),
                y < new_height,
                row.len() == x,
                forall|i: int| 0 <= i < x ==> #[trigger] row@[i] == window_average(before, columns[i], rows[y as int]),
                forall|i: int| 0 <= i < x ==> before.format.holds(#[trigger] row@[i]),
        {
            assert(columns[x as int].0 < before.width);
            assert(rows[y as int].0 < before.height);
            row.push(average_window(image, columns[x as usize], rows[y as usize]));
        }
        let ghost done = row@;
        out_rows.push(row);
        assert forall|i: int, j: int| 0 <= i < new_width && 0 <= j < y + 1 implies #[trigger] out_rows[j]@[i]
            == window_average(before, columns[i], rows[j]) && before.format.holds(out_rows[j]@[i]) by {
            if j == y {
                assert(out_rows[j]@ == done);
            }
        }
    }
    let result = Image::from_rows(new_width, new_height, format, out_rows);
    proof {
        let z = zoomed_out(before, columns@, rows@);
        assert forall|x: int, y: int| 0 <= x < z.width && 0 <= y < z.height implies z.format.holds(
            #[trigger] z.rows[y][x],
        ) by {
            assert(z.rows[y][x] == out_rows[y]@[x]);
        }
        crate::raster::lemma_same_as_equal(result@, z);
    }
    *image = result;
}

/// Zooming in keeps every source pixel, at twice its coordinates.
pub proof fn zoom_in_keeps_the_source_pixels(v: ImageView, x: int, y: int)
    requires
        v.wf(),
        0 <= x < v.width,
        0 <= y < v.height,
    ensures
        zoomed_in(v).pixel(2 * x, 2 * y) == v.pixel(x, y),
{
}

/// Mirroring left to right twice gives back the image: the same size,
/// format and pixels.
pub proof fn mirror_horizontal_twice_is_identity(v: ImageView)
    requires
        v.wf(),
    ensures
        mirrored_horizontally(mirrored_horizontally(v)).same_as(v),
{
}

/// Mirroring top to bottom twice gives back the image: the same size, format
/// and pixels.
pub proof fn mirror_vertical_twice_is_identity(v: ImageView)
    requires
        v.wf(),
    ensures
        mirrored_vertically(mirrored_vertically(v)).same_as(v),
{
}

/// A clockwise quarter turn followed by a counterclockwise one gives back the
/// image: the same size, format and pixels.
pub proof fn rotating_clockwise_then_counterclockwise_is_identity(v: ImageView)
    requires
        v.wf(),
    ensures
        rotated_counterclockwise(rotated_clockwise(v)).same_as(v),
{
}

/// A counterclockwise quarter turn followed by a clockwise one gives back the
/// image: the same size, format and pixels.
pub proof fn rotating_counterclockwise_then_clockwise_is_identity(v: ImageView)
    requires
        v.wf(),
    ensures
        rotated_clockwise(rotated_counterclockwise(v)).same_as(v),
{
}

/// Four clockwise quarter turns give back the image: the same size, format
/// and pixels.
pub proof fn rotating_clockwise_four_times_is_identity(v: ImageView)
    requires
        v.wf(),
    ensures
        rotated_clockwise(rotated_clockwise(rotated_clockwise(rotated_clockwise(v)))).same_as(v),
{
    let r1 = rotated_clockwise(v);
    let r2 = rotated_clockwise(r1);
    let r3 = rotated_clockwise(r2);
    let r4 = rotated_clockwise(r3);
    assert forall|x: int, y: int| 0 <= x < v.width && 0 <= y < v.height implies #[trigger] r4.pixel(x, y)
        == v.pixel(x, y) by {
        assert(r4.rows[y][x] == r3.rows[r3.height - 1 - x][y]);
        assert(r3.rows[r3.height - 1 - x][y] == r2.rows[r2.height - 1 - y][r3.height - 1 - x]);
        assert(r2.rows[r2.height - 1 - y][r3.height - 1 - x] == r1.rows[r1.height - 1 - (r3.height - 1 - x)][r2.height - 1 - y]);
    }
}

/// The windows of zooming out by a factor of one along both axes: window `i`
/// holds column (or row) `i` alone.
pub open spec fn unit_windows(n: nat) -> Seq<(u32, u32)> {
    Seq::new(n, |i: int| (i as u32, (i + 1) as u32))
}

/// Zooming out with windows of one pixel each gives back the image: the
/// same size, format and pixels.
pub proof fn zooming_out_by_one_is_identity(v: ImageView)
    requires
        v.wf(),
    ensures
        windows_fit(v, unit_windows(v.width), unit_windows(v.height)),
        zoomed_out(v, unit_windows(v.width), unit_windows(v.height)).same_as(v),
{
    let columns = unit_windows(v.width);
    let rows = unit_windows(v.height);
    assert forall|i: int, j: int| 0 <= i < columns.len() && 0 <= j < rows.len() implies
        window_count(columns[i].0 as int, columns[i].1 as int, rows[j].0 as int, rows[j].1 as int) <= u32::MAX by {
        assert((i + 1 - i) * (j + 1 - j) == 1) by (nonlinear_arith);
    }
    let z = zoomed_out(v, columns, rows);
    assert forall|x: int, y: int| 0 <= x < v.width && 0 <= y < v.height implies #[trigger] z.pixel(x, y)
        == v.pixel(x, y) by {
        let p = v.pixel(x, y);
        assert(columns[x] == (x as u32, (x + 1) as u32));
        assert(rows[y] == (y as u32, (y + 1) as u32));
        assert forall|c: int| 0 <= c < 3 implies #[trigger] window_sum(v, c, x, x + 1, y, y + 1) == p[c] by {
            assert(row_sum(v, c, x, x, y) == 0);
            assert(row_sum(v, c, x, x + 1, y) == p[c]);
            assert(window_sum(v, c, x, x + 1, y, y) == 0);
        }
        assert((x + 1 - x) * (y + 1 - y) == 1) by (nonlinear_arith);
        assert forall|c: int| 0 <= c < 3 implies #[trigger] rounded_mean(p[c] as int, 1) == p[c] by {
            let s = p[c] as int;
            assert((2 * s + 1) / 2 == s) by (nonlinear_arith)
                requires 0 <= s;
        }
        assert(z.pixel(x, y) =~= p);
    }
}

/// Zooming in fills the gap between two horizontally adjacent source pixels
/// with their average: each color sample is the mean of the two, halves
/// rounded up, and the alpha sample is the left pixel's.
pub proof fn zoom_in_interpolates_between_source_columns(v: ImageView, x: int, y: int, c: int)
    requires
        v.wf(),
        0 <= x < v.width - 1,
        0 <= y < v.height,
        0 <= c < 3,
    ensures
        zoomed_in(v).pixel(2 * x + 1, 2 * y)[c] == (v.pixel(x, y)[c] + v.pixel(x + 1, y)[c] + 1) / 2,
        zoomed_in(v).pixel(2 * x + 1, 2 * y)[3] == v.pixel(x, y)[3],
{
    assert((2 * x + 1) / 2 == x && (2 * x + 1) % 2 == 1);
    assert((2 * y) / 2 == y && (2 * y) % 2 == 0);
}

/// Zooming in fills every row between two source rows column by column from
/// the zoomed-in rows above and below it: each color sample of the pixel is
/// the mean of the samples of the pixels directly above and below, halves
/// rounded up, and its alpha sample is the upper pixel's. So a pixel in the
/// middle of four source pixels averages the interpolated pixels above and
/// below it.
pub proof fn zoom_in_fills_each_gap_row_from_the_rows_around_it(v: ImageView, x: int, y: int, c: int)
    requires
        v.wf(),
        v.width > 0,
        0 <= x < 2 * v.width - 1,
        0 <= y < v.height - 1,
        0 <= c < 3,
    ensures
        zoomed_in(v).pixel(x, 2 * y + 1)[c] == (zoomed_in(v).pixel(x, 2 * y)[c] + zoomed_in(v).pixel(
            x,
            2 * y + 2,
        )[c] + 1) / 2,
        zoomed_in(v).pixel(x, 2 * y + 1)[3] == zoomed_in(v).pixel(x, 2 * y)[3],
{
    assert((2 * y + 1) / 2 == y && (2 * y + 1) % 2 == 1);
    assert((2 * y) / 2 == y && (2 * y) % 2 == 0);
    assert((2 * y + 2) / 2 == y + 1 && (2 * y + 2) % 2 == 0);
    assert(x / 2 + 1 < v.width || x % 2 == 0);
}

} // verus!
