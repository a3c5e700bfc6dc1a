//! Point operations: conversion to gray (luminance) and tone quantization.
//!
//! The gray value of a color and the tone arithmetic of quantization are
//! computed by functions that the caller hands in; this module decides which
//! pixels they are applied to, and how their results are assembled.
use vstd::prelude::*;
use crate::raster::{ColorFormat, Image, ImageView};

verus! {

/// `after` is what luminance turns `before` into, with `gray_of` giving the
/// gray value of a color: gray images are left as they are; any other image
/// becomes an 8-bit gray image of the same size whose every pixel is a gray
/// value that `gray_of` may return for the red, green and blue samples of the
/// pixel at the same position, and whose every pixel has been written.
pub open spec fn luminance_result<F: Fn(u8, u8, u8) -> u8>(
    before: ImageView,
    after: ImageView,
    gray_of: F,
) -> bool {
    if before.format.spec_is_gray() {
        after == before
    } else {
        &&& after.width == before.width
        &&& after.height == before.height
        &&& after.format == ColorFormat::L8
        &&& forall|x: int, y: int|
            0 <= x < before.width && 0 <= y < before.height ==> {
                let p = before.pixel(x, y);
                let q = #[trigger] after.pixel(x, y);
                &&& q == [q[0], q[0], q[0], 255u8]
                &&& gray_of.ensures((p[0], p[1], p[2]), q[0])
            }
        &&& forall|x: int, y: int|
            0 <= x < before.width && 0 <= y < before.height ==> !#[trigger] after.is_kept(x, y)
    }
}

/// The caller's gray function may be called on any color.
pub open spec fn gray_callable<F: Fn(u8, u8, u8) -> u8>(gray_of: F) -> bool {
    forall|r: u8, g: u8, b: u8| #[trigger] gray_of.requires((r, g, b))
}

/// Converts a color image to an 8-bit gray image, each pixel's gray value
/// being `gray_of(red, green, blue)`; an image that is already gray (with or
/// without alpha, 8 or 16 bits) is left unchanged.
pub fn luminance<F: Fn(u8, u8, u8) -> u8>(image: &mut Image, gray_of: &F)
    requires
        gray_callable(*gray_of),
    ensures
        luminance_result(old(image)@, final(image)@, *gray_of),
        final(image)@.wf(),
{
    let format = image.format();
    if format.is_gray() {
        return;
    }
    let width = image.width();
    let height = image.height();
    let ghost before = image@;
    let mut rows: Vec<Vec<[u8; 4]>> = Vec::new();
    for y in 0..height
        invariant
            before == image@,
            before.wf(),
            width == before.width,
            height == before.height,
            !before.format.spec_is_gray(),
            gray_callable(*gray_of),
            rows.len() == y,
            forall|j: int| 0 <= j < y ==> #[trigger] rows[j].len() == width,
            forall|i: int, j: int|
                0 <= i < width && 0 <= j < y ==> {
                    let p = before.pixel(i, j);
                    let q = #[trigger] rows[j]@[i];
                    &&& q == [q[0], q[0], q[0], 255u8]
                    &&& gray_of.ensures((p[0], p[1], p[2]), q[0])
                },
    {
        let mut row: Vec<[u8; 4]> = Vec::new();
        for x in 0..width
            invariant
                before == image@,
                before.wf(),
                width == before.width,
                height == before.height,
                y < height,
                gray_callable(*gray_of),
                row.len() == x,
                forall|i: int|
                    0 <= i < x ==> {
                        let p = before.pixel(i, y as int);
                        let q = #[trigger] row@[i];
                        &&& q == [q[0], q[0], q[0], 255u8]
                        &&& gray_of.ensures((p[0], p[1], p[2]), q[0])
                    },
        {
            let p = image.get_pixel(x, y);
            let v = gray_of(p[0], p[1], p[2]);
            row.push([v, v, v, 255]);
        }
        rows.push(row);
    }
    *image = Image::from_rows(width, height, ColorFormat::L8, rows);
}


/// Luminance is idempotent: what luminance makes of an image is gray, so
/// luminance leaves it as it is.
pub proof fn luminance_is_idempotent<F: Fn(u8, u8, u8) -> u8>(
    before: ImageView,
    after: ImageView,
    gray_of: F,
)
    requires
        luminance_result(before, after, gray_of),
    ensures
        luminance_result(after, after, gray_of),
{
}

/// `t` is the lowest gray sample of the image.
pub open spec fn is_lowest_tone(v: ImageView, t: u8) -> bool {
    &&& exists|x: int, y: int|
        0 <= x < v.width && 0 <= y < v.height && #[trigger] v.pixel(x, y)[0] == t
    &&& forall|x: int, y: int| 0 <= x < v.width && 0 <= y < v.height ==> t <= #[trigger] v.pixel(x, y)[0]
}

/// `t` is the highest gray sample of the image.
pub open spec fn is_highest_tone(v: ImageView, t: u8) -> bool {
    &&& exists|x: int, y: int|
        0 <= x < v.width && 0 <= y < v.height && #[trigger] v.pixel(x, y)[0] == t
    &&& forall|x: int, y: int| 0 <= x < v.width && 0 <= y < v.height ==> #[trigger] v.pixel(x, y)[0] <= t
}

pub open spec fn lowest_tone(v: ImageView) -> u8 {
    choose|t: u8| is_lowest_tone(v, t)
}

pub open spec fn highest_tone(v: ImageView) -> u8 {
    choose|t: u8| is_highest_tone(v, t)
}

/// Number of distinct tones between the lowest and the highest, both included.
pub open spec fn tone_range_size(v: ImageView) -> int {
    highest_tone(v) - lowest_tone(v) + 1
}

/// The bin that a raw bin index falls in, once held to `0 ..= levels - 1`.
pub open spec fn clamp_bin(raw: i64, levels: u16) -> int {
    if raw < 0 {
        0
    } else if raw > levels - 1 {
        levels - 1
    } else {
        raw as int
    }
}

/// The gray samples that occur in an image.
pub open spec fn tones(v: ImageView) -> Set<u8> {
    Set::new(|t: u8| exists|x: int, y: int| 0 <= x < v.width && 0 <= y < v.height && #[trigger] v.pixel(x, y)[0] == t)
}

/// `after` is what quantization to `levels` tones turns the 8-bit gray image
/// `before` into: when `levels` covers the range between the lowest and the
/// highest tone, nothing changes; otherwise every pixel becomes the tone that
/// `tone_of` gives for the bin (held to `0 ..= levels - 1`) that `bin_of`
/// gives for its tone, and is written.
pub open spec fn quantize_result<B: Fn(u8, u8, u16, u16) -> i64, T: Fn(i64, u8, u16, u16) -> u8>(
    before: ImageView,
    after: ImageView,
    levels: u16,
    bin_of: B,
    tone_of: T,
) -> bool {
    let lo = lowest_tone(before);
    let range = tone_range_size(before);
    if levels >= range {
        after == before
    } else {
        &&& after.width == before.width
        &&& after.height == before.height
        &&& after.format == ColorFormat::L8
        &&& forall|x: int, y: int|
            0 <= x < before.width && 0 <= y < before.height ==> {
                let t = before.pixel(x, y)[0];
                let q = #[trigger] after.pixel(x, y);
                &&& q == [q[0], q[0], q[0], 255u8]
                &&& quantized_tone(bin_of, tone_of, t, lo, range as u16, levels, q[0])
            }
        &&& forall|x: int, y: int|
            0 <= x < before.width && 0 <= y < before.height ==> !#[trigger] after.is_kept(x, y)
    }
}

/// `q` is a tone that quantization may give to tone `t`: the tone that
/// `tone_of` gives for the bin, held to `0 ..= levels - 1`, that `bin_of`
/// gives for `t`.
pub open spec fn quantized_tone<B: Fn(u8, u8, u16, u16) -> i64, T: Fn(i64, u8, u16, u16) -> u8>(
    bin_of: B,
    tone_of: T,
    t: u8,
    lo: u8,
    range: u16,
    levels: u16,
    q: u8,
) -> bool {
    exists|raw: i64|
        #[trigger] bin_of.ensures((t, lo, range, levels), raw)
            && tone_of.ensures((clamp_bin(raw, levels) as i64, lo, range, levels), q)
}

pub open spec fn quantize_callable<B: Fn(u8, u8, u16, u16) -> i64, T: Fn(i64, u8, u16, u16) -> u8>(
    bin_of: B,
    tone_of: T,
) -> bool {
    &&& forall|t: u8, lo: u8, range: u16, levels: u16| #[trigger] bin_of.requires((t, lo, range, levels))
    &&& forall|b: i64, lo: u8, range: u16, levels: u16| #[trigger] tone_of.requires((b, lo, range, levels))
}

/// The lowest and the highest gray sample of a non-empty image.
fn tone_bounds(image: &Image) -> (r: (u8, u8))
    requires
        image@.width > 0,
        image@.height > 0,
    ensures
        is_lowest_tone(image@, r.0),
        is_highest_tone(image@, r.1),
{
    let width = image.width();
    let height = image.height();
    let ghost v = image@;
    let mut min_tone: u8 = 255;
    let mut max_tone: u8 = 0;
    for y in 0..height
        invariant
            v == image@,
            v.wf(),
            width == v.width,
            height == v.height,
            forall|i: int, j: int| 0 <= i < width && 0 <= j < y ==> min_tone <= #[trigger] v.pixel(i, j)[0] <= max_tone,
            min_tone == 255 || exists|i: int, j: int| 0 <= i < width && 0 <= j < y && #[trigger] v.pixel(i, j)[0] == min_tone,
            max_tone == 0 || exists|i: int, j: int| 0 <= i < width && 0 <= j < y && #[trigger] v.pixel(i, j)[0] == max_tone,
    {
        for x in 0..width
            invariant
                v == image@,
                v.wf(),
                width == v.width,
                height == v.height,
                y < height,
                forall|i: int, j: int| 0 <= i < width && 0 <= j < y ==> min_tone <= #[trigger] v.pixel(i, j)[0] <= max_tone,
                forall|i: int| 0 <= i < x ==> min_tone <= #[trigger] v.pixel(i, y as int)[0] <= max_tone,
                min_tone == 255 || (exists|i: int, j: int| 0 <= i < width && 0 <= j < y && #[trigger] v.pixel(i, j)[0] == min_tone)
                    || (exists|i: int| 0 <= i < x && #[trigger] v.pixel(i, y as int)[0] == min_tone),
                max_tone == 0 || (exists|i: int, j: int| 0 <= i < width && 0 <= j < y && #[trigger] v.pixel(i, j)[0] == max_tone)
                    || (exists|i: int| 0 <= i < x && #[trigger] v.pixel(i, y as int)[0] == max_tone),
        {
            let t = image.get_pixel(x, y)[0];
            if t > max_tone {
                max_tone = t;
            }
            if t < min_tone {
                min_tone = t;
            }
            assert(v.pixel(x as int, y as int)[0] == t);
        }
        assert forall|i: int, j: int| 0 <= i < width && 0 <= j < y + 1 implies min_tone <= #[trigger] v.pixel(i, j)[0] <= max_tone by {
            if j == y {
                assert(min_tone <= v.pixel(i, y as int)[0] <= max_tone);
            }
        }
    }
    if min_tone == 255 {
        assert(v.pixel(0, 0)[0] == 255);
    }
    if max_tone == 0 {
        assert(v.pixel(0, 0)[0] == 0);
    }
    (min_tone, max_tone)
}

/// Reduces the tones of an 8-bit gray image to at most `levels` tones.
///
/// The lowest and highest tones of the image are found; when `levels` is at
/// least the number of tones between them (both included) the image is left
/// unchanged. Otherwise each tone `t` goes to the bin
/// `bin_of(t, lowest, range, levels)`, held to `0 ..= levels - 1`, and
/// becomes the tone `tone_of(bin, lowest, range, levels)`.
pub fn quantize<B: Fn(u8, u8, u16, u16) -> i64, T: Fn(i64, u8, u16, u16) -> u8>(
    image: &mut Image,
    levels: u16,
    bin_of: &B,
    tone_of: &T,
)
    requires
        old(image)@.format == ColorFormat::L8,
        old(image)@.width > 0,
        old(image)@.height > 0,
        levels >= 1,
        quantize_callable(*bin_of, *tone_of),
    ensures
        quantize_result(old(image)@, final(image)@, levels, *bin_of, *tone_of),
        tones(final(image)@).finite(),
        tones(final(image)@).len() <= levels,
        final(image)@.wf(),
{
    let ghost before = image@;
    let width = image.width();
    let height = image.height();
    let (min_tone, max_tone) = tone_bounds(image);
    proof {
        lemma_tone_bounds_unique(before, min_tone, max_tone);
    }
    let tone_range_size: u16 = (max_tone - min_tone) as u16 + 1;
    if levels >= tone_range_size {
        proof {
            lemma_tones_bounded_by_range(before, min_tone, max_tone);
        }
        return;
    }
    let mut table: Vec<u8> = Vec::new();
    let mut b: u16 = 0;
    while b < levels
        invariant
            b <= levels,
            table.len() == b,
            quantize_callable(*bin_of, *tone_of),
            forall|k: int| 0 <= k < b ==> #[trigger] tone_of.ensures((k as i64, min_tone, tone_range_size, levels), table[k]),
        decreases levels - b,
    {
        let tone = tone_of(b as i64, min_tone, tone_range_size, levels);
        table.push(tone);
        b = b + 1;
    }
    let mut rows: Vec<Vec<[u8; 4]>> = Vec::new();
    for y in 0..height
        invariant
            before == image@,
            before.wf(),
            width == before.width,
            height == before.height,
            levels >= 1,
            table.len() == levels,
            quantize_callable(*bin_of, *tone_of),
            forall|k: int| 0 <= k < levels ==> #[trigger] tone_of.ensures((k as i64, min_tone, tone_range_size, levels), table[k]),
            rows.len() == y,
            forall|j: int| 0 <= j < y ==> #[trigger] rows[j].len() == width,
            forall|i: int, j: int|
                0 <= i < width && 0 <= j < y ==> {
                    let t = before.pixel(i, j)[0];
                    let q = #[trigger] rows[j]@[i];
                    &&& q == [q[0], q[0], q[0], 255u8]
                    &&& exists|k: int| 0 <= k < levels && table[k] == q[0]
                    &&& quantized_tone(*bin_of, *tone_of, t, min_tone, tone_range_size, levels, q[0])
                },
    {
        let mut row: Vec<[u8; 4]> = Vec::new();
        for x in 0..width
            invariant
                before == image@,
                before.wf(),
                width == before.width,
                height == before.height,
                y < height,
                levels >= 1,
                table.len() == levels,
                quantize_callable(*bin_of, *tone_of),
                forall|k: int| 0 <= k < levels ==> #[trigger] tone_of.ensures((k as i64, min_tone, tone_range_size, levels), table[k]),
                row.len() == x,
                forall|i: int|
                    0 <= i < x ==> {
                        let t = before.pixel(i, y as int)[0];
                        let q = #[trigger] row@[i];
                        &&& q == [q[0], q[0], q[0], 255u8]
                        &&& exists|k: int| 0 <= k < levels && table[k] == q[0]
                        &&& quantized_tone(*bin_of, *tone_of, t, min_tone, tone_range_size, levels, q[0])
                    },
        {
            let t = image.get_pixel(x, y)[0];
            let raw = bin_of(t, min_tone, tone_range_size, levels);
            let last: i64 = levels as i64 - 1;
            let bin: i64 = if raw < 0 {
                0
            } else if raw > last {
                last
            } else {
                raw
            };
            let q = table[bin as usize];
            assert(tone_of.ensures((clamp_bin(raw, levels) as i64, min_tone, tone_range_size, levels), q));
            assert(quantized_tone(*bin_of, *tone_of, t, min_tone, tone_range_size, levels, q));
            assert(table[bin as int] == q);
            row.push([q, q, q, 255]);
        }
        let ghost done = row@;
        rows.push(row);
        assert forall|i: int, j: int| 0 <= i < width && 0 <= j < y + 1 implies {
            let t = before.pixel(i, j)[0];
            let q = #[trigger] rows[j]@[i];
            &&& q == [q[0], q[0], q[0], 255u8]
            &&& exists|k: int| 0 <= k < levels && table[k] == q[0]
            &&& quantized_tone(*bin_of, *tone_of, t, min_tone, tone_range_size, levels, q[0])
        } by {
            if j == y {
                assert(rows[j]@ == done);
            }
        }
    }
    *image = Image::from_rows(width, height, ColorFormat::L8, rows);
    proof {
        let after = image@;
        assert(tones(after).subset_of(table@.to_set())) by {
            assert forall|t: u8| tones(after).contains(t) implies table@.to_set().contains(t) by {
                let (x, y) = choose|x: int, y: int| 0 <= x < after.width && 0 <= y < after.height && #[trigger] after.pixel(x, y)[0] == t;
                assert(after.pixel(x, y) == rows[y]@[x]);
                let k = choose|k: int| 0 <= k < levels && table[k] == after.pixel(x, y)[0];
                assert(table@.contains(t));
            }
        }
        table@.lemma_cardinality_of_set();
        vstd::seq_lib::seq_to_set_is_finite(table@);
        vstd::set_lib::lemma_len_subset(tones(after), table@.to_set());
    }
}

/// The lowest and highest tones are the ones that `lowest_tone` and
/// `highest_tone` pick.
proof fn lemma_tone_bounds_unique(v: ImageView, lo: u8, hi: u8)
    requires
        is_lowest_tone(v, lo),
        is_highest_tone(v, hi),
    ensures
        lowest_tone(v) == lo,
        highest_tone(v) == hi,
        lo <= hi,
{
    let l = lowest_tone(v);
    let h = highest_tone(v);
    let (x1, y1) = choose|x: int, y: int| 0 <= x < v.width && 0 <= y < v.height && #[trigger] v.pixel(x, y)[0] == l;
    let (x2, y2) = choose|x: int, y: int| 0 <= x < v.width && 0 <= y < v.height && #[trigger] v.pixel(x, y)[0] == lo;
    assert(lo <= v.pixel(x1, y1)[0]);
    assert(l <= v.pixel(x2, y2)[0]);
    let (x3, y3) = choose|x: int, y: int| 0 <= x < v.width && 0 <= y < v.height && #[trigger] v.pixel(x, y)[0] == h;
    let (x4, y4) = choose|x: int, y: int| 0 <= x < v.width && 0 <= y < v.height && #[trigger] v.pixel(x, y)[0] == hi;
    assert(v.pixel(x3, y3)[0] <= hi);
    assert(v.pixel(x4, y4)[0] <= h);
    assert(v.pixel(x2, y2)[0] <= hi);
}

/// The tones of an image lie between its lowest and highest tone, so there
/// are no more of them than the size of that range.
proof fn lemma_tones_bounded_by_range(v: ImageView, lo: u8, hi: u8)
    requires
        is_lowest_tone(v, lo),
        is_highest_tone(v, hi),
    ensures
        tones(v).finite(),
        tones(v).len() <= hi - lo + 1,
{
    let span = Seq::new((hi - lo + 1) as nat, |i: int| (lo + i) as u8);
    assert forall|t: u8| tones(v).contains(t) implies span.to_set().contains(t) by {
        let (x, y) = choose|x: int, y: int| 0 <= x < v.width && 0 <= y < v.height && #[trigger] v.pixel(x, y)[0] == t;
        assert(lo <= v.pixel(x, y)[0] <= hi);
        assert(span[t - lo] == t);
        assert(span.contains(t));
    }
    assert(tones(v).subset_of(span.to_set()));
    span.lemma_cardinality_of_set();
    vstd::seq_lib::seq_to_set_is_finite(span);
    vstd::set_lib::lemma_len_subset(tones(v), span.to_set());
}

/// Quantization lays its bins over the image's own tone range: `bin_of` and
/// `tone_of` are handed the lowest tone of the whole image and the number of
/// tones from it up to the highest. When `levels` covers that range nothing
/// changes; otherwise each pixel becomes a gray, opaque, written pixel whose
/// tone is one that `tone_of` gives for the bin (held to `0 ..= levels - 1`)
/// that `bin_of` gives for the pixel's tone.
pub proof fn quantize_bins_start_at_the_lowest_tone<
    B: Fn(u8, u8, u16, u16) -> i64,
    T: Fn(i64, u8, u16, u16) -> u8,
>(before: ImageView, after: ImageView, levels: u16, bin_of: B, tone_of: T, lo: u8, hi: u8)
    requires
        before.wf(),
        is_lowest_tone(before, lo),
        is_highest_tone(before, hi),
        quantize_result(before, after, levels, bin_of, tone_of),
    ensures
        levels >= hi - lo + 1 ==> after == before,
        levels < hi - lo + 1 ==> {
            &&& after.width == before.width
            &&& after.height == before.height
            &&& after.format == ColorFormat::L8
            &&& forall|x: int, y: int|
                0 <= x < before.width && 0 <= y < before.height ==> {
                    let t = before.pixel(x, y)[0];
                    let q = #[trigger] after.pixel(x, y);
                    &&& q == [q[0], q[0], q[0], 255u8]
                    &&& !after.is_kept(x, y)
                    &&& exists|raw: i64|
                        #[trigger] bin_of.ensures((t, lo, (hi - lo + 1) as u16, levels), raw) && tone_of.ensures(
                            (
                                (if raw < 0 {
                                    0i64
                                } else if raw > levels as i64 - 1 {
                                    (levels - 1) as i64
                                } else {
                                    raw
                                }),
                                lo,
                                (hi - lo + 1) as u16,
                                levels,
                            ),
                            q[0],
                        )
                }
        },
{
    lemma_tone_bounds_unique(before, lo, hi);
    if levels < hi - lo + 1 {
        assert forall|x: int, y: int| 0 <= x < before.width && 0 <= y < before.height implies {
            let t = before.pixel(x, y)[0];
            let q = #[trigger] after.pixel(x, y);
            exists|raw: i64|
                #[trigger] bin_of.ensures((t, lo, (hi - lo + 1) as u16, levels), raw) && tone_of.ensures(
                    (
                        (if raw < 0 {
                            0i64
                        } else if raw > levels as i64 - 1 {
                            (levels - 1) as i64
                        } else {
                            raw
                        }),
                        lo,
                        (hi - lo + 1) as u16,
                        levels,
                    ),
                    q[0],
                )
        } by {
            let t = before.pixel(x, y)[0];
            let q = after.pixel(x, y);
            assert(quantized_tone(bin_of, tone_of, t, lo, (hi - lo + 1) as u16, levels, q[0]));
            let raw = choose|raw: i64|
                #[trigger] bin_of.ensures((t, lo, (hi - lo + 1) as u16, levels), raw)
                    && tone_of.ensures((clamp_bin(raw, levels) as i64, lo, (hi - lo + 1) as u16, levels), q[0]);
            let clamped: i64 = if raw < 0 {
                0i64
            } else if raw > levels as i64 - 1 {
                (levels - 1) as i64
            } else {
                raw
            };
            assert(clamp_bin(raw, levels) as i64 == clamped);
        }
    }
}

} // verus!
