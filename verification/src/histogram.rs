//! Gray-level histograms.
use vstd::prelude::*;
use crate::raster::{ColorFormat, Image, ImageView};
use crate::point::{gray_callable, luminance, luminance_result};

verus! {

/// Number of pixels among the first `n` of `row` whose first sample is `t`.
pub open spec fn count_in_row(row: Seq<[u8; 4]>, t: u8, n: int) -> nat
    decreases n,
{
    if n <= 0 {
        0
    } else {
        count_in_row(row, t, n - 1) + if row[n - 1][0] == t { 1nat } else { 0nat }
    }
}

/// Number of pixels in the first `m` rows of the image whose first sample is `t`.
pub open spec fn count_in_rows(v: ImageView, t: u8, m: int) -> nat
    decreases m,
{
    if m <= 0 {
        0
    } else {
        count_in_rows(v, t, m - 1) + count_in_row(v.rows[m - 1], t, v.width as int)
    }
}

/// Number of pixels of the image whose first sample is `t`.
pub open spec fn tone_count(v: ImageView, t: u8) -> nat {
    count_in_rows(v, t, v.height as int)
}

/// The histogram of the image's first samples: entry `t` counts the pixels
/// of tone `t`.
pub open spec fn histogram_of(v: ImageView) -> Seq<u32> {
    Seq::new(256, |t: int| tone_count(v, t as u8) as u32)
}

/// Sum of the entries of a sequence.
pub open spec fn total(s: Seq<u32>) -> int
    decreases s.len(),
{
    if s.len() == 0 {
        0
    } else {
        total(s.drop_last()) + s.last()
    }
}

proof fn lemma_total_increment(s: Seq<u32>, i: int)
    requires
        0 <= i < s.len(),
        s[i] < u32::MAX,
    ensures
        total(s.update(i, (s[i] + 1) as u32)) == total(s) + 1,
    decreases s.len(),
{
    let u = s.update(i, (s[i] + 1) as u32);
    if i == s.len() - 1 {
        assert(u.drop_last() =~= s.drop_last());
    } else {
        assert(u.drop_last() =~= s.drop_last().update(i, (s[i] + 1) as u32));
        lemma_total_increment(s.drop_last(), i);
    }
}

proof fn lemma_total_nonnegative(s: Seq<u32>)
    ensures
        total(s) >= 0,
    decreases s.len(),
{
    if s.len() > 0 {
        lemma_total_nonnegative(s.drop_last());
    }
}

proof fn lemma_entry_at_most_total(s: Seq<u32>, i: int)
    requires
        0 <= i < s.len(),
    ensures
        s[i] <= total(s),
    decreases s.len(),
{
    lemma_total_nonnegative(s.drop_last());
    if i < s.len() - 1 {
        lemma_entry_at_most_total(s.drop_last(), i);
    }
}

proof fn lemma_total_zeros(n: nat)
    ensures
        total(Seq::new(n, |i: int| 0u32)) == 0,
    decreases n,
{
    if n > 0 {
        assert(Seq::new(n, |i: int| 0u32).drop_last() =~= Seq::new((n - 1) as nat, |i: int| 0u32));
        lemma_total_zeros((n - 1) as nat);
    }
}

/// Counts, for each tone, the pixels whose first sample has that tone.
fn tone_histogram(image: &Image) -> (histogram: [u32; 256])
    requires
        image@.width * image@.height <= u32::MAX,
    ensures
        histogram@ == histogram_of(image@),
        total(histogram@) == image@.width * image@.height,
{
    let width = image.width();
    let height = image.height();
    let ghost v = image@;
    let mut histogram = [0u32; 256];
    let ghost mut seen: int = 0;
    proof {
        assert(histogram@ =~= Seq::new(256, |i: int| 0u32));
        lemma_total_zeros(256);
        assert(0 * width == 0);
    }
    for y in 0..height
        invariant
            v == image@,
            v.wf(),
            width == v.width,
            height == v.height,
            width * height <= u32::MAX,
            seen == y * width,
            total(histogram@) == seen,
            forall|t: int| 0 <= t < 256 ==> #[trigger] histogram@[t] == count_in_rows(v, t as u8, y as int),
    {
        proof {
            assert(seen + width <= width * height) by (nonlinear_arith)
                requires seen == y * width, y < height;
        }
        for x in 0..width
            invariant
                v == image@,
                v.wf(),
                width == v.width,
                height == v.height,
                y < height,
                width * height <= u32::MAX,
                seen == y * width + x,
                seen <= y * width + width,
                y * width + width <= width * height,
                total(histogram@) == seen,
                forall|t: int| 0 <= t < 256 ==> #[trigger] histogram@[t] == count_in_rows(v, t as u8, y as int)
                    + count_in_row(v.rows[y as int], t as u8, x as int),
        {
            let tone = image.get_pixel(x, y)[0];
            proof {
                lemma_entry_at_most_total(histogram@, tone as int);
                lemma_total_increment(histogram@, tone as int);
            }
            let ghost prev = histogram@;
            histogram[tone as usize] = histogram[tone as usize] + 1;
            proof {
                assert(histogram@ == prev.update(tone as int, (prev[tone as int] + 1) as u32));
                seen = seen + 1;
                assert forall|t: int| 0 <= t < 256 implies #[trigger] histogram@[t] == count_in_rows(v, t as u8, y as int)
                    + count_in_row(v.rows[y as int], t as u8, x + 1) by {
                    assert(v.rows[y as int][x as int] == v.pixel(x as int, y as int));
                    assert((t as u8 == tone) == (t == tone as int));
                }
            }
        }
        proof {
            assert(seen == (y + 1) * width) by (nonlinear_arith)
                requires seen == y * width + width;
        }
    }
    proof {
        assert(histogram@ =~= histogram_of(v));
        assert(seen == v.width * v.height) by (nonlinear_arith)
            requires seen == height * width, width == v.width, height == v.height;
    }
    histogram
}

/// The gray-level histogram of the image: the image is turned gray with
/// `luminance` and `gray_of`, and entry `t` counts its pixels of tone `t`.
pub fn compute_histogram<F: Fn(u8, u8, u8) -> u8>(image: &Image, gray_of: &F) -> (histogram: [u32; 256])
    requires
        gray_callable(*gray_of),
        image@.format != ColorFormat::La8,
        image@.format != ColorFormat::L16,
        image@.format != ColorFormat::La16,
        image@.width * image@.height <= u32::MAX,
    ensures
        exists|gray: ImageView|
            #[trigger] luminance_result(image@, gray, *gray_of)
                && gray.format == ColorFormat::L8
                && histogram@ == histogram_of(gray),
        total(histogram@) == image@.width * image@.height,
{
    let mut grayscale = image.duplicate();
    luminance(&mut grayscale, gray_of);
    tone_histogram(&grayscale)
}

} // verus!
