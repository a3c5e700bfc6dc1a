//! The raster type that every operation works on.
//!
//! An image is a grid of pixels seen as 8-bit RGBA samples, together with the
//! color format in which it is stored. A format without color keeps the three
//! color samples equal; a format without alpha keeps the alpha sample at 255.
//!
//! An operation that writes a pixel stores its 8-bit value in the image's
//! format. A pixel that no operation has written since the image was made is
//! marked as kept: it still holds the sample it was made with, which in a
//! 16-bit or floating-point format can be finer than its 8-bit view.
use vstd::prelude::*;

verus! {

/// The storage format of an image.
#[derive(Clone, Copy, PartialEq, Eq, Structural, Debug)]
pub enum ColorFormat {
    L8,
    La8,
    Rgb8,
    Rgba8,
    L16,
    La16,
    Rgb16,
    Rgba16,
    Rgb32F,
    Rgba32F,
}

impl ColorFormat {
    /// The format holds a single gray sample per pixel.
    pub open spec fn spec_is_gray(self) -> bool {
        self is L8 || self is La8 || self is L16 || self is La16
    }

    /// The format holds an alpha sample.
    pub open spec fn spec_has_alpha(self) -> bool {
        self is La8 || self is Rgba8 || self is La16 || self is Rgba16 || self is Rgba32F
    }

    /// A pixel, seen as RGBA samples, can be stored in this format unchanged.
    pub open spec fn holds(self, p: [u8; 4]) -> bool {
        &&& self.spec_is_gray() ==> (p[0] == p[1] && p[1] == p[2])
        &&& !self.spec_has_alpha() ==> p[3] == 255
    }

    pub fn is_gray(&self) -> (r: bool)
        ensures
            r == self.spec_is_gray(),
    {
        match self {
            ColorFormat::L8 | ColorFormat::La8 | ColorFormat::L16 | ColorFormat::La16 => true,
            _ => false,
        }
    }

    pub fn has_alpha(&self) -> (r: bool)
        ensures
            r == self.spec_has_alpha(),
    {
        match self {
            ColorFormat::La8
            | ColorFormat::Rgba8
            | ColorFormat::La16
            | ColorFormat::Rgba16
            | ColorFormat::Rgba32F => true,
            _ => false,
        }
    }

    /// The pixel of a freshly created image of this format: black, and
    /// transparent where the format has alpha.
    pub fn blank_pixel(&self) -> (p: [u8; 4])
        ensures
            p == blank_pixel_of(*self),
            self.holds(p),
    {
        if self.has_alpha() {
            [0, 0, 0, 0]
        } else {
            [0, 0, 0, 255]
        }
    }
}

pub open spec fn blank_pixel_of(format: ColorFormat) -> [u8; 4] {
    if format.spec_has_alpha() {
        [0u8, 0u8, 0u8, 0u8]
    } else {
        [0u8, 0u8, 0u8, 255u8]
    }
}

/// The mathematical model of an image: its size, format, rows of pixels, and
/// for each pixel whether it is still the one the image was made with.
#[verifier::ext_equal]
pub struct ImageView {
    pub width: nat,
    pub height: nat,
    pub format: ColorFormat,
    pub rows: Seq<Seq<[u8; 4]>>,
    pub kept: Seq<Seq<bool>>,
}

/// A grid of `height` rows of `width` flags, all equal to `flag`.
pub open spec fn uniform_flags_of(width: nat, height: nat, flag: bool) -> Seq<Seq<bool>> {
    Seq::new(height, |y: int| Seq::new(width, |x: int| flag))
}

impl ImageView {
    /// `rows[y][x]` is the pixel in column `x` of row `y`.
    pub open spec fn pixel(self, x: int, y: int) -> [u8; 4] {
        self.rows[y][x]
    }

    /// The pixel in column `x` of row `y` has not been written since the
    /// image was made.
    pub open spec fn is_kept(self, x: int, y: int) -> bool {
        self.kept[y][x]
    }

    pub open spec fn wf(self) -> bool {
        &&& self.width <= u32::MAX
        &&& self.height <= u32::MAX
        &&& self.rows.len() == self.height
        &&& forall|y: int| 0 <= y < self.height ==> #[trigger] self.rows[y].len() == self.width
        &&& self.kept.len() == self.height
        &&& forall|y: int| 0 <= y < self.height ==> #[trigger] self.kept[y].len() == self.width
        &&& forall|x: int, y: int|
            0 <= x < self.width && 0 <= y < self.height ==> self.format.holds(
                #[trigger] self.rows[y][x],
            )
    }

    /// Same size and format, and the same pixel at every position.
    pub open spec fn same_as(self, other: ImageView) -> bool {
        &&& self.width == other.width
        &&& self.height == other.height
        &&& self.format == other.format
        &&& forall|x: int, y: int|
            0 <= x < self.width && 0 <= y < self.height ==> #[trigger] self.pixel(x, y)
                == other.pixel(x, y)
    }

    /// The same pixels are kept in both images.
    pub open spec fn same_kept(self, other: ImageView) -> bool {
        forall|x: int, y: int|
            0 <= x < self.width && 0 <= y < self.height ==> #[trigger] self.is_kept(x, y)
                == other.is_kept(x, y)
    }
}

/// Two well-formed views that agree on size, format, every pixel and every
/// kept mark are equal.
pub proof fn lemma_same_as_equal(a: ImageView, b: ImageView)
    requires
        a.wf(),
        b.wf(),
        a.same_as(b),
        a.same_kept(b),
    ensures
        a == b,
{
    assert forall|y: int| 0 <= y < a.height implies a.rows[y] =~= b.rows[y] by {
        assert forall|x: int| 0 <= x < a.width implies a.rows[y][x] == b.rows[y][x] by {
            assert(a.pixel(x, y) == b.pixel(x, y));
        }
    }
    assert forall|y: int| 0 <= y < a.height implies a.kept[y] =~= b.kept[y] by {
        assert forall|x: int| 0 <= x < a.width implies a.kept[y][x] == b.kept[y][x] by {
            assert(a.is_kept(x, y) == b.is_kept(x, y));
        }
    }
    assert(a.rows =~= b.rows);
    assert(a.kept =~= b.kept);
    assert(a =~= b);
}

/// A grid of `height` rows of `width` flags, all equal to `flag`.
pub(crate) fn uniform_flags(width: u32, height: u32, flag: bool) -> (flags: Vec<Vec<bool>>)
    ensures
        flags.len() == height,
        forall|y: int| 0 <= y < height ==> #[trigger] flags[y].len() == width,
        forall|x: int, y: int| 0 <= x < width && 0 <= y < height ==> #[trigger] flags[y]@[x] == flag,
{
    let mut flags: Vec<Vec<bool>> = Vec::new();
    for y in 0..height
        invariant
            flags.len() == y,
            forall|j: int| 0 <= j < y ==> #[trigger] flags[j].len() == width,
            forall|i: int, j: int| 0 <= i < width && 0 <= j < y ==> #[trigger] flags[j]@[i] == flag,
    {
        let mut row: Vec<bool> = Vec::new();
        for x in 0..width
            invariant
                row.len() == x,
                forall|i: int| 0 <= i < x ==> #[trigger] row@[i] == flag,
        {
            row.push(flag);
        }
        let ghost done = row@;
        flags.push(row);
        assert forall|i: int, j: int| 0 <= i < width && 0 <= j < y + 1 implies #[trigger] flags[j]@[i] == flag by {
            if j == y {
                assert(flags[j]@ == done);
            }
        }
    }
    flags
}

/// A raster image.
pub struct Image {
    width: u32,
    height: u32,
    format: ColorFormat,
    rows: Vec<Vec<[u8; 4]>>,
    kept: Vec<Vec<bool>>,
}

impl View for Image {
    type V = ImageView;

    closed spec fn view(&self) -> ImageView {
        ImageView {
            width: self.width as nat,
            height: self.height as nat,
            format: self.format,
            rows: self.rows@.map_values(|r: Vec<[u8; 4]>| r@),
            kept: self.kept@.map_values(|r: Vec<bool>| r@),
        }
    }
}

impl Image {
    #[verifier::type_invariant]
    closed spec fn inv(self) -> bool {
        self@.wf()
    }

    /// Builds an image from rows of pixels and, for each pixel, whether it is
    /// kept.
    pub(crate) fn from_rows_and_flags(
        width: u32,
        height: u32,
        format: ColorFormat,
        rows: Vec<Vec<[u8; 4]>>,
        kept: Vec<Vec<bool>>,
    ) -> (img: Image)
        requires
            rows.len() == height,
            forall|y: int| 0 <= y < height ==> #[trigger] rows[y].len() == width,
            forall|x: int, y: int|
                0 <= x < width && 0 <= y < height ==> format.holds(#[trigger] rows[y]@[x]),
            kept.len() == height,
            forall|y: int| 0 <= y < height ==> #[trigger] kept[y].len() == width,
        ensures
            img@.width == width,
            img@.height == height,
            img@.format == format,
            forall|x: int, y: int|
                0 <= x < width && 0 <= y < height ==> #[trigger] img@.pixel(x, y) == rows[y][x],
            forall|x: int, y: int|
                0 <= x < width && 0 <= y < height ==> #[trigger] img@.is_kept(x, y) == kept[y][x],
            img@.wf(),
    {
        let ghost m = rows@.map_values(|r: Vec<[u8; 4]>| r@);
        let ghost k = kept@.map_values(|r: Vec<bool>| r@);
        proof {
            assert forall|y: int| 0 <= y < height implies #[trigger] m[y].len() == width by {
                assert(rows[y].len() == width);
                assert(m[y] == rows[y]@);
            }
            assert forall|y: int| 0 <= y < height implies #[trigger] k[y].len() == width by {
                assert(kept[y].len() == width);
                assert(k[y] == kept[y]@);
            }
            assert forall|x: int, y: int| 0 <= x < width && 0 <= y < height implies format.holds(
                #[trigger] m[y][x],
            ) by {
                assert(m[y] == rows[y]@);
            }
        }
        let img = Image { width, height, format, rows, kept };
        proof {
            assert(img@.rows == m);
            assert(img@.kept == k);
            assert forall|x: int, y: int| 0 <= x < width && 0 <= y < height implies #[trigger] img@.pixel(x, y) == rows[y][x] by {
                assert(m[y] == rows[y]@);
            }
            assert forall|x: int, y: int| 0 <= x < width && 0 <= y < height implies #[trigger] img@.is_kept(x, y) == kept[y][x] by {
                assert(k[y] == kept[y]@);
            }
        }
        img
    }

    /// Builds an image from rows of pixels that have all been written.
    pub(crate) fn from_rows(
        width: u32,
        height: u32,
        format: ColorFormat,
        rows: Vec<Vec<[u8; 4]>>,
    ) -> (img: Image)
        requires
            rows.len() == height,
            forall|y: int| 0 <= y < height ==> #[trigger] rows[y].len() == width,
            forall|x: int, y: int|
                0 <= x < width && 0 <= y < height ==> format.holds(#[trigger] rows[y]@[x]),
        ensures
            img@.width == width,
            img@.height == height,
            img@.format == format,
            forall|x: int, y: int|
                0 <= x < width && 0 <= y < height ==> #[trigger] img@.pixel(x, y) == rows[y][x],
            forall|x: int, y: int|
                0 <= x < width && 0 <= y < height ==> !#[trigger] img@.is_kept(x, y),
            img@.wf(),
    {
        let kept = uniform_flags(width, height, false);
        Image::from_rows_and_flags(width, height, format, rows, kept)
    }

    /// A black image (transparent where the format has alpha) of the given size.
    pub fn new(width: u32, height: u32, format: ColorFormat) -> (img: Image)
        ensures
            img@.width == width,
            img@.height == height,
            img@.format == format,
            forall|x: int, y: int|
                0 <= x < width && 0 <= y < height ==> #[trigger] img@.pixel(x, y)
                    == blank_pixel_of(format),
            forall|x: int, y: int| 0 <= x < width && 0 <= y < height ==> #[trigger] img@.is_kept(x, y),
    {
        let blank = format.blank_pixel();
        let mut rows: Vec<Vec<[u8; 4]>> = Vec::new();
        for y in 0..height
            invariant
                rows.len() == y,
                blank == blank_pixel_of(format),
                forall|j: int| 0 <= j < y ==> #[trigger] rows[j].len() == width,
                forall|i: int, j: int|
                    0 <= i < width && 0 <= j < y ==> #[trigger] rows[j][i] == blank,
        {
            let mut row: Vec<[u8; 4]> = Vec::new();
            for x in 0..width
                invariant
                    row.len() == x,
                    forall|i: int| 0 <= i < x ==> #[trigger] row[i] == blank,
            {
                row.push(blank);
            }
            rows.push(row);
        }
        let kept = uniform_flags(width, height, true);
        Image::from_rows_and_flags(width, height, format, rows, kept)
    }

    pub fn width(&self) -> (w: u32)
        ensures
            w == self@.width,
            self@.wf(),
    {
        proof {
            use_type_invariant(self);
        }
        self.width
    }

    pub fn height(&self) -> (h: u32)
        ensures
            h == self@.height,
            self@.wf(),
    {
        proof {
            use_type_invariant(self);
        }
        self.height
    }

    pub fn format(&self) -> (f: ColorFormat)
        ensures
            f == self@.format,
            self@.wf(),
    {
        proof {
            use_type_invariant(self);
        }
        self.format
    }

    /// The pixel in column `x` of row `y`.
    pub fn get_pixel(&self, x: u32, y: u32) -> (p: [u8; 4])
        requires
            x < self@.width,
            y < self@.height,
        ensures
            p == self@.pixel(x as int, y as int),
            self@.format.holds(p),
    {
        proof {
            use_type_invariant(self);
            assert(self@.rows[y as int] == self.rows[y as int]@);
        }
        self.rows[y as usize][x as usize]
    }

    /// Whether the pixel in column `x` of row `y` has not been written since
    /// the image was made.
    pub fn is_kept(&self, x: u32, y: u32) -> (k: bool)
        requires
            x < self@.width,
            y < self@.height,
        ensures
            k == self@.is_kept(x as int, y as int),
    {
        proof {
            use_type_invariant(self);
            assert(self@.kept[y as int] == self.kept[y as int]@);
        }
        self.kept[y as usize][x as usize]
    }

    /// An image built from its pixels listed row after row; `None` unless
    /// there are exactly `width * height` pixels and each of them can be stored
    /// in `format`.
    pub fn from_pixels(width: u32, height: u32, format: ColorFormat, pixels: Vec<[u8; 4]>) -> (img:
        Option<Image>)
        ensures
            img is Some <==> (pixels.len() == width * height && forall|i: int|
                0 <= i < pixels.len() ==> format.holds(#[trigger] pixels[i])),
            img matches Some(img) ==> {
                &&& img@.width == width
                &&& img@.height == height
                &&& img@.format == format
                &&& forall|x: int, y: int|
                    0 <= x < width && 0 <= y < height ==> #[trigger] img@.pixel(x, y) == pixels[y * width + x]
                &&& forall|x: int, y: int| 0 <= x < width && 0 <= y < height ==> #[trigger] img@.is_kept(x, y)
            },
    {
        assert(width as u64 * height as u64 <= u64::MAX) by (nonlinear_arith)
            requires width <= u32::MAX, height <= u32::MAX;
        let count = width as u64 * height as u64;
        if pixels.len() as u64 != count {
            return None;
        }
        let mut k: usize = 0;
        while k < pixels.len()
            invariant
                k <= pixels.len(),
                forall|i: int| 0 <= i < k ==> format.holds(#[trigger] pixels[i]),
            decreases pixels.len() - k,
        {
            let p = pixels[k];
            let fits = (!format.is_gray() || (p[0] == p[1] && p[1] == p[2])) && (format.has_alpha()
                || p[3] == 255);
            if !fits {
                assert(!format.holds(pixels[k as int]));
                return None;
            }
            k = k + 1;
        }
        let mut rows: Vec<Vec<[u8; 4]>> = Vec::new();
        for y in 0..height
            invariant
                pixels.len() == width * height,
                forall|i: int| 0 <= i < pixels.len() ==> format.holds(#[trigger] pixels[i]),
                rows.len() == y,
                forall|j: int| 0 <= j < y ==> #[trigger] rows[j].len() == width,
                forall|i: int, j: int| 0 <= i < width && 0 <= j < y ==> #[trigger] rows[j]@[i] == pixels[j * width + i],
        {
            let mut row: Vec<[u8; 4]> = Vec::new();
            for x in 0..width
                invariant
                    pixels.len() == width * height,
                    y < height,
                    row.len() == x,
                    forall|i: int| 0 <= i < x ==> #[trigger] row@[i] == pixels[y * width + i],
            {
                assert(y * width + x < width * height) by (nonlinear_arith)
                    requires x < width, y < height;
                let index = y as usize * width as usize + x as usize;
                row.push(pixels[index]);
            }
            let ghost done = row@;
            rows.push(row);
            assert forall|i: int, j: int| 0 <= i < width && 0 <= j < y + 1 implies #[trigger] rows[j]@[i]
                == pixels[j * width + i] by {
                if j == y {
                    assert(rows[j]@ == done);
                }
            }
        }
        proof {
            assert forall|x: int, y: int| 0 <= x < width && 0 <= y < height implies format.holds(#[trigger] rows[y]@[x]) by {
                assert(0 <= y * width + x < width * height) by (nonlinear_arith)
                    requires 0 <= x < width, 0 <= y < height;
            }
        }
        let kept = uniform_flags(width, height, true);
        Some(Image::from_rows_and_flags(width, height, format, rows, kept))
    }

    /// All pixels, listed row after row.
    pub fn to_rgba8(&self) -> (pixels: Vec<[u8; 4]>)
        ensures
            pixels.len() == self@.width * self@.height,
            forall|x: int, y: int|
                0 <= x < self@.width && 0 <= y < self@.height ==> pixels[y * self@.width + x] == #[trigger] self@.pixel(x, y),
    {
        let width = self.width();
        let height = self.height();
        let ghost v = self@;
        let mut pixels: Vec<[u8; 4]> = Vec::new();
        proof {
            assert(0 * width == 0);
        }
        for y in 0..height
            invariant
                v == self@,
                v.wf(),
                width == v.width,
                height == v.height,
                pixels.len() == y * width,
                forall|i: int, j: int| 0 <= i < width && 0 <= j < y ==> pixels[j * width + i] == #[trigger] v.pixel(i, j),
        {
            for x in 0..width
                invariant
                    v == self@,
                    v.wf(),
                    width == v.width,
                    height == v.height,
                    y < height,
                    pixels.len() == y * width + x,
                    forall|i: int, j: int| 0 <= i < width && 0 <= j < y ==> pixels[j * width + i] == #[trigger] v.pixel(i, j),
                    forall|i: int| 0 <= i < x ==> pixels[y * width + i] == #[trigger] v.pixel(i, y as int),
            {
                pixels.push(self.get_pixel(x, y));
                proof {
                    assert forall|i: int, j: int| 0 <= i < width && 0 <= j < y implies pixels[j * width + i] == #[trigger] v.pixel(i, j) by {
                        assert(j * width + i < y * width) by (nonlinear_arith)
                            requires 0 <= i < width, 0 <= j < y;
                    }
                }
            }
            proof {
                assert(y * width + width == (y + 1) * width) by (nonlinear_arith);
            }
        }
        proof {
            assert(height * width == v.width * v.height) by (nonlinear_arith)
                requires width == v.width, height == v.height;
        }
        pixels
    }

    /// This image, if it is stored as 8-bit gray.
    pub fn as_luma8(&self) -> (gray: Option<&Image>)
        ensures
            gray is Some <==> self@.format == ColorFormat::L8,
            gray matches Some(g) ==> g@ == self@,
    {
        match self.format() {
            ColorFormat::L8 => Some(self),
            _ => None,
        }
    }

    /// A copy of the image.
    pub fn duplicate(&self) -> (copy: Image)
        ensures
            copy@ == self@,
    {
        let width = self.width();
        let height = self.height();
        let ghost v = self@;
        let mut rows: Vec<Vec<[u8; 4]>> = Vec::new();
        let mut kept: Vec<Vec<bool>> = Vec::new();
        for y in 0..height
            invariant
                v == self@,
                v.wf(),
                width == v.width,
                height == v.height,
                rows.len() == y,
                kept.len() == y,
                forall|j: int| 0 <= j < y ==> #[trigger] rows[j].len() == width,
                forall|j: int| 0 <= j < y ==> #[trigger] kept[j].len() == width,
                forall|i: int, j: int| 0 <= i < width && 0 <= j < y ==> #[trigger] rows[j]@[i] == v.pixel(i, j),
                forall|i: int, j: int| 0 <= i < width && 0 <= j < y ==> #[trigger] kept[j]@[i] == v.is_kept(i, j),
        {
            let mut row: Vec<[u8; 4]> = Vec::new();
            let mut flags: Vec<bool> = Vec::new();
            for x in 0..width
                invariant
                    v == self@,
                    v.wf(),
                    width == v.width,
                    height == v.height,
                    y < height,
                    row.len() == x,
                    flags.len() == x,
                    forall|i: int| 0 <= i < x ==> #[trigger] row@[i] == v.pixel(i, y as int),
                    forall|i: int| 0 <= i < x ==> #[trigger] flags@[i] == v.is_kept(i, y as int),
            {
                row.push(self.get_pixel(x, y));
                flags.push(self.is_kept(x, y));
            }
            let ghost done = row@;
            let ghost done_flags = flags@;
            rows.push(row);
            kept.push(flags);
            assert forall|i: int, j: int| 0 <= i < width && 0 <= j < y + 1 implies #[trigger] rows[j]@[i]
                == v.pixel(i, j) by {
                if j == y {
                    assert(rows[j]@ == done);
                }
            }
            assert forall|i: int, j: int| 0 <= i < width && 0 <= j < y + 1 implies #[trigger] kept[j]@[i]
                == v.is_kept(i, j) by {
                if j == y {
                    assert(kept[j]@ == done_flags);
                }
            }
        }
        let format = self.format();
        let copy = Image::from_rows_and_flags(width, height, format, rows, kept);
        proof {
            lemma_same_as_equal(copy@, v);
        }
        copy
    }
}

} // verus!
