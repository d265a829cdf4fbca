//! Cutting an image into a grid of cells: how many rows, where each cell
//! starts and ends, which pixels it holds and which colour its dot takes.

use vstd::prelude::*;
use crate::color::{dominant_color, MAX_PIXELS};
use crate::config::Rgb;

verus! {

/// Bits per channel kept when looking for a cell's dominant colour.
pub const QUANT_BITS: u8 = 4;

/// An RGB image, row by row from the top left.
pub struct Raster {
    pub width: u32,
    pub height: u32,
    /// `width * height` pixels; pixel `(x, y)` is at `y * width + x`.
    pub pixels: Vec<(u8, u8, u8)>,
}

impl Raster {
    /// The pixel count matches the dimensions.
    pub open spec fn wf(&self) -> bool {
        self.pixels@.len() == self.width as int * self.height as int
    }

    /// An image of the given size filled with one colour.
    pub fn from_pixel(width: u32, height: u32, p: (u8, u8, u8)) -> (res: Raster)
        requires
            width as int * height as int <= usize::MAX,
        ensures
            res.wf(),
            res.width == width,
            res.height == height,
            forall|k: int| 0 <= k < res.pixels@.len() ==> #[trigger] res.pixels@[k] == p,
    {
        let n: usize = (width as u64 * height as u64) as usize;
        let mut pixels: Vec<(u8, u8, u8)> = Vec::new();
        let mut i: usize = 0;
        while i < n
            invariant
                i <= n,
                n == width as int * height as int,
                pixels@.len() == i,
                forall|k: int| 0 <= k < i ==> #[trigger] pixels@[k] == p,
            decreases n - i,
        {
            pixels.push(p);
            i = i + 1;
        }
        Raster { width, height, pixels }
    }

    /// The pixel at column `x`, row `y`.
    pub fn get_pixel(&self, x: u32, y: u32) -> (res: (u8, u8, u8))
        requires
            self.wf(),
            x < self.width,
            y < self.height,
        ensures
            res == self.pixels@[y * self.width + x],
    {
        proof {
            lemma_index_in_bounds(x as int, y as int, self.width as int, self.height as int);
        }
        let n = self.pixels.len();
        assert((y as int) * (self.width as int) + (x as int) < n);
        let row: usize = y as usize * self.width as usize;
        self.pixels[row + x as usize]
    }
}

proof fn lemma_index_in_bounds(x: int, y: int, w: int, h: int)
    requires
        0 <= x < w,
        0 <= y < h,
    ensures
        0 <= y * w + x < w * h,
        y * w + x + 1 <= w * h,
        y * w + w <= w * h,
{
    assert(y * w + w <= w * h) by (nonlinear_arith)
        requires
            0 <= y < h,
            0 <= w,
    ;
    assert(0 <= y * w) by (nonlinear_arith)
        requires
            0 <= y,
            0 <= w,
    ;
}

proof fn lemma_row_bounds(y: int, w: int, h: int)
    requires
        0 <= y < h,
        0 <= w,
    ensures
        0 <= y * w,
        y * w + w <= w * h,
{
    assert(y * w + w <= w * h) by (nonlinear_arith)
        requires
            0 <= y < h,
            0 <= w,
    ;
    assert(0 <= y * w) by (nonlinear_arith)
        requires
            0 <= y,
            0 <= w,
    ;
}

// ---------------------------------------------------------------------------
// Layout
// ---------------------------------------------------------------------------

/// The number of rows for `cols` columns on a `width` × `height` image, so
/// that cells stay about square: `cols * height / width` rounded to the
/// nearest integer (halves up), at least 1 and at most `u32::MAX`. With no
/// width, the quotient is infinite (`u32::MAX` rows) unless `cols * height`
/// is zero too (one row).
pub open spec fn rows_for(cols: int, width: int, height: int) -> int {
    let r = if width == 0 {
        if cols * height == 0 {
            0
        } else {
            u32::MAX as int + 1
        }
    } else {
        (2 * cols * height + width) / (2 * width)
    };
    if r < 1 {
        1
    } else if r > u32::MAX {
        u32::MAX as int
    } else {
        r
    }
}

/// The number of rows for `cols` columns (see [`rows_for`]).
///
/// The quotient is computed exactly with integers; it is what the rounding of
/// the floating-point quotient gives while `cols * height` stays below 2^53.
pub fn grid_rows(cols: u32, width: u32, height: u32) -> (res: u32)
    ensures
        res == rows_for(cols as int, width as int, height as int),
{
    proof {
        vstd::arithmetic::mul::lemma_mul_upper_bound(
            cols as int,
            u32::MAX as int,
            height as int,
            u32::MAX as int,
        );
        assert(2 * (cols as int) * (height as int) == 2 * ((cols as int) * (height as int)))
            by (nonlinear_arith);
    }
    if width == 0 {
        return if cols == 0 || height == 0 {
            1
        } else {
            assert((cols as int) * (height as int) != 0) by (nonlinear_arith)
                requires
                    cols > 0,
                    height > 0,
            ;
            u32::MAX
        };
    }
    let num: u128 = 2 * ((cols as u128) * (height as u128)) + width as u128;
    let den: u128 = 2 * width as u128;
    let r = num / den;
    if r < 1 {
        1
    } else if r > u32::MAX as u128 {
        u32::MAX
    } else {
        r as u32
    }
}

/// Where cell `i` of `n` starts along a side of length `len`: `i * len / n`
/// rounded down.
pub open spec fn span_start(i: int, n: int, len: int) -> int {
    i * len / n
}

/// Where cell `i` of `n` ends along a side of length `len`: `(i + 1) * len / n`
/// rounded down, at least one past the start, at most `len`.
pub open spec fn span_end(i: int, n: int, len: int) -> int {
    let e = (i + 1) * len / n;
    let e = if e < span_start(i, n, len) + 1 {
        span_start(i, n, len) + 1
    } else {
        e
    };
    if e > len {
        len
    } else {
        e
    }
}

proof fn lemma_span_start_bounds(i: int, n: int, len: int)
    requires
        0 <= i < n,
        0 <= len,
    ensures
        0 <= span_start(i, n, len) <= len,
        len > 0 ==> span_start(i, n, len) < len,
{
    let a = i * len;
    let q = a / n;
    let r = a % n;
    vstd::arithmetic::div_mod::lemma_fundamental_div_mod(a, n);
    vstd::arithmetic::div_mod::lemma_mod_bound(a, n);
    assert(0 <= a) by (nonlinear_arith)
        requires
            a == i * len,
            0 <= i,
            0 <= len,
    ;
    assert(0 <= q && q <= len && (len > 0 ==> q < len)) by (nonlinear_arith)
        requires
            a == i * len,
            a == n * q + r,
            0 <= r < n,
            0 <= i < n,
            0 <= len,
            0 <= a,
    ;
}

/// Where cell `i` of `n` starts and ends along a side of length `len` (see
/// [`span_start`] and [`span_end`]).
pub fn cell_span(i: u32, n: u32, len: u32) -> (res: (u32, u32))
    requires
        i < n,
    ensures
        res.0 == span_start(i as int, n as int, len as int),
        res.1 == span_end(i as int, n as int, len as int),
{
    proof {
        lemma_span_start_bounds(i as int, n as int, len as int);
        vstd::arithmetic::mul::lemma_mul_upper_bound(
            i as int + 1,
            u32::MAX as int,
            len as int,
            u32::MAX as int,
        );
        vstd::arithmetic::mul::lemma_mul_upper_bound(
            i as int,
            u32::MAX as int,
            len as int,
            u32::MAX as int,
        );
    }
    let start: u64 = (i as u64 * len as u64) / n as u64;
    let e: u64 = ((i as u64 + 1) * len as u64) / n as u64;
    let e = if e < start + 1 {
        start + 1
    } else {
        e
    };
    let e = if e > len as u64 {
        len as u64
    } else {
        e
    };
    (start as u32, e as u32)
}

// ---------------------------------------------------------------------------
// Cell contents
// ---------------------------------------------------------------------------

/// The pixels of the rectangle `x0..x1` × `y0..y1`, row by row.
pub open spec fn region(px: Seq<(u8, u8, u8)>, w: int, x0: int, x1: int, y0: int, y1: int) -> Seq<
    (u8, u8, u8),
>
    decreases y1 - y0,
{
    if y1 <= y0 {
        Seq::empty()
    } else {
        region(px, w, x0, x1, y0, y1 - 1) + px.subrange((y1 - 1) * w + x0, (y1 - 1) * w + x1)
    }
}

/// The pixels of the rectangle `x0..x1` × `y0..y1` of `img`, row by row.
pub fn cell_pixels(img: &Raster, x0: u32, x1: u32, y0: u32, y1: u32) -> (res: Vec<(u8, u8, u8)>)
    requires
        img.wf(),
        x0 <= x1 <= img.width,
        y0 <= y1 <= img.height,
    ensures
        res@ == region(img.pixels@, img.width as int, x0 as int, x1 as int, y0 as int, y1 as int),
{
    let w = img.width;
    let mut out: Vec<(u8, u8, u8)> = Vec::new();
    let mut y = y0;
    while y < y1
        invariant
            img.wf(),
            w == img.width,
            x0 <= x1 <= img.width,
            y0 <= y <= y1 <= img.height,
            out@ == region(img.pixels@, w as int, x0 as int, x1 as int, y0 as int, y as int),
        decreases y1 - y,
    {
        let ghost before = out@;
        proof {
            lemma_row_bounds(y as int, w as int, img.height as int);
        }
        assert(img.pixels@.subrange(y * w + x0, y * w + x0) =~= Seq::<(u8, u8, u8)>::empty());
        assert(out@ =~= before + img.pixels@.subrange(y * w + x0, y * w + x0));
        let mut x = x0;
        while x < x1
            invariant
                img.wf(),
                w == img.width,
                x0 <= x <= x1 <= img.width,
                y0 <= y < y1 <= img.height,
                out@ == before + img.pixels@.subrange(y * w + x0, y * w + x),
            decreases x1 - x,
        {
            proof {
                lemma_index_in_bounds(x as int, y as int, w as int, img.height as int);
            }
            let p = img.get_pixel(x, y);
            out.push(p);
            x = x + 1;
            assert(out@ =~= before + img.pixels@.subrange(y * w + x0, y * w + x));
        }
        y = y + 1;
        assert(out@ =~= region(img.pixels@, w as int, x0 as int, x1 as int, y0 as int, y as int));
    }
    out
}

/// The colour of a cell's dot: the dominant colour of its pixels (see
/// [`dominant_color`]), black when it has none.
pub fn cell_color(pixels: Vec<(u8, u8, u8)>) -> (res: Rgb)
    requires
        pixels@.len() <= MAX_PIXELS,
    ensures
        pixels@.len() == 0 ==> res == (Rgb { r: 0, g: 0, b: 0 }),
        pixels@.len() > 0 ==> exists|k: u32|
            crate::color::is_dominant(pixels@, crate::color::quant_shift(QUANT_BITS), k) && res
                == crate::color::bucket_mean(pixels@, crate::color::quant_shift(QUANT_BITS), k),
{
    match dominant_color(pixels, QUANT_BITS) {
        Some(c) => c,
        None => Rgb::black(),
    }
}

// ---------------------------------------------------------------------------
// Laws
// ---------------------------------------------------------------------------

/// The rows follow the image's aspect ratio, whatever its orientation: on an
/// image with a width, the row count `r` is `cols * height / width` rounded
/// to the nearest integer (halves up), i.e. `2·cols·height − width <
/// 2·width·r <= 2·cols·height + width`, unless that quotient rounds below one
/// (then one row) or past `u32::MAX` (then `u32::MAX`).
pub proof fn lemma_rows_follow_aspect(cols: u32, width: u32, height: u32)
    requires
        width > 0,
    ensures
        ({
            let r = rows_for(cols as int, width as int, height as int);
            let twice = 2 * (cols as int) * (height as int);
            let w = width as int;
            &&& (twice + w >= 2 * w && r < u32::MAX) ==> twice - w < 2 * w * r <= twice + w
            &&& twice + w < 2 * w ==> r == 1
            &&& 1 <= r <= u32::MAX
        }),
{
    let twice = 2 * (cols as int) * (height as int);
    let w = width as int;
    let n = twice + w;
    let d = 2 * w;
    let q = n / d;
    assert(twice >= 0) by (nonlinear_arith)
        requires
            twice == 2 * (cols as int) * (height as int),
    ;
    vstd::arithmetic::div_mod::lemma_fundamental_div_mod(n, d);
    vstd::arithmetic::div_mod::lemma_mod_bound(n, d);
    assert(2 * (cols as int) * (height as int) == twice);
    assert(d * q <= n < d * q + d);
    if n >= d {
        assert(q >= 1) by (nonlinear_arith)
            requires
                d * q <= n,
                n < d * q + d,
                n >= d,
                d > 0,
        ;
    } else {
        assert(q == 0) by (nonlinear_arith)
            requires
                d * q <= n,
                n < d * q + d,
                n < d,
                n >= 0,
                d > 0,
        ;
    }
    assert(2 * w * q == d * q);
}

/// On a side of length at least 1, every cell has at least one pixel and
/// stays on the side.
pub proof fn lemma_span_nonempty(i: int, n: int, len: int)
    requires
        0 <= i < n,
        len >= 1,
    ensures
        0 <= span_start(i, n, len) < span_end(i, n, len) <= len,
{
    lemma_span_start_bounds(i, n, len);
}

proof fn lemma_span_step(i: int, n: int, len: int)
    requires
        0 <= i < n <= len,
    ensures
        (i + 1) * len / n >= i * len / n + 1,
        (i + 1) * len / n <= len,
{
    let a = i * len;
    assert((i + 1) * len == a + len) by (nonlinear_arith)
        requires
            a == i * len,
    ;
    assert(a >= 0) by (nonlinear_arith)
        requires
            a == i * len,
            i >= 0,
            len >= 0,
    ;
    vstd::arithmetic::div_mod::lemma_div_is_ordered(a + n, a + len, n);
    vstd::arithmetic::div_mod::lemma_div_plus_one(a, n);
    assert((i + 1) * len <= n * len) by (nonlinear_arith)
        requires
            0 <= i < n,
            len >= 0,
    ;
    vstd::arithmetic::div_mod::lemma_div_is_ordered((i + 1) * len, n * len, n);
    assert(n * len == len * n) by (nonlinear_arith);
    vstd::arithmetic::div_mod::lemma_div_by_multiple(len, n);
}

/// With no more cells than pixels along a side, the cells tile the side: the
/// first starts at 0, each ends where the next starts, the last ends at the
/// end of the side.
pub proof fn lemma_spans_partition(n: int, len: int)
    requires
        1 <= n <= len,
    ensures
        span_start(0, n, len) == 0,
        span_end(n - 1, n, len) == len,
        forall|i: int| 0 <= i < n - 1 ==> #[trigger] span_end(i, n, len) == span_start(i + 1, n, len),
{
    assert(0 * len == 0);
    assert forall|i: int| 0 <= i < n - 1 implies #[trigger] span_end(i, n, len) == span_start(
        i + 1,
        n,
        len,
    ) by {
        lemma_span_step(i, n, len);
    }
    lemma_span_step(n - 1, n, len);
    assert((n - 1 + 1) * len == len * n) by (nonlinear_arith);
    vstd::arithmetic::div_mod::lemma_div_by_multiple(len, n);
}

} // verus!
