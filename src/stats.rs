//! Region statistics: the mean color of a region and the dispersion of its
//! pixels about that mean.
use vstd::prelude::*;
use crate::buffer::{get_pixel, pixels_of, extent_of, Color, PixelBuffer};
use crate::region::{Rect, Region};

verus! {

pub open spec fn pixel_at(b: PixelBuffer, x: int, y: int) -> Color {
    pixels_of(b)[(x, y)]
}

/// Channel `k` (0 red, 1 green, 2 blue) of a color.
pub open spec fn channel(c: Color, k: int) -> int {
    if k == 0 {
        c.0 as int
    } else if k == 1 {
        c.1 as int
    } else {
        c.2 as int
    }
}

/// Sum of channel `k` over the `w` pixels of row `y` from column `x`.
pub open spec fn row_sum(b: PixelBuffer, k: int, x: int, y: int, w: int) -> int
    decreases w,
{
    if w <= 0 {
        0
    } else {
        row_sum(b, k, x, y, w - 1) + channel(pixel_at(b, x + w - 1, y), k)
    }
}

/// Sum of channel `k` over a rectangle.
pub open spec fn rect_sum(b: PixelBuffer, k: int, r: Rect) -> int
    decreases r.h,
{
    if r.h <= 0 {
        0
    } else {
        rect_sum(b, k, Rect { h: r.h - 1, ..r }) + row_sum(b, k, r.x, r.y + r.h - 1, r.w)
    }
}

/// The mean color of a non-empty rectangle, each channel truncated.
pub open spec fn mean_color(b: PixelBuffer, r: Rect) -> Color {
    (
        (rect_sum(b, 0, r) / r.area()) as u8,
        (rect_sum(b, 1, r) / r.area()) as u8,
        (rect_sum(b, 2, r) / r.area()) as u8,
    )
}

/// Squared Euclidean distance between two colors.
pub open spec fn sq_dist(p: Color, m: Color) -> int {
    let d0 = channel(p, 0) - channel(m, 0);
    let d1 = channel(p, 1) - channel(m, 1);
    let d2 = channel(p, 2) - channel(m, 2);
    d0 * d0 + d1 * d1 + d2 * d2
}

/// Sum of squared distances to `m` over the `w` pixels of row `y` from column `x`.
pub open spec fn row_dev(b: PixelBuffer, m: Color, x: int, y: int, w: int) -> int
    decreases w,
{
    if w <= 0 {
        0
    } else {
        row_dev(b, m, x, y, w - 1) + sq_dist(pixel_at(b, x + w - 1, y), m)
    }
}

/// Sum of squared distances to `m` over a rectangle.
pub open spec fn rect_dev(b: PixelBuffer, m: Color, r: Rect) -> int
    decreases r.h,
{
    if r.h <= 0 {
        0
    } else {
        rect_dev(b, m, Rect { h: r.h - 1, ..r }) + row_dev(b, m, r.x, r.y + r.h - 1, r.w)
    }
}

/// The dispersion of a rectangle: the sum, not the mean, of the squared
/// distances of its pixels to its mean color.
pub open spec fn dispersion(b: PixelBuffer, r: Rect) -> int {
    rect_dev(b, mean_color(b, r), r)
}

/// Every pixel of the rectangle has color `c`.
pub open spec fn is_uniform(b: PixelBuffer, r: Rect, c: Color) -> bool {
    forall|x: int, y: int| r.contains(x, y) ==> #[trigger] pixel_at(b, x, y) == c
}

proof fn lemma_row_sum_bounds(b: PixelBuffer, k: int, x: int, y: int, w: int)
    requires
        w >= 0,
    ensures
        0 <= row_sum(b, k, x, y, w) <= 255 * w,
    decreases w,
{
    if w > 0 {
        lemma_row_sum_bounds(b, k, x, y, w - 1);
    }
}

proof fn lemma_rect_sum_bounds(b: PixelBuffer, k: int, r: Rect)
    requires
        r.w >= 0,
        r.h >= 0,
    ensures
        0 <= rect_sum(b, k, r) <= 255 * r.area(),
    decreases r.h,
{
    if r.h > 0 {
        let r1 = Rect { h: r.h - 1, ..r };
        lemma_rect_sum_bounds(b, k, r1);
        lemma_row_sum_bounds(b, k, r.x, r.y + r.h - 1, r.w);
        assert(r.w * r.h == r.w * (r.h - 1) + r.w) by (nonlinear_arith);
    }
}

proof fn lemma_sq_dist_bounds(p: Color, m: Color)
    ensures
        0 <= sq_dist(p, m) <= 195075,
{
    let d0 = channel(p, 0) - channel(m, 0);
    let d1 = channel(p, 1) - channel(m, 1);
    let d2 = channel(p, 2) - channel(m, 2);
    assert(0 <= d0 * d0 <= 65025) by (nonlinear_arith)
        requires
            -255 <= d0 <= 255,
    ;
    assert(0 <= d1 * d1 <= 65025) by (nonlinear_arith)
        requires
            -255 <= d1 <= 255,
    ;
    assert(0 <= d2 * d2 <= 65025) by (nonlinear_arith)
        requires
            -255 <= d2 <= 255,
    ;
}

proof fn lemma_row_dev_bounds(b: PixelBuffer, m: Color, x: int, y: int, w: int)
    requires
        w >= 0,
    ensures
        0 <= row_dev(b, m, x, y, w) <= 195075 * w,
    decreases w,
{
    if w > 0 {
        lemma_row_dev_bounds(b, m, x, y, w - 1);
        lemma_sq_dist_bounds(pixel_at(b, x + w - 1, y), m);
    }
}

pub proof fn lemma_rect_dev_bounds(b: PixelBuffer, m: Color, r: Rect)
    requires
        r.w >= 0,
        r.h >= 0,
    ensures
        0 <= rect_dev(b, m, r) <= 195075 * r.area(),
    decreases r.h,
{
    if r.h > 0 {
        let r1 = Rect { h: r.h - 1, ..r };
        lemma_rect_dev_bounds(b, m, r1);
        lemma_row_dev_bounds(b, m, r.x, r.y + r.h - 1, r.w);
        assert(r.w * r.h == r.w * (r.h - 1) + r.w) by (nonlinear_arith);
    }
}

proof fn lemma_uniform_row(b: PixelBuffer, r: Rect, c: Color, k: int, y: int, w: int)
    requires
        is_uniform(b, r, c),
        0 <= w <= r.w,
        r.y <= y < r.y + r.h,
    ensures
        row_sum(b, k, r.x, y, w) == channel(c, k) * w,
        row_dev(b, c, r.x, y, w) == 0,
    decreases w,
{
    if w > 0 {
        lemma_uniform_row(b, r, c, k, y, w - 1);
        assert(r.contains(r.x + w - 1, y));
        assert(channel(c, k) * w == channel(c, k) * (w - 1) + channel(c, k)) by (nonlinear_arith);
    }
}

proof fn lemma_uniform_rect(b: PixelBuffer, r: Rect, c: Color, k: int, h: int)
    requires
        is_uniform(b, r, c),
        0 <= h <= r.h,
        r.w >= 0,
    ensures
        rect_sum(b, k, Rect { h, ..r }) == channel(c, k) * (r.w * h),
        rect_dev(b, c, Rect { h, ..r }) == 0,
    decreases h,
{
    if h > 0 {
        let r1 = Rect { h, ..r };
        assert(Rect { h: r1.h - 1, ..r1 } == Rect { h: h - 1, ..r });
        lemma_uniform_rect(b, r, c, k, h - 1);
        lemma_uniform_row(b, r, c, k, r.y + h - 1, r.w);
        assert(rect_sum(b, k, r1) == rect_sum(b, k, Rect { h: h - 1, ..r }) + row_sum(
            b,
            k,
            r.x,
            r.y + h - 1,
            r.w,
        ));
        assert(channel(c, k) * (r.w * h) == channel(c, k) * (r.w * (h - 1)) + channel(c, k) * r.w)
            by (nonlinear_arith);
    } else {
        assert(channel(c, k) * (r.w * h) == 0) by (nonlinear_arith)
            requires
                h == 0,
        ;
    }
}

/// A region whose pixels all have one color has that color as its mean and
/// a dispersion of zero.
pub proof fn lemma_uniform_mean(b: PixelBuffer, r: Rect, c: Color)
    requires
        r.w >= 1,
        r.h >= 1,
        is_uniform(b, r, c),
    ensures
        mean_color(b, r) == c,
        dispersion(b, r) == 0,
{
    assert(r == Rect { h: r.h, ..r });
    lemma_uniform_rect(b, r, c, 0, r.h);
    lemma_uniform_rect(b, r, c, 1, r.h);
    lemma_uniform_rect(b, r, c, 2, r.h);
    let n = r.area();
    assert(r.w * r.h > 0) by (nonlinear_arith)
        requires
            r.w >= 1,
            r.h >= 1,
    ;
    vstd::arithmetic::div_mod::lemma_div_by_multiple(c.0 as int, n);
    vstd::arithmetic::div_mod::lemma_div_by_multiple(c.1 as int, n);
    vstd::arithmetic::div_mod::lemma_div_by_multiple(c.2 as int, n);
    assert(mean_color(b, r) == c);
}

proof fn lemma_mean_channel_fits(s: int, n: int)
    requires
        0 <= s <= 255 * n,
        n > 0,
    ensures
        0 <= s / n <= 255,
{
    assert(0 <= s / n <= 255) by (nonlinear_arith)
        requires
            0 <= s <= 255 * n,
            n > 0,
    ;
}

/// The mean color of region `r` of `b`: per channel the sum over the region
/// divided by its area, truncated.
pub fn average(b: &PixelBuffer, r: Region) -> (c: Color)
    requires
        r@.within(extent_of(*b).0 as int, extent_of(*b).1 as int),
        r.width >= 1,
        r.height >= 1,
    ensures
        c == mean_color(*b, r@),
{
    let mut s0: u128 = 0;
    let mut s1: u128 = 0;
    let mut s2: u128 = 0;
    let mut j: u32 = 0;
    while j < r.height
        invariant
            r@.within(extent_of(*b).0 as int, extent_of(*b).1 as int),
            0 <= j <= r.height,
            s0 == rect_sum(*b, 0, Rect { h: j as int, ..r@ }),
            s1 == rect_sum(*b, 1, Rect { h: j as int, ..r@ }),
            s2 == rect_sum(*b, 2, Rect { h: j as int, ..r@ }),
        decreases r.height - j,
    {
        let mut t0: u128 = 0;
        let mut t1: u128 = 0;
        let mut t2: u128 = 0;
        let mut i: u32 = 0;
        while i < r.width
            invariant
                r@.within(extent_of(*b).0 as int, extent_of(*b).1 as int),
                0 <= j < r.height,
                0 <= i <= r.width,
                t0 == row_sum(*b, 0, r.x as int, r.y + j, i as int),
                t1 == row_sum(*b, 1, r.x as int, r.y + j, i as int),
                t2 == row_sum(*b, 2, r.x as int, r.y + j, i as int),
            decreases r.width - i,
        {
            proof {
                lemma_row_sum_bounds(*b, 0, r.x as int, r.y + j, i as int);
                lemma_row_sum_bounds(*b, 1, r.x as int, r.y + j, i as int);
                lemma_row_sum_bounds(*b, 2, r.x as int, r.y + j, i as int);
            }
            let p = get_pixel(b, r.x + i, r.y + j);
            t0 = t0 + p.0 as u128;
            t1 = t1 + p.1 as u128;
            t2 = t2 + p.2 as u128;
            i = i + 1;
        }
        proof {
            let next = Rect { h: j + 1, ..r@ };
            assert(Rect { h: next.h - 1, ..next } == Rect { h: j as int, ..r@ });
            lemma_rect_sum_bounds(*b, 0, next);
            lemma_rect_sum_bounds(*b, 1, next);
            lemma_rect_sum_bounds(*b, 2, next);
            assert(next.area() <= 0xffff_ffff * 0xffff_ffff) by (nonlinear_arith)
                requires
                    0 <= next.w <= 0xffff_ffff,
                    0 <= next.h <= 0xffff_ffff,
            ;
        }
        s0 = s0 + t0;
        s1 = s1 + t1;
        s2 = s2 + t2;
        j = j + 1;
    }
    proof {
        assert(r.width as u128 * r.height as u128 <= 0xffff_ffff * 0xffff_ffff) by (nonlinear_arith)
            requires
                r.width <= 0xffff_ffff,
                r.height <= 0xffff_ffff,
        ;
    }
    let n: u128 = r.width as u128 * r.height as u128;
    proof {
        assert(Rect { h: j as int, ..r@ } == r@);
        lemma_rect_sum_bounds(*b, 0, r@);
        lemma_rect_sum_bounds(*b, 1, r@);
        lemma_rect_sum_bounds(*b, 2, r@);
        assert(r@.area() > 0) by (nonlinear_arith)
            requires
                r@.w >= 1,
                r@.h >= 1,
        ;
        lemma_mean_channel_fits(s0 as int, n as int);
        lemma_mean_channel_fits(s1 as int, n as int);
        lemma_mean_channel_fits(s2 as int, n as int);
    }
    ((s0 / n) as u8, (s1 / n) as u8, (s2 / n) as u8)
}

fn sq_distance(p: Color, m: Color) -> (r: u32)
    ensures
        r == sq_dist(p, m),
{
    let d0: i32 = p.0 as i32 - m.0 as i32;
    let d1: i32 = p.1 as i32 - m.1 as i32;
    let d2: i32 = p.2 as i32 - m.2 as i32;
    proof {
        lemma_sq_dist_bounds(p, m);
        assert(0 <= d0 * d0 <= 65025 && 0 <= d1 * d1 <= 65025 && 0 <= d2 * d2 <= 65025)
            by (nonlinear_arith)
            requires
                -255 <= d0 <= 255,
                -255 <= d1 <= 255,
                -255 <= d2 <= 255,
        ;
    }
    (d0 * d0 + d1 * d1 + d2 * d2) as u32
}

/// The dispersion of region `r` of `b`: the sum over its pixels of the
/// squared distance to the region's mean color.
pub fn average_n(b: &PixelBuffer, r: Region) -> (d: u128)
    requires
        r@.within(extent_of(*b).0 as int, extent_of(*b).1 as int),
        r.width >= 1,
        r.height >= 1,
    ensures
        d == dispersion(*b, r@),
{
    let m = average(b, r);
    let mut s: u128 = 0;
    let mut j: u32 = 0;
    while j < r.height
        invariant
            r@.within(extent_of(*b).0 as int, extent_of(*b).1 as int),
            0 <= j <= r.height,
            s == rect_dev(*b, m, Rect { h: j as int, ..r@ }),
        decreases r.height - j,
    {
        let mut t: u128 = 0;
        let mut i: u32 = 0;
        while i < r.width
            invariant
                r@.within(extent_of(*b).0 as int, extent_of(*b).1 as int),
                0 <= j < r.height,
                0 <= i <= r.width,
                t == row_dev(*b, m, r.x as int, r.y + j, i as int),
            decreases r.width - i,
        {
            proof {
                lemma_row_dev_bounds(*b, m, r.x as int, r.y + j, i as int);
            }
            let p = get_pixel(b, r.x + i, r.y + j);
            t = t + sq_distance(p, m) as u128;
            i = i + 1;
        }
        proof {
            let next = Rect { h: j + 1, ..r@ };
            assert(Rect { h: next.h - 1, ..next } == Rect { h: j as int, ..r@ });
            lemma_rect_dev_bounds(*b, m, next);
            assert(next.area() <= 0xffff_ffff * 0xffff_ffff) by (nonlinear_arith)
                requires
                    0 <= next.w <= 0xffff_ffff,
                    0 <= next.h <= 0xffff_ffff,
            ;
        }
        s = s + t;
        j = j + 1;
    }
    assert(Rect { h: j as int, ..r@ } == r@);
    s
}

} // verus!
