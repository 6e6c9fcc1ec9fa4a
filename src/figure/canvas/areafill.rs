//! Filling the region between a polyline and a baseline with a translucent
//! colour, column by column.

use vstd::prelude::*;

use crate::figure::canvas::linetrace::span;
use crate::figure::canvas::pixelcanvas::{blended, slot_of, writable, PixelCanvas};
use vstd::arithmetic::div_mod::{lemma_div_is_ordered, lemma_div_multiples_vanish};

verus! {

/// `a / d` rounded towards zero, for `d > 0`.
pub open spec fn trunc_div(a: int, d: int) -> int {
    if a >= 0 {
        a / d
    } else {
        -((-a) / d)
    }
}

/// The row at which the fill of column `x` starts under the segment from
/// `(x1, y1)` to `(x2, y2)`: `y1 + (x - x1) * (y2 - y1) / |x2 - x1|` rounded
/// towards zero, or the upper end point of a vertical segment.
pub open spec fn fill_top(x1: int, y1: int, x2: int, y2: int, x: int) -> int {
    if x1 == x2 {
        if y1 <= y2 {
            y1
        } else {
            y2
        }
    } else {
        y1 + trunc_div((x - x1) * (y2 - y1), span(x1, x2))
    }
}

/// `buf` after blending `c` into `(x, y)` with opacity `num / den`, where
/// that pixel lies inside the buffer.
pub open spec fn blend_point(buf: Seq<u8>, w: int, h: int, x: int, y: int, c: [u8; 3], num: int, den: int) -> Seq<u8> {
    if writable(x, y, w, h, buf.len() as int) {
        blended(buf, slot_of(x, y, w), c, num, den)
    } else {
        buf
    }
}

/// `buf` after blending rows `y ..= last` of column `x`, top to bottom.
pub open spec fn blend_rows(
    buf: Seq<u8>,
    w: int,
    h: int,
    x: int,
    y: int,
    last: int,
    c: [u8; 3],
    num: int,
    den: int,
) -> Seq<u8>
    decreases last + 1 - y,
{
    if y > last {
        buf
    } else {
        blend_rows(blend_point(buf, w, h, x, y, c, num, den), w, h, x, y + 1, last, c, num, den)
    }
}

/// `buf` after filling columns `x ..= last` under the segment from
/// `(x1, y1)` to `(x2, y2)` down to row `base`, left to right.
pub open spec fn blend_columns(
    buf: Seq<u8>,
    w: int,
    h: int,
    x1: int,
    y1: int,
    x2: int,
    y2: int,
    x: int,
    last: int,
    base: int,
    c: [u8; 3],
    num: int,
    den: int,
) -> Seq<u8>
    decreases last + 1 - x,
{
    if x > last {
        buf
    } else {
        blend_columns(
            blend_rows(buf, w, h, x, fill_top(x1, y1, x2, y2, x), base, c, num, den),
            w,
            h,
            x1,
            y1,
            x2,
            y2,
            x + 1,
            last,
            base,
            c,
            num,
            den,
        )
    }
}

/// `buf` after filling under every segment `pts[k] - pts[k + 1]` for
/// `k >= i`, in order.
pub open spec fn blend_area(
    buf: Seq<u8>,
    w: int,
    h: int,
    pts: Seq<(i32, i32)>,
    i: int,
    base: int,
    c: [u8; 3],
    num: int,
    den: int,
) -> Seq<u8>
    decreases pts.len() - i,
{
    if i < 0 || i + 1 >= pts.len() {
        buf
    } else {
        let (x1, y1) = (pts[i].0 as int, pts[i].1 as int);
        let (x2, y2) = (pts[i + 1].0 as int, pts[i + 1].1 as int);
        let lo = if x1 <= x2 {
            x1
        } else {
            x2
        };
        let hi = if x1 <= x2 {
            x2
        } else {
            x1
        };
        blend_area(
            blend_columns(buf, w, h, x1, y1, x2, y2, lo, hi, base, c, num, den),
            w,
            h,
            pts,
            i + 1,
            base,
            c,
            num,
            den,
        )
    }
}

/// The fill of a column starts within the segment's vertical extent.
proof fn lemma_fill_top_bounds(x1: int, y1: int, x2: int, y2: int, x: int)
    requires
        (x1 <= x <= x2) || (x2 <= x <= x1),
    ensures
        y1 - span(y1, y2) <= fill_top(x1, y1, x2, y2, x) <= y1 + span(y1, y2),
{
    if x1 != x2 {
        let d = span(x1, x2);
        let a = (x - x1) * (y2 - y1);
        let b = span(y1, y2);
        let aa = if a >= 0 { a } else { -a };
        assert(aa <= d * b) by (nonlinear_arith)
            requires
                aa == if a >= 0 { a } else { -a },
                a == (x - x1) * (y2 - y1),
                d == span(x1, x2),
                b == span(y1, y2),
                (x1 <= x <= x2) || (x2 <= x <= x1),
        ;
        lemma_div_is_ordered(aa, d * b, d);
        lemma_div_multiples_vanish(b, d);
        assert(0 <= aa / d) by (nonlinear_arith)
            requires aa >= 0, d > 0;
    }
}

impl PixelCanvas {
    /// Fills the area between the polyline through `points` and row
    /// `baseline`: for each pair of neighbouring points and each column
    /// between them, every pixel from the interpolated row down to the
    /// baseline is blended with `color` at opacity `alpha_num / alpha_den`.
    /// The points are taken in the order given (callers sort them by x).
    pub fn fill_area_under(
        &mut self,
        points: &Vec<(i32, i32)>,
        baseline: i32,
        color: [u8; 3],
        alpha_num: u32,
        alpha_den: u32,
    )
        requires
            0 < alpha_den,
            alpha_num <= alpha_den,
        ensures
            final(self).same_frame(*old(self)),
            final(self).buffer@ == blend_area(
                old(self).buffer@,
                old(self).width as int,
                old(self).height as int,
                points@,
                0,
                baseline as int,
                color,
                alpha_num as int,
                alpha_den as int,
            ),
    {
        let ghost w = self.width as int;
        let ghost h = self.height as int;
        let ghost goal = blend_area(
            self.buffer@,
            w,
            h,
            points@,
            0,
            baseline as int,
            color,
            alpha_num as int,
            alpha_den as int,
        );
        let n = points.len();
        let mut i: usize = 1;
        while i < n
            invariant
                self.same_frame(*old(self)),
                w == self.width,
                h == self.height,
                n == points@.len(),
                1 <= i,
                0 < alpha_den,
                alpha_num <= alpha_den,
                goal == blend_area(
                    self.buffer@,
                    w,
                    h,
                    points@,
                    i - 1,
                    baseline as int,
                    color,
                    alpha_num as int,
                    alpha_den as int,
                ),
            decreases n - i,
        {
            let (x1, y1) = points[i - 1];
            let (x2, y2) = points[i];
            self.fill_segment(x1, y1, x2, y2, baseline, color, alpha_num, alpha_den);
            i = i + 1;
        }
    }

    /// Fills the columns between `x1` and `x2` under one segment.
    fn fill_segment(
        &mut self,
        x1: i32,
        y1: i32,
        x2: i32,
        y2: i32,
        baseline: i32,
        color: [u8; 3],
        alpha_num: u32,
        alpha_den: u32,
    )
        requires
            0 < alpha_den,
            alpha_num <= alpha_den,
        ensures
            final(self).same_frame(*old(self)),
            final(self).buffer@ == blend_columns(
                old(self).buffer@,
                old(self).width as int,
                old(self).height as int,
                x1 as int,
                y1 as int,
                x2 as int,
                y2 as int,
                if x1 <= x2 { x1 as int } else { x2 as int },
                if x1 <= x2 { x2 as int } else { x1 as int },
                baseline as int,
                color,
                alpha_num as int,
                alpha_den as int,
            ),
    {
        let ghost w = self.width as int;
        let ghost h = self.height as int;
        let lo: i64 = if x1 <= x2 { x1 as i64 } else { x2 as i64 };
        let hi: i64 = if x1 <= x2 { x2 as i64 } else { x1 as i64 };
        let d: i128 = (hi - lo) as i128;
        let ghost goal = blend_columns(
            self.buffer@,
            w,
            h,
            x1 as int,
            y1 as int,
            x2 as int,
            y2 as int,
            lo as int,
            hi as int,
            baseline as int,
            color,
            alpha_num as int,
            alpha_den as int,
        );
        let mut x: i64 = lo;
        while x <= hi
            invariant
                self.same_frame(*old(self)),
                w == self.width,
                h == self.height,
                lo == (if x1 <= x2 { x1 as int } else { x2 as int }),
                hi == (if x1 <= x2 { x2 as int } else { x1 as int }),
                d == span(x1 as int, x2 as int),
                lo <= x <= hi + 1,
                i32::MIN <= lo,
                hi <= i32::MAX,
                0 < alpha_den,
                alpha_num <= alpha_den,
                goal == blend_columns(
                    self.buffer@,
                    w,
                    h,
                    x1 as int,
                    y1 as int,
                    x2 as int,
                    y2 as int,
                    x as int,
                    hi as int,
                    baseline as int,
                    color,
                    alpha_num as int,
                    alpha_den as int,
                ),
            decreases hi + 1 - x,
        {
            let top: i64 = if x1 == x2 {
                if y1 <= y2 { y1 as i64 } else { y2 as i64 }
            } else {
                let ex: i128 = (x as i128) - (x1 as i128);
                let ey: i128 = (y2 as i128) - (y1 as i128);
                assert(-0x1_0000_0000_0000_0000_0000 <= ex * ey <= 0x1_0000_0000_0000_0000_0000) by (nonlinear_arith)
                    requires
                        -0x2_0000_0000 <= ex <= 0x2_0000_0000,
                        -0x2_0000_0000 <= ey <= 0x2_0000_0000,
                ;
                let num: i128 = ex * ey;
                let q: i128 = if num >= 0 { num / d } else { -((-num) / d) };
                proof {
                    lemma_fill_top_bounds(x1 as int, y1 as int, x2 as int, y2 as int, x as int);
                }
                (y1 as i128 + q) as i64
            };
            assert(top == fill_top(x1 as int, y1 as int, x2 as int, y2 as int, x as int));
            self.fill_rows(x, top, baseline, color, alpha_num, alpha_den);
            x = x + 1;
        }
    }

    /// Blends rows `top ..= baseline` of column `x`.
    fn fill_rows(
        &mut self,
        x: i64,
        top: i64,
        baseline: i32,
        color: [u8; 3],
        alpha_num: u32,
        alpha_den: u32,
    )
        requires
            0 < alpha_den,
            alpha_num <= alpha_den,
        ensures
            final(self).same_frame(*old(self)),
            final(self).buffer@ == blend_rows(
                old(self).buffer@,
                old(self).width as int,
                old(self).height as int,
                x as int,
                top as int,
                baseline as int,
                color,
                alpha_num as int,
                alpha_den as int,
            ),
    {
        let ghost w = self.width as int;
        let ghost h = self.height as int;
        let ghost goal = blend_rows(
            self.buffer@,
            w,
            h,
            x as int,
            top as int,
            baseline as int,
            color,
            alpha_num as int,
            alpha_den as int,
        );
        let last = baseline as i64;
        let mut y: i64 = top;
        if y > last {
            return;
        }
        while y <= last
            invariant
                self.same_frame(*old(self)),
                w == self.width,
                h == self.height,
                last == baseline,
                top <= y <= last + 1,
                0 < alpha_den,
                alpha_num <= alpha_den,
                goal == blend_rows(
                    self.buffer@,
                    w,
                    h,
                    x as int,
                    y as int,
                    baseline as int,
                    color,
                    alpha_num as int,
                    alpha_den as int,
                ),
            decreases last + 1 - y,
        {
            self.blend_at(x, y, color, alpha_num, alpha_den);
            y = y + 1;
        }
    }
}

} // verus!
