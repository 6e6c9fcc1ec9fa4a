//! Scatter plot markers stamped onto the raster canvas.

use vstd::prelude::*;

use crate::figure::canvas::pixelcanvas::{lemma_paint_more, lemma_paint_nothing, PixelCanvas};
use crate::figure::utilities::scatterdottype::ScatterDotType;

verus! {

/// The size parameter of a marker.
pub open spec fn marker_size(dot: ScatterDotType) -> int {
    match dot {
        ScatterDotType::Circle(r) => r as int,
        ScatterDotType::Square(s) => s as int,
        ScatterDotType::Cross(t) => t as int,
        ScatterDotType::Triangle(b) => b as int,
    }
}

/// Whether the pixel at offset `(dx, dy)` from a marker's centre belongs to it.
/// - `Circle(r)`: `dx² + dy² <= r²`, with `|dx|, |dy| <= r`;
/// - `Square(s)`: `|dx|, |dy| <= s / 2`;
/// - `Cross(t)`: on the horizontal or the vertical arm, `t` pixels each way;
/// - `Triangle(b)`: for `0 <= -dy <= b`, `|dx| <= b + dy` (apex `b` rows up).
pub open spec fn in_marker(dot: ScatterDotType, dx: int, dy: int) -> bool {
    match dot {
        ScatterDotType::Circle(r) => -r <= dx <= r && -r <= dy <= r && dx * dx + dy * dy <= r * r,
        ScatterDotType::Square(s) => -(s / 2) <= dx <= s / 2 && -(s / 2) <= dy <= s / 2,
        ScatterDotType::Cross(t) => (dy == 0 && -t <= dx <= t) || (dx == 0 && -t <= dy <= t),
        ScatterDotType::Triangle(b) => -b <= dy <= 0 && -(b + dy) <= dx <= b + dy,
    }
}

/// The pixels of a marker centred on `(x, y)`.
pub open spec fn marker_points(x: int, y: int, dot: ScatterDotType) -> Set<(int, int)> {
    Set::new(|p: (int, int)| in_marker(dot, p.0 - x, p.1 - y))
}

/// The marker pixels that a row-major scan of the offsets reaches before
/// offset `(col, row)`.
pub open spec fn marker_scanned(x: int, y: int, dot: ScatterDotType, row: int, col: int) -> Set<(int, int)> {
    Set::new(
        |p: (int, int)|
            in_marker(dot, p.0 - x, p.1 - y) && (p.1 - y < row || (p.1 - y == row && p.0 - x < col)),
    )
}

/// Every offset of a marker lies within its size in both directions.
proof fn lemma_marker_box(dot: ScatterDotType, dx: int, dy: int)
    requires
        in_marker(dot, dx, dy),
    ensures
        -marker_size(dot) <= dx <= marker_size(dot),
        -marker_size(dot) <= dy <= marker_size(dot),
{
}

/// Computes `in_marker`.
fn covers(dot: ScatterDotType, dx: i64, dy: i64) -> (r: bool)
    requires
        -0x1_0000_0000 <= dx <= 0x1_0000_0000,
        -0x1_0000_0000 <= dy <= 0x1_0000_0000,
    ensures
        r == in_marker(dot, dx as int, dy as int),
{
    match dot {
        ScatterDotType::Circle(r) => {
            let rr = r as i128;
            let a = dx as i128;
            let b = dy as i128;
            assert(0 <= a * a <= 0x1_0000_0000_0000_0000) by (nonlinear_arith)
                requires -0x1_0000_0000 <= a <= 0x1_0000_0000;
            assert(0 <= b * b <= 0x1_0000_0000_0000_0000) by (nonlinear_arith)
                requires -0x1_0000_0000 <= b <= 0x1_0000_0000;
            assert(0 <= rr * rr <= 0x1_0000_0000_0000_0000) by (nonlinear_arith)
                requires 0 <= rr <= 0x1_0000_0000;
            let a2 = a * a;
            let b2 = b * b;
            let r2 = rr * rr;
            -rr <= a && a <= rr && -rr <= b && b <= rr && a2 + b2 <= r2
        },
        ScatterDotType::Square(s) => {
            let h = (s / 2) as i64;
            -h <= dx && dx <= h && -h <= dy && dy <= h
        },
        ScatterDotType::Cross(t) => {
            let t = t as i64;
            (dy == 0 && -t <= dx && dx <= t) || (dx == 0 && -t <= dy && dy <= t)
        },
        ScatterDotType::Triangle(b) => {
            let b = b as i64;
            -b <= dy && dy <= 0 && -(b + dy) <= dx && dx <= b + dy
        },
    }
}

impl PixelCanvas {
    /// Stamps the marker `dot_type` centred on `(x, y)` in `color`; pixels
    /// outside the buffer are skipped.
    pub fn draw_marker(&mut self, x: i32, y: i32, dot_type: ScatterDotType, color: [u8; 3])
        ensures
            final(self).same_frame(*old(self)),
            final(self).buffer@ == old(self).paint_spec(marker_points(x as int, y as int, dot_type), color),
    {
        let ghost w = self.width as int;
        let ghost h = self.height as int;
        let ghost cx = x as int;
        let ghost cy = y as int;
        let n: i64 = match dot_type {
            ScatterDotType::Circle(r) => r as i64,
            ScatterDotType::Square(s) => s as i64,
            ScatterDotType::Cross(t) => t as i64,
            ScatterDotType::Triangle(b) => b as i64,
        };
        assert(n == marker_size(dot_type));
        proof {
            assert(marker_scanned(cx, cy, dot_type, -n, -n) =~= Set::<(int, int)>::empty()) by {
                assert forall|p: (int, int)| !#[trigger] marker_scanned(cx, cy, dot_type, -n, -n).contains(p) by {
                    if in_marker(dot_type, p.0 - cx, p.1 - cy) {
                        lemma_marker_box(dot_type, p.0 - cx, p.1 - cy);
                    }
                }
            }
            lemma_paint_nothing(old(self).buffer@, w, h, color);
        }
        let mut dy: i64 = -n;
        while dy <= n
            invariant
                self.same_frame(*old(self)),
                self.buffer@.len() == old(self).buffer@.len(),
                w == self.width,
                h == self.height,
                cx == x,
                cy == y,
                n == marker_size(dot_type),
                0 <= n <= 0xffff_ffff,
                -n <= dy <= n + 1,
                self.buffer@ == old(self).paint_spec(marker_scanned(cx, cy, dot_type, dy as int, -n), color),
            decreases n + 1 - dy,
        {
            let mut dx: i64 = -n;
            while dx <= n
                invariant
                    self.same_frame(*old(self)),
                    self.buffer@.len() == old(self).buffer@.len(),
                    w == self.width,
                    h == self.height,
                    cx == x,
                    cy == y,
                    n == marker_size(dot_type),
                    0 <= n <= 0xffff_ffff,
                    -n <= dy <= n,
                    -n <= dx <= n + 1,
                    self.buffer@ == old(self).paint_spec(marker_scanned(cx, cy, dot_type, dy as int, dx as int), color),
                decreases n + 1 - dx,
            {
                let ghost before = marker_scanned(cx, cy, dot_type, dy as int, dx as int);
                let ghost after = marker_scanned(cx, cy, dot_type, dy as int, dx + 1);
                let ghost here = ((x as int) + dx, (y as int) + dy);
                if covers(dot_type, dx, dy) {
                    self.put_pixel(x as i64 + dx, y as i64 + dy, color);
                    proof {
                        lemma_paint_more(old(self).buffer@, before, set![here], w, h, color);
                        assert(after =~= before.union(set![here]));
                    }
                } else {
                    assert(after =~= before);
                }
                dx = dx + 1;
            }
            proof {
                let a = marker_scanned(cx, cy, dot_type, dy as int, n + 1);
                let b = marker_scanned(cx, cy, dot_type, dy + 1, -n);
                assert forall|p: (int, int)| a.contains(p) <==> b.contains(p) by {
                    if in_marker(dot_type, p.0 - cx, p.1 - cy) {
                        lemma_marker_box(dot_type, p.0 - cx, p.1 - cy);
                    }
                }
                assert(a =~= b);
            }
            dy = dy + 1;
        }
        proof {
            let a = marker_scanned(cx, cy, dot_type, n + 1, -n);
            let b = marker_points(cx, cy, dot_type);
            assert forall|p: (int, int)| a.contains(p) <==> b.contains(p) by {
                if in_marker(dot_type, p.0 - cx, p.1 - cy) {
                    lemma_marker_box(dot_type, p.0 - cx, p.1 - cy);
                }
            }
            assert(a =~= b);
        }
    }
}

} // verus!
