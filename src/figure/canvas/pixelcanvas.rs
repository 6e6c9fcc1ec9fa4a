use vstd::prelude::*;

use crate::figure::canvas::linetrace::{
    lemma_point_line, dash_on, dashed_points, on_path, drawn_upto, lemma_dash_next, lemma_on_path_prefix, lemma_step_inv,
    lemma_walk, span, striped_upto, stripe_point, thick_points, trace_point, trace_state,
    trace_step, unit, walk_inv,
};
use crate::figure::utilities::linetype::LineType;
use vstd::arithmetic::div_mod::lemma_fundamental_div_mod_converse;

verus! {

/// Why a canvas operation was refused.
#[derive(Clone, Copy, Debug, PartialEq, Eq, Structural)]
pub enum CanvasError {
    /// The line style has no raster implementation (`LineType::Squared`).
    UnsupportedLineType,
    /// The buffer does not hold exactly `width * height * 3` bytes.
    BufferSizeMismatch,
    /// The image encoder failed.
    EncodingFailed,
}

/// Linear pixel index of `(x, y)` on a canvas `width` pixels wide.
pub open spec fn slot_of(x: int, y: int, width: int) -> int {
    y * width + x
}

/// A write to `(x, y)` reaches a canvas `width` by `height` with a buffer
/// of `len` bytes exactly when the point lies on the canvas and the pixel's
/// three bytes lie inside the buffer. Any other write is dropped.
pub open spec fn writable(x: int, y: int, width: int, height: int, len: int) -> bool {
    0 <= x < width && 0 <= y < height && slot_of(x, y, width) * 3 + 2 < len
}

/// The pixel slots that writes to the points of `pts` reach.
pub open spec fn reached(pts: Set<(int, int)>, width: int, height: int, len: int) -> Set<int> {
    Set::new(
        |s: int|
            exists|p: (int, int)|
                #[trigger] pts.contains(p) && writable(p.0, p.1, width, height, len) && s == slot_of(
                    p.0,
                    p.1,
                    width,
                ),
    )
}

/// `buf` with every pixel whose slot is in `slots` set to `c`.
pub open spec fn painted(buf: Seq<u8>, slots: Set<int>, c: [u8; 3]) -> Seq<u8> {
    Seq::new(buf.len(), |i: int| if slots.contains(i / 3) { c[i % 3] } else { buf[i] })
}

/// The colour stored at slot `s` of `buf`.
pub open spec fn pixel_at(buf: Seq<u8>, s: int) -> [u8; 3] {
    [buf[3 * s], buf[3 * s + 1], buf[3 * s + 2]]
}

/// One channel of `alpha * c + (1 - alpha) * e` for `alpha = num / den`,
/// truncated towards zero.
pub open spec fn mix(c: u8, e: u8, num: int, den: int) -> int {
    (c * num + e * (den - num)) / den
}

/// `buf` with the pixel at slot `s` blended towards `c` with opacity `num / den`.
pub open spec fn blended(buf: Seq<u8>, s: int, c: [u8; 3], num: int, den: int) -> Seq<u8> {
    buf.update(3 * s, mix(c[0], buf[3 * s], num, den) as u8).update(
        3 * s + 1,
        mix(c[1], buf[3 * s + 1], num, den) as u8,
    ).update(3 * s + 2, mix(c[2], buf[3 * s + 2], num, den) as u8)
}

/// The points of row `y` from column `lo` up to, not including, column `hi`.
pub open spec fn row_points(y: int, lo: int, hi: int) -> Set<(int, int)> {
    Set::new(|p: (int, int)| p.1 == y && lo <= p.0 < hi)
}

/// The points of column `x` from row `lo` up to, not including, row `hi`.
pub open spec fn column_points(x: int, lo: int, hi: int) -> Set<(int, int)> {
    Set::new(|p: (int, int)| p.0 == x && lo <= p.1 < hi)
}

/// The points of a grid on a `w` by `h` canvas with margin `m`: the columns
/// `m + k * gx` up to `w - m`, each over rows `m .. h - m`, and the rows
/// `m + k * gy` up to `h - m`, each over columns `m .. w - m`.
pub open spec fn grid_points(w: int, h: int, m: int, gx: int, gy: int) -> Set<(int, int)> {
    Set::new(
        |p: (int, int)|
            (m <= p.0 <= w - m && (p.0 - m) % gx == 0 && m <= p.1 < h - m) || (m <= p.1 <= h - m
                && (p.1 - m) % gy == 0 && m <= p.0 < w - m),
    )
}

/// The grid columns left of column `x`.
pub open spec fn grid_columns_upto(w: int, h: int, m: int, gx: int, x: int) -> Set<(int, int)> {
    Set::new(
        |p: (int, int)| m <= p.0 < x && p.0 <= w - m && (p.0 - m) % gx == 0 && m <= p.1 < h - m,
    )
}

/// The grid rows above row `y`.
pub open spec fn grid_rows_upto(w: int, h: int, m: int, gy: int, y: int) -> Set<(int, int)> {
    Set::new(
        |p: (int, int)| m <= p.1 < y && p.1 <= h - m && (p.1 - m) % gy == 0 && m <= p.0 < w - m,
    )
}

/// One blended channel, computed exactly.
fn mix_channel(c: u8, e: u8, num: u32, den: u32) -> (r: u8)
    requires
        0 < den,
        num <= den,
    ensures
        r == mix(c, e, num as int, den as int),
{
    assert((c as int) * (num as int) <= 255 * 0xffff_ffff) by (nonlinear_arith)
        requires c <= 255, num <= 0xffff_ffff;
    assert((e as int) * ((den - num) as int) <= 255 * 0xffff_ffff) by (nonlinear_arith)
        requires e <= 255, den - num <= 0xffff_ffff;
    let a = (c as u64) * (num as u64);
    let b = (e as u64) * ((den - num) as u64);
    proof {
        assert(a <= 255 * num) by (nonlinear_arith)
            requires a == c * num, c <= 255;
        assert(b <= 255 * (den - num)) by (nonlinear_arith)
            requires b == e * (den - num), e <= 255, num <= den;
        assert((a + b) / (den as int) <= 255) by (nonlinear_arith)
            requires a + b <= 255 * den, den > 0;
    }
    ((a + b) / (den as u64)) as u8
}

/// A raster surface: `width * height` RGB pixels, row-major, three bytes each.
pub struct PixelCanvas {
    /// Width of the canvas in pixels.
    pub width: u32,
    /// Height of the canvas in pixels.
    pub height: u32,
    /// Background colour, stored for `clear`.
    pub background_color: [u8; 3],
    /// The pixel bytes.
    pub buffer: Vec<u8>,
    /// Inset kept free on every side by the line and grid helpers.
    pub margin: u32,
}

impl PixelCanvas {
    /// Whether `self` and `other` agree on everything but the buffer.
    pub open spec fn same_frame(self, other: PixelCanvas) -> bool {
        self.width == other.width && self.height == other.height && self.background_color
            == other.background_color && self.margin == other.margin
    }

    /// The buffer holds exactly the `width * height` pixels of the canvas.
    /// `new` establishes this and every drawing method keeps the buffer's
    /// length and the canvas's size.
    pub open spec fn wf(self) -> bool {
        self.buffer@.len() == self.width as int * self.height as int * 3
    }

    /// `self.buffer` with the points of `pts` painted `c`.
    pub open spec fn paint_spec(self, pts: Set<(int, int)>, c: [u8; 3]) -> Seq<u8> {
        painted(self.buffer@, reached(pts, self.width as int, self.height as int, self.buffer@.len() as int), c)
    }

    /// Creates a canvas whose buffer holds `width * height * 3` zero bytes.
    /// The background colour is only stored: the buffer starts black.
    pub fn new(width: u32, height: u32, background_color: [u8; 3], margin: u32) -> (r: Self)
        requires
            width as int * height as int * 3 <= usize::MAX,
        ensures
            r.width == width,
            r.height == height,
            r.background_color == background_color,
            r.margin == margin,
            r.buffer@ == Seq::new((width as int * height as int * 3) as nat, |i: int| 0u8),
            r.wf(),
    {
        assert(width as int * height as int <= usize::MAX) by (nonlinear_arith)
            requires
                width as int * height as int * 3 <= usize::MAX,
        ;
        let n: usize = (width as usize) * (height as usize) * 3;
        let buffer = vec![0u8; n];
        assert(buffer@ =~= Seq::new((width as int * height as int * 3) as nat, |i: int| 0u8));
        PixelCanvas { width, height, background_color, buffer, margin }
    }

    /// Fills every byte of the buffer with the first channel of the
    /// background colour (the other two channels are not used).
    pub fn clear(&mut self)
        ensures
            final(self).same_frame(*old(self)),
            final(self).buffer@ == Seq::new(
                old(self).buffer@.len(),
                |i: int| old(self).background_color[0],
            ),
    {
        let b = self.background_color[0];
        let n = self.buffer.len();
        let mut i: usize = 0;
        while i < n
            invariant
                self.same_frame(*old(self)),
                self.background_color[0] == b,
                n == self.buffer@.len(),
                n == old(self).buffer@.len(),
                i <= n,
                forall|k: int| 0 <= k < i ==> self.buffer@[k] == b,
            decreases n - i,
        {
            self.buffer[i] = b;
            i = i + 1;
        }
        assert(self.buffer@ =~= Seq::new(old(self).buffer@.len(), |i: int| b));
    }

    /// Fills every pixel with the full three-channel background colour.
    pub fn clear_to_background(&mut self)
        ensures
            final(self).same_frame(*old(self)),
            final(self).buffer@ == Seq::new(
                old(self).buffer@.len(),
                |i: int| old(self).background_color[i % 3],
            ),
    {
        let bg = self.background_color;
        let n = self.buffer.len();
        let mut i: usize = 0;
        while i < n
            invariant
                self.same_frame(*old(self)),
                self.background_color == bg,
                n == self.buffer@.len(),
                n == old(self).buffer@.len(),
                i <= n,
                forall|k: int| 0 <= k < i ==> self.buffer@[k] == bg[k % 3],
            decreases n - i,
        {
            self.buffer[i] = bg[i % 3];
            i = i + 1;
        }
        assert(self.buffer@ =~= Seq::new(old(self).buffer@.len(), |i: int| bg[i % 3]));
    }

    /// The buffer index of the first byte of `(x, y)`, when a write there
    /// lands inside the buffer.
    fn byte_index(&self, x: i64, y: i64) -> (r: Option<usize>)
        ensures
            r is Some <==> writable(x as int, y as int, self.width as int, self.height as int, self.buffer@.len() as int),
            r is Some ==> r->0 as int == 3 * slot_of(x as int, y as int, self.width as int),
            r is Some ==> r->0 + 2 < self.buffer@.len(),
            self.buffer@.len() <= usize::MAX,
    {
        let len = self.buffer.len();
        if x < 0 || y < 0 || x >= self.width as i64 || y >= self.height as i64 {
            return None;
        }
        let w = self.width as u128;
        assert((y as u128) * w < 0x1_0000_0000_0000_0000_0000_0000) by (nonlinear_arith)
            requires
                0 <= y < 0x8000_0000_0000_0000,
                w < 0x1_0000_0000,
        ;
        let s: u128 = (y as u128) * w + (x as u128);
        if s * 3 + 2 < len as u128 {
            Some((s * 3) as usize)
        } else {
            None
        }
    }

    /// Sets the pixel `(x, y)` to `color`; does nothing where the write would
    /// fall outside the buffer.
    pub fn draw_pixel(&mut self, x: u32, y: u32, color: [u8; 3])
        ensures
            final(self).same_frame(*old(self)),
            final(self).buffer@ == old(self).paint_spec(set![(x as int, y as int)], color),
    {
        self.put_pixel(x as i64, y as i64, color);
    }

    /// `draw_pixel` on signed coordinates: negative ones miss the buffer.
    pub fn put_pixel(&mut self, x: i64, y: i64, color: [u8; 3])
        ensures
            final(self).same_frame(*old(self)),
            final(self).buffer@ == old(self).paint_spec(set![(x as int, y as int)], color),
    {
        let ghost w = self.width as int;
        let ghost h = self.height as int;
        let ghost len = self.buffer@.len() as int;
        let ghost p = (x as int, y as int);
        proof {
            lemma_reached_single(p, w, h, len);
        }
        match self.byte_index(x, y) {
            Some(i) => {
                self.buffer[i] = color[0];
                self.buffer[i + 1] = color[1];
                self.buffer[i + 2] = color[2];
                assert(self.buffer@ =~= painted(old(self).buffer@, set![slot_of(x as int, y as int, w)], color));
            },
            None => {
                assert(self.buffer@ =~= painted(old(self).buffer@, Set::empty(), color));
            },
        }
    }

    /// The colour of pixel `(x, y)`, or `None` where it lies outside the buffer.
    pub fn get_pixel(&self, x: u32, y: u32) -> (r: Option<[u8; 3]>)
        ensures
            r is Some <==> writable(x as int, y as int, self.width as int, self.height as int, self.buffer@.len() as int),
            r is Some ==> r->0 == pixel_at(self.buffer@, slot_of(x as int, y as int, self.width as int)),
    {
        match self.byte_index(x as i64, y as i64) {
            Some(i) => {
                let c = [self.buffer[i], self.buffer[i + 1], self.buffer[i + 2]];
                assert(c == pixel_at(self.buffer@, slot_of(x as int, y as int, self.width as int)));
                Some(c)
            },
            None => None,
        }
    }

    /// Blends `color` into pixel `(x, y)` with opacity `alpha_num / alpha_den`:
    /// each channel becomes `(alpha * color + (1 - alpha) * old)` truncated.
    /// Does nothing where the pixel lies outside the buffer.
    pub fn blend_pixel(&mut self, x: u32, y: u32, color: [u8; 3], alpha_num: u32, alpha_den: u32)
        requires
            0 < alpha_den,
            alpha_num <= alpha_den,
        ensures
            final(self).same_frame(*old(self)),
            final(self).buffer@ == old(self).blend_spec(x as int, y as int, color, alpha_num as int, alpha_den as int),
    {
        self.blend_at(x as i64, y as i64, color, alpha_num, alpha_den);
    }

    /// `self.buffer` after blending `c` into `(x, y)` with opacity `num / den`.
    pub open spec fn blend_spec(self, x: int, y: int, c: [u8; 3], num: int, den: int) -> Seq<u8> {
        if writable(x, y, self.width as int, self.height as int, self.buffer@.len() as int) {
            blended(self.buffer@, slot_of(x, y, self.width as int), c, num, den)
        } else {
            self.buffer@
        }
    }

    /// `blend_pixel` on signed coordinates: negative ones miss the buffer.
    pub fn blend_at(&mut self, x: i64, y: i64, color: [u8; 3], alpha_num: u32, alpha_den: u32)
        requires
            0 < alpha_den,
            alpha_num <= alpha_den,
        ensures
            final(self).same_frame(*old(self)),
            final(self).buffer@ == old(self).blend_spec(x as int, y as int, color, alpha_num as int, alpha_den as int),
    {
        match self.byte_index(x, y) {
            Some(i) => {
                let r = mix_channel(color[0], self.buffer[i], alpha_num, alpha_den);
                let g = mix_channel(color[1], self.buffer[i + 1], alpha_num, alpha_den);
                let b = mix_channel(color[2], self.buffer[i + 2], alpha_num, alpha_den);
                self.buffer[i] = r;
                self.buffer[i + 1] = g;
                self.buffer[i + 2] = b;
                assert(self.buffer@ =~= blended(
                    old(self).buffer@,
                    slot_of(x as int, y as int, self.width as int),
                    color,
                    alpha_num as int,
                    alpha_den as int,
                ));
            },
            None => {},
        }
    }

    /// Paints the row `y` from column `margin` up to, not including, column
    /// `width - margin`; nothing when the margins leave no room.
    pub fn draw_horizontal_line(&mut self, y: u32, color: [u8; 3])
        ensures
            final(self).same_frame(*old(self)),
            final(self).buffer@ == old(self).paint_spec(
                row_points(y as int, old(self).margin as int, old(self).width - old(self).margin),
                color,
            ),
    {
        let ghost w = self.width as int;
        let ghost h = self.height as int;
        let lo = self.margin;
        let hi: u32 = if self.margin <= self.width { self.width - self.margin } else { 0 };
        let mut x: u32 = lo;
        proof {
            assert(row_points(y as int, lo as int, lo as int) =~= Set::<(int, int)>::empty());
            lemma_paint_nothing(old(self).buffer@, w, h, color);
        }
        while x < hi
            invariant
                self.same_frame(*old(self)),
                self.buffer@.len() == old(self).buffer@.len(),
                w == self.width,
                h == self.height,
                lo == self.margin,
                lo <= x,
                hi < lo ==> x == lo,
                hi >= lo ==> x <= hi,
                self.buffer@ == old(self).paint_spec(row_points(y as int, lo as int, x as int), color),
            decreases hi - x,
        {
            self.draw_pixel(x, y, color);
            proof {
                lemma_paint_more(old(self).buffer@, row_points(y as int, lo as int, x as int), set![(x as int, y as int)], w, h, color);
                assert(row_points(y as int, lo as int, x + 1) =~= row_points(y as int, lo as int, x as int).union(set![(x as int, y as int)]));
            }
            x = x + 1;
        }
        assert(row_points(y as int, lo as int, x as int) =~= row_points(y as int, lo as int, self.width - self.margin));
    }

    /// Paints the column `x` from row `margin` up to, not including, row
    /// `height - margin`; nothing when the margins leave no room.
    pub fn draw_vertical_line(&mut self, x: u32, color: [u8; 3])
        ensures
            final(self).same_frame(*old(self)),
            final(self).buffer@ == old(self).paint_spec(
                column_points(x as int, old(self).margin as int, old(self).height - old(self).margin),
                color,
            ),
    {
        let ghost w = self.width as int;
        let ghost h = self.height as int;
        let lo = self.margin;
        let hi: u32 = if self.margin <= self.height { self.height - self.margin } else { 0 };
        let mut y: u32 = lo;
        proof {
            assert(column_points(x as int, lo as int, lo as int) =~= Set::<(int, int)>::empty());
            lemma_paint_nothing(old(self).buffer@, w, h, color);
        }
        while y < hi
            invariant
                self.same_frame(*old(self)),
                self.buffer@.len() == old(self).buffer@.len(),
                w == self.width,
                h == self.height,
                lo == self.margin,
                lo <= y,
                hi < lo ==> y == lo,
                hi >= lo ==> y <= hi,
                self.buffer@ == old(self).paint_spec(column_points(x as int, lo as int, y as int), color),
            decreases hi - y,
        {
            self.draw_pixel(x, y, color);
            proof {
                lemma_paint_more(old(self).buffer@, column_points(x as int, lo as int, y as int), set![(x as int, y as int)], w, h, color);
                assert(column_points(x as int, lo as int, y + 1) =~= column_points(x as int, lo as int, y as int).union(set![(x as int, y as int)]));
            }
            y = y + 1;
        }
        assert(column_points(x as int, lo as int, y as int) =~= column_points(x as int, lo as int, self.height - self.margin));
    }

    /// Draws grid lines: a vertical line (as `draw_vertical_line`) at every
    /// `grid_size[0]`-th column from `margin` to `width - margin` inclusive,
    /// then a horizontal line at every `grid_size[1]`-th row from `margin` to
    /// `height - margin` inclusive.
    pub fn draw_grid(&mut self, grid_size: &[usize; 2], color: [u8; 3])
        requires
            grid_size[0] > 0,
            grid_size[1] > 0,
        ensures
            final(self).same_frame(*old(self)),
            final(self).buffer@ == old(self).paint_spec(
                grid_points(
                    old(self).width as int,
                    old(self).height as int,
                    old(self).margin as int,
                    grid_size[0] as int,
                    grid_size[1] as int,
                ),
                color,
            ),
    {
        let ghost w = self.width as int;
        let ghost h = self.height as int;
        let ghost m = self.margin as int;
        let gx = grid_size[0];
        let gy = grid_size[1];
        let ghost g0 = gx as int;
        let ghost g1 = gy as int;
        let ghost start = self.buffer@;
        proof {
            assert(grid_columns_upto(w, h, m, g0, m) =~= Set::<(int, int)>::empty());
            lemma_paint_nothing(start, w, h, color);
        }
        let mut x: i128 = self.margin as i128;
        let hi: i128 = self.width as i128 - self.margin as i128;
        let ghost mut t: int = 0;
        while x <= hi
            invariant
                self.same_frame(*old(self)),
                self.buffer@.len() == start.len(),
                start == old(self).buffer@,
                w == self.width,
                h == self.height,
                m == self.margin,
                g0 == gx,
                gx > 0,
                hi == w - m,
                0 <= t,
                x == m + t * g0,
                t == 0 || x <= hi + g0,
                self.buffer@ == old(self).paint_spec(grid_columns_upto(w, h, m, g0, x as int), color),
            decreases hi + g0 - x,
        {
            self.draw_vertical_line(x as u32, color);
            proof {
                lemma_paint_more(start, grid_columns_upto(w, h, m, g0, x as int), column_points(x as int, m, h - m), w, h, color);
                let nx = x + g0;
                assert forall|p: (int, int)|
                    grid_columns_upto(w, h, m, g0, nx).contains(p) <==> grid_columns_upto(w, h, m, g0, x as int).union(column_points(x as int, m, h - m)).contains(p) by {
                    if x < p.0 < nx {
                        assert(p.0 - m == t * g0 + (p.0 - x)) by (nonlinear_arith)
                            requires x == m + t * g0;
                        lemma_fundamental_div_mod_converse(p.0 - m, g0, t, p.0 - x);
                    }
                    if p.0 == x {
                        assert(p.0 - m == t * g0 + 0) by (nonlinear_arith)
                            requires x == m + t * g0, p.0 == x;
                        lemma_fundamental_div_mod_converse(p.0 - m, g0, t, 0);
                    }
                }
                assert(grid_columns_upto(w, h, m, g0, nx) =~= grid_columns_upto(w, h, m, g0, x as int).union(column_points(x as int, m, h - m)));
                assert(nx == m + (t + 1) * g0) by (nonlinear_arith)
                    requires x == m + t * g0, nx == x + g0;
                t = t + 1;
            }
            x = x + gx as i128;
        }
        let ghost cols = grid_columns_upto(w, h, m, g0, x as int);
        let ghost mid = self.buffer@;
        proof {
            assert(cols =~= grid_columns_upto(w, h, m, g0, w - m + 1));
            assert(grid_rows_upto(w, h, m, g1, m) =~= Set::<(int, int)>::empty());
            assert(cols.union(grid_rows_upto(w, h, m, g1, m)) =~= cols);
        }
        let mut y: i128 = self.margin as i128;
        let vhi: i128 = self.height as i128 - self.margin as i128;
        let ghost mut u: int = 0;
        while y <= vhi
            invariant
                self.same_frame(*old(self)),
                self.buffer@.len() == start.len(),
                start == old(self).buffer@,
                w == self.width,
                h == self.height,
                m == self.margin,
                g1 == gy,
                gy > 0,
                vhi == h - m,
                0 <= u,
                y == m + u * g1,
                u == 0 || y <= vhi + g1,
                self.buffer@ == old(self).paint_spec(cols.union(grid_rows_upto(w, h, m, g1, y as int)), color),
            decreases vhi + g1 - y,
        {
            self.draw_horizontal_line(y as u32, color);
            proof {
                let sofar = cols.union(grid_rows_upto(w, h, m, g1, y as int));
                lemma_paint_more(start, sofar, row_points(y as int, m, w - m), w, h, color);
                let ny = y + g1;
                assert forall|p: (int, int)|
                    grid_rows_upto(w, h, m, g1, ny).contains(p) <==> grid_rows_upto(w, h, m, g1, y as int).union(row_points(y as int, m, w - m)).contains(p) by {
                    if y < p.1 < ny {
                        assert(p.1 - m == u * g1 + (p.1 - y)) by (nonlinear_arith)
                            requires y == m + u * g1;
                        lemma_fundamental_div_mod_converse(p.1 - m, g1, u, p.1 - y);
                    }
                    if p.1 == y {
                        assert(p.1 - m == u * g1 + 0) by (nonlinear_arith)
                            requires y == m + u * g1, p.1 == y;
                        lemma_fundamental_div_mod_converse(p.1 - m, g1, u, 0);
                    }
                }
                assert(cols.union(grid_rows_upto(w, h, m, g1, ny)) =~= sofar.union(row_points(y as int, m, w - m)));
                assert(ny == m + (u + 1) * g1) by (nonlinear_arith)
                    requires y == m + u * g1, ny == y + g1;
                u = u + 1;
            }
            y = y + gy as i128;
        }
        assert(cols.union(grid_rows_upto(w, h, m, g1, y as int)) =~= grid_points(w, h, m, g0, g1));
    }

    /// Draws the segment from `(x1, y1)` to `(x2, y2)` along the integer
    /// error-accumulation path (see `linetrace`). `Solid` paints every point
    /// of the path, `SolidThick` a five pixel vertical stripe at each point
    /// before the end and the end point alone, `Dashed(n)` and `Dotted(n)`
    /// the points of the painted runs. `Squared` is refused and the canvas
    /// is left untouched. Points outside the buffer are skipped.
    pub fn draw_line(
        &mut self,
        x1: i32,
        y1: i32,
        x2: i32,
        y2: i32,
        color: [u8; 3],
        line_type: LineType,
    ) -> (r: Result<(), CanvasError>)
        ensures
            final(self).same_frame(*old(self)),
            line_type is Squared <==> r is Err,
            r is Err ==> r == Err::<(), CanvasError>(CanvasError::UnsupportedLineType)
                && final(self).buffer@ == old(self).buffer@,
            line_type is Solid ==> final(self).buffer@ == old(self).paint_spec(
                dashed_points(x1 as int, y1 as int, x2 as int, y2 as int, 0),
                color,
            ),
            line_type is SolidThick ==> final(self).buffer@ == old(self).paint_spec(
                thick_points(x1 as int, y1 as int, x2 as int, y2 as int),
                color,
            ),
            line_type is Dashed ==> final(self).buffer@ == old(self).paint_spec(
                dashed_points(x1 as int, y1 as int, x2 as int, y2 as int, line_type->Dashed_0 as int),
                color,
            ),
            line_type is Dotted ==> final(self).buffer@ == old(self).paint_spec(
                dashed_points(x1 as int, y1 as int, x2 as int, y2 as int, line_type->Dotted_0 as int),
                color,
            ),
    {
        match line_type {
            LineType::Solid => {
                self.stroke(x1, y1, x2, y2, color, 0);
                Ok(())
            },
            LineType::SolidThick => {
                self.stroke_thick(x1, y1, x2, y2, color);
                Ok(())
            },
            LineType::Dashed(n) => {
                self.stroke(x1, y1, x2, y2, color, n);
                Ok(())
            },
            LineType::Dotted(n) => {
                self.stroke(x1, y1, x2, y2, color, n);
                Ok(())
            },
            LineType::Squared(_, _) => Err(CanvasError::UnsupportedLineType),
        }
    }

    /// Paints the points of the path whose dash pattern (runs of `dash`) is on.
    fn stroke(&mut self, x1: i32, y1: i32, x2: i32, y2: i32, color: [u8; 3], dash: u32)
        ensures
            final(self).same_frame(*old(self)),
            final(self).buffer@ == old(self).paint_spec(
                dashed_points(x1 as int, y1 as int, x2 as int, y2 as int, dash as int),
                color,
            ),
    {
        let ghost ax = x1 as int;
        let ghost ay = y1 as int;
        let ghost bx = x2 as int;
        let ghost by_ = y2 as int;
        let ghost w = self.width as int;
        let ghost h = self.height as int;
        let ghost len = self.buffer@.len() as int;
        let xa = x1 as i64;
        let ya = y1 as i64;
        let xb = x2 as i64;
        let yb = y2 as i64;
        let dx: i64 = if xa <= xb { xb - xa } else { xa - xb };
        let dy: i64 = if ya <= yb { ya - yb } else { yb - ya };
        let sx: i64 = if xa < xb { 1 } else { -1 };
        let sy: i64 = if ya < yb { 1 } else { -1 };
        let mut err: i64 = dx + dy;
        let mut x: i64 = xa;
        let mut y: i64 = ya;
        let mut drawing = true;
        let mut seg: u32 = 0;
        let ghost mut k: int = 0;
        proof {
            lemma_walk(ax, ay, bx, by_, 0);
            assert(drawn_upto(ax, ay, bx, by_, dash as int, 0) =~= Set::<(int, int)>::empty());
            lemma_paint_nothing(old(self).buffer@, w, h, color);
        }
        while x != xb || y != yb
            invariant
                self.same_frame(*old(self)),
                self.buffer@.len() == len,
                w == self.width,
                h == self.height,
                len == old(self).buffer@.len(),
                ax == xa,
                ay == ya,
                bx == xb,
                by_ == yb,
                ax == x1,
                ay == y1,
                bx == x2,
                by_ == y2,
                dx == span(ax, bx),
                dy == -span(ay, by_),
                sx == unit(ax, bx),
                sy == unit(ay, by_),
                (x as int, y as int, err as int) == trace_state(ax, ay, bx, by_, k as nat),
                i32::MIN <= x <= i32::MAX,
                i32::MIN <= y <= i32::MAX,
                -0x2_0000_0000 <= err <= 0x2_0000_0000,
                0 <= k,
                walk_inv(ax, ay, bx, by_, (x as int, y as int, err as int), k as nat),
                forall|m: int| 0 <= m < k ==> trace_point(ax, ay, bx, by_, m) != (bx, by_),
                dash > 0 ==> seg == k % (dash as int) && drawing == ((k / (dash as int)) % 2 == 0),
                dash == 0 ==> drawing,
                self.buffer@ == old(self).paint_spec(drawn_upto(ax, ay, bx, by_, dash as int, k), color),
            decreases (span(ax, bx) - span(ax, x as int)) + (span(ay, by_) - span(ay, y as int)),
        {
            let ghost here = (x as int, y as int);
            assert(trace_point(ax, ay, bx, by_, k) == here);
            let ghost before = self.buffer@;
            if drawing {
                self.put_pixel(x, y, color);
                proof {
                    lemma_paint_more(old(self).buffer@, drawn_upto(ax, ay, bx, by_, dash as int, k), set![here], w, h, color);
                }
            }
            proof {
                assert(dash_on(k, dash as int) == drawing);
                if drawing {
                    assert(drawn_upto(ax, ay, bx, by_, dash as int, k + 1) =~= drawn_upto(ax, ay, bx, by_, dash as int, k).union(set![here]));
                } else {
                    assert(drawn_upto(ax, ay, bx, by_, dash as int, k + 1) =~= drawn_upto(ax, ay, bx, by_, dash as int, k));
                }
            }
            if dash > 0 {
                proof {
                    lemma_dash_next(k, dash as int);
                }
                seg = seg + 1;
                if seg == dash {
                    drawing = !drawing;
                    seg = 0;
                }
            }
            let ghost s0 = (x as int, y as int, err as int);
            let e2 = 2 * err;
            if e2 >= dy {
                err = err + dy;
                x = x + sx;
            }
            if e2 <= dx {
                err = err + dx;
                y = y + sy;
            }
            proof {
                lemma_step_inv(ax, ay, bx, by_, s0, k as nat);
                assert((x as int, y as int, err as int) == trace_step(s0, ax, ay, bx, by_));
                k = k + 1;
            }
        }
        proof {
            lemma_on_path_prefix(ax, ay, bx, by_, k as nat);
        }
        let ghost so_far = drawn_upto(ax, ay, bx, by_, dash as int, k);
        if drawing {
            self.put_pixel(xb, yb, color);
            proof {
                lemma_paint_more(old(self).buffer@, so_far, set![(bx, by_)], w, h, color);
            }
        }
        proof {
            let dp = dashed_points(ax, ay, bx, by_, dash as int);
            let un = if drawing { so_far.union(set![(bx, by_)]) } else { so_far };
            assert(trace_point(ax, ay, bx, by_, k) == (bx, by_));
            assert(dash_on(k, dash as int) == drawing);
            assert forall|p: (int, int)| dp.contains(p) <==> un.contains(p) by {
                if dp.contains(p) {
                    let m = choose|m: int|
                        on_path(ax, ay, bx, by_, m) && dash_on(m, dash as int) && #[trigger] trace_point(ax, ay, bx, by_, m) == p;
                    if m < k {
                        assert(so_far.contains(p));
                    }
                }
                if so_far.contains(p) {
                    let m = choose|m: int|
                        0 <= m < k && dash_on(m, dash as int) && #[trigger] trace_point(ax, ay, bx, by_, m) == p;
                    assert(on_path(ax, ay, bx, by_, m));
                }
                if drawing && p == (bx, by_) {
                    assert(on_path(ax, ay, bx, by_, k));
                }
            }
            assert(dp =~= un);
        }
    }


    /// Paints a five pixel vertical stripe at each point of the path before
    /// the end, and the end point.
    fn stroke_thick(&mut self, x1: i32, y1: i32, x2: i32, y2: i32, color: [u8; 3])
        ensures
            final(self).same_frame(*old(self)),
            final(self).buffer@ == old(self).paint_spec(
                thick_points(x1 as int, y1 as int, x2 as int, y2 as int),
                color,
            ),
    {
        let ghost ax = x1 as int;
        let ghost ay = y1 as int;
        let ghost bx = x2 as int;
        let ghost by_ = y2 as int;
        let ghost w = self.width as int;
        let ghost h = self.height as int;
        let ghost len = self.buffer@.len() as int;
        let xa = x1 as i64;
        let ya = y1 as i64;
        let xb = x2 as i64;
        let yb = y2 as i64;
        let dx: i64 = if xa <= xb { xb - xa } else { xa - xb };
        let dy: i64 = if ya <= yb { ya - yb } else { yb - ya };
        let sx: i64 = if xa < xb { 1 } else { -1 };
        let sy: i64 = if ya < yb { 1 } else { -1 };
        let mut err: i64 = dx + dy;
        let mut x: i64 = xa;
        let mut y: i64 = ya;
        let ghost mut k: int = 0;
        proof {
            lemma_walk(ax, ay, bx, by_, 0);
            assert(striped_upto(ax, ay, bx, by_, 0) =~= Set::<(int, int)>::empty());
            lemma_paint_nothing(old(self).buffer@, w, h, color);
        }
        while x != xb || y != yb
            invariant
                self.same_frame(*old(self)),
                self.buffer@.len() == len,
                w == self.width,
                h == self.height,
                len == old(self).buffer@.len(),
                ax == xa,
                ay == ya,
                bx == xb,
                by_ == yb,
                ax == x1,
                ay == y1,
                bx == x2,
                by_ == y2,
                dx == span(ax, bx),
                dy == -span(ay, by_),
                sx == unit(ax, bx),
                sy == unit(ay, by_),
                0 <= k,
                (x as int, y as int, err as int) == trace_state(ax, ay, bx, by_, k as nat),
                i32::MIN <= x <= i32::MAX,
                i32::MIN <= y <= i32::MAX,
                -0x2_0000_0000 <= err <= 0x2_0000_0000,
                walk_inv(ax, ay, bx, by_, (x as int, y as int, err as int), k as nat),
                forall|m: int| 0 <= m < k ==> trace_point(ax, ay, bx, by_, m) != (bx, by_),
                self.buffer@ == old(self).paint_spec(striped_upto(ax, ay, bx, by_, k), color),
            decreases (span(ax, bx) - span(ax, x as int)) + (span(ay, by_) - span(ay, y as int)),
        {
            assert(trace_point(ax, ay, bx, by_, k) == (x as int, y as int));
            let ghost stripe = set![
                (x as int, y as int - 2),
                (x as int, y as int - 1),
                (x as int, y as int + 1),
                (x as int, y as int + 2),
                (x as int, y as int),
            ];
            let ghost s1 = striped_upto(ax, ay, bx, by_, k);
            self.put_pixel(x, y - 2, color);
            proof {
                lemma_paint_more(old(self).buffer@, s1, set![(x as int, y as int - 2)], w, h, color);
            }
            let ghost s2 = s1.union(set![(x as int, y as int - 2)]);
            self.put_pixel(x, y - 1, color);
            proof {
                lemma_paint_more(old(self).buffer@, s2, set![(x as int, y as int - 1)], w, h, color);
            }
            let ghost s3 = s2.union(set![(x as int, y as int - 1)]);
            self.put_pixel(x, y + 1, color);
            proof {
                lemma_paint_more(old(self).buffer@, s3, set![(x as int, y as int + 1)], w, h, color);
            }
            let ghost s4 = s3.union(set![(x as int, y as int + 1)]);
            self.put_pixel(x, y + 2, color);
            proof {
                lemma_paint_more(old(self).buffer@, s4, set![(x as int, y as int + 2)], w, h, color);
            }
            let ghost s5 = s4.union(set![(x as int, y as int + 2)]);
            self.put_pixel(x, y, color);
            proof {
                lemma_paint_more(old(self).buffer@, s5, set![(x as int, y as int)], w, h, color);
                let s6 = s5.union(set![(x as int, y as int)]);
                let nxt = striped_upto(ax, ay, bx, by_, k + 1);
                assert forall|p: (int, int)| nxt.contains(p) <==> s6.contains(p) by {
                    if nxt.contains(p) {
                        let (m, d) = choose|m: int, d: int|
                            0 <= m < k + 1 && -2 <= d <= 2 && p == #[trigger] stripe_point(ax, ay, bx, by_, m, d);
                        if m < k {
                            assert(s1.contains(p));
                        }
                    }
                    if s1.contains(p) {
                        let (m, d) = choose|m: int, d: int|
                            0 <= m < k && -2 <= d <= 2 && p == #[trigger] stripe_point(ax, ay, bx, by_, m, d);
                        assert(nxt.contains(p));
                    }
                    if s6.contains(p) && !s1.contains(p) {
                        let d = p.1 - y;
                        assert(p == stripe_point(ax, ay, bx, by_, k, d));
                    }
                }
                assert(nxt =~= s6);
            }
            let ghost s0 = (x as int, y as int, err as int);
            let e2 = 2 * err;
            if e2 >= dy {
                err = err + dy;
                x = x + sx;
            }
            if e2 <= dx {
                err = err + dx;
                y = y + sy;
            }
            proof {
                lemma_step_inv(ax, ay, bx, by_, s0, k as nat);
                assert((x as int, y as int, err as int) == trace_step(s0, ax, ay, bx, by_));
                k = k + 1;
            }
        }
        proof {
            lemma_on_path_prefix(ax, ay, bx, by_, k as nat);
        }
        let ghost so_far = striped_upto(ax, ay, bx, by_, k);
        self.put_pixel(xb, yb, color);
        proof {
            lemma_paint_more(old(self).buffer@, so_far, set![(bx, by_)], w, h, color);
            let th = thick_points(ax, ay, bx, by_);
            let un = so_far.union(set![(bx, by_)]);
            assert forall|p: (int, int)| th.contains(p) <==> un.contains(p) by {
                if th.contains(p) && p != (bx, by_) {
                    let (m, d) = choose|m: int, d: int|
                        on_path(ax, ay, bx, by_, m) && -2 <= d <= 2 && trace_point(ax, ay, bx, by_, m) != (bx, by_)
                            && p == #[trigger] stripe_point(ax, ay, bx, by_, m, d);
                    assert(so_far.contains(p));
                }
                if so_far.contains(p) {
                    let (m, d) = choose|m: int, d: int|
                        0 <= m < k && -2 <= d <= 2 && p == #[trigger] stripe_point(ax, ay, bx, by_, m, d);
                    assert(on_path(ax, ay, bx, by_, m));
                }
            }
            assert(th =~= un);
        }
    }
}

/// The slots reached by one point: its own slot where it is writable, else none.
pub proof fn lemma_reached_single(p: (int, int), width: int, height: int, len: int)
    ensures
        writable(p.0, p.1, width, height, len) ==> reached(set![p], width, height, len) == set![slot_of(p.0, p.1, width)],
        !writable(p.0, p.1, width, height, len) ==> reached(set![p], width, height, len) == Set::<int>::empty(),
{
    if writable(p.0, p.1, width, height, len) {
        assert(set![p].contains(p));
        assert(reached(set![p], width, height, len) =~= set![slot_of(p.0, p.1, width)]);
    } else {
        assert(reached(set![p], width, height, len) =~= Set::<int>::empty());
    }
}

} // verus!

verus! {

/// Painting no point leaves a buffer as it is.
pub proof fn lemma_paint_nothing(buf: Seq<u8>, width: int, height: int, c: [u8; 3])
    ensures
        painted(buf, reached(Set::empty(), width, height, buf.len() as int), c) == buf,
{
    assert(reached(Set::empty(), width, height, buf.len() as int) =~= Set::<int>::empty());
    assert(painted(buf, Set::empty(), c) =~= buf);
}

/// Painting the points of `a` and then those of `b` in one colour paints the
/// points of their union.
pub proof fn lemma_paint_more(
    buf: Seq<u8>,
    a: Set<(int, int)>,
    b: Set<(int, int)>,
    width: int,
    height: int,
    c: [u8; 3],
)
    ensures
        painted(
            painted(buf, reached(a, width, height, buf.len() as int), c),
            reached(b, width, height, buf.len() as int),
            c,
        ) == painted(buf, reached(a.union(b), width, height, buf.len() as int), c),
{
    let len = buf.len() as int;
    let ra = reached(a, width, height, len);
    let rb = reached(b, width, height, len);
    let ru = reached(a.union(b), width, height, len);
    assert forall|s: int| ru.contains(s) <==> ra.contains(s) || rb.contains(s) by {
        if ru.contains(s) {
            let p = choose|p: (int, int)|
                #[trigger] a.union(b).contains(p) && writable(p.0, p.1, width, height, len) && s == slot_of(
                    p.0,
                    p.1,
                    width,
                );
            if a.contains(p) {
                assert(ra.contains(s));
            } else {
                assert(rb.contains(s));
            }
        }
        if ra.contains(s) {
            let p = choose|p: (int, int)|
                #[trigger] a.contains(p) && writable(p.0, p.1, width, height, len) && s == slot_of(p.0, p.1, width);
            assert(a.union(b).contains(p));
        }
        if rb.contains(s) {
            let p = choose|p: (int, int)|
                #[trigger] b.contains(p) && writable(p.0, p.1, width, height, len) && s == slot_of(p.0, p.1, width);
            assert(a.union(b).contains(p));
        }
    }
    assert(painted(painted(buf, ra, c), rb, c) =~= painted(buf, ru, c));
}

} // verus!

verus! {

/// Writing a pixel and reading it back: where `(x, y)` lies inside the
/// buffer, the pixel then holds `c` and every other byte is unchanged; where
/// it does not, the buffer is unchanged.
pub proof fn lemma_draw_then_read(canvas: PixelCanvas, x: int, y: int, c: [u8; 3])
    ensures
        ({
            let after = canvas.paint_spec(set![(x, y)], c);
            let s = slot_of(x, y, canvas.width as int);
            &&& after.len() == canvas.buffer@.len()
            &&& writable(x, y, canvas.width as int, canvas.height as int, canvas.buffer@.len() as int) ==> pixel_at(after, s) == c
            &&& writable(x, y, canvas.width as int, canvas.height as int, canvas.buffer@.len() as int) ==> forall|i: int|
                0 <= i < after.len() && (i < 3 * s || i > 3 * s + 2) ==> after[i] == canvas.buffer@[i]
            &&& !writable(x, y, canvas.width as int, canvas.height as int, canvas.buffer@.len() as int) ==> after
                == canvas.buffer@
        }),
{
    let w = canvas.width as int;
    let h = canvas.height as int;
    let len = canvas.buffer@.len() as int;
    let after = canvas.paint_spec(set![(x, y)], c);
    let s = slot_of(x, y, w);
    lemma_reached_single((x, y), w, h, len);
    if writable(x, y, w, h, len) {
        assert((3 * s) / 3 == s && (3 * s) % 3 == 0);
        assert((3 * s + 1) / 3 == s && (3 * s + 1) % 3 == 1);
        assert((3 * s + 2) / 3 == s && (3 * s + 2) % 3 == 2);
        assert(pixel_at(after, s) =~= c);
        assert forall|i: int| 0 <= i < after.len() && (i < 3 * s || i > 3 * s + 2) implies after[i]
            == canvas.buffer@[i] by {
            assert(i / 3 != s);
        }
    } else {
        assert(after =~= canvas.buffer@);
    }
}

/// Blending at full opacity is writing the colour; blending at zero opacity
/// changes nothing.
pub proof fn lemma_blend_extremes(canvas: PixelCanvas, x: int, y: int, c: [u8; 3], den: int)
    requires
        den > 0,
    ensures
        canvas.blend_spec(x, y, c, den, den) == canvas.paint_spec(set![(x, y)], c),
        canvas.blend_spec(x, y, c, 0, den) == canvas.buffer@,
{
    let w = canvas.width as int;
    let h = canvas.height as int;
    let len = canvas.buffer@.len() as int;
    let buf = canvas.buffer@;
    lemma_reached_single((x, y), w, h, len);
    if writable(x, y, w, h, len) {
        let s = slot_of(x, y, w);
        assert forall|a: u8, e: u8| mix(a, e, den, den) == a && mix(a, e, 0, den) == e by {
            assert((a * den + e * (den - den)) == a * den) by (nonlinear_arith);
            assert((a * den) / den == a) by (nonlinear_arith)
                requires den > 0;
            assert((a * 0 + e * (den - 0)) == e * den) by (nonlinear_arith);
            assert((e * den) / den == e) by (nonlinear_arith)
                requires den > 0;
        }
        assert forall|i: int| 0 <= i < len implies #[trigger] blended(buf, s, c, den, den)[i] == painted(buf, set![s], c)[i] by {
            if 3 * s <= i <= 3 * s + 2 {
                assert(i / 3 == s);
            } else {
                assert(i / 3 != s);
            }
        }
        assert(blended(buf, s, c, den, den) =~= painted(buf, set![s], c));
        assert(blended(buf, s, c, 0, den) =~= buf);
    } else {
        assert(painted(buf, Set::empty(), c) =~= buf);
    }
}

} // verus!

verus! {

/// On a well-formed canvas every point of the canvas can be written.
pub proof fn lemma_wf_writable(canvas: PixelCanvas, x: int, y: int)
    requires
        canvas.wf(),
        0 <= x < canvas.width,
        0 <= y < canvas.height,
    ensures
        writable(x, y, canvas.width as int, canvas.height as int, canvas.buffer@.len() as int),
{
    let w = canvas.width as int;
    let h = canvas.height as int;
    assert((y * w + x) * 3 + 2 < w * h * 3) by (nonlinear_arith)
        requires
            0 <= x < w,
            0 <= y < h,
    ;
}

/// A line whose end points coincide, drawn solid at a point of a
/// well-formed canvas, paints exactly that pixel, in its colour, and no
/// other byte changes.
pub proof fn lemma_point_line_one_pixel(canvas: PixelCanvas, x: int, y: int, c: [u8; 3])
    requires
        canvas.wf(),
        0 <= x < canvas.width,
        0 <= y < canvas.height,
    ensures
        ({
            let after = canvas.paint_spec(dashed_points(x, y, x, y, 0), c);
            let s = slot_of(x, y, canvas.width as int);
            &&& after.len() == canvas.buffer@.len()
            &&& pixel_at(after, s) == c
            &&& forall|i: int|
                0 <= i < after.len() && (i < 3 * s || i > 3 * s + 2) ==> after[i] == canvas.buffer@[i]
        }),
{
    lemma_point_line(x, y, 0);
    lemma_wf_writable(canvas, x, y);
    lemma_draw_then_read(canvas, x, y, c);
}

} // verus!
