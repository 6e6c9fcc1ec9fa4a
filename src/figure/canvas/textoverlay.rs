//! Text on the raster canvas: where a label goes, and stamping it there with
//! a glyph renderer. Fonts are passed as the bytes of a TrueType or OpenType
//! file and sizes as whole pixels.

use vstd::prelude::*;

use ab_glyph::{Font, FontRef, PxScale};
use crate::figure::canvas::pixelcanvas::PixelCanvas;
use crate::figure::utilities::axistype::AxisType;
use vstd::string::StrSliceExecFns;

verus! {

/// Largest coordinate at which text is stamped.
pub const TEXT_COORD_LIMIT: u32 = 0xff_ffff;

/// The unscaled height (ascent minus descent, in font units) of the font
/// in `font`, or `None` where ab_glyph cannot read the bytes as a font.
pub uninterp spec fn font_height(font: Seq<u8>) -> Option<int>;

/// The width and height that imageproc measures for `text` set in `font`
/// at pixel size `size`.
pub uninterp spec fn text_extent(font: Seq<u8>, size: nat, text: Seq<char>) -> (int, int);

/// The bytes of a `width` by `height` RGB image `pixels` after imageproc
/// stamps `text` in `color` with its layout box's top-left corner at
/// `(x, y)`, set in `font` at pixel size `size`.
pub uninterp spec fn stamped(
    pixels: Seq<u8>,
    width: nat,
    height: nat,
    x: int,
    y: int,
    text: Seq<char>,
    color: [u8; 3],
    font: Seq<u8>,
    size: nat,
) -> Seq<u8>;

/// Whether `len` characters set in `font` at `size` stay within the glyph
/// renderer's limits: the font is readable with a positive height, glyphs
/// are at most 2^13 pixels a side, and the whole run of glyphs stays within
/// 2^30 pixels of its start (see `stamp_text`).
pub open spec fn text_fits(font: Seq<u8>, size: nat, len: nat) -> bool {
    &&& font_height(font) is Some
    &&& font_height(font)->0 >= 1
    &&& 16 * size <= font_height(font)->0
    &&& (len + 3) * size * 0x2_0000 <= 0x4000_0000 * font_height(font)->0
}

/// `a - b`, or 0 where that would be negative.
pub open spec fn sat_sub(a: int, b: int) -> int {
    if a >= b {
        a - b
    } else {
        0
    }
}

/// `a + b`, capped at `u32::MAX`.
pub open spec fn sat_add(a: int, b: int) -> int {
    if a + b <= u32::MAX {
        a + b
    } else {
        u32::MAX as int
    }
}

/// The buffer of a `width` by `height` canvas after `draw_text`: the
/// stamped image where the buffer holds the image, the corner is within
/// `TEXT_COORD_LIMIT` and the text fits; otherwise the buffer unchanged.
pub open spec fn text_drawn(
    buf: Seq<u8>,
    width: u32,
    height: u32,
    x: int,
    y: int,
    text: Seq<char>,
    color: [u8; 3],
    font: Seq<u8>,
    size: nat,
) -> Seq<u8> {
    if width as int * height as int * 3 <= buf.len() && 0 <= x <= TEXT_COORD_LIMIT && 0 <= y
        <= TEXT_COORD_LIMIT && text_fits(font, size, text.len()) {
        stamped(buf, width as nat, height as nat, x, y, text, color, font, size)
    } else {
        buf
    }
}

/// The height by which `draw_text_vertical` moves down after character
/// `c`: its measured height, or 0 where the font cannot be read.
pub open spec fn char_step(font: Seq<u8>, size: nat, c: char) -> int {
    if font_height(font) is Some {
        text_extent(font, size, seq![c]).1
    } else {
        0
    }
}

/// The buffer after `draw_text_vertical` stamps `chars` one per line from
/// `(x, y)` down.
pub open spec fn column_drawn(
    buf: Seq<u8>,
    width: u32,
    height: u32,
    x: int,
    y: int,
    chars: Seq<char>,
    color: [u8; 3],
    font: Seq<u8>,
    size: nat,
) -> Seq<u8>
    decreases chars.len(),
{
    if chars.len() == 0 {
        buf
    } else {
        column_drawn(
            text_drawn(buf, width, height, x, y, seq![chars[0]], color, font, size),
            width,
            height,
            x,
            sat_add(sat_add(y, char_step(font, size, chars[0])), 5),
            chars.drop_first(),
            color,
            font,
            size,
        )
    }
}

/// Relies on ab_glyph's `FontRef::try_from_slice` and `Font::height_unscaled`:
/// ascender minus descender, two 16-bit font-unit values, so exact.
#[verifier::external_body]
fn read_font_height(font: &[u8]) -> (r: Option<i32>)
    ensures
        r is Some <==> font_height(font@) is Some,
        r is Some ==> r->0 as int == font_height(font@)->0,
{
    match FontRef::try_from_slice(font) {
        Ok(f) => Some(f.height_unscaled() as i32),
        Err(_) => None,
    }
}

/// Relies on ab_glyph's `FontRef::try_from_slice` and imageproc's
/// `drawing::text_size`, which only lays glyphs out (no rasterising) and
/// converts its sizes with saturating casts.
#[verifier::external_body]
fn measure_text(font: &[u8], size: u16, text: &str) -> (r: Option<(u32, u32)>)
    ensures
        r is Some <==> font_height(font@) is Some,
        r is Some ==> ((r->0).0 as int, (r->0).1 as int) == text_extent(font@, size as nat, text@),
{
    match FontRef::try_from_slice(font) {
        Ok(f) => Some(imageproc::drawing::text_size(PxScale { x: size.into(), y: size.into() }, &f, text)),
        Err(_) => None,
    }
}

/// Relies on ab_glyph's `FontRef::try_from_slice`, image's
/// `ImageBuffer::from_raw` (which accepts a buffer of at least
/// `width * height * 3` bytes and keeps it whole) and imageproc's
/// `drawing::draw_text_mut`, which writes only pixels inside the image.
/// ab_glyph scales font units by `size / font_height`; advances (16-bit
/// unsigned), kerning and glyph bounds (16-bit signed) are each under 2^17
/// units. Under `text_fits` each glyph bitmap is at most 2^13 pixels a side
/// and every pixel position that imageproc adds up in `i32` stays within
/// `TEXT_COORD_LIMIT + 2^30`.
#[verifier::external_body]
fn stamp_text(
    buffer: &mut Vec<u8>,
    width: u32,
    height: u32,
    x: i32,
    y: i32,
    text: &str,
    color: [u8; 3],
    font: &[u8],
    size: u16,
)
    requires
        width as int * height as int * 3 <= old(buffer)@.len(),
        0 <= x <= TEXT_COORD_LIMIT,
        0 <= y <= TEXT_COORD_LIMIT,
        text_fits(font@, size as nat, text@.len()),
    ensures
        final(buffer)@ == stamped(
            old(buffer)@,
            width as nat,
            height as nat,
            x as int,
            y as int,
            text@,
            color,
            font@,
            size as nat,
        ),
        final(buffer)@.len() == old(buffer)@.len(),
        forall|i: int|
            width as int * height as int * 3 <= i < old(buffer)@.len() ==> final(buffer)@[i]
                == old(buffer)@[i],
{
    if let Ok(f) = FontRef::try_from_slice(font) {
        let mut img: image::RgbImage =
            image::ImageBuffer::from_raw(width, height, std::mem::take(buffer)).unwrap();
        let scale = PxScale { x: size.into(), y: size.into() };
        imageproc::drawing::draw_text_mut(&mut img, image::Rgb(color), x, y, scale, &f, text);
        *buffer = img.into_raw();
    }
}

/// Top-left corner for text of size `w` by `h` centred on `(x, y)`,
/// clamped at 0.
pub fn label_origin(x: u32, y: u32, w: u32, h: u32) -> (r: (u32, u32))
    ensures
        r.0 == sat_sub(x as int, w as int / 2),
        r.1 == sat_sub(y as int, h as int / 2),
{
    (x.saturating_sub(w / 2), y.saturating_sub(h / 2))
}

/// Top-left corner for a tick value of size `w` by `h` at axis point
/// `(x, y)`: on the x axis centred horizontally and placed one text height
/// below the point, on the y axis right-aligned to the point and centred
/// vertically. Clamped to the `u32` range.
pub fn axis_value_origin(x: u32, y: u32, w: u32, h: u32, axis: AxisType) -> (r: (u32, u32))
    ensures
        axis is AxisX ==> r == ((sat_sub(x as int, w as int / 2)) as u32, (sat_add(y as int, h as int)) as u32),
        axis is AxisY ==> r == ((sat_sub(x as int, w as int)) as u32, (sat_sub(y as int, h as int / 2)) as u32),
{
    match axis {
        AxisType::AxisX => (x.saturating_sub(w / 2), y.saturating_add(h)),
        AxisType::AxisY => (x.saturating_sub(w), y.saturating_sub(h / 2)),
    }
}

/// Whether `len` characters fit (see `text_fits`), computed.
fn fits(font: &[u8], size: u16, len: usize) -> (r: bool)
    ensures
        r == text_fits(font@, size as nat, len as nat),
{
    match read_font_height(font) {
        Some(h) => {
            if h < 1 {
                return false;
            }
            let h = h as u128;
            let s = size as u128;
            let n = len as u128;
            assert((n + 3) * s <= 0x1_0000_0000_0000_0000 * 0x1_0000) by (nonlinear_arith)
                requires n <= 0xffff_ffff_ffff_ffff, s <= 0xffff;
            16 * s <= h && (n + 3) * s * 0x2_0000 <= 0x4000_0000 * h
        },
        None => false,
    }
}

impl PixelCanvas {
    /// Whether the buffer holds at least the `width * height * 3` bytes that
    /// the glyph renderer works on.
    pub open spec fn holds_image(self) -> bool {
        self.width as int * self.height as int * 3 <= self.buffer@.len()
    }

    /// Stamps `text` with its layout box's top-left corner at `(x, y)` (see
    /// `text_drawn`). Nothing is drawn when the buffer is shorter than
    /// `width * height * 3` bytes, a coordinate exceeds `TEXT_COORD_LIMIT`,
    /// or the text does not fit the renderer's limits.
    pub fn draw_text(&mut self, x: u32, y: u32, text: &str, color: [u8; 3], font: &[u8], size: u16)
        ensures
            final(self).same_frame(*old(self)),
            final(self).buffer@ == text_drawn(
                old(self).buffer@,
                old(self).width,
                old(self).height,
                x as int,
                y as int,
                text@,
                color,
                font@,
                size as nat,
            ),
            final(self).buffer@.len() == old(self).buffer@.len(),
    {
        if x > TEXT_COORD_LIMIT || y > TEXT_COORD_LIMIT {
            return;
        }
        let n = self.buffer.len();
        let w = self.width as usize;
        let h = self.height as usize;
        if w != 0 && h > n / w {
            assert(!self.holds_image()) by (nonlinear_arith)
                requires h > n / w, w > 0, self.width == w, self.height == h, self.buffer@.len() == n;
            return;
        }
        proof {
            if w != 0 {
                assert(h * w <= n) by (nonlinear_arith)
                    requires h <= n / w, w > 0;
            }
        }
        if w * h > n / 3 {
            return;
        }
        if !fits(font, size, text.unicode_len()) {
            return;
        }
        stamp_text(&mut self.buffer, self.width, self.height, x as i32, y as i32, text, color, font, size);
    }

    /// Stamps `text` one character per line (see `column_drawn`), each
    /// character's box below the previous one with 5 pixels between them.
    pub fn draw_text_vertical(
        &mut self,
        x: u32,
        y: u32,
        text: &str,
        color: [u8; 3],
        font: &[u8],
        size: u16,
    )
        ensures
            final(self).same_frame(*old(self)),
            final(self).buffer@ == column_drawn(
                old(self).buffer@,
                old(self).width,
                old(self).height,
                x as int,
                y as int,
                text@,
                color,
                font@,
                size as nat,
            ),
            final(self).buffer@.len() == old(self).buffer@.len(),
    {
        let ghost goal = column_drawn(
            self.buffer@,
            self.width,
            self.height,
            x as int,
            y as int,
            text@,
            color,
            font@,
            size as nat,
        );
        let n = text.unicode_len();
        let mut current_y = y;
        let mut i: usize = 0;
        assert(text@.subrange(0, n as int) =~= text@);
        while i < n
            invariant
                n == text@.len(),
                i <= n,
                self.same_frame(*old(self)),
                self.buffer@.len() == old(self).buffer@.len(),
                goal == column_drawn(
                    self.buffer@,
                    self.width,
                    self.height,
                    x as int,
                    current_y as int,
                    text@.subrange(i as int, n as int),
                    color,
                    font@,
                    size as nat,
                ),
            decreases n - i,
        {
            let ch = text.substring_char(i, i + 1);
            let ghost rest = text@.subrange(i as int, n as int);
            assert(ch@ =~= seq![rest[0]]);
            assert(rest.drop_first() =~= text@.subrange(i + 1, n as int));
            let step = match measure_text(font, size, ch) {
                Some((_w, char_height)) => char_height,
                None => 0,
            };
            self.draw_text(x, current_y, ch, color, font, size);
            current_y = current_y.saturating_add(step).saturating_add(5);
            i = i + 1;
        }
    }

    /// Stamps `text` centred on `(x, y)`: at `label_origin` of its measured
    /// extent. Nothing is drawn where the font cannot be read.
    pub fn draw_label(&mut self, x: u32, y: u32, text: &str, color: [u8; 3], font: &[u8], size: u16)
        ensures
            final(self).same_frame(*old(self)),
            font_height(font@) is None ==> final(self).buffer@ == old(self).buffer@,
            font_height(font@) is Some ==> final(self).buffer@ == text_drawn(
                old(self).buffer@,
                old(self).width,
                old(self).height,
                sat_sub(x as int, text_extent(font@, size as nat, text@).0 / 2),
                sat_sub(y as int, text_extent(font@, size as nat, text@).1 / 2),
                text@,
                color,
                font@,
                size as nat,
            ),
            final(self).buffer@.len() == old(self).buffer@.len(),
    {
        match measure_text(font, size, text) {
            Some((w, h)) => {
                let (ox, oy) = label_origin(x, y, w, h);
                self.draw_text(ox, oy, text, color, font, size);
            },
            None => {},
        }
    }

    /// Stamps a tick value for the given axis at `(x, y)`: at
    /// `axis_value_origin` of its measured extent. Nothing is drawn where
    /// the font cannot be read.
    pub fn draw_axis_value(
        &mut self,
        x: u32,
        y: u32,
        text: &str,
        color: [u8; 3],
        font: &[u8],
        size: u16,
        axis: AxisType,
    )
        ensures
            final(self).same_frame(*old(self)),
            font_height(font@) is None ==> final(self).buffer@ == old(self).buffer@,
            font_height(font@) is Some && axis is AxisX ==> final(self).buffer@ == text_drawn(
                old(self).buffer@,
                old(self).width,
                old(self).height,
                sat_sub(x as int, text_extent(font@, size as nat, text@).0 / 2),
                sat_add(y as int, text_extent(font@, size as nat, text@).1),
                text@,
                color,
                font@,
                size as nat,
            ),
            font_height(font@) is Some && axis is AxisY ==> final(self).buffer@ == text_drawn(
                old(self).buffer@,
                old(self).width,
                old(self).height,
                sat_sub(x as int, text_extent(font@, size as nat, text@).0),
                sat_sub(y as int, text_extent(font@, size as nat, text@).1 / 2),
                text@,
                color,
                font@,
                size as nat,
            ),
            final(self).buffer@.len() == old(self).buffer@.len(),
    {
        match measure_text(font, size, text) {
            Some((w, h)) => {
                let (ox, oy) = axis_value_origin(x, y, w, h, axis);
                self.draw_text(ox, oy, text, color, font, size);
            },
            None => {},
        }
    }
}

} // verus!
