//! A vector surface: an ordered list of SVG fragments.

use vstd::prelude::*;

use vstd::string::StringExecFns;

verus! {

/// The decimal digit `d` as a character.
pub open spec fn digit_char(d: int) -> char {
    if d == 0 {
        '0'
    } else if d == 1 {
        '1'
    } else if d == 2 {
        '2'
    } else if d == 3 {
        '3'
    } else if d == 4 {
        '4'
    } else if d == 5 {
        '5'
    } else if d == 6 {
        '6'
    } else if d == 7 {
        '7'
    } else if d == 8 {
        '8'
    } else {
        '9'
    }
}

/// The decimal notation of `n`, without leading zeros.
pub open spec fn decimal(n: nat) -> Seq<char>
    decreases n,
{
    if n < 10 {
        seq![digit_char(n as int)]
    } else {
        decimal(n / 10) + seq![digit_char((n % 10) as int)]
    }
}

/// The document header: XML declaration and the opening `svg` tag whose
/// view box is `width` by `height`.
pub open spec fn svg_header(width: nat, height: nat) -> Seq<char> {
    "<?xml version=\"1.0\" encoding=\"UTF-8\"?>\n<svg xmlns=\"http://www.w3.org/2000/svg\" viewBox=\"0 0 "@
        + decimal(width) + " "@ + decimal(height) + "\">"@
}

/// A `style` element importing the font at `url` and giving class `class`
/// the font family `family`.
pub open spec fn font_style(url: Seq<char>, class: Seq<char>, family: Seq<char>) -> Seq<char> {
    "<style>\n                @import url('"@ + url + "');\n                ."@ + class
        + " {\n                    font-family: '"@ + family
        + "', sans-serif;\n                }\n            </style>"@
}

/// The fragments of `parts` one after another.
pub open spec fn joined(parts: Seq<String>) -> Seq<char>
    decreases parts.len(),
{
    if parts.len() == 0 {
        Seq::empty()
    } else {
        joined(parts.drop_last()) + parts.last()@
    }
}

/// `v / 100` with exactly two decimals: a minus sign for negative `v`,
/// the integer part, a point, and the two digits of the hundredths.
pub open spec fn fixed2(v: int) -> Seq<char> {
    let a = if v < 0 {
        -v
    } else {
        v
    };
    (if v < 0 {
        seq!['-']
    } else {
        Seq::empty()
    }) + decimal((a / 100) as nat) + seq!['.', digit_char((a % 100) / 10), digit_char(a % 10)]
}

/// An RGB colour as the SVG value `rgb(r,g,b)`.
pub open spec fn rgb_text(c: [u8; 3]) -> Seq<char> {
    "rgb("@ + decimal(c[0] as nat) + ","@ + decimal(c[1] as nat) + ","@ + decimal(c[2] as nat) + ")"@
}

/// A `line` element; coordinates and width are in hundredths.
pub open spec fn line_element(x1: int, y1: int, x2: int, y2: int, stroke: Seq<char>, width: int) -> Seq<char> {
    "<line x1=\""@ + fixed2(x1) + "\" y1=\""@ + fixed2(y1) + "\" x2=\""@ + fixed2(x2) + "\" y2=\""@
        + fixed2(y2) + "\" stroke=\""@ + stroke + "\" stroke-width=\""@ + fixed2(width) + "\"/>"@
}

/// A `rect` element; numbers are in hundredths.
pub open spec fn rect_element(
    x: int,
    y: int,
    w: int,
    h: int,
    fill: Seq<char>,
    stroke: Seq<char>,
    stroke_width: int,
    opacity: int,
) -> Seq<char> {
    "<rect x=\""@ + fixed2(x) + "\" y=\""@ + fixed2(y) + "\" width=\""@ + fixed2(w) + "\" height=\""@
        + fixed2(h) + "\" fill=\""@ + fill + "\" stroke=\""@ + stroke + "\" stroke-width=\""@ + fixed2(
        stroke_width,
    ) + "\" fill-opacity=\""@ + fixed2(opacity) + "\"/>"@
}

/// A filled `circle` element; numbers are in hundredths.
pub open spec fn circle_element(cx: int, cy: int, r: int, fill: Seq<char>) -> Seq<char> {
    "<circle cx=\""@ + fixed2(cx) + "\" cy=\""@ + fixed2(cy) + "\" r=\""@ + fixed2(r) + "\" fill=\""@
        + fill + "\"/>"@
}

/// A `text` element anchored at its middle; numbers are in hundredths.
pub open spec fn text_element(x: int, y: int, text: Seq<char>, font_size: int, fill: Seq<char>) -> Seq<char> {
    "<text x=\""@ + fixed2(x) + "\" y=\""@ + fixed2(y) + "\" font-size=\""@ + fixed2(font_size)
        + "\" text-anchor=\"middle\" fill=\""@ + fill + "\">"@ + text + "</text>"@
}

/// Appends `v / 100` with exactly two decimals (see `fixed2`).
pub fn push_fixed2(s: &mut String, v: i64)
    ensures
        final(s)@ == old(s)@ + fixed2(v as int),
{
    proof {
        reveal_strlit("-");
        reveal_strlit(".");
    }
    let a: u64 = if v < 0 {
        (-(v as i128)) as u64
    } else {
        v as u64
    };
    if v < 0 {
        s.append("-");
    }
    push_decimal(s, a / 100);
    s.append(".");
    s.append(digit_str(((a % 100) / 10) as u32));
    s.append(digit_str((a % 10) as u32));
    assert(final(s)@ =~= old(s)@ + fixed2(v as int));
}

/// Appends `rgb(r,g,b)` for `c`.
fn push_rgb(s: &mut String, c: [u8; 3])
    ensures
        final(s)@ == old(s)@ + rgb_text(c),
{
    s.append("rgb(");
    push_decimal(s, c[0] as u64);
    s.append(",");
    push_decimal(s, c[1] as u64);
    s.append(",");
    push_decimal(s, c[2] as u64);
    s.append(")");
    assert(final(s)@ =~= old(s)@ + rgb_text(c));
}

/// The start of a `line` element (see `line_element`), up to its stroke value.
fn line_head(x1: i64, y1: i64, x2: i64, y2: i64) -> (r: String)
    ensures
        r@ == "<line x1=\""@ + fixed2(x1 as int) + "\" y1=\""@ + fixed2(y1 as int) + "\" x2=\""@ + fixed2(
            x2 as int,
        ) + "\" y2=\""@ + fixed2(y2 as int) + "\" stroke=\""@,
{
    let mut s = String::new();
    s.append("<line x1=\"");
    push_fixed2(&mut s, x1);
    s.append("\" y1=\"");
    push_fixed2(&mut s, y1);
    s.append("\" x2=\"");
    push_fixed2(&mut s, x2);
    s.append("\" y2=\"");
    push_fixed2(&mut s, y2);
    s.append("\" stroke=\"");
    s
}

/// The digit `d` as a one-character string.
fn digit_str(d: u32) -> (r: &'static str)
    requires
        d < 10,
    ensures
        r@ == seq![digit_char(d as int)],
{
    proof {
        reveal_strlit("0");
        reveal_strlit("1");
        reveal_strlit("2");
        reveal_strlit("3");
        reveal_strlit("4");
        reveal_strlit("5");
        reveal_strlit("6");
        reveal_strlit("7");
        reveal_strlit("8");
        reveal_strlit("9");
    }
    if d == 0 {
        "0"
    } else if d == 1 {
        "1"
    } else if d == 2 {
        "2"
    } else if d == 3 {
        "3"
    } else if d == 4 {
        "4"
    } else if d == 5 {
        "5"
    } else if d == 6 {
        "6"
    } else if d == 7 {
        "7"
    } else if d == 8 {
        "8"
    } else {
        "9"
    }
}

/// Appends the decimal notation of `n` to `s`.
pub fn push_decimal(s: &mut String, n: u64)
    ensures
        final(s)@ == old(s)@ + decimal(n as nat),
    decreases n,
{
    if n >= 10 {
        push_decimal(s, n / 10);
    }
    s.append(digit_str((n % 10) as u32));
    assert(final(s)@ =~= old(s)@ + decimal(n as nat)) by {
        if n >= 10 {
            assert(decimal(n as nat) == decimal((n / 10) as nat) + seq![digit_char((n % 10) as int)]);
        }
    }
}

/// The document header for a `width` by `height` view box.
fn header_text(width: u32, height: u32) -> (r: String)
    ensures
        r@ == svg_header(width as nat, height as nat),
{
    let mut head = String::new();
    head.append(
        "<?xml version=\"1.0\" encoding=\"UTF-8\"?>\n<svg xmlns=\"http://www.w3.org/2000/svg\" viewBox=\"0 0 ",
    );
    push_decimal(&mut head, width as u64);
    head.append(" ");
    push_decimal(&mut head, height as u64);
    head.append("\">");
    assert(head@ =~= svg_header(width as nat, height as nat));
    head
}

/// A vector drawing surface that accumulates markup fragments in draw order.
pub struct SvgCanvas {
    /// Width of the drawing.
    pub width: u32,
    /// Height of the drawing.
    pub height: u32,
    /// The fragments, in the order they were added.
    pub elements: Vec<String>,
    /// Inset kept free on every side.
    pub margin: u32,
    /// Background colour, as an SVG colour value.
    pub background_color: String,
}

impl SvgCanvas {
    /// Creates a drawing whose only fragment is the header for a `width` by
    /// `height` view box.
    pub fn new(width: u32, height: u32, background_color: &str, margin: u32) -> (r: Self)
        ensures
            r.width == width,
            r.height == height,
            r.margin == margin,
            r.background_color@ == background_color@,
            r.elements@.len() == 1,
            r.elements@[0]@ == svg_header(width as nat, height as nat),
    {
        let head = header_text(width, height);
        let mut elements: Vec<String> = Vec::new();
        elements.push(head);
        SvgCanvas { width, height, elements, margin, background_color: background_color.to_owned() }
    }

    /// Starts the document afresh: the header for the canvas's size is
    /// again its only fragment.
    pub fn clear(&mut self)
        ensures
            final(self).elements@.len() == 1,
            final(self).elements@[0]@ == svg_header(old(self).width as nat, old(self).height as nat),
            final(self).width == old(self).width,
            final(self).height == old(self).height,
            final(self).margin == old(self).margin,
            final(self).background_color == old(self).background_color,
    {
        self.elements.clear();
        let head = header_text(self.width, self.height);
        self.elements.push(head);
    }

    /// Appends a `style` fragment that imports a web font and binds it to a
    /// CSS class.
    pub fn add_font_style(&mut self, font_url: &str, class_name: &str, font_family: &str)
        ensures
            final(self).elements@.len() == old(self).elements@.len() + 1,
            final(self).elements@.drop_last() == old(self).elements@,
            final(self).elements@.last()@ == font_style(font_url@, class_name@, font_family@),
            final(self).width == old(self).width,
            final(self).height == old(self).height,
            final(self).margin == old(self).margin,
            final(self).background_color == old(self).background_color,
    {
        let mut s = String::new();
        s.append("<style>\n                @import url('");
        s.append(font_url);
        s.append("');\n                .");
        s.append(class_name);
        s.append(" {\n                    font-family: '");
        s.append(font_family);
        s.append("', sans-serif;\n                }\n            </style>");
        assert(s@ =~= font_style(font_url@, class_name@, font_family@));
        self.elements.push(s);
        assert(self.elements@.drop_last() =~= old(self).elements@);
    }

    /// Whether `after` is `before` with the fragment `frag` appended.
    pub open spec fn appended(before: SvgCanvas, after: SvgCanvas, frag: Seq<char>) -> bool {
        &&& after.elements@.len() == before.elements@.len() + 1
        &&& after.elements@.drop_last() == before.elements@
        &&& after.elements@.last()@ == frag
        &&& after.width == before.width
        &&& after.height == before.height
        &&& after.margin == before.margin
        &&& after.background_color == before.background_color
    }

    /// Appends a fragment.
    fn push_element(&mut self, frag: String)
        ensures
            SvgCanvas::appended(*old(self), *final(self), frag@),
    {
        self.elements.push(frag);
        assert(self.elements@.drop_last() =~= old(self).elements@);
    }

    /// Appends a line from `(x1, y1)` to `(x2, y2)` stroked with the colour
    /// value `color`. Coordinates and width are in hundredths of a pixel.
    pub fn draw_line(&mut self, x1: i64, y1: i64, x2: i64, y2: i64, color: &str, stroke_width: i64)
        ensures
            SvgCanvas::appended(*old(self), *final(self), line_element(
                x1 as int,
                y1 as int,
                x2 as int,
                y2 as int,
                color@,
                stroke_width as int,
            )),
    {
        let mut s = line_head(x1, y1, x2, y2);
        s.append(color);
        s.append("\" stroke-width=\"");
        push_fixed2(&mut s, stroke_width);
        s.append("\"/>");
        assert(s@ =~= line_element(x1 as int, y1 as int, x2 as int, y2 as int, color@, stroke_width as int));
        self.push_element(s);
    }

    /// `draw_line` with an RGB colour, written `rgb(r,g,b)`.
    pub fn draw_line_rgb(&mut self, x1: i64, y1: i64, x2: i64, y2: i64, color: [u8; 3], stroke_width: i64)
        ensures
            SvgCanvas::appended(*old(self), *final(self), line_element(
                x1 as int,
                y1 as int,
                x2 as int,
                y2 as int,
                rgb_text(color),
                stroke_width as int,
            )),
    {
        let mut s = line_head(x1, y1, x2, y2);
        push_rgb(&mut s, color);
        s.append("\" stroke-width=\"");
        push_fixed2(&mut s, stroke_width);
        s.append("\"/>");
        assert(s@ =~= line_element(x1 as int, y1 as int, x2 as int, y2 as int, rgb_text(color), stroke_width as int));
        self.push_element(s);
    }

    /// Appends a rectangle with top-left corner `(x, y)`. Numbers are in
    /// hundredths; `opacity` 100 is fully opaque.
    pub fn draw_rect(
        &mut self,
        x: i64,
        y: i64,
        width: i64,
        height: i64,
        fill_color: &str,
        stroke_color: &str,
        stroke_width: i64,
        opacity: i64,
    )
        ensures
            SvgCanvas::appended(*old(self), *final(self), rect_element(
                x as int,
                y as int,
                width as int,
                height as int,
                fill_color@,
                stroke_color@,
                stroke_width as int,
                opacity as int,
            )),
    {
        let mut s = String::new();
        s.append("<rect x=\"");
        push_fixed2(&mut s, x);
        s.append("\" y=\"");
        push_fixed2(&mut s, y);
        s.append("\" width=\"");
        push_fixed2(&mut s, width);
        s.append("\" height=\"");
        push_fixed2(&mut s, height);
        s.append("\" fill=\"");
        s.append(fill_color);
        s.append("\" stroke=\"");
        s.append(stroke_color);
        s.append("\" stroke-width=\"");
        push_fixed2(&mut s, stroke_width);
        s.append("\" fill-opacity=\"");
        push_fixed2(&mut s, opacity);
        s.append("\"/>");
        assert(s@ =~= rect_element(
            x as int,
            y as int,
            width as int,
            height as int,
            fill_color@,
            stroke_color@,
            stroke_width as int,
            opacity as int,
        ));
        self.push_element(s);
    }

    /// Appends a filled circle centred on `(cx, cy)`. Numbers are in hundredths.
    pub fn draw_circle(&mut self, cx: i64, cy: i64, r: i64, color: &str)
        ensures
            SvgCanvas::appended(*old(self), *final(self), circle_element(cx as int, cy as int, r as int, color@)),
    {
        let mut s = String::new();
        s.append("<circle cx=\"");
        push_fixed2(&mut s, cx);
        s.append("\" cy=\"");
        push_fixed2(&mut s, cy);
        s.append("\" r=\"");
        push_fixed2(&mut s, r);
        s.append("\" fill=\"");
        s.append(color);
        s.append("\"/>");
        assert(s@ =~= circle_element(cx as int, cy as int, r as int, color@));
        self.push_element(s);
    }

    /// Appends a text element anchored at its middle on `(x, y)`. Numbers
    /// are in hundredths.
    pub fn draw_text(&mut self, x: i64, y: i64, text: &str, font_size: i64, color: &str)
        ensures
            SvgCanvas::appended(*old(self), *final(self), text_element(
                x as int,
                y as int,
                text@,
                font_size as int,
                color@,
            )),
    {
        let mut s = String::new();
        s.append("<text x=\"");
        push_fixed2(&mut s, x);
        s.append("\" y=\"");
        push_fixed2(&mut s, y);
        s.append("\" font-size=\"");
        push_fixed2(&mut s, font_size);
        s.append("\" text-anchor=\"middle\" fill=\"");
        s.append(color);
        s.append("\">");
        s.append(text);
        s.append("</text>");
        assert(s@ =~= text_element(x as int, y as int, text@, font_size as int, color@));
        self.push_element(s);
    }

    /// Appends a title: the same element as `draw_text`.
    pub fn draw_title(&mut self, x: i64, y: i64, text: &str, font_size: i64, color: &str)
        ensures
            SvgCanvas::appended(*old(self), *final(self), text_element(
                x as int,
                y as int,
                text@,
                font_size as int,
                color@,
            )),
    {
        self.draw_text(x, y, text, font_size, color);
    }

    /// The whole document: every fragment in order, then the closing tag.
    pub fn get_svg_as_text(&self) -> (r: String)
        ensures
            r@ == joined(self.elements@) + "</svg>"@,
    {
        let mut svg = String::new();
        let n = self.elements.len();
        let mut i: usize = 0;
        while i < n
            invariant
                n == self.elements@.len(),
                i <= n,
                svg@ == joined(self.elements@.subrange(0, i as int)),
            decreases n - i,
        {
            svg.append(self.elements[i].as_str());
            assert(self.elements@.subrange(0, i + 1).drop_last() =~= self.elements@.subrange(0, i as int));
            i = i + 1;
        }
        assert(self.elements@.subrange(0, n as int) =~= self.elements@);
        svg.append("</svg>");
        svg
    }
}

} // verus!
