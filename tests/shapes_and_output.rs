use dataviz::figure::canvas::pixelcanvas::{CanvasError, PixelCanvas};
use dataviz::figure::canvas::svgcanvas::{push_decimal, push_fixed2, SvgCanvas};
use dataviz::figure::canvas::textoverlay::{axis_value_origin, label_origin};
use dataviz::figure::display::winop::{ViewToggles, Winop};
use dataviz::figure::utilities::axistype::AxisType;
use dataviz::figure::utilities::linetype::LineType;
use dataviz::figure::utilities::scatterdottype::ScatterDotType;
use image::GenericImageView;

fn px(canvas: &PixelCanvas, x: u32, y: u32) -> [u8; 3] {
    canvas.get_pixel(x, y).unwrap()
}

fn painted(canvas: &PixelCanvas) -> usize {
    canvas.buffer.chunks(3).filter(|p| p != &[0, 0, 0]).count()
}

#[test]
fn test_draw_pixel_and_save_as_image() {
    let mut canvas = PixelCanvas::new(10, 10, [100, 100, 100], 0);
    canvas.draw_pixel(5, 5, [250, 250, 0]);
    let bytes = canvas.to_png().unwrap();
    let img = image::load_from_memory(&bytes).expect("failed to open saved image");
    let pixel = img.get_pixel(5, 5);
    assert_eq!(pixel.0, [250, 250, 0, 255], "pixel color did not match");
}

#[test]
fn test_draw_line_and_save_as_image() {
    let mut canvas = PixelCanvas::new(100, 100, [250, 0, 0], 5);
    canvas.draw_horizontal_line(30, [0, 0, 250]);
    canvas.draw_horizontal_line(31, [0, 0, 250]);
    canvas.draw_vertical_line(50, [220, 220, 0]);
    canvas.draw_vertical_line(51, [220, 220, 0]);
    canvas.draw_line(2, 20, 95, 95, [0, 250, 0], LineType::SolidThick).unwrap();
    let bytes = canvas.to_png().unwrap();
    let img = image::load_from_memory(&bytes).expect("failed to open saved image");
    let pixel = img.get_pixel(60, 31);
    assert_eq!(pixel.0, [0, 0, 250, 255], "pixel color did not match");
    let pixel = img.get_pixel(51, 70);
    assert_eq!(pixel.0, [220, 220, 0, 255], "pixel color did not match");
}

#[test]
fn test_save_as_image_creates_file_and_matches_dimensions_and_pixel() {
    let mut canvas = PixelCanvas::new(16, 8, [10, 20, 30], 10);
    canvas.draw_pixel(2, 3, [255, 0, 0]);
    let bytes = canvas.to_png().unwrap();
    assert!(!bytes.is_empty());
    let img = image::load_from_memory(&bytes).expect("failed to open saved image");
    assert_eq!(img.dimensions(), (16, 8));
    let binding = img.to_rgb8();
    let rgb = binding.get_pixel(2, 3);
    assert_eq!(rgb.0, [255, 0, 0], "pixel color did not match saved image");
}

#[test]
fn png_round_trip_is_lossless() {
    let mut canvas = PixelCanvas::new(7, 5, [0, 0, 0], 0);
    canvas.draw_line(0, 4, 6, 0, [12, 34, 56], LineType::Solid).unwrap();
    canvas.blend_pixel(3, 3, [255, 255, 255], 1, 4);
    let bytes = canvas.to_png().unwrap();
    assert_ne!(bytes, canvas.buffer);
    let img = image::load_from_memory(&bytes).unwrap().to_rgb8();
    assert_eq!(img.dimensions(), (7, 5));
    assert_eq!(img.into_raw(), canvas.buffer);
}

#[test]
fn png_refuses_mismatched_buffer() {
    let mut canvas = PixelCanvas::new(3, 3, [0, 0, 0], 0);
    canvas.buffer.push(1);
    assert!(!canvas.has_exact_buffer());
    assert_eq!(canvas.to_png(), Err(CanvasError::BufferSizeMismatch));
}

#[test]
fn png_reports_encoder_error_for_empty_image() {
    let canvas = PixelCanvas::new(0, 0, [0, 0, 0], 0);
    assert!(canvas.has_exact_buffer());
    assert_eq!(canvas.to_png(), Err(CanvasError::EncodingFailed));
}

#[test]
fn area_fill_under_rising_segment() {
    let mut canvas = PixelCanvas::new(6, 6, [0, 0, 0], 0);
    canvas.fill_area_under(&vec![(0, 4), (4, 0)], 5, [200, 100, 0], 1, 1);
    // column x starts at row 4 - x and runs down to row 5
    for x in 0..6u32 {
        for y in 0..6u32 {
            let filled = x <= 4 && y + x >= 4;
            let expected = if filled { [200, 100, 0] } else { [0, 0, 0] };
            assert_eq!(px(&canvas, x, y), expected, "at {} {}", x, y);
        }
    }
}

#[test]
fn area_fill_blends_shared_column_twice() {
    let mut canvas = PixelCanvas::new(5, 3, [0, 0, 0], 0);
    canvas.fill_area_under(&vec![(0, 2), (2, 2), (4, 2)], 2, [200, 200, 200], 1, 2);
    assert_eq!(px(&canvas, 0, 2), [100, 100, 100]);
    assert_eq!(px(&canvas, 2, 2), [150, 150, 150]);
    assert_eq!(px(&canvas, 4, 2), [100, 100, 100]);
    assert_eq!(px(&canvas, 1, 1), [0, 0, 0]);
}

#[test]
fn area_fill_vertical_segment_starts_at_upper_point() {
    let mut canvas = PixelCanvas::new(5, 6, [0, 0, 0], 0);
    canvas.fill_area_under(&vec![(2, 4), (2, 1)], 5, [9, 9, 9], 1, 1);
    for y in 0..6u32 {
        let expected = if y >= 1 { [9, 9, 9] } else { [0, 0, 0] };
        assert_eq!(px(&canvas, 2, y), expected);
    }
    assert_eq!(painted(&canvas), 5);
}

#[test]
fn area_fill_with_one_point_does_nothing() {
    let mut canvas = PixelCanvas::new(5, 5, [0, 0, 0], 0);
    canvas.fill_area_under(&vec![(2, 2)], 4, [9, 9, 9], 1, 1);
    assert_eq!(painted(&canvas), 0);
}

#[test]
fn markers_have_expected_pixel_counts() {
    let mut c = PixelCanvas::new(20, 20, [0, 0, 0], 0);
    c.draw_marker(10, 10, ScatterDotType::Circle(1), [1, 1, 1]);
    assert_eq!(painted(&c), 5);
    let mut c = PixelCanvas::new(20, 20, [0, 0, 0], 0);
    c.draw_marker(10, 10, ScatterDotType::Circle(2), [1, 1, 1]);
    assert_eq!(painted(&c), 13);
    let mut c = PixelCanvas::new(20, 20, [0, 0, 0], 0);
    c.draw_marker(10, 10, ScatterDotType::Square(4), [1, 1, 1]);
    assert_eq!(painted(&c), 25);
    let mut c = PixelCanvas::new(20, 20, [0, 0, 0], 0);
    c.draw_marker(10, 10, ScatterDotType::Cross(2), [1, 1, 1]);
    assert_eq!(painted(&c), 9);
    let mut c = PixelCanvas::new(20, 20, [0, 0, 0], 0);
    c.draw_marker(10, 10, ScatterDotType::Triangle(2), [1, 1, 1]);
    assert_eq!(painted(&c), 9);
    assert_eq!(px(&c, 10, 8), [1, 1, 1]);
    assert_eq!(px(&c, 8, 10), [1, 1, 1]);
    assert_eq!(px(&c, 10, 11), [0, 0, 0]);
}

#[test]
fn marker_near_edge_is_clipped_without_panic() {
    let mut c = PixelCanvas::new(4, 4, [0, 0, 0], 0);
    c.draw_marker(0, 0, ScatterDotType::Square(2), [1, 1, 1]);
    assert_eq!(px(&c, 0, 0), [1, 1, 1]);
    assert_eq!(px(&c, 1, 1), [1, 1, 1]);
}

#[test]
fn canvas_to_buffer_packs_rgb() {
    let mut c = PixelCanvas::new(2, 1, [0, 0, 0], 0);
    c.draw_pixel(0, 0, [0x12, 0x34, 0x56]);
    c.draw_pixel(1, 0, [0xff, 0, 0x01]);
    assert_eq!(Winop::canvas_to_buffer(&c), vec![0x0012_3456, 0x00ff_0001]);
    let mut c2 = PixelCanvas::new(1, 1, [0, 0, 0], 0);
    c2.buffer.push(9);
    assert_eq!(Winop::canvas_to_buffer(&c2).len(), 1);
}

#[test]
fn render_hints_leaves_canvas() {
    let mut c = PixelCanvas::new(3, 3, [0, 0, 0], 0);
    c.draw_pixel(1, 1, [4, 4, 4]);
    let before = c.buffer.clone();
    Winop::render_hints(&mut c);
    assert_eq!(c.buffer, before);
    let _w = Winop::new();
}

#[test]
fn svg_header_and_text() {
    let svg = SvgCanvas::new(200, 1050, "white", 10);
    assert_eq!(svg.elements.len(), 1);
    assert_eq!(
        svg.elements[0],
        "<?xml version=\"1.0\" encoding=\"UTF-8\"?>\n<svg xmlns=\"http://www.w3.org/2000/svg\" viewBox=\"0 0 200 1050\">"
    );
    assert_eq!(svg.background_color, "white");
    let text = svg.get_svg_as_text();
    assert_eq!(text, format!("{}</svg>", svg.elements[0]));
}

#[test]
fn svg_font_style_and_clear() {
    let mut svg = SvgCanvas::new(1, 2, "black", 0);
    svg.add_font_style("https://f/x.css", "lbl", "Fira");
    assert_eq!(svg.elements.len(), 2);
    assert_eq!(
        svg.elements[1],
        "<style>\n                @import url('https://f/x.css');\n                .lbl {\n                    font-family: 'Fira', sans-serif;\n                }\n            </style>"
    );
    svg.clear();
    assert_eq!(svg.elements.len(), 1);
    let head = "<?xml version=\"1.0\" encoding=\"UTF-8\"?>\n<svg xmlns=\"http://www.w3.org/2000/svg\" viewBox=\"0 0 1 2\">";
    assert_eq!(svg.elements[0], head);
    assert_eq!(svg.get_svg_as_text(), format!("{}</svg>", head));
}

#[test]
fn decimal_digits() {
    let mut s = String::from("n=");
    push_decimal(&mut s, 0);
    push_decimal(&mut s, 7);
    s.push(' ');
    push_decimal(&mut s, 4294967295);
    assert_eq!(s, "n=07 4294967295");
}

#[test]
fn label_and_tick_positions() {
    assert_eq!(label_origin(100, 50, 30, 11), (85, 45));
    assert_eq!(label_origin(3, 2, 30, 11), (0, 0));
    assert_eq!(axis_value_origin(100, 50, 30, 11, AxisType::AxisX), (85, 61));
    assert_eq!(axis_value_origin(100, 50, 30, 11, AxisType::AxisY), (70, 45));
    assert_eq!(axis_value_origin(10, u32::MAX - 1, 30, 11, AxisType::AxisX), (0, u32::MAX));
}

#[test]
fn view_toggles_flip_on_key_presses() {
    let t = ViewToggles::new();
    assert!(!t.hover_enabled && !t.show_hints);
    let t = t.after_keys(true, false);
    assert!(t.hover_enabled && !t.show_hints);
    let t = t.after_keys(true, true);
    assert!(!t.hover_enabled && t.show_hints);
    assert_eq!(t.after_keys(false, false), t);
    let _default = Winop::default();
}

#[test]
fn fixed_two_decimals() {
    let mut s = String::new();
    for v in [0i64, 5, 100, 1234, -7, -250, i64::MIN] {
        push_fixed2(&mut s, v);
        s.push(' ');
    }
    assert_eq!(s, "0.00 0.05 1.00 12.34 -0.07 -2.50 -92233720368547758.08 ");
}

#[test]
fn svg_elements_in_order() {
    let mut svg = SvgCanvas::new(10, 10, "white", 0);
    svg.draw_line(100, 250, -50, 0, "black", 50);
    svg.draw_line_rgb(0, 0, 1, 1, [255, 0, 7], 100);
    svg.draw_rect(0, 0, 1000, 500, "white", "black", 200, 100);
    svg.draw_circle(150, 275, 300, "red");
    svg.draw_text(500, 1000, "Hi", 1200, "black");
    svg.draw_title(0, 5, "T", 2400, "blue");
    assert_eq!(svg.elements.len(), 7);
    assert_eq!(
        svg.elements[1],
        r#"<line x1="1.00" y1="2.50" x2="-0.50" y2="0.00" stroke="black" stroke-width="0.50"/>"#
    );
    assert_eq!(
        svg.elements[2],
        r#"<line x1="0.00" y1="0.00" x2="0.01" y2="0.01" stroke="rgb(255,0,7)" stroke-width="1.00"/>"#
    );
    assert_eq!(
        svg.elements[3],
        r#"<rect x="0.00" y="0.00" width="10.00" height="5.00" fill="white" stroke="black" stroke-width="2.00" fill-opacity="1.00"/>"#
    );
    assert_eq!(svg.elements[4], r#"<circle cx="1.50" cy="2.75" r="3.00" fill="red"/>"#);
    assert_eq!(
        svg.elements[5],
        r#"<text x="5.00" y="10.00" font-size="12.00" text-anchor="middle" fill="black">Hi</text>"#
    );
    assert_eq!(
        svg.elements[6],
        r#"<text x="0.00" y="0.05" font-size="24.00" text-anchor="middle" fill="blue">T</text>"#
    );
    let text = svg.get_svg_as_text();
    assert!(text.starts_with("<?xml"));
    assert!(text.ends_with("</text></svg>"));
    assert_eq!(text, format!("{}</svg>", svg.elements.concat()));
}
