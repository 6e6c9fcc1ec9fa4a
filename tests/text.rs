use dataviz::figure::canvas::pixelcanvas::PixelCanvas;
use dataviz::figure::canvas::textoverlay::TEXT_COORD_LIMIT;
use dataviz::figure::utilities::axistype::AxisType;

const FONT_PATH: &str = "/usr/share/fonts/truetype/dejavu/DejaVuSans.ttf";

/// Runs `f` with the bytes of a font that the font database loads.
fn with_font(f: impl FnOnce(&[u8])) {
    let mut db = resvg::usvg::fontdb::Database::new();
    db.load_font_file(FONT_PATH).unwrap();
    let id = db.faces().next().unwrap().id;
    db.with_face_data(id, |data, _index| f(data)).unwrap();
}

fn inked(canvas: &PixelCanvas) -> usize {
    canvas.buffer.chunks(3).filter(|p| p != &[0, 0, 0]).count()
}

#[test]
fn text_is_stamped_inside_the_canvas() {
    with_font(|font| {
        let scale: u16 = 16;
        let mut canvas = PixelCanvas::new(60, 30, [0, 0, 0], 0);
        canvas.buffer.extend_from_slice(&[7, 7, 7]);
        canvas.draw_text(2, 2, "Hi", [255, 255, 255], font, scale);
        assert!(inked(&canvas) > 1);
        assert_eq!(canvas.buffer.len(), 60 * 30 * 3 + 3);
        assert_eq!(&canvas.buffer[60 * 30 * 3..], &[7, 7, 7]);
    });
}

#[test]
fn vertical_text_stacks_characters() {
    with_font(|font| {
        let scale: u16 = 12;
        let mut one = PixelCanvas::new(20, 80, [0, 0, 0], 0);
        one.draw_text_vertical(2, 0, "I", [255, 255, 255], font, scale);
        let mut two = PixelCanvas::new(20, 80, [0, 0, 0], 0);
        two.draw_text_vertical(2, 0, "II", [255, 255, 255], font, scale);
        assert!(inked(&one) > 0);
        assert!(inked(&two) > inked(&one));
        let lowest = |c: &PixelCanvas| (0..80u32).rev().find(|y| (0..20).any(|x| c.get_pixel(x, *y) != Some([0, 0, 0]))).unwrap();
        assert!(lowest(&two) > lowest(&one) + 5);
    });
}

#[test]
fn label_and_tick_value_are_placed_around_the_point() {
    with_font(|font| {
        let scale: u16 = 12;
        let mut label = PixelCanvas::new(100, 100, [0, 0, 0], 0);
        label.draw_label(50, 50, "M", [255, 255, 255], font, scale);
        let mut tick = PixelCanvas::new(100, 100, [0, 0, 0], 0);
        tick.draw_axis_value(50, 50, "M", [255, 255, 255], font, scale, AxisType::AxisY);
        let leftmost = |c: &PixelCanvas| (0..100u32).find(|x| (0..100).any(|y| c.get_pixel(*x, y) != Some([0, 0, 0]))).unwrap();
        let rightmost = |c: &PixelCanvas| (0..100u32).rev().find(|x| (0..100).any(|y| c.get_pixel(*x, y) != Some([0, 0, 0]))).unwrap();
        assert!(leftmost(&label) < 50 && rightmost(&label) >= 50);
        assert!(rightmost(&tick) <= 50);
    });
}

#[test]
fn text_is_skipped_on_a_short_buffer() {
    with_font(|font| {
        let mut canvas = PixelCanvas::new(10, 10, [0, 0, 0], 0);
        canvas.buffer.truncate(30);
        canvas.draw_text(0, 0, "W", [255, 255, 255], font, 12);
        assert_eq!(canvas.buffer, vec![0; 30]);
    });
}

#[test]
fn unreadable_font_or_oversized_text_draws_nothing() {
    let mut canvas = PixelCanvas::new(20, 20, [0, 0, 0], 0);
    canvas.draw_text(2, 2, "Hi", [255, 255, 255], &[1, 2, 3], 12);
    canvas.draw_label(10, 10, "Hi", [255, 255, 255], &[], 12);
    assert!(canvas.buffer.iter().all(|b| *b == 0));
    with_font(|font| {
        let mut canvas = PixelCanvas::new(20, 20, [0, 0, 0], 0);
        canvas.draw_text(2, 2, "Hi", [255, 255, 255], font, 60000);
        canvas.draw_text(TEXT_COORD_LIMIT + 1, 0, "Hi", [255, 255, 255], font, 12);
        assert!(canvas.buffer.iter().all(|b| *b == 0));
    });
}
