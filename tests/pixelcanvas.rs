use dataviz::figure::canvas::pixelcanvas::{CanvasError, PixelCanvas};
use dataviz::figure::utilities::linetype::LineType;

fn px(canvas: &PixelCanvas, x: u32, y: u32) -> [u8; 3] {
    canvas.get_pixel(x, y).unwrap()
}

#[test]
fn test_draw_line_solid() {
    let mut canvas = PixelCanvas::new(10, 10, [255, 255, 255], 2);
    canvas.draw_line(0, 0, 9, 9, [50, 150, 250], LineType::Solid).unwrap();
    for i in 0..10 {
        let index = ((i * 10 + i) * 3) as usize;
        assert_eq!(canvas.buffer[index], 50);
        assert_eq!(canvas.buffer[index + 1], 150);
        assert_eq!(canvas.buffer[index + 2], 250);
    }
    assert_ne!(canvas.buffer[3], 255, "setting canvas background color not supported so shouldn't match");
    assert_ne!(canvas.buffer[4], 255, "setting canvas background color not supported so shouldn't match");
    assert_ne!(canvas.buffer[5], 255, "setting canvas background color not supported so shouldn't match");
}

#[test]
fn test_draw_line_dashed() {
    let mut canvas = PixelCanvas::new(10, 10, [255, 255, 255], 0);
    let dash_length = 2;
    canvas.draw_line(0, 0, 9, 9, [40, 140, 240], LineType::Dashed(dash_length)).unwrap();
    for i in 0..10 {
        let index = ((i * 10 + i) * 3) as usize;
        if i < dash_length {
            assert_eq!(canvas.buffer[index], 40);
            assert_eq!(canvas.buffer[index + 1], 140);
            assert_eq!(canvas.buffer[index + 2], 240);
        } else if i < dash_length * 2 {
            assert_eq!(canvas.buffer[index], 0);
            assert_eq!(canvas.buffer[index + 1], 0);
            assert_eq!(canvas.buffer[index + 2], 0);
        } else if i < dash_length * 3 {
            assert_eq!(canvas.buffer[index], 40);
            assert_eq!(canvas.buffer[index + 1], 140);
            assert_eq!(canvas.buffer[index + 2], 240);
        } else if i < dash_length * 4 {
            assert_eq!(canvas.buffer[index], 0);
            assert_eq!(canvas.buffer[index + 1], 0);
            assert_eq!(canvas.buffer[index + 2], 0);
        } else if i < dash_length * 5 {
            assert_eq!(canvas.buffer[index], 40);
            assert_eq!(canvas.buffer[index + 1], 140);
            assert_eq!(canvas.buffer[index + 2], 240);
        }
    }
}

#[test]
fn new_canvas_is_black_and_sized() {
    let canvas = PixelCanvas::new(4, 3, [9, 8, 7], 1);
    assert_eq!(canvas.buffer.len(), 36);
    assert!(canvas.buffer.iter().all(|b| *b == 0));
}

#[test]
fn clear_uses_first_background_channel_only() {
    let mut canvas = PixelCanvas::new(2, 2, [10, 20, 30], 0);
    canvas.clear();
    assert!(canvas.buffer.iter().all(|b| *b == 10));
}

#[test]
fn clear_to_background_fills_all_channels() {
    let mut canvas = PixelCanvas::new(2, 2, [10, 20, 30], 0);
    canvas.clear_to_background();
    for i in 0..4 {
        assert_eq!(&canvas.buffer[i * 3..i * 3 + 3], &[10, 20, 30]);
    }
}

#[test]
fn draw_pixel_then_read_returns_color() {
    let mut canvas = PixelCanvas::new(10, 10, [0, 0, 0], 0);
    canvas.draw_pixel(3, 7, [1, 2, 3]);
    assert_eq!(px(&canvas, 3, 7), [1, 2, 3]);
    let changed = canvas.buffer.iter().filter(|b| **b != 0).count();
    assert_eq!(changed, 3);
}

#[test]
fn draw_pixel_outside_buffer_is_noop() {
    let mut canvas = PixelCanvas::new(10, 10, [0, 0, 0], 0);
    canvas.draw_pixel(0, 10, [1, 2, 3]);
    canvas.draw_pixel(u32::MAX, u32::MAX, [1, 2, 3]);
    canvas.put_pixel(-1, 0, [1, 2, 3]);
    canvas.put_pixel(0, -1, [1, 2, 3]);
    assert!(canvas.buffer.iter().all(|b| *b == 0));
    assert_eq!(canvas.get_pixel(0, 10), None);
}

#[test]
fn draw_pixel_past_row_end_is_noop() {
    let mut canvas = PixelCanvas::new(10, 10, [0, 0, 0], 0);
    canvas.draw_pixel(12, 0, [5, 6, 7]);
    canvas.draw_pixel(10, 3, [5, 6, 7]);
    canvas.draw_line(10, 0, 10, 0, [5, 6, 7], LineType::Solid).unwrap();
    assert!(canvas.buffer.iter().all(|b| *b == 0));
    assert_eq!(canvas.get_pixel(12, 0), None);
}

#[test]
fn blend_full_opacity_equals_draw() {
    let mut a = PixelCanvas::new(5, 5, [0, 0, 0], 0);
    let mut b = PixelCanvas::new(5, 5, [0, 0, 0], 0);
    a.draw_pixel(1, 1, [100, 50, 25]);
    b.draw_pixel(1, 1, [100, 50, 25]);
    a.blend_pixel(2, 2, [200, 10, 0], 1, 1);
    b.draw_pixel(2, 2, [200, 10, 0]);
    a.blend_pixel(1, 1, [7, 7, 7], 4, 4);
    b.draw_pixel(1, 1, [7, 7, 7]);
    assert_eq!(a.buffer, b.buffer);
}

#[test]
fn blend_zero_opacity_leaves_pixel() {
    let mut canvas = PixelCanvas::new(5, 5, [0, 0, 0], 0);
    canvas.draw_pixel(1, 1, [100, 50, 25]);
    let before = canvas.buffer.clone();
    canvas.blend_pixel(1, 1, [255, 255, 255], 0, 3);
    assert_eq!(canvas.buffer, before);
}

#[test]
fn blend_half_and_third() {
    let mut canvas = PixelCanvas::new(2, 1, [0, 0, 0], 0);
    canvas.draw_pixel(0, 0, [100, 100, 101]);
    canvas.blend_pixel(0, 0, [200, 0, 0], 1, 2);
    assert_eq!(px(&canvas, 0, 0), [150, 50, 50]);
    canvas.draw_pixel(1, 0, [100, 100, 100]);
    canvas.blend_pixel(1, 0, [200, 0, 255], 1, 3);
    assert_eq!(px(&canvas, 1, 0), [133, 66, 151]);
}

#[test]
fn point_line_paints_one_pixel() {
    let mut canvas = PixelCanvas::new(10, 10, [0, 0, 0], 0);
    canvas.draw_line(4, 6, 4, 6, [9, 8, 7], LineType::Solid).unwrap();
    assert_eq!(px(&canvas, 4, 6), [9, 8, 7]);
    assert_eq!(canvas.buffer.iter().filter(|b| **b != 0).count(), 3);
}

#[test]
fn scenario_solid_diagonal_only() {
    let mut canvas = PixelCanvas::new(10, 10, [0, 0, 0], 0);
    canvas.draw_line(0, 0, 9, 9, [1, 2, 3], LineType::Solid).unwrap();
    for y in 0..10 {
        for x in 0..10 {
            let expected = if x == y { [1, 2, 3] } else { [0, 0, 0] };
            assert_eq!(px(&canvas, x, y), expected);
        }
    }
}

#[test]
fn scenario_horizontal_lines_then_read() {
    let blue = [0, 0, 250];
    let mut canvas = PixelCanvas::new(100, 100, [250, 0, 0], 5);
    canvas.draw_horizontal_line(30, blue);
    canvas.draw_horizontal_line(31, blue);
    assert_eq!(px(&canvas, 60, 31), blue);
    assert_eq!(px(&canvas, 4, 31), [0, 0, 0]);
    assert_eq!(px(&canvas, 5, 31), blue);
    assert_eq!(px(&canvas, 94, 31), blue);
    assert_eq!(px(&canvas, 95, 31), [0, 0, 0]);
}

#[test]
fn scenario_dashed_runs_of_two() {
    let mut canvas = PixelCanvas::new(10, 10, [0, 0, 0], 0);
    canvas.draw_line(0, 0, 9, 9, [7, 7, 7], LineType::Dashed(2)).unwrap();
    for i in 0..10u32 {
        let on = (i / 2) % 2 == 0;
        assert_eq!(px(&canvas, i, i), if on { [7, 7, 7] } else { [0, 0, 0] });
    }
    let painted = canvas.buffer.chunks(3).filter(|p| p != &[0, 0, 0]).count();
    assert_eq!(painted, 6);
}

#[test]
fn dotted_matches_dashed() {
    let mut a = PixelCanvas::new(20, 20, [0, 0, 0], 0);
    let mut b = PixelCanvas::new(20, 20, [0, 0, 0], 0);
    a.draw_line(1, 2, 18, 9, [3, 3, 3], LineType::Dashed(3)).unwrap();
    b.draw_line(1, 2, 18, 9, [3, 3, 3], LineType::Dotted(3)).unwrap();
    assert_eq!(a.buffer, b.buffer);
}

#[test]
fn dashed_count_over_long_line() {
    let mut canvas = PixelCanvas::new(40, 2, [0, 0, 0], 0);
    canvas.draw_line(0, 0, 39, 0, [1, 1, 1], LineType::Dashed(4)).unwrap();
    let painted = canvas.buffer.chunks(3).filter(|p| p != &[0, 0, 0]).count();
    assert_eq!(painted, 20);
}

#[test]
fn squared_line_is_rejected() {
    let mut canvas = PixelCanvas::new(10, 10, [0, 0, 0], 0);
    let r = canvas.draw_line(0, 0, 9, 9, [1, 1, 1], LineType::Squared(2, 2));
    assert_eq!(r, Err(CanvasError::UnsupportedLineType));
    assert!(canvas.buffer.iter().all(|b| *b == 0));
}

#[test]
fn thick_line_paints_stripes() {
    let mut canvas = PixelCanvas::new(10, 10, [0, 0, 0], 0);
    canvas.draw_line(1, 5, 4, 5, [2, 2, 2], LineType::SolidThick).unwrap();
    for x in 1..4 {
        for y in 3..8 {
            assert_eq!(px(&canvas, x, y), [2, 2, 2]);
        }
    }
    assert_eq!(px(&canvas, 4, 5), [2, 2, 2]);
    assert_eq!(px(&canvas, 4, 4), [0, 0, 0]);
    assert_eq!(px(&canvas, 1, 2), [0, 0, 0]);
}

#[test]
fn steep_line_visits_each_row() {
    let mut canvas = PixelCanvas::new(10, 10, [0, 0, 0], 0);
    canvas.draw_line(2, 0, 4, 8, [1, 1, 1], LineType::Solid).unwrap();
    for y in 0..9 {
        let row = (0..10).filter(|x| px(&canvas, *x, y) == [1, 1, 1]).count();
        assert_eq!(row, 1);
    }
    assert_eq!(px(&canvas, 2, 0), [1, 1, 1]);
    assert_eq!(px(&canvas, 4, 8), [1, 1, 1]);
}

#[test]
fn line_with_negative_coordinates_does_not_panic() {
    let mut canvas = PixelCanvas::new(5, 5, [0, 0, 0], 0);
    canvas.draw_line(-3, -3, 2, 2, [1, 1, 1], LineType::Solid).unwrap();
    canvas.draw_line(i32::MIN, 0, i32::MIN + 3, 0, [1, 1, 1], LineType::SolidThick).unwrap();
    assert_eq!(px(&canvas, 0, 0), [1, 1, 1]);
    assert_eq!(px(&canvas, 2, 2), [1, 1, 1]);
}

#[test]
fn vertical_line_respects_margin() {
    let mut canvas = PixelCanvas::new(10, 10, [0, 0, 0], 3);
    canvas.draw_vertical_line(4, [1, 1, 1]);
    for y in 0..10 {
        let expected = if (3..7).contains(&y) { [1, 1, 1] } else { [0, 0, 0] };
        assert_eq!(px(&canvas, 4, y), expected);
    }
}

#[test]
fn lines_with_oversized_margin_draw_nothing() {
    let mut canvas = PixelCanvas::new(4, 4, [0, 0, 0], 9);
    canvas.draw_horizontal_line(1, [1, 1, 1]);
    canvas.draw_vertical_line(1, [1, 1, 1]);
    canvas.draw_grid(&[1, 1], [1, 1, 1]);
    assert!(canvas.buffer.iter().all(|b| *b == 0));
}

#[test]
fn grid_lines_at_steps() {
    let mut canvas = PixelCanvas::new(10, 10, [0, 0, 0], 2);
    canvas.draw_grid(&[3, 4], [1, 1, 1]);
    // columns 2, 5, 8 over rows 2..8; rows 2, 6 over columns 2..8
    for y in 0..10u32 {
        for x in 0..10u32 {
            let col = [2, 5, 8].contains(&x) && (2..8).contains(&y);
            let row = [2, 6].contains(&y) && (2..8).contains(&x);
            let expected = if col || row { [1, 1, 1] } else { [0, 0, 0] };
            assert_eq!(px(&canvas, x, y), expected, "at {} {}", x, y);
        }
    }
}
