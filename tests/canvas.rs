use bitcanvas::color::PixelColor;
use bitcanvas::drawing::DrawingPixelCanvas;
use bitcanvas::error::CanvasError;
use bitcanvas::layers::{GridIndex, Layer, PixelCanvas};

fn cells(c: &DrawingPixelCanvas) -> Vec<PixelColor> {
    c.iter().into_iter().map(|(_, _, p)| p).collect()
}

#[test]
fn colour_constructors_and_codes() {
    assert_eq!(PixelColor::black().to_rgb(), "#000000");
    assert_eq!(PixelColor::red().to_rgb(), "#ff0000");
    assert_eq!(PixelColor::green().to_rgb(), "#00ff00");
    assert_eq!(PixelColor::blue().to_rgb(), "#0000ff");
    assert_eq!(PixelColor::yellow().to_rgb(), "#ffff00");
    assert_eq!(PixelColor::magenta().to_rgb(), "#ff00ff");
    assert_eq!(PixelColor::cyan().to_rgb(), "#00ffff");
    assert_eq!(PixelColor::white().to_rgb(), "#ffffff");
    assert_eq!(PixelColor::alpha().to_rgb(), "#dddddd");
    assert_eq!(PixelColor::erase().to_rgb(), "#dddddd");
    assert!(PixelColor::erase().is_eraser());
    assert!(!PixelColor::alpha().is_eraser());
    assert!(PixelColor::erase().is_transperent());
    assert!(!PixelColor::red().is_transperent());
    assert_eq!(PixelColor::new(true, false, false, false), PixelColor::erase());
    assert_eq!(PixelColor::color(false, false, false), PixelColor::alpha());
}

#[test]
fn paint_then_read_on_each_layer() {
    let mut pc = PixelCanvas::new(4, 3);
    for l in [Layer::Committed, Layer::Pending, Layer::Preview] {
        pc.paint_pixel(l, 3, 2, PixelColor::cyan());
        assert_eq!(pc.read_pixel(l, 3, 2), PixelColor::cyan());
    }
    pc.paint_pixel(Layer::Pending, 4, 0, PixelColor::red());
    assert_eq!(pc.read_pixel(Layer::Pending, 4, 0), PixelColor::alpha());
    assert_eq!(pc.read_pixel(Layer::Committed, 0, 0), PixelColor::alpha());
}

#[test]
fn out_of_range_reads() {
    let c = DrawingPixelCanvas::new(2, 2);
    assert_eq!(c.get_pixel(5, 0), PixelColor::alpha());
    assert_eq!(c.get_pixel_checked(5, 0), None);
    assert_eq!(c.get_pixel_checked(1, 1), Some(PixelColor::alpha()));
}

#[test]
fn merge_twice_equals_merge_once() {
    let mut dst = DrawingPixelCanvas::new(3, 1);
    dst.draw_pixel_ignore(0, 0, PixelColor::red());
    dst.draw_pixel_ignore(1, 0, PixelColor::green());
    let mut src = DrawingPixelCanvas::new(3, 1);
    src.draw_pixel_ignore(0, 0, PixelColor::erase());
    src.draw_pixel_ignore(2, 0, PixelColor::blue());
    let once = dst.layer_overlay(&src);
    let twice = once.layer_overlay(&src);
    assert!(once.equals(&twice));
    assert_eq!(
        cells(&once),
        vec![PixelColor::alpha(), PixelColor::green(), PixelColor::blue()]
    );
}

#[test]
fn erase_clears_opaque() {
    let mut dst = DrawingPixelCanvas::new(2, 1);
    dst.draw_pixel_ignore(0, 0, PixelColor::white());
    dst.draw_pixel_ignore(1, 0, PixelColor::black());
    let mut src = DrawingPixelCanvas::new(2, 1);
    src.draw_pixel_ignore(0, 0, PixelColor::erase());
    src.draw_pixel_ignore(1, 0, PixelColor::erase());
    dst.merge_top(&src);
    assert_eq!(dst.get_pixel(0, 0), PixelColor::alpha());
    assert_eq!(dst.get_pixel(1, 0), PixelColor::alpha());
}

#[test]
fn transparent_keeps_bottom() {
    let mut dst = DrawingPixelCanvas::new(3, 1);
    dst.draw_pixel_ignore(0, 0, PixelColor::magenta());
    dst.draw_pixel_ignore(1, 0, PixelColor::erase());
    let src = DrawingPixelCanvas::new(3, 1);
    let before = dst.copy();
    dst.merge_top(&src);
    assert!(dst.equals(&before));
    assert_eq!(dst.get_pixel(0, 0), PixelColor::magenta());
    assert_eq!(dst.get_pixel(1, 0), PixelColor::erase());
}

#[test]
fn wire_round_trip_ten_by_ten() {
    let mut c = DrawingPixelCanvas::new(10, 10);
    c.draw_line(0, 0, 9, 5, PixelColor::red());
    c.draw_pixel_ignore(9, 9, PixelColor::erase());
    c.draw_pixel_ignore(3, 7, PixelColor::yellow());
    let bytes = c.to_bytes();
    assert_eq!(bytes.len(), 4 * 13);
    let mut d = DrawingPixelCanvas::new(10, 10);
    let tail = d.assign_bytes(&bytes).unwrap();
    assert!(tail.is_empty());
    assert!(d.equals(&c));
}

#[test]
fn wire_round_trip_fully_painted() {
    let mut c = DrawingPixelCanvas::new(7, 3);
    let palette = [
        PixelColor::black(),
        PixelColor::red(),
        PixelColor::green(),
        PixelColor::blue(),
        PixelColor::yellow(),
        PixelColor::magenta(),
        PixelColor::cyan(),
        PixelColor::white(),
    ];
    for y in 0..3 {
        for x in 0..7 {
            c.draw_pixel_ignore(x, y, palette[(x + y) % 8]);
        }
    }
    let bytes = c.to_bytes();
    let mut d = DrawingPixelCanvas::new(7, 3);
    assert_eq!(d.assign_bytes(&bytes).map(|t| t.len()), Ok(0));
    assert!(d.equals(&c));
    assert_eq!(d.get_pixel(6, 2), palette[0]);
}

#[test]
fn wire_layout_of_one_red_cell() {
    let mut c = DrawingPixelCanvas::new(3, 3);
    c.draw_pixel_ignore(0, 0, PixelColor::red());
    assert_eq!(c.to_bytes(), vec![1u8, 0, 0, 0, 0, 0, 1, 0]);
}

#[test]
fn decode_keeps_tail_of_concatenated_records() {
    let mut a = DrawingPixelCanvas::new(2, 2);
    a.draw_pixel_ignore(1, 0, PixelColor::blue());
    let mut b = DrawingPixelCanvas::new(2, 2);
    b.draw_pixel_ignore(0, 1, PixelColor::green());
    let mut buf = a.to_bytes();
    buf.extend(b.to_bytes());
    let mut d = DrawingPixelCanvas::new(2, 2);
    let rest = d.assign_bytes(&buf).unwrap().to_vec();
    assert!(d.equals(&a));
    assert_eq!(d.assign_bytes(&rest).map(|t| t.len()), Ok(0));
    assert!(d.equals(&b));
}

#[test]
fn short_decode_leaves_canvas() {
    let mut c = PixelCanvas::new(4, 4);
    c.paint_pixel(Layer::Committed, 1, 1, PixelColor::green());
    let before = c.to_bytes();
    assert_eq!(c.assign_pixel_bytes(&[0xff; 7]), Err(CanvasError::InsufficientData));
    assert_eq!(c.to_bytes(), before);
    assert_eq!(c.read_pixel(Layer::Committed, 1, 1), PixelColor::green());
}

#[test]
fn flood_fill_enclosed_region() {
    // a ring of black around a 3x1 hole, on a 5x5 canvas
    let mut c = DrawingPixelCanvas::new(5, 5);
    for x in 0..5 {
        c.draw_pixel_ignore(x, 1, PixelColor::black());
        c.draw_pixel_ignore(x, 3, PixelColor::black());
    }
    c.draw_pixel_ignore(0, 2, PixelColor::black());
    c.draw_pixel_ignore(4, 2, PixelColor::black());
    let reference = c.copy();
    c.bucket_fill(2, 2, PixelColor::red(), &reference);
    for y in 0..5 {
        for x in 0..5 {
            let expected = if y == 2 && (1..4).contains(&x) {
                PixelColor::red()
            } else {
                reference.get_pixel(x, y)
            };
            assert_eq!(c.get_pixel(x, y), expected, "cell ({x}, {y})");
        }
    }
}

#[test]
fn flood_fill_reads_reference_only() {
    let reference = DrawingPixelCanvas::new(3, 2);
    let mut target = DrawingPixelCanvas::new(3, 2);
    target.draw_pixel_ignore(1, 1, PixelColor::blue());
    target.bucket_fill(0, 0, PixelColor::green(), &reference);
    assert_eq!(cells(&target), vec![PixelColor::green(); 6]);
}

#[test]
fn flood_fill_no_op_cases() {
    let mut c = DrawingPixelCanvas::new(3, 3);
    c.draw_pixel_ignore(1, 1, PixelColor::red());
    let reference = c.copy();
    c.bucket_fill(1, 1, PixelColor::red(), &reference);
    assert!(c.equals(&reference));
    c.bucket_fill(3, 0, PixelColor::blue(), &reference);
    assert!(c.equals(&reference));
}

#[test]
fn point_line_paints_one_cell() {
    let mut c = DrawingPixelCanvas::new(5, 5);
    c.draw_line(2, 2, 2, 2, PixelColor::black());
    assert_eq!(c.get_pixel(2, 2), PixelColor::black());
    assert_eq!(c.get_alpha().count_ones(), 1);
}

#[test]
fn diagonal_line_through_tick_and_composite() {
    let mut pc = PixelCanvas::new(5, 5);
    pc.line_draw(GridIndex { x: 0, y: 0 }, GridIndex { x: 4, y: 4 }, PixelColor::red());
    pc.update_drawing();
    let view = pc.rendered_canvas();
    for y in 0..5 {
        for x in 0..5 {
            let expected = if x == y { PixelColor::red() } else { PixelColor::alpha() };
            assert_eq!(view.get_pixel(x, y), expected);
        }
    }
    assert!(pc.layer(Layer::Pending).is_transpernet_debug());
}

#[test]
fn shallow_line_cells() {
    let mut c = DrawingPixelCanvas::new(6, 3);
    c.draw_line(0, 0, 5, 2, PixelColor::blue());
    assert_eq!(c.to_ascii(), "88    \n  88  \n    88\n");
}

#[test]
fn line_off_grid_is_clipped() {
    let mut c = DrawingPixelCanvas::new(3, 3);
    c.draw_line(1, 1, 5, 1, PixelColor::green());
    assert_eq!(c.to_ascii(), "   \n 88\n   \n");
}

#[test]
fn composite_does_not_change_layers() {
    let mut pc = PixelCanvas::new(2, 1);
    pc.paint_pixel(Layer::Committed, 0, 0, PixelColor::red());
    pc.paint_pixel(Layer::Pending, 0, 0, PixelColor::erase());
    pc.paint_pixel(Layer::Preview, 1, 0, PixelColor::white());
    let view = pc.rendered_canvas();
    assert_eq!(view.get_pixel(0, 0), PixelColor::alpha());
    assert_eq!(view.get_pixel(1, 0), PixelColor::white());
    assert_eq!(pc.read_pixel(Layer::Committed, 0, 0), PixelColor::red());
    pc.update_drawing();
    assert_eq!(pc.read_pixel(Layer::Committed, 0, 0), PixelColor::alpha());
    assert_eq!(pc.read_pixel(Layer::Preview, 1, 0), PixelColor::white());
}

#[test]
fn layered_fill_on_pending() {
    let mut pc = PixelCanvas::new(3, 1);
    pc.paint_pixel(Layer::Committed, 1, 0, PixelColor::black());
    let reference = pc.rendered_canvas();
    pc.bucket_fill(Layer::Pending, GridIndex { x: 0, y: 0 }, PixelColor::yellow(), &reference);
    assert_eq!(pc.read_pixel(Layer::Pending, 0, 0), PixelColor::yellow());
    assert_eq!(pc.read_pixel(Layer::Pending, 1, 0), PixelColor::alpha());
    assert_eq!(pc.read_pixel(Layer::Pending, 2, 0), PixelColor::alpha());
}

#[test]
fn searches_and_debug_helpers() {
    let mut c = DrawingPixelCanvas::new(3, 2);
    assert!(c.is_transpernet_debug());
    assert_eq!(c.non_transperent_value(), None);
    c.draw_pixel_ignore(2, 0, PixelColor::erase());
    assert!(c.is_transpernet_debug());
    assert_eq!(c.search_color(PixelColor::erase()), Some((2, 0)));
    c.draw_pixel_ignore(1, 1, PixelColor::cyan());
    c.draw_pixel_ignore(2, 1, PixelColor::cyan());
    assert!(!c.is_transpernet_debug());
    assert_eq!(c.non_transperent_value(), Some((1, 1)));
    assert_eq!(c.search_color(PixelColor::cyan()), Some((1, 1)));
    assert_eq!(c.search_color(PixelColor::red()), None);
    assert_eq!(c.dimension(), (3, 2));
    assert_eq!(c.to_ascii(), "   \n 88\n");
}

#[test]
fn clear_makes_everything_transparent() {
    let mut c = DrawingPixelCanvas::new(2, 2);
    c.draw_pixel_ignore(0, 1, PixelColor::white());
    c.clear();
    assert!(c.equals(&DrawingPixelCanvas::new(2, 2)));
    assert!(!c.equals(&DrawingPixelCanvas::new(4, 1)));
}

#[test]
fn equals_compares_cells() {
    let mut a = DrawingPixelCanvas::new(2, 2);
    let b = DrawingPixelCanvas::new(2, 2);
    assert!(a.equals(&b));
    a.draw_pixel_ignore(1, 0, PixelColor::erase());
    assert!(!a.equals(&b));
}

#[test]
fn line_cells_walk() {
    assert_eq!(
        bitcanvas::raster::line_cells(0, 0, 3, 1),
        vec![(0, 0), (1, 0), (2, 1), (3, 1)]
    );
    assert_eq!(bitcanvas::raster::line_cells(2, 2, 2, 2), vec![(2, 2)]);
    assert_eq!(
        bitcanvas::raster::line_cells(2, 3, 2, 0),
        vec![(2, 3), (2, 2), (2, 1), (2, 0)]
    );
}

#[test]
fn default_canvas_is_ten_by_ten() {
    let pc = PixelCanvas::default();
    assert_eq!(pc.layer(Layer::Committed).dimension(), (10, 10));
    assert_eq!(pc.to_bytes(), vec![0u8; 4 * 13]);
}
