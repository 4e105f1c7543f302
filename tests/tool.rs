use bitcanvas::color::PixelColor;
use bitcanvas::tool::DrawingTool;

#[test]
fn tool_names_and_colours() {
    let mut t = DrawingTool::default();
    assert_eq!(t, DrawingTool::Pen(PixelColor::black()));
    assert_eq!(t.name(), "Pen");
    assert_eq!(t.icon(), "✏️");
    t.change_color(PixelColor::red());
    assert_eq!(t, DrawingTool::Pen(PixelColor::red()));
    let mut e = DrawingTool::Eraser;
    e.change_color(PixelColor::red());
    assert_eq!(e, DrawingTool::Eraser);
    assert_eq!(e.name(), "Eraser");
    let mut b = DrawingTool::BucketFill(PixelColor::white());
    b.change_color(PixelColor::blue());
    assert_eq!(b, DrawingTool::BucketFill(PixelColor::blue()));
    assert_eq!(b.name(), "Bucket Fill");
    assert_eq!(b.icon(), "🪣");
}
