use crate::color::PixelColor;
use vstd::prelude::*;

verus! {

/// The tool a pointer stroke uses.
#[derive(Clone, Copy, Debug, PartialEq, Eq, Structural)]
pub enum DrawingTool {
    Pen(PixelColor),
    Eraser,
    BucketFill(PixelColor),
}

impl Default for DrawingTool {
    /// A black pen.
    fn default() -> (r: DrawingTool)
        ensures
            r == DrawingTool::Pen(PixelColor { r: false, g: false, b: false, a: true }),
    {
        DrawingTool::Pen(PixelColor::black())
    }
}

impl DrawingTool {
    pub fn icon(&self) -> (r: &'static str)
        ensures
            r == match *self {
                DrawingTool::Pen(_) => "✏️",
                DrawingTool::Eraser => "🧽",
                DrawingTool::BucketFill(_) => "🪣",
            },
    {
        match self {
            DrawingTool::Pen(_) => "✏️",
            DrawingTool::Eraser => "🧽",
            DrawingTool::BucketFill(_) => "🪣",
        }
    }

    pub fn name(&self) -> (r: &'static str)
        ensures
            r == match *self {
                DrawingTool::Pen(_) => "Pen",
                DrawingTool::Eraser => "Eraser",
                DrawingTool::BucketFill(_) => "Bucket Fill",
            },
    {
        match self {
            DrawingTool::Pen(_) => "Pen",
            DrawingTool::Eraser => "Eraser",
            DrawingTool::BucketFill(_) => "Bucket Fill",
        }
    }

    /// Gives the tool a new colour; the eraser has none and stays as it is.
    pub fn change_color(&mut self, color: PixelColor)
        ensures
            *final(self) == match *old(self) {
                DrawingTool::Eraser => DrawingTool::Eraser,
                DrawingTool::Pen(_) => DrawingTool::Pen(color),
                DrawingTool::BucketFill(_) => DrawingTool::BucketFill(color),
            },
    {
        *self = match *self {
            DrawingTool::Eraser => DrawingTool::Eraser,
            DrawingTool::Pen(_) => DrawingTool::Pen(color),
            DrawingTool::BucketFill(_) => DrawingTool::BucketFill(color),
        }
    }
}

} // verus!
