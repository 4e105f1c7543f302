use crate::bitplane::max_bits;
use crate::codec::{decoded, encodes};
use crate::color::PixelColor;
use crate::drawing::{blank, merged, painted, pixel_at, CanvasView, DrawingPixelCanvas};
use crate::error::CanvasError;
use crate::fill::filled;
use crate::raster::{line_points, painted_all};
use crate::bitplane::packed_len;
use vstd::prelude::*;

verus! {

/// The side of the square grid a session starts with.
pub const GRID_SIZE: usize = 10;

/// A grid cell, as the input layer resolves a pointer position.
#[derive(Clone, Copy, Debug, PartialEq, Eq, Structural)]
pub struct GridIndex {
    pub x: usize,
    pub y: usize,
}

/// The three layers of a canvas.
#[derive(Clone, Copy, Debug, PartialEq, Eq, Structural)]
pub enum Layer {
    /// The durable, shared drawing; the only layer sent over the wire.
    Committed,
    /// Local edits since the last tick.
    Pending,
    /// A local indicator, never merged nor sent.
    Preview,
}

/// The mathematical content of a layered canvas.
pub struct LayersView {
    pub committed: CanvasView,
    pub pending: CanvasView,
    pub preview: CanvasView,
}

pub open spec fn layer_of(v: LayersView, l: Layer) -> CanvasView {
    match l {
        Layer::Committed => v.committed,
        Layer::Pending => v.pending,
        Layer::Preview => v.preview,
    }
}

/// `v` with layer `l` replaced by `c`.
pub open spec fn with_layer(v: LayersView, l: Layer, c: CanvasView) -> LayersView {
    match l {
        Layer::Committed => LayersView { committed: c, ..v },
        Layer::Pending => LayersView { pending: c, ..v },
        Layer::Preview => LayersView { preview: c, ..v },
    }
}

/// What the renderer sees: pending, then preview, merged onto committed.
pub open spec fn composite(v: LayersView) -> CanvasView {
    merged(merged(v.committed, v.pending), v.preview)
}

/// Reading a cell inside the grid right after painting it gives the
/// colour painted.
pub proof fn lemma_paint_then_read(v: LayersView, l: Layer, x: int, y: int, c: PixelColor)
    requires
        crate::drawing::view_wf(layer_of(v, l)),
        crate::bitplane::in_grid(layer_of(v, l).width, layer_of(v, l).height, x, y),
    ensures
        pixel_at(layer_of(with_layer(v, l, painted(layer_of(v, l), x, y, c)), l), x, y) == c,
{
    let lv = layer_of(v, l);
    crate::bitplane::lemma_index_in_grid(lv.width, lv.height, x, y);
}

/// A canvas of three same-size layers: committed, pending and preview.
pub struct PixelCanvas {
    main_canvas: DrawingPixelCanvas,
    drawing_canvas: DrawingPixelCanvas,
    temp_canvas: DrawingPixelCanvas,
}

impl View for PixelCanvas {
    type V = LayersView;

    closed spec fn view(&self) -> LayersView {
        LayersView {
            committed: self.main_canvas@,
            pending: self.drawing_canvas@,
            preview: self.temp_canvas@,
        }
    }
}

impl Default for PixelCanvas {
    /// Three transparent layers of `GRID_SIZE × GRID_SIZE` cells.
    fn default() -> (r: PixelCanvas)
        ensures
            r.wf(),
            r@.committed == blank(GRID_SIZE as nat, GRID_SIZE as nat),
            r@.pending == blank(GRID_SIZE as nat, GRID_SIZE as nat),
            r@.preview == blank(GRID_SIZE as nat, GRID_SIZE as nat),
    {
        PixelCanvas::new(GRID_SIZE, GRID_SIZE)
    }
}

impl PixelCanvas {
    pub closed spec fn layers_wf(&self) -> bool {
        &&& self.main_canvas.wf()
        &&& self.drawing_canvas.wf()
        &&& self.temp_canvas.wf()
    }

    /// Each layer is consistent and all three have the same size.
    pub open spec fn wf(&self) -> bool {
        &&& self.layers_wf()
        &&& crate::drawing::view_wf(self@.committed)
        &&& crate::drawing::view_wf(self@.pending)
        &&& crate::drawing::view_wf(self@.preview)
        &&& self@.pending.width == self@.committed.width
        &&& self@.pending.height == self@.committed.height
        &&& self@.preview.width == self@.committed.width
        &&& self@.preview.height == self@.committed.height
    }

    /// Three transparent layers of `width × height` cells.
    pub fn new(width: usize, height: usize) -> (r: PixelCanvas)
        requires
            width * height <= max_bits(),
        ensures
            r.wf(),
            r@.committed == blank(width as nat, height as nat),
            r@.pending == blank(width as nat, height as nat),
            r@.preview == blank(width as nat, height as nat),
    {
        PixelCanvas {
            main_canvas: DrawingPixelCanvas::new(width, height),
            drawing_canvas: DrawingPixelCanvas::new(width, height),
            temp_canvas: DrawingPixelCanvas::new(width, height),
        }
    }

    /// One of the three layers.
    pub fn layer(&self, l: Layer) -> (r: &DrawingPixelCanvas)
        requires
            self.wf(),
        ensures
            r.wf(),
            r@ == layer_of(self@, l),
    {
        match l {
            Layer::Committed => &self.main_canvas,
            Layer::Pending => &self.drawing_canvas,
            Layer::Preview => &self.temp_canvas,
        }
    }

    /// Writes `color` at `(x, y)` in layer `l`; a coordinate outside the
    /// grid is ignored.
    pub fn paint_pixel(&mut self, l: Layer, x: usize, y: usize, color: PixelColor)
        requires
            old(self).wf(),
        ensures
            final(self).wf(),
            final(self)@ == with_layer(
                old(self)@,
                l,
                painted(layer_of(old(self)@, l), x as int, y as int, color),
            ),
    {
        match l {
            Layer::Committed => self.main_canvas.draw_pixel_ignore(x, y, color),
            Layer::Pending => self.drawing_canvas.draw_pixel_ignore(x, y, color),
            Layer::Preview => self.temp_canvas.draw_pixel_ignore(x, y, color),
        }
    }

    /// The colour at `(x, y)` in layer `l`; transparent outside the grid.
    pub fn read_pixel(&self, l: Layer, x: usize, y: usize) -> (r: PixelColor)
        requires
            self.wf(),
        ensures
            r == pixel_at(layer_of(self@, l), x as int, y as int),
    {
        self.layer(l).get_pixel(x, y)
    }

    /// Loads the committed layer from the wire form at the front of `data`
    /// and returns what follows it; a short buffer is refused and nothing
    /// changes.
    pub fn assign_pixel_bytes<'a>(&mut self, data: &'a [u8]) -> (r: Result<&'a [u8], CanvasError>)
        requires
            old(self).wf(),
        ensures
            final(self).wf(),
            final(self)@.pending == old(self)@.pending,
            final(self)@.preview == old(self)@.preview,
            ({
                let v = old(self)@.committed;
                let n = packed_len(v.cells.len() as int);
                &&& 4 * n <= data@.len() ==> r is Ok && r.unwrap()@ == data@.subrange(
                    4 * n,
                    data@.len() as int,
                ) && final(self)@.committed == decoded(v.width, v.height, data@)
                &&& data@.len() < 4 * n ==> r == Err::<&'a [u8], CanvasError>(
                    CanvasError::InsufficientData,
                ) && final(self)@.committed == v
            }),
    {
        let r = self.main_canvas.assign_bytes(data);
        proof {
            let v = old(self)@.committed;
            if 4 * packed_len(v.cells.len() as int) <= data@.len() {
                assert(crate::drawing::view_wf(decoded(v.width, v.height, data@)));
            }
        }
        r
    }

    /// The tick: merges pending into committed, then clears pending.
    pub fn update_drawing(&mut self)
        requires
            old(self).wf(),
        ensures
            final(self).wf(),
            final(self)@.committed == merged(old(self)@.committed, old(self)@.pending),
            final(self)@.pending == blank(old(self)@.committed.width, old(self)@.committed.height),
            final(self)@.preview == old(self)@.preview,
    {
        self.main_canvas.merge_top(&self.drawing_canvas);
        self.drawing_canvas.clear();
    }

    /// The wire form of the committed layer.
    pub fn to_bytes(&self) -> (r: Vec<u8>)
        requires
            self.wf(),
        ensures
            encodes(r@, self@.committed),
    {
        self.main_canvas.to_bytes()
    }

    /// The flattened view for rendering; no layer changes.
    pub fn rendered_canvas(&self) -> (r: DrawingPixelCanvas)
        requires
            self.wf(),
        ensures
            r.wf(),
            r@ == composite(self@),
    {
        self.main_canvas.layer_overlay(&self.drawing_canvas).layer_overlay(&self.temp_canvas)
    }

    /// Draws a line between two cells on the pending layer.
    pub fn line_draw(&mut self, pos1: GridIndex, pos2: GridIndex, color: PixelColor)
        requires
            old(self).wf(),
        ensures
            final(self).wf(),
            final(self)@ == with_layer(
                old(self)@,
                Layer::Pending,
                painted_all(
                    old(self)@.pending,
                    line_points(pos1.x as int, pos1.y as int, pos2.x as int, pos2.y as int),
                    color,
                ),
            ),
    {
        self.drawing_canvas.draw_line(pos1.x, pos1.y, pos2.x, pos2.y, color);
        proof {
            crate::raster::lemma_painted_all_size(
                old(self)@.pending,
                line_points(pos1.x as int, pos1.y as int, pos2.x as int, pos2.y as int),
                color,
            );
        }
    }

    /// Fills, on layer `l`, the region around `start` with `color`; the
    /// region is read from `reference`, a frozen snapshot of the same size.
    pub fn bucket_fill(
        &mut self,
        l: Layer,
        start: GridIndex,
        color: PixelColor,
        reference: &DrawingPixelCanvas,
    )
        requires
            old(self).wf(),
            reference.wf(),
            reference@.width == old(self)@.committed.width,
            reference@.height == old(self)@.committed.height,
        ensures
            final(self).wf(),
            final(self)@ == with_layer(
                old(self)@,
                l,
                filled(layer_of(old(self)@, l), reference@, start.x as int, start.y as int, color),
            ),
    {
        match l {
            Layer::Committed => self.main_canvas.bucket_fill(start.x, start.y, color, reference),
            Layer::Pending => self.drawing_canvas.bucket_fill(start.x, start.y, color, reference),
            Layer::Preview => self.temp_canvas.bucket_fill(start.x, start.y, color, reference),
        }
    }
}

} // verus!
