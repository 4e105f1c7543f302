use crate::bitplane::{byte_bit, bytes_bits, cell_index, in_grid, max_bits, packed_len, BitMatrix};
use crate::codec::{alpha_plane, blue_plane, decoded, encodes, green_plane, red_plane};
use crate::error::CanvasError;
use crate::color::{erase, transparent, PixelColor};
use vstd::prelude::*;

verus! {

/// The mathematical content of a canvas: its size and its cells, row-major.
pub struct CanvasView {
    pub width: nat,
    pub height: nat,
    pub cells: Seq<PixelColor>,
}

/// The colour at `(x, y)`; transparent outside the grid.
pub open spec fn pixel_at(v: CanvasView, x: int, y: int) -> PixelColor {
    if in_grid(v.width, v.height, x, y) {
        v.cells[cell_index(v.width, x, y)]
    } else {
        transparent()
    }
}

/// The view is a consistent grid.
pub open spec fn view_wf(v: CanvasView) -> bool {
    &&& v.cells.len() == v.width * v.height
    &&& v.width * v.height <= max_bits()
}

/// `v` with `(x, y)` set to `c`; unchanged when `(x, y)` is outside.
pub open spec fn painted(v: CanvasView, x: int, y: int, c: PixelColor) -> CanvasView {
    if in_grid(v.width, v.height, x, y) {
        CanvasView { cells: v.cells.update(cell_index(v.width, x, y), c), ..v }
    } else {
        v
    }
}

/// One cell of a merge: erase clears, opaque overwrites, anything else
/// leaves the cell beneath.
pub open spec fn merge_cell(bottom: PixelColor, top: PixelColor) -> PixelColor {
    if top == erase() {
        transparent()
    } else if top.a {
        top
    } else {
        bottom
    }
}

/// `top` merged down onto `bottom`, cell by cell.
pub open spec fn merged(bottom: CanvasView, top: CanvasView) -> CanvasView {
    CanvasView {
        cells: Seq::new(bottom.cells.len(), |i: int| merge_cell(bottom.cells[i], top.cells[i])),
        ..bottom
    }
}

/// Merging the same top layer a second time changes nothing.
pub proof fn lemma_merge_idempotent(bottom: CanvasView, top: CanvasView)
    ensures
        merged(merged(bottom, top), top) == merged(bottom, top),
{
    assert(merged(merged(bottom, top), top).cells =~= merged(bottom, top).cells);
}

/// A cell holding the erase directive in the top layer comes out
/// transparent, whatever the bottom layer held.
pub proof fn lemma_merge_erase(bottom: CanvasView, top: CanvasView, i: int)
    requires
        0 <= i < bottom.cells.len(),
        top.cells[i] == erase(),
    ensures
        merged(bottom, top).cells[i] == transparent(),
{
}

/// A cell left transparent (no edit) in the top layer keeps the bottom
/// layer's colour.
pub proof fn lemma_merge_keeps(bottom: CanvasView, top: CanvasView, i: int)
    requires
        0 <= i < bottom.cells.len(),
        top.cells[i] == transparent(),
    ensures
        merged(bottom, top).cells[i] == bottom.cells[i],
{
}

/// Merging valid colours gives a valid colour: compositing never
/// synthesises one of the six undefined code points.
pub proof fn lemma_merge_valid(bottom: PixelColor, top: PixelColor)
    requires
        crate::color::valid_color(bottom),
        crate::color::valid_color(top),
    ensures
        crate::color::valid_color(merge_cell(bottom, top)),
{
}

/// A canvas of the given size with every cell transparent.
pub open spec fn blank(width: nat, height: nat) -> CanvasView {
    CanvasView {
        width,
        height,
        cells: Seq::new(width * height, |_i: int| transparent()),
    }
}

/// `i` is a cell index of a `width × height` grid; its coordinates are
/// `(i % width, i / width)`.
pub proof fn lemma_cell_coords(width: nat, height: nat, i: int)
    requires
        0 <= i < width * height,
    ensures
        width > 0,
        in_grid(width, height, i % (width as int), i / (width as int)),
        cell_index(width, i % (width as int), i / (width as int)) == i,
{
    let w = width as int;
    let h = height as int;
    if w == 0 {
        assert(w * h == 0) by (nonlinear_arith)
            requires
                w == 0,
        ;
    }
    let q = i / w;
    let r = i % w;
    assert(i == q * w + r && 0 <= r < w && 0 <= q) by (nonlinear_arith)
        requires
            w > 0,
            i >= 0,
            q == i / w,
            r == i % w,
    ;
    assert(q < h) by (nonlinear_arith)
        requires
            i == q * w + r,
            0 <= r < w,
            i < w * h,
            0 <= q,
            w > 0,
    ;
}

/// A pixel canvas: four bit planes, one per colour field.
pub struct DrawingPixelCanvas {
    r_array: BitMatrix,
    g_array: BitMatrix,
    b_array: BitMatrix,
    a_array: BitMatrix,
}

impl View for DrawingPixelCanvas {
    type V = CanvasView;

    closed spec fn view(&self) -> CanvasView {
        CanvasView {
            width: self.r_array@.width,
            height: self.r_array@.height,
            cells: Seq::new(
                self.r_array@.bits.len(),
                |i: int|
                    PixelColor {
                        r: self.r_array@.bits[i],
                        g: self.g_array@.bits[i],
                        b: self.b_array@.bits[i],
                        a: self.a_array@.bits[i],
                    },
            ),
        }
    }
}

impl DrawingPixelCanvas {
    pub closed spec fn planes_wf(&self) -> bool {
        &&& self.r_array.wf()
        &&& self.g_array.wf()
        &&& self.b_array.wf()
        &&& self.a_array.wf()
        &&& self.g_array@.width == self.r_array@.width
        &&& self.b_array@.width == self.r_array@.width
        &&& self.a_array@.width == self.r_array@.width
        &&& self.g_array@.height == self.r_array@.height
        &&& self.b_array@.height == self.r_array@.height
        &&& self.a_array@.height == self.r_array@.height
    }

    /// The four planes agree in size and fill the grid.
    pub open spec fn wf(&self) -> bool {
        &&& self.planes_wf()
        &&& view_wf(self@)
    }

    /// A canvas of `width × height` transparent cells.
    pub fn new(width: usize, height: usize) -> (r: DrawingPixelCanvas)
        requires
            width * height <= max_bits(),
        ensures
            r.wf(),
            r@ == blank(width as nat, height as nat),
    {
        let r = DrawingPixelCanvas {
            r_array: BitMatrix::new(width, height, false),
            g_array: BitMatrix::new(width, height, false),
            b_array: BitMatrix::new(width, height, false),
            a_array: BitMatrix::new(width, height, false),
        };
        assert(r@.cells =~= blank(width as nat, height as nat).cells);
        r
    }

    /// The canvas size as `(width, height)`.
    pub fn dimension(&self) -> (r: (usize, usize))
        requires
            self.wf(),
        ensures
            r.0 == self@.width,
            r.1 == self@.height,
    {
        self.r_array.dimensions()
    }

    /// The two canvases have the same size and the same cells.
    pub fn equals(&self, other: &Self) -> (r: bool)
        requires
            self.wf(),
            other.wf(),
        ensures
            r == (self@ == other@),
    {
        let (w, h) = self.dimension();
        let (ow, oh) = other.dimension();
        if w != ow || h != oh {
            return false;
        }
        let res = self.r_array.same_bits(&other.r_array) && self.g_array.same_bits(&other.g_array)
            && self.b_array.same_bits(&other.b_array) && self.a_array.same_bits(&other.a_array);
        proof {
            if res {
                assert(self@.cells =~= other@.cells);
            }
            if self@ == other@ {
                assert forall|i: int| 0 <= i < self@.cells.len() implies self.r_array@.bits[i]
                    == other.r_array@.bits[i] && self.g_array@.bits[i] == other.g_array@.bits[i]
                    && self.b_array@.bits[i] == other.b_array@.bits[i] && self.a_array@.bits[i]
                    == other.a_array@.bits[i] by {
                    assert(self@.cells[i] == other@.cells[i]);
                }
                assert(self.r_array@.bits =~= other.r_array@.bits);
                assert(self.g_array@.bits =~= other.g_array@.bits);
                assert(self.b_array@.bits =~= other.b_array@.bits);
                assert(self.a_array@.bits =~= other.a_array@.bits);
            }
        }
        res
    }

    /// Paints `(x, y)` with `color`; a coordinate outside the grid is
    /// ignored.
    pub fn draw_pixel_ignore(&mut self, x: usize, y: usize, color: PixelColor)
        requires
            old(self).wf(),
        ensures
            final(self).wf(),
            final(self)@ == painted(old(self)@, x as int, y as int, color),
    {
        let _ = self.r_array.set(x, y, color.r);
        let _ = self.g_array.set(x, y, color.g);
        let _ = self.b_array.set(x, y, color.b);
        let _ = self.a_array.set(x, y, color.a);
        proof {
            let ghost pre = old(self)@;
            if in_grid(pre.width, pre.height, x as int, y as int) {
                lemma_index_fits(pre.width, pre.height, x as int, y as int);
                assert(self@.cells =~= pre.cells.update(
                    cell_index(pre.width, x as int, y as int),
                    color,
                ));
            } else {
                assert(self@.cells =~= pre.cells);
            }
        }
    }

    /// The colour at `(x, y)`; transparent outside the grid.
    pub fn get_pixel(&self, x: usize, y: usize) -> (r: PixelColor)
        requires
            self.wf(),
        ensures
            r == pixel_at(self@, x as int, y as int),
    {
        let r = match self.r_array.get(x, y) {
            Some(v) => v,
            None => false,
        };
        let g = match self.g_array.get(x, y) {
            Some(v) => v,
            None => false,
        };
        let b = match self.b_array.get(x, y) {
            Some(v) => v,
            None => false,
        };
        let a = match self.a_array.get(x, y) {
            Some(v) => v,
            None => false,
        };
        proof {
            if in_grid(self@.width, self@.height, x as int, y as int) {
                lemma_index_fits(self@.width, self@.height, x as int, y as int);
            }
        }
        PixelColor { r, g, b, a }
    }

    /// The colour at `(x, y)`, or `None` outside the grid.
    pub fn get_pixel_checked(&self, x: usize, y: usize) -> (r: Option<PixelColor>)
        requires
            self.wf(),
        ensures
            in_grid(self@.width, self@.height, x as int, y as int) ==> r == Some(
                pixel_at(self@, x as int, y as int),
            ),
            !in_grid(self@.width, self@.height, x as int, y as int) ==> r is None,
    {
        let r = self.r_array.get(x, y)?;
        let g = self.g_array.get(x, y)?;
        let b = self.b_array.get(x, y)?;
        let a = self.a_array.get(x, y)?;
        proof {
            lemma_index_fits(self@.width, self@.height, x as int, y as int);
        }
        Some(PixelColor { r, g, b, a })
    }

    /// Sets every cell transparent.
    pub fn clear(&mut self)
        requires
            old(self).wf(),
        ensures
            final(self).wf(),
            final(self)@ == blank(old(self)@.width, old(self)@.height),
    {
        self.r_array.clear();
        self.g_array.clear();
        self.b_array.clear();
        self.a_array.clear();
        assert(self@.cells =~= blank(self@.width, self@.height).cells);
    }

    /// A copy of the canvas.
    pub fn copy(&self) -> (r: DrawingPixelCanvas)
        requires
            self.wf(),
        ensures
            r.wf(),
            r@ == self@,
    {
        DrawingPixelCanvas {
            r_array: self.r_array.copy(),
            g_array: self.g_array.copy(),
            b_array: self.b_array.copy(),
            a_array: self.a_array.copy(),
        }
    }

    /// Merges `top_layer` down onto this canvas: an erase directive clears
    /// the cell, an opaque colour overwrites it, anything else leaves it.
    pub fn merge_top(&mut self, top_layer: &Self)
        requires
            old(self).wf(),
            top_layer.wf(),
            top_layer@.width == old(self)@.width,
            top_layer@.height == old(self)@.height,
        ensures
            final(self).wf(),
            final(self)@ == merged(old(self)@, top_layer@),
    {
        let (w, h) = self.dimension();
        let ghost pre = self@;
        let area = w * h;
        let mut i: usize = 0;
        while i < area
            invariant
                self.wf(),
                top_layer.wf(),
                pre.cells.len() == area,
                area == w * h,
                w == pre.width,
                h == pre.height,
                top_layer@.width == w,
                top_layer@.height == h,
                self@.width == w,
                self@.height == h,
                i <= area,
                forall|j: int|
                    0 <= j < area ==> #[trigger] self@.cells[j] == if j < i {
                        merge_cell(pre.cells[j], top_layer@.cells[j])
                    } else {
                        pre.cells[j]
                    },
            decreases area - i,
        {
            proof {
                lemma_cell_coords(w as nat, h as nat, i as int);
            }
            let x = i % w;
            let y = i / w;
            let top = top_layer.get_pixel(x, y);
            if top == PixelColor::erase() {
                self.draw_pixel_ignore(x, y, PixelColor::alpha());
            } else if top.a {
                self.draw_pixel_ignore(x, y, top);
            }
            i = i + 1;
        }
        assert(self@.cells =~= merged(pre, top_layer@).cells);
    }

    /// A new canvas: this one with `top_layer` merged down onto it.
    pub fn layer_overlay(&self, top_layer: &Self) -> (r: DrawingPixelCanvas)
        requires
            self.wf(),
            top_layer.wf(),
            top_layer@.width == self@.width,
            top_layer@.height == self@.height,
        ensures
            r.wf(),
            r@ == merged(self@, top_layer@),
    {
        let mut main = self.copy();
        main.merge_top(top_layer);
        main
    }
}

impl DrawingPixelCanvas {
    /// The wire form of the canvas: the packed red, green, blue and alpha
    /// planes, in that order.
    pub fn to_bytes(&self) -> (r: Vec<u8>)
        requires
            self.wf(),
        ensures
            encodes(r@, self@),
    {
        let mut out = self.r_array.to_bytes();
        let mut g = self.g_array.to_bytes();
        let mut b = self.b_array.to_bytes();
        let mut a = self.a_array.to_bytes();
        let ghost rs = out@;
        let ghost gs = g@;
        let ghost bs = b@;
        let ghost als = a@;
        out.append(&mut g);
        out.append(&mut b);
        out.append(&mut a);
        proof {
            let n = packed_len(self@.cells.len() as int);
            assert(red_plane(self@) =~= self.r_array@.bits);
            assert(green_plane(self@) =~= self.g_array@.bits);
            assert(blue_plane(self@) =~= self.b_array@.bits);
            assert(alpha_plane(self@) =~= self.a_array@.bits);
            assert(out@ == rs + gs + bs + als);
            assert(out@.subrange(0, n) =~= rs);
            assert(out@.subrange(n, 2 * n) =~= gs);
            assert(out@.subrange(2 * n, 3 * n) =~= bs);
            assert(out@.subrange(3 * n, 4 * n) =~= als);
        }
        out
    }

    /// Loads the canvas from the wire form at the front of `data` and
    /// returns what follows it. A buffer shorter than four packed planes is
    /// refused and the canvas is left as it was.
    pub fn assign_bytes<'a>(&mut self, data: &'a [u8]) -> (r: Result<&'a [u8], CanvasError>)
        requires
            old(self).wf(),
        ensures
            final(self).wf(),
            ({
                let n = packed_len(old(self)@.cells.len() as int);
                &&& 4 * n <= data@.len() ==> r is Ok && r.unwrap()@ == data@.subrange(
                    4 * n,
                    data@.len() as int,
                ) && final(self)@ == decoded(old(self)@.width, old(self)@.height, data@)
                &&& data@.len() < 4 * n ==> r == Err::<&'a [u8], CanvasError>(
                    CanvasError::InsufficientData,
                ) && final(self)@ == old(self)@
            }),
    {
        let ghost pre = self@;
        let need = self.a_array.required_bytes();
        if data.len() / 4 < need {
            return Err(CanvasError::InsufficientData);
        }
        let t1 = match self.r_array.from_bytes(data) {
            Ok(t) => t,
            Err(e) => return Err(e),
        };
        let t2 = match self.g_array.from_bytes(t1) {
            Ok(t) => t,
            Err(e) => return Err(e),
        };
        let t3 = match self.b_array.from_bytes(t2) {
            Ok(t) => t,
            Err(e) => return Err(e),
        };
        let t4 = match self.a_array.from_bytes(t3) {
            Ok(t) => t,
            Err(e) => return Err(e),
        };
        proof {
            let n = need as int;
            let d = decoded(pre.width, pre.height, data@);
            assert forall|i: int| 0 <= i < pre.cells.len() implies #[trigger] self@.cells[i]
                == d.cells[i] by {
                assert(bytes_bits(data@)[i] == byte_bit(data@[i / 8], i % 8));
                assert(bytes_bits(t1@)[i] == byte_bit(t1@[i / 8], i % 8));
                assert(bytes_bits(t2@)[i] == byte_bit(t2@[i / 8], i % 8));
                assert(bytes_bits(t3@)[i] == byte_bit(t3@[i / 8], i % 8));
                assert(t1@[i / 8] == data@[n + i / 8]);
                assert(t2@[i / 8] == data@[2 * n + i / 8]);
                assert(t3@[i / 8] == data@[3 * n + i / 8]);
            }
            assert(self@.cells =~= d.cells);
            assert(t4@ =~= data@.subrange(4 * n, data@.len() as int));
        }
        Ok(t4)
    }
}

/// The ASCII dump of a canvas: one line per row, `8` for an opaque cell
/// and a space for any other, each line ending in a newline.
pub open spec fn ascii_rows(v: CanvasView, rows: int) -> Seq<char>
    decreases rows,
{
    if rows <= 0 {
        Seq::empty()
    } else {
        ascii_rows(v, rows - 1) + ascii_row(v, rows - 1)
    }
}

pub open spec fn ascii_row(v: CanvasView, y: int) -> Seq<char> {
    Seq::new(v.width, |x: int| if pixel_at(v, x, y).a { '8' } else { ' ' }).push('\n')
}

/// Relies on `String::push`: appends one character.
#[verifier::external_body]
fn push_char(s: &mut String, c: char)
    ensures
        final(s)@ == old(s)@.push(c),
{
    s.push(c)
}

impl DrawingPixelCanvas {
    /// Every cell as `(x, y, colour)`, row by row.
    pub fn iter(&self) -> (r: Vec<(usize, usize, PixelColor)>)
        requires
            self.wf(),
        ensures
            r@.len() == self@.cells.len(),
            forall|i: int|
                0 <= i < r@.len() ==> (#[trigger] r@[i]).0 == i % (self@.width as int) && r@[i].1
                    == i / (self@.width as int) && r@[i].2 == self@.cells[i],
    {
        let (w, h) = self.dimension();
        let area = w * h;
        let mut out: Vec<(usize, usize, PixelColor)> = Vec::new();
        let mut i: usize = 0;
        while i < area
            invariant
                self.wf(),
                area == w * h,
                w == self@.width,
                h == self@.height,
                i <= area,
                out@.len() == i,
                forall|j: int|
                    0 <= j < i ==> (#[trigger] out@[j]).0 == j % (w as int) && out@[j].1 == j / (
                    w as int) && out@[j].2 == self@.cells[j],
            decreases area - i,
        {
            proof {
                lemma_cell_coords(w as nat, h as nat, i as int);
            }
            out.push((i % w, i / w, self.get_pixel(i % w, i / w)));
            i = i + 1;
        }
        out
    }

    /// No cell is opaque.
    pub fn is_transpernet_debug(&self) -> (r: bool)
        requires
            self.wf(),
        ensures
            r == (forall|i: int| 0 <= i < self@.cells.len() ==> !(#[trigger] self@.cells[i]).a),
    {
        let n = self.a_array.count_ones();
        proof {
            lemma_count_zero_iff(self.a_array@.bits);
            assert forall|i: int| 0 <= i < self@.cells.len() implies self@.cells[i].a
                == self.a_array@.bits[i] by {}
        }
        n == 0
    }

    /// The first opaque cell in row-major order, if any.
    pub fn non_transperent_value(&self) -> (r: Option<(usize, usize)>)
        requires
            self.wf(),
        ensures
            r is None ==> forall|i: int| 0 <= i < self@.cells.len() ==> !(#[trigger] self@.cells[i]).a,
            r matches Some(p) ==> in_grid(self@.width, self@.height, p.0 as int, p.1 as int)
                && pixel_at(self@, p.0 as int, p.1 as int).a && forall|j: int|
                0 <= j < cell_index(self@.width, p.0 as int, p.1 as int) ==> !(
                #[trigger] self@.cells[j]).a,
    {
        let (w, h) = self.dimension();
        let area = w * h;
        let mut i: usize = 0;
        while i < area
            invariant
                self.wf(),
                area == w * h,
                w == self@.width,
                h == self@.height,
                i <= area,
                forall|j: int| 0 <= j < i ==> !(#[trigger] self@.cells[j]).a,
            decreases area - i,
        {
            proof {
                lemma_cell_coords(w as nat, h as nat, i as int);
            }
            if self.get_pixel(i % w, i / w).a {
                return Some((i % w, i / w));
            }
            i = i + 1;
        }
        None
    }

    /// The first cell of colour `color` in row-major order, if any.
    pub fn search_color(&self, color: PixelColor) -> (r: Option<(usize, usize)>)
        requires
            self.wf(),
        ensures
            r is None ==> forall|i: int| 0 <= i < self@.cells.len() ==> #[trigger] self@.cells[i] != color,
            r matches Some(p) ==> in_grid(self@.width, self@.height, p.0 as int, p.1 as int)
                && pixel_at(self@, p.0 as int, p.1 as int) == color && forall|j: int|
                0 <= j < cell_index(self@.width, p.0 as int, p.1 as int) ==> #[trigger] self@.cells[j]
                != color,
    {
        let (w, h) = self.dimension();
        let area = w * h;
        let mut i: usize = 0;
        while i < area
            invariant
                self.wf(),
                area == w * h,
                w == self@.width,
                h == self@.height,
                i <= area,
                forall|j: int| 0 <= j < i ==> #[trigger] self@.cells[j] != color,
            decreases area - i,
        {
            proof {
                lemma_cell_coords(w as nat, h as nat, i as int);
            }
            if self.get_pixel(i % w, i / w) == color {
                return Some((i % w, i / w));
            }
            i = i + 1;
        }
        None
    }

    /// An ASCII dump for debugging: `8` for an opaque cell, a space for any
    /// other, one line per row.
    pub fn to_ascii(&self) -> (r: String)
        requires
            self.wf(),
        ensures
            r@ == ascii_rows(self@, self@.height as int),
    {
        let (w, h) = self.dimension();
        let mut out = String::new();
        let mut y: usize = 0;
        while y < h
            invariant
                self.wf(),
                w == self@.width,
                h == self@.height,
                y <= h,
                out@ == ascii_rows(self@, y as int),
            decreases h - y,
        {
            let ghost before = out@;
            let mut x: usize = 0;
            while x < w
                invariant
                    self.wf(),
                    w == self@.width,
                    h == self@.height,
                    y < h,
                    x <= w,
                    out@ == before + Seq::new(x as nat, |k: int| if pixel_at(self@, k, y as int).a {
                        '8'
                    } else {
                        ' '
                    }),
                decreases w - x,
            {
                let c = if self.get_pixel(x, y).is_transperent() {
                    ' '
                } else {
                    '8'
                };
                let ghost prev = out@;
                push_char(&mut out, c);
                assert(out@ =~= before + Seq::new((x + 1) as nat, |k: int| if pixel_at(self@, k, y as int).a {
                    '8'
                } else {
                    ' '
                }));
                x = x + 1;
            }
            push_char(&mut out, '\n');
            assert(out@ =~= ascii_rows(self@, y as int + 1));
            y = y + 1;
        }
        out
    }

    /// The opacity plane.
    pub fn get_alpha(&self) -> (r: &BitMatrix)
        requires
            self.wf(),
        ensures
            r.wf(),
            r@.width == self@.width,
            r@.height == self@.height,
            r@.bits == Seq::new(self@.cells.len(), |i: int| self@.cells[i].a),
    {
        proof {
            assert(self.a_array@.bits =~= Seq::new(self@.cells.len(), |i: int| self@.cells[i].a));
        }
        &self.a_array
    }
}

proof fn lemma_count_zero_iff(s: Seq<bool>)
    ensures
        (crate::bitplane::count_true(s) == 0) == (forall|i: int| 0 <= i < s.len() ==> !s[i]),
    decreases s.len(),
{
    if s.len() > 0 {
        lemma_count_zero_iff(s.drop_last());
        if crate::bitplane::count_true(s) == 0 {
            assert forall|i: int| 0 <= i < s.len() implies !s[i] by {
                if i < s.len() - 1 {
                    assert(s[i] == s.drop_last()[i]);
                }
            }
        } else if forall|i: int| 0 <= i < s.len() ==> !s[i] {
            assert forall|i: int| 0 <= i < s.drop_last().len() implies !s.drop_last()[i] by {
                assert(s[i] == s.drop_last()[i]);
            }
        }
    }
}

proof fn lemma_index_fits(width: nat, height: nat, x: int, y: int)
    requires
        in_grid(width, height, x, y),
    ensures
        0 <= cell_index(width, x, y) < width * height,
{
    crate::bitplane::lemma_index_in_grid(width, height, x, y);
}

} // verus!
