use crate::bitplane::bytes_bits;
use crate::raster::{line_cells, line_points};
use vstd::prelude::*;

verus! {

/// A drawing message of nine bytes: type, two end points, colour, padding.
#[derive(Clone, Copy, Debug)]
pub struct DrawEvent {
    /// 0 = draw a line, 1 = request a full sync, 2 = clear the canvas.
    pub msg_type: u8,
    pub x0: u8,
    pub y0: u8,
    pub x1: u8,
    pub y1: u8,
    /// 1 = black, 0 = white / erase.
    pub is_black: u8,
    pub _padding: [u8; 3],
}

/// The nine bytes of a message, fields in declaration order.
pub open spec fn event_bytes(e: DrawEvent) -> Seq<u8> {
    seq![e.msg_type, e.x0, e.y0, e.x1, e.y1, e.is_black, e._padding@[0], e._padding@[1], e._padding@[2]]
}

/// A message with every field but the ones given zero.
pub open spec fn event_of(msg_type: u8, x0: u8, y0: u8, x1: u8, y1: u8, is_black: u8) -> Seq<u8> {
    seq![msg_type, x0, y0, x1, y1, is_black, 0u8, 0u8, 0u8]
}

impl DrawEvent {
    /// A line message; each coordinate keeps its low eight bits.
    pub fn draw_line(x0: usize, y0: usize, x1: usize, y1: usize, is_black: bool) -> (r: DrawEvent)
        ensures
            event_bytes(r) == event_of(
                0,
                (x0 % 256) as u8,
                (y0 % 256) as u8,
                (x1 % 256) as u8,
                (y1 % 256) as u8,
                if is_black {
                    1
                } else {
                    0
                },
            ),
    {
        DrawEvent {
            msg_type: 0,
            x0: (x0 % 256) as u8,
            y0: (y0 % 256) as u8,
            x1: (x1 % 256) as u8,
            y1: (y1 % 256) as u8,
            is_black: if is_black {
                1
            } else {
                0
            },
            _padding: [0u8; 3],
        }
    }

    /// A request for the full canvas.
    pub fn full_sync_request() -> (r: DrawEvent)
        ensures
            event_bytes(r) == event_of(1, 0, 0, 0, 0, 0),
    {
        DrawEvent { msg_type: 1, x0: 0, y0: 0, x1: 0, y1: 0, is_black: 0, _padding: [0u8; 3] }
    }

    /// A request to clear the canvas.
    pub fn clear_canvas() -> (r: DrawEvent)
        ensures
            event_bytes(r) == event_of(2, 0, 0, 0, 0, 0),
    {
        DrawEvent { msg_type: 2, x0: 0, y0: 0, x1: 0, y1: 0, is_black: 0, _padding: [0u8; 3] }
    }

    /// The nine bytes of the message.
    pub fn to_bytes(&self) -> (r: [u8; 9])
        ensures
            r@ == event_bytes(*self),
    {
        let r = [
            self.msg_type,
            self.x0,
            self.y0,
            self.x1,
            self.y1,
            self.is_black,
            self._padding[0],
            self._padding[1],
            self._padding[2],
        ];
        assert(r@ =~= event_bytes(*self));
        r
    }

    /// The message that nine bytes hold.
    pub fn from_bytes(bytes: &[u8; 9]) -> (r: DrawEvent)
        ensures
            event_bytes(r) == bytes@,
    {
        let r = DrawEvent {
            msg_type: bytes[0],
            x0: bytes[1],
            y0: bytes[2],
            x1: bytes[3],
            y1: bytes[4],
            is_black: bytes[5],
            _padding: [bytes[6], bytes[7], bytes[8]],
        };
        assert(event_bytes(r) =~= bytes@);
        r
    }
}

/// The full 100 × 100 canvas for an initial sync, one bit per cell,
/// row-major, least-significant bit first.
pub struct CanvasState {
    pub data: [u8; 1250],
}

/// The bit index of `(x, y)` on the 100 × 100 grid.
pub open spec fn state_index(x: int, y: int) -> int {
    y * 100 + x
}

pub open spec fn on_state_grid(x: int, y: int) -> bool {
    0 <= x < 100 && 0 <= y < 100
}

/// The grid bits with `(x, y)` set to `b`; unchanged off the grid.
pub open spec fn state_painted(bits: Seq<bool>, x: int, y: int, b: bool) -> Seq<bool> {
    if on_state_grid(x, y) {
        bits.update(state_index(x, y), b)
    } else {
        bits
    }
}

/// The grid bits with every point of `pts` set to `b`, in order.
pub open spec fn state_painted_all(bits: Seq<bool>, pts: Seq<(int, int)>, b: bool) -> Seq<bool>
    decreases pts.len(),
{
    if pts.len() == 0 {
        bits
    } else {
        state_painted(state_painted_all(bits, pts.drop_last(), b), pts.last().0, pts.last().1, b)
    }
}

proof fn lemma_set_bit(v: u8, o: u8, k: u8)
    requires
        o < 8,
        k < 8,
    ensures
        ((v | (1u8 << o)) >> k) & 1u8 == 1u8 <==> (k == o || (v >> k) & 1u8 == 1u8),
        ((v & !(1u8 << o)) >> k) & 1u8 == 1u8 <==> (k != o && (v >> k) & 1u8 == 1u8),
        (v & (1u8 << o) != 0u8) <==> (v >> o) & 1u8 == 1u8,
{
    assert(((v | (1u8 << o)) >> k) & 1u8 == 1u8 <==> (k == o || (v >> k) & 1u8 == 1u8))
        by (bit_vector)
        requires
            o < 8,
            k < 8,
    ;
    assert(((v & !(1u8 << o)) >> k) & 1u8 == 1u8 <==> (k != o && (v >> k) & 1u8 == 1u8))
        by (bit_vector)
        requires
            o < 8,
            k < 8,
    ;
    assert((v & (1u8 << o) != 0u8) <==> (v >> o) & 1u8 == 1u8) by (bit_vector)
        requires
            o < 8,
    ;
}

impl CanvasState {
    /// An empty canvas: every bit clear.
    pub fn new() -> (r: CanvasState)
        ensures
            r.data@ == Seq::new(1250, |_i: int| 0u8),
    {
        let r = CanvasState { data: [0u8; 1250] };
        assert(r.data@ =~= Seq::new(1250, |_i: int| 0u8));
        r
    }

    /// Sets the bit of `(x, y)`; a coordinate off the grid is ignored.
    pub fn set_pixel(&mut self, x: usize, y: usize, is_black: bool)
        ensures
            on_state_grid(x as int, y as int) ==> bytes_bits(final(self).data@) == bytes_bits(
                old(self).data@,
            ).update(state_index(x as int, y as int), is_black),
            !on_state_grid(x as int, y as int) ==> final(self).data@ == old(self).data@,
    {
        if x >= 100 || y >= 100 {
            return;
        }
        let bit_index = y * 100 + x;
        let byte_index = bit_index / 8;
        let bit_offset = (bit_index % 8) as u8;
        let ghost pre = self.data@;
        let v = self.data[byte_index];
        if is_black {
            self.data[byte_index] = v | (1u8 << bit_offset);
        } else {
            self.data[byte_index] = v & !(1u8 << bit_offset);
        }
        proof {
            let post = self.data@;
            assert(post == pre.update(byte_index as int, post[byte_index as int]));
            assert forall|i: int| 0 <= i < 10000 implies #[trigger] bytes_bits(post)[i]
                == bytes_bits(pre).update(bit_index as int, is_black)[i] by {
                let j = i / 8;
                let k = i % 8;
                lemma_set_bit(v, bit_offset, k as u8);
                if j == byte_index as int {
                    assert(i == bit_index as int <==> k == bit_offset as int);
                }
            }
            assert(bytes_bits(post) =~= bytes_bits(pre).update(bit_index as int, is_black));
        }
    }

    /// The bit of `(x, y)`; false off the grid.
    pub fn get_pixel(&self, x: usize, y: usize) -> (r: bool)
        ensures
            r == (on_state_grid(x as int, y as int) && bytes_bits(self.data@)[state_index(
                x as int,
                y as int,
            )]),
    {
        if x >= 100 || y >= 100 {
            return false;
        }
        let bit_index = y * 100 + x;
        let byte_index = bit_index / 8;
        let bit_offset = (bit_index % 8) as u8;
        proof {
            lemma_set_bit(self.data@[byte_index as int], bit_offset, 0);
        }
        (self.data[byte_index] & (1u8 << bit_offset)) != 0
    }

    /// Clears every bit.
    pub fn clear(&mut self)
        ensures
            final(self).data@ == Seq::new(1250, |_i: int| 0u8),
    {
        self.data = [0u8; 1250];
        assert(self.data@ =~= Seq::new(1250, |_i: int| 0u8));
    }

    /// The raw bytes.
    pub fn to_bytes(&self) -> (r: &[u8; 1250])
        ensures
            r@ == self.data@,
    {
        &self.data
    }

    /// A canvas holding the given bytes.
    pub fn from_bytes(bytes: &[u8; 1250]) -> (r: CanvasState)
        ensures
            r.data@ == bytes@,
    {
        CanvasState { data: *bytes }
    }

    /// Draws the integer line from `(x0, y0)` to `(x1, y1)`, setting each
    /// of its cells on the grid to `is_black`.
    pub fn draw_line_on_canvas(&mut self, x0: usize, y0: usize, x1: usize, y1: usize, is_black: bool)
        ensures
            bytes_bits(final(self).data@) == state_painted_all(
                bytes_bits(old(self).data@),
                line_points(x0 as int, y0 as int, x1 as int, y1 as int),
                is_black,
            ),
    {
        let ghost pre = bytes_bits(self.data@);
        let ghost full = line_points(x0 as int, y0 as int, x1 as int, y1 as int);
        let cells = line_cells(x0, y0, x1, y1);
        let mut k: usize = 0;
        assert(full.subrange(0, 0) =~= Seq::<(int, int)>::empty());
        while k < cells.len()
            invariant
                cells@.len() == full.len(),
                forall|j: int|
                    0 <= j < cells@.len() ==> ((#[trigger] cells@[j]).0 as int, cells@[j].1 as int)
                        == full[j],
                k <= cells@.len(),
                bytes_bits(self.data@) == state_painted_all(pre, full.subrange(0, k as int), is_black),
            decreases cells@.len() - k,
        {
            let (x, y) = cells[k];
            self.set_pixel(x, y, is_black);
            proof {
                let sub = full.subrange(0, k as int + 1);
                assert(sub.drop_last() =~= full.subrange(0, k as int));
                assert(sub.last() == full[k as int]);
            }
            k = k + 1;
        }
        assert(full.subrange(0, k as int) =~= full);
    }

    /// Applies a message: a line message draws its line, a clear message
    /// clears the grid, any other message changes nothing.
    pub fn apply_draw_event(&mut self, event: &DrawEvent)
        ensures
            event.msg_type == 0 ==> bytes_bits(final(self).data@) == state_painted_all(
                bytes_bits(old(self).data@),
                line_points(event.x0 as int, event.y0 as int, event.x1 as int, event.y1 as int),
                event.is_black == 1,
            ),
            event.msg_type == 2 ==> final(self).data@ == Seq::new(1250, |_i: int| 0u8),
            event.msg_type != 0 && event.msg_type != 2 ==> final(self).data@ == old(self).data@,
    {
        if event.msg_type == 0 {
            self.draw_line_on_canvas(
                event.x0 as usize,
                event.y0 as usize,
                event.x1 as usize,
                event.y1 as usize,
                event.is_black == 1,
            );
        } else if event.msg_type == 2 {
            self.clear();
        }
    }
}

} // verus!
