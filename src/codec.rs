use crate::bitplane::{byte_bit, packed_len, packs};
use crate::color::PixelColor;
use crate::drawing::{view_wf, CanvasView, DrawingPixelCanvas};
use crate::error::CanvasError;
use vstd::prelude::*;

verus! {

/// The planes of a canvas, one per colour field.
pub open spec fn red_plane(v: CanvasView) -> Seq<bool> {
    Seq::new(v.cells.len(), |i: int| v.cells[i].r)
}

pub open spec fn green_plane(v: CanvasView) -> Seq<bool> {
    Seq::new(v.cells.len(), |i: int| v.cells[i].g)
}

pub open spec fn blue_plane(v: CanvasView) -> Seq<bool> {
    Seq::new(v.cells.len(), |i: int| v.cells[i].b)
}

pub open spec fn alpha_plane(v: CanvasView) -> Seq<bool> {
    Seq::new(v.cells.len(), |i: int| v.cells[i].a)
}

/// `bytes` is the wire form of `v`: its red, green, blue and alpha planes,
/// each packed into `packed_len(width × height)` bytes, in that order.
pub open spec fn encodes(bytes: Seq<u8>, v: CanvasView) -> bool {
    let n = packed_len(v.cells.len() as int);
    &&& bytes.len() == 4 * n
    &&& packs(bytes.subrange(0, n), red_plane(v))
    &&& packs(bytes.subrange(n, 2 * n), green_plane(v))
    &&& packs(bytes.subrange(2 * n, 3 * n), blue_plane(v))
    &&& packs(bytes.subrange(3 * n, 4 * n), alpha_plane(v))
}

/// The canvas of the given size that the front of `bytes` describes: cell
/// `i` takes bit `i` of each of the four consecutive packed planes.
pub open spec fn decoded(width: nat, height: nat, bytes: Seq<u8>) -> CanvasView {
    let n = packed_len((width * height) as int);
    CanvasView {
        width,
        height,
        cells: Seq::new(
            width * height,
            |i: int|
                PixelColor {
                    r: byte_bit(bytes[i / 8], i % 8),
                    g: byte_bit(bytes[n + i / 8], i % 8),
                    b: byte_bit(bytes[2 * n + i / 8], i % 8),
                    a: byte_bit(bytes[3 * n + i / 8], i % 8),
                },
        ),
    }
}

/// Decoding the wire form of a canvas gives the canvas back.
pub proof fn lemma_round_trip(v: CanvasView, bytes: Seq<u8>)
    requires
        view_wf(v),
        encodes(bytes, v),
    ensures
        decoded(v.width, v.height, bytes) == v,
{
    let area = v.cells.len() as int;
    let n = packed_len(area);
    let d = decoded(v.width, v.height, bytes);
    assert forall|i: int| 0 <= i < area implies #[trigger] d.cells[i] == v.cells[i] by {
        let j = i / 8;
        let k = i % 8;
        assert(j * 8 + k == i);
        assert(0 <= j < n);
        let s0 = bytes.subrange(0, n);
        let s1 = bytes.subrange(n, 2 * n);
        let s2 = bytes.subrange(2 * n, 3 * n);
        let s3 = bytes.subrange(3 * n, 4 * n);
        assert(s0[j] == bytes[j]);
        assert(s1[j] == bytes[n + j]);
        assert(s2[j] == bytes[2 * n + j]);
        assert(s3[j] == bytes[3 * n + j]);
        assert(byte_bit(s0[j], k) == red_plane(v)[i]);
        assert(byte_bit(s1[j], k) == green_plane(v)[i]);
        assert(byte_bit(s2[j], k) == blue_plane(v)[i]);
        assert(byte_bit(s3[j], k) == alpha_plane(v)[i]);
    }
    assert(d.cells =~= v.cells);
}

} // verus!
