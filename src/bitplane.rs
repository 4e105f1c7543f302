use crate::error::CanvasError;
use bitvec::order::Lsb0;
use bitvec::vec::BitVec;
use vstd::prelude::*;

verus! {

/// A packed, growable sequence of bits, stored least-significant bit first
/// in bytes. The storage is a `bitvec` bit vector that Verus does not see
/// into; what it holds is `bits_of`.
#[verifier::external_body]
pub struct PackedBits {
    inner: BitVec<u8, Lsb0>,
}

/// The bits that a packed bit vector holds, in index order.
pub uninterp spec fn bits_of(v: PackedBits) -> Seq<bool>;

/// The largest number of bits a bit vector can address.
pub open spec fn max_bits() -> int {
    usize::MAX as int / 8
}

/// Bit `k` (0 = least significant) of byte `b`.
pub open spec fn byte_bit(b: u8, k: int) -> bool {
    (b >> (k as u8)) & 1u8 == 1u8
}

/// The bits of a byte sequence, least-significant bit of each byte first.
pub open spec fn bytes_bits(bytes: Seq<u8>) -> Seq<bool> {
    Seq::new((bytes.len() * 8) as nat, |i: int| byte_bit(bytes[i / 8], i % 8))
}

/// The number of bytes that hold `n` packed bits.
pub open spec fn packed_len(n: int) -> int {
    (n + 7) / 8
}

/// `bytes` is the canonical packing of `bits`: each bit at its place, least
/// significant first, and the padding bits of the last byte zero.
pub open spec fn packs(bytes: Seq<u8>, bits: Seq<bool>) -> bool {
    &&& bytes.len() == packed_len(bits.len() as int)
    &&& forall|j: int, k: int|
        0 <= j < bytes.len() && 0 <= k < 8 ==> #[trigger] byte_bit(bytes[j], k) == (j * 8 + k
            < bits.len() && bits[j * 8 + k])
}

/// The number of set bits in `s`.
pub open spec fn count_true(s: Seq<bool>) -> nat
    decreases s.len(),
{
    if s.len() == 0 {
        0
    } else {
        count_true(s.drop_last()) + if s.last() {
            1nat
        } else {
            0nat
        }
    }
}

impl PackedBits {
    /// Relies on `BitVec::repeat`: a vector of `len` copies of `bit`; it
    /// panics beyond `BitSlice::MAX_BITS`, that is `usize::MAX >> 3`.
    #[verifier::external_body]
    fn repeat(bit: bool, len: usize) -> (r: PackedBits)
        requires
            len <= max_bits(),
        ensures
            bits_of(r) == Seq::new(len as nat, |_i: int| bit),
    {
        PackedBits { inner: BitVec::repeat(bit, len) }
    }

    /// Relies on `BitSlice::len`: the number of live bits.
    #[verifier::external_body]
    fn len(&self) -> (r: usize)
        ensures
            r == bits_of(*self).len(),
    {
        self.inner.len()
    }

    /// Relies on `BitSlice`'s `Index<usize>`: the bit at `i`.
    #[verifier::external_body]
    fn get(&self, i: usize) -> (r: bool)
        requires
            i < bits_of(*self).len(),
        ensures
            r == bits_of(*self)[i as int],
    {
        self.inner[i]
    }

    /// Relies on `BitSlice::set`: writes the bit at `i` (it panics when `i`
    /// is out of bounds).
    #[verifier::external_body]
    fn set(&mut self, i: usize, value: bool)
        requires
            i < bits_of(*old(self)).len(),
        ensures
            bits_of(*final(self)) == bits_of(*old(self)).update(i as int, value),
    {
        self.inner.set(i, value)
    }

    /// Relies on `BitSlice::fill`: every live bit becomes `value`.
    #[verifier::external_body]
    fn fill(&mut self, value: bool)
        ensures
            bits_of(*final(self)) == Seq::new(bits_of(*old(self)).len(), |_i: int| value),
    {
        self.inner.fill(value)
    }

    /// Relies on `BitSlice::count_ones`: the number of live bits that are set.
    #[verifier::external_body]
    fn count_ones(&self) -> (r: usize)
        ensures
            r == count_true(bits_of(*self)),
    {
        self.inner.count_ones()
    }

    /// Relies on `BitSlice::eq`: two bit slices are equal when they have the
    /// same length and the same bits.
    #[verifier::external_body]
    fn same_bits(&self, other: &PackedBits) -> (r: bool)
        ensures
            r == (bits_of(*self) == bits_of(*other)),
    {
        self.inner.as_bitslice() == other.inner.as_bitslice()
    }

    /// Relies on `BitVec::clone`: a copy with the same bits.
    #[verifier::external_body]
    fn copy(&self) -> (r: PackedBits)
        ensures
            bits_of(r) == bits_of(*self),
    {
        PackedBits { inner: self.inner.clone() }
    }

    /// Relies on `BitSlice`'s `BitXorAssign`: each bit becomes the exclusive
    /// or of itself and the bit of `other` at the same index.
    #[verifier::external_body]
    fn xor_with(&mut self, other: &PackedBits)
        requires
            bits_of(*other).len() == bits_of(*old(self)).len(),
        ensures
            bits_of(*final(self)) == Seq::new(
                bits_of(*old(self)).len(),
                |i: int| bits_of(*old(self))[i] != bits_of(*other)[i],
            ),
    {
        self.inner ^= other.inner.as_bitslice();
    }

    /// Relies on `BitSlice`'s `BitAndAssign`: each bit becomes the and of
    /// itself and the bit of `other` at the same index.
    #[verifier::external_body]
    fn and_with(&mut self, other: &PackedBits)
        requires
            bits_of(*other).len() == bits_of(*old(self)).len(),
        ensures
            bits_of(*final(self)) == Seq::new(
                bits_of(*old(self)).len(),
                |i: int| bits_of(*old(self))[i] && bits_of(*other)[i],
            ),
    {
        self.inner &= other.inner.as_bitslice();
    }

    /// Relies on `BitVec::truncate`: keeps the first `n` bits.
    #[verifier::external_body]
    fn truncate(&mut self, n: usize)
        requires
            n <= bits_of(*old(self)).len(),
        ensures
            bits_of(*final(self)) == bits_of(*old(self)).subrange(0, n as int),
    {
        self.inner.truncate(n)
    }

    /// Relies on `BitVec::from_slice`: every bit of `bytes`, least
    /// significant first; it panics unless `bytes.len() < BitSlice::MAX_ELTS`.
    #[verifier::external_body]
    fn from_bytes(bytes: &[u8]) -> (r: PackedBits)
        requires
            bytes@.len() * 8 <= max_bits() + 7,
        ensures
            bits_of(r) == bytes_bits(bytes@),
    {
        PackedBits { inner: BitVec::from_slice(bytes) }
    }

    /// Relies on `BitVec::as_raw_slice`: the bytes under the live bits, one
    /// for each started group of eight; the bits past the end are not fixed.
    #[verifier::external_body]
    fn raw_bytes(&self) -> (r: Vec<u8>)
        ensures
            r@.len() == packed_len(bits_of(*self).len() as int),
            forall|j: int, k: int|
                0 <= j < r@.len() && 0 <= k < 8 && j * 8 + k < bits_of(*self).len()
                    ==> #[trigger] byte_bit(r@[j], k) == bits_of(*self)[j * 8 + k],
    {
        self.inner.as_raw_slice().to_vec()
    }
}

/// The mathematical content of a plane.
pub struct PlaneView {
    pub width: nat,
    pub height: nat,
    pub bits: Seq<bool>,
}

/// A fixed-size `width × height` grid of booleans, packed row-major
/// (`index = y * width + x`).
pub struct BitMatrix {
    width: usize,
    height: usize,
    data: PackedBits,
}

impl View for BitMatrix {
    type V = PlaneView;

    closed spec fn view(&self) -> PlaneView {
        PlaneView { width: self.width as nat, height: self.height as nat, bits: bits_of(self.data) }
    }
}

/// Row-major index of `(x, y)` in a grid `width` wide.
pub open spec fn cell_index(width: nat, x: int, y: int) -> int {
    y * width + x
}

/// `(x, y)` lies inside a `width × height` grid.
pub open spec fn in_grid(width: nat, height: nat, x: int, y: int) -> bool {
    0 <= x < width && 0 <= y < height
}

/// The index of a cell inside the grid is a valid position in the plane.
pub proof fn lemma_index_in_grid(width: nat, height: nat, x: int, y: int)
    requires
        in_grid(width, height, x, y),
    ensures
        0 <= cell_index(width, x, y) < width * height,
{
    assert(0 <= y * width + x < width * height) by (nonlinear_arith)
        requires
            0 <= x < width,
            0 <= y < height,
    ;
}

impl BitMatrix {
    /// The plane is consistent: its bits fill the grid exactly.
    pub open spec fn wf(&self) -> bool {
        &&& self@.bits.len() == self@.width * self@.height
        &&& self@.width * self@.height <= max_bits()
    }

    /// The value at `(x, y)`, for a cell inside the grid.
    pub open spec fn at(&self, x: int, y: int) -> bool {
        self@.bits[cell_index(self@.width, x, y)]
    }

    /// A plane of `width × height` bits, all `initial`.
    pub fn new(width: usize, height: usize, initial: bool) -> (r: BitMatrix)
        requires
            width * height <= max_bits(),
        ensures
            r.wf(),
            r@.width == width,
            r@.height == height,
            r@.bits == Seq::new((width * height) as nat, |_i: int| initial),
    {
        BitMatrix { width, height, data: PackedBits::repeat(initial, width * height) }
    }

    pub fn dimensions(&self) -> (r: (usize, usize))
        ensures
            r == (self@.width as usize, self@.height as usize),
            r.0 == self@.width,
            r.1 == self@.height,
    {
        (self.width, self.height)
    }

    fn idx(&self, x: usize, y: usize) -> (r: Option<usize>)
        requires
            self.wf(),
        ensures
            in_grid(self@.width, self@.height, x as int, y as int) ==> r is Some && r.unwrap()
                == cell_index(self@.width, x as int, y as int),
            !in_grid(self@.width, self@.height, x as int, y as int) ==> r is None,
            r matches Some(i) ==> i < self@.bits.len(),
    {
        if x < self.width && y < self.height {
            proof {
                lemma_index_in_grid(self@.width, self@.height, x as int, y as int);
            }
            Some(y * self.width + x)
        } else {
            None
        }
    }

    /// The value at `(x, y)`, or `None` outside the grid.
    pub fn get(&self, x: usize, y: usize) -> (r: Option<bool>)
        requires
            self.wf(),
        ensures
            in_grid(self@.width, self@.height, x as int, y as int) ==> r == Some(
                self.at(x as int, y as int),
            ),
            !in_grid(self@.width, self@.height, x as int, y as int) ==> r is None,
    {
        match self.idx(x, y) {
            Some(i) => Some(self.data.get(i)),
            None => None,
        }
    }

    /// Writes the value at `(x, y)`; a coordinate outside the grid is
    /// reported, and nothing changes.
    pub fn set(&mut self, x: usize, y: usize, value: bool) -> (r: Result<(), CanvasError>)
        requires
            old(self).wf(),
        ensures
            final(self).wf(),
            final(self)@.width == old(self)@.width,
            final(self)@.height == old(self)@.height,
            in_grid(old(self)@.width, old(self)@.height, x as int, y as int) ==> r is Ok
                && final(self)@.bits == old(self)@.bits.update(
                cell_index(old(self)@.width, x as int, y as int),
                value,
            ),
            !in_grid(old(self)@.width, old(self)@.height, x as int, y as int) ==> r == Err::<
                (),
                CanvasError,
            >(CanvasError::OutOfRange) && final(self)@ == old(self)@,
    {
        match self.idx(x, y) {
            Some(i) => {
                self.data.set(i, value);
                Ok(())
            },
            None => Err(CanvasError::OutOfRange),
        }
    }

    /// Replaces the plane's bits by the first `width × height` bits of
    /// `bits`; a shorter sequence is refused and nothing changes.
    pub fn assign_bits(&mut self, bits: PackedBits) -> (r: Result<(), CanvasError>)
        requires
            old(self).wf(),
        ensures
            final(self).wf(),
            final(self)@.width == old(self)@.width,
            final(self)@.height == old(self)@.height,
            old(self)@.bits.len() <= bits_of(bits).len() ==> r is Ok && final(self)@.bits
                == bits_of(bits).subrange(0, old(self)@.bits.len() as int),
            old(self)@.bits.len() > bits_of(bits).len() ==> r == Err::<(), CanvasError>(
                CanvasError::DimensionMismatch,
            ) && final(self)@ == old(self)@,
    {
        let mut bits = bits;
        let area = self.data.len();
        if area <= bits.len() {
            bits.truncate(area);
            self.data = bits;
            Ok(())
        } else {
            Err(CanvasError::DimensionMismatch)
        }
    }

    /// Sets every bit.
    pub fn set_to_one(&mut self)
        requires
            old(self).wf(),
        ensures
            final(self).wf(),
            final(self)@.width == old(self)@.width,
            final(self)@.height == old(self)@.height,
            final(self)@.bits == Seq::new(old(self)@.bits.len(), |_i: int| true),
    {
        self.data.fill(true);
    }

    /// Clears every bit.
    pub fn clear(&mut self)
        requires
            old(self).wf(),
        ensures
            final(self).wf(),
            final(self)@.width == old(self)@.width,
            final(self)@.height == old(self)@.height,
            final(self)@.bits == Seq::new(old(self)@.bits.len(), |_i: int| false),
    {
        self.data.fill(false);
    }

    /// The number of set bits.
    pub fn count_ones(&self) -> (r: usize)
        ensures
            r == count_true(self@.bits),
    {
        self.data.count_ones()
    }

    fn area(&self) -> (r: usize)
        requires
            self.wf(),
        ensures
            r == self@.width * self@.height,
    {
        self.data.len()
    }

    /// The number of bytes that hold the packed plane.
    pub fn required_bytes(&self) -> (r: usize)
        requires
            self.wf(),
        ensures
            r == packed_len((self@.width * self@.height) as int),
    {
        let area = self.area();
        area / 8 + if area % 8 == 0 {
            0
        } else {
            1
        }
    }

    /// Loads the plane from the front of `bytes` and returns what follows
    /// its packed length; a buffer that is too short is refused and nothing
    /// changes.
    pub fn from_bytes<'a>(&mut self, bytes: &'a [u8]) -> (r: Result<&'a [u8], CanvasError>)
        requires
            old(self).wf(),
        ensures
            final(self).wf(),
            final(self)@.width == old(self)@.width,
            final(self)@.height == old(self)@.height,
            ({
                let need = packed_len(old(self)@.bits.len() as int);
                &&& need <= bytes@.len() ==> r is Ok && r.unwrap()@ == bytes@.subrange(
                    need,
                    bytes@.len() as int,
                ) && final(self)@.bits == bytes_bits(bytes@).subrange(
                    0,
                    old(self)@.bits.len() as int,
                )
                &&& bytes@.len() < need ==> r == Err::<&'a [u8], CanvasError>(
                    CanvasError::InsufficientData,
                ) && final(self)@ == old(self)@
            }),
    {
        let need = self.required_bytes();
        if bytes.len() < need {
            return Err(CanvasError::InsufficientData);
        }
        let (head, tail) = bytes.split_at(need);
        let bits = PackedBits::from_bytes(head);
        let ghost area = self@.bits.len() as int;
        let _ = self.assign_bits(bits);
        assert(self@.bits =~= bytes_bits(bytes@).subrange(0, area));
        Ok(tail)
    }

    /// The packed plane: `required_bytes()` bytes, least-significant bit
    /// first, with the padding bits of the last byte zero.
    pub fn to_bytes(&self) -> (r: Vec<u8>)
        requires
            self.wf(),
        ensures
            packs(r@, self@.bits),
    {
        let area = self.area();
        let mut out = self.data.raw_bytes();
        let rem = (area % 8) as u8;
        let ghost raw = out@;
        if rem != 0 {
            let last = out.len() - 1;
            let b = out[last];
            out.set(last, b & !(0xffu8 << rem));
        }
        assert forall|j: int, k: int| 0 <= j < out@.len() && 0 <= k < 8 implies #[trigger] byte_bit(
            out@[j],
            k,
        ) == (j * 8 + k < self@.bits.len() && self@.bits[j * 8 + k]) by {
            if rem != 0 && j == out@.len() - 1 {
                assert(j == area / 8);
                assert(rem as int == area % 8);
                assert(out@[j] == raw[j] & !(0xffu8 << rem));
                lemma_masked_bit(raw[j], rem, k as u8);
                assert((j * 8 + k < area) == (k < rem as int));
                if k < rem as int {
                    assert(byte_bit(raw[j], k) == self@.bits[j * 8 + k]);
                }
            } else {
                assert(j < area / 8);
                assert(j * 8 + k < area);
                assert(out@[j] == raw[j]);
                assert(byte_bit(raw[j], k) == self@.bits[j * 8 + k]);
            }
        }
        out
    }

    /// The two planes hold the same bits.
    pub(crate) fn same_bits(&self, other: &BitMatrix) -> (r: bool)
        ensures
            r == (self@.bits == other@.bits),
    {
        self.data.same_bits(&other.data)
    }

    /// A copy of the plane.
    pub fn copy(&self) -> (r: BitMatrix)
        ensures
            r@ == self@,
    {
        BitMatrix { width: self.width, height: self.height, data: self.data.copy() }
    }

    /// Every cell as `(x, y, value)`, row by row.
    pub fn iter(&self) -> (r: Vec<(usize, usize, bool)>)
        requires
            self.wf(),
        ensures
            r@.len() == self@.bits.len(),
            forall|i: int|
                0 <= i < r@.len() ==> #[trigger] r@[i].0 == i % (self@.width as int) && r@[i].1
                    == i / (self@.width as int) && r@[i].2 == self@.bits[i],
    {
        let area = self.area();
        let mut out: Vec<(usize, usize, bool)> = Vec::new();
        let mut i: usize = 0;
        while i < area
            invariant
                self.wf(),
                area == self@.bits.len(),
                i <= area,
                out@.len() == i,
                forall|j: int|
                    0 <= j < i ==> #[trigger] out@[j].0 == j % (self@.width as int) && out@[j].1
                        == j / (self@.width as int) && out@[j].2 == self@.bits[j],
            decreases area - i,
        {
            proof {
                if self.width == 0 {
                    let (w, h) = (self@.width, self@.height);
                    assert(w * h == 0) by (nonlinear_arith)
                        requires
                            w == 0,
                    ;
                }
            }
            out.push((i % self.width, i / self.width, self.data.get(i)));
            i = i + 1;
        }
        out
    }
}

/// Cell by cell, the bit of `b` where `c` is set and the bit of `a`
/// elsewhere, computed as `a ^ ((a ^ b) & c)`.
pub fn select_bits(a: &BitMatrix, b: &BitMatrix, c: &BitMatrix) -> (r: BitMatrix)
    requires
        a.wf(),
        b@.bits.len() == a@.bits.len(),
        c@.bits.len() == a@.bits.len(),
    ensures
        r.wf(),
        r@.width == a@.width,
        r@.height == a@.height,
        r@.bits == Seq::new(
            a@.bits.len(),
            |i: int|
                if c@.bits[i] {
                    b@.bits[i]
                } else {
                    a@.bits[i]
                },
        ),
{
    let mut out = a.copy();
    let mut tmp = a.data.copy();
    tmp.xor_with(&b.data);
    tmp.and_with(&c.data);
    out.data.xor_with(&tmp);
    assert(out@.bits =~= Seq::new(
        a@.bits.len(),
        |i: int|
            if c@.bits[i] {
                b@.bits[i]
            } else {
                a@.bits[i]
            },
    ));
    out
}

proof fn lemma_masked_bit(b: u8, r: u8, k: u8)
    requires
        r < 8,
        k < 8,
    ensures
        ((b & !(0xffu8 << r)) >> k) & 1u8 == 1u8 <==> (k < r && (b >> k) & 1u8 == 1u8),
{
    assert(((b & !(0xffu8 << r)) >> k) & 1u8 == 1u8 <==> (k < r && (b >> k) & 1u8 == 1u8))
        by (bit_vector)
        requires
            r < 8,
            k < 8,
    ;
}

} // verus!
