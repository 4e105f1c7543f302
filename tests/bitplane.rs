use bitcanvas::bitplane::BitMatrix;
use bitcanvas::error::CanvasError;

#[test]
fn prelude_basic_usage() {
    let mut m = BitMatrix::new(4, 3, false);
    assert_eq!(m.dimensions(), (4, 3));
    assert_eq!(m.count_ones(), 0);
    assert_eq!(m.get(2, 1), Some(false));
    assert!(m.set(2, 1, true).is_ok());
    assert_eq!(m.get(2, 1), Some(true));
    assert_eq!(m.count_ones(), 1);

    // out-of-bounds
    assert_eq!(m.get(10, 10), None);
    assert!(m.set(10, 0, true).is_err());

    // clear
    m.clear();
    assert_eq!(m.count_ones(), 0);

    // row iteration
    assert!(m.set(0, 2, true).is_ok());
}

#[test]
fn mod_basic_usage() {
    let mut m = BitMatrix::new(4, 3, false);
    assert_eq!(m.dimensions(), (4, 3));
    assert_eq!(m.count_ones(), 0);
    assert_eq!(m.get(2, 1), Some(false));
    assert!(m.set(2, 1, true).is_ok());
    assert_eq!(m.get(2, 1), Some(true));
    assert_eq!(m.count_ones(), 1);

    // out-of-bounds
    assert_eq!(m.get(10, 10), None);
    assert!(m.set(10, 0, true).is_err());

    // filling with ones sets every cell
    m.set_to_one();
    assert_eq!(m.count_ones(), 12);

    // row iteration
    assert!(m.set(0, 2, true).is_ok());
}

#[test]
fn set_out_of_range_is_reported() {
    let mut m = BitMatrix::new(3, 2, false);
    assert_eq!(m.set(3, 0, true), Err(CanvasError::OutOfRange));
    assert_eq!(m.set(0, 2, true), Err(CanvasError::OutOfRange));
    assert_eq!(m.count_ones(), 0);
}

#[test]
fn new_with_ones() {
    let m = BitMatrix::new(5, 2, true);
    assert_eq!(m.count_ones(), 10);
    assert_eq!(m.get(4, 1), Some(true));
}

#[test]
fn required_bytes_rounds_up() {
    assert_eq!(BitMatrix::new(3, 3, false).required_bytes(), 2);
    assert_eq!(BitMatrix::new(4, 2, false).required_bytes(), 1);
    assert_eq!(BitMatrix::new(10, 10, false).required_bytes(), 13);
    assert_eq!(BitMatrix::new(0, 5, false).required_bytes(), 0);
}

#[test]
fn to_bytes_packs_lsb_first_with_zero_padding() {
    let mut m = BitMatrix::new(3, 3, true);
    assert!(m.set(1, 0, false).is_ok());
    // bits 0..9: 1,0,1,1,1,1,1,1 | 1 then seven padding zeros
    assert_eq!(m.to_bytes(), vec![0b1111_1101u8, 0b0000_0001u8]);
}

#[test]
fn from_bytes_loads_and_returns_tail() {
    let mut m = BitMatrix::new(3, 3, false);
    let data = [0b0000_0101u8, 0xffu8, 7u8, 9u8];
    let tail = m.from_bytes(&data).unwrap();
    assert_eq!(tail, &[7u8, 9u8][..]);
    assert_eq!(m.get(0, 0), Some(true));
    assert_eq!(m.get(1, 0), Some(false));
    assert_eq!(m.get(2, 0), Some(true));
    assert_eq!(m.get(2, 2), Some(true));
    assert_eq!(m.count_ones(), 3);
}

#[test]
fn from_bytes_short_buffer_changes_nothing() {
    let mut m = BitMatrix::new(3, 3, false);
    assert!(m.set(1, 1, true).is_ok());
    assert_eq!(m.from_bytes(&[0xffu8]), Err(CanvasError::InsufficientData));
    assert_eq!(m.count_ones(), 1);
    assert_eq!(m.get(1, 1), Some(true));
}

#[test]
fn plane_round_trip() {
    let mut m = BitMatrix::new(5, 3, false);
    assert!(m.set(4, 0, true).is_ok());
    assert!(m.set(0, 2, true).is_ok());
    let bytes = m.to_bytes();
    let mut n = BitMatrix::new(5, 3, true);
    assert_eq!(n.from_bytes(&bytes).unwrap().len(), 0);
    assert_eq!(n.to_bytes(), bytes);
    assert_eq!(n.count_ones(), 2);
}

#[test]
fn plane_iter_and_copy() {
    let mut m = BitMatrix::new(2, 2, false);
    assert!(m.set(1, 1, true).is_ok());
    let c = m.copy();
    assert!(m.set(0, 0, true).is_ok());
    assert_eq!(
        c.iter(),
        vec![(0, 0, false), (1, 0, false), (0, 1, false), (1, 1, true)]
    );
    assert_eq!(m.count_ones(), 2);
}

#[test]
fn select_bits_picks_by_mask() {
    let mut a = BitMatrix::new(4, 1, false);
    let mut b = BitMatrix::new(4, 1, false);
    let mut c = BitMatrix::new(4, 1, false);
    // a = 0101, b = 1100, c = 0100
    assert!(a.set(1, 0, true).is_ok());
    assert!(a.set(3, 0, true).is_ok());
    assert!(b.set(0, 0, true).is_ok());
    assert!(b.set(1, 0, true).is_ok());
    assert!(c.set(1, 0, true).is_ok());
    let out = bitcanvas::bitplane::select_bits(&a, &b, &c);
    assert_eq!(
        out.iter().into_iter().map(|(_, _, v)| v).collect::<Vec<bool>>(),
        vec![false, true, false, true]
    );
}
