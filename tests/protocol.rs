use bitcanvas::protocol::{CanvasState, DrawEvent};

#[test]
fn draw_line_event_layout() {
    let e = DrawEvent::draw_line(1, 2, 3, 4, true);
    assert_eq!(e.to_bytes(), [0, 1, 2, 3, 4, 1, 0, 0, 0]);
    let w = DrawEvent::draw_line(300, 0, 99, 256, false);
    assert_eq!(w.to_bytes(), [0, 44, 0, 99, 0, 0, 0, 0, 0]);
}

#[test]
fn sync_and_clear_events() {
    assert_eq!(DrawEvent::full_sync_request().to_bytes(), [1, 0, 0, 0, 0, 0, 0, 0, 0]);
    assert_eq!(DrawEvent::clear_canvas().to_bytes(), [2, 0, 0, 0, 0, 0, 0, 0, 0]);
}

#[test]
fn event_from_bytes_round_trip() {
    let bytes = [0u8, 9, 8, 7, 6, 1, 5, 4, 3];
    let e = DrawEvent::from_bytes(&bytes);
    assert_eq!(e.msg_type, 0);
    assert_eq!(e.x0, 9);
    assert_eq!(e.y1, 6);
    assert_eq!(e.is_black, 1);
    assert_eq!(e.to_bytes(), bytes);
}

#[test]
fn canvas_state_pixels() {
    let mut s = CanvasState::new();
    assert!(!s.get_pixel(5, 7));
    s.set_pixel(5, 7, true);
    assert!(s.get_pixel(5, 7));
    assert_eq!(s.to_bytes()[88], 0b0000_0010u8);
    s.set_pixel(99, 99, true);
    assert_eq!(s.to_bytes()[1249], 0b1000_0000u8);
    s.set_pixel(100, 0, true);
    assert!(!s.get_pixel(100, 0));
    s.set_pixel(5, 7, false);
    assert!(!s.get_pixel(5, 7));
    assert!(s.get_pixel(99, 99));
    s.clear();
    assert!(!s.get_pixel(99, 99));
}

#[test]
fn canvas_state_from_bytes() {
    let mut bytes = [0u8; 1250];
    bytes[0] = 0b0000_0100;
    let s = CanvasState::from_bytes(&bytes);
    assert!(s.get_pixel(2, 0));
    assert!(!s.get_pixel(1, 0));
    assert_eq!(s.to_bytes()[..], bytes[..]);
}

#[test]
fn apply_events_to_state() {
    let mut s = CanvasState::new();
    s.apply_draw_event(&DrawEvent::draw_line(0, 0, 3, 3, true));
    for i in 0..4 {
        assert!(s.get_pixel(i, i));
    }
    assert!(!s.get_pixel(1, 0));
    s.apply_draw_event(&DrawEvent::draw_line(0, 0, 2, 0, false));
    assert!(!s.get_pixel(0, 0));
    assert!(s.get_pixel(1, 1));
    let before = *s.to_bytes();
    s.apply_draw_event(&DrawEvent::full_sync_request());
    assert_eq!(s.to_bytes()[..], before[..]);
    s.apply_draw_event(&DrawEvent::clear_canvas());
    assert!(s.to_bytes().iter().all(|b| *b == 0));
}

#[test]
fn state_line_is_clipped_to_grid() {
    let mut s = CanvasState::new();
    s.draw_line_on_canvas(98, 5, 103, 5, true);
    assert!(s.get_pixel(98, 5));
    assert!(s.get_pixel(99, 5));
    for x in 0..4 {
        assert!(!s.get_pixel(x, 6));
    }
    assert_eq!(s.to_bytes().iter().map(|b| b.count_ones()).sum::<u32>(), 2);
}
