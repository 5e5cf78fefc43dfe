use chip8::input::{to_key_index, InputBuffer, InputManager};
use chip8::types::ErrorKind;

#[test]
fn keys_start_released() {
    let b = InputBuffer::new();
    for k in 0..16 {
        assert!(!b.is_down(k).unwrap());
    }
}

#[test]
fn press_then_tick_releases() {
    let mut b = InputBuffer::new();
    b.press(3).unwrap();
    assert!(b.is_down(3).unwrap());
    b.tick();
    assert!(!b.is_down(3).unwrap());
}

#[test]
fn hold_survives_ticks_until_release() {
    let mut b = InputBuffer::new();
    b.hold(3).unwrap();
    for _ in 0..100 {
        b.tick();
        assert!(b.is_down(3).unwrap());
    }
    b.release(3).unwrap();
    assert!(!b.is_down(3).unwrap());
}

#[test]
fn tick_only_touches_pressed_keys() {
    let mut b = InputBuffer::new();
    b.press(0).unwrap();
    b.hold(15).unwrap();
    b.tick();
    assert!(!b.is_down(0).unwrap());
    assert!(b.is_down(15).unwrap());
    assert!(!b.is_down(7).unwrap());
}

#[test]
fn key_index_out_of_range() {
    let mut b = InputBuffer::new();
    assert_eq!(b.is_down(16).unwrap_err().kind, ErrorKind::KeyIndexOutOfRange);
    assert_eq!(b.press(16).unwrap_err().kind, ErrorKind::KeyIndexOutOfRange);
    assert_eq!(b.hold(200).unwrap_err().kind, ErrorKind::KeyIndexOutOfRange);
    assert_eq!(b.release(17).unwrap_err().kind, ErrorKind::KeyIndexOutOfRange);
    assert_eq!(to_key_index(15).unwrap(), 15);
    assert_eq!(to_key_index(16).unwrap_err().kind, ErrorKind::KeyIndexOutOfRange);
}

#[test]
fn manager_ticks_its_buffer() {
    let mut m = InputManager::new();
    m.buffer.press(4).unwrap();
    assert!(m.is_down(4).unwrap());
    m.tick().unwrap();
    assert!(!m.is_down(4).unwrap());
    assert_eq!(m.is_down(99).unwrap_err().kind, ErrorKind::KeyIndexOutOfRange);
}
