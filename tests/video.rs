use chip8::display::{VideoListener, VideoMemory};
use chip8::types::Error;
use std::cell::RefCell;
use std::rc::Rc;

struct Quiet;

impl VideoListener for Quiet {}

#[derive(Clone, Default)]
struct Log(Rc<RefCell<Vec<String>>>);

struct Recorder {
    name: &'static str,
    log: Log,
}

impl VideoListener for Recorder {
    fn on_attach(&mut self) -> Result<(), Error> {
        self.log.0.borrow_mut().push(format!("{} attach", self.name));
        Ok(())
    }

    fn on_change(&mut self, x: usize, y: usize, value: bool) -> Result<(), Error> {
        self.log.0.borrow_mut().push(format!("{} {} {} {}", self.name, x, y, value));
        Ok(())
    }

    fn on_clear(&mut self) -> Result<(), Error> {
        self.log.0.borrow_mut().push(format!("{} clear", self.name));
        Ok(())
    }

    fn on_detach(&mut self) -> Result<(), Error> {
        self.log.0.borrow_mut().push(format!("{} detach", self.name));
        Ok(())
    }
}

#[test]
fn pixels_start_dark_and_set_returns_previous() {
    let mut v: VideoMemory<Quiet> = VideoMemory::new();
    assert!(!v.get(0, 0).unwrap());
    assert!(!v.set(5, 6, true).unwrap());
    assert!(v.get(5, 6).unwrap());
    assert!(v.set(5, 6, false).unwrap());
    assert!(!v.get(5, 6).unwrap());
}

#[test]
fn coordinates_wrap() {
    let mut v: VideoMemory<Quiet> = VideoMemory::new();
    v.set(64 + 3, 32 + 4, true).unwrap();
    assert!(v.get(3, 4).unwrap());
    assert!(v.get(3 + 128, 4 + 96).unwrap());
    assert!(!v.get(4, 3).unwrap());
}

#[test]
fn flip_inverts_and_reports_new_value() {
    let mut v: VideoMemory<Quiet> = VideoMemory::new();
    assert!(v.flip(63, 31).unwrap());
    assert!(v.get(63, 31).unwrap());
    assert!(!v.flip(63, 31).unwrap());
    assert!(!v.get(63, 31).unwrap());
}

#[test]
fn neighbouring_pixels_are_independent() {
    let mut v: VideoMemory<Quiet> = VideoMemory::new();
    v.set(8, 0, true).unwrap();
    for x in 0..64 {
        assert_eq!(v.get(x, 0).unwrap(), x == 8);
    }
    assert!(!v.get(8, 1).unwrap());
}

#[test]
fn clear_turns_everything_off() {
    let mut v: VideoMemory<Quiet> = VideoMemory::new();
    v.set(1, 1, true).unwrap();
    v.set(60, 30, true).unwrap();
    v.clear().unwrap();
    for y in 0..32 {
        for x in 0..64 {
            assert!(!v.get(x, y).unwrap());
        }
    }
}

#[test]
fn listeners_get_ids_in_order_and_notifications() {
    let log = Log::default();
    let mut v: VideoMemory<Recorder> = VideoMemory::new();
    let a = v.attach(Recorder { name: "a", log: log.clone() }).unwrap();
    let b = v.attach(Recorder { name: "b", log: log.clone() }).unwrap();
    assert_eq!((a, b), (0, 1));
    v.set(2, 3, true).unwrap();
    v.flip(2, 3).unwrap();
    v.clear().unwrap();
    v.detach(a).unwrap();
    v.set(0, 0, true).unwrap();
    v.detach(b).unwrap();
    v.detach(b).unwrap();
    let c = v.attach(Recorder { name: "c", log: log.clone() }).unwrap();
    assert_eq!(c, 2);
    v.detach_all().unwrap();
    let got = log.0.borrow().clone();
    assert_eq!(
        got,
        vec![
            "a attach", "b attach", "a 2 3 true", "b 2 3 true", "a 2 3 false", "b 2 3 false",
            "a clear", "b clear", "a detach", "b 0 0 true", "b detach", "c attach", "c detach",
        ]
    );
}

struct Refuses;

impl VideoListener for Refuses {
    fn on_attach(&mut self) -> Result<(), Error> {
        Err(Error::new_str("no terminal"))
    }
}

#[test]
fn failed_setup_records_nothing() {
    let mut v: VideoMemory<Refuses> = VideoMemory::new();
    let e = v.attach(Refuses).unwrap_err();
    assert_eq!(e.message, "no terminal");
}
