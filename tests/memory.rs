use chip8::memory::{
    get_range, set_range, ByteArrayMemory, MemoryMapper, MemoryRange, ReadMemory, WriteMemory,
};
use chip8::types::{Address, ErrorKind, Word};

fn range(min: u16, max: u16) -> MemoryRange {
    MemoryRange::new(Address(min), Address(max))
}

#[test]
fn range_contains_and_overlaps() {
    let r = range(0x10, 0x1F);
    assert!(r.contains(Address(0x10)));
    assert!(r.contains(Address(0x1F)));
    assert!(!r.contains(Address(0x20)));
    assert!(!r.contains(Address(0x0F)));
    assert!(r.overlaps(&range(0x1F, 0x30)));
    assert!(!r.overlaps(&range(0x20, 0x30)));
    assert_eq!(r.len(), Address(0x0F));
    let l = MemoryRange::new_len(Address(0x200), 2);
    assert_eq!(l.min, Address(0x200));
    assert_eq!(l.max, Address(0x202));
}

#[test]
fn range_iterator_walks_inclusive() {
    let mut it = range(0xFFFD, 0xFFFF).iter();
    assert_eq!(it.next(), Some(Address(0xFFFD)));
    assert_eq!(it.next(), Some(Address(0xFFFE)));
    assert_eq!(it.next(), Some(Address(0xFFFF)));
    assert_eq!(it.next(), None);
    assert_eq!(it.next(), None);
}

#[test]
fn byte_array_reads_writes_and_bounds() {
    let mut m = ByteArrayMemory::new(&[1, 2, 3]);
    assert_eq!(m.len(), 3);
    assert_eq!(m.get(Address(2)).unwrap(), Word(3));
    assert_eq!(m.get(Address(3)).unwrap_err().kind, ErrorKind::Bounds { addr: 3 });
    m.set(Address(0), Word(9)).unwrap();
    assert_eq!(m.get(Address(0)).unwrap(), Word(9));
    assert_eq!(m.set(Address(7), Word(1)).unwrap_err().kind, ErrorKind::Bounds { addr: 7 });
    let z = ByteArrayMemory::zero(4);
    assert_eq!(z.len(), 4);
    assert_eq!(z.get(Address(3)).unwrap(), Word(0));
}

#[test]
fn overlapping_banks_are_refused_naming_both() {
    let mut m = MemoryMapper::new();
    m.add(ByteArrayMemory::zero(0x100), range(0x000, 0x0FF), "Low").unwrap();
    m.add(ByteArrayMemory::zero(0x100), range(0x200, 0x2FF), "High").unwrap();
    let err = m.add(ByteArrayMemory::zero(0x200), range(0x080, 0x27F), "Middle").unwrap_err();
    assert_eq!(err.kind, ErrorKind::MapConflict);
    assert!(err.message.contains("Middle"));
    assert!(err.message.contains("Low"));
    assert!(err.message.contains("High"));
    assert_eq!(err.message, "Bank Middle would overlap with Low High");
    // The refused bank left nothing behind.
    assert_eq!(m.get(Address(0x100)).unwrap_err().kind, ErrorKind::UnmappedAddress { addr: 0x100 });
}

#[test]
fn touching_banks_are_accepted() {
    let mut m = MemoryMapper::new();
    m.add(ByteArrayMemory::zero(0x10), range(0x00, 0x0F), "A").unwrap();
    m.add(ByteArrayMemory::zero(0x10), range(0x10, 0x1F), "B").unwrap();
    let err = m.add(ByteArrayMemory::zero(1), range(0x0F, 0x0F), "C").unwrap_err();
    assert_eq!(err.message, "Bank C would overlap with A");
}

#[test]
fn unmapped_addresses_fail() {
    let mut m = MemoryMapper::new();
    m.add(ByteArrayMemory::zero(0x10), range(0x100, 0x10F), "Ram").unwrap();
    assert_eq!(m.get(Address(0x0FF)).unwrap_err().kind, ErrorKind::UnmappedAddress { addr: 0x0FF });
    assert_eq!(
        m.set(Address(0x110), Word(1)).unwrap_err().kind,
        ErrorKind::UnmappedAddress { addr: 0x110 }
    );
    let empty = MemoryMapper::new();
    assert_eq!(empty.get(Address(0)).unwrap_err().kind, ErrorKind::UnmappedAddress { addr: 0 });
}

#[test]
fn mapper_translates_to_bank_offsets() {
    let mut m = MemoryMapper::new();
    m.add(ByteArrayMemory::new(&[10, 11, 12, 13]), range(0x300, 0x303), "Ram").unwrap();
    assert_eq!(m.get(Address(0x302)).unwrap(), Word(12));
    m.set(Address(0x301), Word(99)).unwrap();
    assert_eq!(m.get(Address(0x301)).unwrap(), Word(99));
}

#[test]
fn read_only_and_write_only_banks() {
    let mut m = MemoryMapper::new();
    m.add_read(ByteArrayMemory::new(&[5, 6]), range(0x00, 0x01), "Rom").unwrap();
    m.add_write(ByteArrayMemory::zero(2), range(0x10, 0x11), "Sink").unwrap();
    assert_eq!(m.get(Address(0x01)).unwrap(), Word(6));
    let e = m.set(Address(0x01), Word(1)).unwrap_err();
    assert_eq!(e.kind, ErrorKind::BankAccess { addr: 0x01 });
    assert_eq!(e.message, "Unable to write to bank Rom");
    assert_eq!(e.cause.unwrap().kind, ErrorKind::Unsupported);
    m.set(Address(0x10), Word(1)).unwrap();
    let e = m.get(Address(0x10)).unwrap_err();
    assert_eq!(e.kind, ErrorKind::BankAccess { addr: 0x10 });
    assert_eq!(e.cause.unwrap().kind, ErrorKind::Unsupported);
}

#[test]
fn bank_smaller_than_its_range_reports_bounds() {
    let mut m = MemoryMapper::new();
    m.add(ByteArrayMemory::zero(2), range(0x40, 0x4F), "Short").unwrap();
    let e = m.get(Address(0x45)).unwrap_err();
    assert_eq!(e.kind, ErrorKind::BankAccess { addr: 0x45 });
    assert_eq!(e.message, "Unable to read from bank Short");
    assert_eq!(e.cause.unwrap().kind, ErrorKind::Bounds { addr: 5 });
}

#[test]
fn range_reads_stop_at_first_failure() {
    let mut m = MemoryMapper::new();
    m.add(ByteArrayMemory::new(&[1, 2, 3]), range(0x10, 0x12), "Ram").unwrap();
    let words = get_range(&m, range(0x10, 0x12)).unwrap();
    assert_eq!(words, vec![Word(1), Word(2), Word(3)]);
    let e = get_range(&m, range(0x11, 0x14)).unwrap_err();
    assert_eq!(e.kind, ErrorKind::UnmappedAddress { addr: 0x13 });
}

#[test]
fn range_writes_stop_at_first_failure() {
    let mut m = MemoryMapper::new();
    m.add(ByteArrayMemory::zero(3), range(0x10, 0x12), "Ram").unwrap();
    let e = set_range(&mut m, Address(0x11), &[Word(7), Word(8), Word(9)]).unwrap_err();
    assert_eq!(e.kind, ErrorKind::UnmappedAddress { addr: 0x13 });
    assert_eq!(m.get(Address(0x11)).unwrap(), Word(7));
    assert_eq!(m.get(Address(0x12)).unwrap(), Word(8));
    assert_eq!(m.get(Address(0x10)).unwrap(), Word(0));
}
