use chip8::types::{Address, Error, ErrorKind, Word};

#[test]
fn word_arithmetic_wraps() {
    assert_eq!(Word::new(0xFF).wrapping_add(Word::new(0x02)), Word(0x01));
    assert_eq!(Word::new(0x01).wrapping_sub(Word::new(0x02)), Word(0xFF));
    assert_eq!(Word::new(0x05).wrapping_sub(Word::new(0x02)).value(), 0x03);
}

#[test]
fn address_arithmetic_wraps() {
    assert_eq!(Address::new(0xFFFF).wrapping_add(2), Address(0x0001));
    assert_eq!(Address::new(0x0000).wrapping_sub(1), Address(0xFFFF));
    assert_eq!(Address::new(0x0200).wrapping_add(2).value(), 0x0202);
}

#[test]
fn errors_chain_their_causes() {
    let low = Error::of_kind(ErrorKind::Bounds { addr: 4 }, "outside");
    let mid = low.chain("while reading".to_string());
    assert_eq!(mid.kind, ErrorKind::Bounds { addr: 4 });
    assert_eq!(mid.message, "while reading");
    let top = mid.chain_as(ErrorKind::BankAccess { addr: 0x204 }, "bank".to_string());
    assert_eq!(top.kind, ErrorKind::BankAccess { addr: 0x204 });
    let mid = top.cause.unwrap();
    assert_eq!(mid.message, "while reading");
    assert_eq!(mid.cause.unwrap().message, "outside");
}

#[test]
fn plain_errors_carry_a_message() {
    let e = Error::new("boom".to_string());
    assert_eq!(e.kind, ErrorKind::Message);
    assert_eq!(e.message, "boom");
    assert!(e.cause.is_none());
    let e = Error::new_str("bang");
    assert_eq!(e.kind, ErrorKind::Message);
    assert_eq!(e.message, "bang");
}
