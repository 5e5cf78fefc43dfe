use chip8::opcodes::{Condition, Opcode, OpcodeParam, Operation, Timer};
use chip8::types::{Address, ErrorKind, Word};

fn ok(w: u16) -> Opcode {
    Opcode::decode(w).expect("word should decode")
}

fn decode_kind(w: u16) -> ErrorKind {
    match Opcode::decode(w) {
        Ok(op) => panic!("{:04X} decoded to {:?}", w, op),
        Err(e) => e.kind,
    }
}

#[test]
fn decodes_full_word_cases() {
    assert_eq!(ok(0x0000), Opcode::Nop);
    assert_eq!(ok(0x00E0), Opcode::ClearScreen);
    assert_eq!(ok(0x00EE), Opcode::Return);
}

#[test]
fn decodes_address_family() {
    assert_eq!(ok(0x1234), Opcode::Jump(Address(0x234)));
    assert_eq!(ok(0x2ABC), Opcode::Call(Address(0xABC)));
    assert_eq!(ok(0x0123), Opcode::CallNative(Address(0x123)));
    assert_eq!(ok(0xA456), Opcode::AssignAddress(Address(0x456)));
    assert_eq!(ok(0xB789), Opcode::OffsetJump(Address(0x789)));
}

#[test]
fn decodes_register_immediate() {
    assert_eq!(
        ok(0x6A12),
        Opcode::Assign { left_reg: 0xA, right: OpcodeParam::Immediate(Word(0x12)), op: Operation::Assign }
    );
    assert_eq!(
        ok(0x7B01),
        Opcode::Assign { left_reg: 0xB, right: OpcodeParam::Immediate(Word(0x01)), op: Operation::Add }
    );
}

#[test]
fn decodes_register_register_ops() {
    let ops = [
        (0x0, Operation::Assign),
        (0x1, Operation::Or),
        (0x2, Operation::And),
        (0x3, Operation::Xor),
        (0x4, Operation::Add),
        (0x5, Operation::Sub),
        (0x7, Operation::ReverseSub),
    ];
    for (n, op) in ops {
        assert_eq!(
            ok(0x8120 | n),
            Opcode::Assign { left_reg: 1, right: OpcodeParam::Register(2), op }
        );
    }
    assert_eq!(ok(0x8346), Opcode::Shift { reg: 3, right: true });
    assert_eq!(ok(0x834E), Opcode::Shift { reg: 3, right: false });
}

#[test]
fn decodes_conditional_skips() {
    assert_eq!(
        ok(0x3A42),
        Opcode::CondJump {
            left: OpcodeParam::Register(0xA),
            right: OpcodeParam::Immediate(Word(0x42)),
            cond: Condition::Equal
        }
    );
    assert_eq!(
        ok(0x4A42),
        Opcode::CondJump {
            left: OpcodeParam::Register(0xA),
            right: OpcodeParam::Immediate(Word(0x42)),
            cond: Condition::NotEqual
        }
    );
    assert_eq!(
        ok(0x5AB0),
        Opcode::CondJump {
            left: OpcodeParam::Register(0xA),
            right: OpcodeParam::Register(0xB),
            cond: Condition::Equal
        }
    );
    assert_eq!(
        ok(0x9AB0),
        Opcode::CondJump {
            left: OpcodeParam::Register(0xA),
            right: OpcodeParam::Register(0xB),
            cond: Condition::NotEqual
        }
    );
}

#[test]
fn decodes_random_draw_and_keys() {
    assert_eq!(ok(0xC30F), Opcode::Random { reg: 3, mask: Word(0x0F) });
    assert_eq!(ok(0xD125), Opcode::Draw { x: 1, y: 2, height: 5 });
    assert_eq!(ok(0xE59E), Opcode::CondKeyJump { reg: 5, cond: Condition::Equal });
    assert_eq!(ok(0xE5A1), Opcode::CondKeyJump { reg: 5, cond: Condition::NotEqual });
}

#[test]
fn decodes_f_family() {
    assert_eq!(ok(0xF107), Opcode::GetDelayTimer(1));
    assert_eq!(ok(0xF20A), Opcode::BlockOnKey(2));
    assert_eq!(ok(0xF315), Opcode::SetTimer { reg: 3, timer: Timer::Delay });
    assert_eq!(ok(0xF418), Opcode::SetTimer { reg: 4, timer: Timer::Sound });
    assert_eq!(ok(0xF51E), Opcode::AddAddress(5));
    assert_eq!(ok(0xF629), Opcode::GetCharacterAddress(6));
    assert_eq!(ok(0xF733), Opcode::WriteBCD(7));
    assert_eq!(ok(0xF855), Opcode::DumpValueRegisters(8));
    assert_eq!(ok(0xF965), Opcode::LoadValueRegisters(9));
}

#[test]
fn rejects_unrecognized_words() {
    for w in [0x8009u16, 0x8008, 0x800F, 0xE000, 0xE59F, 0xF000, 0xF1FF] {
        assert_eq!(decode_kind(w), ErrorKind::Decode { word: w });
    }
}

#[test]
fn decode_never_panics_on_any_word() {
    let mut recognized = 0u32;
    for w in 0..=u16::MAX {
        if Opcode::decode(w).is_ok() {
            recognized += 1;
        }
    }
    // Every word of the 0, 1, 2, 3, 4, 5, 6, 7, 9, A, B, C and D families,
    // 9 of 16 low nibbles of 8, 2 low bytes of E and 9 of F.
    assert_eq!(recognized, 13 * 4096 + 9 * 256 + 2 * 16 + 9 * 16);
}

#[test]
fn decode_bytes_is_big_endian() {
    assert_eq!(Opcode::decode_bytes(&[0x12, 0x34]).unwrap(), Opcode::Jump(Address(0x234)));
    assert_eq!(Opcode::decode_bytes(&[0x00, 0xE0]).unwrap(), Opcode::ClearScreen);
}

#[test]
fn operation_add_wraps_with_carry() {
    let (r, c) = Operation::Add.evaluate(Word(0xFF), Word(0x02));
    assert_eq!(r, Word(0x01));
    assert_eq!(c, Some(true));
    let (r, c) = Operation::Add.evaluate(Word(0x10), Word(0x02));
    assert_eq!(r, Word(0x12));
    assert_eq!(c, Some(false));
}

#[test]
fn operation_sub_uses_inverted_borrow() {
    let (r, c) = Operation::Sub.evaluate(Word(0x01), Word(0x02));
    assert_eq!(r, Word(0xFF));
    assert_eq!(c, Some(false));
    let (r, c) = Operation::Sub.evaluate(Word(0x05), Word(0x02));
    assert_eq!(r, Word(0x03));
    assert_eq!(c, Some(true));
}

#[test]
fn operation_reverse_sub_swaps_operands() {
    let (r, c) = Operation::ReverseSub.evaluate(Word(0x02), Word(0x05));
    assert_eq!(r, Word(0x03));
    assert_eq!(c, Some(true));
    let (r, c) = Operation::ReverseSub.evaluate(Word(0x05), Word(0x02));
    assert_eq!(r, Word(0xFD));
    assert_eq!(c, Some(false));
}

#[test]
fn operation_logic_has_no_carry() {
    assert_eq!(Operation::Or.evaluate(Word(0xF0), Word(0x0F)), (Word(0xFF), None));
    assert_eq!(Operation::And.evaluate(Word(0xF0), Word(0x3C)), (Word(0x30), None));
    assert_eq!(Operation::Xor.evaluate(Word(0xF0), Word(0x3C)), (Word(0xCC), None));
    assert_eq!(Operation::Assign.evaluate(Word(0xF0), Word(0x3C)), (Word(0x3C), None));
}

#[test]
fn condition_evaluates_equality() {
    assert!(Condition::Equal.evaluate(Word(3), Word(3)));
    assert!(!Condition::Equal.evaluate(Word(3), Word(4)));
    assert!(Condition::NotEqual.evaluate(Word(3), Word(4)));
    assert!(!Condition::NotEqual.evaluate(Word(4), Word(4)));
}
