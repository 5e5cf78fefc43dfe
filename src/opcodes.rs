//! The instruction set: decoded operations and the decoder from 16-bit words.

use vstd::prelude::*;
use crate::types::{Address, Error, ErrorKind, Word};

verus! {

/// Index of one of the sixteen value registers.
pub type ValueRegisterIndex = u8;

/// A decoded instruction.
#[allow(inconsistent_fields)]
#[derive(PartialEq, Eq, Structural, Copy, Clone, Debug)]
pub enum Opcode {
    // Value registers
    Assign { left_reg: ValueRegisterIndex, right: OpcodeParam, op: Operation },
    Shift { reg: ValueRegisterIndex, right: bool },
    Random { reg: ValueRegisterIndex, mask: Word },
    // Address register
    AssignAddress(Address),
    AddAddress(ValueRegisterIndex),
    GetCharacterAddress(ValueRegisterIndex),
    // Flow control
    Return,
    Jump(Address),
    OffsetJump(Address),
    Call(Address),
    CallNative(Address),
    CondJump { left: OpcodeParam, right: OpcodeParam, cond: Condition },
    // Graphics
    ClearScreen,
    Draw { x: ValueRegisterIndex, y: ValueRegisterIndex, height: u8 },
    // Input
    BlockOnKey(ValueRegisterIndex),
    CondKeyJump { reg: ValueRegisterIndex, cond: Condition },
    // Timers
    GetDelayTimer(ValueRegisterIndex),
    SetTimer { reg: ValueRegisterIndex, timer: Timer },
    // Misc
    Nop,
    WriteBCD(ValueRegisterIndex),
    DumpValueRegisters(ValueRegisterIndex),
    LoadValueRegisters(ValueRegisterIndex),
}

/// An operand: an immediate word or a value register.
#[derive(PartialEq, Eq, Structural, Copy, Clone, Debug)]
pub enum OpcodeParam {
    Immediate(Word),
    Register(ValueRegisterIndex),
}

#[derive(PartialEq, Eq, Structural, Copy, Clone, Debug)]
pub enum Condition {
    Equal,
    NotEqual,
}

/// The arithmetic or logical operation of an assignment.
#[derive(PartialEq, Eq, Structural, Copy, Clone, Debug)]
pub enum Operation {
    Assign,
    Add,
    Sub,
    ReverseSub,
    Or,
    And,
    Xor,
}

#[derive(PartialEq, Eq, Structural, Copy, Clone, Debug)]
pub enum Timer {
    Delay,
    Sound,
}

impl Condition {
    pub open spec fn holds(self, equal: bool) -> bool {
        match self {
            Condition::Equal => equal,
            Condition::NotEqual => !equal,
        }
    }

    /// Whether the condition holds between two words.
    pub fn evaluate(&self, a: Word, b: Word) -> (r: bool)
        ensures
            r == self.holds(a == b),
    {
        match self {
            Condition::Equal => a == b,
            Condition::NotEqual => a != b,
        }
    }
}

/// Result of an assignment operation on `lhs` (the destination's old value)
/// and `rhs`, with its carry flag where the operation produces one. A
/// subtraction's flag is 1 when no borrow occurred.
pub open spec fn evaluate_spec(op: Operation, lhs: u8, rhs: u8) -> (u8, Option<bool>) {
    match op {
        Operation::Assign => (rhs, None),
        Operation::Or => (rhs | lhs, None),
        Operation::And => (rhs & lhs, None),
        Operation::Xor => (rhs ^ lhs, None),
        Operation::Add => (((lhs + rhs) % 256) as u8, Some(lhs + rhs > 255)),
        Operation::Sub => (((lhs - rhs) % 256) as u8, Some(lhs >= rhs)),
        Operation::ReverseSub => (((rhs - lhs) % 256) as u8, Some(rhs >= lhs)),
    }
}

impl Operation {
    pub fn evaluate(&self, lhs: Word, rhs: Word) -> (r: (Word, Option<bool>))
        ensures
            (r.0.0, r.1) == evaluate_spec(*self, lhs.0, rhs.0),
    {
        let (a, b) = (lhs.0, rhs.0);
        match self {
            Operation::Assign => (rhs, None),
            Operation::Or => (Word(b | a), None),
            Operation::And => (Word(b & a), None),
            Operation::Xor => (Word(b ^ a), None),
            Operation::Add => {
                (Word(a.wrapping_add(b)), Some(a > 255 - b))
            },
            Operation::Sub => {
                (Word(a.wrapping_sub(b)), Some(a >= b))
            },
            Operation::ReverseSub => {
                (Word(b.wrapping_sub(a)), Some(b >= a))
            },
        }
    }
}

/// The high nibble of an instruction word.
pub open spec fn nib1(w: u16) -> u8 {
    (w / 0x1000) as u8
}

/// The second nibble: the first register operand.
pub open spec fn nib_x(w: u16) -> u8 {
    ((w / 0x100) % 0x10) as u8
}

/// The third nibble: the second register operand.
pub open spec fn nib_y(w: u16) -> u8 {
    ((w / 0x10) % 0x10) as u8
}

/// The low nibble.
pub open spec fn nib_n(w: u16) -> u8 {
    (w % 0x10) as u8
}

/// The low byte.
pub open spec fn low_byte(w: u16) -> u8 {
    (w % 0x100) as u8
}

/// The low twelve bits, as an address.
pub open spec fn addr12(w: u16) -> Address {
    Address((w % 0x1000) as u16)
}

/// The operation that an assignment with register operands selects by its
/// low nibble.
pub open spec fn register_operation(n: u8) -> Option<Operation> {
    if n == 0 {
        Some(Operation::Assign)
    } else if n == 1 {
        Some(Operation::Or)
    } else if n == 2 {
        Some(Operation::And)
    } else if n == 3 {
        Some(Operation::Xor)
    } else if n == 4 {
        Some(Operation::Add)
    } else if n == 5 {
        Some(Operation::Sub)
    } else if n == 7 {
        Some(Operation::ReverseSub)
    } else {
        None
    }
}

/// The instruction table: the operation an instruction word stands for, or
/// `None` for a word outside the instruction set.
pub open spec fn decode_spec(w: u16) -> Option<Opcode> {
    let x = nib_x(w);
    let y = nib_y(w);
    let n = nib_n(w);
    let kk = low_byte(w);
    if w == 0x0000 {
        Some(Opcode::Nop)
    } else if w == 0x00E0 {
        Some(Opcode::ClearScreen)
    } else if w == 0x00EE {
        Some(Opcode::Return)
    } else {
        match nib1(w) {
            0x0 => Some(Opcode::CallNative(addr12(w))),
            0x1 => Some(Opcode::Jump(addr12(w))),
            0x2 => Some(Opcode::Call(addr12(w))),
            0x3 => Some(Opcode::CondJump {
                left: OpcodeParam::Register(x),
                right: OpcodeParam::Immediate(Word(kk)),
                cond: Condition::Equal,
            }),
            0x4 => Some(Opcode::CondJump {
                left: OpcodeParam::Register(x),
                right: OpcodeParam::Immediate(Word(kk)),
                cond: Condition::NotEqual,
            }),
            0x5 => Some(Opcode::CondJump {
                left: OpcodeParam::Register(x),
                right: OpcodeParam::Register(y),
                cond: Condition::Equal,
            }),
            0x6 => Some(Opcode::Assign {
                left_reg: x,
                right: OpcodeParam::Immediate(Word(kk)),
                op: Operation::Assign,
            }),
            0x7 => Some(Opcode::Assign {
                left_reg: x,
                right: OpcodeParam::Immediate(Word(kk)),
                op: Operation::Add,
            }),
            0x8 => if n == 0x6 || n == 0xE {
                Some(Opcode::Shift { reg: x, right: n == 0x6 })
            } else {
                match register_operation(n) {
                    Some(op) => Some(Opcode::Assign {
                        left_reg: x,
                        right: OpcodeParam::Register(y),
                        op,
                    }),
                    None => None,
                }
            },
            0x9 => Some(Opcode::CondJump {
                left: OpcodeParam::Register(x),
                right: OpcodeParam::Register(y),
                cond: Condition::NotEqual,
            }),
            0xA => Some(Opcode::AssignAddress(addr12(w))),
            0xB => Some(Opcode::OffsetJump(addr12(w))),
            0xC => Some(Opcode::Random { reg: x, mask: Word(kk) }),
            0xD => Some(Opcode::Draw { x, y, height: n }),
            0xE => if kk == 0x9E {
                Some(Opcode::CondKeyJump { reg: x, cond: Condition::Equal })
            } else if kk == 0xA1 {
                Some(Opcode::CondKeyJump { reg: x, cond: Condition::NotEqual })
            } else {
                None
            },
            _ => if kk == 0x07 {
                Some(Opcode::GetDelayTimer(x))
            } else if kk == 0x0A {
                Some(Opcode::BlockOnKey(x))
            } else if kk == 0x15 {
                Some(Opcode::SetTimer { reg: x, timer: Timer::Delay })
            } else if kk == 0x18 {
                Some(Opcode::SetTimer { reg: x, timer: Timer::Sound })
            } else if kk == 0x1E {
                Some(Opcode::AddAddress(x))
            } else if kk == 0x29 {
                Some(Opcode::GetCharacterAddress(x))
            } else if kk == 0x33 {
                Some(Opcode::WriteBCD(x))
            } else if kk == 0x55 {
                Some(Opcode::DumpValueRegisters(x))
            } else if kk == 0x65 {
                Some(Opcode::LoadValueRegisters(x))
            } else {
                None
            },
        }
    }
}

/// Whether a decoding result is exactly what the instruction table gives
/// for `w`: the operation, or a decode error carrying the word.
pub open spec fn decoded_as(r: Result<Opcode, Error>, w: u16) -> bool {
    match decode_spec(w) {
        Some(op) => r == Ok::<Opcode, Error>(op),
        None => r is Err && r->Err_0.kind == (ErrorKind::Decode { word: w }),
    }
}

proof fn lemma_fields(w: u16)
    ensures
        (w & 0xF000) >> 12u16 == nib1(w),
        (w & 0x0F00) >> 8u16 == nib_x(w),
        (w & 0x00F0) >> 4u16 == nib_y(w),
        w & 0x000F == nib_n(w),
        w & 0x00FF == low_byte(w),
        w & 0x0FFF == addr12(w).0,
        nib1(w) < 16,
        nib_x(w) < 16,
        nib_y(w) < 16,
        nib_n(w) < 16,
{
    assert((w & 0xF000) >> 12u16 == w / 0x1000) by (bit_vector);
    assert((w & 0x0F00) >> 8u16 == (w / 0x100) % 0x10) by (bit_vector);
    assert((w & 0x00F0) >> 4u16 == (w / 0x10) % 0x10) by (bit_vector);
    assert(w & 0x000F == w % 0x10) by (bit_vector);
    assert(w & 0x00FF == w % 0x100) by (bit_vector);
    assert(w & 0x0FFF == w % 0x1000) by (bit_vector);
}

fn decode_error(value: u16) -> (r: Error)
    ensures
        r.kind == (ErrorKind::Decode { word: value }),
{
    Error::of_kind(ErrorKind::Decode { word: value }, "Invalid opcode")
}

impl Opcode {
    /// Decodes a big-endian instruction from its two bytes.
    pub fn decode_bytes(bytes: &[u8; 2]) -> (r: Result<Opcode, Error>)
        ensures
            decoded_as(r, (bytes[0] * 256 + bytes[1]) as u16),
    {
        let value: u16 = (bytes[0] as u16) * 256 + bytes[1] as u16;
        Opcode::decode(value)
    }

    /// Decodes an instruction word. Fails with a decode error carrying the
    /// word exactly when the word is outside the instruction set.
    pub fn decode(value: u16) -> (r: Result<Opcode, Error>)
        ensures
            decoded_as(r, value),
    {
        proof {
            lemma_fields(value);
        }
        if value == 0x0000 {
            return Ok(Opcode::Nop);
        }
        if value == 0x00E0 {
            return Ok(Opcode::ClearScreen);
        }
        if value == 0x00EE {
            return Ok(Opcode::Return);
        }
        let first_nibble = ((value & 0xF000) >> 12) as u8;
        let x = ((value & 0x0F00) >> 8) as u8;
        let y = ((value & 0x00F0) >> 4) as u8;
        let last_nibble = (value & 0x000F) as u8;
        let last_byte = (value & 0x00FF) as u8;
        let addr = Address(value & 0x0FFF);
        match first_nibble {
            0x0 => Ok(Opcode::CallNative(addr)),
            0x1 => Ok(Opcode::Jump(addr)),
            0x2 => Ok(Opcode::Call(addr)),
            0xA => Ok(Opcode::AssignAddress(addr)),
            0xB => Ok(Opcode::OffsetJump(addr)),
            0x3 | 0x4 => Ok(Opcode::CondJump {
                left: OpcodeParam::Register(x),
                right: OpcodeParam::Immediate(Word(last_byte)),
                cond: if first_nibble == 0x3 { Condition::Equal } else { Condition::NotEqual },
            }),
            0x5 | 0x9 => Ok(Opcode::CondJump {
                left: OpcodeParam::Register(x),
                right: OpcodeParam::Register(y),
                cond: if first_nibble == 0x5 { Condition::Equal } else { Condition::NotEqual },
            }),
            0x6 | 0x7 => Ok(Opcode::Assign {
                left_reg: x,
                right: OpcodeParam::Immediate(Word(last_byte)),
                op: if first_nibble == 0x6 { Operation::Assign } else { Operation::Add },
            }),
            0x8 => {
                if last_nibble == 0x6 || last_nibble == 0xE {
                    return Ok(Opcode::Shift { reg: x, right: last_nibble == 0x6 });
                }
                let op = match last_nibble {
                    0 => Operation::Assign,
                    1 => Operation::Or,
                    2 => Operation::And,
                    3 => Operation::Xor,
                    4 => Operation::Add,
                    5 => Operation::Sub,
                    7 => Operation::ReverseSub,
                    _ => {
                        return Err(decode_error(value));
                    },
                };
                Ok(Opcode::Assign { left_reg: x, right: OpcodeParam::Register(y), op })
            },
            0xC => Ok(Opcode::Random { reg: x, mask: Word(last_byte) }),
            0xD => Ok(Opcode::Draw { x, y, height: last_nibble }),
            0xE => match last_byte {
                0x9E => Ok(Opcode::CondKeyJump { reg: x, cond: Condition::Equal }),
                0xA1 => Ok(Opcode::CondKeyJump { reg: x, cond: Condition::NotEqual }),
                _ => Err(decode_error(value)),
            },
            _ => match last_byte {
                0x07 => Ok(Opcode::GetDelayTimer(x)),
                0x0A => Ok(Opcode::BlockOnKey(x)),
                0x15 => Ok(Opcode::SetTimer { reg: x, timer: Timer::Delay }),
                0x18 => Ok(Opcode::SetTimer { reg: x, timer: Timer::Sound }),
                0x1E => Ok(Opcode::AddAddress(x)),
                0x29 => Ok(Opcode::GetCharacterAddress(x)),
                0x33 => Ok(Opcode::WriteBCD(x)),
                0x55 => Ok(Opcode::DumpValueRegisters(x)),
                0x65 => Ok(Opcode::LoadValueRegisters(x)),
                _ => Err(decode_error(value)),
            },
        }
    }
}

} // verus!
