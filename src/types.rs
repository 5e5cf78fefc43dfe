//! Machine words, addresses and the error type shared by every component.

use vstd::prelude::*;

verus! {

/// An 8-bit machine word. Arithmetic on it wraps modulo 256.
#[derive(Copy, Clone, PartialEq, Eq, Structural, PartialOrd, Ord, Default, Hash, Debug)]
pub struct Word(pub u8);

impl Word {
    pub fn new(value: u8) -> (r: Word)
        ensures
            r.0 == value,
    {
        Word(value)
    }

    pub fn value(self) -> (r: u8)
        ensures
            r == self.0,
    {
        self.0
    }

    /// Sum modulo 256.
    pub fn wrapping_add(self, rhs: Word) -> (r: Word)
        ensures
            r.0 == (self.0 + rhs.0) % 256,
    {
        Word(self.0.wrapping_add(rhs.0))
    }

    /// Difference modulo 256.
    pub fn wrapping_sub(self, rhs: Word) -> (r: Word)
        ensures
            r.0 == (self.0 - rhs.0) % 256,
    {
        Word(self.0.wrapping_sub(rhs.0))
    }
}

/// A 16-bit address. Arithmetic on it wraps modulo 65536.
#[derive(Copy, Clone, PartialEq, Eq, Structural, PartialOrd, Ord, Default, Hash, Debug)]
pub struct Address(pub u16);

impl Address {
    pub fn new(value: u16) -> (r: Address)
        ensures
            r.0 == value,
    {
        Address(value)
    }

    pub fn value(self) -> (r: u16)
        ensures
            r == self.0,
    {
        self.0
    }

    /// Sum modulo 65536.
    pub fn wrapping_add(self, rhs: u16) -> (r: Address)
        ensures
            r.0 == wrap16(self.0 + rhs),
    {
        Address(self.0.wrapping_add(rhs))
    }

    /// Difference modulo 65536.
    pub fn wrapping_sub(self, rhs: u16) -> (r: Address)
        ensures
            r.0 == wrap16(self.0 - rhs),
    {
        Address(self.0.wrapping_sub(rhs))
    }
}

/// An integer reduced into the 16-bit address space.
pub open spec fn wrap16(x: int) -> u16 {
    (x % 0x10000) as u16
}

/// What went wrong, with the value that caused it.
#[derive(Copy, Clone, PartialEq, Eq, Structural, Debug)]
pub enum ErrorKind {
    /// A free-form failure described only by its message.
    Message,
    /// The instruction word is not part of the instruction set.
    Decode { word: u16 },
    /// A bank-local address lies outside the backing store.
    Bounds { addr: u16 },
    /// A bank would overlap with banks that are already registered.
    MapConflict,
    /// No bank covers the address.
    UnmappedAddress { addr: u16 },
    /// A bank refused an access to this global address; the cause says why.
    BankAccess { addr: u16 },
    /// The operation is not available (reading a write-only bank, writing a
    /// read-only bank, executing an instruction with no implementation).
    Unsupported,
    /// A return was executed with no active call frame.
    EmptyStack,
    /// A key index outside `0..16`.
    KeyIndexOutOfRange,
}

/// An error with a message and an optional chain of causes, from the
/// highest-level operation down to the lowest-level detail.
#[derive(Debug)]
pub struct Error {
    pub kind: ErrorKind,
    pub message: String,
    pub cause: Option<Box<Error>>,
}

impl Error {
    pub fn new(message: String) -> (r: Error)
        ensures
            r.kind == ErrorKind::Message,
            r.message@ == message@,
            r.cause is None,
    {
        Error { kind: ErrorKind::Message, message, cause: None }
    }

    pub fn new_str(message: &str) -> (r: Error)
        ensures
            r.kind == ErrorKind::Message,
            r.message@ == message@,
            r.cause is None,
    {
        Error { kind: ErrorKind::Message, message: message.to_owned(), cause: None }
    }

    /// An error of the given kind with no cause.
    pub fn of_kind(kind: ErrorKind, message: &str) -> (r: Error)
        ensures
            r.kind == kind,
            r.message@ == message@,
            r.cause is None,
    {
        Error { kind, message: message.to_owned(), cause: None }
    }

    /// Wraps this error as the cause of a new one with more context. The
    /// kind stays that of the cause.
    pub fn chain(self, message: String) -> (r: Error)
        ensures
            r.kind == self.kind,
            r.message@ == message@,
            r.cause == Some(Box::new(self)),
    {
        let kind = self.kind;
        Error { kind, message, cause: Some(Box::new(self)) }
    }

    /// Wraps this error as the cause of a new one of another kind.
    pub fn chain_as(self, kind: ErrorKind, message: String) -> (r: Error)
        ensures
            r.kind == kind,
            r.message@ == message@,
            r.cause == Some(Box::new(self)),
    {
        Error { kind, message, cause: Some(Box::new(self)) }
    }
}

} // verus!
