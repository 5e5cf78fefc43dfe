//! Byte-addressable memories and the mapper that composes named,
//! non-overlapping banks into one address space.

use vstd::prelude::*;
use crate::types::{wrap16, Address, Error, ErrorKind, Word};

verus! {

/// Whether a read gave what the model says: the word, or an error of the
/// model's kind.
pub open spec fn read_outcome(r: Result<Word, Error>, s: Result<Word, ErrorKind>) -> bool {
    match s {
        Ok(w) => r is Ok && r->Ok_0 == w,
        Err(k) => r is Err && r->Err_0.kind == k,
    }
}

/// A memory that can be read one address at a time.
pub trait ReadMemory: View {
    /// What reading `addr` from a memory with model `v` gives.
    spec fn read_spec(v: Self::V, addr: u16) -> Result<Word, ErrorKind>;

    fn get(&self, addr: Address) -> (r: Result<Word, Error>)
        ensures
            read_outcome(r, Self::read_spec(self@, addr.0)),
    ;
}

/// What reading the address `k` places above `base` gives.
pub open spec fn read_at<M: ReadMemory>(v: M::V, base: u16, k: int) -> Result<Word, ErrorKind> {
    M::read_spec(v, wrap16(base + k))
}

/// Reads every address of `range` in order, stopping at the first
/// failure.
pub fn get_range<M: ReadMemory>(mem: &M, range: MemoryRange) -> (r: Result<Vec<Word>, Error>)
    requires
        range.min.0 <= range.max.0,
    ensures
        r is Ok ==> r->Ok_0@.len() == range.max.0 - range.min.0 + 1 && forall|k: int|
            0 <= k < r->Ok_0@.len() ==> read_at::<M>(mem@, range.min.0, k)
                == Ok::<Word, ErrorKind>(#[trigger] r->Ok_0@[k]),
        r is Err ==> exists|k: int|
            0 <= k <= range.max.0 - range.min.0 && (forall|j: int|
                0 <= j < k ==> #[trigger] read_at::<M>(mem@, range.min.0, j) is Ok)
                && read_at::<M>(mem@, range.min.0, k) == Err::<Word, ErrorKind>(
                r->Err_0.kind,
            ),
{
    let count: u32 = range.max.0 as u32 - range.min.0 as u32 + 1;
    let mut result: Vec<Word> = Vec::new();
    let mut k: u32 = 0;
    while k < count
        invariant
            count == range.max.0 - range.min.0 + 1,
            k <= count,
            result@.len() == k,
            forall|j: int|
                0 <= j < k ==> read_at::<M>(mem@, range.min.0, j) == Ok::<
                    Word,
                    ErrorKind,
                >(#[trigger] result@[j]),
        decreases count - k,
    {
        let addr = Address((range.min.0 as u32 + k) as u16);
        match mem.get(addr) {
            Ok(w) => result.push(w),
            Err(e) => {
                assert forall|j: int| 0 <= j < k implies #[trigger] read_at::<M>(
                    mem@,
                    range.min.0,
                    j,
                ) is Ok by {
                    assert(read_at::<M>(mem@, range.min.0, j) == Ok::<Word, ErrorKind>(result@[j]));
                }
                assert(read_at::<M>(mem@, range.min.0, k as int) == Err::<Word, ErrorKind>(e.kind));
                return Err(e);
            },
        }
        k = k + 1;
    }
    Ok(result)
}

/// The model after writing `values` one by one from `start` upward, and the
/// kind of the first failure, if a write failed. Writing stops there.
pub open spec fn write_all<M: WriteMemory>(v: M::V, start: u16, values: Seq<Word>) -> (
    M::V,
    Option<ErrorKind>,
)
    decreases values.len(),
{
    if values.len() == 0 {
        (v, None)
    } else {
        match M::write_spec(v, start, values[0]) {
            Ok(v2) => write_all::<M>(v2, wrap16(start + 1), values.drop_first()),
            Err(k) => (v, Some(k)),
        }
    }
}

/// A memory that can be written one address at a time.
pub trait WriteMemory: View + Sized {
    /// The model after writing `value` at `addr`, or why the write fails.
    spec fn write_spec(v: Self::V, addr: u16, value: Word) -> Result<Self::V, ErrorKind>;

    fn set(&mut self, addr: Address, value: Word) -> (r: Result<(), Error>)
        ensures
            match Self::write_spec(old(self)@, addr.0, value) {
                Ok(v) => r is Ok && final(self)@ == v,
                Err(k) => r is Err && r->Err_0.kind == k && final(self)@ == old(self)@,
            },
    ;

}

/// Writes `values` to consecutive addresses from `start_addr`, stopping
/// at the first failure.
pub fn set_range<M: WriteMemory>(mem: &mut M, start_addr: Address, values: &[Word]) -> (r: Result<
    (),
    Error,
>)
    ensures
        final(mem)@ == write_all::<M>(old(mem)@, start_addr.0, values@).0,
        match write_all::<M>(old(mem)@, start_addr.0, values@).1 {
            None => r is Ok,
            Some(k) => r is Err && r->Err_0.kind == k,
        },
{
    let mut addr = start_addr;
    let mut i: usize = 0;
    assert(values@.skip(0) =~= values@);
    while i < values.len()
        invariant
            i <= values@.len(),
            addr.0 == wrap16(start_addr.0 + i),
            write_all::<M>(old(mem)@, start_addr.0, values@) == write_all::<M>(
                mem@,
                addr.0,
                values@.skip(i as int),
            ),
        decreases values@.len() - i,
    {
        assert(values@.skip(i as int).drop_first() =~= values@.skip(i + 1));
        let res = mem.set(addr, values[i]);
        match res {
            Ok(()) => {},
            Err(e) => {
                return Err(e);
            },
        }
        addr = addr.wrapping_add(1);
        i = i + 1;
    }
    assert(values@.skip(i as int).len() == 0);
    Ok(())
}

/// A memory that can be both read and written.
pub trait ReadWriteMemory: ReadMemory + WriteMemory {

}

impl<T: ReadMemory + WriteMemory> ReadWriteMemory for T {

}

/// An inclusive interval of addresses.
#[derive(Copy, Clone, PartialEq, Eq, Structural, Debug)]
pub struct MemoryRange {
    pub min: Address,
    pub max: Address,
}

impl MemoryRange {
    pub open spec fn contains_spec(self, addr: u16) -> bool {
        self.min.0 <= addr <= self.max.0
    }

    pub open spec fn overlaps_spec(self, other: MemoryRange) -> bool {
        self.min.0 <= other.max.0 && other.min.0 <= self.max.0
    }

    pub fn new(min: Address, max: Address) -> (r: MemoryRange)
        requires
            min.0 <= max.0,
        ensures
            r.min == min,
            r.max == max,
    {
        MemoryRange { min, max }
    }

    /// The range from `start` to `start + len`, both ends included.
    pub fn new_len(start: Address, len: u16) -> (r: MemoryRange)
        requires
            start.0 + len <= 0xFFFF,
        ensures
            r.min == start,
            r.max.0 == start.0 + len,
    {
        MemoryRange::new(start, Address(start.0 + len))
    }

    pub fn contains(&self, addr: Address) -> (r: bool)
        ensures
            r == self.contains_spec(addr.0),
    {
        self.min.0 <= addr.0 && self.max.0 >= addr.0
    }

    pub fn overlaps(&self, other: &MemoryRange) -> (r: bool)
        ensures
            r == self.overlaps_spec(*other),
    {
        self.min.0 <= other.max.0 && other.min.0 <= self.max.0
    }

    /// The distance from the lowest to the highest address.
    pub fn len(&self) -> (r: Address)
        ensures
            r.0 == wrap16(self.max.0 - self.min.0),
    {
        self.max.wrapping_sub(self.min.0)
    }

    /// Walks the addresses of the range in increasing order.
    pub fn iter(&self) -> (r: MemoryRangeIterator)
        ensures
            r.current == self.min.0 as int,
            r.end == self.max.0,
    {
        MemoryRangeIterator { current: self.min.0 as u32, end: self.max.0 }
    }
}

/// The addresses of a range that are still to come.
#[derive(Copy, Clone, Debug)]
pub struct MemoryRangeIterator {
    pub current: u32,
    pub end: u16,
}

impl MemoryRangeIterator {
    pub fn next(&mut self) -> (r: Option<Address>)
        requires
            old(self).current <= 0x10000,
        ensures
            old(self).current > old(self).end ==> r is None && *final(self) == *old(self),
            old(self).current <= old(self).end ==> r == Some(Address(old(self).current as u16))
                && final(self).current == old(self).current + 1 && final(self).end == old(
                self,
            ).end,
    {
        if self.current > self.end as u32 {
            None
        } else {
            let addr = Address(self.current as u16);
            self.current = self.current + 1;
            Some(addr)
        }
    }
}

/// A fixed-length store of words.
pub struct ByteArrayMemory(Vec<Word>);

impl View for ByteArrayMemory {
    type V = Seq<Word>;

    closed spec fn view(&self) -> Seq<Word> {
        self.0@
    }
}

impl ByteArrayMemory {
    /// A store holding a copy of `data`.
    pub fn new(data: &[u8]) -> (r: ByteArrayMemory)
        ensures
            r@.len() == data@.len(),
            forall|i: int| 0 <= i < data@.len() ==> #[trigger] r@[i] == Word(data@[i]),
    {
        let mut v: Vec<Word> = Vec::new();
        let mut i: usize = 0;
        while i < data.len()
            invariant
                i <= data@.len(),
                v@.len() == i,
                forall|j: int| 0 <= j < i ==> #[trigger] v@[j] == Word(data@[j]),
            decreases data@.len() - i,
        {
            v.push(Word(data[i]));
            i = i + 1;
        }
        ByteArrayMemory(v)
    }

    /// A store of `size` zero words.
    pub fn zero(size: usize) -> (r: ByteArrayMemory)
        ensures
            r@ == Seq::new(size as nat, |i: int| Word(0)),
    {
        let mut v: Vec<Word> = Vec::new();
        let mut i: usize = 0;
        while i < size
            invariant
                i <= size,
                v@ == Seq::new(i as nat, |j: int| Word(0)),
            decreases size - i,
        {
            v.push(Word(0));
            i = i + 1;
            assert(v@ =~= Seq::new(i as nat, |j: int| Word(0)));
        }
        ByteArrayMemory(v)
    }

    pub fn len(&self) -> (r: usize)
        ensures
            r == self@.len(),
    {
        self.0.len()
    }

    fn make_bounds_error(addr: Address) -> (r: Error)
        ensures
            r.kind == (ErrorKind::Bounds { addr: addr.0 }),
    {
        Error::of_kind(ErrorKind::Bounds { addr: addr.0 }, "Address is outside the byte array")
    }
}

impl ReadMemory for ByteArrayMemory {
    open spec fn read_spec(v: Seq<Word>, addr: u16) -> Result<Word, ErrorKind> {
        if addr < v.len() {
            Ok(v[addr as int])
        } else {
            Err(ErrorKind::Bounds { addr })
        }
    }

    fn get(&self, addr: Address) -> (r: Result<Word, Error>) {
        if (addr.0 as usize) < self.0.len() {
            Ok(self.0[addr.0 as usize])
        } else {
            Err(ByteArrayMemory::make_bounds_error(addr))
        }
    }
}

impl WriteMemory for ByteArrayMemory {
    open spec fn write_spec(v: Seq<Word>, addr: u16, value: Word) -> Result<Seq<Word>, ErrorKind> {
        if addr < v.len() {
            Ok(v.update(addr as int, value))
        } else {
            Err(ErrorKind::Bounds { addr })
        }
    }

    fn set(&mut self, addr: Address, value: Word) -> (r: Result<(), Error>) {
        if (addr.0 as usize) < self.0.len() {
            self.0.set(addr.0 as usize, value);
            Ok(())
        } else {
            Err(ByteArrayMemory::make_bounds_error(addr))
        }
    }
}

/// Which accesses a bank admits.
#[derive(Copy, Clone, PartialEq, Eq, Structural, Debug)]
pub enum Access {
    ReadWrite,
    ReadOnly,
    WriteOnly,
}

impl Access {
    pub open spec fn can_read(self) -> bool {
        !(self is WriteOnly)
    }

    pub open spec fn can_write(self) -> bool {
        !(self is ReadOnly)
    }
}

/// The model of one registered bank.
pub struct BankView {
    pub name: Seq<char>,
    pub range: MemoryRange,
    pub access: Access,
    pub data: Seq<Word>,
}

/// No two banks have overlapping ranges.
pub open spec fn disjoint(v: Seq<BankView>) -> bool {
    forall|i: int, j: int|
        0 <= i < j < v.len() ==> !(#[trigger] v[i].range).overlaps_spec(#[trigger] v[j].range)
}

/// Bank `i` is the first whose range covers `addr`.
pub open spec fn is_first_bank(v: Seq<BankView>, addr: u16, i: int) -> bool {
    &&& 0 <= i < v.len()
    &&& v[i].range.contains_spec(addr)
    &&& forall|j: int| 0 <= j < i ==> !(#[trigger] v[j].range).contains_spec(addr)
}

/// The bank that serves `addr`, if any covers it.
pub open spec fn bank_of(v: Seq<BankView>, addr: u16) -> Option<int> {
    if exists|i: int| is_first_bank(v, addr, i) {
        Some(choose|i: int| is_first_bank(v, addr, i))
    } else {
        None
    }
}

/// Why a bank refuses to read at a bank-local offset, if it does.
pub open spec fn read_fault(b: BankView, offset: int) -> Option<ErrorKind> {
    if !b.access.can_read() {
        Some(ErrorKind::Unsupported)
    } else if offset >= b.data.len() {
        Some(ErrorKind::Bounds { addr: offset as u16 })
    } else {
        None
    }
}

/// Why a bank refuses to write at a bank-local offset, if it does.
pub open spec fn write_fault(b: BankView, offset: int) -> Option<ErrorKind> {
    if !b.access.can_write() {
        Some(ErrorKind::Unsupported)
    } else if offset >= b.data.len() {
        Some(ErrorKind::Bounds { addr: offset as u16 })
    } else {
        None
    }
}

/// The offset of `addr` inside the bank.
pub open spec fn offset_in(b: BankView, addr: u16) -> int {
    addr - b.range.min.0
}

/// The names of the banks that overlap `range`, each after a space, in
/// registration order.
pub open spec fn conflict_text(v: Seq<BankView>, range: MemoryRange) -> Seq<char>
    decreases v.len(),
{
    if v.len() == 0 {
        Seq::empty()
    } else {
        let rest = conflict_text(v.drop_last(), range);
        if v.last().range.overlaps_spec(range) {
            rest + " "@ + v.last().name
        } else {
            rest
        }
    }
}

/// The message of the error that refuses a bank named `name` over `range`.
pub open spec fn conflict_message(name: Seq<char>, v: Seq<BankView>, range: MemoryRange) -> Seq<
    char,
> {
    "Bank "@ + name + " would overlap with"@ + conflict_text(v, range)
}

/// Some bank overlaps `range`.
pub open spec fn has_conflict(v: Seq<BankView>, range: MemoryRange) -> bool {
    exists|j: int| 0 <= j < v.len() && (#[trigger] v[j].range).overlaps_spec(range)
}

/// `t` occurs in `s` as a contiguous run.
pub open spec fn has_infix(s: Seq<char>, t: Seq<char>) -> bool {
    exists|k: int| 0 <= k && k + t.len() <= s.len() && #[trigger] s.subrange(k, k + t.len()) == t
}

struct MemoryMapperBank {
    name: String,
    range: MemoryRange,
    access: Access,
    delegate: ByteArrayMemory,
}

impl MemoryMapperBank {
    spec fn view(&self) -> BankView {
        BankView { name: self.name@, range: self.range, access: self.access, data: self.delegate@ }
    }

    fn offset(&self, addr: Address) -> (r: Address)
        ensures
            r.0 == wrap16(addr.0 - self.range.min.0),
    {
        addr.wrapping_sub(self.range.min.0)
    }
}

/// An address space built from named banks with pairwise disjoint ranges.
pub struct MemoryMapper {
    banks: Vec<MemoryMapperBank>,
}

impl View for MemoryMapper {
    type V = Seq<BankView>;

    closed spec fn view(&self) -> Seq<BankView> {
        self.banks@.map_values(|b: MemoryMapperBank| b.view())
    }
}

proof fn lemma_bank_of(v: Seq<BankView>, addr: u16, i: int)
    requires
        is_first_bank(v, addr, i),
    ensures
        bank_of(v, addr) == Some(i),
{
    let c = choose|c: int| is_first_bank(v, addr, c);
    assert(is_first_bank(v, addr, c));
    if c < i {
        assert(!v[c].range.contains_spec(addr));
    }
    if i < c {
        assert(!v[i].range.contains_spec(addr));
    }
}

proof fn lemma_no_bank(v: Seq<BankView>, addr: u16)
    requires
        forall|j: int| 0 <= j < v.len() ==> !(#[trigger] v[j].range).contains_spec(addr),
    ensures
        bank_of(v, addr) is None,
{
    if exists|i: int| is_first_bank(v, addr, i) {
        let c = choose|c: int| is_first_bank(v, addr, c);
        assert(v[c].range.contains_spec(addr));
    }
}

impl MemoryMapper {
    #[verifier::type_invariant]
    spec fn inv(&self) -> bool {
        disjoint(self@)
    }

    pub fn new() -> (r: MemoryMapper)
        ensures
            r@ == Seq::<BankView>::empty(),
    {
        let r = MemoryMapper { banks: Vec::new() };
        assert(r@ =~= Seq::<BankView>::empty());
        r
    }

    /// The index of the first bank that covers `addr`.
    fn find_bank(&self, addr: Address) -> (r: Option<usize>)
        ensures
            bank_of(self@, addr.0) == match r {
                Some(i) => Some(i as int),
                None => None::<int>,
            },
            r matches Some(i) ==> is_first_bank(self@, addr.0, i as int),
    {
        let mut i: usize = 0;
        while i < self.banks.len()
            invariant
                i <= self.banks@.len(),
                forall|j: int| 0 <= j < i ==> !(#[trigger] self@[j].range).contains_spec(addr.0),
            decreases self.banks@.len() - i,
        {
            if self.banks[i].range.contains(addr) {
                proof {
                    lemma_bank_of(self@, addr.0, i as int);
                }
                return Some(i);
            }
            i = i + 1;
        }
        proof {
            lemma_no_bank(self@, addr.0);
        }
        None
    }

    /// Registers `bank` over `range` with the given access. Fails, naming
    /// every bank in the way, when `range` overlaps a registered bank.
    fn add_bank(&mut self, bank: ByteArrayMemory, access: Access, range: MemoryRange, name: &str) -> (r:
        Result<(), Error>)
        ensures
            r is Ok <==> !has_conflict(old(self)@, range),
            r is Ok ==> final(self)@ == old(self)@.push(
                BankView { name: name@, range, access, data: bank@ },
            ),
            r is Err ==> final(self)@ == old(self)@ && r->Err_0.kind == ErrorKind::MapConflict
                && r->Err_0.message@ == conflict_message(name@, old(self)@, range),
    {
        proof {
            use_type_invariant(&*self);
        }
        let mut message = "Bank ".to_owned();
        message.append(name);
        message.append(" would overlap with");
        let mut found = false;
        let mut i: usize = 0;
        while i < self.banks.len()
            invariant
                i <= self.banks@.len(),
                message@ == "Bank "@ + name@ + " would overlap with"@ + conflict_text(
                    self@.take(i as int),
                    range,
                ),
                found <==> exists|j: int|
                    0 <= j < i && (#[trigger] self@[j].range).overlaps_spec(range),
            decreases self.banks@.len() - i,
        {
            assert(self@.take(i + 1).drop_last() =~= self@.take(i as int));
            assert(self@[i as int].range == self.banks@[i as int].range);
            if self.banks[i].range.overlaps(&range) {
                message.append(" ");
                message.append(self.banks[i].name.as_str());
                found = true;
            }
            i = i + 1;
        }
        assert(self@.take(i as int) =~= self@);
        if found {
            return Err(Error { kind: ErrorKind::MapConflict, message, cause: None });
        }
        let ghost before = self@;
        let mut banks: Vec<MemoryMapperBank> = Vec::new();
        std::mem::swap(&mut banks, &mut self.banks);
        assert(banks@.map_values(|b: MemoryMapperBank| b.view()) =~= before);
        banks.push(MemoryMapperBank { name: name.to_owned(), range, access, delegate: bank });
        assert(banks@.map_values(|b: MemoryMapperBank| b.view()) =~= before.push(
            BankView { name: name@, range, access, data: bank@ },
        ));
        self.banks = banks;
        Ok(())
    }

    /// Registers a readable and writable bank.
    pub fn add(&mut self, bank: ByteArrayMemory, range: MemoryRange, name: &str) -> (r: Result<
        (),
        Error,
    >)
        ensures
            r is Ok <==> !has_conflict(old(self)@, range),
            r is Ok ==> final(self)@ == old(self)@.push(
                BankView { name: name@, range, access: Access::ReadWrite, data: bank@ },
            ),
            r is Err ==> final(self)@ == old(self)@ && r->Err_0.kind == ErrorKind::MapConflict
                && r->Err_0.message@ == conflict_message(name@, old(self)@, range),
            disjoint(final(self)@),
    {
        let r = self.add_bank(bank, Access::ReadWrite, range, name);
        proof {
            use_type_invariant(&*self);
        }
        r
    }

    /// Registers a bank that refuses writes.
    pub fn add_read(&mut self, bank: ByteArrayMemory, range: MemoryRange, name: &str) -> (r:
        Result<(), Error>)
        ensures
            r is Ok <==> !has_conflict(old(self)@, range),
            r is Ok ==> final(self)@ == old(self)@.push(
                BankView { name: name@, range, access: Access::ReadOnly, data: bank@ },
            ),
            r is Err ==> final(self)@ == old(self)@ && r->Err_0.kind == ErrorKind::MapConflict
                && r->Err_0.message@ == conflict_message(name@, old(self)@, range),
            disjoint(final(self)@),
    {
        let r = self.add_bank(bank, Access::ReadOnly, range, name);
        proof {
            use_type_invariant(&*self);
        }
        r
    }

    /// Registers a bank that refuses reads.
    pub fn add_write(&mut self, bank: ByteArrayMemory, range: MemoryRange, name: &str) -> (r:
        Result<(), Error>)
        ensures
            r is Ok <==> !has_conflict(old(self)@, range),
            r is Ok ==> final(self)@ == old(self)@.push(
                BankView { name: name@, range, access: Access::WriteOnly, data: bank@ },
            ),
            r is Err ==> final(self)@ == old(self)@ && r->Err_0.kind == ErrorKind::MapConflict
                && r->Err_0.message@ == conflict_message(name@, old(self)@, range),
            disjoint(final(self)@),
    {
        let r = self.add_bank(bank, Access::WriteOnly, range, name);
        proof {
            use_type_invariant(&*self);
        }
        r
    }
}

/// Why the bank covering `addr` refused a read (or a write).
pub open spec fn access_cause(v: Seq<BankView>, addr: u16, write: bool) -> ErrorKind {
    let i = bank_of(v, addr)->Some_0;
    if write {
        write_fault(v[i], offset_in(v[i], addr))->Some_0
    } else {
        read_fault(v[i], offset_in(v[i], addr))->Some_0
    }
}

/// The message that adds the bank's name to a failed access.
fn bank_message(prefix: &str, bank_name: &String) -> (r: String)
    ensures
        r@ == prefix@ + bank_name@,
{
    let mut message = prefix.to_owned();
    message.append(bank_name.as_str());
    message
}

impl ReadMemory for MemoryMapper {
    /// The first bank covering `addr` serves the read at `addr` minus the
    /// bank's lowest address.
    open spec fn read_spec(v: Seq<BankView>, addr: u16) -> Result<Word, ErrorKind> {
        match bank_of(v, addr) {
            None => Err(ErrorKind::UnmappedAddress { addr }),
            Some(i) => match read_fault(v[i], offset_in(v[i], addr)) {
                Some(_) => Err(ErrorKind::BankAccess { addr }),
                None => Ok(v[i].data[offset_in(v[i], addr)]),
            },
        }
    }

    fn get(&self, addr: Address) -> (r: Result<Word, Error>)
        ensures
            r is Err && bank_of(self@, addr.0) is Some ==> r->Err_0.cause is Some
                && r->Err_0.cause->Some_0.kind == access_cause(self@, addr.0, false)
                && r->Err_0.message@ == "Unable to read from bank "@ + self@[bank_of(
                self@,
                addr.0,
            )->Some_0].name,
    {
        match self.find_bank(addr) {
            None => Err(Error::of_kind(ErrorKind::UnmappedAddress { addr: addr.0 }, "No bank mapped to address")),
            Some(i) => {
                let bank = &self.banks[i];
                assert(self@[i as int] == bank.view());
                let offset = bank.offset(addr);
                let message = bank_message("Unable to read from bank ", &bank.name);
                if let Access::WriteOnly = bank.access {
                    let cause = Error::of_kind(ErrorKind::Unsupported, "Read not supported for this memory");
                    return Err(cause.chain_as(ErrorKind::BankAccess { addr: addr.0 }, message));
                }
                match bank.delegate.get(offset) {
                    Ok(w) => Ok(w),
                    Err(e) => Err(e.chain_as(ErrorKind::BankAccess { addr: addr.0 }, message)),
                }
            },
        }
    }
}

impl WriteMemory for MemoryMapper {
    /// The first bank covering `addr` takes the write at `addr` minus the
    /// bank's lowest address.
    open spec fn write_spec(v: Seq<BankView>, addr: u16, value: Word) -> Result<
        Seq<BankView>,
        ErrorKind,
    > {
        match bank_of(v, addr) {
            None => Err(ErrorKind::UnmappedAddress { addr }),
            Some(i) => match write_fault(v[i], offset_in(v[i], addr)) {
                Some(_) => Err(ErrorKind::BankAccess { addr }),
                None => Ok(
                    v.update(
                        i,
                        BankView { data: v[i].data.update(offset_in(v[i], addr), value), ..v[i] },
                    ),
                ),
            },
        }
    }

    fn set(&mut self, addr: Address, value: Word) -> (r: Result<(), Error>)
        ensures
            r is Err && bank_of(old(self)@, addr.0) is Some ==> r->Err_0.cause is Some
                && r->Err_0.cause->Some_0.kind == access_cause(old(self)@, addr.0, true)
                && r->Err_0.message@ == "Unable to write to bank "@ + old(self)@[bank_of(
                old(self)@,
                addr.0,
            )->Some_0].name,
    {
        proof {
            use_type_invariant(&*self);
        }
        match self.find_bank(addr) {
            None => Err(Error::of_kind(ErrorKind::UnmappedAddress { addr: addr.0 }, "No bank mapped to address")),
            Some(i) => {
                let ghost before = self@;
                assert(self@[i as int] == self.banks@[i as int].view());
                let offset = self.banks[i].offset(addr);
                let message = bank_message("Unable to write to bank ", &self.banks[i].name);
                if let Access::ReadOnly = self.banks[i].access {
                    let cause = Error::of_kind(ErrorKind::Unsupported, "Write not supported for this memory");
                    return Err(cause.chain_as(ErrorKind::BankAccess { addr: addr.0 }, message));
                }
                let mut banks: Vec<MemoryMapperBank> = Vec::new();
                std::mem::swap(&mut banks, &mut self.banks);
                assert(banks@.map_values(|b: MemoryMapperBank| b.view()) =~= before);
                let res = banks[i].delegate.set(offset, value);
                assert(banks@.map_values(|b: MemoryMapperBank| b.view()) =~= match Self::write_spec(before, addr.0, value) {
                    Ok(v) => v,
                    Err(_) => before,
                });
                self.banks = banks;
                match res {
                    Ok(()) => Ok(()),
                    Err(e) => Err(e.chain_as(ErrorKind::BankAccess { addr: addr.0 }, message)),
                }
            },
        }
    }
}

proof fn lemma_infix_extend(s: Seq<char>, t: Seq<char>, before: Seq<char>, after: Seq<char>)
    requires
        has_infix(s, t),
    ensures
        has_infix(before + s + after, t),
{
    let k = choose|k: int| 0 <= k && k + t.len() <= s.len() && #[trigger] s.subrange(k, k + t.len()) == t;
    let w = before + s + after;
    let k2 = before.len() + k;
    assert(w.subrange(k2, k2 + t.len()) =~= s.subrange(k, k + t.len()));
}

proof fn lemma_infix_self(t: Seq<char>)
    ensures
        has_infix(t, t),
{
    let k: int = 0;
    assert(t.subrange(k, k + t.len()) =~= t);
}

proof fn lemma_conflict_text_names(v: Seq<BankView>, range: MemoryRange, j: int)
    requires
        0 <= j < v.len(),
        v[j].range.overlaps_spec(range),
    ensures
        has_infix(conflict_text(v, range), v[j].name),
    decreases v.len(),
{
    let rest = conflict_text(v.drop_last(), range);
    if j == v.len() - 1 {
        lemma_infix_self(v[j].name);
        lemma_infix_extend(v[j].name, v[j].name, rest + " "@, Seq::empty());
        assert(rest + " "@ + v[j].name + Seq::empty() =~= rest + " "@ + v[j].name);
    } else {
        assert(v.drop_last()[j] == v[j]);
        lemma_conflict_text_names(v.drop_last(), range, j);
        if v.last().range.overlaps_spec(range) {
            lemma_infix_extend(rest, v[j].name, Seq::empty(), " "@ + v.last().name);
            assert(Seq::<char>::empty() + rest + (" "@ + v.last().name) =~= rest + " "@ + v.last().name);
        }
    }
}

/// Registering a bank over a range that overlaps a registered bank is
/// refused (see `MemoryMapper::add`) with a message that names both the new
/// bank and every registered bank in the way.
pub proof fn lemma_conflict_names_both(v: Seq<BankView>, name: Seq<char>, range: MemoryRange, j: int)
    requires
        0 <= j < v.len(),
        v[j].range.overlaps_spec(range),
    ensures
        has_conflict(v, range),
        has_infix(conflict_message(name, v, range), name),
        has_infix(conflict_message(name, v, range), v[j].name),
{
    lemma_conflict_text_names(v, range, j);
    lemma_infix_extend(conflict_text(v, range), v[j].name, "Bank "@ + name + " would overlap with"@, Seq::empty());
    assert(("Bank "@ + name + " would overlap with"@) + conflict_text(v, range) + Seq::empty() =~= conflict_message(name, v, range));
    lemma_infix_self(name);
    lemma_infix_extend(name, name, "Bank "@, " would overlap with"@ + conflict_text(v, range));
    assert("Bank "@ + name + (" would overlap with"@ + conflict_text(v, range)) =~= conflict_message(name, v, range));
}

/// Reading or writing an address that no bank covers fails with an
/// unmapped-address error carrying that address.
pub proof fn lemma_unmapped(v: Seq<BankView>, addr: u16, value: Word)
    requires
        forall|j: int| 0 <= j < v.len() ==> !(#[trigger] v[j].range).contains_spec(addr),
    ensures
        MemoryMapper::read_spec(v, addr) == Err::<Word, ErrorKind>(ErrorKind::UnmappedAddress { addr }),
        MemoryMapper::write_spec(v, addr, value) == Err::<Seq<BankView>, ErrorKind>(
            ErrorKind::UnmappedAddress { addr },
        ),
{
    lemma_no_bank(v, addr);
}

} // verus!
