//! The value registers, the address register and the program counter.

use vstd::prelude::*;
use crate::memory::{read_at, set_range, write_all, ReadMemory, WriteMemory};
use crate::types::{Address, Error, ErrorKind, Word};

verus! {

/// Address at which programs start.
pub const PROGRAM_START: u16 = 0x0200;

pub struct Registers {
    /// Sixteen value registers; the last one doubles as the flag register.
    pub values: [Word; 16],
    pub program_counter: Address,
    /// The index register.
    pub address: Address,
}

impl Registers {
    pub fn new() -> (r: Registers)
        ensures
            forall|i: int| 0 <= i < 16 ==> #[trigger] r.values@[i] == Word(0),
            r.program_counter == Address(PROGRAM_START),
            r.address == Address(0),
    {
        Registers { values: [Word(0); 16], program_counter: Address(PROGRAM_START), address: Address(0) }
    }

    /// Writes registers `0..=max_reg` to consecutive addresses from
    /// `base_addr`, stopping at the first failed write.
    pub fn dump_values<M: WriteMemory>(&self, max_reg: u8, base_addr: Address, mem: &mut M) -> (r:
        Result<(), Error>)
        requires
            max_reg < 16,
        ensures
            final(mem)@ == write_all::<M>(
                old(mem)@,
                base_addr.0,
                self.values@.take(max_reg + 1),
            ).0,
            match write_all::<M>(old(mem)@, base_addr.0, self.values@.take(max_reg + 1)).1 {
                None => r is Ok,
                Some(k) => r is Err && r->Err_0.kind == k,
            },
    {
        let mut words: Vec<Word> = Vec::new();
        let mut i: usize = 0;
        while i <= max_reg as usize
            invariant
                i <= max_reg + 1,
                max_reg < 16,
                words@ == self.values@.take(i as int),
            decreases max_reg + 1 - i,
        {
            words.push(self.values[i]);
            i = i + 1;
            assert(words@ =~= self.values@.take(i as int));
        }
        set_range(mem, base_addr, words.as_slice())
    }

    /// Loads registers `0..=max_reg` from consecutive addresses from
    /// `base_addr`, stopping at the first failed read; registers past the
    /// failure, and those above `max_reg`, keep their values.
    pub fn load_values<M: ReadMemory>(&mut self, max_reg: u8, base_addr: Address, mem: &M) -> (r:
        Result<(), Error>)
        requires
            max_reg < 16,
        ensures
            final(self).program_counter == old(self).program_counter,
            final(self).address == old(self).address,
            loaded::<M>(old(self).values@, final(self).values@, r, max_reg as int, mem@, base_addr.0),
    {
        let mut i: usize = 0;
        while i <= max_reg as usize
            invariant
                i <= max_reg + 1,
                max_reg < 16,
                self.program_counter == old(self).program_counter,
                self.address == old(self).address,
                forall|j: int|
                    #![trigger self.values@[j]]
                    #![trigger read_at::<M>(mem@, base_addr.0, j)]
                    0 <= j < i ==> read_at::<M>(mem@, base_addr.0, j) == Ok::<Word, ErrorKind>(
                        self.values@[j],
                    ),
                forall|j: int| i <= j < 16 ==> #[trigger] self.values@[j] == old(self).values@[j],
            decreases max_reg + 1 - i,
        {
            match mem.get(base_addr.wrapping_add(i as u16)) {
                Ok(w) => {
                    self.values[i] = w;
                },
                Err(e) => {
                    assert(read_at::<M>(mem@, base_addr.0, i as int) == Err::<Word, ErrorKind>(e.kind));
                    return Err(e);
                },
            }
            i = i + 1;
        }
        Ok(())
    }
}

/// The outcome of loading registers `0..=max` one by one from the reads at
/// `base + k`: on success every loaded register holds its word; on failure at
/// the first failing `k`, registers below it were loaded and the error has
/// that read's kind. Registers not loaded keep their values.
pub open spec fn loaded<M: ReadMemory>(
    before: Seq<Word>,
    after: Seq<Word>,
    r: Result<(), Error>,
    max: int,
    v: M::V,
    base: u16,
) -> bool {
    &&& after.len() == before.len()
    &&& (r is Ok <==> forall|k: int| 0 <= k <= max ==> (#[trigger] read_at::<M>(v, base, k)) is Ok)
    &&& r is Ok ==> (forall|k: int|
        #![trigger after[k]]
        0 <= k <= max ==> read_at::<M>(v, base, k) == Ok::<Word, ErrorKind>(after[k])) && (forall|
        k: int,
    |
        max < k < before.len() ==> #[trigger] after[k] == before[k])
    &&& r is Err ==> exists|f: int|
        #![trigger read_at::<M>(v, base, f)]
        0 <= f <= max && read_at::<M>(v, base, f) == Err::<Word, ErrorKind>(r->Err_0.kind)
            && (forall|k: int|
            #![trigger after[k]]
            0 <= k < f ==> read_at::<M>(v, base, k) == Ok::<Word, ErrorKind>(after[k])) && (forall|
            k: int,
        |
            f <= k < before.len() ==> #[trigger] after[k] == before[k])
}

} // verus!
