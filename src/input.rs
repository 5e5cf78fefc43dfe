//! The sixteen-key input latch with its per-key debounce states.

use vstd::prelude::*;
use crate::types::{Error, ErrorKind};

verus! {

/// Number of keys.
pub const KEY_NUM: usize = 16;

/// The state of one key.
#[derive(Eq, PartialEq, Structural, Clone, Copy, Debug)]
pub enum KeyState {
    /// Not down.
    Released,
    /// Reported down this tick; released at the next tick unless held.
    Pressed,
    /// Down until released.
    Held,
}

/// The key states after one tick: a pressed key is released, a held key
/// stays held.
pub open spec fn tick_spec(keys: Seq<KeyState>) -> Seq<KeyState> {
    keys.map_values(|k: KeyState| if k is Held { KeyState::Held } else { KeyState::Released })
}

/// The key states after `n` ticks.
pub open spec fn ticks_spec(keys: Seq<KeyState>, n: nat) -> Seq<KeyState>
    decreases n,
{
    if n == 0 {
        keys
    } else {
        tick_spec(ticks_spec(keys, (n - 1) as nat))
    }
}

/// Checks that `value` names a key.
pub fn to_key_index(value: usize) -> (r: Result<usize, Error>)
    ensures
        value < KEY_NUM ==> r is Ok && r->Ok_0 == value,
        value >= KEY_NUM ==> r is Err && r->Err_0.kind == ErrorKind::KeyIndexOutOfRange,
{
    if value >= KEY_NUM {
        return Err(Error::of_kind(ErrorKind::KeyIndexOutOfRange, "Key index out of bounds"));
    }
    Ok(value)
}

/// The states of the sixteen keys.
pub struct InputBuffer {
    keys: [KeyState; 16],
}

impl View for InputBuffer {
    type V = Seq<KeyState>;

    closed spec fn view(&self) -> Seq<KeyState> {
        self.keys@
    }
}

impl InputBuffer {
    pub fn new() -> (r: InputBuffer)
        ensures
            r@ == Seq::new(16, |i: int| KeyState::Released),
    {
        let r = InputBuffer { keys: [KeyState::Released; 16] };
        assert(r@ =~= Seq::new(16, |i: int| KeyState::Released));
        r
    }

    pub proof fn lemma_len(&self)
        ensures
            self@.len() == 16,
    {
    }

    /// Whether key `index` is down: pressed or held.
    pub fn is_down(&self, index: usize) -> (r: Result<bool, Error>)
        ensures
            index < KEY_NUM ==> r is Ok && r->Ok_0 == !(self@[index as int] is Released),
            index >= KEY_NUM ==> r is Err && r->Err_0.kind == ErrorKind::KeyIndexOutOfRange,
    {
        let index = to_key_index(index)?;
        Ok(self.keys[index] != KeyState::Released)
    }

    /// Releases every pressed key; held keys stay held.
    pub fn tick(&mut self)
        ensures
            final(self)@ == tick_spec(old(self)@),
    {
        let mut i: usize = 0;
        while i < KEY_NUM
            invariant
                i <= KEY_NUM,
                self@.len() == 16,
                forall|j: int| 0 <= j < i ==> self@[j] == tick_spec(old(self)@)[j],
                forall|j: int| i <= j < 16 ==> self@[j] == old(self)@[j],
            decreases KEY_NUM - i,
        {
            let next = match self.keys[i] {
                KeyState::Held => KeyState::Held,
                _ => KeyState::Released,
            };
            self.keys[i] = next;
            i = i + 1;
        }
        assert(self@ =~= tick_spec(old(self)@));
    }

    pub fn press(&mut self, index: usize) -> (r: Result<(), Error>)
        ensures
            set_outcome(r, *old(self), *final(self), index, KeyState::Pressed),
    {
        self.set_state(index, KeyState::Pressed)
    }

    pub fn hold(&mut self, index: usize) -> (r: Result<(), Error>)
        ensures
            set_outcome(r, *old(self), *final(self), index, KeyState::Held),
    {
        self.set_state(index, KeyState::Held)
    }

    pub fn release(&mut self, index: usize) -> (r: Result<(), Error>)
        ensures
            set_outcome(r, *old(self), *final(self), index, KeyState::Released),
    {
        self.set_state(index, KeyState::Released)
    }

    fn set_state(&mut self, index: usize, state: KeyState) -> (r: Result<(), Error>)
        ensures
            set_outcome(r, *old(self), *final(self), index, state),
    {
        let index = to_key_index(index)?;
        self.keys[index] = state;
        Ok(())
    }
}

/// Key `index` took `state`, or, for an index that names no key, nothing
/// changed and the error says so.
pub open spec fn set_outcome(
    r: Result<(), Error>,
    before: InputBuffer,
    after: InputBuffer,
    index: usize,
    state: KeyState,
) -> bool {
    if index < KEY_NUM {
        r is Ok && after@ == before@.update(index as int, state)
    } else {
        r is Err && r->Err_0.kind == ErrorKind::KeyIndexOutOfRange && after@ == before@
    }
}

/// A key that was pressed is no longer down after the next tick, unless it
/// was held.
pub proof fn lemma_press_then_tick_released(keys: Seq<KeyState>, k: int)
    requires
        0 <= k < keys.len(),
    ensures
        tick_spec(keys.update(k, KeyState::Pressed))[k] is Released,
{
}

/// A held key stays down through any number of ticks.
pub proof fn lemma_held_survives_ticks(keys: Seq<KeyState>, k: int, n: nat)
    requires
        0 <= k < keys.len(),
        keys[k] is Held,
    ensures
        ticks_spec(keys, n).len() == keys.len(),
        ticks_spec(keys, n)[k] is Held,
    decreases n,
{
    if n > 0 {
        lemma_held_survives_ticks(keys, k, (n - 1) as nat);
    }
}

/// The keys as the machine sees them. Platform event translation feeds
/// `buffer` from outside.
pub struct InputManager {
    pub buffer: InputBuffer,
}

impl InputManager {
    pub fn new() -> (r: InputManager)
        ensures
            r.buffer@ == Seq::new(16, |i: int| KeyState::Released),
    {
        InputManager { buffer: InputBuffer::new() }
    }

    pub fn is_down(&self, index: usize) -> (r: Result<bool, Error>)
        ensures
            index < KEY_NUM ==> r is Ok && r->Ok_0 == !(self.buffer@[index as int] is Released),
            index >= KEY_NUM ==> r is Err && r->Err_0.kind == ErrorKind::KeyIndexOutOfRange,
    {
        self.buffer.is_down(index)
    }

    /// Advances the debounce of every key by one tick.
    pub fn tick(&mut self) -> (r: Result<(), Error>)
        ensures
            r is Ok,
            final(self).buffer@ == tick_spec(old(self).buffer@),
    {
        self.buffer.tick();
        Ok(())
    }
}

} // verus!
