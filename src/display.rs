//! Bit-packed monochrome video memory with an observer registry.
//!
//! Coordinates wrap: `x` is taken modulo the width and `y` modulo the
//! height, for reads and writes alike.

use vstd::prelude::*;
use crate::types::{Error, ErrorKind};

verus! {

/// Width of the display in pixels.
pub const BIT_WIDTH: usize = 64;

/// Height of the display in pixels.
pub const BIT_HEIGHT: usize = 32;

/// Bytes of packed pixel data, eight pixels per byte.
pub const VRAM_LEN: usize = 256;

/// Number of pixels.
pub const PIXEL_COUNT: usize = 2048;

/// Receives the changes of a video memory it is attached to.
pub trait VideoListener {
    /// Called before the listener is recorded.
    fn on_attach(&mut self) -> Result<(), Error> {
        Ok(())
    }

    /// Called after pixel `(x, y)` was set to `value`.
    fn on_change(&mut self, x: usize, y: usize, value: bool) -> Result<(), Error> {
        Ok(())
    }

    /// Called after every pixel was cleared.
    fn on_clear(&mut self) -> Result<(), Error> {
        Ok(())
    }

    /// Called after the listener was removed, before it is discarded.
    fn on_detach(&mut self) -> Result<(), Error> {
        Ok(())
    }
}

/// The position, in row-major order, of the pixel at `(x, y)` once both
/// coordinates are wrapped into the display.
pub open spec fn pixel_index(x: int, y: int) -> int {
    (y % 32) * 64 + (x % 64)
}

/// Bit `o` of `b`, counting from the least significant.
pub open spec fn bit_of(b: u8, o: int) -> bool {
    (b >> (o as u8)) & 1 == 1
}

/// The pixels that packed data stands for.
pub open spec fn unpack(data: Seq<u8>) -> Seq<bool> {
    Seq::new(2048, |i: int| bit_of(data[i / 8], i % 8))
}

/// A 64x32 monochrome frame, row-major and eight pixels per byte, with the
/// listeners attached to it in registration order.
pub struct VideoMemory<L: VideoListener> {
    data: [u8; 256],
    listeners: Vec<(u8, L)>,
    next_listener_id: u16,
}

impl<L: VideoListener> View for VideoMemory<L> {
    type V = Seq<bool>;

    closed spec fn view(&self) -> Seq<bool> {
        unpack(self.data@)
    }
}

/// Listener ids are strictly increasing in registration order and all
/// below the next id to hand out.
pub open spec fn ids_ordered(ids: Seq<u8>, next: int) -> bool {
    &&& forall|i: int, j: int| 0 <= i < j < ids.len() ==> ids[i] < ids[j]
    &&& forall|i: int| 0 <= i < ids.len() ==> ids[i] < next
}

proof fn lemma_bit_ops(b: u8, o: u8, j: u8)
    requires
        o < 8,
        j < 8,
    ensures
        ((b | (1u8 << o)) >> j) & 1 == 1 <==> (j == o || (b >> j) & 1 == 1),
        ((b & !(1u8 << o)) >> j) & 1 == 1 <==> (j != o && (b >> j) & 1 == 1),
        ((b ^ (1u8 << o)) >> j) & 1 == 1 <==> (if j == o {
            (b >> j) & 1 != 1
        } else {
            (b >> j) & 1 == 1
        }),
{
    assert(((b | (1u8 << o)) >> j) & 1 == 1 <==> (j == o || (b >> j) & 1 == 1)) by (bit_vector)
        requires
            o < 8,
            j < 8,
    ;
    assert(((b & !(1u8 << o)) >> j) & 1 == 1 <==> (j != o && (b >> j) & 1 == 1)) by (bit_vector)
        requires
            o < 8,
            j < 8,
    ;
    assert(((b ^ (1u8 << o)) >> j) & 1 == 1 <==> (if j == o {
        (b >> j) & 1 != 1
    } else {
        (b >> j) & 1 == 1
    })) by (bit_vector)
        requires
            o < 8,
            j < 8,
    ;
}

proof fn lemma_zero_bits(o: u8)
    ensures
        (0u8 >> o) & 1 != 1,
{
    assert((0u8 >> o) & 1 != 1) by (bit_vector);
}

/// Replacing one byte of packed data by `nb` changes, among the pixels,
/// only those of that byte, as `nb` says.
proof fn lemma_unpack_update(data: Seq<u8>, bi: int, nb: u8)
    requires
        data.len() == 256,
        0 <= bi < 256,
    ensures
        forall|i: int|
            0 <= i < 2048 ==> #[trigger] unpack(data.update(bi, nb))[i] == if i / 8 == bi {
                bit_of(nb, i % 8)
            } else {
                unpack(data)[i]
            },
{
}

impl<L: VideoListener> VideoMemory<L> {
    #[verifier::type_invariant]
    spec fn inv(&self) -> bool {
        &&& self.next_listener_id <= 256
        &&& ids_ordered(self.listener_ids(), self.next_listener_id as int)
    }

    /// The ids of the attached listeners, in registration order.
    pub closed spec fn listener_ids(&self) -> Seq<u8> {
        self.listeners@.map_values(|p: (u8, L)| p.0)
    }

    /// The frame always holds every pixel.
    pub proof fn lemma_view_len(&self)
        ensures
            self@.len() == PIXEL_COUNT,
    {
    }

    /// The id the next attached listener will get.
    pub closed spec fn next_id(&self) -> int {
        self.next_listener_id as int
    }

    /// The listeners themselves, in registration order.
    pub closed spec fn listeners(&self) -> Seq<L> {
        self.listeners@.map_values(|p: (u8, L)| p.1)
    }

    pub fn new() -> (r: VideoMemory<L>)
        ensures
            r@ == Seq::new(2048, |i: int| false),
            r.listener_ids() == Seq::<u8>::empty(),
            r.next_id() == 0,
    {
        let listeners: Vec<(u8, L)> = Vec::new();
        assert(listeners@.map_values(|p: (u8, L)| p.0) =~= Seq::<u8>::empty());
        let r = VideoMemory { data: [0u8; 256], listeners, next_listener_id: 0 };
        assert forall|i: int| 0 <= i < 2048 implies !#[trigger] r@[i] by {
            lemma_zero_bits((i % 8) as u8);
        }
        assert(r@ =~= Seq::new(2048, |i: int| false));
        r
    }

    /// The byte that holds the pixel at `(x, y)` and its bit in that byte.
    fn get_index_offset(&self, x: usize, y: usize) -> (r: (usize, u8))
        ensures
            r.0 as int == pixel_index(x as int, y as int) / 8,
            r.1 as int == pixel_index(x as int, y as int) % 8,
            r.0 < 256,
            r.1 < 8,
    {
        let x = x % BIT_WIDTH;
        let y = y % BIT_HEIGHT;
        let bit_index = x + y * BIT_WIDTH;
        (bit_index / 8, (bit_index % 8) as u8)
    }

    /// The pixel at `(x, y)`.
    pub fn get(&self, x: usize, y: usize) -> (r: Result<bool, Error>)
        ensures
            r is Ok,
            r->Ok_0 == self@[pixel_index(x as int, y as int)],
    {
        let (byte_index, bit_offset) = self.get_index_offset(x, y);
        let bit = (self.data[byte_index] >> bit_offset) & 1;
        Ok(bit == 1)
    }

    /// Replaces the packed pixel data.
    fn store(&mut self, data: [u8; 256])
        ensures
            final(self)@ == unpack(data@),
            final(self).listener_ids() == old(self).listener_ids(),
            final(self).next_id() == old(self).next_id(),
    {
        proof {
            use_type_invariant(&*self);
        }
        self.data = data;
    }

    /// Tells every listener, in registration order, that `(x, y)` became
    /// `value`, or that the frame was cleared; stops at the first listener
    /// that fails.
    fn notify(&mut self, x: usize, y: usize, value: bool, cleared: bool) -> (r: Result<(), Error>)
        ensures
            final(self)@ == old(self)@,
            final(self).listener_ids() == old(self).listener_ids(),
            final(self).next_id() == old(self).next_id(),
            old(self).listener_ids().len() == 0 ==> r is Ok,
    {
        proof {
            use_type_invariant(&*self);
        }
        let ghost ids = self.listener_ids();
        let mut listeners: Vec<(u8, L)> = Vec::new();
        std::mem::swap(&mut listeners, &mut self.listeners);
        let mut result: Result<(), Error> = Ok(());
        let mut i: usize = 0;
        while i < listeners.len()
            invariant
                i <= listeners@.len(),
                listeners@.map_values(|p: (u8, L)| p.0) == ids,
                ids.len() == 0 ==> result is Ok,
            decreases listeners@.len() - i,
        {
            let ghost before = listeners@;
            let res = if cleared {
                listeners[i].1.on_clear()
            } else {
                listeners[i].1.on_change(x, y, value)
            };
            assert(listeners@.map_values(|p: (u8, L)| p.0) =~= before.map_values(|p: (u8, L)| p.0));
            if let Err(e) = res {
                result = Err(e);
                break;
            }
            i = i + 1;
        }
        self.listeners = listeners;
        result
    }

    /// Sets the pixel at `(x, y)` and returns its previous value. With no
    /// listener attached it always succeeds.
    pub fn set(&mut self, x: usize, y: usize, value: bool) -> (r: Result<bool, Error>)
        ensures
            final(self)@ == old(self)@.update(pixel_index(x as int, y as int), value),
            r is Ok ==> r->Ok_0 == old(self)@[pixel_index(x as int, y as int)],
            old(self).listener_ids().len() == 0 ==> r is Ok,
            final(self).listener_ids() == old(self).listener_ids(),
            final(self).next_id() == old(self).next_id(),
    {
        let (byte_index, bit_offset) = self.get_index_offset(x, y);
        let old_byte = self.data[byte_index];
        let old_bit = (old_byte >> bit_offset) & 1;
        let new_byte = if value {
            old_byte | (1u8 << bit_offset)
        } else {
            old_byte & !(1u8 << bit_offset)
        };
        let mut data = self.data;
        data[byte_index] = new_byte;
        self.store(data);
        proof {
            let idx = pixel_index(x as int, y as int);
            lemma_unpack_update(old(self).data@, byte_index as int, new_byte);
            lemma_bit_ops(old_byte, bit_offset, bit_offset);
            assert forall|i: int| 0 <= i < 2048 && i / 8 == byte_index as int implies bit_of(
                new_byte,
                i % 8,
            ) == (if i == idx {
                value
            } else {
                old(self)@[i]
            }) by {
                lemma_bit_ops(old_byte, bit_offset, (i % 8) as u8);
                assert(old(self)@[i] == bit_of(old_byte, i % 8));
            }
            assert(self@ =~= old(self)@.update(idx, value));
        }
        self.notify(x, y, value, false)?;
        Ok(old_bit == 1)
    }

    /// Inverts the pixel at `(x, y)` and returns its new value. With no
    /// listener attached it always succeeds.
    pub fn flip(&mut self, x: usize, y: usize) -> (r: Result<bool, Error>)
        ensures
            final(self)@ == old(self)@.update(
                pixel_index(x as int, y as int),
                !old(self)@[pixel_index(x as int, y as int)],
            ),
            r is Ok ==> r->Ok_0 == !old(self)@[pixel_index(x as int, y as int)],
            old(self).listener_ids().len() == 0 ==> r is Ok,
            final(self).listener_ids() == old(self).listener_ids(),
            final(self).next_id() == old(self).next_id(),
    {
        let (byte_index, bit_offset) = self.get_index_offset(x, y);
        let old_byte = self.data[byte_index];
        let new_byte = old_byte ^ (1u8 << bit_offset);
        let mut data = self.data;
        data[byte_index] = new_byte;
        self.store(data);
        let bit = (new_byte >> bit_offset) & 1;
        proof {
            let idx = pixel_index(x as int, y as int);
            lemma_unpack_update(old(self).data@, byte_index as int, new_byte);
            lemma_bit_ops(old_byte, bit_offset, bit_offset);
            assert forall|i: int| 0 <= i < 2048 && i / 8 == byte_index as int implies bit_of(
                new_byte,
                i % 8,
            ) == (if i == idx {
                !old(self)@[idx]
            } else {
                old(self)@[i]
            }) by {
                lemma_bit_ops(old_byte, bit_offset, (i % 8) as u8);
            }
            assert(self@ =~= old(self)@.update(idx, !old(self)@[idx]));
        }
        self.notify(x, y, bit == 1, false)?;
        Ok(bit == 1)
    }

    /// Turns every pixel off, then tells every listener. With no listener
    /// attached it always succeeds.
    pub fn clear(&mut self) -> (r: Result<(), Error>)
        ensures
            final(self)@ == Seq::new(2048, |i: int| false),
            old(self).listener_ids().len() == 0 ==> r is Ok,
            final(self).listener_ids() == old(self).listener_ids(),
            final(self).next_id() == old(self).next_id(),
    {
        self.store([0u8; 256]);
        assert forall|i: int| 0 <= i < 2048 implies !#[trigger] self@[i] by {
            lemma_zero_bits((i % 8) as u8);
        }
        assert(self@ =~= Seq::new(2048, |i: int| false));
        self.notify(0, 0, false, true)
    }

    /// Gives `listener` its setup call, then records it under the next id,
    /// which it returns. Fails, without recording it, when the setup call
    /// fails or every id has been handed out.
    pub fn attach(&mut self, listener: L) -> (r: Result<u8, Error>)
        ensures
            final(self)@ == old(self)@,
            old(self).next_id() > 255 ==> r is Err,
            r is Ok ==> r->Ok_0 == old(self).next_id() && !old(self).listener_ids().contains(r->Ok_0)
                && final(self).listener_ids() == old(self).listener_ids().push(r->Ok_0)
                && final(self).next_id() == old(self).next_id() + 1,
            r is Err ==> final(self).listener_ids() == old(self).listener_ids() && final(self).next_id()
                == old(self).next_id(),
            ids_ordered(final(self).listener_ids(), final(self).next_id()),
    {
        proof {
            use_type_invariant(&*self);
        }
        if self.next_listener_id > 255 {
            return Err(Error::of_kind(ErrorKind::Unsupported, "No listener ids left"));
        }
        let mut listener = listener;
        listener.on_attach()?;
        let id = self.next_listener_id as u8;
        let ghost ids = self.listener_ids();
        let mut listeners: Vec<(u8, L)> = Vec::new();
        std::mem::swap(&mut listeners, &mut self.listeners);
        listeners.push((id, listener));
        assert(listeners@.map_values(|p: (u8, L)| p.0) =~= ids.push(id));
        self.next_listener_id = self.next_listener_id + 1;
        self.listeners = listeners;
        Ok(id)
    }

    /// Removes the listener recorded under `id`, if any, and gives it its
    /// teardown call.
    pub fn detach(&mut self, id: u8) -> (r: Result<(), Error>)
        ensures
            final(self)@ == old(self)@,
            final(self).next_id() == old(self).next_id(),
            !final(self).listener_ids().contains(id),
            match old(self).listener_ids().index_of_first(id) {
                None => r is Ok && final(self).listener_ids() == old(self).listener_ids(),
                Some(k) => final(self).listener_ids() == old(self).listener_ids().remove(k),
            },
            ids_ordered(final(self).listener_ids(), final(self).next_id()),
    {
        proof {
            use_type_invariant(&*self);
        }
        let ghost ids = self.listener_ids();
        proof {
            ids.index_of_first_ensures(id);
        }
        let mut i: usize = 0;
        while i < self.listeners.len()
            invariant
                i <= self.listeners@.len(),
                self == old(self),
                ids == self.listener_ids(),
                self.next_listener_id <= 256,
                ids_ordered(ids, self.next_listener_id as int),
                forall|j: int| 0 <= j < i ==> ids[j] != id,
            decreases self.listeners@.len() - i,
        {
            if self.listeners[i].0 == id {
                assert(ids[i as int] == id);
                proof {
                    ids.index_of_first_ensures(id);
                }
                let mut listeners: Vec<(u8, L)> = Vec::new();
                std::mem::swap(&mut listeners, &mut self.listeners);
                let (_, mut listener) = listeners.remove(i);
                assert(listeners@.map_values(|p: (u8, L)| p.0) =~= ids.remove(i as int));
                self.listeners = listeners;
                proof {
                    use_type_invariant(&*self);
                    assert forall|j: int| 0 <= j < self.listener_ids().len() implies self.listener_ids()[j] != id by {
                        if j < i {
                        } else {
                            assert(self.listener_ids()[j] == ids[j + 1]);
                            assert(ids[i as int] < ids[j + 1]);
                        }
                    }
                }
                return listener.on_detach();
            }
            i = i + 1;
        }
        Ok(())
    }

    /// Detaches every listener, in registration order; stops at the first
    /// teardown call that fails, leaving the listeners after it attached.
    /// With no listener attached it does nothing and succeeds.
    pub fn detach_all(&mut self) -> (r: Result<(), Error>)
        ensures
            final(self)@ == old(self)@,
            final(self).next_id() == old(self).next_id(),
            old(self).listener_ids().len() == 0 ==> r is Ok,
            r is Ok ==> final(self).listener_ids() == Seq::<u8>::empty(),
            exists|k: int|
                0 <= k <= old(self).listener_ids().len() && final(self).listener_ids() == old(
                    self,
                ).listener_ids().skip(k),
            ids_ordered(final(self).listener_ids(), final(self).next_id()),
    {
        proof {
            use_type_invariant(&*self);
        }
        let ghost ids = self.listener_ids();
        let mut listeners: Vec<(u8, L)> = Vec::new();
        std::mem::swap(&mut listeners, &mut self.listeners);
        let mut result: Result<(), Error> = Ok(());
        let ghost mut k: int = 0;
        assert(ids.skip(0) =~= ids);
        while listeners.len() > 0
            invariant_except_break
                result is Ok,
            invariant
                0 <= k <= ids.len(),
                k + listeners@.len() == ids.len(),
                listeners@.map_values(|p: (u8, L)| p.0) == ids.skip(k),
                ids.len() == 0 ==> result is Ok,
            ensures
                result is Ok ==> listeners@.len() == 0,
            decreases listeners@.len(),
        {
            let ghost before = listeners@;
            let (_, mut listener) = listeners.remove(0);
            proof {
                assert forall|j: int| 0 <= j < listeners@.len() implies #[trigger] listeners@[j].0 == ids.skip(k + 1)[j] by {
                    assert(listeners@[j] == before[j + 1]);
                    assert(before.map_values(|p: (u8, L)| p.0)[j + 1] == ids.skip(k)[j + 1]);
                }
                assert(listeners@.map_values(|p: (u8, L)| p.0) =~= ids.skip(k + 1));
                k = k + 1;
            }
            if let Err(e) = listener.on_detach() {
                result = Err(e);
                break;
            }
        }
        proof {
            if result is Ok {
                assert(listeners@.len() == 0);
                assert(ids.skip(k) =~= Seq::<u8>::empty());
            }
            assert forall|i: int, j: int| 0 <= i < j < ids.skip(k).len() implies ids.skip(k)[i] < ids.skip(k)[j] by {
                assert(ids.skip(k)[i] == ids[i + k] && ids.skip(k)[j] == ids[j + k]);
            }
            assert forall|i: int| 0 <= i < ids.skip(k).len() implies ids.skip(k)[i] < self.next_listener_id by {
                assert(ids.skip(k)[i] == ids[i + k]);
            }
        }
        self.listeners = listeners;
        result
    }
}

} // verus!
