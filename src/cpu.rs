//! The execution engine: fetch, decode and execute, one instruction a tick.

use vstd::prelude::*;
use crate::display::{pixel_index, VideoListener, VideoMemory};
use crate::input::{tick_spec, InputManager, KeyState, KEY_NUM};
use crate::memory::{
    set_range, write_all, BankView, ByteArrayMemory, MemoryMapper, MemoryRange, ReadMemory,
};
use crate::opcodes::{decode_spec, evaluate_spec, Condition, Opcode, OpcodeParam, Timer};
use crate::registers::{loaded, Registers};
use crate::timers::{advance_spec, Timers};
use crate::types::{wrap16, Address, Error, ErrorKind, Word};
use vstd::arithmetic::div_mod::{lemma_fundamental_div_mod, lemma_fundamental_div_mod_converse};

verus! {

/// The glyphs of the hexadecimal digits, five rows of one byte each.
pub const DIGITS: [u8; 80] = [
    0xF0, 0x90, 0x90, 0x90, 0xF0,
    0x20, 0x60, 0x20, 0x20, 0x70,
    0xF0, 0x10, 0xF0, 0x80, 0xF0,
    0xF0, 0x10, 0xF0, 0x10, 0xF0,
    0x90, 0x90, 0xF0, 0x10, 0x10,
    0xF0, 0x80, 0xF0, 0x10, 0xF0,
    0xF0, 0x80, 0xF0, 0x90, 0xF0,
    0xF0, 0x10, 0x20, 0x40, 0x40,
    0xF0, 0x90, 0xF0, 0x90, 0xF0,
    0xF0, 0x90, 0xF0, 0x10, 0xF0,
    0xF0, 0x90, 0xF0, 0x90, 0x90,
    0xE0, 0x90, 0xE0, 0x90, 0xE0,
    0xF0, 0x80, 0x80, 0x80, 0xF0,
    0xE0, 0x90, 0x90, 0x90, 0xE0,
    0xF0, 0x80, 0xF0, 0x80, 0xF0,
    0xF0, 0x80, 0xF0, 0x80, 0x80,
];

/// Index of the flag register.
pub const FLAG: usize = 15;

/// Relies on `rand::random::<u8>`: a byte from the thread-local generator.
#[verifier::external_body]
fn random_byte() -> (r: u8) {
    rand::random::<u8>()
}

/// The machine: registers, timers, memory, call stack, display and keys.
pub struct CPU<L: VideoListener> {
    pub registers: Registers,
    pub timers: Timers,
    pub memory: MemoryMapper,
    /// Return addresses, innermost last. Unbounded.
    pub stack: Vec<Address>,
    pub vram: VideoMemory<L>,
    pub input: InputManager,
}

/// The observable state of the machine.
pub struct MachineView {
    pub values: Seq<Word>,
    pub pc: u16,
    pub index: u16,
    pub stack: Seq<Address>,
    pub delay: u8,
    pub sound: u8,
    pub memory: Seq<BankView>,
    pub pixels: Seq<bool>,
    /// The ids of the attached video listeners.
    pub listeners: Seq<u8>,
    pub keys: Seq<KeyState>,
}

/// Every register operand names one of the sixteen registers, and a
/// sprite is at most as tall as the display.
pub open spec fn op_valid(op: Opcode) -> bool {
    let reg_ok = |p: OpcodeParam| p matches OpcodeParam::Register(r) ==> r < 16;
    match op {
        Opcode::Assign { left_reg, right, .. } => left_reg < 16 && reg_ok(right),
        Opcode::Shift { reg, .. } => reg < 16,
        Opcode::Random { reg, .. } => reg < 16,
        Opcode::AddAddress(r) => r < 16,
        Opcode::GetCharacterAddress(r) => r < 16,
        Opcode::CondJump { left, right, .. } => reg_ok(left) && reg_ok(right),
        Opcode::Draw { x, y, height } => x < 16 && y < 16 && height <= 32,
        Opcode::BlockOnKey(r) => r < 16,
        Opcode::CondKeyJump { reg, .. } => reg < 16,
        Opcode::GetDelayTimer(r) => r < 16,
        Opcode::SetTimer { reg, .. } => reg < 16,
        Opcode::WriteBCD(r) => r < 16,
        Opcode::DumpValueRegisters(r) => r < 16,
        Opcode::LoadValueRegisters(r) => r < 16,
        _ => true,
    }
}

/// The value of an operand.
pub open spec fn param_value(values: Seq<Word>, p: OpcodeParam) -> Word {
    match p {
        OpcodeParam::Immediate(w) => w,
        OpcodeParam::Register(r) => values[r as int],
    }
}

/// The registers after an assignment: the result goes to `left`, then, for
/// a register operand and an operation with a carry, the carry goes to the
/// flag register.
pub open spec fn assign_values(values: Seq<Word>, left: u8, right: OpcodeParam, op: crate::opcodes::Operation) -> Seq<Word> {
    let (result, carry) = evaluate_spec(op, values[left as int].0, param_value(values, right).0);
    let v = values.update(left as int, Word(result));
    match (carry, right) {
        (Some(c), OpcodeParam::Register(_)) => v.update(FLAG as int, Word(if c { 1 } else { 0 })),
        _ => v,
    }
}

/// The registers after a shift by one: the bit shifted out goes to the flag
/// register, then the shifted value to `reg`.
pub open spec fn shift_values(values: Seq<Word>, reg: u8, right: bool) -> Seq<Word> {
    let v = values[reg as int].0;
    if right {
        values.update(FLAG as int, Word(v % 2)).update(reg as int, Word(v / 2))
    } else {
        values.update(FLAG as int, Word(v / 128)).update(reg as int, Word(((v * 2) % 256) as u8))
    }
}

/// The lowest key that is down, if any.
pub open spec fn first_down(keys: Seq<KeyState>) -> Option<int> {
    if exists|k: int| 0 <= k < 16 && !(keys[k] is Released) {
        Some(choose|k: int| 0 <= k < 16 && !(keys[k] is Released) && forall|j: int| 0 <= j < k ==> keys[j] is Released)
    } else {
        None
    }
}

/// The three decimal digits of `v`, hundreds first.
pub open spec fn bcd(v: u8) -> Seq<Word> {
    seq![Word(v / 100), Word((v / 10) % 10), Word(v % 10)]
}

/// Bit `c` of a sprite row, counting from the most significant.
pub open spec fn sprite_bit(row: u8, c: int) -> bool {
    (row >> ((7 - c) as u8)) & 1 == 1
}

/// The sprite row that lands on pixel `i` when the sprite is drawn at
/// row `vy` (with wrapping).
pub open spec fn row_of(i: int, vy: int) -> int {
    (i / 64 - vy % 32 + 32) % 32
}

/// The sprite column that lands on pixel `i` when the sprite is drawn at
/// column `vx` (with wrapping).
pub open spec fn col_of(i: int, vx: int) -> int {
    (i % 64 - vx % 64 + 64) % 64
}

/// Whether drawing `sprite` at `(vx, vy)` flips pixel `i`.
pub open spec fn hit(sprite: Seq<Word>, vx: int, vy: int, i: int) -> bool {
    let r = row_of(i, vy);
    let c = col_of(i, vx);
    r < sprite.len() && c < 8 && sprite_bit(sprite[r].0, c)
}

/// The pixels after drawing `sprite` at `(vx, vy)`.
pub open spec fn drawn(pixels: Seq<bool>, sprite: Seq<Word>, vx: int, vy: int) -> Seq<bool> {
    Seq::new(pixels.len(), |i: int| pixels[i] != hit(sprite, vx, vy, i))
}

/// Whether drawing `sprite` at `(vx, vy)` turns a set pixel off.
pub open spec fn collides(pixels: Seq<bool>, sprite: Seq<Word>, vx: int, vy: int) -> bool {
    exists|i: int| 0 <= i < pixels.len() && hit(sprite, vx, vy, i) && #[trigger] pixels[i]
}

/// What reading the sprite row `k` gives.
pub open spec fn sprite_read(m: MachineView, k: int) -> Result<Word, ErrorKind> {
    MemoryMapper::read_spec(m.memory, wrap16(m.index + k))
}

/// The state after a draw of `height` rows at the registers `x` and `y`.
pub open spec fn draw_post(pre: MachineView, post: MachineView, x: u8, y: u8, height: u8, r: Result<(), Error>) -> bool {
    if exists|k: int| 0 <= k < height && (#[trigger] sprite_read(pre, k)) is Err {
        exists|f: int|
            #![trigger sprite_read(pre, f)]
            0 <= f < height && sprite_read(pre, f) == Err::<Word, ErrorKind>(r->Err_0.kind)
                && (forall|k: int| 0 <= k < f ==> (#[trigger] sprite_read(pre, k)) is Ok)
                && r is Err && post == pre
    } else {
        let sprite = Seq::new(height as nat, |k: int| sprite_read(pre, k)->Ok_0);
        let vx = pre.values[x as int].0 as int;
        let vy = pre.values[y as int].0 as int;
        &&& pre.listeners.len() == 0 ==> r is Ok
        &&& r is Ok ==> post == MachineView {
            pixels: drawn(pre.pixels, sprite, vx, vy),
            values: pre.values.update(FLAG as int, Word(if collides(pre.pixels, sprite, vx, vy) { 1 } else { 0 })),
            pc: wrap16(pre.pc + 2),
            ..pre
        }
        &&& r is Err ==> post == MachineView { pixels: post.pixels, ..pre }
    }
}

/// The state after executing `op`, with `random` as the byte drawn for a
/// random instruction, and whether it failed. A failed instruction leaves
/// the program counter where it was; what it wrote before failing stays.
pub open spec fn executed(pre: MachineView, post: MachineView, op: Opcode, random: u8, r: Result<(), Error>) -> bool {
    let next = wrap16(pre.pc + 2);
    match op {
        Opcode::Assign { left_reg, right, op } => r is Ok && post == MachineView {
            values: assign_values(pre.values, left_reg, right, op),
            pc: next,
            ..pre
        },
        Opcode::Shift { reg, right } => r is Ok && post == MachineView {
            values: shift_values(pre.values, reg, right),
            pc: next,
            ..pre
        },
        Opcode::Random { reg, mask } => r is Ok && post == MachineView {
            values: pre.values.update(reg as int, Word(random & mask.0)),
            pc: next,
            ..pre
        },
        Opcode::AssignAddress(a) => r is Ok && post == MachineView { index: a.0, pc: next, ..pre },
        Opcode::AddAddress(reg) => r is Ok && post == MachineView {
            index: wrap16(pre.index + pre.values[reg as int].0),
            pc: next,
            ..pre
        },
        Opcode::GetCharacterAddress(reg) => r is Ok && post == MachineView {
            index: (pre.values[reg as int].0 * 5) as u16,
            pc: next,
            ..pre
        },
        Opcode::Return => if pre.stack.len() == 0 {
            r is Err && r->Err_0.kind == ErrorKind::EmptyStack && post == pre
        } else {
            r is Ok && post == MachineView {
                stack: pre.stack.drop_last(),
                pc: wrap16(pre.stack.last().0 + 2),
                ..pre
            }
        },
        Opcode::Jump(a) => r is Ok && post == MachineView { pc: a.0, ..pre },
        Opcode::OffsetJump(a) => r is Ok && post == MachineView {
            pc: wrap16(a.0 + pre.values[0].0),
            ..pre
        },
        Opcode::Call(a) => r is Ok && post == MachineView {
            stack: pre.stack.push(Address(pre.pc)),
            pc: a.0,
            ..pre
        },
        Opcode::CallNative(_) => r is Err && r->Err_0.kind == ErrorKind::Unsupported && post == pre,
        Opcode::CondJump { left, right, cond } => r is Ok && post == MachineView {
            pc: if cond.holds(param_value(pre.values, left) == param_value(pre.values, right)) {
                wrap16(pre.pc + 4)
            } else {
                next
            },
            ..pre
        },
        Opcode::ClearScreen => (pre.listeners.len() == 0 ==> r is Ok) && post == MachineView {
            pixels: Seq::new(2048, |i: int| false),
            pc: if r is Ok { next } else { pre.pc },
            ..pre
        },
        Opcode::Draw { x, y, height } => draw_post(pre, post, x, y, height, r),
        Opcode::BlockOnKey(reg) => r is Ok && match first_down(pre.keys) {
            Some(k) => post == MachineView {
                values: pre.values.update(reg as int, Word(k as u8)),
                pc: next,
                ..pre
            },
            None => post == pre,
        },
        Opcode::CondKeyJump { reg, cond } => {
            let key = pre.values[reg as int].0;
            if key >= 16 {
                r is Err && r->Err_0.kind == ErrorKind::KeyIndexOutOfRange && post == pre
            } else {
                r is Ok && post == MachineView {
                    pc: if cond.holds(!(pre.keys[key as int] is Released)) {
                        wrap16(pre.pc + 4)
                    } else {
                        next
                    },
                    ..pre
                }
            }
        },
        Opcode::GetDelayTimer(reg) => r is Ok && post == MachineView {
            values: pre.values.update(reg as int, Word(pre.delay)),
            pc: next,
            ..pre
        },
        Opcode::SetTimer { reg, timer } => r is Ok && post == match timer {
            Timer::Delay => MachineView { delay: pre.values[reg as int].0, pc: next, ..pre },
            Timer::Sound => MachineView { sound: pre.values[reg as int].0, pc: next, ..pre },
        },
        Opcode::Nop => r is Ok && post == MachineView { pc: next, ..pre },
        Opcode::WriteBCD(reg) => stored(pre, post, bcd(pre.values[reg as int].0), r),
        Opcode::DumpValueRegisters(end) => stored(pre, post, pre.values.take(end + 1), r),
        Opcode::LoadValueRegisters(end) => loaded::<MemoryMapper>(pre.values, post.values, r, end as int, pre.memory, pre.index)
            && post == MachineView {
            values: post.values,
            pc: if r is Ok { next } else { pre.pc },
            ..pre
        },
    }
}

/// The state after writing `words` from the index register upward.
pub open spec fn stored(pre: MachineView, post: MachineView, words: Seq<Word>, r: Result<(), Error>) -> bool {
    let w = write_all::<MemoryMapper>(pre.memory, pre.index, words);
    &&& post == MachineView {
        memory: w.0,
        pc: if w.1 is None { wrap16(pre.pc + 2) } else { pre.pc },
        ..pre
    }
    &&& match w.1 {
        None => r is Ok,
        Some(k) => r is Err && r->Err_0.kind == k,
    }
}

/// The pixel `i` has been reached by a draw that has done rows below `r`
/// and, in row `r`, columns below `c`, and the sprite flips it.
pub open spec fn hit_before(sprite: Seq<Word>, vx: int, vy: int, i: int, r: int, c: int) -> bool {
    hit(sprite, vx, vy, i) && (row_of(i, vy) < r || (row_of(i, vy) == r && col_of(i, vx) < c))
}

/// Shifting a value by `t` modulo `m` and measuring the distance back to
/// the shifted base gives `t`, and only that value gives it.
proof fn lemma_mod_offset(b: int, t: int, v: int, m: int)
    requires
        b >= 0,
        m > 0,
        0 <= t < m,
        0 <= v < m,
    ensures
        0 <= (v - b % m + m) % m < m,
        (((b + t) % m) - b % m + m) % m == t,
        (v - b % m + m) % m == t ==> v == (b + t) % m,
{
    let a = b % m;
    let q = b / m;
    lemma_fundamental_div_mod(b, m);
    assert(0 <= a < m);
    if a + t < m {
        lemma_fundamental_div_mod_converse(b + t, m, q, a + t);
        lemma_fundamental_div_mod_converse(t + m, m, 1, t);
    } else {
        assert((q + 1) * m == q * m + m) by (nonlinear_arith);
        lemma_fundamental_div_mod_converse(b + t, m, q + 1, a + t - m);
        lemma_fundamental_div_mod_converse(t, m, 0, t);
    }
    if v - a + m < m {
        lemma_fundamental_div_mod_converse(v - a + m, m, 0, v - a + m);
    } else {
        lemma_fundamental_div_mod_converse(v - a + m, m, 1, v - a);
    }
}

/// A pixel position and the sprite row and column that land on it
/// determine each other.
proof fn lemma_position(vx: int, vy: int, r: int, c: int, i: int)
    requires
        0 <= vx < 256,
        0 <= vy < 256,
        0 <= r < 32,
        0 <= c < 64,
        0 <= i < 2048,
    ensures
        0 <= pixel_index(vx + c, vy + r) < 2048,
        row_of(pixel_index(vx + c, vy + r), vy) == r,
        col_of(pixel_index(vx + c, vy + r), vx) == c,
        (row_of(i, vy) == r && col_of(i, vx) == c) ==> i == pixel_index(vx + c, vy + r),
        0 <= row_of(i, vy) < 32,
        0 <= col_of(i, vx) < 64,
{
    let py = (vy + r) % 32;
    let px = (vx + c) % 64;
    let p = pixel_index(vx + c, vy + r);
    assert(p == py * 64 + px);
    lemma_fundamental_div_mod(vy + r, 32);
    lemma_fundamental_div_mod(vx + c, 64);
    lemma_fundamental_div_mod_converse(p, 64, py, px);
    lemma_mod_offset(vy, r, py, 32);
    lemma_mod_offset(vx, c, px, 64);
    lemma_fundamental_div_mod(i, 64);
    assert(0 <= i / 64 < 32);
    lemma_mod_offset(vy, r, i / 64, 32);
    lemma_mod_offset(vx, c, i % 64, 64);
}

/// Advancing the draw by one column of row `r` reaches exactly the pixel
/// `p` that the column lands on, and flips it exactly when the sprite bit
/// is set.
proof fn lemma_draw_step(sp: Seq<Word>, vx: int, vy: int, r: int, c: int)
    requires
        0 <= vx < 256,
        0 <= vy < 256,
        0 <= r < sp.len() <= 32,
        0 <= c < 8,
    ensures
        0 <= pixel_index(vx + c, vy + r) < 2048,
        hit(sp, vx, vy, pixel_index(vx + c, vy + r)) == sprite_bit(sp[r].0, c),
        !hit_before(sp, vx, vy, pixel_index(vx + c, vy + r), r, c),
        forall|i: int|
            0 <= i < 2048 ==> #[trigger] hit_before(sp, vx, vy, i, r, c + 1) == (hit_before(
                sp,
                vx,
                vy,
                i,
                r,
                c,
            ) || (i == pixel_index(vx + c, vy + r) && hit(sp, vx, vy, i))),
{
    lemma_position(vx, vy, r, c, 0);
    assert forall|i: int| 0 <= i < 2048 implies #[trigger] hit_before(sp, vx, vy, i, r, c + 1) == (
    hit_before(sp, vx, vy, i, r, c) || (i == pixel_index(vx + c, vy + r) && hit(sp, vx, vy, i))) by {
        lemma_position(vx, vy, r, c, i);
    }
}

/// Flips the pixels that `sprite` covers at `(vx, vy)`, row by row and, in
/// a row, from the left; returns whether a set pixel was turned off.
fn draw_sprite<L: VideoListener>(vram: &mut VideoMemory<L>, sprite: &Vec<Word>, vx: usize, vy: usize) -> (r: Result<bool, Error>)
    requires
        sprite@.len() <= 32,
        vx < 256,
        vy < 256,
    ensures
        r is Ok ==> final(vram)@ == drawn(old(vram)@, sprite@, vx as int, vy as int) && r->Ok_0 == collides(old(vram)@, sprite@, vx as int, vy as int),
        old(vram).listener_ids().len() == 0 ==> r is Ok,
        final(vram).listener_ids() == old(vram).listener_ids(),
        final(vram).next_id() == old(vram).next_id(),
{
    let ghost sp = sprite@;
    let ghost old_pixels = vram@;
    proof {
        vram.lemma_view_len();
    }
    let mut collided = false;
    let mut r: usize = 0;
    while r < sprite.len()
        invariant
            r <= sp.len(),
            sp.len() <= 32,
            vx < 256,
            vy < 256,
            sprite@ == sp,
            old_pixels.len() == 2048,
            vram@.len() == 2048,
            forall|i: int| 0 <= i < 2048 ==> #[trigger] vram@[i] == (old_pixels[i] != hit_before(sp, vx as int, vy as int, i, r as int, 0)),
            collided == exists|i: int| 0 <= i < 2048 && hit_before(sp, vx as int, vy as int, i, r as int, 0) && #[trigger] old_pixels[i],
            vram.listener_ids() == old(vram).listener_ids(),
            vram.next_id() == old(vram).next_id(),
        decreases sp.len() - r,
    {
        let row = sprite[r].0;
        let mut c: usize = 0;
        while c < 8
            invariant
                r < sp.len(),
                c <= 8,
                sp.len() <= 32,
                vx < 256,
                vy < 256,
                sprite@ == sp,
                row == sp[r as int].0,
                old_pixels.len() == 2048,
                vram@.len() == 2048,
                forall|i: int| 0 <= i < 2048 ==> #[trigger] vram@[i] == (old_pixels[i] != hit_before(sp, vx as int, vy as int, i, r as int, c as int)),
                collided == exists|i: int| 0 <= i < 2048 && hit_before(sp, vx as int, vy as int, i, r as int, c as int) && #[trigger] old_pixels[i],
                vram.listener_ids() == old(vram).listener_ids(),
                vram.next_id() == old(vram).next_id(),
            decreases 8 - c,
        {
            let ghost p = pixel_index((vx + c) as int, (vy + r) as int);
            proof {
                lemma_draw_step(sp, vx as int, vy as int, r as int, c as int);
            }
            let bit = (row >> (7 - c as u8)) & 1 == 1;
            if bit {
                let ghost before = vram@;
                let new_pixel = match vram.flip(vx + c, vy + r) {
                    Ok(v) => v,
                    Err(e) => {
                        return Err(e);
                    },
                };
                if !new_pixel {
                    collided = true;
                }
                proof {
                    assert forall|i: int| 0 <= i < 2048 implies #[trigger] vram@[i] == (old_pixels[i] != hit_before(sp, vx as int, vy as int, i, r as int, c as int + 1)) by {
                        if i != p {
                            assert(vram@[i] == before[i]);
                        }
                    }
                    if collided {
                        if !new_pixel {
                            assert(hit_before(sp, vx as int, vy as int, p, r as int, c as int + 1) && old_pixels[p]);
                        } else {
                            let w = choose|i: int| 0 <= i < 2048 && hit_before(sp, vx as int, vy as int, i, r as int, c as int) && #[trigger] old_pixels[i];
                            assert(hit_before(sp, vx as int, vy as int, w, r as int, c as int + 1));
                        }
                    } else {
                        assert forall|i: int| 0 <= i < 2048 && hit_before(sp, vx as int, vy as int, i, r as int, c as int + 1) implies !#[trigger] old_pixels[i] by {
                            if i != p {
                                assert(hit_before(sp, vx as int, vy as int, i, r as int, c as int));
                            }
                        }
                    }
                }
            }
            c = c + 1;
        }
        proof {
            assert forall|i: int| 0 <= i < 2048 implies #[trigger] hit_before(sp, vx as int, vy as int, i, r as int, 8) == hit_before(sp, vx as int, vy as int, i, r as int + 1, 0) by {
            }
        }
        r = r + 1;
    }
    proof {
        assert forall|i: int| 0 <= i < 2048 implies #[trigger] hit_before(sp, vx as int, vy as int, i, sp.len() as int, 0) == hit(sp, vx as int, vy as int, i) by {
            lemma_position(vx as int, vy as int, 0, 0, i);
        }
        assert(vram@ =~= drawn(old_pixels, sp, vx as int, vy as int));
    }
    Ok(collided)
}

impl<L: VideoListener> CPU<L> {
    /// The observable state.
    pub open spec fn state(&self) -> MachineView {
        MachineView {
            values: self.registers.values@,
            pc: self.registers.program_counter.0,
            index: self.registers.address.0,
            stack: self.stack@,
            delay: self.timers.delay_timer.0,
            sound: self.timers.sound_timer.0,
            memory: self.memory@,
            pixels: self.vram@,
            listeners: self.vram.listener_ids(),
            keys: self.input.buffer@,
        }
    }

    /// What no instruction changes beyond the observable state: the next
    /// listener id and the timers' clock bookkeeping.
    pub open spec fn same_frame(&self, other: &CPU<L>) -> bool {
        &&& self.vram.next_id() == other.vram.next_id()
        &&& self.timers.delay_accumulator == other.timers.delay_accumulator
        &&& self.timers.last_tick == other.timers.last_tick
    }

    /// Reads the `height` sprite rows from the index register upward.
    fn read_sprite(&self, height: u8) -> (r: Result<Vec<Word>, Error>)
        ensures
            r is Ok ==> r->Ok_0@.len() == height && forall|k: int|
                #![trigger r->Ok_0@[k]]
                #![trigger sprite_read(self.state(), k)]
                0 <= k < height ==> sprite_read(self.state(), k) == Ok::<Word, ErrorKind>(r->Ok_0@[k]),
            r is Err ==> exists|f: int|
                #![trigger sprite_read(self.state(), f)]
                0 <= f < height && sprite_read(self.state(), f) == Err::<Word, ErrorKind>(r->Err_0.kind)
                    && (forall|k: int| 0 <= k < f ==> (#[trigger] sprite_read(self.state(), k)) is Ok),
    {
        let mut rows: Vec<Word> = Vec::new();
        let mut k: u8 = 0;
        while k < height
            invariant
                k <= height,
                rows@.len() == k,
                forall|j: int|
                    #![trigger rows@[j]]
                    #![trigger sprite_read(self.state(), j)]
                    0 <= j < k ==> sprite_read(self.state(), j) == Ok::<Word, ErrorKind>(rows@[j]),
            decreases height - k,
        {
            match self.memory.get(self.registers.address.wrapping_add(k as u16)) {
                Ok(w) => rows.push(w),
                Err(e) => {
                    assert(sprite_read(self.state(), k as int) == Err::<Word, ErrorKind>(e.kind));
                    return Err(e);
                },
            }
            k = k + 1;
        }
        Ok(rows)
    }

    /// Draws the `height`-row sprite at the index register at the position
    /// held by registers `x` and `y`; the flag register records whether a
    /// set pixel was turned off.
    fn draw(&mut self, x: u8, y: u8, height: u8) -> (r: Result<(), Error>)
        requires
            x < 16,
            y < 16,
            height <= 32,
        ensures
            draw_post(
                old(self).state(),
                (MachineView {
                    pc: if r is Ok { wrap16(old(self).state().pc + 2) } else { old(self).state().pc },
                    ..final(self).state()
                }),
                x,
                y,
                height,
                r,
            ),
            final(self).registers.program_counter == old(self).registers.program_counter,
            final(self).same_frame(&*old(self)),
    {
        let ghost pre = self.state();
        let vx = self.registers.values[x as usize].0 as usize;
        let vy = self.registers.values[y as usize].0 as usize;
        let sprite = match self.read_sprite(height) {
            Ok(rows) => rows,
            Err(e) => {
                return Err(e);
            },
        };
        let ghost sp = Seq::new(height as nat, |k: int| sprite_read(pre, k)->Ok_0);
        assert(sprite@ =~= sp);
        let collided = match draw_sprite(&mut self.vram, &sprite, vx, vy) {
            Ok(c) => c,
            Err(e) => {
                return Err(e);
            },
        };
        self.registers.values[FLAG] = Word(if collided { 1 } else { 0 });
        assert(self.state().values =~= pre.values.update(
            FLAG as int,
            Word(if collides(pre.pixels, sp, vx as int, vy as int) { 1 } else { 0 }),
        ));
        Ok(())
    }

    fn get_value(&self, param: OpcodeParam) -> (r: Word)
        requires
            param matches OpcodeParam::Register(i) ==> i < 16,
        ensures
            r == param_value(self.state().values, param),
    {
        match param {
            OpcodeParam::Immediate(x) => x,
            OpcodeParam::Register(i) => self.registers.values[i as usize],
        }
    }

    /// The lowest key that is down, if any.
    fn first_key_down(&self) -> (r: Option<u8>)
        ensures
            first_down(self.input.buffer@) == match r {
                Some(k) => Some(k as int),
                None => None::<int>,
            },
    {
        proof {
            self.input.buffer.lemma_len();
        }
        let ghost keys = self.input.buffer@;
        let mut i: usize = 0;
        while i < KEY_NUM
            invariant
                i <= KEY_NUM,
                keys == self.input.buffer@,
                keys.len() == 16,
                forall|j: int| 0 <= j < i ==> keys[j] is Released,
            decreases KEY_NUM - i,
        {
            let down = match self.input.is_down(i) {
                Ok(d) => d,
                Err(_) => false,
            };
            if down {
                proof {
                    let k = choose|k: int| 0 <= k < 16 && !(keys[k] is Released) && forall|j: int| 0 <= j < k ==> keys[j] is Released;
                    if k < i {
                    } else if k > i {
                        assert(keys[i as int] is Released);
                    }
                }
                return Some(i as u8);
            }
            i = i + 1;
        }
        None
    }

    /// Executes `op`, with `random` as the byte a random instruction draws.
    /// A failed instruction leaves the program counter where it was.
    pub fn execute(&mut self, op: Opcode, random: u8) -> (r: Result<(), Error>)
        requires
            op_valid(op),
        ensures
            executed(old(self).state(), final(self).state(), op, random, r),
            final(self).same_frame(&*old(self)),
    {
        let ghost pre = self.state();
        let mut increment_pc = true;
        let res: Result<(), Error> = match op {
            Opcode::Assign { left_reg, right, op } => {
                let (result, carry) = op.evaluate(self.registers.values[left_reg as usize], self.get_value(right));
                self.registers.values[left_reg as usize] = result;
                match (carry, right) {
                    (Some(c), OpcodeParam::Register(_)) => {
                        self.registers.values[FLAG] = Word(if c { 1 } else { 0 });
                    },
                    _ => {},
                }
                Ok(())
            },
            Opcode::Shift { reg, right } => {
                let value = self.registers.values[reg as usize].0;
                if right {
                    self.registers.values[FLAG] = Word(value % 2);
                    self.registers.values[reg as usize] = Word(value / 2);
                } else {
                    self.registers.values[FLAG] = Word(value / 128);
                    self.registers.values[reg as usize] = Word(((value as u16 * 2) % 256) as u8);
                }
                Ok(())
            },
            Opcode::Random { reg, mask } => {
                self.registers.values[reg as usize] = Word(random & mask.0);
                Ok(())
            },
            Opcode::AssignAddress(addr) => {
                self.registers.address = addr;
                Ok(())
            },
            Opcode::AddAddress(reg) => {
                let value = self.registers.values[reg as usize].0;
                self.registers.address = self.registers.address.wrapping_add(value as u16);
                Ok(())
            },
            Opcode::GetCharacterAddress(reg) => {
                let value = self.registers.values[reg as usize].0;
                self.registers.address = Address(value as u16 * 5);
                Ok(())
            },
            Opcode::Return => {
                match self.stack.pop() {
                    Some(addr) => {
                        self.registers.program_counter = addr;
                        Ok(())
                    },
                    None => Err(Error::of_kind(ErrorKind::EmptyStack, "Tried to return from an empty stack")),
                }
            },
            Opcode::Jump(addr) => {
                increment_pc = false;
                self.registers.program_counter = addr;
                Ok(())
            },
            Opcode::OffsetJump(addr) => {
                increment_pc = false;
                self.registers.program_counter = addr.wrapping_add(self.registers.values[0].0 as u16);
                Ok(())
            },
            Opcode::Call(addr) => {
                increment_pc = false;
                self.stack.push(self.registers.program_counter);
                self.registers.program_counter = addr;
                Ok(())
            },
            Opcode::CallNative(_) => Err(Error::of_kind(ErrorKind::Unsupported, "Opcode not supported")),
            Opcode::CondJump { left, right, cond } => {
                if cond.evaluate(self.get_value(left), self.get_value(right)) {
                    self.registers.program_counter = self.registers.program_counter.wrapping_add(2);
                }
                Ok(())
            },
            Opcode::ClearScreen => self.vram.clear(),
            Opcode::Draw { x, y, height } => self.draw(x, y, height),
            Opcode::BlockOnKey(reg) => {
                match self.first_key_down() {
                    Some(k) => {
                        self.registers.values[reg as usize] = Word(k);
                    },
                    None => {
                        increment_pc = false;
                    },
                }
                Ok(())
            },
            Opcode::CondKeyJump { reg, cond } => {
                let key = self.registers.values[reg as usize].0;
                match self.input.is_down(key as usize) {
                    Ok(down) => {
                        let skip = match cond {
                            Condition::Equal => down,
                            Condition::NotEqual => !down,
                        };
                        if skip {
                            self.registers.program_counter = self.registers.program_counter.wrapping_add(2);
                        }
                        Ok(())
                    },
                    Err(e) => Err(e),
                }
            },
            Opcode::GetDelayTimer(reg) => {
                self.registers.values[reg as usize] = self.timers.delay_timer;
                Ok(())
            },
            Opcode::SetTimer { reg, timer } => {
                let value = self.registers.values[reg as usize];
                match timer {
                    Timer::Delay => {
                        self.timers.delay_timer = value;
                    },
                    Timer::Sound => {
                        self.timers.sound_timer = value;
                    },
                }
                Ok(())
            },
            Opcode::Nop => Ok(()),
            Opcode::WriteBCD(reg) => {
                let value = self.registers.values[reg as usize].0;
                let digits = vec![Word(value / 100), Word((value / 10) % 10), Word(value % 10)];
                assert(digits@ =~= bcd(value));
                set_range(&mut self.memory, self.registers.address, digits.as_slice())
            },
            Opcode::DumpValueRegisters(end) => {
                self.registers.dump_values(end, self.registers.address, &mut self.memory)
            },
            Opcode::LoadValueRegisters(end) => {
                let base = self.registers.address;
                self.registers.load_values(end, base, &self.memory)
            },
        };
        match res {
            Ok(()) => {
                if increment_pc {
                    self.registers.program_counter = self.registers.program_counter.wrapping_add(2);
                }
                Ok(())
            },
            Err(e) => Err(e),
        }
    }

    pub fn new() -> (r: CPU<L>)
        ensures
            r.state() == initial_state(),
            r.vram.next_id() == 0,
            r.timers.delay_accumulator == 0,
    {
        let mut memory = MemoryMapper::new();
        let digits_rom = ByteArrayMemory::new(DIGITS.as_slice());
        let res = memory.add_read(digits_rom, MemoryRange::new(Address(0), Address(0x4F)), "Digits ROM");
        assert(res is Ok);
        let cpu = CPU {
            registers: Registers::new(),
            timers: Timers::new(),
            memory,
            stack: Vec::new(),
            vram: VideoMemory::new(),
            input: InputManager::new(),
        };
        assert(cpu.state().values =~= initial_state().values);
        assert(cpu.state().stack =~= initial_state().stack);
        assert(cpu.state().memory[0].data =~= initial_state().memory[0].data);
        assert(cpu.state().memory =~= initial_state().memory);
        cpu
    }

    /// Advances the timers and the keys, then fetches the instruction at the
    /// program counter, decodes and executes it. Only a random instruction
    /// draws a byte.
    pub fn tick(&mut self) -> (r: Result<(), Error>)
        ensures
            exists|e: int|
                #![trigger advance_spec(old(self).timers.delay_timer.0, old(self).timers.sound_timer.0, old(self).timers.pending(), e)]
                0 <= e && {
                    let adv = advance_spec(
                        old(self).timers.delay_timer.0,
                        old(self).timers.sound_timer.0,
                        old(self).timers.pending(),
                        e,
                    );
                    let mid = MachineView {
                        delay: adv.0,
                        sound: adv.1,
                        keys: tick_spec(old(self).state().keys),
                        ..old(self).state()
                    };
                    &&& final(self).timers.pending() == adv.2
                    &&& cycled(mid, final(self).state(), r)
                },
            final(self).vram.listener_ids() == old(self).vram.listener_ids(),
            final(self).vram.next_id() == old(self).vram.next_id(),
    {
        self.timers.tick();
        let ghost e = choose|e: int|
            0 <= e && (self.timers.delay_timer.0, self.timers.sound_timer.0, self.timers.pending())
                == #[trigger] advance_spec(
                old(self).timers.delay_timer.0,
                old(self).timers.sound_timer.0,
                old(self).timers.pending(),
                e,
            );
        let _ = self.input.tick();
        let ghost mid = self.state();
        let pc = self.registers.program_counter;
        let high = match self.memory.get(pc) {
            Ok(w) => w,
            Err(e) => {
                return Err(e);
            },
        };
        let low = match self.memory.get(pc.wrapping_add(1)) {
            Ok(w) => w,
            Err(e) => {
                return Err(e);
            },
        };
        let op = match Opcode::decode_bytes(&[high.0, low.0]) {
            Ok(op) => op,
            Err(e) => {
                return Err(e);
            },
        };
        proof {
            lemma_decoded_valid((high.0 * 256 + low.0) as u16);
        }
        let random = match op {
            Opcode::Random { .. } => random_byte(),
            _ => 0,
        };
        self.execute(op, random)
    }
}

/// The state a machine starts in: registers zero, the program counter at
/// the program start, nothing on the stack, timers zero, the digit glyphs
/// mapped read-only at the bottom of memory, the display dark and no key
/// down.
pub open spec fn initial_state() -> MachineView {
    MachineView {
        values: Seq::new(16, |i: int| Word(0)),
        pc: 0x0200,
        index: 0,
        stack: Seq::empty(),
        delay: 0,
        sound: 0,
        memory: seq![
            BankView {
                name: "Digits ROM"@,
                range: MemoryRange { min: Address(0), max: Address(0x4F) },
                access: crate::memory::Access::ReadOnly,
                data: Seq::new(80, |i: int| Word(DIGITS@[i])),
            },
        ],
        pixels: Seq::new(2048, |i: int| false),
        listeners: Seq::empty(),
        keys: Seq::new(16, |i: int| KeyState::Released),
    }
}

/// The instruction word at the program counter, or why it cannot be read.
pub open spec fn fetched(m: MachineView) -> Result<u16, ErrorKind> {
    match MemoryMapper::read_spec(m.memory, m.pc) {
        Err(k) => Err(k),
        Ok(high) => match MemoryMapper::read_spec(m.memory, wrap16(m.pc + 1)) {
            Err(k) => Err(k),
            Ok(low) => Ok((high.0 * 256 + low.0) as u16),
        },
    }
}

/// One fetch-decode-execute cycle from `pre` to `post`: a failed fetch or
/// decode changes nothing; otherwise the decoded instruction is executed
/// with some random byte.
pub open spec fn cycled(pre: MachineView, post: MachineView, r: Result<(), Error>) -> bool {
    match fetched(pre) {
        Err(k) => r is Err && r->Err_0.kind == k && post == pre,
        Ok(w) => match decode_spec(w) {
            None => r is Err && r->Err_0.kind == (ErrorKind::Decode { word: w }) && post == pre,
            Some(op) => exists|random: u8| executed(pre, post, op, random, r),
        },
    }
}

/// Every instruction the decoder produces names valid registers.
proof fn lemma_decoded_valid(w: u16)
    ensures
        decode_spec(w) matches Some(op) ==> op_valid(op),
{
}

/// Returning with an empty call stack fails with an empty-stack error and
/// changes nothing.
pub proof fn lemma_return_on_empty_stack(pre: MachineView, post: MachineView, random: u8, r: Result<(), Error>)
    requires
        pre.stack.len() == 0,
        executed(pre, post, Opcode::Return, random, r),
    ensures
        r is Err,
        r->Err_0.kind == ErrorKind::EmptyStack,
        post == pre,
{
}

/// A call followed at once by a return comes back to the instruction after
/// the call: the return pops exactly the program counter the call pushed,
/// the stack is as before the call, and execution resumes two bytes past
/// the call.
pub proof fn lemma_call_then_return(
    m0: MachineView,
    m1: MachineView,
    m2: MachineView,
    target: Address,
    rand1: u8,
    rand2: u8,
    r1: Result<(), Error>,
    r2: Result<(), Error>,
)
    requires
        executed(m0, m1, Opcode::Call(target), rand1, r1),
        executed(m1, m2, Opcode::Return, rand2, r2),
    ensures
        r1 is Ok,
        r2 is Ok,
        m1.pc == target.0,
        m1.stack.last() == Address(m0.pc),
        m2.stack == m0.stack,
        m2.pc == wrap16(m0.pc + 2),
        m2 == (MachineView { pc: wrap16(m0.pc + 2), ..m0 }),
{
    assert(m1.stack.drop_last() =~= m0.stack);
}

/// A draw that turns a set pixel off reports a collision; a draw over a
/// dark display does not.
pub proof fn lemma_draw_collision(pixels: Seq<bool>, sprite: Seq<Word>, vx: int, vy: int, i: int)
    ensures
        (0 <= i < pixels.len() && hit(sprite, vx, vy, i) && pixels[i]) ==> collides(pixels, sprite, vx, vy)
            && !drawn(pixels, sprite, vx, vy)[i],
        (forall|j: int| 0 <= j < pixels.len() ==> !#[trigger] pixels[j]) ==> !collides(pixels, sprite, vx, vy),
{
}

} // verus!
