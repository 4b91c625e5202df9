//! The machine state and the execution engine.
//!
//! `C8` owns all state: 4096 bytes of memory with the font table pre-loaded,
//! sixteen registers, the program counter, the index register, the display
//! grid, the call stack, the input vector and the two timers. One `tick`
//! advances the timers, then fetches and executes exactly one instruction.

use std::collections::VecDeque;

use vstd::prelude::*;

use crate::error::C8Error;
use crate::semantics::addr;
use crate::semantics::cell;
use crate::semantics::bit_weight;
use crate::semantics::sprite_bit;
use crate::semantics::sprite_row_bit;
use crate::semantics::draw_collision;
use crate::semantics::draw_disp;
use crate::semantics::draw_view;
use crate::semantics::exec_post;
use crate::semantics::mid_of;
use crate::semantics::rand_masked;
use crate::semantics::tick_post;
use crate::semantics::tick_rest;
use crate::semantics::timer_step;
use crate::semantics::alu_add_view;
use crate::semantics::alu_rsub_view;
use crate::semantics::alu_shl_view;
use crate::semantics::alu_shr_view;
use crate::semantics::alu_sub_view;
use crate::semantics::any_key;
use crate::semantics::bcd_view;
use crate::semantics::byte;
use crate::semantics::call_view;
use crate::semantics::char_view;
use crate::semantics::cls_view;
use crate::semantics::decode;
use crate::semantics::dump_view;
use crate::semantics::fresh_timer;
use crate::semantics::inv;
use crate::semantics::load_view;
use crate::semantics::lowest_key;
use crate::semantics::ret_view;
use crate::semantics::skip_post;
use crate::semantics::with_pc;
use crate::semantics::with_reg;
use crate::semantics::C8View;
use crate::timer::Timer;

verus! {

/// Memory size in bytes.
pub const MEM_SIZE: usize = 4096;

/// Address of the first font glyph.
pub const FONT_START: usize = 0x50;

/// Address at which a loaded program begins.
pub const PROGRAM_START: usize = 0x200;

/// RGB color of a lit pixel.
pub const GREEN: u32 = 0x00_ff_00;

/// RGB color of a dark pixel.
pub const BLACK: u32 = 0x00_00_00;

/// The font table: 16 glyphs (hexadecimal digits 0 through F), 5 bytes each.
pub open spec fn font_seq() -> Seq<u8> {
    seq![
        0xF0u8, 0x90, 0x90, 0x90, 0xF0,
        0x20, 0x60, 0x20, 0x20, 0x70,
        0xF0, 0x10, 0xF0, 0x80, 0xF0,
        0xF0, 0x10, 0xF0, 0x10, 0xF0,
        0x90, 0x90, 0xF0, 0x10, 0x10,
        0xF0, 0x80, 0xF0, 0x10, 0xF0,
        0xF0, 0x80, 0xF0, 0x90, 0xF0,
        0xF0, 0x10, 0x20, 0x40, 0x40,
        0xF0, 0x90, 0xF0, 0x90, 0xF0,
        0xF0, 0x90, 0xF0, 0x10, 0xF0,
        0xF0, 0x90, 0xF0, 0x90, 0x90,
        0xE0, 0x90, 0xE0, 0x90, 0xE0,
        0xF0, 0x80, 0x80, 0x80, 0xF0,
        0xE0, 0x90, 0x90, 0x90, 0xE0,
        0xF0, 0x80, 0xF0, 0x80, 0xF0,
        0xF0, 0x80, 0xF0, 0x80, 0x80,
    ]
}

/// Memory at construction: all zero but for the font table at its base.
pub open spec fn init_mem() -> Seq<u8> {
    Seq::new(4096, |a: int| if 0x50 <= a < 0xA0 { font_seq()[a - 0x50] } else { 0u8 })
}

/// The whole machine at construction.
pub open spec fn initial_view() -> C8View {
    C8View {
        mem: init_mem(),
        pc: 0x200,
        index: 0,
        reg: Seq::new(16, |k: int| 0u8),
        disp: Seq::new(2048, |k: int| false),
        stack: Seq::empty(),
        input: Seq::new(16, |k: int| false),
        delay: fresh_timer(0),
        sound: fresh_timer(0),
    }
}

/// The machine state.
pub struct C8 {
    memory: Vec<u8>,
    pc: usize,
    i: usize,
    reg: Vec<u8>,
    display: Vec<bool>,
    stack: VecDeque<usize>,
    delay: Timer,
    sound: Timer,
    input: Vec<bool>,
}

impl View for C8 {
    type V = C8View;

    closed spec fn view(&self) -> C8View {
        C8View {
            mem: self.memory@,
            pc: self.pc as int,
            index: self.i as int,
            reg: self.reg@,
            disp: self.display@,
            stack: Seq::new(self.stack@.len(), |k: int| self.stack@[k] as int),
            input: self.input@,
            delay: self.delay@,
            sound: self.sound@,
        }
    }
}

/// A vector holding `len` copies of `value`.
fn filled<T: Copy>(len: usize, value: T) -> (v: Vec<T>)
    ensures
        v@ == Seq::new(len as nat, |k: int| value),
{
    let mut v: Vec<T> = Vec::new();
    let mut k: usize = 0;
    while k < len
        invariant
            k <= len,
            v@ =~= Seq::new(k as nat, |j: int| value),
        decreases len - k,
    {
        v.push(value);
        k = k + 1;
    }
    proof {
        assert(v@ =~= Seq::new(len as nat, |k: int| value));
    }
    v
}

/// The font table as bytes.
fn font_table() -> (v: Vec<u8>)
    ensures
        v@ == font_seq(),
{
    let v: Vec<u8> = vec![
        0xF0u8, 0x90, 0x90, 0x90, 0xF0,
        0x20, 0x60, 0x20, 0x20, 0x70,
        0xF0, 0x10, 0xF0, 0x80, 0xF0,
        0xF0, 0x10, 0xF0, 0x10, 0xF0,
        0x90, 0x90, 0xF0, 0x10, 0x10,
        0xF0, 0x80, 0xF0, 0x10, 0xF0,
        0xF0, 0x80, 0xF0, 0x90, 0xF0,
        0xF0, 0x10, 0x20, 0x40, 0x40,
        0xF0, 0x90, 0xF0, 0x90, 0xF0,
        0xF0, 0x90, 0xF0, 0x10, 0xF0,
        0xF0, 0x90, 0xF0, 0x90, 0x90,
        0xE0, 0x90, 0xE0, 0x90, 0xE0,
        0xF0, 0x80, 0x80, 0x80, 0xF0,
        0xE0, 0x90, 0x90, 0x90, 0xE0,
        0xF0, 0x80, 0xF0, 0x80, 0xF0,
        0xF0, 0x80, 0xF0, 0x80, 0x80,
    ];
    proof {
        assert(v@ =~= font_seq());
    }
    v
}

impl Default for C8 {
    /// A machine with cleared state and the font table in place.
    fn default() -> (c: C8)
        ensures
            c@ == initial_view(),
            c.wf(),
    {
        C8::new()
    }
}

impl C8 {
    /// Well-formedness of the machine state.
    pub open spec fn wf(&self) -> bool {
        inv(self@)
    }

    /// A machine with cleared state and the font table in place.
    pub fn new() -> (c: C8)
        ensures
            c@ == initial_view(),
            c.wf(),
    {
        let mut memory = filled(MEM_SIZE, 0u8);
        let font = font_table();
        let mut k: usize = 0;
        while k < 80
            invariant
                k <= 80,
                memory@.len() == 4096,
                font@ == font_seq(),
                forall|a: int| 0 <= a < 4096 ==> #[trigger] memory@[a] == (if 0x50 <= a < 0x50
                    + k {
                    font_seq()[a - 0x50]
                } else {
                    0u8
                }),
            decreases 80 - k,
        {
            memory[FONT_START + k] = font[k];
            k = k + 1;
        }
        proof {
            assert forall|a: int| 0 <= a < 4096 implies memory@[a] == init_mem()[a] by {
                assert(memory@[a] == (if 0x50 <= a < 0xA0 { font_seq()[a - 0x50] } else { 0u8 }));
            }
            assert(memory@ =~= init_mem());
        }
        let ghost mem_done = memory@;
        let c = C8 {
            memory,
            pc: PROGRAM_START,
            i: 0,
            reg: filled(16, 0u8),
            display: filled(2048, false),
            stack: VecDeque::new(),
            delay: Timer::zero(),
            sound: Timer::zero(),
            input: filled(16, false),
        };
        proof {
            assert(c@.mem == mem_done);
            assert(c@.stack =~= Seq::<int>::empty());
            assert(c@ =~= initial_view());
        }
        c
    }

    /// Record a key going down or up.
    pub fn key_pressed(&mut self, key: usize, pressed: bool)
        requires
            old(self).wf(),
            key < 16,
        ensures
            final(self).wf(),
            final(self)@ == (C8View { input: old(self)@.input.update(key as int, pressed), ..old(self)@ }),
    {
        self.input[key] = pressed;
    }

    /// Jump: the program counter becomes `to`.
    pub fn jump(&mut self, to: usize)
        requires
            old(self).wf(),
            to < 4096,
        ensures
            final(self).wf(),
            final(self)@ == with_pc(old(self)@, to as int),
    {
        self.pc = to;
    }

    /// Load literal: the register holds the low byte of `val`.
    pub fn set_reg(&mut self, x: usize, val: u16)
        requires
            old(self).wf(),
            x < 16,
        ensures
            final(self).wf(),
            final(self)@ == with_reg(old(self)@, x as int, (val % 256) as u8),
    {
        self.reg[x] = (val % 256) as u8;
    }

    /// Add literal: the register gains the low byte of `val`, wrapping, with
    /// no flag written.
    pub fn add_to_reg(&mut self, x: usize, val: u16)
        requires
            old(self).wf(),
            x < 16,
        ensures
            final(self).wf(),
            final(self)@ == with_reg(
                old(self)@,
                x as int,
                ((old(self)@.reg[x as int] + (val % 256)) % 256) as u8,
            ),
    {
        let sum: u16 = self.reg[x] as u16 + val % 256;
        self.reg[x] = (sum % 256) as u8;
    }

    /// Set index: the index register becomes `val`.
    pub fn set_index(&mut self, val: usize)
        requires
            old(self).wf(),
            val < 4096,
        ensures
            final(self).wf(),
            final(self)@ == (C8View { index: val as int, ..old(self)@ }),
    {
        self.i = val;
    }

    /// Add to index: the index register gains the register's value, staying
    /// 16-bit-capable, with no flag written.
    pub fn add_to_index(&mut self, x: usize)
        requires
            old(self).wf(),
            x < 16,
        ensures
            final(self).wf(),
            final(self)@ == (C8View {
                index: (old(self)@.index + old(self)@.reg[x as int]) % 65536,
                ..old(self)@
            }),
    {
        self.i = (self.i + self.reg[x] as usize) % 65536;
    }

    /// Assign: the destination register takes the source's value.
    pub fn assign(&mut self, x: usize, y: usize)
        requires
            old(self).wf(),
            x < 16,
            y < 16,
        ensures
            final(self).wf(),
            final(self)@ == with_reg(old(self)@, x as int, old(self)@.reg[y as int]),
    {
        self.reg[x] = self.reg[y];
    }

    /// Bitwise OR into the destination register.
    pub fn or(&mut self, x: usize, y: usize)
        requires
            old(self).wf(),
            x < 16,
            y < 16,
        ensures
            final(self).wf(),
            final(self)@ == with_reg(
                old(self)@,
                x as int,
                old(self)@.reg[x as int] | old(self)@.reg[y as int],
            ),
    {
        self.reg[x] = self.reg[x] | self.reg[y];
    }

    /// Bitwise AND into the destination register.
    pub fn and(&mut self, x: usize, y: usize)
        requires
            old(self).wf(),
            x < 16,
            y < 16,
        ensures
            final(self).wf(),
            final(self)@ == with_reg(
                old(self)@,
                x as int,
                old(self)@.reg[x as int] & old(self)@.reg[y as int],
            ),
    {
        self.reg[x] = self.reg[x] & self.reg[y];
    }

    /// Bitwise XOR into the destination register.
    pub fn xor(&mut self, x: usize, y: usize)
        requires
            old(self).wf(),
            x < 16,
            y < 16,
        ensures
            final(self).wf(),
            final(self)@ == with_reg(
                old(self)@,
                x as int,
                old(self)@.reg[x as int] ^ old(self)@.reg[y as int],
            ),
    {
        self.reg[x] = self.reg[x] ^ self.reg[y];
    }

    /// Add with carry: register 15 becomes 1 exactly when the unsigned sum
    /// exceeds 255; the destination holds the truncated sum.
    pub fn plus(&mut self, x: usize, y: usize)
        requires
            old(self).wf(),
            x < 16,
            y < 16,
        ensures
            final(self).wf(),
            final(self)@ == alu_add_view(old(self)@, x as int, y as int),
    {
        let s: u16 = self.reg[x] as u16 + self.reg[y] as u16;
        self.reg[x] = (s % 256) as u8;
        self.reg[15] = if s > 255 { 1 } else { 0 };
    }

    /// Subtract with not-borrow: register 15 becomes 1 exactly when
    /// `reg[x] >= reg[y]` before the operation; the destination wraps.
    pub fn minus(&mut self, x: usize, y: usize)
        requires
            old(self).wf(),
            x < 16,
            y < 16,
        ensures
            final(self).wf(),
            final(self)@ == alu_sub_view(old(self)@, x as int, y as int),
    {
        let rx = self.reg[x];
        let ry = self.reg[y];
        let d: u16 = (rx as u16 + 256 - ry as u16) % 256;
        self.reg[x] = d as u8;
        self.reg[15] = if rx >= ry { 1 } else { 0 };
    }

    /// Reverse subtract (`reg[y] - reg[x]`), same flag convention.
    pub fn diff(&mut self, x: usize, y: usize)
        requires
            old(self).wf(),
            x < 16,
            y < 16,
        ensures
            final(self).wf(),
            final(self)@ == alu_rsub_view(old(self)@, x as int, y as int),
    {
        let rx = self.reg[x];
        let ry = self.reg[y];
        let d: u16 = (ry as u16 + 256 - rx as u16) % 256;
        self.reg[x] = d as u8;
        self.reg[15] = if ry >= rx { 1 } else { 0 };
    }

    /// Shift right: the flag takes the pre-shift bit 0, the value halves.
    pub fn shr(&mut self, x: usize)
        requires
            old(self).wf(),
            x < 16,
        ensures
            final(self).wf(),
            final(self)@ == alu_shr_view(old(self)@, x as int),
    {
        let rx = self.reg[x];
        self.reg[15] = rx % 2;
        let basis = self.reg[x];
        self.reg[x] = basis / 2;
    }

    /// Shift left: the flag takes the pre-shift bit 7, the value doubles
    /// modulo 256.
    pub fn shl(&mut self, x: usize)
        requires
            old(self).wf(),
            x < 16,
        ensures
            final(self).wf(),
            final(self)@ == alu_shl_view(old(self)@, x as int),
    {
        let rx = self.reg[x];
        self.reg[15] = rx / 128;
        let basis = self.reg[x];
        let doubled: u16 = (basis as u16 * 2) % 256;
        self.reg[x] = doubled as u8;
    }

    /// Clear screen: every display cell becomes false.
    pub fn clear_screen(&mut self)
        requires
            old(self).wf(),
        ensures
            final(self).wf(),
            final(self)@ == cls_view(old(self)@),
    {
        let ghost pre = self@;
        let mut k: usize = 0;
        while k < 2048
            invariant
                k <= 2048,
                self.display@.len() == 2048,
                forall|j: int| 0 <= j < k ==> !(#[trigger] self.display@[j]),
                self.memory@ == pre.mem,
                self.pc == pre.pc,
                self.i == pre.index,
                self.reg@ == pre.reg,
                self.stack == old(self).stack,
                self.input@ == pre.input,
                self.delay == old(self).delay,
                self.sound == old(self).sound,
            decreases 2048 - k,
        {
            self.display[k] = false;
            k = k + 1;
        }
        proof {
            assert(self@.disp =~= cls_view(pre).disp);
            assert(self@ =~= cls_view(pre));
        }
    }

    /// Subroutine call: the current program counter goes onto the stack,
    /// then control jumps to `at`.
    pub fn sub(&mut self, at: usize)
        requires
            old(self).wf(),
            at < 4096,
        ensures
            final(self).wf(),
            final(self)@ == call_view(old(self)@, at as int),
    {
        let ghost pre = self@;
        self.stack.push_front(self.pc);
        self.pc = at;
        proof {
            assert(self@.stack =~= call_view(pre, at as int).stack);
            assert(self@ =~= call_view(pre, at as int));
        }
    }

    /// Return: the front of the stack becomes the program counter; an empty
    /// stack is a defective program, reported rather than fatal.
    pub fn ret(&mut self) -> (r: Result<(), C8Error>)
        requires
            old(self).wf(),
        ensures
            final(self).wf(),
            old(self)@.stack.len() > 0 ==> r is Ok && final(self)@ == ret_view(old(self)@),
            old(self)@.stack.len() == 0 ==> r == Result::<(), C8Error>::Err(C8Error::StackUnderflow)
                && final(self)@ == old(self)@,
    {
        let ghost pre = self@;
        match self.stack.pop_front() {
            Some(to) => {
                self.pc = to;
                proof {
                    assert(self@.stack =~= ret_view(pre).stack);
                    assert(self@ =~= ret_view(pre));
                }
                Ok(())
            },
            None => {
                proof {
                    assert(self@ =~= pre);
                }
                Err(C8Error::StackUnderflow)
            },
        }
    }

    /// Font character: the index register points at the glyph of the
    /// register's value.
    pub fn char(&mut self, x: usize)
        requires
            old(self).wf(),
            x < 16,
        ensures
            final(self).wf(),
            final(self)@ == char_view(old(self)@, x as int),
    {
        self.i = FONT_START + (self.reg[x] as usize) * 5;
    }

    /// Set the delay timer from the register.
    pub fn delay(&mut self, x: usize)
        requires
            old(self).wf(),
            x < 16,
        ensures
            final(self).wf(),
            final(self)@ == (C8View { delay: fresh_timer(old(self)@.reg[x as int]), ..old(self)@ }),
    {
        self.delay = Timer::new(self.reg[x]);
        proof {
            assert(self@ =~= (C8View { delay: fresh_timer(old(self)@.reg[x as int]), ..old(self)@ }));
        }
    }

    /// Set the sound timer from the register.
    pub fn sound(&mut self, x: usize)
        requires
            old(self).wf(),
            x < 16,
        ensures
            final(self).wf(),
            final(self)@ == (C8View { sound: fresh_timer(old(self)@.reg[x as int]), ..old(self)@ }),
    {
        self.sound = Timer::new(self.reg[x]);
        proof {
            assert(self@ =~= (C8View { sound: fresh_timer(old(self)@.reg[x as int]), ..old(self)@ }));
        }
    }

    /// Read the delay timer into the register.
    pub fn get_delay(&mut self, x: usize)
        requires
            old(self).wf(),
            x < 16,
        ensures
            final(self).wf(),
            final(self)@ == with_reg(old(self)@, x as int, old(self)@.delay.val),
    {
        self.reg[x] = self.delay.val();
    }

    /// Wait for a key: if no key is down, rewind the program counter by 2 so
    /// the same instruction re-executes next tick; otherwise store the
    /// lowest-indexed pressed key.
    pub fn get_key(&mut self, x: usize)
        requires
            old(self).wf(),
            x < 16,
            !any_key(old(self)@.input) ==> old(self)@.pc >= 2,
        ensures
            final(self).wf(),
            any_key(old(self)@.input) ==> final(self)@ == with_reg(
                old(self)@,
                x as int,
                lowest_key(old(self)@.input, 0) as u8,
            ),
            !any_key(old(self)@.input) ==> final(self)@ == with_pc(old(self)@, old(self)@.pc - 2),
    {
        let ghost pre = self@;
        let mut k: usize = 0;
        while k < 16
            invariant
                k <= 16,
                x < 16,
                self == old(self),
                self.wf(),
                pre == self@,
                forall|j: int| 0 <= j < k ==> !(#[trigger] pre.input[j]),
                lowest_key(pre.input, 0) == lowest_key(pre.input, k as int),
            decreases 16 - k,
        {
            if self.input[k] {
                self.reg[x] = k as u8;
                proof {
                    assert(lowest_key(pre.input, k as int) == k);
                }
                return ;
            }
            k = k + 1;
        }
        proof {
            assert(lowest_key(pre.input, 16) == 16);
            assert(!any_key(pre.input));
        }
        self.pc = self.pc - 2;
    }

    /// BCD store: the hundreds, tens and ones digits of the register's
    /// value, stored at the index register. The three digits always weigh
    /// back to the value: `100*d0 + 10*d1 + d2 == reg[x]`.
    pub fn bcd(&mut self, x: usize) -> (r: Result<(), C8Error>)
        requires
            old(self).wf(),
            x < 16,
        ensures
            final(self).wf(),
            old(self)@.index + 3 <= 4096 ==> {
                &&& r is Ok
                &&& final(self)@ == bcd_view(old(self)@, x as int)
                &&& 100 * final(self)@.mem[old(self)@.index] + 10 * final(self)@.mem[old(self)@.index
                    + 1] + final(self)@.mem[old(self)@.index + 2] == old(self)@.reg[x as int]
            },
            old(self)@.index + 3 > 4096 ==> r == Result::<(), C8Error>::Err(
                C8Error::MemoryOutOfBounds,
            ) && final(self)@ == old(self)@,
    {
        if self.i + 3 > MEM_SIZE {
            return Err(C8Error::MemoryOutOfBounds);
        }
        let vx = self.reg[x];
        self.memory[self.i] = vx / 100;
        self.memory[self.i + 1] = (vx % 100) / 10;
        self.memory[self.i + 2] = vx % 10;
        Ok(())
    }

    /// Register dump: registers 0 through x copied to memory at the index.
    pub fn dump(&mut self, x: usize) -> (r: Result<(), C8Error>)
        requires
            old(self).wf(),
            x < 16,
        ensures
            final(self).wf(),
            old(self)@.index + x + 1 <= 4096 ==> r is Ok && final(self)@ == dump_view(
                old(self)@,
                x as int,
            ),
            old(self)@.index + x + 1 > 4096 ==> r == Result::<(), C8Error>::Err(
                C8Error::MemoryOutOfBounds,
            ) && final(self)@ == old(self)@,
    {
        if self.i + x + 1 > MEM_SIZE {
            return Err(C8Error::MemoryOutOfBounds);
        }
        let ghost pre = self@;
        let mut k: usize = 0;
        while k <= x
            invariant
                k <= x + 1,
                x < 16,
                self.wf(),
                pre.index + x + 1 <= 4096,
                self.i == pre.index,
                self.pc == pre.pc,
                self.reg@ == pre.reg,
                self.display@ == pre.disp,
                self.stack == old(self).stack,
                self.input@ == pre.input,
                self.delay == old(self).delay,
                self.sound == old(self).sound,
                self.memory@.len() == 4096,
                forall|a: int| 0 <= a < 4096 ==> #[trigger] self.memory@[a] == if pre.index <= a
                    < pre.index + k { pre.reg[a - pre.index] } else { pre.mem[a] },
            decreases x + 1 - k,
        {
            self.memory[self.i + k] = self.reg[k];
            k = k + 1;
        }
        proof {
            assert(self@.mem =~= dump_view(pre, x as int).mem);
            assert(self@ =~= dump_view(pre, x as int));
        }
        Ok(())
    }

    /// Register load: registers 0 through x filled from memory at the index.
    pub fn load(&mut self, x: usize) -> (r: Result<(), C8Error>)
        requires
            old(self).wf(),
            x < 16,
        ensures
            final(self).wf(),
            old(self)@.index + x + 1 <= 4096 ==> r is Ok && final(self)@ == load_view(
                old(self)@,
                x as int,
            ),
            old(self)@.index + x + 1 > 4096 ==> r == Result::<(), C8Error>::Err(
                C8Error::MemoryOutOfBounds,
            ) && final(self)@ == old(self)@,
    {
        if self.i + x + 1 > MEM_SIZE {
            return Err(C8Error::MemoryOutOfBounds);
        }
        let ghost pre = self@;
        let mut k: usize = 0;
        while k <= x
            invariant
                k <= x + 1,
                x < 16,
                self.wf(),
                pre.index + x + 1 <= 4096,
                self.i == pre.index,
                self.pc == pre.pc,
                self.memory@ == pre.mem,
                self.display@ == pre.disp,
                self.stack == old(self).stack,
                self.input@ == pre.input,
                self.delay == old(self).delay,
                self.sound == old(self).sound,
                self.reg@.len() == 16,
                forall|j: int| 0 <= j < 16 ==> #[trigger] self.reg@[j] == if j < k {
                    pre.mem[pre.index + j]
                } else {
                    pre.reg[j]
                },
            decreases x + 1 - k,
        {
            self.reg[k] = self.memory[self.i + k];
            k = k + 1;
        }
        proof {
            assert(self@.reg =~= load_view(pre, x as int).reg);
            assert(self@ =~= load_view(pre, x as int));
        }
        Ok(())
    }

    /// Fetch: read the two instruction bytes at the program counter, split
    /// them into four nibbles, and advance the counter by 2.
    pub fn fetch(&mut self) -> (r: Result<(u8, u8, u8, u8), C8Error>)
        requires
            old(self).wf(),
        ensures
            final(self).wf(),
            old(self)@.pc + 2 <= 4096 ==> {
                &&& r is Ok
                &&& r == Result::<(u8, u8, u8, u8), C8Error>::Ok(
                    decode(old(self)@.mem, old(self)@.pc),
                )
                &&& decode(old(self)@.mem, old(self)@.pc).0 < 16
                &&& decode(old(self)@.mem, old(self)@.pc).1 < 16
                &&& decode(old(self)@.mem, old(self)@.pc).2 < 16
                &&& decode(old(self)@.mem, old(self)@.pc).3 < 16
                &&& final(self)@ == with_pc(old(self)@, old(self)@.pc + 2)
            },
            old(self)@.pc + 2 > 4096 ==> r == Result::<(u8, u8, u8, u8), C8Error>::Err(
                C8Error::MemoryOutOfBounds,
            ) && final(self)@ == old(self)@,
    {
        if self.pc + 2 > MEM_SIZE {
            return Err(C8Error::MemoryOutOfBounds);
        }
        let b0 = self.memory[self.pc];
        let b1 = self.memory[self.pc + 1];
        self.pc = self.pc + 2;
        Ok((b0 / 16, b0 % 16, b1 / 16, b1 % 16))
    }

    /// Conditional skip: when the condition holds, one extra fetch advances
    /// the program counter past the following instruction without executing
    /// it.
    pub fn skip_if(&mut self, skip: bool) -> (r: Result<(), C8Error>)
        requires
            old(self).wf(),
        ensures
            final(self).wf(),
            skip_post(old(self)@, skip, r, final(self)@),
    {
        if skip {
            match self.fetch() {
                Ok(_) => Ok(()),
                Err(e) => Err(e),
            }
        } else {
            Ok(())
        }
    }
}

/// The sprite bit landing on cell `(c, r)`, restricted to the part of the
/// sprite already processed: rows before `r0`, and in row `r0` the columns
/// before `c0`.
spec fn part_bit(
    mem: Seq<u8>,
    i: int,
    vx: int,
    vy: int,
    n: int,
    r0: int,
    c0: int,
    c: int,
    r: int,
) -> bool {
    &&& sprite_bit(mem, i, vx, vy, n, c, r)
    &&& (r - vy < r0 || (r - vy == r0 && c - vx < c0))
}

/// The display after the processed part of the sprite has been XORed in.
spec fn part_disp(
    disp: Seq<bool>,
    mem: Seq<u8>,
    i: int,
    vx: int,
    vy: int,
    n: int,
    r0: int,
    c0: int,
) -> Seq<bool> {
    Seq::new(2048, |k: int| disp[k] ^ part_bit(mem, i, vx, vy, n, r0, c0, k / 32, k % 32))
}

/// Whether the processed part of the sprite has hit a set cell.
spec fn part_coll(
    disp: Seq<bool>,
    mem: Seq<u8>,
    i: int,
    vx: int,
    vy: int,
    n: int,
    r0: int,
    c0: int,
) -> bool {
    exists|c: int, r: int|
        0 <= c < 64 && 0 <= r < 32 && #[trigger] part_bit(mem, i, vx, vy, n, r0, c0, c, r)
            && disp[cell(c, r)]
}

/// Two processed-part markers that select the same bits report the same
/// collision.
proof fn lemma_coll_shift(
    disp: Seq<bool>,
    mem: Seq<u8>,
    i: int,
    vx: int,
    vy: int,
    n: int,
    r0a: int,
    c0a: int,
    r0b: int,
    c0b: int,
)
    requires
        forall|c: int, r: int| 0 <= c < 64 && 0 <= r < 32 ==> (#[trigger] part_bit(
            mem,
            i,
            vx,
            vy,
            n,
            r0a,
            c0a,
            c,
            r,
        ) == part_bit(mem, i, vx, vy, n, r0b, c0b, c, r)),
    ensures
        part_coll(disp, mem, i, vx, vy, n, r0a, c0a) == part_coll(disp, mem, i, vx, vy, n, r0b, c0b),
{
    if part_coll(disp, mem, i, vx, vy, n, r0a, c0a) {
        let (c, r) = choose|c: int, r: int|
            0 <= c < 64 && 0 <= r < 32 && #[trigger] part_bit(mem, i, vx, vy, n, r0a, c0a, c, r)
                && disp[cell(c, r)];
        assert(part_bit(mem, i, vx, vy, n, r0b, c0b, c, r));
        assert(part_coll(disp, mem, i, vx, vy, n, r0b, c0b));
    }
    if part_coll(disp, mem, i, vx, vy, n, r0b, c0b) {
        let (c, r) = choose|c: int, r: int|
            0 <= c < 64 && 0 <= r < 32 && #[trigger] part_bit(mem, i, vx, vy, n, r0b, c0b, c, r)
                && disp[cell(c, r)];
        assert(part_bit(mem, i, vx, vy, n, r0a, c0a, c, r));
        assert(part_coll(disp, mem, i, vx, vy, n, r0a, c0a));
    }
}

/// Relies on rand::random: one random byte; nothing is assumed of its value.
#[verifier::external_body]
fn random_byte() -> u8 {
    rand::random::<u8>()
}

/// The place value of column offset `c` in a sprite row byte.
fn weight_of(c: usize) -> (w: u8)
    requires
        c < 8,
    ensures
        w as int == bit_weight(c as int),
        w >= 1,
{
    if c == 0 {
        128
    } else if c == 1 {
        64
    } else if c == 2 {
        32
    } else if c == 3 {
        16
    } else if c == 4 {
        8
    } else if c == 5 {
        4
    } else if c == 6 {
        2
    } else {
        1
    }
}

/// A 12-bit address from three nibbles.
fn addr_of(a: u8, b: u8, c: u8) -> (r: u16)
    requires
        a < 16,
        b < 16,
        c < 16,
    ensures
        r as int == addr(a, b, c),
        r < 4096,
{
    (a as u16) * 256 + (b as u16) * 16 + (c as u16)
}

/// An 8-bit literal from two nibbles, widened as the decoder hands it on.
fn byte16_of(a: u8, b: u8) -> (r: u16)
    requires
        a < 16,
        b < 16,
    ensures
        r as int == byte(a, b),
        r < 256,
{
    (a as u16) * 16 + (b as u16)
}

/// The pixel buffer a render produces: row-major, one solid color per cell.
pub open spec fn render_seq(disp: Seq<bool>) -> Seq<u32> {
    Seq::new(2048, |k: int| if disp[cell(k % 64, k / 64)] { GREEN } else { BLACK })
}

/// Memory after a program image is copied in at the program start offset.
pub open spec fn loaded_mem(mem: Seq<u8>, p: Seq<u8>) -> Seq<u8> {
    Seq::new(4096, |a: int| if 0x200 <= a < 0x200 + p.len() { p[a - 0x200] } else { mem[a] })
}

impl C8 {
    /// Draw sprite: reset the flag, anchor at `reg[x] mod 64`, `reg[y] mod
    /// 32`, XOR `height` rows of 8 bits into the display (clipping at the
    /// edges), and set register 15 exactly when a set cell is toggled off.
    pub fn draw(&mut self, x: usize, y: usize, height: u8) -> (r: Result<(), C8Error>)
        requires
            old(self).wf(),
            x < 16,
            y < 16,
        ensures
            final(self).wf(),
            height > 0 && old(self)@.index + height > 4096 ==> r == Result::<(), C8Error>::Err(
                C8Error::MemoryOutOfBounds,
            ) && final(self)@ == old(self)@,
            !(height > 0 && old(self)@.index + height > 4096) ==> r is Ok && final(self)@
                == draw_view(old(self)@, x as int, y as int, height as int),
    {
        if height > 0 && self.i + height as usize > MEM_SIZE {
            return Err(C8Error::MemoryOutOfBounds);
        }
        let ghost pre = self@;
        let ghost n: int = height as int;
        self.reg[15] = 0;
        let vx = (self.reg[x] % 64) as usize;
        let vy = (self.reg[y] % 32) as usize;
        let ghost gvx: int = vx as int;
        let ghost gvy: int = vy as int;
        proof {
            assert(self.reg@ =~= pre.reg.update(15, 0u8));
            assert forall|k: int| 0 <= k < 2048 implies self.display@[k] == part_disp(
                pre.disp,
                pre.mem,
                pre.index,
                gvx,
                gvy,
                n,
                0,
                0,
            )[k] by {
                assert(!part_bit(pre.mem, pre.index, gvx, gvy, n, 0, 0, k / 32, k % 32));
            }
            assert(!part_coll(pre.disp, pre.mem, pre.index, gvx, gvy, n, 0, 0)) by {
                if part_coll(pre.disp, pre.mem, pre.index, gvx, gvy, n, 0, 0) {
                    let (c, r) = choose|c: int, r: int|
                        0 <= c < 64 && 0 <= r < 32 && #[trigger] part_bit(
                            pre.mem,
                            pre.index,
                            gvx,
                            gvy,
                            n,
                            0,
                            0,
                            c,
                            r,
                        ) && pre.disp[cell(c, r)];
                    assert(false);
                }
            }
        }
        let mut rr: usize = 0;
        while rr < height as usize
            invariant
                x < 16,
                y < 16,
                rr <= height,
                inv(pre),
                n == height as int,
                height > 0 ==> pre.index + n <= 4096,
                0 <= gvx < 64,
                0 <= gvy < 32,
                vx as int == gvx,
                vy as int == gvy,
                self.i == pre.index,
                self.pc == pre.pc,
                self.memory@ == pre.mem,
                self.stack == old(self).stack,
                self.input@ == pre.input,
                self.delay == old(self).delay,
                self.sound == old(self).sound,
                self.display@.len() == 2048,
                self.reg@.len() == 16,
                self.display@ =~= part_disp(pre.disp, pre.mem, pre.index, gvx, gvy, n, rr as int, 0),
                self.reg@ =~= pre.reg.update(
                    15,
                    if part_coll(pre.disp, pre.mem, pre.index, gvx, gvy, n, rr as int, 0) {
                        1u8
                    } else {
                        0u8
                    },
                ),
            decreases height - rr,
        {
            let row = self.memory[self.i + rr];
            let mut cc: usize = 0;
            let mut weight: u8 = 128;
            while cc < 8
                invariant
                    x < 16,
                    y < 16,
                    cc <= 8,
                    rr < height,
                    inv(pre),
                    n == height as int,
                    pre.index + n <= 4096,
                    0 <= gvx < 64,
                    0 <= gvy < 32,
                    vx as int == gvx,
                    vy as int == gvy,
                    row == pre.mem[pre.index + rr],
                    cc < 8 ==> weight as int == bit_weight(cc as int),
                    cc < 8 ==> weight >= 1,
                    self.i == pre.index,
                    self.pc == pre.pc,
                    self.memory@ == pre.mem,
                    self.stack == old(self).stack,
                    self.input@ == pre.input,
                    self.delay == old(self).delay,
                    self.sound == old(self).sound,
                    self.display@.len() == 2048,
                    self.reg@.len() == 16,
                    self.display@ =~= part_disp(
                        pre.disp,
                        pre.mem,
                        pre.index,
                        gvx,
                        gvy,
                        n,
                        rr as int,
                        cc as int,
                    ),
                    self.reg@ =~= pre.reg.update(
                        15,
                        if part_coll(
                            pre.disp,
                            pre.mem,
                            pre.index,
                            gvx,
                            gvy,
                            n,
                            rr as int,
                            cc as int,
                        ) {
                            1u8
                        } else {
                            0u8
                        },
                    ),
                decreases 8 - cc,
            {
                let bit = (row / weight) % 2 == 1;
                proof {
                    assert(bit == sprite_row_bit(row, cc as int));
                }
                let ghost oldd = self.display@;
                let ghost oldreg = self.reg@;
                let ghost oldcoll = part_coll(
                    pre.disp,
                    pre.mem,
                    pre.index,
                    gvx,
                    gvy,
                    n,
                    rr as int,
                    cc as int,
                );
                let col = vx + cc;
                let rowpos = vy + rr;
                let ghost kcell: int = cell(gvx + cc, gvy + rr);
                let mut hit: bool = false;
                if bit && col < 64 && rowpos < 32 {
                    let idx = col * 32 + rowpos;
                    let p = self.display[idx];
                    self.display[idx] = !p;
                    if p {
                        self.reg[15] = 1;
                        hit = true;
                    }
                    proof {
                        assert(oldd[kcell] == pre.disp[kcell] ^ part_bit(
                            pre.mem,
                            pre.index,
                            gvx,
                            gvy,
                            n,
                            rr as int,
                            cc as int,
                            gvx + cc,
                            gvy + rr,
                        ));
                        assert(!part_bit(
                            pre.mem,
                            pre.index,
                            gvx,
                            gvy,
                            n,
                            rr as int,
                            cc as int,
                            gvx + cc,
                            gvy + rr,
                        ));
                        assert(p == pre.disp[kcell]);
                    }
                }
                proof {
                    let ghost newcoll = oldcoll || (bit && gvx + cc < 64 && gvy + rr < 32
                        && pre.disp[kcell]);
                    assert forall|k: int| 0 <= k < 2048 implies self.display@[k] == part_disp(
                        pre.disp,
                        pre.mem,
                        pre.index,
                        gvx,
                        gvy,
                        n,
                        rr as int,
                        cc + 1 as int,
                    )[k] by {
                        let c = k / 32;
                        let r = k % 32;
                        assert(k == c * 32 + r);
                        assert(0 <= c < 64 && 0 <= r < 32);
                        if c == gvx + cc && r == gvy + rr {
                            assert(!part_bit(
                                pre.mem,
                                pre.index,
                                gvx,
                                gvy,
                                n,
                                rr as int,
                                cc as int,
                                c,
                                r,
                            ));
                            assert(oldd[k] == pre.disp[k]);
                            assert(sprite_bit(pre.mem, pre.index, gvx, gvy, n, c, r) == bit);
                            assert(part_bit(
                                pre.mem,
                                pre.index,
                                gvx,
                                gvy,
                                n,
                                rr as int,
                                cc + 1 as int,
                                c,
                                r,
                            ) == bit);
                            if bit {
                                assert(self.display@[k] == !pre.disp[k]);
                            } else {
                                assert(self.display@[k] == pre.disp[k]);
                            }
                        } else {
                            assert(part_bit(
                                pre.mem,
                                pre.index,
                                gvx,
                                gvy,
                                n,
                                rr as int,
                                cc + 1 as int,
                                c,
                                r,
                            ) == part_bit(
                                pre.mem,
                                pre.index,
                                gvx,
                                gvy,
                                n,
                                rr as int,
                                cc as int,
                                c,
                                r,
                            ));
                            assert(self.display@[k] == oldd[k]);
                        }
                    }
                    // the collision seen so far grows exactly by this bit's hit
                    assert(part_coll(
                        pre.disp,
                        pre.mem,
                        pre.index,
                        gvx,
                        gvy,
                        n,
                        rr as int,
                        cc + 1 as int,
                    ) == newcoll) by {
                        if part_coll(
                            pre.disp,
                            pre.mem,
                            pre.index,
                            gvx,
                            gvy,
                            n,
                            rr as int,
                            cc + 1 as int,
                        ) {
                            let (c, r) = choose|c: int, r: int|
                                0 <= c < 64 && 0 <= r < 32 && #[trigger] part_bit(
                                    pre.mem,
                                    pre.index,
                                    gvx,
                                    gvy,
                                    n,
                                    rr as int,
                                    cc + 1 as int,
                                    c,
                                    r,
                                ) && pre.disp[cell(c, r)];
                            if c == gvx + cc && r == gvy + rr {
                                assert(sprite_bit(pre.mem, pre.index, gvx, gvy, n, c, r));
                                assert(newcoll);
                            } else {
                                assert(part_bit(
                                    pre.mem,
                                    pre.index,
                                    gvx,
                                    gvy,
                                    n,
                                    rr as int,
                                    cc as int,
                                    c,
                                    r,
                                ));
                                assert(oldcoll);
                            }
                        }
                        if newcoll {
                            if oldcoll {
                                let (c, r) = choose|c: int, r: int|
                                    0 <= c < 64 && 0 <= r < 32 && #[trigger] part_bit(
                                        pre.mem,
                                        pre.index,
                                        gvx,
                                        gvy,
                                        n,
                                        rr as int,
                                        cc as int,
                                        c,
                                        r,
                                    ) && pre.disp[cell(c, r)];
                                assert(part_bit(
                                    pre.mem,
                                    pre.index,
                                    gvx,
                                    gvy,
                                    n,
                                    rr as int,
                                    cc + 1 as int,
                                    c,
                                    r,
                                ));
                            } else {
                                assert(part_bit(
                                    pre.mem,
                                    pre.index,
                                    gvx,
                                    gvy,
                                    n,
                                    rr as int,
                                    cc + 1 as int,
                                    gvx + cc,
                                    gvy + rr,
                                ));
                            }
                        }
                    }
                    if hit {
                        assert(self.reg@ =~= pre.reg.update(15, 1u8));
                        assert(newcoll);
                    } else {
                        assert(self.reg@ == oldreg);
                        assert(newcoll == oldcoll);
                    }
                }
                cc = cc + 1;
                weight = weight / 2;
            }
            proof {
                assert forall|c: int, r: int| 0 <= c < 64 && 0 <= r < 32 implies (#[trigger] part_bit(
                    pre.mem,
                    pre.index,
                    gvx,
                    gvy,
                    n,
                    rr as int,
                    8,
                    c,
                    r,
                ) == part_bit(pre.mem, pre.index, gvx, gvy, n, rr + 1 as int, 0, c, r)) by {
                }
                assert(self.display@ =~= part_disp(
                    pre.disp,
                    pre.mem,
                    pre.index,
                    gvx,
                    gvy,
                    n,
                    rr + 1 as int,
                    0,
                ));
                lemma_coll_shift(
                    pre.disp,
                    pre.mem,
                    pre.index,
                    gvx,
                    gvy,
                    n,
                    rr as int,
                    8,
                    rr + 1 as int,
                    0,
                );
            }
            rr = rr + 1;
        }
        proof {
            assert forall|k: int| 0 <= k < 2048 implies self.display@[k] == draw_disp(
                pre,
                gvx,
                gvy,
                n,
            )[k] by {
                assert(part_bit(pre.mem, pre.index, gvx, gvy, n, n, 0, k / 32, k % 32)
                    == sprite_bit(pre.mem, pre.index, gvx, gvy, n, k / 32, k % 32));
            }
            assert(part_coll(pre.disp, pre.mem, pre.index, gvx, gvy, n, n, 0) == draw_collision(
                pre,
                gvx,
                gvy,
                n,
            )) by {
                if part_coll(pre.disp, pre.mem, pre.index, gvx, gvy, n, n, 0) {
                    let (c, r) = choose|c: int, r: int|
                        0 <= c < 64 && 0 <= r < 32 && #[trigger] part_bit(
                            pre.mem,
                            pre.index,
                            gvx,
                            gvy,
                            n,
                            n,
                            0,
                            c,
                            r,
                        ) && pre.disp[cell(c, r)];
                    assert(sprite_bit(pre.mem, pre.index, gvx, gvy, n, c, r));
                    assert(draw_collision(pre, gvx, gvy, n));
                }
                if draw_collision(pre, gvx, gvy, n) {
                    let (c, r) = choose|c: int, r: int|
                        0 <= c < 64 && 0 <= r < 32 && #[trigger] sprite_bit(
                            pre.mem,
                            pre.index,
                            gvx,
                            gvy,
                            n,
                            c,
                            r,
                        ) && pre.disp[cell(c, r)];
                    assert(part_bit(pre.mem, pre.index, gvx, gvy, n, n, 0, c, r));
                    assert(part_coll(pre.disp, pre.mem, pre.index, gvx, gvy, n, n, 0));
                }
            }
            assert(self@ =~= draw_view(pre, x as int, y as int, n));
        }
        Ok(())
    }

    /// Random-and: a random byte masked with the low byte of `val` lands in
    /// the register. Whatever byte chance hands back, the result is its
    /// masking.
    pub fn and_rand(&mut self, x: usize, val: u16)
        requires
            old(self).wf(),
            x < 16,
        ensures
            final(self).wf(),
            exists|rb: u8| final(self)@ == with_reg(
                old(self)@,
                x as int,
                #[trigger] rand_masked(rb, (val % 256) as u8),
            ),
    {
        let rb = random_byte();
        let masked = rb & (val % 256) as u8;
        self.reg[x] = masked;
        proof {
            assert(masked == rand_masked(rb, (val % 256) as u8));
        }
    }

    /// Dispatch one decoded instruction to the operation it denotes and
    /// apply exactly one state mutation; an unmatched pattern is a defective
    /// program, reported rather than fatal.
    pub fn execute(&mut self, instruction: (u8, u8, u8, u8)) -> (r: Result<(), C8Error>)
        requires
            old(self).wf(),
            instruction.0 < 16,
            instruction.1 < 16,
            instruction.2 < 16,
            instruction.3 < 16,
            old(self)@.pc >= 2,
        ensures
            final(self).wf(),
            exec_post(
                old(self)@,
                instruction.0,
                instruction.1,
                instruction.2,
                instruction.3,
                r,
                final(self)@,
            ),
    {
        match instruction {
            (0x0, 0x0, 0xe, 0x0) => {
                self.clear_screen();
                Ok(())
            },
            (0x0, 0x0, 0xe, 0xe) => self.ret(),
            (0x1, a, b, c) => {
                let to = addr_of(a, b, c);
                self.jump(to as usize);
                Ok(())
            },
            (0x2, a, b, c) => {
                let to = addr_of(a, b, c);
                self.sub(to as usize);
                Ok(())
            },
            (0x3, x, a, b) => {
                let cond = self.reg[x as usize] as u16 == byte16_of(a, b);
                self.skip_if(cond)
            },
            (0x4, x, a, b) => {
                let cond = self.reg[x as usize] as u16 != byte16_of(a, b);
                self.skip_if(cond)
            },
            (0x5, x, y, 0x0) => {
                let cond = self.reg[x as usize] == self.reg[y as usize];
                self.skip_if(cond)
            },
            (0x6, x, a, b) => {
                let v = byte16_of(a, b);
                self.set_reg(x as usize, v);
                Ok(())
            },
            (0x7, x, a, b) => {
                let v = byte16_of(a, b);
                self.add_to_reg(x as usize, v);
                Ok(())
            },
            (0x8, x, y, 0x0) => {
                self.assign(x as usize, y as usize);
                Ok(())
            },
            (0x8, x, y, 0x1) => {
                self.or(x as usize, y as usize);
                Ok(())
            },
            (0x8, x, y, 0x2) => {
                self.and(x as usize, y as usize);
                Ok(())
            },
            (0x8, x, y, 0x3) => {
                self.xor(x as usize, y as usize);
                Ok(())
            },
            (0x8, x, y, 0x4) => {
                self.plus(x as usize, y as usize);
                Ok(())
            },
            (0x8, x, y, 0x5) => {
                self.minus(x as usize, y as usize);
                Ok(())
            },
            (0x8, x, _, 0x6) => {
                self.shr(x as usize);
                Ok(())
            },
            (0x8, x, y, 0x7) => {
                self.diff(x as usize, y as usize);
                Ok(())
            },
            (0x8, x, _, 0xe) => {
                self.shl(x as usize);
                Ok(())
            },
            (0x9, x, y, 0x0) => {
                let cond = self.reg[x as usize] != self.reg[y as usize];
                self.skip_if(cond)
            },
            (0xa, a, b, c) => {
                let to = addr_of(a, b, c);
                self.set_index(to as usize);
                Ok(())
            },
            (0xc, x, a, b) => {
                let v = byte16_of(a, b);
                self.and_rand(x as usize, v);
                Ok(())
            },
            (0xd, x, y, n) => self.draw(x as usize, y as usize, n),
            (0xe, x, 0x9, 0xe) => {
                let kv = self.reg[x as usize];
                if kv >= 16 {
                    Err(C8Error::KeyOutOfRange)
                } else {
                    let cond = self.input[kv as usize];
                    self.skip_if(cond)
                }
            },
            (0xe, x, 0xa, 0x1) => {
                let kv = self.reg[x as usize];
                if kv >= 16 {
                    Err(C8Error::KeyOutOfRange)
                } else {
                    let cond = !self.input[kv as usize];
                    self.skip_if(cond)
                }
            },
            (0xf, x, 0x0, 0xa) => {
                self.get_key(x as usize);
                Ok(())
            },
            (0xf, x, 0x3, 0x3) => self.bcd(x as usize),
            (0xf, x, 0x5, 0x5) => self.dump(x as usize),
            (0xf, x, 0x6, 0x5) => self.load(x as usize),
            (0xf, x, 0x2, 0x9) => {
                self.char(x as usize);
                Ok(())
            },
            (0xf, x, 0x1, 0x5) => {
                self.delay(x as usize);
                Ok(())
            },
            (0xf, x, 0x1, 0x8) => {
                self.sound(x as usize);
                Ok(())
            },
            (0xf, x, 0x0, 0x7) => {
                self.get_delay(x as usize);
                Ok(())
            },
            (0xf, x, 0x1, 0xe) => {
                self.add_to_index(x as usize);
                Ok(())
            },
            _ => Err(
                C8Error::UnknownInstruction(
                    instruction.0,
                    instruction.1,
                    instruction.2,
                    instruction.3,
                ),
            ),
        }
    }

    /// One tick: both timers take a step of real elapsed time, then exactly
    /// one instruction is fetched and executed. A jump leaves everything but
    /// the program counter alone, so a jump to the instruction's own address
    /// keeps the counter constant across any number of ticks; the key-wait
    /// instruction leaves the counter unchanged whenever no key is down, and
    /// stores the lowest pressed key and moves on otherwise.
    pub fn tick(&mut self) -> (r: Result<(), C8Error>)
        requires
            old(self).wf(),
        ensures
            final(self).wf(),
            tick_post(old(self)@, r, final(self)@),
            ({
                let d = decode(old(self)@.mem, old(self)@.pc);
                old(self)@.pc + 2 <= 4096 && d.0 == 1 ==> r is Ok && final(self)@.pc == addr(
                    d.1,
                    d.2,
                    d.3,
                ) && final(self)@.mem == old(self)@.mem && final(self)@.disp == old(self)@.disp
                    && final(self)@.reg == old(self)@.reg && final(self)@.input == old(self)@.input
                    && final(self)@.stack == old(self)@.stack && final(self)@.index
                    == old(self)@.index
            }),
            ({
                let d = decode(old(self)@.mem, old(self)@.pc);
                old(self)@.pc + 2 <= 4096 && d.0 == 0xf && d.2 == 0x0 && d.3 == 0xa ==> r is Ok
                    && final(self)@.mem == old(self)@.mem && final(self)@.disp == old(self)@.disp
                    && final(self)@.input == old(self)@.input && final(self)@.stack
                    == old(self)@.stack && (!any_key(old(self)@.input) ==> final(self)@.pc
                    == old(self)@.pc && final(self)@.reg == old(self)@.reg) && (any_key(
                    old(self)@.input,
                ) ==> final(self)@.pc == old(self)@.pc + 2 && final(self)@.reg
                    == old(self)@.reg.update(d.1 as int, lowest_key(old(self)@.input, 0) as u8))
            }),
    {
        let ghost pre = self@;
        self.delay.update();
        let ghost d = self.delay@;
        self.sound.update();
        let ghost s = self.sound@;
        proof {
            assert(timer_step(pre.delay, d));
            assert(timer_step(pre.sound, s));
            assert(self@ =~= mid_of(pre, d, s));
        }
        let ghost mid = self@;
        let instruction = match self.fetch() {
            Ok(ins) => ins,
            Err(e) => {
                proof {
                    assert(tick_rest(mid, Result::<(), C8Error>::Err(e), final(self)@));
                    assert(tick_post(pre, Result::<(), C8Error>::Err(e), final(self)@));
                }
                return Err(e);
            },
        };
        let res = self.execute(instruction);
        proof {
            assert(tick_rest(mid, res, final(self)@));
            assert(tick_post(pre, res, final(self)@));
        }
        res
    }

    /// Fill the caller's 64x32 pixel buffer row-major, one solid color per
    /// display cell.
    pub fn render(&mut self, frame: &mut Vec<u32>)
        requires
            old(self).wf(),
            old(frame)@.len() == 2048,
        ensures
            final(self).wf(),
            final(self)@ == old(self)@,
            final(frame)@ == render_seq(old(self)@.disp),
    {
        let ghost pre = self@;
        let mut k: usize = 0;
        while k < 2048
            invariant
                k <= 2048,
                self == old(self),
                self.wf(),
                pre == self@,
                frame@.len() == 2048,
                forall|j: int| 0 <= j < k ==> #[trigger] frame@[j] == render_seq(pre.disp)[j],
            decreases 2048 - k,
        {
            let c = k % 64;
            let rw = k / 64;
            let idx = c * 32 + rw;
            let v: u32 = if self.display[idx] {
                GREEN
            } else {
                BLACK
            };
            frame[k] = v;
            k = k + 1;
        }
        proof {
            assert(frame@ =~= render_seq(pre.disp));
        }
    }

    /// Copy a program image into memory at the program start offset; an
    /// image that does not fit is rejected with the memory unchanged.
    pub fn load_program(&mut self, program: &Vec<u8>) -> (r: Result<(), C8Error>)
        requires
            old(self).wf(),
        ensures
            final(self).wf(),
            program@.len() <= 3584 ==> r is Ok && final(self)@ == (C8View {
                mem: loaded_mem(old(self)@.mem, program@),
                ..old(self)@
            }),
            program@.len() > 3584 ==> r == Result::<(), C8Error>::Err(C8Error::ProgramTooLarge)
                && final(self)@ == old(self)@,
    {
        if program.len() > MEM_SIZE - PROGRAM_START {
            return Err(C8Error::ProgramTooLarge);
        }
        let ghost pre = self@;
        let mut k: usize = 0;
        while k < program.len()
            invariant
                k <= program@.len(),
                program@.len() <= 3584,
                self.pc == pre.pc,
                self.i == pre.index,
                self.reg@ == pre.reg,
                self.display@ == pre.disp,
                self.stack == old(self).stack,
                self.input@ == pre.input,
                self.delay == old(self).delay,
                self.sound == old(self).sound,
                self.memory@.len() == 4096,
                forall|a: int| 0 <= a < 4096 ==> #[trigger] self.memory@[a] == (if 0x200 <= a
                    < 0x200 + k {
                    program@[a - 0x200]
                } else {
                    pre.mem[a]
                }),
            decreases program@.len() - k,
        {
            self.memory[PROGRAM_START + k] = program[k];
            k = k + 1;
        }
        proof {
            assert(self@.mem =~= loaded_mem(pre.mem, program@));
            assert(self@ =~= (C8View { mem: loaded_mem(pre.mem, program@), ..pre }));
        }
        Ok(())
    }

    /// The program counter.
    pub fn program_counter(&self) -> (p: usize)
        ensures
            p == self@.pc,
    {
        self.pc
    }

    /// The index register.
    pub fn index_register(&self) -> (v: usize)
        ensures
            v == self@.index,
    {
        self.i
    }

    /// One general-purpose register.
    pub fn register(&self, x: usize) -> (v: u8)
        requires
            self.wf(),
            x < 16,
        ensures
            v == self@.reg[x as int],
    {
        self.reg[x]
    }

    /// One display cell, by column and row.
    pub fn pixel(&self, col: usize, row: usize) -> (v: bool)
        requires
            self.wf(),
            col < 64,
            row < 32,
        ensures
            v == self@.disp[cell(col as int, row as int)],
    {
        self.display[col * 32 + row]
    }

    /// One byte of memory.
    pub fn mem_byte(&self, address: usize) -> (v: u8)
        requires
            self.wf(),
            address < 4096,
        ensures
            v == self@.mem[address as int],
    {
        self.memory[address]
    }

    /// The delay timer's current value.
    pub fn delay_value(&self) -> (v: u8)
        ensures
            v == self@.delay.val,
    {
        self.delay.val()
    }

    /// The sound timer's current value.
    pub fn sound_value(&self) -> (v: u8)
        ensures
            v == self@.sound.val,
    {
        self.sound.val()
    }

    /// How many return addresses the call stack holds.
    pub fn stack_depth(&self) -> (d: usize)
        ensures
            d == self@.stack.len(),
    {
        self.stack.len()
    }
}

} // verus!
