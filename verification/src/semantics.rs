//! The mathematical model of the machine.
//!
//! `C8View` is the ghost state: memory, program counter, index register,
//! registers, display grid, call stack, input vector and the two timers.
//! Each instruction's meaning is a transform on this state; `exec_post`
//! gathers them into the full semantics of one decoded instruction.

use vstd::prelude::*;

use crate::error::C8Error;
use crate::timer::advance_spec;
use crate::timer::TimerView;

verus! {

/// Ghost state of the whole machine.
#[verifier::ext_equal]
pub ghost struct C8View {
    pub mem: Seq<u8>,
    pub pc: int,
    pub index: int,
    pub reg: Seq<u8>,
    pub disp: Seq<bool>,
    pub stack: Seq<int>,
    pub input: Seq<bool>,
    pub delay: TimerView,
    pub sound: TimerView,
}

/// Well-formedness: the fixed sizes of every component, the program counter
/// within the addressable range, the index register 16-bit-capable, and
/// every stacked return address itself a valid program counter.
pub open spec fn stack_ok(s: Seq<int>) -> bool {
    forall|k: int| 0 <= k < s.len() ==> 0 <= #[trigger] s[k] <= 4096
}

pub open spec fn inv(v: C8View) -> bool {
    &&& v.mem.len() == 4096
    &&& v.reg.len() == 16
    &&& v.disp.len() == 2048
    &&& v.input.len() == 16
    &&& 0 <= v.pc <= 4096
    &&& 0 <= v.index < 65536
    &&& stack_ok(v.stack)
}

/// Index of the display cell at column `c`, row `r` (column-major).
pub open spec fn cell(c: int, r: int) -> int {
    c * 32 + r
}

/// High nibble of a byte.
pub open spec fn nib_hi(b: u8) -> u8 {
    b / 16
}

/// Low nibble of a byte.
pub open spec fn nib_lo(b: u8) -> u8 {
    b % 16
}

/// The four 4-bit fields of the two instruction bytes at `pc`.
pub open spec fn decode(mem: Seq<u8>, pc: int) -> (u8, u8, u8, u8) {
    (nib_hi(mem[pc]), nib_lo(mem[pc]), nib_hi(mem[pc + 1]), nib_lo(mem[pc + 1]))
}

/// A 12-bit address from three nibbles.
pub open spec fn addr(a: u8, b: u8, c: u8) -> int {
    a * 256 + b * 16 + c
}

/// An 8-bit literal from two nibbles.
pub open spec fn byte(a: u8, b: u8) -> u8 {
    (a * 16 + b) as u8
}

/// The state with the program counter replaced.
pub open spec fn with_pc(v: C8View, pc: int) -> C8View {
    C8View { pc, ..v }
}

/// The state with one register replaced.
pub open spec fn with_reg(v: C8View, x: int, val: u8) -> C8View {
    C8View { reg: v.reg.update(x, val), ..v }
}

/// Clear screen: every display cell false.
pub open spec fn cls_view(v: C8View) -> C8View {
    C8View { disp: Seq::new(2048, |k: int| false), ..v }
}

/// Subroutine call: the current program counter goes on the front of the
/// stack, then control jumps to `to`.
pub open spec fn call_view(v: C8View, to: int) -> C8View {
    C8View { stack: seq![v.pc] + v.stack, pc: to, ..v }
}

/// Return: the front of the stack becomes the program counter.
pub open spec fn ret_view(v: C8View) -> C8View {
    C8View { pc: v.stack[0], stack: v.stack.subrange(1, v.stack.len() as int), ..v }
}

/// Add with carry flag: register 15 becomes 1 exactly when the unsigned sum
/// exceeds 255; the destination holds the truncated sum.
pub open spec fn alu_add_view(v: C8View, x: int, y: int) -> C8View {
    let s = v.reg[x] + v.reg[y];
    C8View {
        reg: v.reg.update(x, (s % 256) as u8).update(15, if s > 255 { 1u8 } else { 0u8 }),
        ..v
    }
}

/// Subtract with not-borrow flag: register 15 becomes 1 exactly when
/// `reg[x] >= reg[y]` before the operation; the destination wraps.
pub open spec fn alu_sub_view(v: C8View, x: int, y: int) -> C8View {
    let d = (v.reg[x] - v.reg[y] + 256) % 256;
    C8View {
        reg: v.reg.update(x, d as u8).update(
            15,
            if v.reg[x] >= v.reg[y] { 1u8 } else { 0u8 },
        ),
        ..v
    }
}

/// Reverse subtract (`reg[y] - reg[x]`, stored in x), same flag convention.
pub open spec fn alu_rsub_view(v: C8View, x: int, y: int) -> C8View {
    let d = (v.reg[y] - v.reg[x] + 256) % 256;
    C8View {
        reg: v.reg.update(x, d as u8).update(
            15,
            if v.reg[y] >= v.reg[x] { 1u8 } else { 0u8 },
        ),
        ..v
    }
}

/// Shift right: the flag takes the pre-shift bit 0 first, then the value
/// halves (so shifting the flag register itself shifts the fresh flag).
pub open spec fn alu_shr_view(v: C8View, x: int) -> C8View {
    let flagged = v.reg.update(15, (v.reg[x] % 2) as u8);
    C8View { reg: flagged.update(x, (flagged[x] / 2) as u8), ..v }
}

/// Shift left: the flag takes the pre-shift bit 7 first, then the value
/// doubles modulo 256 (same note on the flag register as shift right).
pub open spec fn alu_shl_view(v: C8View, x: int) -> C8View {
    let flagged = v.reg.update(15, (v.reg[x] / 128) as u8);
    C8View { reg: flagged.update(x, ((flagged[x] * 2) % 256) as u8), ..v }
}

/// The place value of column offset `c` in a sprite row byte
/// (most-significant bit first).
pub open spec fn bit_weight(c: int) -> int {
    if c == 0 {
        128
    } else if c == 1 {
        64
    } else if c == 2 {
        32
    } else if c == 3 {
        16
    } else if c == 4 {
        8
    } else if c == 5 {
        4
    } else if c == 6 {
        2
    } else {
        1
    }
}

/// Whether the sprite row byte has its bit for column offset `c` set
/// (most-significant bit first).
pub open spec fn sprite_row_bit(row: u8, c: int) -> bool {
    (row as int / bit_weight(c)) % 2 == 1
}

/// Whether the sprite drawn from memory at `i`, `n` rows tall, anchored at
/// `(vx, vy)`, has a set bit landing on display cell `(c, r)`.
pub open spec fn sprite_bit(mem: Seq<u8>, i: int, vx: int, vy: int, n: int, c: int, r: int) -> bool {
    &&& vy <= r < vy + n
    &&& vx <= c < vx + 8
    &&& sprite_row_bit(mem[i + (r - vy)], c - vx)
}

/// The display after the draw: each cell XORed with the sprite bit that
/// lands on it; cells outside the grid are clipped, not wrapped.
pub open spec fn draw_disp(v: C8View, vx: int, vy: int, n: int) -> Seq<bool> {
    Seq::new(2048, |k: int| v.disp[k] ^ sprite_bit(v.mem, v.index, vx, vy, n, k / 32, k % 32))
}

/// Whether any set sprite bit lands on an already-set cell (a toggle to
/// false, the collision the flag reports).
pub open spec fn draw_collision(v: C8View, vx: int, vy: int, n: int) -> bool {
    exists|c: int, r: int|
        0 <= c < 64 && 0 <= r < 32 && sprite_bit(v.mem, v.index, vx, vy, n, c, r)
            && v.disp[cell(c, r)]
}

/// Draw sprite: register 15 is reset before the anchor registers are read,
/// then the anchor is `reg[x] mod 64`, `reg[y] mod 32` (wrapped once at the
/// origin); register 15 ends up reporting the collision.
pub open spec fn draw_view(v: C8View, x: int, y: int, n: int) -> C8View {
    let flagged = v.reg.update(15, 0u8);
    let vx = flagged[x] as int % 64;
    let vy = flagged[y] as int % 32;
    C8View {
        disp: draw_disp(v, vx, vy, n),
        reg: v.reg.update(15, if draw_collision(v, vx, vy, n) { 1u8 } else { 0u8 }),
        ..v
    }
}

/// BCD store: the hundreds, tens and ones digits of `reg[x]`, stored at the
/// index register.
pub open spec fn bcd_view(v: C8View, x: int) -> C8View {
    let rx = v.reg[x] as int;
    C8View {
        mem: v.mem.update(v.index, (rx / 100) as u8).update(
            v.index + 1,
            ((rx % 100) / 10) as u8,
        ).update(v.index + 2, (rx % 10) as u8),
        ..v
    }
}

/// Register dump: registers 0 through x copied to memory at the index.
pub open spec fn dump_view(v: C8View, x: int) -> C8View {
    C8View {
        mem: Seq::new(
            4096,
            |a: int| if v.index <= a <= v.index + x { v.reg[a - v.index] } else { v.mem[a] },
        ),
        ..v
    }
}

/// Register load: registers 0 through x filled from memory at the index.
pub open spec fn load_view(v: C8View, x: int) -> C8View {
    C8View {
        reg: Seq::new(16, |j: int| if j <= x { v.mem[v.index + j] } else { v.reg[j] }),
        ..v
    }
}

/// Font character: the index register points at the glyph of `reg[x]`,
/// five bytes per glyph from the font base.
pub open spec fn char_view(v: C8View, x: int) -> C8View {
    C8View { index: 0x50 + v.reg[x] * 5, ..v }
}

/// A freshly assigned timer at the default rate.
pub open spec fn fresh_timer(val: u8) -> TimerView {
    TimerView { val, wait: 16_666_666u64, acc: 0 }
}

/// The random-and result: a random byte masked with the literal.
pub open spec fn rand_masked(rb: u8, nn: u8) -> u8 {
    rb & nn
}

/// The lowest pressed key at or above `from`, or 16 if none is pressed.
pub open spec fn lowest_key(input: Seq<bool>, from: int) -> int
    decreases 16 - from,
{
    if from < 0 || from >= 16 {
        16
    } else if input[from] {
        from
    } else {
        lowest_key(input, from + 1)
    }
}

/// Whether any of the 16 keys is pressed.
pub open spec fn any_key(input: Seq<bool>) -> bool {
    lowest_key(input, 0) < 16
}

/// The result of a conditional skip: when the condition holds, an extra
/// fetch advances the program counter past the following instruction, which
/// needs both its bytes to be addressable.
pub open spec fn skip_post(pre: C8View, cond: bool, r: Result<(), C8Error>, post: C8View) -> bool {
    if cond {
        if pre.pc + 2 <= 4096 {
            r is Ok && post == with_pc(pre, pre.pc + 2)
        } else {
            r == Result::<(), C8Error>::Err(C8Error::MemoryOutOfBounds) && post == pre
        }
    } else {
        r is Ok && post == pre
    }
}

/// The full semantics of executing one decoded instruction `(i0, i1, i2, i3)`
/// from state `pre`: which result is returned and what the state becomes.
/// The program counter has already been advanced past the instruction by the
/// fetch. On every error the state is left unchanged.
pub open spec fn exec_post(
    pre: C8View,
    i0: u8,
    i1: u8,
    i2: u8,
    i3: u8,
    r: Result<(), C8Error>,
    post: C8View,
) -> bool {
    match (i0, i1, i2, i3) {
        (0x0, 0x0, 0xe, 0x0) => r is Ok && post == cls_view(pre),
        (0x0, 0x0, 0xe, 0xe) => if pre.stack.len() > 0 {
            r is Ok && post == ret_view(pre)
        } else {
            r == Result::<(), C8Error>::Err(C8Error::StackUnderflow) && post == pre
        },
        (0x1, a, b, c) => r is Ok && post == with_pc(pre, addr(a, b, c)),
        (0x2, a, b, c) => r is Ok && post == call_view(pre, addr(a, b, c)),
        (0x3, x, a, b) => skip_post(pre, pre.reg[x as int] == byte(a, b), r, post),
        (0x4, x, a, b) => skip_post(pre, pre.reg[x as int] != byte(a, b), r, post),
        (0x5, x, y, 0x0) => skip_post(pre, pre.reg[x as int] == pre.reg[y as int], r, post),
        (0x6, x, a, b) => r is Ok && post == with_reg(pre, x as int, byte(a, b)),
        (0x7, x, a, b) => r is Ok && post == with_reg(
            pre,
            x as int,
            ((pre.reg[x as int] + byte(a, b)) % 256) as u8,
        ),
        (0x8, x, y, 0x0) => r is Ok && post == with_reg(pre, x as int, pre.reg[y as int]),
        (0x8, x, y, 0x1) => r is Ok && post == with_reg(
            pre,
            x as int,
            pre.reg[x as int] | pre.reg[y as int],
        ),
        (0x8, x, y, 0x2) => r is Ok && post == with_reg(
            pre,
            x as int,
            pre.reg[x as int] & pre.reg[y as int],
        ),
        (0x8, x, y, 0x3) => r is Ok && post == with_reg(
            pre,
            x as int,
            pre.reg[x as int] ^ pre.reg[y as int],
        ),
        (0x8, x, y, 0x4) => r is Ok && post == alu_add_view(pre, x as int, y as int),
        (0x8, x, y, 0x5) => r is Ok && post == alu_sub_view(pre, x as int, y as int),
        (0x8, x, _, 0x6) => r is Ok && post == alu_shr_view(pre, x as int),
        (0x8, x, y, 0x7) => r is Ok && post == alu_rsub_view(pre, x as int, y as int),
        (0x8, x, _, 0xe) => r is Ok && post == alu_shl_view(pre, x as int),
        (0x9, x, y, 0x0) => skip_post(pre, pre.reg[x as int] != pre.reg[y as int], r, post),
        (0xa, a, b, c) => r is Ok && post == (C8View { index: addr(a, b, c), ..pre }),
        (0xc, x, a, b) => r is Ok && exists|rb: u8|
            post == with_reg(pre, x as int, #[trigger] rand_masked(rb, byte(a, b))),
        (0xd, x, y, n) => if n > 0 && pre.index + n > 4096 {
            r == Result::<(), C8Error>::Err(C8Error::MemoryOutOfBounds) && post == pre
        } else {
            r is Ok && post == draw_view(pre, x as int, y as int, n as int)
        },
        (0xe, x, 0x9, 0xe) => if pre.reg[x as int] >= 16 {
            r == Result::<(), C8Error>::Err(C8Error::KeyOutOfRange) && post == pre
        } else {
            skip_post(pre, pre.input[pre.reg[x as int] as int], r, post)
        },
        (0xe, x, 0xa, 0x1) => if pre.reg[x as int] >= 16 {
            r == Result::<(), C8Error>::Err(C8Error::KeyOutOfRange) && post == pre
        } else {
            skip_post(pre, !pre.input[pre.reg[x as int] as int], r, post)
        },
        (0xf, x, 0x0, 0xa) => r is Ok && if any_key(pre.input) {
            post == with_reg(pre, x as int, lowest_key(pre.input, 0) as u8)
        } else {
            post == with_pc(pre, pre.pc - 2)
        },
        (0xf, x, 0x3, 0x3) => if pre.index + 3 > 4096 {
            r == Result::<(), C8Error>::Err(C8Error::MemoryOutOfBounds) && post == pre
        } else {
            r is Ok && post == bcd_view(pre, x as int)
        },
        (0xf, x, 0x5, 0x5) => if pre.index + x + 1 > 4096 {
            r == Result::<(), C8Error>::Err(C8Error::MemoryOutOfBounds) && post == pre
        } else {
            r is Ok && post == dump_view(pre, x as int)
        },
        (0xf, x, 0x6, 0x5) => if pre.index + x + 1 > 4096 {
            r == Result::<(), C8Error>::Err(C8Error::MemoryOutOfBounds) && post == pre
        } else {
            r is Ok && post == load_view(pre, x as int)
        },
        (0xf, x, 0x2, 0x9) => r is Ok && post == char_view(pre, x as int),
        (0xf, x, 0x1, 0x5) => r is Ok && post == (C8View {
            delay: fresh_timer(pre.reg[x as int]),
            ..pre
        }),
        (0xf, x, 0x1, 0x8) => r is Ok && post == (C8View {
            sound: fresh_timer(pre.reg[x as int]),
            ..pre
        }),
        (0xf, x, 0x0, 0x7) => r is Ok && post == with_reg(pre, x as int, pre.delay.val),
        (0xf, x, 0x1, 0xe) => r is Ok && post == (C8View {
            index: (pre.index + pre.reg[x as int]) % 65536,
            ..pre
        }),
        _ => r == Result::<(), C8Error>::Err(C8Error::UnknownInstruction(i0, i1, i2, i3))
            && post == pre,
    }
}

/// One timer update: some amount of real elapsed time, whatever the clock
/// reports, fed through the catch-up rule.
pub open spec fn timer_step(pre: TimerView, post: TimerView) -> bool {
    exists|e: u64| post == advance_spec(pre, e)
}

/// The state between the timer updates and the fetch.
pub open spec fn mid_of(pre: C8View, d: TimerView, s: TimerView) -> C8View {
    C8View { delay: d, sound: s, ..pre }
}

/// After the timers, one fetch-and-execute from `mid`: either both
/// instruction bytes are addressable and the decoded instruction executes
/// from the advanced program counter, or the fetch itself is out of bounds.
pub open spec fn tick_rest(mid: C8View, r: Result<(), C8Error>, post: C8View) -> bool {
    if mid.pc + 2 <= 4096 {
        let d = decode(mid.mem, mid.pc);
        exec_post(with_pc(mid, mid.pc + 2), d.0, d.1, d.2, d.3, r, post)
    } else {
        r == Result::<(), C8Error>::Err(C8Error::MemoryOutOfBounds) && post == mid
    }
}

/// The full meaning of one tick: both timers take a step of real time, then
/// exactly one instruction is fetched and executed.
pub open spec fn tick_post(pre: C8View, r: Result<(), C8Error>, post: C8View) -> bool {
    exists|d: TimerView, s: TimerView|
        #[trigger] timer_step(pre.delay, d) && #[trigger] timer_step(pre.sound, s)
            && tick_rest(mid_of(pre, d, s), r, post)
}

/// Clear-screen followed by a draw of height 0 leaves the display fully
/// cleared, and the collision flag clear: an empty sprite has no set bit.
pub proof fn lemma_clear_then_empty_draw(v: C8View, x: int, y: int)
    requires
        inv(v),
        0 <= x < 16,
        0 <= y < 16,
    ensures
        forall|k: int| 0 <= k < 2048 ==> !(#[trigger] draw_view(cls_view(v), x, y, 0).disp[k]),
        draw_view(cls_view(v), x, y, 0).reg[15] == 0,
{
    let cleared = cls_view(v);
    let vx = cleared.reg.update(15, 0u8)[x] as int % 64;
    let vy = cleared.reg.update(15, 0u8)[y] as int % 32;
    assert forall|k: int| 0 <= k < 2048 implies !(#[trigger] draw_view(cleared, x, y, 0).disp[k]) by {
        assert(!sprite_bit(cleared.mem, cleared.index, vx, vy, 0, k / 32, k % 32));
        assert(!cleared.disp[k]);
    }
    assert(!draw_collision(cleared, vx, vy, 0)) by {
        if draw_collision(cleared, vx, vy, 0) {
            let (c, r) = choose|c: int, r: int|
                0 <= c < 64 && 0 <= r < 32 && sprite_bit(cleared.mem, cleared.index, vx, vy, 0, c, r)
                    && cleared.disp[cell(c, r)];
            assert(false);
        }
    }
}

/// Drawing the same sprite twice at the same anchor, with no other mutation
/// in between, returns the display to its pre-draw state (XOR is its own
/// inverse); the second draw's collision flag is set exactly where some
/// sprite bit overlapped a pixel left set by the first draw.
pub proof fn lemma_draw_twice(v: C8View, x: int, y: int, n: int)
    requires
        inv(v),
        0 <= x < 16,
        0 <= y < 16,
        0 <= n < 16,
    ensures
        ({
            let once = draw_view(v, x, y, n);
            let twice = draw_view(once, x, y, n);
            let vx = v.reg.update(15, 0u8)[x] as int % 64;
            let vy = v.reg.update(15, 0u8)[y] as int % 32;
            &&& twice.disp == v.disp
            &&& (twice.reg[15] == 1 <==> exists|c: int, r: int|
                0 <= c < 64 && 0 <= r < 32 && #[trigger] sprite_bit(v.mem, v.index, vx, vy, n, c, r)
                    && once.disp[cell(c, r)])
        }),
{
    let once = draw_view(v, x, y, n);
    let twice = draw_view(once, x, y, n);
    let vx = v.reg.update(15, 0u8)[x] as int % 64;
    let vy = v.reg.update(15, 0u8)[y] as int % 32;
    assert(once.reg.update(15, 0u8) =~= v.reg.update(15, 0u8));
    assert(once.mem == v.mem && once.index == v.index);
    assert forall|k: int| 0 <= k < 2048 implies twice.disp[k] == v.disp[k] by {
        assert(once.disp[k] == v.disp[k] ^ sprite_bit(v.mem, v.index, vx, vy, n, k / 32, k % 32));
        assert(twice.disp[k] == once.disp[k] ^ sprite_bit(v.mem, v.index, vx, vy, n, k / 32, k % 32));
    }
    assert(twice.disp =~= v.disp);
    assert(twice.reg[15] == 1 <==> draw_collision(once, vx, vy, n));
}

} // verus!
