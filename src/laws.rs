//! Properties of the instruction set that hold for every state and operand.
use vstd::prelude::*;
use vstd::arithmetic::div_mod::*;
use crate::display::{blank_screen, cell_index, lemma_cell_index_in_range};
use crate::model::{
    covered, decay, draw_collides, draw_lights, fetch_execute, lemma_sprite_cell, op_family, op_kk, op_n,
    op_nnn, op_x, op_y, run_op, run_steps, sprite_bit, sub_step, tick, wrap16, CpuError, CpuState, FLAG,
    MEMORY_SIZE, FONT_SIZE, REGISTER_COUNT, font,
};

verus! {

/// The instruction word with nibbles `f`, `x`, `y`, `n` from the top down.
pub open spec fn word(f: int, x: int, y: int, n: int) -> u16 {
    (f * 0x1000 + x * 0x100 + y * 0x10 + n) as u16
}

/// The decoding of an instruction word gives back the nibbles it was built from.
pub proof fn lemma_decode(f: int, x: int, y: int, n: int)
    requires
        0 <= f < 16,
        0 <= x < 16,
        0 <= y < 16,
        0 <= n < 16,
    ensures
        op_family(word(f, x, y, n)) == f,
        op_x(word(f, x, y, n)) == x,
        op_y(word(f, x, y, n)) == y,
        op_n(word(f, x, y, n)) == n,
        op_kk(word(f, x, y, n)) == y * 16 + n,
        op_nnn(word(f, x, y, n)) == x * 0x100 + y * 16 + n,
{
    let v = f * 0x1000 + x * 0x100 + y * 0x10 + n;
    assert(0 <= v < 0x10000);
    assert(word(f, x, y, n) as int == v);
    lemma_fundamental_div_mod_converse(v, 0x1000, f, x * 0x100 + y * 0x10 + n);
    lemma_fundamental_div_mod_converse(v, 0x100, f * 16 + x, y * 0x10 + n);
    lemma_fundamental_div_mod_converse(f * 16 + x, 16, f, x);
    lemma_fundamental_div_mod_converse(v, 0x10, f * 0x100 + x * 16 + y, n);
    lemma_fundamental_div_mod_converse(f * 0x100 + x * 16 + y, 16, f * 16 + x, y);
}

/// Loading `kk` into a register moves on to the next instruction; testing that
/// register against `kk` there then moves the program counter four bytes on
/// from that test: past it and over the instruction after it.
pub proof fn law_load_then_skip(s: CpuState, x: int, kk: int, r1: u8, r2: u8)
    requires
        s.wf(),
        0 <= x < 16,
        0 <= kk < 256,
    ensures
        ({
            let load = word(6, x, kk / 16, kk % 16);
            let test = word(3, x, kk / 16, kk % 16);
            let s1 = run_op(s, load, r1)->Ok_0;
            &&& run_op(s, load, r1) is Ok
            &&& s1.pc == wrap16(s.pc + 2)
            &&& run_op(s1, test, r2) is Ok
            &&& run_op(s1, test, r2)->Ok_0.pc == wrap16(s1.pc + 4)
        }),
{
    lemma_decode(6, x, kk / 16, kk % 16);
    lemma_decode(3, x, kk / 16, kk % 16);
    assert((kk / 16) * 16 + kk % 16 == kk);
    let s1 = run_op(s, word(6, x, kk / 16, kk % 16), r1)->Ok_0;
    lemma_add_mod_noop(s1.pc + 2, 2, 0x10000);
    assert(wrap16(wrap16(s1.pc + 2) + 2) == wrap16(s1.pc + 4));
}

/// `8xy4` leaves the sum modulo 256 in `Vx` and the carry in `VF`.
pub proof fn law_add_carry(s: CpuState, x: int, y: int, rnd: u8)
    requires
        s.wf(),
        0 <= x < 15,
        0 <= y < 16,
    ensures
        ({
            let a = s.registers[x];
            let b = s.registers[y];
            let t = run_op(s, word(8, x, y, 4), rnd);
            &&& t is Ok
            &&& t->Ok_0.registers[x] == (a + b) % 256
            &&& t->Ok_0.registers[FLAG as int] == if a + b > 255 {
                1u8
            } else {
                0u8
            }
        }),
{
    lemma_decode(8, x, y, 4);
}

/// `8xy5` leaves the difference modulo 256 in `Vx` and in `VF` whether `Vx` exceeded `Vy`.
pub proof fn law_sub_borrow(s: CpuState, x: int, y: int, rnd: u8)
    requires
        s.wf(),
        0 <= x < 15,
        0 <= y < 16,
    ensures
        ({
            let a = s.registers[x];
            let b = s.registers[y];
            let t = run_op(s, word(8, x, y, 5), rnd);
            &&& t is Ok
            &&& t->Ok_0.registers[x] == (a - b) % 256
            &&& t->Ok_0.registers[FLAG as int] == if a > b {
                1u8
            } else {
                0u8
            }
        }),
{
    lemma_decode(8, x, y, 5);
}

/// Clearing the screen a second time leaves the same blank grid as once.
pub proof fn law_clear_idempotent(s: CpuState, r1: u8, r2: u8)
    requires
        s.wf(),
    ensures
        run_op(s, 0x00E0, r1) is Ok,
        run_op(run_op(s, 0x00E0, r1)->Ok_0, 0x00E0, r2) is Ok,
        run_op(s, 0x00E0, r1)->Ok_0.screen == blank_screen(),
        run_op(run_op(s, 0x00E0, r1)->Ok_0, 0x00E0, r2)->Ok_0.screen == run_op(
            s,
            0x00E0,
            r1,
        )->Ok_0.screen,
{
}

/// `Fx55` stores when its bytes lie between the end of the font and the end of memory.
pub proof fn law_store_succeeds(s: CpuState, x: int, rnd: u8)
    requires
        s.wf(),
        0 <= x < 16,
    ensures
        run_op(s, word(0xF, x, 5, 5), rnd) is Ok <==> FONT_SIZE <= s.index && s.index + x
            < MEMORY_SIZE,
{
    lemma_decode(0xF, x, 5, 5);
}

/// Storing registers `V0..Vx` with `Fx55` and later loading them with `Fx65`
/// from the same index, while the stored bytes stayed as they were, gives back
/// `V0..Vx` as they were at the store; the other registers keep their values.
pub proof fn law_store_load_round_trip(s: CpuState, mid: CpuState, x: int, r1: u8, r2: u8)
    requires
        s.wf(),
        mid.wf(),
        0 <= x < 16,
        run_op(s, word(0xF, x, 5, 5), r1) is Ok,
        mid.index == s.index,
        forall|a: int|
            s.index <= a <= s.index + x ==> #[trigger] mid.memory[a] == run_op(
                s,
                word(0xF, x, 5, 5),
                r1,
            )->Ok_0.memory[a],
    ensures
        run_op(mid, word(0xF, x, 6, 5), r2) is Ok,
        forall|i: int|
            0 <= i < REGISTER_COUNT ==> #[trigger] run_op(mid, word(0xF, x, 6, 5), r2)->Ok_0.registers[i]
                == if i <= x {
                s.registers[i]
            } else {
                mid.registers[i]
            },
{
    lemma_decode(0xF, x, 5, 5);
    lemma_decode(0xF, x, 6, 5);
    let s1 = run_op(s, word(0xF, x, 5, 5), r1)->Ok_0;
    let t = run_op(mid, word(0xF, x, 6, 5), r2)->Ok_0;
    assert forall|i: int| 0 <= i < REGISTER_COUNT implies #[trigger] t.registers[i] == if i <= x {
        s.registers[i]
    } else {
        mid.registers[i]
    } by {
        if i <= x {
            assert(mid.memory[s.index + i] == s1.memory[s.index + i]);
        }
    }
}

/// The same round trip with nothing in between: all registers come back.
pub proof fn law_store_load_same_state(s: CpuState, x: int, r1: u8, r2: u8)
    requires
        s.wf(),
        0 <= x < 16,
        run_op(s, word(0xF, x, 5, 5), r1) is Ok,
    ensures
        run_op(run_op(s, word(0xF, x, 5, 5), r1)->Ok_0, word(0xF, x, 6, 5), r2) is Ok,
        run_op(run_op(s, word(0xF, x, 5, 5), r1)->Ok_0, word(0xF, x, 6, 5), r2)->Ok_0.registers
            == s.registers,
{
    lemma_decode(0xF, x, 5, 5);
    let s1 = run_op(s, word(0xF, x, 5, 5), r1)->Ok_0;
    assert(s1.memory.subrange(0, FONT_SIZE as int) =~= s.memory.subrange(0, FONT_SIZE as int));
    law_store_load_round_trip(s, s1, x, r1, r2);
    let s2 = run_op(s1, word(0xF, x, 6, 5), r2)->Ok_0;
    assert(s2.registers =~= s.registers);
}

/// No instruction changes the built-in font.
pub proof fn law_font_unchanged(s: CpuState, op: u16, rnd: u8)
    requires
        s.wf(),
    ensures
        run_op(s, op, rnd) is Ok ==> run_op(s, op, rnd)->Ok_0.memory.subrange(0, FONT_SIZE as int)
            == font(),
{
    if run_op(s, op, rnd) is Ok {
        let t = run_op(s, op, rnd)->Ok_0;
        assert(t.memory.subrange(0, FONT_SIZE as int) =~= s.memory.subrange(0, FONT_SIZE as int));
    }
}

/// For a digit `Vx` below 16, `Fx29` points the index register at its glyph:
/// the five font bytes of that digit.
pub proof fn law_digit_glyph(s: CpuState, x: int, rnd: u8)
    requires
        s.wf(),
        0 <= x < 16,
        s.registers[x] < 16,
    ensures
        ({
            let v = s.registers[x] as int;
            let t = run_op(s, word(0xF, x, 2, 9), rnd);
            &&& t is Ok
            &&& t->Ok_0.index == v * 5
            &&& t->Ok_0.memory.subrange(v * 5, v * 5 + 5) == font().subrange(v * 5, v * 5 + 5)
        }),
{
    lemma_decode(0xF, x, 2, 9);
    let v = s.registers[x] as int;
    let t = run_op(s, word(0xF, x, 2, 9), rnd)->Ok_0;
    assert(t.memory == s.memory);
    assert forall|j: int| 0 <= j < 5 implies #[trigger] t.memory.subrange(v * 5, v * 5 + 5)[j]
        == font().subrange(v * 5, v * 5 + 5)[j] by {
        assert(s.memory.subrange(0, FONT_SIZE as int)[v * 5 + j] == font()[v * 5 + j]);
    }
    assert(t.memory.subrange(v * 5, v * 5 + 5) =~= font().subrange(v * 5, v * 5 + 5));
}

proof fn lemma_xor_twice(a: u8)
    requires
        a <= 1,
    ensures
        (a ^ 1u8) ^ 1u8 == a,
        (a ^ 1u8) == 1u8 <==> a == 0u8,
{
    assert((a ^ 1u8) ^ 1u8 == a) by (bit_vector);
    assert(a <= 1 ==> ((a ^ 1u8) == 1u8 <==> a == 0u8)) by (bit_vector);
}

/// Drawing the same sprite twice at the same place gives back the grid as it
/// was, and the second draw reports a collision exactly when the first lit a cell.
pub proof fn law_draw_twice(s: CpuState, x: int, y: int, n: int, r1: u8, r2: u8)
    requires
        s.wf(),
        0 <= x < 15,
        0 <= y < 15,
        0 <= n < 16,
    ensures
        run_op(s, word(0xD, x, y, n), r1) is Ok ==> ({
            let s1 = run_op(s, word(0xD, x, y, n), r1)->Ok_0;
            let t = run_op(s1, word(0xD, x, y, n), r2);
            &&& t is Ok
            &&& t->Ok_0.screen == s.screen
            &&& (t->Ok_0.registers[FLAG as int] == 1) == draw_lights(
                s.screen,
                s.sprite(n),
                s.registers[x] as int,
                s.registers[y] as int,
            )
        }),
{
    lemma_decode(0xD, x, y, n);
    if run_op(s, word(0xD, x, y, n), r1) is Ok {
        let s1 = run_op(s, word(0xD, x, y, n), r1)->Ok_0;
        let sp = s.sprite(n);
        let vx = s.registers[x] as int;
        let vy = s.registers[y] as int;
        assert(s1.registers[x] == s.registers[x]);
        assert(s1.registers[y] == s.registers[y]);
        assert(s1.sprite(n) == sp);
        let t = run_op(s1, word(0xD, x, y, n), r2)->Ok_0;
        assert forall|c: int| 0 <= c < s.screen.len() implies #[trigger] t.screen[c] == s.screen[c]
            && (s1.screen[c] == 1 <==> (if covered(sp, vx, vy, c) {
            s.screen[c] == 0
        } else {
            s.screen[c] == 1
        })) by {
            assert(s.screen[c] <= 1);
            lemma_xor_twice(s.screen[c]);
        }
        assert(t.screen =~= s.screen);
        if draw_collides(s1.screen, sp, vx, vy) {
            let c = choose|c: int|
                0 <= c < s1.screen.len() && #[trigger] covered(sp, vx, vy, c) && s1.screen[c] == 1;
            assert(t.screen[c] == s.screen[c]);
        }
        if draw_lights(s.screen, sp, vx, vy) {
            let c = choose|c: int|
                0 <= c < s.screen.len() && #[trigger] covered(sp, vx, vy, c) && s.screen[c] == 0;
            assert(t.screen[c] == s.screen[c]);
        }
    }
}

/// On a blank screen, drawing a sprite with a set bit twice at the same place
/// leaves the screen blank and sets `VF` to 1.
pub proof fn law_draw_twice_on_blank(s: CpuState, x: int, y: int, n: int, row: int, col: int, r1: u8, r2: u8)
    requires
        s.wf(),
        s.screen == blank_screen(),
        0 <= x < 15,
        0 <= y < 15,
        0 <= n < 16,
        s.index + n <= MEMORY_SIZE,
        0 <= row < n,
        0 <= col < 8,
        sprite_bit(s.memory[s.index + row], col),
    ensures
        ({
            let s1 = run_op(s, word(0xD, x, y, n), r1)->Ok_0;
            let t = run_op(s1, word(0xD, x, y, n), r2);
            &&& run_op(s, word(0xD, x, y, n), r1) is Ok
            &&& t is Ok
            &&& t->Ok_0.screen == blank_screen()
            &&& t->Ok_0.registers[FLAG as int] == 1
        }),
{
    lemma_decode(0xD, x, y, n);
    law_draw_twice(s, x, y, n, r1, r2);
    let sp = s.sprite(n);
    let vx = s.registers[x] as int;
    let vy = s.registers[y] as int;
    let p = cell_index(vx + col, vy + row);
    lemma_cell_index_in_range(vx + col, vy + row);
    lemma_sprite_cell(vx, vy, row, col, p);
    assert(sp[row] == s.memory[s.index + row]);
    assert(covered(sp, vx, vy, p));
    assert(s.screen[p] == 0);
}

/// A coordinate one full width or height further on addresses the same cell.
pub proof fn law_wrap_around(x: int, y: int)
    requires
        0 <= x,
        0 <= y,
    ensures
        cell_index(x + 64, y) == cell_index(x, y),
        cell_index(x, y + 32) == cell_index(x, y),
{
    lemma_mod_add_multiples_vanish(x, 64);
    lemma_mod_add_multiples_vanish(y, 32);
}

/// The state after `k` decrements of the timers.
pub open spec fn decay_times(s: CpuState, k: nat) -> CpuState
    decreases k,
{
    if k == 0 {
        s
    } else {
        decay(decay_times(s, (k - 1) as nat))
    }
}

/// A tick with no instructions only moves the timers, and `k` such moves
/// bring a running delay timer down by `k`, never below zero.
pub proof fn law_timer_decay(s: CpuState, k: nat)
    requires
        !s.paused,
    ensures
        tick(s, Seq::empty()) == Ok::<CpuState, CpuError>(decay(s)),
        !decay_times(s, k).paused,
        decay_times(s, k).delay_timer == if s.delay_timer >= k {
            s.delay_timer - k
        } else {
            0
        },
        decay_times(s, k).sound_timer == if s.sound_timer >= k {
            s.sound_timer - k
        } else {
            0
        },
    decreases k,
{
    if k > 0 {
        law_timer_decay(s, (k - 1) as nat);
    }
}

/// `Fx0A` moves past itself and starts the wait for a key into register `x`.
pub proof fn law_wait_for_key(s: CpuState, x: int, rnd: u8)
    requires
        s.wf(),
        0 <= x < 16,
    ensures
        run_op(s, word(0xF, x, 0, 0xA), rnd) == Ok::<CpuState, CpuError>(
            CpuState { pc: wrap16(s.pc + 2), paused: true, wait_register: x as u8, ..s },
        ),
{
    lemma_decode(0xF, x, 0, 0xA);
}

/// While no key is held down, a waiting interpreter does not move, whatever
/// the number of sub-steps, and its timers stand still.
pub proof fn law_wait_holds(s: CpuState, rnds: Seq<u8>)
    requires
        s.wf(),
        s.paused,
        forall|k: int| 0 <= k < s.keys.len() ==> !s.keys[k],
    ensures
        run_steps(s, rnds) == Ok::<CpuState, CpuError>(s),
        tick(s, rnds) == Ok::<CpuState, CpuError>(s),
    decreases rnds.len(),
{
    if rnds.len() > 0 {
        law_wait_holds(s, rnds.drop_last());
    }
}

/// Once a key is held down, the waiting interpreter stores the lowest such
/// key in the waiting register and goes on with the instruction at its
/// program counter.
pub proof fn law_wait_ends(s: CpuState, k: int, rnd: u8)
    requires
        s.wf(),
        s.paused,
        0 <= k < s.keys.len(),
        s.keys[k],
        forall|j: int| 0 <= j < k ==> !s.keys[j],
    ensures
        sub_step(s, rnd) == fetch_execute(
            CpuState { registers: s.registers.update(s.wait_register as int, k as u8), paused: false, ..s },
            rnd,
        ),
{
    let m = choose|m: int|
        0 <= m < s.keys.len() && s.keys[m] && forall|j: int| 0 <= j < m ==> !s.keys[j];
    assert(0 <= m < s.keys.len() && s.keys[m] && forall|j: int| 0 <= j < m ==> !s.keys[j]);
    if m < k {
    } else if m > k {
        assert(!s.keys[k]);
    }
}

} // verus!
