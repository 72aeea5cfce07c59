//! The interpreter: fetch, decode and execute over memory, registers, stack,
//! timers, framebuffer and keypad.
use vstd::prelude::*;
use crate::display::{cell_index, lemma_cell_index_in_range, screen_wf, xor_cell, Display, CELLS, HEIGHT};
use crate::keyboard::KeyboardFirm;
use crate::model::{
    decay, halted_at, alu, covered, draw_collides, draw_screen, font, fset, fset_fault, initial_state, FONT_SIZE, known_op,
    lemma_sprite_cell, load, op_kk, op_n, outcome, resume, run_op, run_steps, sprite_bit, sprite_col,
    sprite_row, step_unknown, sub_step, tick, unknown_ops, CpuError, CpuState, FLAG,
    INSTRUCTIONS_PER_TICK, MEMORY_SIZE, PROGRAM_START, REGISTER_COUNT,
};

verus! {

/// Whether the draw loop has toggled cell `c` once it reached sprite row `row`, column `col`.
spec fn toggled(sprite: Seq<u8>, vx: int, vy: int, row: int, col: int, c: int) -> bool {
    &&& covered(sprite, vx, vy, c)
    &&& (sprite_row(vy, c) < row || (sprite_row(vy, c) == row && sprite_col(vx, c) < col))
}

spec fn partial_screen(screen: Seq<u8>, sprite: Seq<u8>, vx: int, vy: int, row: int, col: int) -> Seq<u8> {
    Seq::new(
        screen.len(),
        |c: int|
            if toggled(sprite, vx, vy, row, col, c) {
                screen[c] ^ 1u8
            } else {
                screen[c]
            },
    )
}

spec fn partial_collides(screen: Seq<u8>, sprite: Seq<u8>, vx: int, vy: int, row: int, col: int) -> bool {
    exists|c: int|
        0 <= c < screen.len() && #[trigger] toggled(sprite, vx, vy, row, col, c) && screen[c] == 1
}

proof fn lemma_toggle_step(sprite: Seq<u8>, vx: int, vy: int, row: int, col: int, c: int)
    requires
        0 <= vx,
        0 <= vy,
        0 <= row < sprite.len(),
        sprite.len() < HEIGHT,
        0 <= col < 8,
        0 <= c < CELLS,
    ensures
        toggled(sprite, vx, vy, row, col + 1, c) == (toggled(sprite, vx, vy, row, col, c) || (c
            == cell_index(vx + col, vy + row) && sprite_bit(sprite[row], col))),
        c == cell_index(vx + col, vy + row) ==> !toggled(sprite, vx, vy, row, col, c),
{
    lemma_sprite_cell(vx, vy, row, col, c);
}

proof fn lemma_row_step(sprite: Seq<u8>, vx: int, vy: int, row: int, c: int)
    ensures
        toggled(sprite, vx, vy, row, 8, c) == toggled(sprite, vx, vy, row + 1, 0, c),
{
    assert(sprite_row(vy, c) >= 0);
}

/// One cell of the draw loop: the pixel at sprite row `row`, column `col` is
/// XOR-ed in when its bit is set, and a collision there is recorded.
proof fn lemma_draw_cell(
    s0: Seq<u8>,
    before: Seq<u8>,
    after: Seq<u8>,
    sprite: Seq<u8>,
    vx: int,
    vy: int,
    row: int,
    col: int,
    lit: bool,
    was: bool,
    hit: bool,
)
    requires
        screen_wf(s0),
        0 <= vx,
        0 <= vy,
        0 <= row < sprite.len(),
        sprite.len() < HEIGHT,
        0 <= col < 8,
        lit == sprite_bit(sprite[row], col),
        before == partial_screen(s0, sprite, vx, vy, row, col),
        was == partial_collides(s0, sprite, vx, vy, row, col),
        lit ==> after == xor_cell(before, vx + col, vy + row, 1) && hit == (before[cell_index(
            vx + col,
            vy + row,
        )] == 1),
        !lit ==> after == before && !hit,
    ensures
        after == partial_screen(s0, sprite, vx, vy, row, col + 1),
        (was || hit) == partial_collides(s0, sprite, vx, vy, row, col + 1),
{
    let p = cell_index(vx + col, vy + row);
    lemma_cell_index_in_range(vx + col, vy + row);
    assert forall|c: int| 0 <= c < CELLS implies #[trigger] toggled(sprite, vx, vy, row, col + 1, c)
        == (toggled(sprite, vx, vy, row, col, c) || (c == p && lit)) && (c == p ==> !toggled(
        sprite,
        vx,
        vy,
        row,
        col,
        c,
    )) by {
        lemma_toggle_step(sprite, vx, vy, row, col, c);
    }
    assert(after =~= partial_screen(s0, sprite, vx, vy, row, col + 1));
    if was {
        let c = choose|c: int|
            0 <= c < s0.len() && #[trigger] toggled(sprite, vx, vy, row, col, c) && s0[c] == 1;
        assert(toggled(sprite, vx, vy, row, col + 1, c));
    }
    if hit {
        assert(toggled(sprite, vx, vy, row, col + 1, p));
    }
    if partial_collides(s0, sprite, vx, vy, row, col + 1) {
        let c = choose|c: int|
            0 <= c < s0.len() && #[trigger] toggled(sprite, vx, vy, row, col + 1, c) && s0[c] == 1;
        if c != p {
            assert(toggled(sprite, vx, vy, row, col, c));
        }
    }
}

/// Finishing a sprite row is starting the next one.
proof fn lemma_draw_row(s0: Seq<u8>, sprite: Seq<u8>, vx: int, vy: int, row: int)
    ensures
        partial_screen(s0, sprite, vx, vy, row, 8) == partial_screen(s0, sprite, vx, vy, row + 1, 0),
        partial_collides(s0, sprite, vx, vy, row, 8) == partial_collides(s0, sprite, vx, vy, row + 1, 0),
{
    assert forall|c: int| #[trigger]
        toggled(sprite, vx, vy, row, 8, c) == toggled(sprite, vx, vy, row + 1, 0, c) by {
        lemma_row_step(sprite, vx, vy, row, c);
    }
    assert(partial_screen(s0, sprite, vx, vy, row, 8) =~= partial_screen(s0, sprite, vx, vy, row + 1, 0));
    if partial_collides(s0, sprite, vx, vy, row, 8) {
        let c = choose|c: int|
            0 <= c < s0.len() && #[trigger] toggled(sprite, vx, vy, row, 8, c) && s0[c] == 1;
        assert(toggled(sprite, vx, vy, row + 1, 0, c));
    }
    if partial_collides(s0, sprite, vx, vy, row + 1, 0) {
        let c = choose|c: int|
            0 <= c < s0.len() && #[trigger] toggled(sprite, vx, vy, row + 1, 0, c) && s0[c] == 1;
        assert(toggled(sprite, vx, vy, row, 8, c));
    }
}

/// Once every sprite row is done, the loop has drawn the whole sprite.
proof fn lemma_draw_done(s0: Seq<u8>, sprite: Seq<u8>, vx: int, vy: int)
    ensures
        partial_screen(s0, sprite, vx, vy, sprite.len() as int, 0) == draw_screen(s0, sprite, vx, vy),
        partial_collides(s0, sprite, vx, vy, sprite.len() as int, 0) == draw_collides(s0, sprite, vx, vy),
{
    let n = sprite.len() as int;
    assert forall|c: int| #[trigger] toggled(sprite, vx, vy, n, 0, c) == covered(sprite, vx, vy, c) by {}
    assert(partial_screen(s0, sprite, vx, vy, n, 0) =~= draw_screen(s0, sprite, vx, vy));
    if partial_collides(s0, sprite, vx, vy, n, 0) {
        let c = choose|c: int|
            0 <= c < s0.len() && #[trigger] toggled(sprite, vx, vy, n, 0, c) && s0[c] == 1;
        assert(covered(sprite, vx, vy, c));
    }
    if draw_collides(s0, sprite, vx, vy) {
        let c = choose|c: int| 0 <= c < s0.len() && #[trigger] covered(sprite, vx, vy, c) && s0[c] == 1;
        assert(toggled(sprite, vx, vy, n, 0, c));
    }
}

/// A store above the font leaves the font as it was.
proof fn lemma_write_keeps_font(m: Seq<u8>, a: int, v: u8)
    requires
        m.subrange(0, FONT_SIZE as int) == font(),
        FONT_SIZE <= a < m.len(),
    ensures
        m.update(a, v).subrange(0, FONT_SIZE as int) == font(),
{
    assert(m.update(a, v).subrange(0, FONT_SIZE as int) =~= m.subrange(0, FONT_SIZE as int));
}

/// One more random byte runs one more sub-step after the others.
proof fn lemma_steps_extend(s: CpuState, rnds: Seq<u8>, i: int)
    requires
        0 <= i < rnds.len(),
    ensures
        ({
            let longer = rnds.take(i + 1);
            let shorter = rnds.take(i);
            match run_steps(s, shorter) {
                Ok(t) => run_steps(s, longer) == sub_step(t, rnds[i]) && unknown_ops(s, longer) == match step_unknown(t) {
                    Some(op) => unknown_ops(s, shorter).push(op),
                    None => unknown_ops(s, shorter),
                },
                Err(e) => run_steps(s, longer) == Err::<CpuState, CpuError>(e),
            }
        }),
{
    assert(rnds.take(i + 1).drop_last() =~= rnds.take(i));
}

/// Once a sub-step faults, the rest of the tick is not run.
proof fn lemma_fault_persists(s: CpuState, rnds: Seq<u8>, i: int, e: CpuError)
    requires
        0 <= i <= rnds.len(),
        run_steps(s, rnds.take(i)) == Err::<CpuState, CpuError>(e),
    ensures
        run_steps(s, rnds.take(rnds.len() as int)) == Err::<CpuState, CpuError>(e),
    decreases rnds.len() - i,
{
    if i < rnds.len() {
        lemma_steps_extend(s, rnds, i);
        lemma_fault_persists(s, rnds, i + 1, e);
    }
}

/// Whether `instruction` is one of the instruction set.
pub fn is_known_opcode(instruction: u16) -> (r: bool)
    ensures
        r == known_op(instruction),
{
    let family = instruction / 0x1000;
    let kk = instruction % 0x100;
    let n = instruction % 16;
    if family == 0 {
        instruction == 0x00E0 || instruction == 0x00EE
    } else if family == 8 {
        n <= 7 || n == 0xE
    } else if family == 0xE {
        kk == 0x9E || kk == 0xA1
    } else if family == 0xF {
        kk == 0x07 || kk == 0x0A || kk == 0x15 || kk == 0x18 || kk == 0x1E || kk == 0x29 || kk
            == 0x33 || kk == 0x55 || kk == 0x65
    } else {
        true
    }
}

/// Relies on `rand::thread_rng` and `rand::Rng::gen`: a byte from the thread's
/// generator, of which nothing is promised. `thread_rng` panics only when the
/// operating system cannot seed the generator.
#[verifier::external_body]
fn random_byte() -> (r: u8) {
    rand::Rng::gen::<u8>(&mut rand::thread_rng())
}

/// The interpreter. Its view is a `CpuState`; every method does to that view
/// what the functions of `model` say.
pub struct Cpu {
    display: Display,
    memory: Vec<u8>,
    registers: Vec<u8>,
    index: u16,
    delay_timer: u8,
    sound_timer: u8,
    pc: u16,
    stack: Vec<u16>,
    paused: bool,
    wait_register: u8,
    pub keyboard: KeyboardFirm,
}

impl View for Cpu {
    type V = CpuState;

    closed spec fn view(&self) -> CpuState {
        CpuState {
            memory: self.memory@,
            registers: self.registers@,
            index: self.index,
            pc: self.pc,
            stack: self.stack@,
            delay_timer: self.delay_timer,
            sound_timer: self.sound_timer,
            paused: self.paused,
            wait_register: self.wait_register,
            screen: self.display@,
            keys: self.keyboard@,
        }
    }
}

impl Default for Cpu {
    fn default() -> (r: Self)
        ensures
            r.wf(),
            r@ == initial_state(),
    {
        let glyphs: Vec<u8> = vec![
            0xF0, 0x90, 0x90, 0x90, 0xF0, 0x20, 0x60, 0x20, 0x20, 0x70,
            0xF0, 0x10, 0xF0, 0x80, 0xF0, 0xF0, 0x10, 0xF0, 0x10, 0xF0,
            0x90, 0x90, 0xF0, 0x10, 0x10, 0xF0, 0x80, 0xF0, 0x10, 0xF0,
            0xF0, 0x80, 0xF0, 0x90, 0xF0, 0xF0, 0x10, 0x20, 0x40, 0x40,
            0xF0, 0x90, 0xF0, 0x90, 0xF0, 0xF0, 0x90, 0xF0, 0x10, 0xF0,
            0xF0, 0x90, 0xF0, 0x90, 0x90, 0xE0, 0x90, 0xE0, 0x90, 0xE0,
            0xF0, 0x80, 0x80, 0x80, 0xF0, 0xE0, 0x90, 0x90, 0x90, 0xE0,
            0xF0, 0x80, 0xF0, 0x80, 0xF0, 0xF0, 0x80, 0xF0, 0x80, 0x80,
        ];
        assert(glyphs@ =~= font());
        let mut memory: Vec<u8> = Vec::with_capacity(MEMORY_SIZE);
        while memory.len() < MEMORY_SIZE
            invariant
                memory.len() <= MEMORY_SIZE,
                glyphs@ == font(),
                forall|a: int|
                    0 <= a < memory.len() ==> memory@[a] == if a < font().len() {
                        font()[a]
                    } else {
                        0u8
                    },
            decreases MEMORY_SIZE - memory.len(),
        {
            if memory.len() < glyphs.len() {
                memory.push(glyphs[memory.len()]);
            } else {
                memory.push(0);
            }
        }
        let mut registers: Vec<u8> = Vec::new();
        while registers.len() < REGISTER_COUNT
            invariant
                registers.len() <= REGISTER_COUNT,
                forall|i: int| 0 <= i < registers.len() ==> registers@[i] == 0u8,
            decreases REGISTER_COUNT - registers.len(),
        {
            registers.push(0);
        }
        let r = Cpu {
            display: Display::default(),
            memory,
            registers,
            index: 0,
            delay_timer: 0,
            sound_timer: 0,
            pc: PROGRAM_START,
            stack: Vec::new(),
            paused: false,
            wait_register: 0,
            keyboard: KeyboardFirm::default(),
        };
        assert(r@.memory =~= initial_state().memory);
        assert(r@.memory.subrange(0, FONT_SIZE as int) =~= font());
        assert(r@.registers =~= initial_state().registers);
        assert(r@.stack =~= initial_state().stack);
        r
    }
}

impl Cpu {
    /// Memory, registers, grid and keypad have their fixed sizes.
    pub open spec fn wf(&self) -> bool {
        self@.wf()
    }

    /// Runs the arithmetic and logic instruction `8xy?` whose low nibble
    /// `instruction` carries, on registers `x` and `y`.
    pub fn exec_8set(&mut self, instruction: u16, x: usize, y: usize)
        requires
            old(self).wf(),
            x < REGISTER_COUNT,
            y < REGISTER_COUNT,
        ensures
            final(self).wf(),
            final(self)@ == alu(old(self)@, op_n(instruction), x as int, y as int),
    {
        let a = self.registers[x];
        let b = self.registers[y];
        let low = instruction % 16;
        if low == 0 {
            self.registers.set(x, b);
        } else if low == 1 {
            self.registers.set(x, a | b);
        } else if low == 2 {
            self.registers.set(x, a & b);
        } else if low == 3 {
            self.registers.set(x, a ^ b);
        } else if low == 4 {
            let sum: u16 = a as u16 + b as u16;
            self.registers.set(x, (sum % 256) as u8);
            self.registers.set(FLAG, if sum > 255 { 1 } else { 0 });
        } else if low == 5 {
            self.registers.set(FLAG, if a > b { 1 } else { 0 });
            proof {
                vstd::arithmetic::div_mod::lemma_mod_add_multiples_vanish(a - b, 256);
            }
            self.registers.set(x, ((a as u16 + 256 - b as u16) % 256) as u8);
        } else if low == 6 {
            self.registers.set(FLAG, a % 2);
            self.registers.set(x, a / 2);
        } else if low == 7 {
            self.registers.set(FLAG, if b > a { 1 } else { 0 });
            proof {
                vstd::arithmetic::div_mod::lemma_mod_add_multiples_vanish(b - a, 256);
            }
            self.registers.set(x, ((b as u16 + 256 - a as u16) % 256) as u8);
        } else if low == 0xE {
            self.registers.set(FLAG, a / 128);
            self.registers.set(x, ((a as u16 * 2) % 256) as u8);
        }
    }

    fn fset_check(&self, kk: u8, x: usize, instruction: u16) -> (r: Option<CpuError>)
        requires
            x < REGISTER_COUNT,
        ensures
            r == fset_fault(self@, kk, x as int, instruction),
    {
        let i = self.index as usize;
        if (kk == 0x33 && i + 2 >= MEMORY_SIZE) || ((kk == 0x55 || kk == 0x65) && i + x
            >= MEMORY_SIZE) {
            Some(CpuError::MemoryOutOfRange { pc: self.pc, opcode: instruction })
        } else if (kk == 0x33 || kk == 0x55) && i < FONT_SIZE {
            Some(CpuError::FontWrite { pc: self.pc, opcode: instruction })
        } else {
            None
        }
    }

    /// Runs the timer, index or memory instruction `Fx??` whose low byte
    /// `instruction` carries, on register `x`. One that would reach past the end
    /// of memory, or store into the font, changes nothing and fails.
    pub fn exec_fset(&mut self, instruction: u16, x: usize) -> (r: Result<(), CpuError>)
        requires
            old(self).wf(),
            x < REGISTER_COUNT,
        ensures
            final(self).wf(),
            match fset_fault(old(self)@, op_kk(instruction), x as int, instruction) {
                Some(e) => r == Err::<(), CpuError>(e) && final(self)@ == old(self)@,
                None => r is Ok && final(self)@ == fset(old(self)@, op_kk(instruction), x as int),
            },
    {
        let kk = (instruction % 0x100) as u8;
        if let Some(e) = self.fset_check(kk, x, instruction) {
            return Err(e);
        }
        let v = self.registers[x];
        let i = self.index as usize;
        if kk == 0x07 {
            self.registers.set(x, self.delay_timer);
        } else if kk == 0x0A {
            self.paused = true;
            self.wait_register = x as u8;
        } else if kk == 0x15 {
            self.delay_timer = v;
        } else if kk == 0x18 {
            self.sound_timer = v;
        } else if kk == 0x1E {
            self.index = ((self.index as u32 + v as u32) % 0x10000) as u16;
        } else if kk == 0x29 {
            self.index = v as u16 * 5;
        } else if kk == 0x33 {
            proof {
                lemma_write_keeps_font(self@.memory, i as int, v / 100);
            }
            self.memory.set(i, v / 100);
            proof {
                lemma_write_keeps_font(self@.memory, i + 1, (v % 100) / 10);
            }
            self.memory.set(i + 1, (v % 100) / 10);
            proof {
                lemma_write_keeps_font(self@.memory, i + 2, v % 10);
            }
            self.memory.set(i + 2, v % 10);
        } else if kk == 0x55 {
            let mut k: usize = 0;
            while k <= x
                invariant
                    self.wf(),
                    x < REGISTER_COUNT,
                    i + x < MEMORY_SIZE,
                    FONT_SIZE <= i,
                    i == old(self)@.index,
                    k <= x + 1,
                    self@ == (CpuState { memory: self@.memory, ..old(self)@ }),
                    forall|a: int|
                        0 <= a < MEMORY_SIZE ==> #[trigger] self@.memory[a] == if i <= a < i + k {
                            old(self)@.registers[a - i]
                        } else {
                            old(self)@.memory[a]
                        },
                decreases x + 1 - k,
            {
                let b = self.registers[k];
                proof {
                    lemma_write_keeps_font(self@.memory, i + k, b);
                }
                self.memory.set(i + k, b);
                k = k + 1;
            }
            assert(self@.memory =~= fset(old(self)@, kk, x as int).memory);
        } else if kk == 0x65 {
            let mut k: usize = 0;
            while k <= x
                invariant
                    self.wf(),
                    x < REGISTER_COUNT,
                    i + x < MEMORY_SIZE,
                    i == old(self)@.index,
                    k <= x + 1,
                    self@ == (CpuState { registers: self@.registers, ..old(self)@ }),
                    forall|r: int|
                        0 <= r < REGISTER_COUNT ==> #[trigger] self@.registers[r] == if r < k {
                            old(self)@.memory[i + r]
                        } else {
                            old(self)@.registers[r]
                        },
                decreases x + 1 - k,
            {
                let b = self.memory[i + k];
                self.registers.set(k, b);
                k = k + 1;
            }
            assert(self@.registers =~= fset(old(self)@, kk, x as int).registers);
        }
        Ok(())
    }

    /// XOR-draws the `n` sprite bytes at the index register at `(vx, vy)`
    /// and tells whether that turned a lit cell off.
    fn draw_sprite(&mut self, vx: u8, vy: u8, n: u16) -> (collided: bool)
        requires
            old(self).wf(),
            n < 16,
            old(self)@.index + n <= MEMORY_SIZE,
        ensures
            final(self).wf(),
            final(self)@ == (CpuState {
                screen: draw_screen(old(self)@.screen, old(self)@.sprite(n as int), vx as int, vy as int),
                ..old(self)@
            }),
            collided == draw_collides(
                old(self)@.screen,
                old(self)@.sprite(n as int),
                vx as int,
                vy as int,
            ),
    {
        let ghost s0 = self@.screen;
        let ghost sprite = self@.sprite(n as int);
        let ghost (x0, y0) = (vx as int, vy as int);
        let mut collided = false;
        let mut row: u16 = 0;
        while row < n
            invariant
                self.wf(),
                n < 16,
                row <= n,
                self@.index + n <= MEMORY_SIZE,
                sprite == old(self)@.sprite(n as int),
                sprite.len() == n,
                x0 == vx && y0 == vy,
                s0 == old(self)@.screen,
                screen_wf(s0),
                self@ == (CpuState { screen: self@.screen, ..old(self)@ }),
                self@.screen == partial_screen(s0, sprite, x0, y0, row as int, 0),
                collided == partial_collides(s0, sprite, x0, y0, row as int, 0),
            decreases n - row,
        {
            let byte = self.memory[self.index as usize + row as usize];
            let mut col: u16 = 0;
            while col < 8
                invariant
                    self.wf(),
                    n < 16,
                    row < n,
                    col <= 8,
                    sprite.len() == n,
                    byte == sprite[row as int],
                    x0 == vx && y0 == vy,
                    s0 == old(self)@.screen,
                    screen_wf(s0),
                    self@ == (CpuState { screen: self@.screen, ..old(self)@ }),
                    self@.screen == partial_screen(s0, sprite, x0, y0, row as int, col as int),
                    collided == partial_collides(s0, sprite, x0, y0, row as int, col as int),
                decreases 8 - col,
            {
                let ghost before = self@.screen;
                let ghost was = collided;
                let lit = (byte >> (7 - col as u8)) & 1 == 1;
                assert(lit == sprite_bit(sprite[row as int], col as int));
                let mut hit = false;
                if lit {
                    hit = self.display.set_pixel(vx as u16 + col, vy as u16 + row, 1);
                    collided = collided || hit;
                }
                proof {
                    lemma_draw_cell(s0, before, self@.screen, sprite, x0, y0, row as int, col as int, lit, was, hit);
                }
                col = col + 1;
            }
            proof {
                lemma_draw_row(s0, sprite, x0, y0, row as int);
            }
            row = row + 1;
        }
        proof {
            lemma_draw_done(s0, sprite, x0, y0);
        }
        collided
    }

    fn skip_if(&mut self, cond: bool)
        requires
            old(self).wf(),
        ensures
            final(self).wf(),
            final(self)@ == old(self)@.skip_if(cond),
    {
        if cond {
            self.pc = ((self.pc as u32 + 2) % 0x10000) as u16;
        }
    }

    /// Executes the instruction word `instruction`; `random` is the byte that
    /// `Cxkk` masks. A fault leaves the interpreter as it was.
    pub fn execute(&mut self, instruction: u16, random: u8) -> (r: Result<(), CpuError>)
        requires
            old(self).wf(),
        ensures
            final(self).wf(),
            outcome(final(self)@, r, run_op(old(self)@, instruction, random)),
            r is Err ==> final(self)@ == old(self)@,
    {
        let family = instruction / 0x1000;
        let x = (instruction / 0x100 % 16) as usize;
        let y = (instruction / 0x10 % 16) as usize;
        let kk = (instruction % 0x100) as u8;
        let nnn = instruction % 0x1000;
        let n = instruction % 16;
        if family == 0 && instruction == 0x00EE && self.stack.len() == 0 {
            return Err(CpuError::EmptyStack { pc: self.pc, opcode: instruction });
        }
        if family == 0xD && self.index as usize + n as usize > MEMORY_SIZE {
            return Err(CpuError::MemoryOutOfRange { pc: self.pc, opcode: instruction });
        }
        if family == 0xF {
            if let Some(e) = self.fset_check(kk, x, instruction) {
                return Err(e);
            }
        }
        self.pc = ((self.pc as u32 + 2) % 0x10000) as u16;
        let vx = self.registers[x];
        let vy = self.registers[y];
        if family == 0 {
            if instruction == 0x00E0 {
                self.display.clear();
            } else if instruction == 0x00EE {
                match self.stack.pop() {
                    Some(ret) => {
                        self.pc = ret;
                    },
                    None => {},
                }
            }
        } else if family == 1 {
            self.pc = nnn;
        } else if family == 2 {
            self.stack.push(self.pc);
            self.pc = nnn;
        } else if family == 3 {
            self.skip_if(vx == kk);
        } else if family == 4 {
            self.skip_if(vx != kk);
        } else if family == 5 {
            self.skip_if(vx == vy);
        } else if family == 6 {
            self.registers.set(x, kk);
        } else if family == 7 {
            self.registers.set(x, ((vx as u16 + kk as u16) % 256) as u8);
        } else if family == 8 {
            self.exec_8set(instruction, x, y);
        } else if family == 9 {
            self.skip_if(vx != vy);
        } else if family == 0xA {
            self.index = nnn;
        } else if family == 0xB {
            self.pc = self.registers[0] as u16 + nnn;
        } else if family == 0xC {
            self.registers.set(x, random & kk);
        } else if family == 0xD {
            let collided = self.draw_sprite(vx, vy, n);
            self.registers.set(FLAG, if collided { 1 } else { 0 });
        } else if family == 0xE {
            let down = self.keyboard.is_key_pressed(vx);
            if kk == 0x9E {
                self.skip_if(down);
            } else if kk == 0xA1 {
                self.skip_if(!down);
            }
        } else if let Err(e) = self.exec_fset(instruction, x) {
            return Err(e);
        }
        Ok(())
    }

    /// Runs one sub-step: a wait for a key ends with the lowest key held down,
    /// then the instruction at the program counter is fetched and executed.
    /// Returns the instruction word if it was not one of the set and ran as a
    /// no-op. A fault leaves the interpreter as it was.
    pub fn step(&mut self, random: u8) -> (r: Result<Option<u16>, CpuError>)
        requires
            old(self).wf(),
        ensures
            final(self).wf(),
            match sub_step(old(self)@, random) {
                Ok(t) => r == Ok::<Option<u16>, CpuError>(step_unknown(old(self)@)) && final(self)@ == t,
                Err(e) => r == Err::<Option<u16>, CpuError>(e) && final(self)@ == old(self)@,
            },
    {
        let w = self.wait_register as usize;
        let previous = self.registers[w];
        let resumed = self.paused;
        if self.paused {
            match self.keyboard.get_key_pressed() {
                None => {
                    return Ok(None);
                },
                Some(k) => {
                    self.registers.set(w, k);
                    self.paused = false;
                    assert(self@ == resume(old(self)@, k));
                },
            }
        }
        let ghost started = self@;
        let pc = self.pc as usize;
        let result = if pc + 1 >= MEMORY_SIZE {
            Err(CpuError::FetchOutOfRange { pc: self.pc })
        } else {
            let instruction = self.memory[pc] as u16 * 256 + self.memory[pc + 1] as u16;
            let known = is_known_opcode(instruction);
            match self.execute(instruction, random) {
                Ok(()) => Ok(if known { None } else { Some(instruction) }),
                Err(e) => Err(e),
            }
        };
        if result.is_err() {
            assert(self@ == started);
            if resumed {
                self.registers.set(w, previous);
                self.paused = true;
                assert(self@.registers =~= old(self)@.registers);
            }
        }
        result
    }

    fn decay_timers(&mut self)
        requires
            old(self).wf(),
        ensures
            final(self).wf(),
            final(self)@ == decay(old(self)@),
    {
        if !self.paused {
            if self.delay_timer > 0 {
                self.delay_timer = self.delay_timer - 1;
            }
            if self.sound_timer > 0 {
                self.sound_timer = self.sound_timer - 1;
            }
        }
    }

    /// Runs one tick: a sub-step for each byte of `randoms`, which feeds `Cxkk`,
    /// then one decrement of each running timer unless a key is awaited.
    /// The first fault ends the tick, with the interpreter as the sub-steps
    /// before it left it. Returns the unrecognised instruction words that ran
    /// as no-ops, in order.
    pub fn run_tick(&mut self, randoms: &Vec<u8>) -> (r: Result<Vec<u16>, CpuError>)
        requires
            old(self).wf(),
        ensures
            final(self).wf(),
            match tick(old(self)@, randoms@) {
                Ok(t) => r is Ok && r->Ok_0@ == unknown_ops(old(self)@, randoms@) && final(self)@ == t,
                Err(e) => r == Err::<Vec<u16>, CpuError>(e) && halted_at(old(self)@, randoms@, final(self)@),
            },
    {
        let mut unknown: Vec<u16> = Vec::new();
        let mut i: usize = 0;
        while i < randoms.len()
            invariant
                self.wf(),
                i <= randoms.len(),
                run_steps(old(self)@, randoms@.take(i as int)) == Ok::<CpuState, CpuError>(self@),
                unknown@ == unknown_ops(old(self)@, randoms@.take(i as int)),
            decreases randoms.len() - i,
        {
            proof {
                lemma_steps_extend(old(self)@, randoms@, i as int);
            }
            match self.step(randoms[i]) {
                Ok(Some(op)) => {
                    unknown.push(op);
                },
                Ok(None) => {},
                Err(e) => {
                    proof {
                        lemma_fault_persists(old(self)@, randoms@, i + 1, e);
                        assert(randoms@.take(randoms.len() as int) =~= randoms@);
                        assert(run_steps(old(self)@, randoms@.take(i as int)) == Ok::<CpuState, CpuError>(self@));
                    }
                    return Err(e);
                },
            }
            i = i + 1;
        }
        assert(randoms@.take(randoms.len() as int) =~= randoms@);
        self.decay_timers();
        Ok(unknown)
    }

    /// Runs one tick of `INSTRUCTIONS_PER_TICK` sub-steps with freshly drawn
    /// random bytes, and returns the unrecognised instruction words met.
    pub fn cycle(&mut self) -> (r: Result<Vec<u16>, CpuError>)
        requires
            old(self).wf(),
        ensures
            final(self).wf(),
            exists|rnds: Seq<u8>|
                rnds.len() == INSTRUCTIONS_PER_TICK && match #[trigger] tick(old(self)@, rnds) {
                    Ok(t) => r is Ok && r->Ok_0@ == unknown_ops(old(self)@, rnds) && final(self)@ == t,
                    Err(e) => r == Err::<Vec<u16>, CpuError>(e) && halted_at(old(self)@, rnds, final(self)@),
                },
    {
        let mut randoms: Vec<u8> = Vec::new();
        while randoms.len() < INSTRUCTIONS_PER_TICK
            invariant
                randoms.len() <= INSTRUCTIONS_PER_TICK,
            decreases INSTRUCTIONS_PER_TICK - randoms.len(),
        {
            randoms.push(random_byte());
        }
        self.run_tick(&randoms)
    }

    /// Executes the instruction word `instruction` with a freshly drawn random byte.
    pub fn get_op_code(&mut self, instruction: u16) -> (r: Result<(), CpuError>)
        requires
            old(self).wf(),
        ensures
            final(self).wf(),
            exists|rnd: u8| outcome(final(self)@, r, #[trigger] run_op(old(self)@, instruction, rnd)),
            r is Err ==> final(self)@ == old(self)@,
    {
        let random = random_byte();
        self.execute(instruction, random)
    }

    /// Copies a program image into memory at the load address; one that does
    /// not fit changes nothing and fails.
    pub fn read_rom(&mut self, file_data: Vec<u8>) -> (r: Result<(), CpuError>)
        requires
            old(self).wf(),
        ensures
            final(self).wf(),
            file_data.len() > MEMORY_SIZE - PROGRAM_START ==> r == Err::<(), CpuError>(
                CpuError::RomTooLarge { len: file_data.len() },
            ) && final(self)@ == old(self)@,
            file_data.len() <= MEMORY_SIZE - PROGRAM_START ==> r is Ok && final(self)@ == (CpuState {
                memory: load(old(self)@.memory, file_data@),
                ..old(self)@
            }),
    {
        let start = PROGRAM_START as usize;
        if file_data.len() > MEMORY_SIZE - start {
            return Err(CpuError::RomTooLarge { len: file_data.len() });
        }
        let mut k: usize = 0;
        while k < file_data.len()
            invariant
                self.wf(),
                k <= file_data.len(),
                file_data.len() <= MEMORY_SIZE - start,
                start == PROGRAM_START,
                self@ == (CpuState { memory: self@.memory, ..old(self)@ }),
                forall|a: int|
                    0 <= a < MEMORY_SIZE ==> #[trigger] self@.memory[a] == if start <= a < start + k {
                        file_data@[a - start]
                    } else {
                        old(self)@.memory[a]
                    },
            decreases file_data.len() - k,
        {
            proof {
                lemma_write_keeps_font(self@.memory, start + k, file_data@[k as int]);
            }
            self.memory.set(start + k, file_data[k]);
            k = k + 1;
        }
        assert(self@.memory =~= load(old(self)@.memory, file_data@));
        Ok(())
    }

    pub fn pc(&self) -> (r: u16)
        ensures
            r == self@.pc,
    {
        self.pc
    }

    pub fn index(&self) -> (r: u16)
        ensures
            r == self@.index,
    {
        self.index
    }

    pub fn set_index(&mut self, value: u16)
        ensures
            final(self)@ == (CpuState { index: value, ..old(self)@ }),
    {
        self.index = value;
    }

    pub fn register(&self, i: usize) -> (r: u8)
        requires
            self.wf(),
            i < REGISTER_COUNT,
        ensures
            r == self@.registers[i as int],
    {
        self.registers[i]
    }

    pub fn set_register(&mut self, i: usize, value: u8)
        requires
            old(self).wf(),
            i < REGISTER_COUNT,
        ensures
            final(self).wf(),
            final(self)@ == old(self)@.with_reg(i as int, value),
    {
        self.registers.set(i, value);
    }

    pub fn memory_at(&self, address: usize) -> (r: u8)
        requires
            self.wf(),
            address < MEMORY_SIZE,
        ensures
            r == self@.memory[address as int],
    {
        self.memory[address]
    }

    pub fn delay_timer(&self) -> (r: u8)
        ensures
            r == self@.delay_timer,
    {
        self.delay_timer
    }

    pub fn sound_timer(&self) -> (r: u8)
        ensures
            r == self@.sound_timer,
    {
        self.sound_timer
    }

    /// Whether the interpreter waits for a key press.
    pub fn is_paused(&self) -> (r: bool)
        ensures
            r == self@.paused,
    {
        self.paused
    }

    /// The framebuffer, for presentation.
    pub fn display(&self) -> (r: &Display)
        ensures
            r@ == self@.screen,
    {
        &self.display
    }
}

} // verus!
