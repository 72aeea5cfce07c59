//! The mathematical model of the interpreter: its state, and what one
//! instruction, one sub-step and one tick do to it.
use vstd::prelude::*;
use vstd::arithmetic::div_mod::*;
use crate::display::{blank_screen, cell_index, screen_wf, CELLS, HEIGHT, WIDTH};
use crate::keyboard::{lowest_pressed, KEY_COUNT};

verus! {

/// Bytes of addressable memory.
pub const MEMORY_SIZE: usize = 4096;

/// Number of general registers.
pub const REGISTER_COUNT: usize = 16;

/// The register that carries the carry, borrow and collision flag.
pub const FLAG: usize = 15;

/// Where programs are loaded and where execution starts.
pub const PROGRAM_START: u16 = 0x200;

/// Bytes of the built-in font at the bottom of memory, which never change.
pub const FONT_SIZE: usize = 80;

/// Instructions that one tick of the driver executes.
pub const INSTRUCTIONS_PER_TICK: usize = 10;

/// A fault that the loaded program caused and that the interpreter does not recover from.
#[derive(PartialEq, Eq, Structural, Clone, Copy, Debug)]
pub enum CpuError {
    /// `00EE` ran with an empty call stack.
    EmptyStack { pc: u16, opcode: u16 },
    /// The instruction would have read or written memory past its end.
    MemoryOutOfRange { pc: u16, opcode: u16 },
    /// The instruction would have written into the built-in font.
    FontWrite { pc: u16, opcode: u16 },
    /// The two bytes of the next instruction lie past the end of memory.
    FetchOutOfRange { pc: u16 },
    /// A program image does not fit between the load address and the end of memory.
    RomTooLarge { len: usize },
}

/// The whole state of the interpreter as plain values.
pub struct CpuState {
    pub memory: Seq<u8>,
    pub registers: Seq<u8>,
    pub index: u16,
    pub pc: u16,
    pub stack: Seq<u16>,
    pub delay_timer: u8,
    pub sound_timer: u8,
    /// Set while the interpreter waits for a key press.
    pub paused: bool,
    /// The register that receives the key once the wait ends.
    pub wait_register: u8,
    pub screen: Seq<u8>,
    pub keys: Seq<bool>,
}

pub open spec fn wrap16(v: int) -> u16 {
    (v % 0x10000) as u16
}

pub open spec fn op_family(op: u16) -> int {
    op as int / 0x1000
}

pub open spec fn op_x(op: u16) -> int {
    (op as int / 0x100) % 16
}

pub open spec fn op_y(op: u16) -> int {
    (op as int / 0x10) % 16
}

pub open spec fn op_n(op: u16) -> int {
    op as int % 16
}

pub open spec fn op_kk(op: u16) -> u8 {
    (op as int % 0x100) as u8
}

pub open spec fn op_nnn(op: u16) -> u16 {
    (op as int % 0x1000) as u16
}

/// Whether logical key `k` is held down; codes past 15 never are.
pub open spec fn key_down(keys: Seq<bool>, k: u8) -> bool {
    k < KEY_COUNT && keys[k as int]
}

/// Whether bit `col` of a sprite row, counted from the most significant bit, is set.
pub open spec fn sprite_bit(b: u8, col: int) -> bool {
    (b >> ((7 - col) as u8)) & 1u8 == 1u8
}

/// The sprite row that covers cell `c` when the sprite is drawn at `(vx, vy)`.
pub open spec fn sprite_row(vy: int, c: int) -> int {
    (c / (WIDTH as int) - vy) % (HEIGHT as int)
}

/// The sprite column that covers cell `c` when the sprite is drawn at `(vx, vy)`.
pub open spec fn sprite_col(vx: int, c: int) -> int {
    (c % (WIDTH as int) - vx) % (WIDTH as int)
}

/// Whether drawing `sprite` (one byte per row) at `(vx, vy)` toggles cell `c`.
pub open spec fn covered(sprite: Seq<u8>, vx: int, vy: int, c: int) -> bool {
    &&& sprite_row(vy, c) < sprite.len()
    &&& sprite_col(vx, c) < 8
    &&& sprite_bit(sprite[sprite_row(vy, c)], sprite_col(vx, c))
}

/// The grid after XOR-drawing `sprite` at `(vx, vy)`.
pub open spec fn draw_screen(screen: Seq<u8>, sprite: Seq<u8>, vx: int, vy: int) -> Seq<u8> {
    Seq::new(
        screen.len(),
        |c: int|
            if covered(sprite, vx, vy, c) {
                screen[c] ^ 1u8
            } else {
                screen[c]
            },
    )
}

/// Whether drawing `sprite` at `(vx, vy)` turns some lit cell off.
pub open spec fn draw_collides(screen: Seq<u8>, sprite: Seq<u8>, vx: int, vy: int) -> bool {
    exists|c: int| 0 <= c < screen.len() && #[trigger] covered(sprite, vx, vy, c) && screen[c] == 1
}

/// Whether drawing `sprite` at `(vx, vy)` turns some dark cell on.
pub open spec fn draw_lights(screen: Seq<u8>, sprite: Seq<u8>, vx: int, vy: int) -> bool {
    exists|c: int| 0 <= c < screen.len() && #[trigger] covered(sprite, vx, vy, c) && screen[c] == 0
}

impl CpuState {
    pub open spec fn wf(self) -> bool {
        &&& self.memory.len() == MEMORY_SIZE
        &&& self.memory.subrange(0, FONT_SIZE as int) == font()
        &&& self.registers.len() == REGISTER_COUNT
        &&& screen_wf(self.screen)
        &&& self.keys.len() == KEY_COUNT
        &&& self.wait_register < REGISTER_COUNT
    }

    pub open spec fn with_reg(self, i: int, v: u8) -> CpuState {
        CpuState { registers: self.registers.update(i, v), ..self }
    }

    pub open spec fn skip_if(self, cond: bool) -> CpuState {
        if cond {
            CpuState { pc: wrap16(self.pc + 2), ..self }
        } else {
            self
        }
    }

    /// The `n` sprite bytes that a draw reads, starting at the index register.
    pub open spec fn sprite(self, n: int) -> Seq<u8> {
        self.memory.subrange(self.index as int, self.index + n)
    }
}

/// The arithmetic and logic family `8xy?`, selected by `low`.
pub open spec fn alu(s: CpuState, low: int, x: int, y: int) -> CpuState {
    let a = s.registers[x];
    let b = s.registers[y];
    if low == 0 {
        s.with_reg(x, b)
    } else if low == 1 {
        s.with_reg(x, a | b)
    } else if low == 2 {
        s.with_reg(x, a & b)
    } else if low == 3 {
        s.with_reg(x, a ^ b)
    } else if low == 4 {
        s.with_reg(x, ((a + b) % 256) as u8).with_reg(
            FLAG as int,
            if a + b > 255 {
                1u8
            } else {
                0u8
            },
        )
    } else if low == 5 {
        s.with_reg(
            FLAG as int,
            if a > b {
                1u8
            } else {
                0u8
            },
        ).with_reg(x, ((a - b) % 256) as u8)
    } else if low == 6 {
        s.with_reg(FLAG as int, a % 2).with_reg(x, a / 2)
    } else if low == 7 {
        s.with_reg(
            FLAG as int,
            if b > a {
                1u8
            } else {
                0u8
            },
        ).with_reg(x, ((b - a) % 256) as u8)
    } else if low == 0xE {
        s.with_reg(FLAG as int, a / 128).with_reg(x, ((a * 2) % 256) as u8)
    } else {
        s
    }
}

/// Whether the `Fx??` instruction selected by `kk` reaches past the end of memory.
pub open spec fn fset_out_of_range(s: CpuState, kk: u8, x: int) -> bool {
    ||| kk == 0x33 && s.index + 2 >= MEMORY_SIZE
    ||| (kk == 0x55 || kk == 0x65) && s.index + x >= MEMORY_SIZE
}

/// Whether the `Fx??` instruction selected by `kk` would store into the font.
pub open spec fn fset_font_write(s: CpuState, kk: u8) -> bool {
    (kk == 0x33 || kk == 0x55) && s.index < FONT_SIZE
}

/// The fault that the `Fx??` instruction `opcode`, selected by `kk`, raises on register `x`, if any.
pub open spec fn fset_fault(s: CpuState, kk: u8, x: int, opcode: u16) -> Option<CpuError> {
    if fset_out_of_range(s, kk, x) {
        Some(CpuError::MemoryOutOfRange { pc: s.pc, opcode })
    } else if fset_font_write(s, kk) {
        Some(CpuError::FontWrite { pc: s.pc, opcode })
    } else {
        None
    }
}

/// The timer, index and memory family `Fx??`, selected by `kk`.
pub open spec fn fset(s: CpuState, kk: u8, x: int) -> CpuState {
    let v = s.registers[x];
    let i = s.index as int;
    if kk == 0x07 {
        s.with_reg(x, s.delay_timer)
    } else if kk == 0x0A {
        CpuState { paused: true, wait_register: x as u8, ..s }
    } else if kk == 0x15 {
        CpuState { delay_timer: v, ..s }
    } else if kk == 0x18 {
        CpuState { sound_timer: v, ..s }
    } else if kk == 0x1E {
        CpuState { index: wrap16(i + v), ..s }
    } else if kk == 0x29 {
        CpuState { index: (v * 5) as u16, ..s }
    } else if kk == 0x33 {
        CpuState {
            memory: s.memory.update(i, v / 100).update(i + 1, (v % 100) / 10).update(i + 2, v % 10),
            ..s
        }
    } else if kk == 0x55 {
        CpuState {
            memory: Seq::new(
                s.memory.len(),
                |a: int|
                    if i <= a <= i + x {
                        s.registers[a - i]
                    } else {
                        s.memory[a]
                    },
            ),
            ..s
        }
    } else if kk == 0x65 {
        CpuState {
            registers: Seq::new(
                s.registers.len(),
                |r: int|
                    if r <= x {
                        s.memory[i + r]
                    } else {
                        s.registers[r]
                    },
            ),
            ..s
        }
    } else {
        s
    }
}

/// The fault that executing `op` in state `s` raises, if any.
pub open spec fn fault(s: CpuState, op: u16) -> Option<CpuError> {
    let f = op_family(op);
    if f == 0 && op == 0x00EE && s.stack.len() == 0 {
        Some(CpuError::EmptyStack { pc: s.pc, opcode: op })
    } else if f == 0xD && s.index + op_n(op) > MEMORY_SIZE {
        Some(CpuError::MemoryOutOfRange { pc: s.pc, opcode: op })
    } else if f == 0xF {
        fset_fault(s, op_kk(op), op_x(op), op)
    } else {
        None
    }
}

/// What `op` does once the program counter has moved past it; `rnd` is the
/// random byte that `Cxkk` uses.
pub open spec fn effect(s: CpuState, op: u16, rnd: u8) -> CpuState {
    let f = op_family(op);
    let x = op_x(op);
    let y = op_y(op);
    let kk = op_kk(op);
    let nnn = op_nnn(op);
    let vx = s.registers[x];
    let vy = s.registers[y];
    if f == 0 {
        if op == 0x00E0 {
            CpuState { screen: blank_screen(), ..s }
        } else if op == 0x00EE {
            CpuState { pc: s.stack.last(), stack: s.stack.drop_last(), ..s }
        } else {
            s
        }
    } else if f == 1 {
        CpuState { pc: nnn, ..s }
    } else if f == 2 {
        CpuState { stack: s.stack.push(s.pc), pc: nnn, ..s }
    } else if f == 3 {
        s.skip_if(vx == kk)
    } else if f == 4 {
        s.skip_if(vx != kk)
    } else if f == 5 {
        s.skip_if(vx == vy)
    } else if f == 6 {
        s.with_reg(x, kk)
    } else if f == 7 {
        s.with_reg(x, ((vx + kk) % 256) as u8)
    } else if f == 8 {
        alu(s, op_n(op), x, y)
    } else if f == 9 {
        s.skip_if(vx != vy)
    } else if f == 0xA {
        CpuState { index: nnn, ..s }
    } else if f == 0xB {
        CpuState { pc: (s.registers[0] + nnn) as u16, ..s }
    } else if f == 0xC {
        s.with_reg(x, rnd & kk)
    } else if f == 0xD {
        let sprite = s.sprite(op_n(op));
        CpuState {
            screen: draw_screen(s.screen, sprite, vx as int, vy as int),
            ..s
        }.with_reg(
            FLAG as int,
            if draw_collides(s.screen, sprite, vx as int, vy as int) {
                1u8
            } else {
                0u8
            },
        )
    } else if f == 0xE {
        if kk == 0x9E {
            s.skip_if(key_down(s.keys, vx))
        } else if kk == 0xA1 {
            s.skip_if(!key_down(s.keys, vx))
        } else {
            s
        }
    } else {
        fset(s, kk, x)
    }
}

/// Executing the instruction word `op` in state `s`: a fault leaves `s` as it was.
pub open spec fn run_op(s: CpuState, op: u16, rnd: u8) -> Result<CpuState, CpuError> {
    match fault(s, op) {
        Some(e) => Err(e),
        None => Ok(effect(CpuState { pc: wrap16(s.pc + 2), ..s }, op, rnd)),
    }
}

/// The big-endian instruction word at the program counter.
pub open spec fn fetch(s: CpuState) -> u16 {
    (s.memory[s.pc as int] * 256 + s.memory[s.pc + 1]) as u16
}

pub open spec fn fetch_execute(s: CpuState, rnd: u8) -> Result<CpuState, CpuError> {
    if s.pc + 1 >= MEMORY_SIZE {
        Err(CpuError::FetchOutOfRange { pc: s.pc })
    } else {
        run_op(s, fetch(s), rnd)
    }
}

/// The wait for a key ends with key `k` stored in the waiting register.
pub open spec fn resume(s: CpuState, k: u8) -> CpuState {
    CpuState { paused: false, ..s.with_reg(s.wait_register as int, k) }
}

/// One sub-step of a tick: a paused interpreter stays put until a key is down.
pub open spec fn sub_step(s: CpuState, rnd: u8) -> Result<CpuState, CpuError> {
    if s.paused {
        match lowest_pressed(s.keys) {
            None => Ok(s),
            Some(k) => fetch_execute(resume(s, k), rnd),
        }
    } else {
        fetch_execute(s, rnd)
    }
}

/// One sub-step for each random byte of `rnds`, in order, stopping at the first fault.
pub open spec fn run_steps(s: CpuState, rnds: Seq<u8>) -> Result<CpuState, CpuError>
    decreases rnds.len(),
{
    if rnds.len() == 0 {
        Ok(s)
    } else {
        match run_steps(s, rnds.drop_last()) {
            Ok(t) => sub_step(t, rnds.last()),
            Err(e) => Err(e),
        }
    }
}

/// Whether `op` is an instruction of the set; any other word runs as a no-op.
pub open spec fn known_op(op: u16) -> bool {
    let f = op_family(op);
    let kk = op_kk(op);
    if f == 0 {
        op == 0x00E0 || op == 0x00EE
    } else if f == 8 {
        op_n(op) <= 7 || op_n(op) == 0xE
    } else if f == 0xE {
        kk == 0x9E || kk == 0xA1
    } else if f == 0xF {
        kk == 0x07 || kk == 0x0A || kk == 0x15 || kk == 0x18 || kk == 0x1E || kk == 0x29 || kk
            == 0x33 || kk == 0x55 || kk == 0x65
    } else {
        true
    }
}

/// The unrecognised instruction word that a sub-step runs as a no-op, if any.
pub open spec fn step_unknown(s: CpuState) -> Option<u16> {
    let t = if s.paused {
        match lowest_pressed(s.keys) {
            None => s,
            Some(k) => resume(s, k),
        }
    } else {
        s
    };
    if s.paused && lowest_pressed(s.keys) is None {
        None
    } else if t.pc + 1 < MEMORY_SIZE && !known_op(fetch(t)) {
        Some(fetch(t))
    } else {
        None
    }
}

/// The unrecognised instruction words that the sub-steps of `run_steps(s, rnds)` met, in order.
pub open spec fn unknown_ops(s: CpuState, rnds: Seq<u8>) -> Seq<u16>
    decreases rnds.len(),
{
    if rnds.len() == 0 {
        Seq::empty()
    } else {
        match run_steps(s, rnds.drop_last()) {
            Ok(t) => match step_unknown(t) {
                Some(op) => unknown_ops(s, rnds.drop_last()).push(op),
                None => unknown_ops(s, rnds.drop_last()),
            },
            Err(e) => Seq::empty(),
        }
    }
}

/// `t` is the state that the sub-steps of `rnds` before the first fault reached:
/// the sub-steps up to some point ran cleanly to `t`, and the next one faulted.
pub open spec fn halted_at(s: CpuState, rnds: Seq<u8>, t: CpuState) -> bool {
    exists|i: int|
        0 <= i < rnds.len() && #[trigger] run_steps(s, rnds.take(i)) == Ok::<CpuState, CpuError>(t)
            && sub_step(t, rnds[i]) is Err
}

/// Each timer that is above zero goes down by one, unless the interpreter waits for a key.
pub open spec fn decay(s: CpuState) -> CpuState {
    if s.paused {
        s
    } else {
        CpuState {
            delay_timer: if s.delay_timer > 0 {
                (s.delay_timer - 1) as u8
            } else {
                0u8
            },
            sound_timer: if s.sound_timer > 0 {
                (s.sound_timer - 1) as u8
            } else {
                0u8
            },
            ..s
        }
    }
}

/// One tick: the sub-steps, then the timers.
pub open spec fn tick(s: CpuState, rnds: Seq<u8>) -> Result<CpuState, CpuError> {
    match run_steps(s, rnds) {
        Ok(t) => Ok(decay(t)),
        Err(e) => Err(e),
    }
}

/// The built-in glyphs of the hexadecimal digits, five bytes each.
pub open spec fn font() -> Seq<u8> {
    seq![
        0xF0u8, 0x90, 0x90, 0x90, 0xF0, 0x20, 0x60, 0x20, 0x20, 0x70,
        0xF0, 0x10, 0xF0, 0x80, 0xF0, 0xF0, 0x10, 0xF0, 0x10, 0xF0,
        0x90, 0x90, 0xF0, 0x10, 0x10, 0xF0, 0x80, 0xF0, 0x10, 0xF0,
        0xF0, 0x80, 0xF0, 0x90, 0xF0, 0xF0, 0x10, 0x20, 0x40, 0x40,
        0xF0, 0x90, 0xF0, 0x90, 0xF0, 0xF0, 0x90, 0xF0, 0x10, 0xF0,
        0xF0, 0x90, 0xF0, 0x90, 0x90, 0xE0, 0x90, 0xE0, 0x90, 0xE0,
        0xF0, 0x80, 0x80, 0x80, 0xF0, 0xE0, 0x90, 0x90, 0x90, 0xE0,
        0xF0, 0x80, 0xF0, 0x80, 0xF0, 0xF0, 0x80, 0xF0, 0x80, 0x80,
    ]
}

/// A freshly built interpreter: memory zero but for the font, ready at the load address.
pub open spec fn initial_state() -> CpuState {
    CpuState {
        memory: Seq::new(
            MEMORY_SIZE as nat,
            |a: int|
                if a < font().len() {
                    font()[a]
                } else {
                    0u8
                },
        ),
        registers: Seq::new(REGISTER_COUNT as nat, |i: int| 0u8),
        index: 0,
        pc: PROGRAM_START,
        stack: Seq::empty(),
        delay_timer: 0,
        sound_timer: 0,
        paused: false,
        wait_register: 0,
        screen: blank_screen(),
        keys: Seq::new(KEY_COUNT as nat, |k: int| false),
    }
}

/// `after` and the returned `r` are what `expected` describes.
pub open spec fn outcome(after: CpuState, r: Result<(), CpuError>, expected: Result<CpuState, CpuError>) -> bool {
    match expected {
        Ok(t) => r is Ok && after == t,
        Err(e) => r == Err::<(), CpuError>(e),
    }
}

/// The memory after loading `rom` at the load address.
pub open spec fn load(memory: Seq<u8>, rom: Seq<u8>) -> Seq<u8> {
    Seq::new(
        memory.len(),
        |a: int|
            if PROGRAM_START <= a < PROGRAM_START + rom.len() {
                rom[a - PROGRAM_START]
            } else {
                memory[a]
            },
    )
}

/// The cell of `(vx + col, vy + row)` is the one whose sprite row and column are `row` and `col`.
pub proof fn lemma_sprite_cell(vx: int, vy: int, row: int, col: int, c: int)
    requires
        0 <= vx,
        0 <= vy,
        0 <= row < HEIGHT,
        0 <= col < WIDTH,
        0 <= c < CELLS,
    ensures
        (c == cell_index(vx + col, vy + row)) <==> (sprite_row(vy, c) == row && sprite_col(vx, c)
            == col),
{
    let p = cell_index(vx + col, vy + row);
    let px = (vx + col) % 64;
    let py = (vy + row) % 32;
    lemma_fundamental_div_mod(c, 64);
    assert(0 <= c % 64 < 64);
    assert(0 <= c / 64 < 32) by {
        lemma_div_is_ordered(c, 2047, 64);
    }
    // the column of the sprite that lands on column `cx` of the grid
    lemma_sub_mod_noop(vx + col, vx, 64);
    lemma_small_mod(col as nat, 64);
    lemma_mod_twice(vx + col, 64);
    lemma_sub_mod_noop(vy + row, vy, 32);
    lemma_small_mod(row as nat, 32);
    lemma_mod_twice(vy + row, 32);
    assert(((vx + col) - vx) % 64 == col);
    assert(((vy + row) - vy) % 32 == row);
    if c == p {
        lemma_fundamental_div_mod_converse(c, 64, py, px);
        lemma_sub_mod_noop(px, vx, 64);
        lemma_sub_mod_noop(py, vy, 32);
        lemma_small_mod(px as nat, 64);
        lemma_small_mod(py as nat, 32);
    }
    if sprite_row(vy, c) == row && sprite_col(vx, c) == col {
        let cx = c % 64;
        let cy = c / 64;
        // cx - vx and col agree modulo 64, so cx and vx + col do
        lemma_sub_mod_noop(cx, vx, 64);
        lemma_mod_equivalence(cx - vx, col, 64);
        lemma_mod_equivalence(cx, vx + col, 64);
        lemma_small_mod(cx as nat, 64);
        lemma_sub_mod_noop(cy, vy, 32);
        lemma_mod_equivalence(cy - vy, row, 32);
        lemma_mod_equivalence(cy, vy + row, 32);
        lemma_small_mod(cy as nat, 32);
        assert(c == cy * 64 + cx);
    }
}

} // verus!
