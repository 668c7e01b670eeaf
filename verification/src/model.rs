//! The mathematical model of the machine: its state as plain sequences and
//! integers, the well-formedness invariant, and the transition function
//! `step` that gives the exact effect of one fetch-decode-execute cycle.

use vstd::prelude::*;
use crate::font::font_seq;

verus! {

/// Number of general-purpose registers (V0 through VF).
pub const REGISTER_COUNT: usize = 16;
/// Bytes of addressable memory.
pub const MEMORY_SIZE: usize = 4096;
/// Greatest number of return addresses the call stack holds.
pub const STACK_DEPTH: usize = 16;
/// Number of keys in the input matrix.
pub const KEY_COUNT: usize = 16;
/// Framebuffer width in pixels.
pub const VIDEO_WIDTH: usize = 64;
/// Framebuffer height in pixels.
pub const VIDEO_HEIGHT: usize = 32;
/// Number of framebuffer cells.
pub const VIDEO_SIZE: usize = VIDEO_WIDTH * VIDEO_HEIGHT;
/// Address of the first fontset byte.
pub const FONTSET_BASE: usize = 0x50;
/// Total size of the fontset in bytes.
pub const FONTSET_BYTES: usize = 80;
/// Bytes per fontset glyph.
pub const GLYPH_BYTES: usize = 5;
/// Address at which a program image is loaded and execution begins.
pub const ROM_START: usize = 0x200;

/// A fatal condition.  Every one of these stops the run; the host decides
/// whether to reset and reload.  The `pc` carried by the execution errors is
/// the address the offending instruction was fetched from.
#[derive(Clone, Copy, Debug, PartialEq, Eq, Structural)]
pub enum EmuError {
    /// The fetched word matches no known instruction pattern.
    UnknownOpcode { opcode: u16, pc: u16 },
    /// A call would push a seventeenth return address.
    StackOverflow { pc: u16 },
    /// A return was executed with no return address on the stack.
    StackUnderflow { pc: u16 },
    /// A program image does not fit between the load address and the end of
    /// memory.
    OutOfBounds,
}

/// The machine state as mathematics: registers, memory, framebuffer and keys
/// as sequences of bytes, the stack as a sequence of return addresses with
/// the most recent last.
#[verifier::ext_equal]
pub ghost struct CpuView {
    pub regs: Seq<u8>,
    pub mem: Seq<u8>,
    pub index: u16,
    pub pc: u16,
    pub stack: Seq<u16>,
    pub delay: u8,
    pub sound: u8,
    pub keys: Seq<u8>,
    pub fb: Seq<u8>,
    pub opcode: u16,
    pub draw: bool,
}

/// Well-formedness: every array has its architectural size, the stack never
/// exceeds its sixteen levels, the index register stays inside the address
/// space, and every framebuffer cell is a single bit.
pub open spec fn inv(v: CpuView) -> bool {
    &&& v.regs.len() == REGISTER_COUNT
    &&& v.mem.len() == MEMORY_SIZE
    &&& v.stack.len() <= STACK_DEPTH
    &&& v.keys.len() == KEY_COUNT
    &&& v.fb.len() == VIDEO_SIZE
    &&& v.index < MEMORY_SIZE
    &&& forall|p: int| 0 <= p < v.fb.len() ==> v.fb[p] <= 1
}

/// The state of a freshly constructed machine: everything zero, the fontset
/// resident at its base, the program counter at the load address.
pub open spec fn initial_view() -> CpuView {
    CpuView {
        regs: Seq::new(REGISTER_COUNT as nat, |i: int| 0u8),
        mem: Seq::new(
            MEMORY_SIZE as nat,
            |a: int|
                if FONTSET_BASE <= a < FONTSET_BASE + FONTSET_BYTES {
                    font_seq()[a - FONTSET_BASE]
                } else {
                    0u8
                },
        ),
        index: 0,
        pc: ROM_START as u16,
        stack: Seq::empty(),
        delay: 0,
        sound: 0,
        keys: Seq::new(KEY_COUNT as nat, |k: int| 0u8),
        fb: Seq::new(VIDEO_SIZE as nat, |p: int| 0u8),
        opcode: 0,
        draw: false,
    }
}

/// Memory after a successful program load: the fontset is re-installed at its
/// base, the image occupies the region from the load address, and every other
/// byte keeps its value.
pub open spec fn loaded_mem(mem: Seq<u8>, rom: Seq<u8>) -> Seq<u8> {
    Seq::new(
        mem.len(),
        |a: int|
            if ROM_START <= a < ROM_START + rom.len() {
                rom[a - ROM_START]
            } else if FONTSET_BASE <= a < FONTSET_BASE + FONTSET_BYTES {
                font_seq()[a - FONTSET_BASE]
            } else {
                mem[a]
            },
    )
}

/// The whole-machine effect of a successful program load.
pub open spec fn load_effect(v: CpuView, rom: Seq<u8>) -> CpuView {
    CpuView { mem: loaded_mem(v.mem, rom), ..v }
}

/// Timer decay: each of the two counters loses one, stopping at zero.
pub open spec fn ticked(v: CpuView) -> CpuView {
    CpuView {
        delay: if v.delay > 0 {
            (v.delay - 1) as u8
        } else {
            0u8
        },
        sound: if v.sound > 0 {
            (v.sound - 1) as u8
        } else {
            0u8
        },
        ..v
    }
}

// ---------------------------------------------------------------------------
// Opcode fields.  nnn is the low 12 bits, kk the low byte, x bits 8..11,
// y bits 4..7 and n the low nibble.
// ---------------------------------------------------------------------------

pub open spec fn op_x(op: u16) -> int {
    ((op >> 8) & 0xF) as int
}

pub open spec fn op_y(op: u16) -> int {
    ((op >> 4) & 0xF) as int
}

pub open spec fn op_n(op: u16) -> int {
    (op & 0xF) as int
}

pub open spec fn op_kk(op: u16) -> u8 {
    (op & 0xFF) as u8
}

pub open spec fn op_nnn(op: u16) -> u16 {
    op & 0xFFF
}

/// Bounds of the opcode fields, stated on the raw bit expressions so that
/// executable extraction code profits directly.
pub proof fn lemma_op_field_bounds(op: u16)
    by (bit_vector)
    ensures
        ((op >> 8) & 0xF) < 16,
        ((op >> 4) & 0xF) < 16,
        (op & 0xF) < 16,
        (op & 0xFFF) < 4096,
        (op & 0xFF) < 256,
{
}

/// The low nibble of a byte is below sixteen.
pub proof fn lemma_low_nibble_bound(b: u8)
    by (bit_vector)
    ensures
        (b & 0xF) < 16,
{
}

// ---------------------------------------------------------------------------
// Fetch.
// ---------------------------------------------------------------------------

/// The instruction word at the program counter: two consecutive bytes
/// composed big-endian.  Reads are masked into the 12-bit address space.
pub open spec fn fetch_opcode(v: CpuView) -> u16 {
    ((v.mem[(v.pc as int) % (MEMORY_SIZE as int)] as u16) << 8) | (v.mem[((v.pc as int)
        + 1) % (MEMORY_SIZE as int)] as u16)
}

/// The state after fetch: the opcode register holds the fetched word and the
/// program counter has already advanced past it, so that jumps overwrite it
/// and every other instruction falls through to the next word.
pub open spec fn after_fetch(v: CpuView) -> CpuView {
    CpuView { opcode: fetch_opcode(v), pc: (((v.pc as int) + 2) % 0x10000) as u16, ..v }
}

/// Whether an opcode draws from the random source (the `Cxkk` pattern).
pub open spec fn op_is_random(op: u16) -> bool {
    op & 0xF000 == 0xC000
}

// ---------------------------------------------------------------------------
// Key scan.
// ---------------------------------------------------------------------------

pub open spec fn any_key_pressed(keys: Seq<u8>) -> bool {
    exists|k: int| 0 <= k < keys.len() && keys[k] != 0
}

/// Index of the first pressed key at or after position `k`, or the length of
/// the key array when none is pressed there.
pub open spec fn first_pressed_from(keys: Seq<u8>, k: int) -> int
    decreases keys.len() - k,
{
    if k < 0 || k >= keys.len() {
        keys.len() as int
    } else if keys[k] != 0 {
        k
    } else {
        first_pressed_from(keys, k + 1)
    }
}

/// Index of the lowest-numbered pressed key, or the length of the key array
/// when no key is pressed.
pub open spec fn first_pressed_key(keys: Seq<u8>) -> int {
    first_pressed_from(keys, 0)
}

// ---------------------------------------------------------------------------
// Drawing.
// ---------------------------------------------------------------------------

/// The sprite bit (0 or 1) that a draw of `n` rows read from memory address
/// `i`, anchored at screen position `(x0, y0)`, XORs into framebuffer cell
/// `p`.  Coordinates wrap around both screen edges; a cell outside the
/// wrapped sprite rectangle receives 0.
pub open spec fn sprite_bit(mem: Seq<u8>, i: int, x0: int, y0: int, n: int, p: int) -> u8 {
    let px = p % (VIDEO_WIDTH as int);
    let py = p / (VIDEO_WIDTH as int);
    let row = (py - y0) % (VIDEO_HEIGHT as int);
    let col = (px - x0) % (VIDEO_WIDTH as int);
    if row < n && col < 8 {
        (mem[(i + row) % (MEMORY_SIZE as int)] >> ((7 - col) as u8)) & 1
    } else {
        0u8
    }
}

/// The framebuffer after a draw: every cell is XORed with its sprite bit.
pub open spec fn draw_fb(fb: Seq<u8>, mem: Seq<u8>, i: int, x0: int, y0: int, n: int) -> Seq<u8> {
    Seq::new(fb.len(), |p: int| fb[p] ^ sprite_bit(mem, i, x0, y0, n, p))
}

/// Whether the draw collides: some cell already lit receives a 1 sprite bit.
pub open spec fn draw_collision(
    fb: Seq<u8>,
    mem: Seq<u8>,
    i: int,
    x0: int,
    y0: int,
    n: int,
) -> bool {
    exists|p: int|
        0 <= p < fb.len() && fb[p] == 1 && sprite_bit(mem, i, x0, y0, n, p) == 1
}

/// Whether the draw changes any cell: some cell receives a 1 sprite bit.
pub open spec fn draw_changes(mem: Seq<u8>, i: int, x0: int, y0: int, n: int) -> bool {
    exists|p: int| 0 <= p < VIDEO_SIZE && sprite_bit(mem, i, x0, y0, n, p) == 1
}

/// The sprite bit already XORed into cell `p` while a draw is in progress:
/// `rows_done` full sprite rows are finished, and `cols_done` columns of row
/// `rows_done` itself.
pub open spec fn sprite_bit_partial(
    mem: Seq<u8>,
    i: int,
    x0: int,
    y0: int,
    n: int,
    rows_done: int,
    cols_done: int,
    p: int,
) -> u8 {
    let px = p % (VIDEO_WIDTH as int);
    let py = p / (VIDEO_WIDTH as int);
    let row = (py - y0) % (VIDEO_HEIGHT as int);
    let col = (px - x0) % (VIDEO_WIDTH as int);
    if row < n && col < 8 && (row < rows_done || (row == rows_done && col < cols_done)) {
        (mem[(i + row) % (MEMORY_SIZE as int)] >> ((7 - col) as u8)) & 1
    } else {
        0u8
    }
}

/// Facts about XOR on bytes: zero is neutral, XOR cancels itself, and the
/// XOR of two bits is a bit.
pub proof fn lemma_bit_xor_facts(a: u8, b: u8)
    by (bit_vector)
    ensures
        (a ^ 0) == a,
        ((a ^ b) ^ b) == a,
        a <= 1 && b <= 1 ==> (a ^ b) <= 1,
{
}

/// A sprite bit is a bit.
pub proof fn lemma_sprite_bit_bound(mem: Seq<u8>, i: int, x0: int, y0: int, n: int, p: int)
    ensures
        sprite_bit(mem, i, x0, y0, n, p) <= 1,
{
    let px = p % (VIDEO_WIDTH as int);
    let py = p / (VIDEO_WIDTH as int);
    let row = (py - y0) % (VIDEO_HEIGHT as int);
    let col = (px - x0) % (VIDEO_WIDTH as int);
    if row < n && col < 8 {
        let b: u8 = mem[(i + row) % (MEMORY_SIZE as int)];
        let sh: u8 = (7 - col) as u8;
        assert(((b >> sh) & 1) <= 1) by (bit_vector);
    }
}

/// Distinct sprite cells land on distinct framebuffer cells: a cell `p`
/// whose wrapped distances from the anchor are `row` and `col` is exactly
/// the cell the draw loop writes for that row and column.
pub proof fn lemma_sprite_cell_unique(x0: int, y0: int, row: int, col: int, p: int)
    requires
        0 <= p < VIDEO_SIZE,
        0 <= row < VIDEO_HEIGHT,
        0 <= col < VIDEO_WIDTH,
        0 <= x0,
        0 <= y0,
        (p / (VIDEO_WIDTH as int) - y0) % (VIDEO_HEIGHT as int) == row,
        (p % (VIDEO_WIDTH as int) - x0) % (VIDEO_WIDTH as int) == col,
    ensures
        p == ((y0 + row) % (VIDEO_HEIGHT as int)) * (VIDEO_WIDTH as int) + ((x0 + col) % (
        VIDEO_WIDTH as int)),
{
    let w = VIDEO_WIDTH as int;
    let h = VIDEO_HEIGHT as int;
    let py = p / w;
    let px = p % w;
    vstd::arithmetic::div_mod::lemma_fundamental_div_mod(p, w);
    assert(0 <= px < w);
    assert(0 <= py < h) by {
        if py >= h {
            assert(p == w * py + px);
            assert(w * py >= w * h) by (nonlinear_arith)
                requires
                    py >= h,
                    w > 0,
                    h > 0,
            ;
        }
        if py < 0 {
            assert(p == w * py + px);
            assert(w * py <= -w) by (nonlinear_arith)
                requires
                    py <= -1,
                    w > 0,
            ;
        }
    }
    lemma_mod_inverse(y0, py, h);
    lemma_mod_inverse(x0, px, w);
}

// ---------------------------------------------------------------------------
// Arithmetic of wrapped addresses.
// ---------------------------------------------------------------------------

/// Reading an offset back out of a wrapped address: for an offset below the
/// modulus, the wrapped address `(base + off) % m` stands at distance `off`
/// from `base`, modulo `m`.
pub proof fn lemma_mod_offset(base: int, off: int, m: int)
    requires
        0 < m,
        0 <= off < m,
    ensures
        (((base + off) % m) - base) % m == off,
{
    let t = (base + off) % m;
    let q = (base + off) / m;
    vstd::arithmetic::div_mod::lemma_fundamental_div_mod(base + off, m);
    assert(m * (-q) == -(m * q)) by (nonlinear_arith);
    assert(t - base == m * (-q) + off);
    vstd::arithmetic::div_mod::lemma_mod_multiples_vanish(-q, off, m);
    vstd::arithmetic::div_mod::lemma_small_mod(off as nat, m as nat);
}

/// A cell inside the modulus is recovered from its own wrapped distance:
/// `(base + ((p - base) % m)) % m == p` whenever `0 <= p < m`.
pub proof fn lemma_mod_inverse(base: int, p: int, m: int)
    requires
        0 < m,
        0 <= p < m,
    ensures
        (base + ((p - base) % m)) % m == p,
{
    let d = (p - base) % m;
    let q = (p - base) / m;
    vstd::arithmetic::div_mod::lemma_fundamental_div_mod(p - base, m);
    assert(m * (-q) == -(m * q)) by (nonlinear_arith);
    assert(base + d == m * (-q) + p);
    vstd::arithmetic::div_mod::lemma_mod_multiples_vanish(-q, p, m);
    vstd::arithmetic::div_mod::lemma_small_mod(p as nat, m as nat);
}

// ---------------------------------------------------------------------------
// Instruction semantics.  Each function below takes the state `s` as it
// stands after fetch: `s.opcode` holds the instruction and `s.pc` already
// points past it.
// ---------------------------------------------------------------------------

/// 00E0: clear the framebuffer and mark it dirty.
pub open spec fn sem_00e0(s: CpuView) -> CpuView {
    CpuView { fb: Seq::new(s.fb.len(), |p: int| 0u8), draw: true, ..s }
}

/// 00EE: pop the top return address into the program counter.
pub open spec fn sem_00ee(s: CpuView) -> CpuView {
    CpuView { pc: s.stack.last(), stack: s.stack.drop_last(), ..s }
}

/// 1nnn: jump.
pub open spec fn sem_1nnn(s: CpuView) -> CpuView {
    CpuView { pc: op_nnn(s.opcode), ..s }
}

/// 2nnn: call; the already-advanced program counter is pushed as the return
/// address.
pub open spec fn sem_2nnn(s: CpuView) -> CpuView {
    CpuView { stack: s.stack.push(s.pc), pc: op_nnn(s.opcode), ..s }
}

/// The program counter after skipping the next instruction (or not).
pub open spec fn skipped_pc(s: CpuView, skip: bool) -> u16 {
    if skip {
        (((s.pc as int) + 2) % 0x10000) as u16
    } else {
        s.pc
    }
}

/// 3xkk: skip if Vx equals kk.
pub open spec fn sem_3xkk(s: CpuView) -> CpuView {
    CpuView { pc: skipped_pc(s, s.regs[op_x(s.opcode)] == op_kk(s.opcode)), ..s }
}

/// 4xkk: skip if Vx differs from kk.
pub open spec fn sem_4xkk(s: CpuView) -> CpuView {
    CpuView { pc: skipped_pc(s, s.regs[op_x(s.opcode)] != op_kk(s.opcode)), ..s }
}

/// 5xy0: skip if Vx equals Vy.
pub open spec fn sem_5xy0(s: CpuView) -> CpuView {
    CpuView { pc: skipped_pc(s, s.regs[op_x(s.opcode)] == s.regs[op_y(s.opcode)]), ..s }
}

/// 9xy0: skip if Vx differs from Vy.
pub open spec fn sem_9xy0(s: CpuView) -> CpuView {
    CpuView { pc: skipped_pc(s, s.regs[op_x(s.opcode)] != s.regs[op_y(s.opcode)]), ..s }
}

/// 6xkk: load an immediate into Vx.
pub open spec fn sem_6xkk(s: CpuView) -> CpuView {
    CpuView { regs: s.regs.update(op_x(s.opcode), op_kk(s.opcode)), ..s }
}

/// 7xkk: add an immediate to Vx, wrapping, without touching VF.
pub open spec fn sem_7xkk(s: CpuView) -> CpuView {
    CpuView {
        regs: s.regs.update(
            op_x(s.opcode),
            ((s.regs[op_x(s.opcode)] + op_kk(s.opcode)) % 0x100) as u8,
        ),
        ..s
    }
}

/// 8xy0: copy Vy into Vx.
pub open spec fn sem_8xy0(s: CpuView) -> CpuView {
    CpuView { regs: s.regs.update(op_x(s.opcode), s.regs[op_y(s.opcode)]), ..s }
}

/// 8xy1: Vx OR Vy.
pub open spec fn sem_8xy1(s: CpuView) -> CpuView {
    CpuView {
        regs: s.regs.update(op_x(s.opcode), s.regs[op_x(s.opcode)] | s.regs[op_y(s.opcode)]),
        ..s
    }
}

/// 8xy2: Vx AND Vy.
pub open spec fn sem_8xy2(s: CpuView) -> CpuView {
    CpuView {
        regs: s.regs.update(op_x(s.opcode), s.regs[op_x(s.opcode)] & s.regs[op_y(s.opcode)]),
        ..s
    }
}

/// 8xy3: Vx XOR Vy.
pub open spec fn sem_8xy3(s: CpuView) -> CpuView {
    CpuView {
        regs: s.regs.update(op_x(s.opcode), s.regs[op_x(s.opcode)] ^ s.regs[op_y(s.opcode)]),
        ..s
    }
}

/// 8xy4: Vx plus Vy; VF becomes the carry.  Both operands are read before
/// either register is written, and the flag is written before the sum, so
/// that an x of F ends up holding the sum.
pub open spec fn sem_8xy4(s: CpuView) -> CpuView {
    let sum = s.regs[op_x(s.opcode)] + s.regs[op_y(s.opcode)];
    let flag: u8 = if sum > 255 {
        1u8
    } else {
        0u8
    };
    CpuView { regs: s.regs.update(0xF, flag).update(op_x(s.opcode), (sum % 0x100) as u8), ..s }
}

/// 8xy5: Vx minus Vy, wrapping; VF becomes 1 when there is no borrow
/// (Vx at least Vy).
pub open spec fn sem_8xy5(s: CpuView) -> CpuView {
    let diff = (s.regs[op_x(s.opcode)] - s.regs[op_y(s.opcode)]) % 0x100;
    let flag: u8 = if s.regs[op_x(s.opcode)] >= s.regs[op_y(s.opcode)] {
        1u8
    } else {
        0u8
    };
    CpuView { regs: s.regs.update(0xF, flag).update(op_x(s.opcode), diff as u8), ..s }
}

/// 8xy6: shift Vx right by one; VF receives the bit shifted out.  The second
/// operand register is accepted and ignored (the single-operand form).
pub open spec fn sem_8xy6(s: CpuView) -> CpuView {
    let flag: u8 = s.regs[op_x(s.opcode)] & 1;
    CpuView { regs: s.regs.update(0xF, flag).update(op_x(s.opcode), s.regs[op_x(s.opcode)] >> 1u8), ..s }
}

/// 8xy7: Vy minus Vx into Vx, wrapping; VF becomes 1 when there is no borrow
/// (Vy at least Vx).
pub open spec fn sem_8xy7(s: CpuView) -> CpuView {
    let diff = (s.regs[op_y(s.opcode)] - s.regs[op_x(s.opcode)]) % 0x100;
    let flag: u8 = if s.regs[op_y(s.opcode)] >= s.regs[op_x(s.opcode)] {
        1u8
    } else {
        0u8
    };
    CpuView { regs: s.regs.update(0xF, flag).update(op_x(s.opcode), diff as u8), ..s }
}

/// 8xyE: shift Vx left by one, truncating; VF receives the bit shifted out.
/// The second operand register is accepted and ignored.
pub open spec fn sem_8xye(s: CpuView) -> CpuView {
    let flag: u8 = s.regs[op_x(s.opcode)] >> 7u8;
    CpuView { regs: s.regs.update(0xF, flag).update(op_x(s.opcode), s.regs[op_x(s.opcode)] << 1u8), ..s }
}

/// Annn: load the index register, masked to the 12-bit address space.
pub open spec fn sem_annn(s: CpuView) -> CpuView {
    CpuView { index: op_nnn(s.opcode), ..s }
}

/// Bnnn: jump to V0 plus nnn, the full sum used as the target.
pub open spec fn sem_bnnn(s: CpuView) -> CpuView {
    CpuView { pc: (s.regs[0] + op_nnn(s.opcode)) as u16, ..s }
}

/// Cxkk: a byte from the random source, masked with kk, into Vx.
pub open spec fn sem_cxkk(s: CpuView, r: u8) -> CpuView {
    CpuView { regs: s.regs.update(op_x(s.opcode), r & op_kk(s.opcode)), ..s }
}

/// Dxyn: draw the n-row sprite at memory address I to position (Vx, Vy);
/// VF reports whether any lit cell was hit, the dirty flag is raised when
/// any cell changed.
pub open spec fn sem_dxyn(s: CpuView) -> CpuView {
    let x0 = s.regs[op_x(s.opcode)] as int;
    let y0 = s.regs[op_y(s.opcode)] as int;
    let n = op_n(s.opcode);
    let i = s.index as int;
    CpuView {
        regs: s.regs.update(
            0xF,
            if draw_collision(s.fb, s.mem, i, x0, y0, n) {
                1u8
            } else {
                0u8
            },
        ),
        fb: draw_fb(s.fb, s.mem, i, x0, y0, n),
        draw: s.draw || draw_changes(s.mem, i, x0, y0, n),
        ..s
    }
}

/// Ex9E: skip if the key named by the low nibble of Vx is pressed; the key
/// is consumed (cleared) afterwards, as a press is in the original design.
pub open spec fn sem_ex9e(s: CpuView) -> CpuView {
    let k = (s.regs[op_x(s.opcode)] & 0xF) as int;
    CpuView { pc: skipped_pc(s, s.keys[k] != 0), keys: s.keys.update(k, 0u8), ..s }
}

/// ExA1: skip if the key named by the low nibble of Vx is not pressed; the
/// key is consumed afterwards.
pub open spec fn sem_exa1(s: CpuView) -> CpuView {
    let k = (s.regs[op_x(s.opcode)] & 0xF) as int;
    CpuView { pc: skipped_pc(s, s.keys[k] == 0), keys: s.keys.update(k, 0u8), ..s }
}

/// Fx07: read the delay timer into Vx.
pub open spec fn sem_fx07(s: CpuView) -> CpuView {
    CpuView { regs: s.regs.update(op_x(s.opcode), s.delay), ..s }
}

/// Fx0A: wait for a key.  With a key pressed, the lowest-numbered pressed
/// key's index goes into Vx and execution proceeds; with none, the program
/// counter rolls back over this instruction so it runs again next cycle.
pub open spec fn sem_fx0a(s: CpuView) -> CpuView {
    let k = first_pressed_key(s.keys);
    if k < KEY_COUNT {
        CpuView { regs: s.regs.update(op_x(s.opcode), k as u8), ..s }
    } else {
        CpuView { pc: (((s.pc as int) - 2) % 0x10000) as u16, ..s }
    }
}

/// Fx15: load the delay timer from Vx.
pub open spec fn sem_fx15(s: CpuView) -> CpuView {
    CpuView { delay: s.regs[op_x(s.opcode)], ..s }
}

/// Fx18: load the sound timer from Vx.
pub open spec fn sem_fx18(s: CpuView) -> CpuView {
    CpuView { sound: s.regs[op_x(s.opcode)], ..s }
}

/// Fx1E: add Vx to the index register, wrapping modulo the memory size.
pub open spec fn sem_fx1e(s: CpuView) -> CpuView {
    CpuView { index: (((s.index + s.regs[op_x(s.opcode)]) as int % (MEMORY_SIZE as int)) as u16), ..s }
}

/// Fx29: point the index register at the glyph for the low nibble of Vx.
pub open spec fn sem_fx29(s: CpuView) -> CpuView {
    CpuView {
        index: ((FONTSET_BASE + GLYPH_BYTES * ((s.regs[op_x(s.opcode)] & 0xF) as int)) as u16),
        ..s
    }
}

/// Fx33: the three decimal digits of Vx into memory at I, I+1, I+2
/// (hundreds, tens, ones), addresses masked into the address space.
pub open spec fn sem_fx33(s: CpuView) -> CpuView {
    let v = s.regs[op_x(s.opcode)];
    let i = s.index as int;
    let m = MEMORY_SIZE as int;
    CpuView {
        mem: s.mem.update(i % m, v / 100).update((i + 1) % m, (v / 10) % 10).update(
            (i + 2) % m,
            v % 10,
        ),
        ..s
    }
}

/// Fx55: store V0 through Vx into memory from address I, addresses masked
/// into the address space.
pub open spec fn sem_fx55(s: CpuView) -> CpuView {
    let i = s.index as int;
    let m = MEMORY_SIZE as int;
    let x = op_x(s.opcode);
    CpuView {
        mem: Seq::new(
            s.mem.len(),
            |a: int|
                {
                    let j = (a - i) % m;
                    if j <= x {
                        s.regs[j]
                    } else {
                        s.mem[a]
                    }
                },
        ),
        ..s
    }
}

/// Fx65: load V0 through Vx from memory at address I, addresses masked into
/// the address space.
pub open spec fn sem_fx65(s: CpuView) -> CpuView {
    let i = s.index as int;
    let m = MEMORY_SIZE as int;
    let x = op_x(s.opcode);
    CpuView {
        regs: Seq::new(
            s.regs.len(),
            |j: int|
                if j <= x {
                    s.mem[(i + j) % m]
                } else {
                    s.regs[j]
                },
        ),
        ..s
    }
}

// ---------------------------------------------------------------------------
// The transition function.
// ---------------------------------------------------------------------------

/// One full cycle from state `pre`, with `r` the byte the random source
/// would hand a `Cxkk` instruction.  On an error the returned state is the
/// post-fetch state: the program counter has advanced and the opcode
/// register holds the offending word, but nothing else has changed.
pub open spec fn step(pre: CpuView, r: u8) -> Result<CpuView, EmuError> {
    let s = after_fetch(pre);
    let op = s.opcode;
    if op & 0xF000 == 0x0000 {
        if op & 0x00FF == 0xE0 {
            Ok(sem_00e0(s))
        } else if op & 0x00FF == 0xEE {
            if s.stack.len() == 0 {
                Err(EmuError::StackUnderflow { pc: pre.pc })
            } else {
                Ok(sem_00ee(s))
            }
        } else {
            Err(EmuError::UnknownOpcode { opcode: op, pc: pre.pc })
        }
    } else if op & 0xF000 == 0x1000 {
        Ok(sem_1nnn(s))
    } else if op & 0xF000 == 0x2000 {
        if s.stack.len() >= STACK_DEPTH {
            Err(EmuError::StackOverflow { pc: pre.pc })
        } else {
            Ok(sem_2nnn(s))
        }
    } else if op & 0xF000 == 0x3000 {
        Ok(sem_3xkk(s))
    } else if op & 0xF000 == 0x4000 {
        Ok(sem_4xkk(s))
    } else if op & 0xF000 == 0x5000 {
        Ok(sem_5xy0(s))
    } else if op & 0xF000 == 0x6000 {
        Ok(sem_6xkk(s))
    } else if op & 0xF000 == 0x7000 {
        Ok(sem_7xkk(s))
    } else if op & 0xF000 == 0x8000 {
        if op & 0x000F == 0x0 {
            Ok(sem_8xy0(s))
        } else if op & 0x000F == 0x1 {
            Ok(sem_8xy1(s))
        } else if op & 0x000F == 0x2 {
            Ok(sem_8xy2(s))
        } else if op & 0x000F == 0x3 {
            Ok(sem_8xy3(s))
        } else if op & 0x000F == 0x4 {
            Ok(sem_8xy4(s))
        } else if op & 0x000F == 0x5 {
            Ok(sem_8xy5(s))
        } else if op & 0x000F == 0x6 {
            Ok(sem_8xy6(s))
        } else if op & 0x000F == 0x7 {
            Ok(sem_8xy7(s))
        } else if op & 0x000F == 0xE {
            Ok(sem_8xye(s))
        } else {
            Err(EmuError::UnknownOpcode { opcode: op, pc: pre.pc })
        }
    } else if op & 0xF000 == 0x9000 {
        Ok(sem_9xy0(s))
    } else if op & 0xF000 == 0xA000 {
        Ok(sem_annn(s))
    } else if op & 0xF000 == 0xB000 {
        Ok(sem_bnnn(s))
    } else if op & 0xF000 == 0xC000 {
        Ok(sem_cxkk(s, r))
    } else if op & 0xF000 == 0xD000 {
        Ok(sem_dxyn(s))
    } else if op & 0xF000 == 0xE000 {
        if op & 0x00FF == 0x9E {
            Ok(sem_ex9e(s))
        } else if op & 0x00FF == 0xA1 {
            Ok(sem_exa1(s))
        } else {
            Err(EmuError::UnknownOpcode { opcode: op, pc: pre.pc })
        }
    } else if op & 0xF000 == 0xF000 {
        if op & 0x00FF == 0x07 {
            Ok(sem_fx07(s))
        } else if op & 0x00FF == 0x0A {
            Ok(sem_fx0a(s))
        } else if op & 0x00FF == 0x15 {
            Ok(sem_fx15(s))
        } else if op & 0x00FF == 0x18 {
            Ok(sem_fx18(s))
        } else if op & 0x00FF == 0x1E {
            Ok(sem_fx1e(s))
        } else if op & 0x00FF == 0x29 {
            Ok(sem_fx29(s))
        } else if op & 0x00FF == 0x33 {
            Ok(sem_fx33(s))
        } else if op & 0x00FF == 0x55 {
            Ok(sem_fx55(s))
        } else if op & 0x00FF == 0x65 {
            Ok(sem_fx65(s))
        } else {
            Err(EmuError::UnknownOpcode { opcode: op, pc: pre.pc })
        }
    } else {
        Err(EmuError::UnknownOpcode { opcode: op, pc: pre.pc })
    }
}

/// How one executed cycle relates a pre-state, the drawn random byte, the
/// post-state and the returned result: on success the post-state is exactly
/// the stepped state; on an error the machine stands at the post-fetch state
/// and the error is surfaced.
pub open spec fn step_outcome(
    pre: CpuView,
    r: u8,
    post: CpuView,
    res: Result<(), EmuError>,
) -> bool {
    match step(pre, r) {
        Ok(v) => res == Ok::<(), EmuError>(()) && post == v,
        Err(e) => res == Err::<(), EmuError>(e) && post == after_fetch(pre),
    }
}

/// Every instruction but `Cxkk` ignores the random byte.
pub proof fn lemma_step_ignores_random(pre: CpuView, r1: u8, r2: u8)
    requires
        !op_is_random(fetch_opcode(pre)),
    ensures
        step(pre, r1) == step(pre, r2),
{
}

} // verus!
