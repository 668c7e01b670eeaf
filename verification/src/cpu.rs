//! The executable interpreter, verified against the transition function in
//! `model`.

use vstd::prelude::*;
use vstd::pervasive::VecAdditionalExecFns;
use crate::font::{font_seq, font_vec};
use crate::model::{
    after_fetch, draw_changes, draw_collision, fetch_opcode, first_pressed_from,
    initial_view, inv, lemma_bit_xor_facts, lemma_low_nibble_bound, lemma_mod_inverse,
    lemma_mod_offset, lemma_op_field_bounds, lemma_sprite_bit_bound, lemma_sprite_cell_unique,
    lemma_step_ignores_random, load_effect, loaded_mem, op_is_random, sem_00e0, sem_00ee,
    sem_1nnn, sem_2nnn, sem_3xkk, sem_4xkk, sem_5xy0, sem_6xkk, sem_7xkk, sem_8xy0, sem_8xy1,
    sem_8xy2, sem_8xy3, sem_8xy4, sem_8xy5, sem_8xy6, sem_8xy7, sem_8xye, sem_9xy0, sem_annn,
    sem_bnnn, sem_cxkk, sem_dxyn, sem_ex9e, sem_exa1, sem_fx07, sem_fx0a, sem_fx15, sem_fx18,
    sem_fx1e, sem_fx29, sem_fx33, sem_fx55, sem_fx65, sprite_bit, sprite_bit_partial,
    step_outcome, ticked, CpuView, EmuError, FONTSET_BASE, FONTSET_BYTES, GLYPH_BYTES, KEY_COUNT,
    MEMORY_SIZE, REGISTER_COUNT, ROM_START, STACK_DEPTH, VIDEO_HEIGHT, VIDEO_SIZE, VIDEO_WIDTH,
};

verus! {

/// The CHIP-8 machine: all emulated state lives here.
pub struct Cpu {
    registers: Vec<u8>,
    memory: Vec<u8>,
    index: u16,
    pc: u16,
    stack: Vec<u16>,
    delay_timer: u8,
    sound_timer: u8,
    keyboard: Vec<u8>,
    display: Vec<u8>,
    opcode: u16,
    draw_flag: bool,
}

impl View for Cpu {
    type V = CpuView;

    closed spec fn view(&self) -> CpuView {
        CpuView {
            regs: self.registers@,
            mem: self.memory@,
            index: self.index,
            pc: self.pc,
            stack: self.stack@,
            delay: self.delay_timer,
            sound: self.sound_timer,
            keys: self.keyboard@,
            fb: self.display@,
            opcode: self.opcode,
            draw: self.draw_flag,
        }
    }
}

/// Relies on rand::random: one byte drawn from the thread-local generator.
/// Nothing is promised of its value.
#[verifier::external_body]
fn random_byte() -> u8 {
    rand::random::<u8>()
}

/// A vector of `n` zero bytes.
fn zero_bytes(n: usize) -> (v: Vec<u8>)
    ensures
        v@ == Seq::new(n as nat, |i: int| 0u8),
{
    let mut v: Vec<u8> = Vec::new();
    let mut i: usize = 0;
    while i < n
        invariant
            i <= n,
            v@.len() == i,
            forall|j: int| 0 <= j < i ==> v@[j] == 0u8,
        decreases n - i,
    {
        v.push(0);
        i += 1;
    }
    proof {
        assert(v@ =~= Seq::new(n as nat, |i: int| 0u8));
    }
    v
}

impl Cpu {
    /// Well-formedness of the machine state.
    pub open spec fn wf(&self) -> bool {
        inv(self@)
    }

    /// Builds a ready machine: state zeroed, fontset installed, program
    /// counter at the load address.
    pub fn new() -> (cpu: Cpu)
        ensures
            cpu.wf(),
            cpu@ == initial_view(),
    {
        let mut memory = zero_bytes(MEMORY_SIZE);
        let font = font_vec();
        let mut i: usize = 0;
        while i < FONTSET_BYTES
            invariant
                i <= FONTSET_BYTES,
                font@ == font_seq(),
                memory@.len() == MEMORY_SIZE,
                forall|a: int|
                    0 <= a < MEMORY_SIZE ==> memory@[a] == (if FONTSET_BASE <= a < FONTSET_BASE
                        + i {
                        font_seq()[a - FONTSET_BASE]
                    } else {
                        0u8
                    }),
            decreases FONTSET_BYTES - i,
        {
            memory.set(FONTSET_BASE + i, font[i]);
            i += 1;
        }
        let cpu = Cpu {
            registers: zero_bytes(REGISTER_COUNT),
            memory,
            index: 0,
            pc: ROM_START as u16,
            stack: Vec::new(),
            delay_timer: 0,
            sound_timer: 0,
            keyboard: zero_bytes(KEY_COUNT),
            display: zero_bytes(VIDEO_SIZE),
            opcode: 0,
            draw_flag: false,
        };
        proof {
            assert(cpu@ =~= initial_view());
        }
        cpu
    }

    /// Copies a program image into memory at the load address, after
    /// re-installing the fontset.  An image too large for the space between
    /// the load address and the end of memory is refused, and nothing is
    /// changed.
    pub fn load_rom(&mut self, rom: &Vec<u8>) -> (res: Result<(), EmuError>)
        requires
            old(self).wf(),
        ensures
            final(self).wf(),
            rom@.len() + ROM_START <= MEMORY_SIZE ==> res == Ok::<(), EmuError>(())
                && final(self)@ == load_effect(old(self)@, rom@),
            rom@.len() + ROM_START > MEMORY_SIZE ==> res == Err::<(), EmuError>(
                EmuError::OutOfBounds,
            ) && final(self)@ == old(self)@,
    {
        if rom.len() > MEMORY_SIZE - ROM_START {
            return Err(EmuError::OutOfBounds);
        }
        let font = font_vec();
        let mut i: usize = 0;
        while i < FONTSET_BYTES
            invariant
                i <= FONTSET_BYTES,
                font@ == font_seq(),
                self.memory@.len() == MEMORY_SIZE,
                forall|a: int|
                    0 <= a < MEMORY_SIZE ==> self.memory@[a] == (if FONTSET_BASE <= a
                        < FONTSET_BASE + i {
                        font_seq()[a - FONTSET_BASE]
                    } else {
                        old(self)@.mem[a]
                    }),
                self.registers == old(self).registers,
                self.index == old(self).index,
                self.pc == old(self).pc,
                self.stack == old(self).stack,
                self.delay_timer == old(self).delay_timer,
                self.sound_timer == old(self).sound_timer,
                self.keyboard == old(self).keyboard,
                self.display == old(self).display,
                self.opcode == old(self).opcode,
                self.draw_flag == old(self).draw_flag,
            decreases FONTSET_BYTES - i,
        {
            self.memory.set(FONTSET_BASE + i, font[i]);
            i += 1;
        }
        let mut k: usize = 0;
        while k < rom.len()
            invariant
                k <= rom.len(),
                rom@.len() + ROM_START <= MEMORY_SIZE,
                self.memory@.len() == MEMORY_SIZE,
                forall|a: int|
                    0 <= a < MEMORY_SIZE ==> self.memory@[a] == (if ROM_START <= a < ROM_START
                        + k {
                        rom@[a - ROM_START]
                    } else if FONTSET_BASE <= a < FONTSET_BASE + FONTSET_BYTES {
                        font_seq()[a - FONTSET_BASE]
                    } else {
                        old(self)@.mem[a]
                    }),
                self.registers == old(self).registers,
                self.index == old(self).index,
                self.pc == old(self).pc,
                self.stack == old(self).stack,
                self.delay_timer == old(self).delay_timer,
                self.sound_timer == old(self).sound_timer,
                self.keyboard == old(self).keyboard,
                self.display == old(self).display,
                self.opcode == old(self).opcode,
                self.draw_flag == old(self).draw_flag,
            decreases rom.len() - k,
        {
            self.memory.set(ROM_START + k, rom[k]);
            k += 1;
        }
        proof {
            assert(self@.mem =~= loaded_mem(old(self)@.mem, rom@));
            assert(self@ =~= load_effect(old(self)@, rom@));
        }
        Ok(())
    }

    /// 00E0: clear the framebuffer and mark it dirty.
    fn op_00e0(&mut self)
        requires
            old(self).wf(),
        ensures
            final(self).wf(),
            final(self)@ == sem_00e0(old(self)@),
    {
        let mut p: usize = 0;
        while p < VIDEO_SIZE
            invariant
                old(self).wf(),
                p <= VIDEO_SIZE,
                self.display@.len() == VIDEO_SIZE,
                forall|q: int| 0 <= q < p ==> self.display@[q] == 0u8,
                forall|q: int| p <= q < VIDEO_SIZE ==> self.display@[q] == old(self).display@[q],
                self.registers == old(self).registers,
                self.memory == old(self).memory,
                self.index == old(self).index,
                self.pc == old(self).pc,
                self.stack == old(self).stack,
                self.delay_timer == old(self).delay_timer,
                self.sound_timer == old(self).sound_timer,
                self.keyboard == old(self).keyboard,
                self.opcode == old(self).opcode,
            decreases VIDEO_SIZE - p,
        {
            self.display.set(p, 0);
            p += 1;
        }
        self.draw_flag = true;
        proof {
            assert(self@ =~= sem_00e0(old(self)@));
        }
    }

    /// 00EE: return from a subroutine.
    fn op_00ee(&mut self)
        requires
            old(self).wf(),
            old(self)@.stack.len() > 0,
        ensures
            final(self).wf(),
            final(self)@ == sem_00ee(old(self)@),
    {
        let addr = self.stack.pop().unwrap();
        self.pc = addr;
        proof {
            assert(self@ =~= sem_00ee(old(self)@));
        }
    }

    /// 1nnn: jump.
    fn op_1nnn(&mut self)
        requires
            old(self).wf(),
        ensures
            final(self).wf(),
            final(self)@ == sem_1nnn(old(self)@),
    {
        self.pc = self.opcode & 0xFFF;
    }

    /// 2nnn: call a subroutine.
    fn op_2nnn(&mut self)
        requires
            old(self).wf(),
            old(self)@.stack.len() < STACK_DEPTH,
        ensures
            final(self).wf(),
            final(self)@ == sem_2nnn(old(self)@),
    {
        self.stack.push(self.pc);
        self.pc = self.opcode & 0xFFF;
        proof {
            assert(self@ =~= sem_2nnn(old(self)@));
        }
    }

    /// 3xkk: skip the next instruction if Vx equals kk.
    fn op_3xkk(&mut self)
        requires
            old(self).wf(),
        ensures
            final(self).wf(),
            final(self)@ == sem_3xkk(old(self)@),
    {
        proof {
            lemma_op_field_bounds(self.opcode);
        }
        let x = ((self.opcode >> 8) & 0xF) as usize;
        let kk = (self.opcode & 0xFF) as u8;
        if self.registers[x] == kk {
            self.pc = self.pc.wrapping_add(2);
        }
    }

    /// 4xkk: skip the next instruction if Vx differs from kk.
    fn op_4xkk(&mut self)
        requires
            old(self).wf(),
        ensures
            final(self).wf(),
            final(self)@ == sem_4xkk(old(self)@),
    {
        proof {
            lemma_op_field_bounds(self.opcode);
        }
        let x = ((self.opcode >> 8) & 0xF) as usize;
        let kk = (self.opcode & 0xFF) as u8;
        if self.registers[x] != kk {
            self.pc = self.pc.wrapping_add(2);
        }
    }

    /// 5xy0: skip the next instruction if Vx equals Vy.
    fn op_5xy0(&mut self)
        requires
            old(self).wf(),
        ensures
            final(self).wf(),
            final(self)@ == sem_5xy0(old(self)@),
    {
        proof {
            lemma_op_field_bounds(self.opcode);
        }
        let x = ((self.opcode >> 8) & 0xF) as usize;
        let y = ((self.opcode >> 4) & 0xF) as usize;
        if self.registers[x] == self.registers[y] {
            self.pc = self.pc.wrapping_add(2);
        }
    }

    /// 9xy0: skip the next instruction if Vx differs from Vy.
    fn op_9xy0(&mut self)
        requires
            old(self).wf(),
        ensures
            final(self).wf(),
            final(self)@ == sem_9xy0(old(self)@),
    {
        proof {
            lemma_op_field_bounds(self.opcode);
        }
        let x = ((self.opcode >> 8) & 0xF) as usize;
        let y = ((self.opcode >> 4) & 0xF) as usize;
        if self.registers[x] != self.registers[y] {
            self.pc = self.pc.wrapping_add(2);
        }
    }

    /// 6xkk: load an immediate into Vx.
    fn op_6xkk(&mut self)
        requires
            old(self).wf(),
        ensures
            final(self).wf(),
            final(self)@ == sem_6xkk(old(self)@),
    {
        proof {
            lemma_op_field_bounds(self.opcode);
        }
        let x = ((self.opcode >> 8) & 0xF) as usize;
        let kk = (self.opcode & 0xFF) as u8;
        self.registers.set(x, kk);
    }

    /// 7xkk: add an immediate to Vx, wrapping; VF is untouched.
    fn op_7xkk(&mut self)
        requires
            old(self).wf(),
        ensures
            final(self).wf(),
            final(self)@ == sem_7xkk(old(self)@),
    {
        proof {
            lemma_op_field_bounds(self.opcode);
        }
        let x = ((self.opcode >> 8) & 0xF) as usize;
        let kk = (self.opcode & 0xFF) as u8;
        let sum = (self.registers[x] as u16 + kk as u16) % 0x100;
        self.registers.set(x, sum as u8);
    }

    /// 8xy0: copy Vy into Vx.
    fn op_8xy0(&mut self)
        requires
            old(self).wf(),
        ensures
            final(self).wf(),
            final(self)@ == sem_8xy0(old(self)@),
    {
        proof {
            lemma_op_field_bounds(self.opcode);
        }
        let x = ((self.opcode >> 8) & 0xF) as usize;
        let y = ((self.opcode >> 4) & 0xF) as usize;
        let vy = self.registers[y];
        self.registers.set(x, vy);
    }

    /// 8xy1: Vx OR Vy.
    fn op_8xy1(&mut self)
        requires
            old(self).wf(),
        ensures
            final(self).wf(),
            final(self)@ == sem_8xy1(old(self)@),
    {
        proof {
            lemma_op_field_bounds(self.opcode);
        }
        let x = ((self.opcode >> 8) & 0xF) as usize;
        let y = ((self.opcode >> 4) & 0xF) as usize;
        let v = self.registers[x] | self.registers[y];
        self.registers.set(x, v);
    }

    /// 8xy2: Vx AND Vy.
    fn op_8xy2(&mut self)
        requires
            old(self).wf(),
        ensures
            final(self).wf(),
            final(self)@ == sem_8xy2(old(self)@),
    {
        proof {
            lemma_op_field_bounds(self.opcode);
        }
        let x = ((self.opcode >> 8) & 0xF) as usize;
        let y = ((self.opcode >> 4) & 0xF) as usize;
        let v = self.registers[x] & self.registers[y];
        self.registers.set(x, v);
    }

    /// 8xy3: Vx XOR Vy.
    fn op_8xy3(&mut self)
        requires
            old(self).wf(),
        ensures
            final(self).wf(),
            final(self)@ == sem_8xy3(old(self)@),
    {
        proof {
            lemma_op_field_bounds(self.opcode);
        }
        let x = ((self.opcode >> 8) & 0xF) as usize;
        let y = ((self.opcode >> 4) & 0xF) as usize;
        let v = self.registers[x] ^ self.registers[y];
        self.registers.set(x, v);
    }

    /// 8xy4: Vx plus Vy with VF as the carry flag.  Operands are read before
    /// the flag is written, the flag before the sum, so an x of F keeps the
    /// sum.
    fn op_8xy4(&mut self)
        requires
            old(self).wf(),
        ensures
            final(self).wf(),
            final(self)@ == sem_8xy4(old(self)@),
    {
        proof {
            lemma_op_field_bounds(self.opcode);
        }
        let x = ((self.opcode >> 8) & 0xF) as usize;
        let y = ((self.opcode >> 4) & 0xF) as usize;
        let sum = self.registers[x] as u16 + self.registers[y] as u16;
        let flag: u8 = if sum > 255 {
            1
        } else {
            0
        };
        self.registers.set(0xF, flag);
        self.registers.set(x, (sum % 0x100) as u8);
    }

    /// 8xy5: Vx minus Vy, wrapping, with VF as the no-borrow flag.
    fn op_8xy5(&mut self)
        requires
            old(self).wf(),
        ensures
            final(self).wf(),
            final(self)@ == sem_8xy5(old(self)@),
    {
        proof {
            lemma_op_field_bounds(self.opcode);
        }
        let x = ((self.opcode >> 8) & 0xF) as usize;
        let y = ((self.opcode >> 4) & 0xF) as usize;
        let vx = self.registers[x];
        let vy = self.registers[y];
        let flag: u8 = if vx >= vy {
            1
        } else {
            0
        };
        self.registers.set(0xF, flag);
        self.registers.set(x, vx.wrapping_sub(vy));
    }

    /// 8xy6: shift Vx right by one; VF takes the bit shifted out.
    fn op_8xy6(&mut self)
        requires
            old(self).wf(),
        ensures
            final(self).wf(),
            final(self)@ == sem_8xy6(old(self)@),
    {
        proof {
            lemma_op_field_bounds(self.opcode);
        }
        let x = ((self.opcode >> 8) & 0xF) as usize;
        let vx = self.registers[x];
        let flag: u8 = vx & 1;
        self.registers.set(0xF, flag);
        self.registers.set(x, vx >> 1u8);
    }

    /// 8xy7: Vy minus Vx into Vx, wrapping, with VF as the no-borrow flag.
    fn op_8xy7(&mut self)
        requires
            old(self).wf(),
        ensures
            final(self).wf(),
            final(self)@ == sem_8xy7(old(self)@),
    {
        proof {
            lemma_op_field_bounds(self.opcode);
        }
        let x = ((self.opcode >> 8) & 0xF) as usize;
        let y = ((self.opcode >> 4) & 0xF) as usize;
        let vx = self.registers[x];
        let vy = self.registers[y];
        let flag: u8 = if vy >= vx {
            1
        } else {
            0
        };
        self.registers.set(0xF, flag);
        self.registers.set(x, vy.wrapping_sub(vx));
    }

    /// 8xyE: shift Vx left by one, truncating; VF takes the bit shifted out.
    fn op_8xye(&mut self)
        requires
            old(self).wf(),
        ensures
            final(self).wf(),
            final(self)@ == sem_8xye(old(self)@),
    {
        proof {
            lemma_op_field_bounds(self.opcode);
        }
        let x = ((self.opcode >> 8) & 0xF) as usize;
        let vx = self.registers[x];
        let flag: u8 = vx >> 7u8;
        self.registers.set(0xF, flag);
        self.registers.set(x, vx << 1u8);
    }

    /// Annn: load the index register.
    fn op_annn(&mut self)
        requires
            old(self).wf(),
        ensures
            final(self).wf(),
            final(self)@ == sem_annn(old(self)@),
    {
        proof {
            lemma_op_field_bounds(self.opcode);
        }
        self.index = self.opcode & 0xFFF;
    }

    /// Bnnn: jump to V0 plus nnn.
    fn op_bnnn(&mut self)
        requires
            old(self).wf(),
        ensures
            final(self).wf(),
            final(self)@ == sem_bnnn(old(self)@),
    {
        proof {
            lemma_op_field_bounds(self.opcode);
        }
        self.pc = self.registers[0] as u16 + (self.opcode & 0xFFF);
    }

    /// Cxkk: a byte from the random source, masked with kk, into Vx.
    fn op_cxkk(&mut self, r: u8)
        requires
            old(self).wf(),
        ensures
            final(self).wf(),
            final(self)@ == sem_cxkk(old(self)@, r),
    {
        proof {
            lemma_op_field_bounds(self.opcode);
        }
        let x = ((self.opcode >> 8) & 0xF) as usize;
        let kk = (self.opcode & 0xFF) as u8;
        self.registers.set(x, r & kk);
    }

    /// Fx07: read the delay timer into Vx.
    fn op_fx07(&mut self)
        requires
            old(self).wf(),
        ensures
            final(self).wf(),
            final(self)@ == sem_fx07(old(self)@),
    {
        proof {
            lemma_op_field_bounds(self.opcode);
        }
        let x = ((self.opcode >> 8) & 0xF) as usize;
        let d = self.delay_timer;
        self.registers.set(x, d);
    }

    /// Fx15: load the delay timer from Vx.
    fn op_fx15(&mut self)
        requires
            old(self).wf(),
        ensures
            final(self).wf(),
            final(self)@ == sem_fx15(old(self)@),
    {
        proof {
            lemma_op_field_bounds(self.opcode);
        }
        let x = ((self.opcode >> 8) & 0xF) as usize;
        self.delay_timer = self.registers[x];
    }

    /// Fx18: load the sound timer from Vx.
    fn op_fx18(&mut self)
        requires
            old(self).wf(),
        ensures
            final(self).wf(),
            final(self)@ == sem_fx18(old(self)@),
    {
        proof {
            lemma_op_field_bounds(self.opcode);
        }
        let x = ((self.opcode >> 8) & 0xF) as usize;
        self.sound_timer = self.registers[x];
    }

    /// Fx1E: add Vx to the index register, wrapping modulo the memory size.
    fn op_fx1e(&mut self)
        requires
            old(self).wf(),
        ensures
            final(self).wf(),
            final(self)@ == sem_fx1e(old(self)@),
    {
        proof {
            lemma_op_field_bounds(self.opcode);
        }
        let x = ((self.opcode >> 8) & 0xF) as usize;
        self.index = ((self.index as usize + self.registers[x] as usize) % MEMORY_SIZE) as u16;
    }

    /// Fx29: point the index register at the glyph for the low nibble of Vx.
    fn op_fx29(&mut self)
        requires
            old(self).wf(),
        ensures
            final(self).wf(),
            final(self)@ == sem_fx29(old(self)@),
    {
        proof {
            lemma_op_field_bounds(self.opcode);
        }
        let x = ((self.opcode >> 8) & 0xF) as usize;
        let digit = self.registers[x] & 0xF;
        proof {
            lemma_low_nibble_bound(self.registers@[x as int]);
            assert(digit < 16);
            assert((GLYPH_BYTES as u16) * (digit as u16) <= 75) by (nonlinear_arith)
                requires
                    digit < 16,
            ;
        }
        self.index = (FONTSET_BASE as u16) + (GLYPH_BYTES as u16) * (digit as u16);
    }

    /// Fx33: store the decimal digits of Vx at I, I+1, I+2.
    fn op_fx33(&mut self)
        requires
            old(self).wf(),
        ensures
            final(self).wf(),
            final(self)@ == sem_fx33(old(self)@),
    {
        proof {
            lemma_op_field_bounds(self.opcode);
        }
        let x = ((self.opcode >> 8) & 0xF) as usize;
        let v = self.registers[x];
        let i = self.index as usize;
        self.memory.set(i % MEMORY_SIZE, v / 100);
        self.memory.set((i + 1) % MEMORY_SIZE, (v / 10) % 10);
        self.memory.set((i + 2) % MEMORY_SIZE, v % 10);
    }

    /// Dxyn: draw an n-row sprite read from memory at I to screen position
    /// (Vx, Vy), wrapping at both edges; VF reports a collision with a lit
    /// cell, and the dirty flag is raised when any cell changed.
    #[verifier::rlimit(80)]
    fn op_dxyn(&mut self)
        requires
            old(self).wf(),
        ensures
            final(self).wf(),
            final(self)@ == sem_dxyn(old(self)@),
    {
        proof {
            lemma_op_field_bounds(self.opcode);
        }
        let x = ((self.opcode >> 8) & 0xF) as usize;
        let y = ((self.opcode >> 4) & 0xF) as usize;
        let n = (self.opcode & 0xF) as usize;
        let x0 = self.registers[x] as usize;
        let y0 = self.registers[y] as usize;
        let i = self.index as usize;
        let ghost fb0 = old(self)@.fb;
        let ghost mem0 = old(self)@.mem;
        let mut collided = false;
        let mut changed = false;
        let mut row: usize = 0;
        proof {
            assert forall|p: int|
                0 <= p < VIDEO_SIZE implies #[trigger] self.display@[p] == (fb0[p]
                    ^ sprite_bit_partial(
                    mem0,
                    i as int,
                    x0 as int,
                    y0 as int,
                    n as int,
                    0,
                    0,
                    p,
                )) by {
                lemma_bit_xor_facts(fb0[p], 0);
            }
        }
        while row < n
            invariant
                old(self).wf(),
                n < 16,
                x0 == old(self)@.regs[x as int],
                y0 == old(self)@.regs[y as int],
                i == old(self)@.index,
                i < MEMORY_SIZE,
                fb0 == old(self)@.fb,
                mem0 == old(self)@.mem,
                row <= n,
                self.display@.len() == VIDEO_SIZE,
                forall|p: int|
                    0 <= p < VIDEO_SIZE ==> #[trigger] self.display@[p] == (fb0[p]
                        ^ sprite_bit_partial(
                        mem0,
                        i as int,
                        x0 as int,
                        y0 as int,
                        n as int,
                        row as int,
                        0,
                        p,
                    )),
                collided <==> (exists|p: int|
                    0 <= p < VIDEO_SIZE && fb0[p] == 1 && #[trigger] sprite_bit_partial(
                        mem0,
                        i as int,
                        x0 as int,
                        y0 as int,
                        n as int,
                        row as int,
                        0,
                        p,
                    ) == 1),
                changed <==> (exists|p: int|
                    0 <= p < VIDEO_SIZE && #[trigger] sprite_bit_partial(
                        mem0,
                        i as int,
                        x0 as int,
                        y0 as int,
                        n as int,
                        row as int,
                        0,
                        p,
                    ) == 1),
                self.registers == old(self).registers,
                self.memory == old(self).memory,
                self.index == old(self).index,
                self.pc == old(self).pc,
                self.stack == old(self).stack,
                self.delay_timer == old(self).delay_timer,
                self.sound_timer == old(self).sound_timer,
                self.keyboard == old(self).keyboard,
                self.opcode == old(self).opcode,
                self.draw_flag == old(self).draw_flag,
            decreases n - row,
        {
            let sprite_byte = self.memory[(i + row) % MEMORY_SIZE];
            let sy = (y0 + row) % VIDEO_HEIGHT;
            let mut col: usize = 0;
            while col < 8
                invariant
                    old(self).wf(),
                    n < 16,
                    x0 == old(self)@.regs[x as int],
                    y0 == old(self)@.regs[y as int],
                    i == old(self)@.index,
                    i < MEMORY_SIZE,
                    fb0 == old(self)@.fb,
                    mem0 == old(self)@.mem,
                    row < n,
                    col <= 8,
                    sy == (y0 + row) % (VIDEO_HEIGHT as int),
                    sprite_byte == old(self)@.mem[((i + row) as int) % (MEMORY_SIZE as int)],
                    self.display@.len() == VIDEO_SIZE,
                    forall|p: int|
                        0 <= p < VIDEO_SIZE ==> #[trigger] self.display@[p] == (fb0[p]
                            ^ sprite_bit_partial(
                            mem0,
                            i as int,
                            x0 as int,
                            y0 as int,
                            n as int,
                            row as int,
                            col as int,
                            p,
                        )),
                    collided <==> (exists|p: int|
                        0 <= p < VIDEO_SIZE && fb0[p] == 1 && #[trigger] sprite_bit_partial(
                            mem0,
                            i as int,
                            x0 as int,
                            y0 as int,
                            n as int,
                            row as int,
                            col as int,
                            p,
                        ) == 1),
                    changed <==> (exists|p: int|
                        0 <= p < VIDEO_SIZE && #[trigger] sprite_bit_partial(
                            mem0,
                            i as int,
                            x0 as int,
                            y0 as int,
                            n as int,
                            row as int,
                            col as int,
                            p,
                        ) == 1),
                    self.registers == old(self).registers,
                    self.memory == old(self).memory,
                    self.index == old(self).index,
                    self.pc == old(self).pc,
                    self.stack == old(self).stack,
                    self.delay_timer == old(self).delay_timer,
                    self.sound_timer == old(self).sound_timer,
                    self.keyboard == old(self).keyboard,
                    self.opcode == old(self).opcode,
                    self.draw_flag == old(self).draw_flag,
                decreases 8 - col,
            {
                let sx = (x0 + col) % VIDEO_WIDTH;
                let idx = sy * VIDEO_WIDTH + sx;
                let bit = (sprite_byte >> ((7 - col) as u8)) & 1;
                let ghost collided0 = collided;
                let ghost changed0 = changed;
                let ghost d0 = self.display@;
                let ghost ii = i as int;
                let ghost xx0 = x0 as int;
                let ghost yy0 = y0 as int;
                let ghost nn = n as int;
                let ghost rr = row as int;
                let ghost cc = col as int;
                if bit == 1 {
                    changed = true;
                    if self.display[idx] == 1 {
                        collided = true;
                    }
                }
                let cell = self.display[idx] ^ bit;
                self.display.set(idx, cell);
                proof {
                    let w = VIDEO_WIDTH as int;
                    let h = VIDEO_HEIGHT as int;
                    let m = MEMORY_SIZE as int;
                    vstd::arithmetic::div_mod::lemma_fundamental_div_mod_converse_mod(
                        idx as int,
                        w,
                        sy as int,
                        sx as int,
                    );
                    vstd::arithmetic::div_mod::lemma_fundamental_div_mod_converse_div(
                        idx as int,
                        w,
                        sy as int,
                        sx as int,
                    );
                    lemma_mod_offset(yy0, rr, h);
                    lemma_mod_offset(xx0, cc, w);
                    assert(sprite_bit_partial(mem0, ii, xx0, yy0, nn, rr, cc, idx as int) == 0);
                    assert(sprite_bit_partial(mem0, ii, xx0, yy0, nn, rr, cc + 1, idx as int)
                        == bit);
                    assert(d0[idx as int] == fb0[idx as int] ^ 0) by {
                        assert(d0[idx as int] == fb0[idx as int] ^ sprite_bit_partial(
                            mem0,
                            ii,
                            xx0,
                            yy0,
                            nn,
                            rr,
                            cc,
                            idx as int,
                        ));
                    }
                    lemma_bit_xor_facts(fb0[idx as int], bit);
                    assert(d0[idx as int] == fb0[idx as int]);
                    assert forall|p: int|
                        0 <= p < VIDEO_SIZE && p != idx as int implies sprite_bit_partial(
                        mem0,
                        ii,
                        xx0,
                        yy0,
                        nn,
                        rr,
                        cc + 1,
                        p,
                    ) == sprite_bit_partial(mem0, ii, xx0, yy0, nn, rr, cc, p) by {
                        let prow = (p / w - yy0) % h;
                        let pcol = (p % w - xx0) % w;
                        if prow == rr && pcol == cc {
                            lemma_sprite_cell_unique(xx0, yy0, rr, cc, p);
                            assert(false);
                        }
                    }
                    assert forall|p: int|
                        0 <= p < VIDEO_SIZE implies #[trigger] self.display@[p] == (fb0[p]
                            ^ sprite_bit_partial(mem0, ii, xx0, yy0, nn, rr, cc + 1, p)) by {
                        if p == idx as int {
                            assert(self.display@[p] == fb0[p] ^ bit);
                        } else {
                            assert(self.display@[p] == d0[p]);
                        }
                    }
                    assert(collided <==> (exists|p: int|
                        0 <= p < VIDEO_SIZE && fb0[p] == 1 && #[trigger] sprite_bit_partial(
                            mem0,
                            ii,
                            xx0,
                            yy0,
                            nn,
                            rr,
                            cc + 1,
                            p,
                        ) == 1)) by {
                        if collided {
                            if collided0 {
                                let pw = choose|p: int|
                                    0 <= p < VIDEO_SIZE && fb0[p] == 1 && #[trigger] sprite_bit_partial(
                                        mem0,
                                        ii,
                                        xx0,
                                        yy0,
                                        nn,
                                        rr,
                                        cc,
                                        p,
                                    ) == 1;
                                assert(sprite_bit_partial(mem0, ii, xx0, yy0, nn, rr, cc + 1, pw)
                                    == 1);
                            } else {
                                assert(fb0[idx as int] == 1 && sprite_bit_partial(
                                    mem0,
                                    ii,
                                    xx0,
                                    yy0,
                                    nn,
                                    rr,
                                    cc + 1,
                                    idx as int,
                                ) == 1);
                            }
                        }
                        if exists|p: int|
                            0 <= p < VIDEO_SIZE && fb0[p] == 1 && #[trigger] sprite_bit_partial(
                                mem0,
                                ii,
                                xx0,
                                yy0,
                                nn,
                                rr,
                                cc + 1,
                                p,
                            ) == 1 {
                            let pw = choose|p: int|
                                0 <= p < VIDEO_SIZE && fb0[p] == 1 && #[trigger] sprite_bit_partial(
                                    mem0,
                                    ii,
                                    xx0,
                                    yy0,
                                    nn,
                                    rr,
                                    cc + 1,
                                    p,
                                ) == 1;
                            if pw == idx as int {
                                assert(bit == 1);
                                assert(d0[idx as int] == 1);
                            } else {
                                assert(sprite_bit_partial(mem0, ii, xx0, yy0, nn, rr, cc, pw)
                                    == 1);
                            }
                            assert(collided);
                        }
                    }
                    assert(changed <==> (exists|p: int|
                        0 <= p < VIDEO_SIZE && #[trigger] sprite_bit_partial(
                            mem0,
                            ii,
                            xx0,
                            yy0,
                            nn,
                            rr,
                            cc + 1,
                            p,
                        ) == 1)) by {
                        if changed {
                            if changed0 {
                                let pw = choose|p: int|
                                    0 <= p < VIDEO_SIZE && #[trigger] sprite_bit_partial(
                                        mem0,
                                        ii,
                                        xx0,
                                        yy0,
                                        nn,
                                        rr,
                                        cc,
                                        p,
                                    ) == 1;
                                assert(sprite_bit_partial(mem0, ii, xx0, yy0, nn, rr, cc + 1, pw)
                                    == 1);
                            } else {
                                assert(sprite_bit_partial(mem0, ii, xx0, yy0, nn, rr, cc + 1, idx as int)
                                    == 1);
                            }
                        }
                        if exists|p: int|
                            0 <= p < VIDEO_SIZE && #[trigger] sprite_bit_partial(
                                mem0,
                                ii,
                                xx0,
                                yy0,
                                nn,
                                rr,
                                cc + 1,
                                p,
                            ) == 1 {
                            let pw = choose|p: int|
                                0 <= p < VIDEO_SIZE && #[trigger] sprite_bit_partial(
                                    mem0,
                                    ii,
                                    xx0,
                                    yy0,
                                    nn,
                                    rr,
                                    cc + 1,
                                    p,
                                ) == 1;
                            if pw == idx as int {
                                assert(bit == 1);
                            } else {
                                assert(sprite_bit_partial(mem0, ii, xx0, yy0, nn, rr, cc, pw)
                                    == 1);
                            }
                            assert(changed);
                        }
                    }
                }
                col += 1;
            }
            proof {
                let ii = i as int;
                let xx0 = x0 as int;
                let yy0 = y0 as int;
                let nn = n as int;
                let rr = row as int;
                assert forall|p: int|
                    0 <= p < VIDEO_SIZE implies #[trigger] sprite_bit_partial(
                    mem0,
                    ii,
                    xx0,
                    yy0,
                    nn,
                    rr,
                    8,
                    p,
                ) == sprite_bit_partial(mem0, ii, xx0, yy0, nn, rr + 1, 0, p) by {}
                assert(collided <==> (exists|p: int|
                    0 <= p < VIDEO_SIZE && fb0[p] == 1 && #[trigger] sprite_bit_partial(
                        mem0,
                        ii,
                        xx0,
                        yy0,
                        nn,
                        rr + 1,
                        0,
                        p,
                    ) == 1)) by {
                    if collided {
                        let pw = choose|p: int|
                            0 <= p < VIDEO_SIZE && fb0[p] == 1 && #[trigger] sprite_bit_partial(
                                mem0,
                                ii,
                                xx0,
                                yy0,
                                nn,
                                rr,
                                8,
                                p,
                            ) == 1;
                        assert(sprite_bit_partial(mem0, ii, xx0, yy0, nn, rr + 1, 0, pw) == 1);
                    }
                    if exists|p: int|
                        0 <= p < VIDEO_SIZE && fb0[p] == 1 && #[trigger] sprite_bit_partial(
                            mem0,
                            ii,
                            xx0,
                            yy0,
                            nn,
                            rr + 1,
                            0,
                            p,
                        ) == 1 {
                        let pw = choose|p: int|
                            0 <= p < VIDEO_SIZE && fb0[p] == 1 && #[trigger] sprite_bit_partial(
                                mem0,
                                ii,
                                xx0,
                                yy0,
                                nn,
                                rr + 1,
                                0,
                                p,
                            ) == 1;
                        assert(sprite_bit_partial(mem0, ii, xx0, yy0, nn, rr, 8, pw) == 1);
                    }
                }
                assert(changed <==> (exists|p: int|
                    0 <= p < VIDEO_SIZE && #[trigger] sprite_bit_partial(
                        mem0,
                        ii,
                        xx0,
                        yy0,
                        nn,
                        rr + 1,
                        0,
                        p,
                    ) == 1)) by {
                    if changed {
                        let pw = choose|p: int|
                            0 <= p < VIDEO_SIZE && #[trigger] sprite_bit_partial(
                                mem0,
                                ii,
                                xx0,
                                yy0,
                                nn,
                                rr,
                                8,
                                p,
                            ) == 1;
                        assert(sprite_bit_partial(mem0, ii, xx0, yy0, nn, rr + 1, 0, pw) == 1);
                    }
                    if exists|p: int|
                        0 <= p < VIDEO_SIZE && #[trigger] sprite_bit_partial(
                            mem0,
                            ii,
                            xx0,
                            yy0,
                            nn,
                            rr + 1,
                            0,
                            p,
                        ) == 1 {
                        let pw = choose|p: int|
                            0 <= p < VIDEO_SIZE && #[trigger] sprite_bit_partial(
                                mem0,
                                ii,
                                xx0,
                                yy0,
                                nn,
                                rr + 1,
                                0,
                                p,
                            ) == 1;
                        assert(sprite_bit_partial(mem0, ii, xx0, yy0, nn, rr, 8, pw) == 1);
                    }
                }
            }
            row += 1;
        }
        self.registers.set(0xF, if collided {
            1
        } else {
            0
        });
        if changed {
            self.draw_flag = true;
        }
        proof {
            let ii = i as int;
            let xx0 = x0 as int;
            let yy0 = y0 as int;
            let nn = n as int;
            assert forall|p: int|
                0 <= p < VIDEO_SIZE implies sprite_bit_partial(mem0, ii, xx0, yy0, nn, nn, 0, p)
                == sprite_bit(mem0, ii, xx0, yy0, nn, p) by {}
            assert(self@.fb =~= sem_dxyn(old(self)@).fb);
            assert(collided == draw_collision(fb0, mem0, ii, xx0, yy0, nn)) by {
                if collided {
                    let pw = choose|p: int|
                        0 <= p < VIDEO_SIZE && fb0[p] == 1 && #[trigger] sprite_bit_partial(
                            mem0,
                            ii,
                            xx0,
                            yy0,
                            nn,
                            nn,
                            0,
                            p,
                        ) == 1;
                    assert(fb0[pw] == 1 && sprite_bit(mem0, ii, xx0, yy0, nn, pw) == 1);
                }
                if draw_collision(fb0, mem0, ii, xx0, yy0, nn) {
                    let pw = choose|p: int|
                        0 <= p < fb0.len() && fb0[p] == 1 && sprite_bit(mem0, ii, xx0, yy0, nn, p)
                            == 1;
                    assert(sprite_bit_partial(mem0, ii, xx0, yy0, nn, nn, 0, pw) == 1);
                }
            }
            assert(changed == draw_changes(mem0, ii, xx0, yy0, nn)) by {
                if changed {
                    let pw = choose|p: int|
                        0 <= p < VIDEO_SIZE && #[trigger] sprite_bit_partial(mem0, ii, xx0, yy0, nn, nn, 0, p)
                            == 1;
                    assert(sprite_bit(mem0, ii, xx0, yy0, nn, pw) == 1);
                }
                if draw_changes(mem0, ii, xx0, yy0, nn) {
                    let pw = choose|p: int|
                        0 <= p < VIDEO_SIZE && sprite_bit(mem0, ii, xx0, yy0, nn, p) == 1;
                    assert(sprite_bit_partial(mem0, ii, xx0, yy0, nn, nn, 0, pw) == 1);
                }
            }
            assert forall|p: int| 0 <= p < VIDEO_SIZE implies #[trigger] self.display@[p]
                <= 1 by {
                lemma_sprite_bit_bound(mem0, ii, xx0, yy0, nn, p);
                lemma_bit_xor_facts(fb0[p], sprite_bit(mem0, ii, xx0, yy0, nn, p));
            }
            assert(self@ =~= sem_dxyn(old(self)@));
        }
    }

    /// Ex9E: skip if the key named by the low nibble of Vx is pressed; the
    /// consumed key is cleared.
    fn op_ex9e(&mut self)
        requires
            old(self).wf(),
        ensures
            final(self).wf(),
            final(self)@ == sem_ex9e(old(self)@),
    {
        proof {
            lemma_op_field_bounds(self.opcode);
        }
        let x = ((self.opcode >> 8) & 0xF) as usize;
        let key = (self.registers[x] & 0xF) as usize;
        proof {
            lemma_low_nibble_bound(self.registers@[x as int]);
        }
        if self.keyboard[key] != 0 {
            self.pc = self.pc.wrapping_add(2);
        }
        self.keyboard.set(key, 0);
        proof {
            assert(self@ =~= sem_ex9e(old(self)@));
        }
    }

    /// ExA1: skip if the key named by the low nibble of Vx is not pressed;
    /// the consumed key is cleared.
    fn op_exa1(&mut self)
        requires
            old(self).wf(),
        ensures
            final(self).wf(),
            final(self)@ == sem_exa1(old(self)@),
    {
        proof {
            lemma_op_field_bounds(self.opcode);
        }
        let x = ((self.opcode >> 8) & 0xF) as usize;
        let key = (self.registers[x] & 0xF) as usize;
        proof {
            lemma_low_nibble_bound(self.registers@[x as int]);
        }
        if self.keyboard[key] == 0 {
            self.pc = self.pc.wrapping_add(2);
        }
        self.keyboard.set(key, 0);
        proof {
            assert(self@ =~= sem_exa1(old(self)@));
        }
    }

    /// Fx0A: wait for a key press.  With a key down, the lowest-numbered
    /// pressed key goes into Vx; with none, the program counter rolls back
    /// over this instruction so the next cycle retries it.
    fn op_fx0a(&mut self)
        requires
            old(self).wf(),
        ensures
            final(self).wf(),
            final(self)@ == sem_fx0a(old(self)@),
    {
        proof {
            lemma_op_field_bounds(self.opcode);
        }
        let x = ((self.opcode >> 8) & 0xF) as usize;
        let mut k: usize = 0;
        while k < KEY_COUNT && self.keyboard[k] == 0
            invariant
                old(self).wf(),
                self == old(self),
                k <= KEY_COUNT,
                forall|j: int| 0 <= j < k ==> self.keyboard@[j] == 0,
                first_pressed_from(self.keyboard@, 0) == first_pressed_from(
                    self.keyboard@,
                    k as int,
                ),
            decreases KEY_COUNT - k,
        {
            k += 1;
        }
        if k < KEY_COUNT {
            self.registers.set(x, k as u8);
        } else {
            self.pc = self.pc.wrapping_sub(2);
        }
        proof {
            assert(self@ =~= sem_fx0a(old(self)@));
        }
    }

    /// Fx55: store V0 through Vx into memory from address I.
    fn op_fx55(&mut self)
        requires
            old(self).wf(),
        ensures
            final(self).wf(),
            final(self)@ == sem_fx55(old(self)@),
    {
        proof {
            lemma_op_field_bounds(self.opcode);
        }
        let x = ((self.opcode >> 8) & 0xF) as usize;
        let i = self.index as usize;
        let mut reg: usize = 0;
        while reg <= x
            invariant
                old(self).wf(),
                x < 16,
                x as int == crate::model::op_x(old(self)@.opcode),
                i == old(self)@.index,
                reg <= x + 1,
                self.memory@.len() == MEMORY_SIZE,
                forall|a: int|
                    0 <= a < MEMORY_SIZE ==> self.memory@[a] == (if (a - i) % (
                    MEMORY_SIZE as int) < reg {
                        old(self)@.regs[(a - i) % (MEMORY_SIZE as int)]
                    } else {
                        old(self)@.mem[a]
                    }),
                self.registers == old(self).registers,
                self.index == old(self).index,
                self.pc == old(self).pc,
                self.stack == old(self).stack,
                self.delay_timer == old(self).delay_timer,
                self.sound_timer == old(self).sound_timer,
                self.keyboard == old(self).keyboard,
                self.display == old(self).display,
                self.opcode == old(self).opcode,
                self.draw_flag == old(self).draw_flag,
            decreases x + 1 - reg,
        {
            let t = (i + reg) % MEMORY_SIZE;
            let v = self.registers[reg];
            self.memory.set(t, v);
            proof {
                let m = MEMORY_SIZE as int;
                lemma_mod_offset(i as int, reg as int, m);
                assert forall|a: int|
                    0 <= a < MEMORY_SIZE implies #[trigger] self.memory@[a] == (if (a - i) % m
                        < reg + 1 {
                        old(self)@.regs[(a - i) % m]
                    } else {
                        old(self)@.mem[a]
                    }) by {
                    if a != t && (a - i) % m == reg as int {
                        lemma_mod_inverse(i as int, a, m);
                        assert(false);
                    }
                }
            }
            reg += 1;
        }
        proof {
            assert(self@.mem =~= sem_fx55(old(self)@).mem);
            assert(self@ =~= sem_fx55(old(self)@));
        }
    }

    /// Fx65: load V0 through Vx from memory at address I.
    fn op_fx65(&mut self)
        requires
            old(self).wf(),
        ensures
            final(self).wf(),
            final(self)@ == sem_fx65(old(self)@),
    {
        proof {
            lemma_op_field_bounds(self.opcode);
        }
        let x = ((self.opcode >> 8) & 0xF) as usize;
        let i = self.index as usize;
        let mut reg: usize = 0;
        while reg <= x
            invariant
                old(self).wf(),
                x < 16,
                x as int == crate::model::op_x(old(self)@.opcode),
                i == old(self)@.index,
                reg <= x + 1,
                self.registers@.len() == REGISTER_COUNT,
                forall|j: int|
                    0 <= j < REGISTER_COUNT ==> self.registers@[j] == (if j < reg {
                        old(self)@.mem[(i + j) % (MEMORY_SIZE as int)]
                    } else {
                        old(self)@.regs[j]
                    }),
                self.memory == old(self).memory,
                self.index == old(self).index,
                self.pc == old(self).pc,
                self.stack == old(self).stack,
                self.delay_timer == old(self).delay_timer,
                self.sound_timer == old(self).sound_timer,
                self.keyboard == old(self).keyboard,
                self.display == old(self).display,
                self.opcode == old(self).opcode,
                self.draw_flag == old(self).draw_flag,
            decreases x + 1 - reg,
        {
            let t = (i + reg) % MEMORY_SIZE;
            let v = self.memory[t];
            self.registers.set(reg, v);
            reg += 1;
        }
        proof {
            assert(self@.regs =~= sem_fx65(old(self)@).regs);
            assert(self@ =~= sem_fx65(old(self)@));
        }
    }

    /// One fetch-decode-execute cycle, with the random byte supplied by the
    /// caller.  The machine steps exactly as the transition function `step`
    /// says; this is the fully deterministic form of `cycle`.
    pub fn cycle_with_random(&mut self, r: u8) -> (res: Result<(), EmuError>)
        requires
            old(self).wf(),
        ensures
            final(self).wf(),
            step_outcome(old(self)@, r, final(self)@, res),
    {
        let pc0 = self.pc;
        let hi = self.memory[(pc0 as usize) % MEMORY_SIZE];
        let lo = self.memory[((pc0 as usize) + 1) % MEMORY_SIZE];
        self.opcode = ((hi as u16) << 8) | (lo as u16);
        self.pc = pc0.wrapping_add(2);
        proof {
            assert(self@ =~= after_fetch(old(self)@));
        }
        let op = self.opcode;
        match op & 0xF000 {
            0x0000 => {
                if (op & 0x00FF) == 0xE0 {
                    self.op_00e0();
                    Ok(())
                } else if (op & 0x00FF) == 0xEE {
                    if self.stack.len() == 0 {
                        Err(EmuError::StackUnderflow { pc: pc0 })
                    } else {
                        self.op_00ee();
                        Ok(())
                    }
                } else {
                    Err(EmuError::UnknownOpcode { opcode: op, pc: pc0 })
                }
            },
            0x1000 => {
                self.op_1nnn();
                Ok(())
            },
            0x2000 => {
                if self.stack.len() >= STACK_DEPTH {
                    Err(EmuError::StackOverflow { pc: pc0 })
                } else {
                    self.op_2nnn();
                    Ok(())
                }
            },
            0x3000 => {
                self.op_3xkk();
                Ok(())
            },
            0x4000 => {
                self.op_4xkk();
                Ok(())
            },
            0x5000 => {
                self.op_5xy0();
                Ok(())
            },
            0x6000 => {
                self.op_6xkk();
                Ok(())
            },
            0x7000 => {
                self.op_7xkk();
                Ok(())
            },
            0x8000 => {
                match op & 0x000F {
                    0x0 => {
                        self.op_8xy0();
                        Ok(())
                    },
                    0x1 => {
                        self.op_8xy1();
                        Ok(())
                    },
                    0x2 => {
                        self.op_8xy2();
                        Ok(())
                    },
                    0x3 => {
                        self.op_8xy3();
                        Ok(())
                    },
                    0x4 => {
                        self.op_8xy4();
                        Ok(())
                    },
                    0x5 => {
                        self.op_8xy5();
                        Ok(())
                    },
                    0x6 => {
                        self.op_8xy6();
                        Ok(())
                    },
                    0x7 => {
                        self.op_8xy7();
                        Ok(())
                    },
                    0xE => {
                        self.op_8xye();
                        Ok(())
                    },
                    _ => Err(EmuError::UnknownOpcode { opcode: op, pc: pc0 }),
                }
            },
            0x9000 => {
                self.op_9xy0();
                Ok(())
            },
            0xA000 => {
                self.op_annn();
                Ok(())
            },
            0xB000 => {
                self.op_bnnn();
                Ok(())
            },
            0xC000 => {
                self.op_cxkk(r);
                Ok(())
            },
            0xD000 => {
                self.op_dxyn();
                Ok(())
            },
            0xE000 => {
                if (op & 0x00FF) == 0x9E {
                    self.op_ex9e();
                    Ok(())
                } else if (op & 0x00FF) == 0xA1 {
                    self.op_exa1();
                    Ok(())
                } else {
                    Err(EmuError::UnknownOpcode { opcode: op, pc: pc0 })
                }
            },
            0xF000 => {
                if (op & 0x00FF) == 0x07 {
                    self.op_fx07();
                    Ok(())
                } else if (op & 0x00FF) == 0x0A {
                    self.op_fx0a();
                    Ok(())
                } else if (op & 0x00FF) == 0x15 {
                    self.op_fx15();
                    Ok(())
                } else if (op & 0x00FF) == 0x18 {
                    self.op_fx18();
                    Ok(())
                } else if (op & 0x00FF) == 0x1E {
                    self.op_fx1e();
                    Ok(())
                } else if (op & 0x00FF) == 0x29 {
                    self.op_fx29();
                    Ok(())
                } else if (op & 0x00FF) == 0x33 {
                    self.op_fx33();
                    Ok(())
                } else if (op & 0x00FF) == 0x55 {
                    self.op_fx55();
                    Ok(())
                } else if (op & 0x00FF) == 0x65 {
                    self.op_fx65();
                    Ok(())
                } else {
                    Err(EmuError::UnknownOpcode { opcode: op, pc: pc0 })
                }
            },
            _ => Err(EmuError::UnknownOpcode { opcode: op, pc: pc0 }),
        }
    }

    /// One fetch-decode-execute cycle, drawing from the machine's random
    /// source.  Whatever byte the source hands back, the machine steps as
    /// the transition function says for some byte; for every instruction but
    /// `Cxkk` the byte is irrelevant and the step is fully determined.
    pub fn cycle(&mut self) -> (res: Result<(), EmuError>)
        requires
            old(self).wf(),
        ensures
            final(self).wf(),
            exists|r: u8| step_outcome(old(self)@, r, final(self)@, res),
            !op_is_random(fetch_opcode(old(self)@)) ==> step_outcome(
                old(self)@,
                0u8,
                final(self)@,
                res,
            ),
    {
        let r = random_byte();
        let res = self.cycle_with_random(r);
        proof {
            assert(step_outcome(old(self)@, r, self@, res));
            if !op_is_random(fetch_opcode(old(self)@)) {
                lemma_step_ignores_random(old(self)@, r, 0u8);
            }
        }
        res
    }

    /// Decays both timers by one tick, stopping at zero.  This is the
    /// host-driven 60 Hz operation, deliberately separate from `cycle`.
    pub fn tick_timers(&mut self)
        requires
            old(self).wf(),
        ensures
            final(self).wf(),
            final(self)@ == ticked(old(self)@),
    {
        if self.delay_timer > 0 {
            self.delay_timer = self.delay_timer - 1;
        }
        if self.sound_timer > 0 {
            self.sound_timer = self.sound_timer - 1;
        }
        proof {
            assert(self@ =~= ticked(old(self)@));
        }
    }

    /// The value of register Vi.
    pub fn register(&self, i: usize) -> (r: u8)
        requires
            self.wf(),
            i < REGISTER_COUNT,
        ensures
            r == self@.regs[i as int],
    {
        self.registers[i]
    }

    /// The program counter.
    pub fn pc(&self) -> (r: u16)
        ensures
            r == self@.pc,
    {
        self.pc
    }

    /// The index register.
    pub fn index_reg(&self) -> (r: u16)
        ensures
            r == self@.index,
    {
        self.index
    }

    /// The byte at a memory address.
    pub fn memory_byte(&self, addr: usize) -> (r: u8)
        requires
            self.wf(),
            addr < MEMORY_SIZE,
        ensures
            r == self@.mem[addr as int],
    {
        self.memory[addr]
    }

    /// How many return addresses the call stack holds.
    pub fn stack_depth(&self) -> (r: usize)
        ensures
            r == self@.stack.len(),
    {
        self.stack.len()
    }

    /// The delay timer.
    pub fn delay_timer(&self) -> (r: u8)
        ensures
            r == self@.delay,
    {
        self.delay_timer
    }

    /// The sound timer.
    pub fn sound_timer(&self) -> (r: u8)
        ensures
            r == self@.sound,
    {
        self.sound_timer
    }

    /// The opcode register: the instruction word most recently fetched.
    pub fn opcode(&self) -> (r: u16)
        ensures
            r == self@.opcode,
    {
        self.opcode
    }

    /// Whether a key is currently pressed.
    pub fn key(&self, k: usize) -> (r: bool)
        requires
            self.wf(),
            k < KEY_COUNT,
        ensures
            r == (self@.keys[k as int] != 0),
    {
        self.keyboard[k] != 0
    }

    /// Presses or releases a key.  The input source drives this.
    pub fn set_key(&mut self, k: usize, pressed: bool)
        requires
            old(self).wf(),
            k < KEY_COUNT,
        ensures
            final(self).wf(),
            final(self)@ == (CpuView {
                keys: old(self)@.keys.update(k as int, if pressed {
                    1u8
                } else {
                    0u8
                }),
                ..old(self)@
            }),
    {
        self.keyboard.set(k, if pressed {
            1
        } else {
            0
        });
        proof {
            assert(self@ =~= (CpuView {
                keys: old(self)@.keys.update(k as int, if pressed {
                    1u8
                } else {
                    0u8
                }),
                ..old(self)@
            }));
        }
    }

    /// The framebuffer as a flat row-major bit array, for the renderer to
    /// read.
    pub fn framebuffer(&self) -> (r: &Vec<u8>)
        ensures
            r@ == self@.fb,
    {
        &self.display
    }

    /// The pixel at screen position (x, y): 0 or 1.
    pub fn pixel(&self, x: usize, y: usize) -> (r: u8)
        requires
            self.wf(),
            x < VIDEO_WIDTH,
            y < VIDEO_HEIGHT,
        ensures
            r == self@.fb[y * VIDEO_WIDTH + x],
    {
        self.display[y * VIDEO_WIDTH + x]
    }

    /// Whether the framebuffer changed since the renderer last cleared the
    /// flag.
    pub fn draw_flag(&self) -> (r: bool)
        ensures
            r == self@.draw,
    {
        self.draw_flag
    }

    /// Lowers the dirty flag; the renderer calls this after redrawing.
    pub fn clear_draw_flag(&mut self)
        requires
            old(self).wf(),
        ensures
            final(self).wf(),
            final(self)@ == (CpuView { draw: false, ..old(self)@ }),
    {
        self.draw_flag = false;
        proof {
            assert(self@ =~= (CpuView { draw: false, ..old(self)@ }));
        }
    }
}

} // verus!
