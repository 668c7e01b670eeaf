//! General laws of the machine, proved for all states rather than sampled by
//! tests.  Each proof function's parameters range over every well-formed
//! machine state that its `requires` admits.

use vstd::prelude::*;
use crate::font::font_seq;
use crate::model::{
    CpuView, EmuError, FONTSET_BASE, FONTSET_BYTES, KEY_COUNT, MEMORY_SIZE, ROM_START,
    STACK_DEPTH, VIDEO_SIZE, any_key_pressed, draw_fb, fetch_opcode, first_pressed_from,
    first_pressed_key, inv, lemma_bit_xor_facts, lemma_op_field_bounds, load_effect, op_kk,
    op_n, op_nnn, op_x, op_y, sprite_bit, step,
};

verus! {

/// Everything `first_pressed_from` promises: its result sits between the
/// start position and the end of the key array, names a pressed key when it
/// is in range, and every key before it (from the start position) is up.
pub proof fn lemma_first_pressed_props(keys: Seq<u8>, k: int)
    requires
        0 <= k <= keys.len(),
    ensures
        k <= first_pressed_from(keys, k) <= keys.len(),
        first_pressed_from(keys, k) < keys.len() ==> keys[first_pressed_from(keys, k)] != 0,
        forall|j: int| k <= j < first_pressed_from(keys, k) ==> keys[j] == 0,
    decreases keys.len() - k,
{
    if k < keys.len() && keys[k] == 0 {
        lemma_first_pressed_props(keys, k + 1);
    }
}

/// Loading an immediate: after one step of any `6xkk` instruction, register
/// x holds kk, the program counter has advanced by exactly one instruction,
/// and nothing else in the machine has moved.
pub proof fn lemma_load_immediate(pre: CpuView, r: u8)
    requires
        inv(pre),
        fetch_opcode(pre) & 0xF000 == 0x6000,
    ensures
        step(pre, r) is Ok,
        (step(pre, r)->Ok_0).regs == pre.regs.update(
            op_x(fetch_opcode(pre)),
            op_kk(fetch_opcode(pre)),
        ),
        (step(pre, r)->Ok_0).regs[op_x(fetch_opcode(pre))] == op_kk(fetch_opcode(pre)),
        (step(pre, r)->Ok_0).pc == ((pre.pc + 2) % 0x10000) as u16,
        (step(pre, r)->Ok_0).mem == pre.mem,
        (step(pre, r)->Ok_0).stack == pre.stack,
        (step(pre, r)->Ok_0).fb == pre.fb,
        (step(pre, r)->Ok_0).keys == pre.keys,
        (step(pre, r)->Ok_0).index == pre.index,
        (step(pre, r)->Ok_0).delay == pre.delay,
        (step(pre, r)->Ok_0).sound == pre.sound,
{
    lemma_op_field_bounds(fetch_opcode(pre));
}

/// Call and return round-trip exactly: a `2nnn` whose target holds `00EE`
/// brings the program counter back to where it stood right after the call
/// instruction's own fetch-advance, with the stack as it was.
pub proof fn lemma_call_return_round_trip(pre: CpuView, r1: u8, r2: u8)
    requires
        inv(pre),
        fetch_opcode(pre) & 0xF000 == 0x2000,
        pre.stack.len() < STACK_DEPTH,
        pre.mem[op_nnn(fetch_opcode(pre)) as int] == 0x00,
        pre.mem[((op_nnn(fetch_opcode(pre)) + 1) % (MEMORY_SIZE as int)) as int] == 0xEE,
    ensures
        step(pre, r1) is Ok,
        step(step(pre, r1)->Ok_0, r2) is Ok,
        (step(step(pre, r1)->Ok_0, r2)->Ok_0).pc == ((pre.pc + 2) % 0x10000) as u16,
        (step(step(pre, r1)->Ok_0, r2)->Ok_0).stack == pre.stack,
{
    lemma_op_field_bounds(fetch_opcode(pre));
    let s1 = step(pre, r1)->Ok_0;
    assert(s1.pc == op_nnn(fetch_opcode(pre)));
    assert(fetch_opcode(s1) == ((0x00u8 as u16) << 8) | (0xEEu8 as u16));
    assert((((0x00u16) << 8) | (0xEEu16)) == 0x00EEu16) by (bit_vector);
    assert((0x00EEu16 & 0xF000) == 0x0000) by (bit_vector);
    assert((0x00EEu16 & 0x00FF) == 0xEE) by (bit_vector);
}

/// Clearing the screen zeroes every framebuffer cell, whatever was drawn
/// before; in particular a clear, any draw, and a second clear leave the
/// framebuffer entirely zero.
pub proof fn lemma_clear_screen(pre: CpuView, r: u8)
    requires
        inv(pre),
        fetch_opcode(pre) == 0x00E0,
    ensures
        step(pre, r) is Ok,
        forall|p: int| 0 <= p < VIDEO_SIZE ==> (step(pre, r)->Ok_0).fb[p] == 0,
{
    assert((0x00E0u16 & 0xF000) == 0x0000) by (bit_vector);
    assert((0x00E0u16 & 0x00FF) == 0xE0) by (bit_vector);
}

/// XOR idempotence of drawing: blitting the same sprite at the same
/// position twice returns the framebuffer to its pre-draw state.
pub proof fn lemma_draw_twice_restores(fb: Seq<u8>, mem: Seq<u8>, i: int, x0: int, y0: int, n: int)
    ensures
        draw_fb(draw_fb(fb, mem, i, x0, y0, n), mem, i, x0, y0, n) == fb,
{
    let once = draw_fb(fb, mem, i, x0, y0, n);
    let twice = draw_fb(once, mem, i, x0, y0, n);
    assert forall|p: int| 0 <= p < fb.len() implies twice[p] == fb[p] by {
        lemma_bit_xor_facts(fb[p], sprite_bit(mem, i, x0, y0, n, p));
    }
    assert(twice =~= fb);
}

/// The same idempotence at machine level: a `Dxyn` instruction executed
/// twice in a row — the second fetch reading the same word, and neither
/// operand register being VF, which the draw's collision flag overwrites —
/// leaves the framebuffer exactly as it stood before the first draw.
pub proof fn lemma_draw_twice_steps(pre: CpuView, r1: u8, r2: u8)
    requires
        inv(pre),
        fetch_opcode(pre) & 0xF000 == 0xD000,
        op_x(fetch_opcode(pre)) != 0xF,
        op_y(fetch_opcode(pre)) != 0xF,
        fetch_opcode(step(pre, r1)->Ok_0) == fetch_opcode(pre),
    ensures
        step(pre, r1) is Ok,
        step(step(pre, r1)->Ok_0, r2) is Ok,
        (step(step(pre, r1)->Ok_0, r2)->Ok_0).fb == pre.fb,
{
    lemma_op_field_bounds(fetch_opcode(pre));
    let s1 = step(pre, r1)->Ok_0;
    let s2 = step(s1, r2)->Ok_0;
    lemma_draw_twice_restores(
        pre.fb,
        pre.mem,
        pre.index as int,
        pre.regs[op_x(fetch_opcode(pre))] as int,
        pre.regs[op_y(fetch_opcode(pre))] as int,
        op_n(fetch_opcode(pre)),
    );
}

/// The key-wait instruction `Fx0A`: with no key pressed the program counter
/// lands back where it was, so the instruction repeats; once keys are
/// pressed, the program counter advances normally and Vx receives the
/// lowest-numbered pressed key.
pub proof fn lemma_wait_for_key(pre: CpuView, r: u8)
    requires
        inv(pre),
        fetch_opcode(pre) & 0xF000 == 0xF000,
        fetch_opcode(pre) & 0x00FF == 0x0A,
    ensures
        step(pre, r) is Ok,
        !any_key_pressed(pre.keys) ==> (step(pre, r)->Ok_0).pc == pre.pc && (step(
            pre,
            r,
        )->Ok_0).regs == pre.regs,
        any_key_pressed(pre.keys) ==> (step(pre, r)->Ok_0).pc == ((pre.pc + 2) % 0x10000) as u16
            && 0 <= first_pressed_key(pre.keys) < KEY_COUNT
            && pre.keys[first_pressed_key(pre.keys)] != 0
            && (forall|j: int| 0 <= j < first_pressed_key(pre.keys) ==> pre.keys[j] == 0)
            && (step(pre, r)->Ok_0).regs == pre.regs.update(
            op_x(fetch_opcode(pre)),
            first_pressed_key(pre.keys) as u8,
        ),
{
    lemma_op_field_bounds(fetch_opcode(pre));
    lemma_first_pressed_props(pre.keys, 0);
    if first_pressed_key(pre.keys) >= KEY_COUNT {
        assert(!any_key_pressed(pre.keys));
    }
}

/// The fontset survives every successful program load: afterwards the
/// fontset bytes stand at their base, and in particular the canonical glyph
/// for the digit zero.
pub proof fn lemma_fontset_resident(pre: CpuView, rom: Seq<u8>)
    requires
        inv(pre),
        ROM_START + rom.len() <= MEMORY_SIZE,
    ensures
        forall|j: int|
            0 <= j < FONTSET_BYTES ==> load_effect(pre, rom).mem[FONTSET_BASE + j] == font_seq()[j],
        load_effect(pre, rom).mem[FONTSET_BASE as int] == 0xF0,
        load_effect(pre, rom).mem[FONTSET_BASE + 1] == 0x90,
        load_effect(pre, rom).mem[FONTSET_BASE + 2] == 0x90,
        load_effect(pre, rom).mem[FONTSET_BASE + 3] == 0x90,
        load_effect(pre, rom).mem[FONTSET_BASE + 4] == 0xF0,
{
    assert(font_seq()[0] == 0xF0);
    assert(font_seq()[1] == 0x90);
    assert(font_seq()[2] == 0x90);
    assert(font_seq()[3] == 0x90);
    assert(font_seq()[4] == 0xF0);
}

} // verus!
