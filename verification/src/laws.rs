//! The general laws of the instruction semantics, stated and proved over the
//! model in [`crate::model`]. Together with the exact contracts of
//! [`crate::cpu::CPU`] they carry over to every executable step.

use vstd::prelude::*;

use crate::error::RuntimeError;
use crate::model::{
    draw_collision, draw_gfx, first_pressed_from, op_family, op_kk, op_n, op_nnn, op_uses_rand,
    op_x, op_y, spec_exec, spec_fetch, spec_step, wf_view, word_of, wrap16, CpuView,
};

verus! {

/// Every instruction except the random family ignores the byte the random
/// source hands back: its outcome is a function of the state and the word
/// alone.
pub proof fn lemma_exec_rand_independent(s: CpuView, op: u16, r1: u8, r2: u8)
    requires
        !op_uses_rand(op),
    ensures
        spec_exec(s, op, r1) == spec_exec(s, op, r2),
{
}

/// ADD (8XY4): the result register receives the 8-bit wrapped sum and VF is
/// 1 exactly when the mathematical sum exceeds 255. Excluded: X = 15, where
/// the flag overwrites the result by design.
pub proof fn lemma_add_semantics(s: CpuView, op: u16, rand: u8)
    requires
        wf_view(s),
        op_family(op) == 8,
        op_n(op) == 4,
        op_x(op) != 15,
    ensures
        spec_exec(s, op, rand) matches Ok(s1)
            && s1.v[op_x(op)] == (s.v[op_x(op)] + s.v[op_y(op)]) % 256
            && s1.v[15] == (if s.v[op_x(op)] + s.v[op_y(op)] > 255 { 1u8 } else { 0u8 })
            && s1.pc == wrap16(s.pc + 2)
            && s1.memory == s.memory
            && s1.gfx == s.gfx
            && s1.i == s.i
            && s1.stack == s.stack
            && s1.sp == s.sp
            && (forall|r: int| 0 <= r < 16 && r != op_x(op) && r != 15 ==> s1.v[r] == s.v[r]),
{
}

/// SUB (8XY5): the result register receives the 8-bit wrapped difference and
/// VF is 1 exactly when VX >= VY (no borrow). Excluded: X = 15, where the
/// flag overwrites the result by design.
pub proof fn lemma_sub_semantics(s: CpuView, op: u16, rand: u8)
    requires
        wf_view(s),
        op_family(op) == 8,
        op_n(op) == 5,
        op_x(op) != 15,
    ensures
        spec_exec(s, op, rand) matches Ok(s1)
            && s1.v[op_x(op)] == (s.v[op_x(op)] - s.v[op_y(op)]) % 256
            && s1.v[15] == (if s.v[op_x(op)] >= s.v[op_y(op)] { 1u8 } else { 0u8 })
            && s1.pc == wrap16(s.pc + 2)
            && s1.memory == s.memory
            && s1.gfx == s.gfx
            && s1.i == s.i
            && s1.stack == s.stack
            && s1.sp == s.sp
            && (forall|r: int| 0 <= r < 16 && r != op_x(op) && r != 15 ==> s1.v[r] == s.v[r]),
{
}

/// Clear screen (00E0): afterwards every framebuffer cell reads zero, and
/// nothing else changes but the program counter.
pub proof fn lemma_clear_screen(s: CpuView, rand: u8)
    requires
        wf_view(s),
    ensures
        spec_exec(s, 0x00E0, rand) matches Ok(s1)
            && (forall|x: int, y: int| 0 <= x < 64 && 0 <= y < 32 ==> #[trigger] s1.gfx[x * 32 + y] == 0)
            && s1.memory == s.memory
            && s1.v == s.v
            && s1.pc == wrap16(s.pc + 2),
{
    let s1 = spec_exec(s, 0x00E0, rand)->Ok_0;
    assert forall|x: int, y: int| 0 <= x < 64 && 0 <= y < 32 implies #[trigger] s1.gfx[x * 32 + y]
        == 0 by {
        assert(0 <= x * 32 + y < 2048) by (nonlinear_arith)
            requires 0 <= x < 64 && 0 <= y < 32;
    }
}

/// XOR compositing is an involution: drawing the same sprite onto the same
/// anchor twice restores the framebuffer exactly.
pub proof fn lemma_draw_gfx_twice(gfx: Seq<u8>, mem: Seq<u8>, i: int, vx: u8, vy: u8, n: int)
    requires
        gfx.len() == 2048,
        forall|j: int| 0 <= j < 2048 ==> gfx[j] == 0 || gfx[j] == 1,
    ensures
        draw_gfx(draw_gfx(gfx, mem, i, vx, vy, n), mem, i, vx, vy, n) == gfx,
{
    let g1 = draw_gfx(gfx, mem, i, vx, vy, n);
    let g2 = draw_gfx(g1, mem, i, vx, vy, n);
    assert(g2 =~= gfx);
}

/// Draw-sprite (DXYN) is idempotent under double XOR: executing the same
/// draw twice in succession restores the pre-draw framebuffer, and the
/// second draw's VF reflects the collisions against the first draw's result.
/// Excluded: X = 15 or Y = 15, where the first draw's flag write changes the
/// anchor of the second.
pub proof fn lemma_draw_twice(s: CpuView, op: u16, r1: u8, r2: u8)
    requires
        wf_view(s),
        op_family(op) == 13,
        op_x(op) != 15,
        op_y(op) != 15,
        spec_exec(s, op, r1) is Ok,
    ensures
        spec_exec(s, op, r1) matches Ok(s1)
            && spec_exec(s1, op, r2) matches Ok(s2)
            && s2.gfx == s.gfx
            && s2.v[15] == (if draw_collision(s1.gfx, s.memory, s.i as int, s.v[op_x(op)],
                s.v[op_y(op)], op_n(op) as int) { 1u8 } else { 0u8 }),
{
    let x = op_x(op);
    let y = op_y(op);
    let n = op_n(op) as int;
    let s1 = spec_exec(s, op, r1)->Ok_0;
    assert(s1.gfx == draw_gfx(s.gfx, s.memory, s.i as int, s.v[x], s.v[y], n));
    assert(forall|j: int| 0 <= j < 2048 ==> s1.gfx[j] == 0 || s1.gfx[j] == 1);
    assert(spec_exec(s1, op, r2) is Ok);
    let s2 = spec_exec(s1, op, r2)->Ok_0;
    lemma_draw_gfx_twice(s.gfx, s.memory, s.i as int, s.v[x], s.v[y], n);
    assert(s2.gfx == s.gfx);
}

/// Call (2NNN): with fewer than 16 frames live, the post-increment program
/// counter is pushed and control transfers to NNN; with 16 frames live the
/// call faults with a stack overflow instead of corrupting the stack.
pub proof fn lemma_call_semantics(s: CpuView, op: u16, rand: u8)
    requires
        wf_view(s),
        op_family(op) == 2,
    ensures
        s.sp < 16 ==> (spec_exec(s, op, rand) matches Ok(s1)
            && s1.pc == op_nnn(op)
            && s1.sp == s.sp + 1
            && s1.stack[s.sp as int] == wrap16(s.pc + 2)),
        s.sp == 16 ==> spec_exec(s, op, rand)
            == Err::<CpuView, RuntimeError>(RuntimeError::StackOverflow),
{
}

/// Call then Return: at any nesting depth below 16, executing Call NNN and
/// then the Return fetched at NNN brings the program counter back to the
/// instruction immediately after the Call, with the stack depth and all of
/// memory, registers and framebuffer as before.
pub proof fn lemma_call_then_return(s: CpuView, op: u16, r1: u8, r2: u8)
    requires
        wf_view(s),
        op_family(op) == 2,
        s.sp < 16,
        op_nnn(op) + 1 < 4096,
        s.memory[op_nnn(op) as int] == 0x00,
        s.memory[op_nnn(op) + 1] == 0xEE,
    ensures
        spec_exec(s, op, r1) matches Ok(s1)
            && spec_step(s1, r2) matches Ok(s2)
            && s2.pc == wrap16(s.pc + 2)
            && s2.sp == s.sp
            && s2.memory == s.memory
            && s2.v == s.v
            && s2.gfx == s.gfx,
{
    let s1 = spec_exec(s, op, r1)->Ok_0;
    assert(s1.pc == op_nnn(op));
    assert(spec_fetch(s1) == Some(word_of(0x00, 0xEE)));
    assert(word_of(0x00, 0xEE) == 0x00EE);
    assert(spec_step(s1, r2) == spec_exec(s1, 0x00EE, r2));
}

/// Key-wait (FX0A) blocks: while no key is pressed the instruction changes
/// nothing at all — in particular the program counter stays put, so the same
/// instruction re-executes on every subsequent step.
pub proof fn lemma_key_wait_blocks(s: CpuView, op: u16, rand: u8)
    requires
        wf_view(s),
        op_family(op) == 15,
        op_kk(op) == 0x0A,
        forall|k: int| 0 <= k < 16 ==> s.key[k] != 1,
    ensures
        spec_exec(s, op, rand) == Ok::<CpuView, RuntimeError>(s),
{
    lemma_no_key_from(s.key, 0);
    let s1 = spec_exec(s, op, rand)->Ok_0;
    assert(s1 =~= s);
}

/// Key-wait (FX0A) releases: on the step where key `k` is the lowest key
/// held down, VX receives `k` and the program counter advances exactly once.
pub proof fn lemma_key_wait_releases(s: CpuView, op: u16, rand: u8, k: int)
    requires
        wf_view(s),
        op_family(op) == 15,
        op_kk(op) == 0x0A,
        0 <= k < 16,
        s.key[k] == 1,
        forall|j: int| 0 <= j < k ==> s.key[j] != 1,
    ensures
        spec_exec(s, op, rand) matches Ok(s1)
            && s1.v[op_x(op)] == k
            && s1.pc == wrap16(s.pc + 2),
{
    lemma_first_pressed_at(s.key, 0, k);
}

/// No key at index `from` or above is pressed, so the scan finds none.
proof fn lemma_no_key_from(key: Seq<u8>, from: int)
    requires
        forall|k: int| from <= k < 16 ==> key[k] != 1,
    ensures
        first_pressed_from(key, from) is None,
    decreases 16 - from,
{
    if 0 <= from < 16 {
        lemma_no_key_from(key, from + 1);
    }
}

/// The scan from `from` finds `k` when `k` is the lowest pressed key at or
/// above `from`.
proof fn lemma_first_pressed_at(key: Seq<u8>, from: int, k: int)
    requires
        0 <= from <= k < 16,
        key[k] == 1,
        forall|j: int| from <= j < k ==> key[j] != 1,
    ensures
        first_pressed_from(key, from) == Some(k),
    decreases k - from,
{
    if from < k {
        lemma_first_pressed_at(key, from + 1, k);
    }
}

} // verus!
