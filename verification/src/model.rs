//! The mathematical model of the machine and of one execution step.
//!
//! [`CpuView`] is the ghost image of a machine state. [`spec_step`] says,
//! for every state and every byte the random source may hand back, exactly
//! which state (or which fault) one fetch-decode-execute step yields. The
//! executable interpreter in [`crate::cpu`] is proved to follow it.

use vstd::prelude::*;

use crate::error::RuntimeError;
use crate::font::font_byte;
use crate::quirks::Quirks;

verus! {

/// Ghost image of a machine state.
///
/// Invariants (see [`wf_view`]): `memory` has 4096 bytes, `v` 16 registers,
/// `gfx` 64*32 cells each 0 or 1 (cell (x, y) at index `x * 32 + y`),
/// `stack` 16 slots of which the first `sp` are live, `key` 16 flags.
#[verifier::ext_equal]
pub ghost struct CpuView {
    pub memory: Seq<u8>,
    pub v: Seq<u8>,
    pub i: u16,
    pub pc: u16,
    pub gfx: Seq<u8>,
    pub delay_timer: u8,
    pub sound_timer: u8,
    pub stack: Seq<u16>,
    pub sp: nat,
    pub key: Seq<u8>,
    pub quirks: Quirks,
}

/// Well-formedness of a machine state: fixed sizes, a stack pointer within
/// bounds, and a monochrome framebuffer.
pub open spec fn wf_view(s: CpuView) -> bool {
    &&& s.memory.len() == 4096
    &&& s.v.len() == 16
    &&& s.gfx.len() == 2048
    &&& s.stack.len() == 16
    &&& s.key.len() == 16
    &&& s.sp <= 16
    &&& forall|j: int| 0 <= j < 2048 ==> s.gfx[j] == 0 || s.gfx[j] == 1
}

// ---------------------------------------------------------------------------
// Decoding
// ---------------------------------------------------------------------------

/// Big-endian combination of two memory bytes into an instruction word.
pub open spec fn word_of(hi: u8, lo: u8) -> u16 {
    (hi * 256 + lo) as u16
}

/// The instruction family: bits 12..16 of the word.
pub open spec fn op_family(op: u16) -> u16 {
    op / 4096
}

/// Register index X: bits 8..12.
pub open spec fn op_x(op: u16) -> int {
    ((op / 256) % 16) as int
}

/// Register index Y: bits 4..8.
pub open spec fn op_y(op: u16) -> int {
    ((op / 16) % 16) as int
}

/// Low nibble N: bits 0..4 (sub-opcode or sprite height).
pub open spec fn op_n(op: u16) -> u16 {
    op % 16
}

/// Byte immediate KK: bits 0..8.
pub open spec fn op_kk(op: u16) -> u8 {
    (op % 256) as u8
}

/// Address immediate NNN: bits 0..12.
pub open spec fn op_nnn(op: u16) -> u16 {
    op % 4096
}

/// Truncation of a non-negative sum to a 16-bit register, as the hardware
/// registers wrap.
pub open spec fn wrap16(v: int) -> u16 {
    if v <= 0xFFFF { v as u16 } else { (v - 0x10000) as u16 }
}

/// The instruction word fetched at `s.pc`, when both of its bytes lie in
/// memory.
pub open spec fn spec_fetch(s: CpuView) -> Option<u16> {
    if s.pc + 1 < 4096 {
        Some(word_of(s.memory[s.pc as int], s.memory[s.pc + 1]))
    } else {
        None
    }
}

// ---------------------------------------------------------------------------
// Arithmetic/logic family (8XY_)
// ---------------------------------------------------------------------------

/// The value written to VX by ALU sub-opcode `sub` (0..=7 or 0xE).
/// With the `shift_uses_vy` quirk the shifts read VY instead of VX.
pub open spec fn alu_vx(sub: u16, vx: u8, vy: u8, shift_uses_vy: bool) -> u8 {
    let shift_src = if shift_uses_vy { vy } else { vx };
    if sub == 0 {
        vy
    } else if sub == 1 {
        vx | vy
    } else if sub == 2 {
        vx & vy
    } else if sub == 3 {
        vx ^ vy
    } else if sub == 4 {
        ((vx + vy) % 256) as u8
    } else if sub == 5 {
        ((vx - vy) % 256) as u8
    } else if sub == 6 {
        shift_src / 2
    } else if sub == 7 {
        ((vy - vx) % 256) as u8
    } else {
        // sub == 0xE
        ((shift_src * 2) % 256) as u8
    }
}

/// The flag written to VF by ALU sub-opcode `sub`, or `None` where the
/// sub-opcode leaves VF alone. VF = 1 means "carry" for ADD and "no borrow"
/// for SUB/SUBN; for the shifts it is the bit shifted out.
pub open spec fn alu_vf(sub: u16, vx: u8, vy: u8, shift_uses_vy: bool) -> Option<u8> {
    let shift_src = if shift_uses_vy { vy } else { vx };
    if sub == 4 {
        Some(if vx + vy > 255 { 1u8 } else { 0u8 })
    } else if sub == 5 {
        Some(if vx >= vy { 1u8 } else { 0u8 })
    } else if sub == 6 {
        Some((shift_src % 2) as u8)
    } else if sub == 7 {
        Some(if vy >= vx { 1u8 } else { 0u8 })
    } else if sub == 0xE {
        Some(shift_src / 128)
    } else {
        None
    }
}

/// The register file after an ALU instruction: VX is written first, then VF
/// where the sub-opcode has a flag side effect (so for X = 15 the flag wins).
pub open spec fn alu_regs(v: Seq<u8>, x: int, y: int, sub: u16, shift_uses_vy: bool) -> Seq<u8> {
    let v1 = v.update(x, alu_vx(sub, v[x], v[y], shift_uses_vy));
    match alu_vf(sub, v[x], v[y], shift_uses_vy) {
        Some(f) => v1.update(15, f),
        None => v1,
    }
}

// ---------------------------------------------------------------------------
// Sprite drawing (DXYN)
// ---------------------------------------------------------------------------

/// Bit `col` (0 = leftmost) of a sprite row byte.
pub open spec fn sprite_bit(b: u8, col: int) -> bool {
    (b >> ((7 - col) as u8)) & 1 == 1
}

/// A monochrome cell after an XOR with a set sprite bit.
pub open spec fn flip(p: u8) -> u8 {
    if p == 1 { 0 } else { 1 }
}

/// Whether drawing the N-row sprite at `mem[i..i+n]` anchored at (vx, vy)
/// touches framebuffer cell (x, y). Coordinates wrap: column `c` of row `r`
/// lands on ((vx + c) mod 64, (vy + r) mod 32).
pub open spec fn cell_flipped(
    mem: Seq<u8>, i: int, vx: u8, vy: u8, n: int, x: int, y: int,
) -> bool {
    exists|r: int, c: int|
        0 <= r < n && 0 <= c < 8
        && x == (vx + c) % 64 && y == (vy + r) % 32
        && #[trigger] sprite_bit(mem[i + r], c)
}

/// The framebuffer after drawing the sprite: every touched cell is XOR-ed,
/// every other cell is kept.
pub open spec fn draw_gfx(
    gfx: Seq<u8>, mem: Seq<u8>, i: int, vx: u8, vy: u8, n: int,
) -> Seq<u8> {
    Seq::new(
        gfx.len(),
        |idx: int| if cell_flipped(mem, i, vx, vy, n, idx / 32, idx % 32) {
            flip(gfx[idx])
        } else {
            gfx[idx]
        },
    )
}

/// Whether the draw collides: some touched cell was already set.
pub open spec fn draw_collision(
    gfx: Seq<u8>, mem: Seq<u8>, i: int, vx: u8, vy: u8, n: int,
) -> bool {
    exists|x: int, y: int|
        0 <= x < 64 && 0 <= y < 32
        && #[trigger] cell_flipped(mem, i, vx, vy, n, x, y)
        && gfx[x * 32 + y] == 1
}

/// An all-dark framebuffer.
pub open spec fn zero_gfx() -> Seq<u8> {
    Seq::new(2048, |idx: int| 0u8)
}

/// Whether cell (x, y) is touched by the sprite bits that strictly precede
/// column `c` of row `r` in drawing order (all of rows 0..r, then columns
/// 0..c of row r). [`cell_flipped`] is the special case r = n, c = 0.
pub open spec fn cell_flipped_upto(
    mem: Seq<u8>, i: int, vx: u8, vy: u8, n: int, r: int, c: int, x: int, y: int,
) -> bool {
    exists|rr: int, cc: int|
        0 <= rr < n && 0 <= cc < 8 && (rr < r || (rr == r && cc < c))
        && x == (vx + cc) % 64 && y == (vy + rr) % 32
        && #[trigger] sprite_bit(mem[i + rr], cc)
}

// ---------------------------------------------------------------------------
// Keys, BCD, register blocks
// ---------------------------------------------------------------------------

/// The lowest pressed key at index `k` or above, if any.
pub open spec fn first_pressed_from(key: Seq<u8>, k: int) -> Option<int>
    decreases 16 - k,
{
    if k < 0 || k >= 16 {
        None
    } else if key[k] == 1 {
        Some(k)
    } else {
        first_pressed_from(key, k + 1)
    }
}

/// The lowest pressed key, if any.
pub open spec fn first_pressed(key: Seq<u8>) -> Option<int> {
    first_pressed_from(key, 0)
}

/// Memory after the three BCD digits of `val` are stored at `i..i+3`:
/// hundreds, tens, ones.
pub open spec fn mem_after_bcd(mem: Seq<u8>, i: int, val: u8) -> Seq<u8> {
    mem.update(i, (val / 100) as u8)
        .update(i + 1, ((val / 10) % 10) as u8)
        .update(i + 2, (val % 10) as u8)
}

/// Memory after registers V0..=VX are stored at `i..=i+x`; all other bytes
/// are kept.
pub open spec fn mem_after_store(mem: Seq<u8>, v: Seq<u8>, i: int, x: int) -> Seq<u8> {
    Seq::new(mem.len(), |j: int| if i <= j <= i + x { v[j - i] } else { mem[j] })
}

/// Registers after V0..=VX are filled from `mem[i..=i+x]`; the rest are kept.
pub open spec fn regs_after_load(v: Seq<u8>, mem: Seq<u8>, i: int, x: int) -> Seq<u8> {
    Seq::new(v.len(), |r: int| if 0 <= r <= x { mem[i + r] } else { v[r] })
}

// ---------------------------------------------------------------------------
// One instruction
// ---------------------------------------------------------------------------

/// Whether an instruction word consults the random source (the CXKK family).
pub open spec fn op_uses_rand(op: u16) -> bool {
    op_family(op) == 12
}

/// The state (or fault) produced by executing the already-fetched word `op`
/// on state `s`, where `rand` is the byte the random source handed back.
///
/// The program counter is advanced by 2 before dispatch; jumps, calls and
/// returns overwrite it, the skip families add another 2, and the key-wait
/// instruction restores it while no key is pressed. A fault leaves no part
/// of the state changed.
pub open spec fn spec_exec(s: CpuView, op: u16, rand: u8) -> Result<CpuView, RuntimeError> {
    let fam = op_family(op);
    let x = op_x(op);
    let y = op_y(op);
    let n = op_n(op);
    let kk = op_kk(op);
    let nnn = op_nnn(op);
    let pc2 = wrap16(s.pc + 2);
    let s2 = CpuView { pc: pc2, ..s };
    if fam == 0 {
        if op == 0x00E0 {
            // Clear screen.
            Ok(CpuView { gfx: zero_gfx(), ..s2 })
        } else if op == 0x00EE {
            // Return from subroutine.
            if s.sp == 0 {
                Err(RuntimeError::StackUnderflow)
            } else {
                Ok(CpuView { pc: s.stack[s.sp - 1], sp: (s.sp - 1) as nat, ..s2 })
            }
        } else {
            // 0NNN machine-language subroutines are not part of the ISA.
            Err(RuntimeError::DecodeError)
        }
    } else if fam == 1 {
        // Jump to NNN.
        Ok(CpuView { pc: nnn, ..s2 })
    } else if fam == 2 {
        // Call NNN: push the post-increment program counter.
        if s.sp >= 16 {
            Err(RuntimeError::StackOverflow)
        } else {
            Ok(CpuView {
                stack: s.stack.update(s.sp as int, pc2),
                sp: (s.sp + 1) as nat,
                pc: nnn,
                ..s2
            })
        }
    } else if fam == 3 {
        // Skip if VX == KK.
        Ok(CpuView { pc: if s.v[x] == kk { wrap16(s.pc + 4) } else { pc2 }, ..s2 })
    } else if fam == 4 {
        // Skip if VX != KK.
        Ok(CpuView { pc: if s.v[x] != kk { wrap16(s.pc + 4) } else { pc2 }, ..s2 })
    } else if fam == 5 {
        // Skip if VX == VY.
        if n == 0 {
            Ok(CpuView { pc: if s.v[x] == s.v[y] { wrap16(s.pc + 4) } else { pc2 }, ..s2 })
        } else {
            Err(RuntimeError::DecodeError)
        }
    } else if fam == 6 {
        // VX := KK.
        Ok(CpuView { v: s.v.update(x, kk), ..s2 })
    } else if fam == 7 {
        // VX := VX + KK with 8-bit wraparound, no flag.
        Ok(CpuView { v: s.v.update(x, ((s.v[x] + kk) % 256) as u8), ..s2 })
    } else if fam == 8 {
        if n <= 7 || n == 0xE {
            Ok(CpuView { v: alu_regs(s.v, x, y, n, s.quirks.shift_uses_vy), ..s2 })
        } else {
            Err(RuntimeError::DecodeError)
        }
    } else if fam == 9 {
        // Skip if VX != VY.
        if n == 0 {
            Ok(CpuView { pc: if s.v[x] != s.v[y] { wrap16(s.pc + 4) } else { pc2 }, ..s2 })
        } else {
            Err(RuntimeError::DecodeError)
        }
    } else if fam == 10 {
        // I := NNN.
        Ok(CpuView { i: nnn, ..s2 })
    } else if fam == 11 {
        // Jump to NNN + V0.
        Ok(CpuView { pc: wrap16(nnn + s.v[0]), ..s2 })
    } else if fam == 12 {
        // VX := random byte AND KK.
        Ok(CpuView { v: s.v.update(x, rand & kk), ..s2 })
    } else if fam == 13 {
        // Draw the N-row sprite at mem[I..] anchored at (VX, VY).
        if s.i + n > 4096 && n > 0 {
            Err(RuntimeError::AddressOutOfRange)
        } else {
            let collided = draw_collision(s.gfx, s.memory, s.i as int, s.v[x], s.v[y], n as int);
            Ok(CpuView {
                gfx: draw_gfx(s.gfx, s.memory, s.i as int, s.v[x], s.v[y], n as int),
                v: s.v.update(15, if collided { 1u8 } else { 0u8 }),
                ..s2
            })
        }
    } else if fam == 14 {
        if kk == 0x9E {
            // Skip if the key named by VX's low nibble is pressed.
            Ok(CpuView {
                pc: if s.key[(s.v[x] % 16) as int] == 1 { wrap16(s.pc + 4) } else { pc2 },
                ..s2
            })
        } else if kk == 0xA1 {
            // Skip if that key is not pressed.
            Ok(CpuView {
                pc: if s.key[(s.v[x] % 16) as int] != 1 { wrap16(s.pc + 4) } else { pc2 },
                ..s2
            })
        } else {
            Err(RuntimeError::DecodeError)
        }
    } else if fam == 15 {
        if kk == 0x07 {
            // VX := delay timer.
            Ok(CpuView { v: s.v.update(x, s.delay_timer), ..s2 })
        } else if kk == 0x0A {
            // Wait for a key: without one the program counter stays put, so
            // the instruction re-executes on the next step.
            match first_pressed(s.key) {
                Some(k) => Ok(CpuView { v: s.v.update(x, k as u8), ..s2 }),
                None => Ok(CpuView { pc: s.pc, ..s2 }),
            }
        } else if kk == 0x15 {
            // Delay timer := VX.
            Ok(CpuView { delay_timer: s.v[x], ..s2 })
        } else if kk == 0x18 {
            // Sound timer := VX.
            Ok(CpuView { sound_timer: s.v[x], ..s2 })
        } else if kk == 0x1E {
            // I := I + VX, wrapping as a 16-bit register; no flag.
            Ok(CpuView { i: wrap16(s.i + s.v[x]), ..s2 })
        } else if kk == 0x29 {
            // I := address of the font glyph for VX's low nibble.
            Ok(CpuView { i: (5 * (s.v[x] % 16)) as u16, ..s2 })
        } else if kk == 0x33 {
            // Store the three BCD digits of VX at mem[I..I+3].
            if s.i + 2 >= 4096 {
                Err(RuntimeError::AddressOutOfRange)
            } else {
                Ok(CpuView { memory: mem_after_bcd(s.memory, s.i as int, s.v[x]), ..s2 })
            }
        } else if kk == 0x55 {
            // Store V0..=VX at mem[I..]; I is unchanged unless the
            // load_store_increments_i quirk is on.
            if s.i + x >= 4096 {
                Err(RuntimeError::AddressOutOfRange)
            } else {
                Ok(CpuView {
                    memory: mem_after_store(s.memory, s.v, s.i as int, x),
                    i: if s.quirks.load_store_increments_i { (s.i + x + 1) as u16 } else { s.i },
                    ..s2
                })
            }
        } else if kk == 0x65 {
            // Fill V0..=VX from mem[I..]; same treatment of I.
            if s.i + x >= 4096 {
                Err(RuntimeError::AddressOutOfRange)
            } else {
                Ok(CpuView {
                    v: regs_after_load(s.v, s.memory, s.i as int, x),
                    i: if s.quirks.load_store_increments_i { (s.i + x + 1) as u16 } else { s.i },
                    ..s2
                })
            }
        } else {
            Err(RuntimeError::DecodeError)
        }
    } else {
        Err(RuntimeError::DecodeError)
    }
}

// ---------------------------------------------------------------------------
// Initialization and ROM loading
// ---------------------------------------------------------------------------

/// The state of a freshly created machine: everything zero except the
/// program counter, which points at the program load address 0x200, and the
/// font table in memory 0..80.
pub open spec fn initial_view(q: Quirks) -> CpuView {
    CpuView {
        memory: Seq::new(4096, |j: int| if j < 80 { font_byte(j) } else { 0u8 }),
        v: Seq::new(16, |j: int| 0u8),
        i: 0,
        pc: 0x200,
        gfx: zero_gfx(),
        delay_timer: 0,
        sound_timer: 0,
        stack: Seq::new(16, |j: int| 0u16),
        sp: 0,
        key: Seq::new(16, |j: int| 0u8),
        quirks: q,
    }
}

/// The state after a ROM image is copied verbatim into memory at 0x200;
/// every other byte and every other component is kept.
pub open spec fn rom_loaded(s: CpuView, rom: Seq<u8>) -> CpuView {
    CpuView {
        memory: Seq::new(
            4096,
            |j: int| if 0x200 <= j < 0x200 + rom.len() { rom[j - 0x200] } else { s.memory[j] },
        ),
        ..s
    }
}

/// One full fetch-decode-execute step on state `s` with random byte `rand`:
/// fetching outside memory is a fault, otherwise the fetched word is executed.
pub open spec fn spec_step(s: CpuView, rand: u8) -> Result<CpuView, RuntimeError> {
    match spec_fetch(s) {
        Some(op) => spec_exec(s, op, rand),
        None => Err(RuntimeError::AddressOutOfRange),
    }
}

// ---------------------------------------------------------------------------
// Facts about the drawing order
// ---------------------------------------------------------------------------

/// Two sprite columns that land on the same screen column are the same
/// column: the 8 columns of a row wrap to 8 distinct cells.
proof fn lemma_wrap64_inj(base: u16, a: u16, b: u16)
    by (bit_vector)
    requires
        base < 256,
        a < 8,
        b < 8,
        (base + a) % 64 == (base + b) % 64,
    ensures
        a == b,
{
}

/// Two sprite rows (of the at most 15) that land on the same screen row are
/// the same row.
proof fn lemma_wrap32_inj(base: u16, a: u16, b: u16)
    by (bit_vector)
    requires
        base < 256,
        a < 16,
        b < 16,
        (base + a) % 32 == (base + b) % 32,
    ensures
        a == b,
{
}

/// The cell reached by sprite bit (r, c) is untouched by the bits that
/// precede it in drawing order: within one draw, no cell is flipped twice.
pub proof fn lemma_fresh_cell(mem: Seq<u8>, i: int, vx: u8, vy: u8, n: int, r: int, c: int)
    requires
        0 <= r < n,
        0 <= c < 8,
        n <= 15,
    ensures
        !cell_flipped_upto(mem, i, vx, vy, n, r, c, (vx + c) % 64, (vy + r) % 32),
{
    let x = (vx + c) % 64;
    let y = (vy + r) % 32;
    if cell_flipped_upto(mem, i, vx, vy, n, r, c, x, y) {
        let (rr, cc) = choose|rr: int, cc: int|
            0 <= rr < n && 0 <= cc < 8 && (rr < r || (rr == r && cc < c))
            && x == (vx + cc) % 64 && y == (vy + rr) % 32
            && #[trigger] sprite_bit(mem[i + rr], cc);
        lemma_wrap64_inj(vx as u16, cc as u16, c as u16);
        lemma_wrap32_inj(vy as u16, rr as u16, r as u16);
    }
}

/// How the touched-cell predicate grows when one more sprite bit is
/// processed: exactly the cell of bit (r, c) is added, and only when that
/// bit is set.
pub proof fn lemma_upto_next_col(mem: Seq<u8>, i: int, vx: u8, vy: u8, n: int, r: int, c: int)
    requires
        0 <= r < n,
        0 <= c < 8,
    ensures
        forall|x: int, y: int|
            cell_flipped_upto(mem, i, vx, vy, n, r, c + 1, x, y)
            <==> (cell_flipped_upto(mem, i, vx, vy, n, r, c, x, y)
                || (sprite_bit(mem[i + r], c) && x == (vx + c) % 64 && y == (vy + r) % 32)),
{
    assert forall|x: int, y: int|
        cell_flipped_upto(mem, i, vx, vy, n, r, c + 1, x, y)
        <==> (cell_flipped_upto(mem, i, vx, vy, n, r, c, x, y)
            || (sprite_bit(mem[i + r], c) && x == (vx + c) % 64 && y == (vy + r) % 32)) by {
        if cell_flipped_upto(mem, i, vx, vy, n, r, c + 1, x, y) {
            let (rr, cc) = choose|rr: int, cc: int|
                0 <= rr < n && 0 <= cc < 8 && (rr < r || (rr == r && cc < c + 1))
                && x == (vx + cc) % 64 && y == (vy + rr) % 32
                && #[trigger] sprite_bit(mem[i + rr], cc);
            if rr == r && cc == c {
                assert(sprite_bit(mem[i + r], c) && x == (vx + c) % 64 && y == (vy + r) % 32);
            } else {
                assert(cell_flipped_upto(mem, i, vx, vy, n, r, c, x, y));
            }
        }
        if cell_flipped_upto(mem, i, vx, vy, n, r, c, x, y) {
            let (rr, cc) = choose|rr: int, cc: int|
                0 <= rr < n && 0 <= cc < 8 && (rr < r || (rr == r && cc < c))
                && x == (vx + cc) % 64 && y == (vy + rr) % 32
                && #[trigger] sprite_bit(mem[i + rr], cc);
            assert(cell_flipped_upto(mem, i, vx, vy, n, r, c + 1, x, y));
        }
        if sprite_bit(mem[i + r], c) && x == (vx + c) % 64 && y == (vy + r) % 32 {
            assert(cell_flipped_upto(mem, i, vx, vy, n, r, c + 1, x, y));
        }
    }
}

/// Finishing a row and standing at the start of the next one describe the
/// same set of processed bits.
pub proof fn lemma_upto_next_row(mem: Seq<u8>, i: int, vx: u8, vy: u8, n: int, r: int)
    ensures
        forall|x: int, y: int|
            cell_flipped_upto(mem, i, vx, vy, n, r + 1, 0, x, y)
            <==> cell_flipped_upto(mem, i, vx, vy, n, r, 8, x, y),
{
    assert forall|x: int, y: int|
        cell_flipped_upto(mem, i, vx, vy, n, r + 1, 0, x, y)
        <==> cell_flipped_upto(mem, i, vx, vy, n, r, 8, x, y) by {
        if cell_flipped_upto(mem, i, vx, vy, n, r + 1, 0, x, y) {
            let (rr, cc) = choose|rr: int, cc: int|
                0 <= rr < n && 0 <= cc < 8 && (rr < r + 1 || (rr == r + 1 && cc < 0))
                && x == (vx + cc) % 64 && y == (vy + rr) % 32
                && #[trigger] sprite_bit(mem[i + rr], cc);
            assert(cell_flipped_upto(mem, i, vx, vy, n, r, 8, x, y));
        }
        if cell_flipped_upto(mem, i, vx, vy, n, r, 8, x, y) {
            let (rr, cc) = choose|rr: int, cc: int|
                0 <= rr < n && 0 <= cc < 8 && (rr < r || (rr == r && cc < 8))
                && x == (vx + cc) % 64 && y == (vy + rr) % 32
                && #[trigger] sprite_bit(mem[i + rr], cc);
            assert(cell_flipped_upto(mem, i, vx, vy, n, r + 1, 0, x, y));
        }
    }
}

/// Having processed all n rows touches exactly the cells of the whole
/// sprite.
pub proof fn lemma_upto_full(mem: Seq<u8>, i: int, vx: u8, vy: u8, n: int)
    ensures
        forall|x: int, y: int|
            cell_flipped_upto(mem, i, vx, vy, n, n, 0, x, y)
            <==> cell_flipped(mem, i, vx, vy, n, x, y),
{
    assert forall|x: int, y: int|
        cell_flipped_upto(mem, i, vx, vy, n, n, 0, x, y)
        <==> cell_flipped(mem, i, vx, vy, n, x, y) by {
        if cell_flipped_upto(mem, i, vx, vy, n, n, 0, x, y) {
            let (rr, cc) = choose|rr: int, cc: int|
                0 <= rr < n && 0 <= cc < 8 && (rr < n || (rr == n && cc < 0))
                && x == (vx + cc) % 64 && y == (vy + rr) % 32
                && #[trigger] sprite_bit(mem[i + rr], cc);
            assert(cell_flipped(mem, i, vx, vy, n, x, y));
        }
        if cell_flipped(mem, i, vx, vy, n, x, y) {
            let (rr, cc) = choose|rr: int, cc: int|
                0 <= rr < n && 0 <= cc < 8
                && x == (vx + cc) % 64 && y == (vy + rr) % 32
                && #[trigger] sprite_bit(mem[i + rr], cc);
            assert(cell_flipped_upto(mem, i, vx, vy, n, n, 0, x, y));
        }
    }
}

/// Nothing has been touched before the first bit of the first row.
pub proof fn lemma_upto_empty(mem: Seq<u8>, i: int, vx: u8, vy: u8, n: int)
    ensures
        forall|x: int, y: int| !cell_flipped_upto(mem, i, vx, vy, n, 0, 0, x, y),
{
}

/// Whether some cell touched by the sprite bits before column `c` of row `r`
/// was already set in `gfx`. [`draw_collision`] is the case r = n, c = 0.
pub open spec fn collision_upto(
    gfx: Seq<u8>, mem: Seq<u8>, i: int, vx: u8, vy: u8, n: int, r: int, c: int,
) -> bool {
    exists|x: int, y: int|
        0 <= x < 64 && 0 <= y < 32
        && #[trigger] cell_flipped_upto(mem, i, vx, vy, n, r, c, x, y)
        && gfx[x * 32 + y] == 1
}

/// How the collision flag grows when one more sprite bit is processed:
/// exactly a set bit (r, c) over an already-lit cell can newly raise it.
pub proof fn lemma_collision_next_col(
    gfx: Seq<u8>, mem: Seq<u8>, i: int, vx: u8, vy: u8, n: int, r: int, c: int,
)
    requires
        0 <= r < n,
        0 <= c < 8,
    ensures
        collision_upto(gfx, mem, i, vx, vy, n, r, c + 1)
            == (collision_upto(gfx, mem, i, vx, vy, n, r, c)
                || (sprite_bit(mem[i + r], c)
                    && gfx[((vx + c) % 64) * 32 + ((vy + r) % 32)] == 1)),
{
    lemma_upto_next_col(mem, i, vx, vy, n, r, c);
    let px = (vx + c) % 64;
    let py = (vy + r) % 32;
    if collision_upto(gfx, mem, i, vx, vy, n, r, c + 1) {
        let (x, y) = choose|x: int, y: int|
            0 <= x < 64 && 0 <= y < 32
            && #[trigger] cell_flipped_upto(mem, i, vx, vy, n, r, c + 1, x, y)
            && gfx[x * 32 + y] == 1;
        if cell_flipped_upto(mem, i, vx, vy, n, r, c, x, y) {
            assert(collision_upto(gfx, mem, i, vx, vy, n, r, c));
        } else {
            assert(x == px && y == py && sprite_bit(mem[i + r], c));
        }
    }
    if collision_upto(gfx, mem, i, vx, vy, n, r, c) {
        let (x, y) = choose|x: int, y: int|
            0 <= x < 64 && 0 <= y < 32
            && #[trigger] cell_flipped_upto(mem, i, vx, vy, n, r, c, x, y)
            && gfx[x * 32 + y] == 1;
        assert(cell_flipped_upto(mem, i, vx, vy, n, r, c + 1, x, y));
        assert(collision_upto(gfx, mem, i, vx, vy, n, r, c + 1));
    }
    if sprite_bit(mem[i + r], c) && gfx[px * 32 + py] == 1 {
        assert(cell_flipped_upto(mem, i, vx, vy, n, r, c + 1, px, py));
        assert(collision_upto(gfx, mem, i, vx, vy, n, r, c + 1));
    }
}

/// The collision flag at the start of a row equals the flag at the end of
/// the previous one.
pub proof fn lemma_collision_next_row(
    gfx: Seq<u8>, mem: Seq<u8>, i: int, vx: u8, vy: u8, n: int, r: int,
)
    ensures
        collision_upto(gfx, mem, i, vx, vy, n, r + 1, 0)
            == collision_upto(gfx, mem, i, vx, vy, n, r, 8),
{
    lemma_upto_next_row(mem, i, vx, vy, n, r);
    if collision_upto(gfx, mem, i, vx, vy, n, r + 1, 0) {
        let (x, y) = choose|x: int, y: int|
            0 <= x < 64 && 0 <= y < 32
            && #[trigger] cell_flipped_upto(mem, i, vx, vy, n, r + 1, 0, x, y)
            && gfx[x * 32 + y] == 1;
        assert(cell_flipped_upto(mem, i, vx, vy, n, r, 8, x, y));
        assert(collision_upto(gfx, mem, i, vx, vy, n, r, 8));
    }
    if collision_upto(gfx, mem, i, vx, vy, n, r, 8) {
        let (x, y) = choose|x: int, y: int|
            0 <= x < 64 && 0 <= y < 32
            && #[trigger] cell_flipped_upto(mem, i, vx, vy, n, r, 8, x, y)
            && gfx[x * 32 + y] == 1;
        assert(cell_flipped_upto(mem, i, vx, vy, n, r + 1, 0, x, y));
        assert(collision_upto(gfx, mem, i, vx, vy, n, r + 1, 0));
    }
}

/// After all n rows the collision flag is exactly [`draw_collision`].
pub proof fn lemma_collision_full(
    gfx: Seq<u8>, mem: Seq<u8>, i: int, vx: u8, vy: u8, n: int,
)
    ensures
        collision_upto(gfx, mem, i, vx, vy, n, n, 0)
            == draw_collision(gfx, mem, i, vx, vy, n),
{
    lemma_upto_full(mem, i, vx, vy, n);
    if collision_upto(gfx, mem, i, vx, vy, n, n, 0) {
        let (x, y) = choose|x: int, y: int|
            0 <= x < 64 && 0 <= y < 32
            && #[trigger] cell_flipped_upto(mem, i, vx, vy, n, n, 0, x, y)
            && gfx[x * 32 + y] == 1;
        assert(cell_flipped(mem, i, vx, vy, n, x, y));
        assert(draw_collision(gfx, mem, i, vx, vy, n));
    }
    if draw_collision(gfx, mem, i, vx, vy, n) {
        let (x, y) = choose|x: int, y: int|
            0 <= x < 64 && 0 <= y < 32
            && #[trigger] cell_flipped(mem, i, vx, vy, n, x, y)
            && gfx[x * 32 + y] == 1;
        assert(cell_flipped_upto(mem, i, vx, vy, n, n, 0, x, y));
        assert(collision_upto(gfx, mem, i, vx, vy, n, n, 0));
    }
}

/// The decomposition of a framebuffer index into its cell coordinates.
pub proof fn lemma_gfx_index(px: int, py: int)
    by (nonlinear_arith)
    requires
        0 <= px < 64,
        0 <= py < 32,
    ensures
        (px * 32 + py) / 32 == px,
        (px * 32 + py) % 32 == py,
        0 <= px * 32 + py < 2048,
{
}

} // verus!
