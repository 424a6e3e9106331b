//! The machine state and the executable interpreter.

use vstd::prelude::*;

use crate::error::RuntimeError;
use crate::font::font_sprite_byte;
use crate::model::{
    alu_regs, alu_vx, cell_flipped_upto, collision_upto, draw_collision, draw_gfx, first_pressed,
    first_pressed_from, flip, initial_view, lemma_collision_full, lemma_collision_next_col,
    lemma_collision_next_row, lemma_fresh_cell, lemma_gfx_index, lemma_upto_empty, lemma_upto_full,
    lemma_upto_next_col, lemma_upto_next_row, mem_after_bcd, mem_after_store, op_family, op_kk,
    op_n, op_nnn, op_uses_rand, op_x, op_y, regs_after_load, rom_loaded, spec_exec, spec_fetch,
    spec_step, sprite_bit, wf_view, wrap16, zero_gfx, CpuView,
};
use crate::quirks::{canonical_quirks, Quirks};

verus! {

/// Relies on `rand::random::<u8>()` for the byte consumed by the random
/// instruction; nothing is assumed about the value it returns.
#[verifier::external_body]
fn random_byte() -> u8 {
    rand::random::<u8>()
}

/// A CHIP-8 machine: 4096 bytes of memory, sixteen 8-bit registers V0..VF,
/// the index register I, the program counter, a 64x32 monochrome framebuffer
/// (cell (x, y) at `gfx[x * 32 + y]`), two countdown timers, a 16-slot call
/// stack with its stack pointer, and 16 key flags.
///
/// The fields are public so that a host can present the framebuffer and feed
/// the key and timer state; every method assumes and preserves [`CPU::wf`].
pub struct CPU {
    pub memory: Vec<u8>,
    pub v: Vec<u8>,
    pub i: u16,
    pub pc: u16,
    pub gfx: Vec<u8>,
    pub delay_timer: u8,
    pub sound_timer: u8,
    pub stack: Vec<u16>,
    pub sp: usize,
    pub key: Vec<u8>,
    pub quirks: Quirks,
}

impl View for CPU {
    type V = CpuView;

    open spec fn view(&self) -> CpuView {
        CpuView {
            memory: self.memory@,
            v: self.v@,
            i: self.i,
            pc: self.pc,
            gfx: self.gfx@,
            delay_timer: self.delay_timer,
            sound_timer: self.sound_timer,
            stack: self.stack@,
            sp: self.sp as nat,
            key: self.key@,
            quirks: self.quirks,
        }
    }
}

impl Default for CPU {
    /// Same machine as [`CPU::new`].
    fn default() -> (c: CPU)
        ensures
            c.wf(),
            c@ == initial_view(canonical_quirks()),
    {
        CPU::new()
    }
}

/// A vector of `n` zero bytes.
fn zero_bytes(n: usize) -> (r: Vec<u8>)
    ensures
        r@ == Seq::new(n as nat, |j: int| 0u8),
{
    let mut r: Vec<u8> = Vec::new();
    while r.len() < n
        invariant
            r@.len() <= n,
            forall|j: int| 0 <= j < r@.len() ==> r@[j] == 0u8,
        decreases n - r.len(),
    {
        r.push(0);
    }
    proof {
        assert(r@ =~= Seq::new(n as nat, |j: int| 0u8));
    }
    r
}

impl CPU {
    /// Well-formedness of the machine state; see [`wf_view`].
    pub open spec fn wf(&self) -> bool {
        wf_view(self@)
    }

    /// A fresh machine with the canonical quirk configuration: zeroed
    /// registers, stack, timers, keys and framebuffer, the font table in
    /// memory 0..80, and the program counter at 0x200.
    pub fn new() -> (c: CPU)
        ensures
            c.wf(),
            c@ == initial_view(canonical_quirks()),
    {
        CPU::with_quirks(Quirks::canonical())
    }

    /// A fresh machine with the given quirk configuration.
    pub fn with_quirks(q: Quirks) -> (c: CPU)
        ensures
            c.wf(),
            c@ == initial_view(q),
    {
        let mut memory = zero_bytes(4096);
        let mut j: usize = 0;
        while j < 80
        invariant
            memory@.len() == 4096,
            j <= 80,
            forall|k: int| 0 <= k < j ==> memory@[k] == crate::font::font_byte(k),
            forall|k: int| j <= k < 4096 ==> memory@[k] == 0u8,
        decreases 80 - j,
        {
            memory.set(j, font_sprite_byte(j));
            j += 1;
        }
        let mut stack: Vec<u16> = Vec::new();
        while stack.len() < 16
            invariant
                stack@.len() <= 16,
                forall|k: int| 0 <= k < stack@.len() ==> stack@[k] == 0u16,
            decreases 16 - stack.len(),
        {
            stack.push(0);
        }
        let c = CPU {
            memory,
            v: zero_bytes(16),
            i: 0,
            pc: 0x200,
            gfx: zero_bytes(2048),
            delay_timer: 0,
            sound_timer: 0,
            stack,
            sp: 0,
            key: zero_bytes(16),
            quirks: q,
        };
        proof {
            assert(c@.memory =~= initial_view(q).memory);
            assert(c@.stack =~= initial_view(q).stack);
            assert(c@ =~= initial_view(q));
        }
        c
    }

    /// Copies a ROM image verbatim into memory starting at 0x200. An image
    /// longer than the 3584 bytes of program space is rejected whole.
    pub fn load_rom(&mut self, rom: &Vec<u8>) -> (r: Result<(), RuntimeError>)
        requires
            old(self).wf(),
        ensures
            final(self).wf(),
            rom@.len() <= 3584 ==> r == Ok::<(), RuntimeError>(())
                && final(self)@ == rom_loaded(old(self)@, rom@),
            rom@.len() > 3584 ==> r == Err::<(), RuntimeError>(RuntimeError::AddressOutOfRange)
                && final(self)@ == old(self)@,
    {
        if rom.len() > 3584 {
            return Err(RuntimeError::AddressOutOfRange);
        }
        let ghost s0 = self@;
        let mut k: usize = 0;
        while k < rom.len()
            invariant
                self@ == (CpuView { memory: self.memory@, ..s0 }),
                self.memory@.len() == 4096,
                rom@.len() <= 3584,
                k <= rom@.len(),
                forall|j: int| 0x200 <= j < 0x200 + k ==> self.memory@[j] == rom@[j - 0x200],
                forall|j: int| 0 <= j < 4096 && !(0x200 <= j < 0x200 + k)
                    ==> self.memory@[j] == s0.memory[j],
            decreases rom.len() - k,
        {
            self.memory.set(0x200 + k, rom[k]);
            k += 1;
        }
        proof {
            assert(self@.memory =~= rom_loaded(s0, rom@).memory);
            assert(self@ =~= rom_loaded(s0, rom@));
        }
        Ok(())
    }

    /// A bounds-checked read of one memory byte.
    pub fn read_mem(&self, index: usize) -> (r: Result<u8, RuntimeError>)
        requires
            self.wf(),
        ensures
            index < 4096 ==> r == Ok::<u8, RuntimeError>(self@.memory[index as int]),
            index >= 4096 ==> r == Err::<u8, RuntimeError>(RuntimeError::AddressOutOfRange),
    {
        if index < 4096 {
            Ok(self.memory[index])
        } else {
            Err(RuntimeError::AddressOutOfRange)
        }
    }

    /// The framebuffer cell at column `x`, row `y`: 0 dark, 1 lit.
    pub fn pixel(&self, x: usize, y: usize) -> (p: u8)
        requires
            self.wf(),
            x < 64,
            y < 32,
        ensures
            p == self@.gfx[x as int * 32 + y as int],
    {
        self.gfx[x * 32 + y]
    }

    /// One 60 Hz tick of the host clock: both timers count down toward zero
    /// and clamp there.
    pub fn tick_timers(&mut self)
        requires
            old(self).wf(),
        ensures
            final(self).wf(),
            final(self)@ == (CpuView {
                delay_timer: if old(self)@.delay_timer > 0 {
                    (old(self)@.delay_timer - 1) as u8
                } else {
                    0u8
                },
                sound_timer: if old(self)@.sound_timer > 0 {
                    (old(self)@.sound_timer - 1) as u8
                } else {
                    0u8
                },
                ..old(self)@
            }),
    {
        if self.delay_timer > 0 {
            self.delay_timer = self.delay_timer - 1;
        }
        if self.sound_timer > 0 {
            self.sound_timer = self.sound_timer - 1;
        }
    }

    /// Records key `k` as pressed. The input front end is the only writer of
    /// the key state.
    pub fn press_key(&mut self, k: usize)
        requires
            old(self).wf(),
            k < 16,
        ensures
            final(self).wf(),
            final(self)@ == (CpuView { key: old(self)@.key.update(k as int, 1u8), ..old(self)@ }),
    {
        self.key.set(k, 1);
    }

    /// Draws the `rows`-row sprite stored at `memory[I..]`, anchored at
    /// (V[x], V[y]) with wrap-around addressing, by XOR-compositing it onto
    /// the framebuffer; returns whether any lit cell was turned dark.
    fn draw_sprite(&mut self, x: usize, y: usize, rows: usize) -> (collided: bool)
        requires
            old(self).wf(),
            x < 16,
            y < 16,
            rows <= 15,
            rows > 0 ==> old(self)@.i + rows <= 4096,
        ensures
            final(self).wf(),
            final(self)@ == (CpuView {
                gfx: draw_gfx(
                    old(self)@.gfx,
                    old(self)@.memory,
                    old(self)@.i as int,
                    old(self)@.v[x as int],
                    old(self)@.v[y as int],
                    rows as int,
                ),
                ..old(self)@
            }),
            collided == draw_collision(
                old(self)@.gfx,
                old(self)@.memory,
                old(self)@.i as int,
                old(self)@.v[x as int],
                old(self)@.v[y as int],
                rows as int,
            ),
    {
        let ghost s0 = self@;
        let ghost g0 = self.gfx@;
        let ghost mem0 = self.memory@;
        let ghost nn = rows as int;
        let vx = self.v[x];
        let vy = self.v[y];
        let ii = self.i as usize;
        let ghost iii = ii as int;
        let mut collided = false;
        let mut row: usize = 0;
        proof {
            lemma_upto_empty(mem0, iii, vx, vy, nn);
        }
        while row < rows
            invariant
                self.wf(),
                row <= rows,
                rows <= 15,
                vx == s0.v[x as int],
                vy == s0.v[y as int],
                ii == s0.i,
                iii == ii as int,
                nn == rows as int,
                mem0 == s0.memory,
                g0 == s0.gfx,
                rows > 0 ==> ii + rows <= 4096,
                self@ == (CpuView { gfx: self.gfx@, ..s0 }),
                self.gfx@.len() == 2048,
                forall|idx: int| 0 <= idx < 2048 ==> self.gfx@[idx] == (
                    if cell_flipped_upto(mem0, iii, vx, vy, nn, row as int, 0, idx / 32, idx % 32) {
                        flip(g0[idx])
                    } else {
                        g0[idx]
                    }),
                collided == collision_upto(g0, mem0, iii, vx, vy, nn, row as int, 0),
            decreases rows - row,
        {
            let byte = self.memory[ii + row];
            let mut col: usize = 0;
            while col < 8
                invariant
                    self.wf(),
                    col <= 8,
                    row < rows,
                    rows <= 15,
                    vx == s0.v[x as int],
                    vy == s0.v[y as int],
                    ii == s0.i,
                    iii == ii as int,
                    nn == rows as int,
                    mem0 == s0.memory,
                    g0 == s0.gfx,
                    ii + rows <= 4096,
                    byte == mem0[iii + row],
                    self@ == (CpuView { gfx: self.gfx@, ..s0 }),
                    self.gfx@.len() == 2048,
                    forall|idx: int| 0 <= idx < 2048 ==> self.gfx@[idx] == (
                        if cell_flipped_upto(
                            mem0, iii, vx, vy, nn, row as int, col as int, idx / 32, idx % 32,
                        ) {
                            flip(g0[idx])
                        } else {
                            g0[idx]
                        }),
                    collided == collision_upto(g0, mem0, iii, vx, vy, nn, row as int, col as int),
                decreases 8 - col,
            {
                let sh: u8 = (7 - col) as u8;
                let bit_set = (byte >> sh) & 1 == 1;
                proof {
                    assert(bit_set == sprite_bit(mem0[iii + row], col as int));
                    lemma_upto_next_col(mem0, iii, vx, vy, nn, row as int, col as int);
                    lemma_collision_next_col(g0, mem0, iii, vx, vy, nn, row as int, col as int);
                }
                if bit_set {
                    let px = (vx as usize + col) % 64;
                    let py = (vy as usize + row) % 32;
                    let idx = px * 32 + py;
                    proof {
                        lemma_gfx_index(px as int, py as int);
                        lemma_fresh_cell(mem0, iii, vx, vy, nn, row as int, col as int);
                        assert(self.gfx@[idx as int] == g0[idx as int]);
                    }
                    let cur = self.gfx[idx];
                    if cur == 1 {
                        collided = true;
                    }
                    self.gfx.set(idx, if cur == 1 { 0 } else { 1 });
                    proof {
                        assert forall|idx2: int| 0 <= idx2 < 2048 implies self.gfx@[idx2] == (
                            if cell_flipped_upto(
                                mem0, iii, vx, vy, nn, row as int, col + 1, idx2 / 32, idx2 % 32,
                            ) {
                                flip(g0[idx2])
                            } else {
                                g0[idx2]
                            }) by {
                            assert(idx2 == 32 * (idx2 / 32) + idx2 % 32);
                            if idx2 == idx as int {
                                assert(cell_flipped_upto(
                                    mem0, iii, vx, vy, nn, row as int, col + 1,
                                    px as int, py as int,
                                ));
                            }
                        }
                    }
                } else {
                    proof {
                        assert forall|idx2: int| 0 <= idx2 < 2048 implies self.gfx@[idx2] == (
                            if cell_flipped_upto(
                                mem0, iii, vx, vy, nn, row as int, col + 1, idx2 / 32, idx2 % 32,
                            ) {
                                flip(g0[idx2])
                            } else {
                                g0[idx2]
                            }) by {
                        }
                    }
                }
                col += 1;
            }
            proof {
                lemma_upto_next_row(mem0, iii, vx, vy, nn, row as int);
                lemma_collision_next_row(g0, mem0, iii, vx, vy, nn, row as int);
            }
            row += 1;
        }
        proof {
            lemma_upto_full(mem0, iii, vx, vy, nn);
            lemma_collision_full(g0, mem0, iii, vx, vy, nn);
            assert(self.gfx@ =~= draw_gfx(g0, mem0, iii, vx, vy, nn));
            assert(self@ =~= (CpuView { gfx: draw_gfx(g0, mem0, iii, vx, vy, nn), ..s0 }));
        }
        collided
    }

    /// Decodes and executes the single instruction word `opcode`.
    ///
    /// The result state is exactly [`spec_exec`] of the old state, for some
    /// byte `rb` handed back by the random source; every instruction except
    /// the random family ignores `rb`, so for those the contract pins the
    /// result completely. A fault leaves the machine untouched.
    #[verifier::rlimit(100)]
    pub fn process_opcode(&mut self, opcode: u16) -> (r: Result<(), RuntimeError>)
        requires
            old(self).wf(),
        ensures
            final(self).wf(),
            (match r {
                Ok(()) => exists|rb: u8|
                    spec_exec(old(self)@, opcode, rb) == Ok::<CpuView, RuntimeError>(final(self)@),
                Err(e) => spec_exec(old(self)@, opcode, 0) == Err::<CpuView, RuntimeError>(e)
                    && final(self)@ == old(self)@,
            }),
            !op_uses_rand(opcode) && r is Ok ==>
                spec_exec(old(self)@, opcode, 0) == Ok::<CpuView, RuntimeError>(final(self)@),
    {
        let ghost s0 = self@;
        let fam = opcode / 4096;
        let x = ((opcode / 256) % 16) as usize;
        let y = ((opcode / 16) % 16) as usize;
        let n = opcode % 16;
        let kk = (opcode % 256) as u8;
        let nnn = opcode % 4096;
        let pc2 = self.pc.wrapping_add(2);
        proof {
            assert(fam == op_family(opcode));
            assert(x as int == op_x(opcode));
            assert(y as int == op_y(opcode));
            assert(n == op_n(opcode));
            assert(kk == op_kk(opcode));
            assert(nnn == op_nnn(opcode));
            assert(pc2 == wrap16(s0.pc + 2));
            assert(x < 16 && y < 16 && n < 16 && nnn < 4096);
        }
        if fam == 0 {
            if opcode == 0x00E0 {
                let mut idx: usize = 0;
                while idx < 2048
                    invariant
                        self@ == (CpuView { gfx: self.gfx@, ..s0 }),
                        self.gfx@.len() == 2048,
                        idx <= 2048,
                        forall|j: int| 0 <= j < idx ==> self.gfx@[j] == 0u8,
                        forall|j: int| idx <= j < 2048 ==> self.gfx@[j] == s0.gfx[j],
                    decreases 2048 - idx,
                {
                    self.gfx.set(idx, 0);
                    idx += 1;
                }
                self.pc = pc2;
                proof {
                    assert(self.gfx@ =~= zero_gfx());
                    assert(self@ =~= (CpuView { gfx: zero_gfx(), pc: pc2, ..s0 }));
                    assert(spec_exec(s0, opcode, 0) == Ok::<CpuView, RuntimeError>(self@));
                }
                Ok(())
            } else if opcode == 0x00EE {
                if self.sp == 0 {
                    proof {
                        assert(spec_exec(s0, opcode, 0)
                            == Err::<CpuView, RuntimeError>(RuntimeError::StackUnderflow));
                    }
                    return Err(RuntimeError::StackUnderflow);
                }
                self.sp = self.sp - 1;
                self.pc = self.stack[self.sp];
                proof {
                    assert(self@ =~= (CpuView {
                        pc: s0.stack[s0.sp - 1],
                        sp: (s0.sp - 1) as nat,
                        ..s0
                    }));
                    assert(spec_exec(s0, opcode, 0) == Ok::<CpuView, RuntimeError>(self@));
                }
                Ok(())
            } else {
                proof {
                    assert(spec_exec(s0, opcode, 0)
                        == Err::<CpuView, RuntimeError>(RuntimeError::DecodeError));
                }
                Err(RuntimeError::DecodeError)
            }
        } else if fam == 1 {
            self.pc = nnn;
            proof {
                assert(self@ =~= (CpuView { pc: nnn, ..s0 }));
                assert(spec_exec(s0, opcode, 0) == Ok::<CpuView, RuntimeError>(self@));
            }
            Ok(())
        } else if fam == 2 {
            if self.sp >= 16 {
                proof {
                    assert(spec_exec(s0, opcode, 0)
                        == Err::<CpuView, RuntimeError>(RuntimeError::StackOverflow));
                }
                return Err(RuntimeError::StackOverflow);
            }
            self.stack.set(self.sp, pc2);
            self.sp = self.sp + 1;
            self.pc = nnn;
            proof {
                assert(self@ =~= (CpuView {
                    stack: s0.stack.update(s0.sp as int, pc2),
                    sp: (s0.sp + 1) as nat,
                    pc: nnn,
                    ..s0
                }));
                assert(spec_exec(s0, opcode, 0) == Ok::<CpuView, RuntimeError>(self@));
            }
            Ok(())
        } else if fam == 3 {
            self.pc = if self.v[x] == kk { self.pc.wrapping_add(4) } else { pc2 };
            proof {
                assert(spec_exec(s0, opcode, 0) == Ok::<CpuView, RuntimeError>(self@));
            }
            Ok(())
        } else if fam == 4 {
            self.pc = if self.v[x] != kk { self.pc.wrapping_add(4) } else { pc2 };
            proof {
                assert(spec_exec(s0, opcode, 0) == Ok::<CpuView, RuntimeError>(self@));
            }
            Ok(())
        } else if fam == 5 {
            if n != 0 {
                proof {
                    assert(spec_exec(s0, opcode, 0)
                        == Err::<CpuView, RuntimeError>(RuntimeError::DecodeError));
                }
                return Err(RuntimeError::DecodeError);
            }
            self.pc = if self.v[x] == self.v[y] { self.pc.wrapping_add(4) } else { pc2 };
            proof {
                assert(spec_exec(s0, opcode, 0) == Ok::<CpuView, RuntimeError>(self@));
            }
            Ok(())
        } else if fam == 6 {
            self.v.set(x, kk);
            self.pc = pc2;
            proof {
                assert(self@ =~= (CpuView { v: s0.v.update(x as int, kk), pc: pc2, ..s0 }));
                assert(spec_exec(s0, opcode, 0) == Ok::<CpuView, RuntimeError>(self@));
            }
            Ok(())
        } else if fam == 7 {
            let sum = ((self.v[x] as u16 + kk as u16) % 256) as u8;
            self.v.set(x, sum);
            self.pc = pc2;
            proof {
                assert(self@ =~= (CpuView { v: s0.v.update(x as int, sum), pc: pc2, ..s0 }));
                assert(spec_exec(s0, opcode, 0) == Ok::<CpuView, RuntimeError>(self@));
            }
            Ok(())
        } else if fam == 8 {
            if n > 7 && n != 0xE {
                proof {
                    assert(spec_exec(s0, opcode, 0)
                        == Err::<CpuView, RuntimeError>(RuntimeError::DecodeError));
                }
                return Err(RuntimeError::DecodeError);
            }
            let vx = self.v[x];
            let vy = self.v[y];
            let quirk = self.quirks.shift_uses_vy;
            let shift_src = if quirk { vy } else { vx };
            let newx: u8 = if n == 0 {
                vy
            } else if n == 1 {
                vx | vy
            } else if n == 2 {
                vx & vy
            } else if n == 3 {
                vx ^ vy
            } else if n == 4 {
                ((vx as u16 + vy as u16) % 256) as u8
            } else if n == 5 {
                ((vx as u16 + 256 - vy as u16) % 256) as u8
            } else if n == 6 {
                shift_src / 2
            } else if n == 7 {
                ((vy as u16 + 256 - vx as u16) % 256) as u8
            } else {
                ((shift_src as u16 * 2) % 256) as u8
            };
            proof {
                vstd::arithmetic::div_mod::lemma_mod_add_multiples_vanish(vx - vy, 256);
                vstd::arithmetic::div_mod::lemma_mod_add_multiples_vanish(vy - vx, 256);
                assert(newx == alu_vx(n, vx, vy, quirk));
            }
            self.v.set(x, newx);
            if n == 4 {
                self.v.set(15, if (vx as u16 + vy as u16) > 255 { 1 } else { 0 });
            } else if n == 5 {
                self.v.set(15, if vx >= vy { 1 } else { 0 });
            } else if n == 6 {
                self.v.set(15, shift_src % 2);
            } else if n == 7 {
                self.v.set(15, if vy >= vx { 1 } else { 0 });
            } else if n == 14 {
                self.v.set(15, shift_src / 128);
            }
            self.pc = pc2;
            proof {
                assert(self@.v =~= alu_regs(s0.v, x as int, y as int, n, quirk));
                assert(self@ =~= (CpuView {
                    v: alu_regs(s0.v, x as int, y as int, n, quirk),
                    pc: pc2,
                    ..s0
                }));
                assert(spec_exec(s0, opcode, 0) == Ok::<CpuView, RuntimeError>(self@));
            }
            Ok(())
        } else if fam == 9 {
            if n != 0 {
                proof {
                    assert(spec_exec(s0, opcode, 0)
                        == Err::<CpuView, RuntimeError>(RuntimeError::DecodeError));
                }
                return Err(RuntimeError::DecodeError);
            }
            self.pc = if self.v[x] != self.v[y] { self.pc.wrapping_add(4) } else { pc2 };
            proof {
                assert(spec_exec(s0, opcode, 0) == Ok::<CpuView, RuntimeError>(self@));
            }
            Ok(())
        } else if fam == 10 {
            self.i = nnn;
            self.pc = pc2;
            proof {
                assert(spec_exec(s0, opcode, 0) == Ok::<CpuView, RuntimeError>(self@));
            }
            Ok(())
        } else if fam == 11 {
            self.pc = nnn + self.v[0] as u16;
            proof {
                assert(spec_exec(s0, opcode, 0) == Ok::<CpuView, RuntimeError>(self@));
            }
            Ok(())
        } else if fam == 12 {
            let rb = random_byte();
            self.v.set(x, rb & kk);
            self.pc = pc2;
            proof {
                assert(self@ =~= (CpuView { v: s0.v.update(x as int, rb & kk), pc: pc2, ..s0 }));
                assert(spec_exec(s0, opcode, rb) == Ok::<CpuView, RuntimeError>(self@));
            }
            Ok(())
        } else if fam == 13 {
            let rows = n as usize;
            if rows > 0 && self.i as usize + rows > 4096 {
                proof {
                    assert(spec_exec(s0, opcode, 0)
                        == Err::<CpuView, RuntimeError>(RuntimeError::AddressOutOfRange));
                }
                return Err(RuntimeError::AddressOutOfRange);
            }
            let collided = self.draw_sprite(x, y, rows);
            self.v.set(15, if collided { 1 } else { 0 });
            self.pc = pc2;
            proof {
                assert(self@ =~= (CpuView {
                    gfx: draw_gfx(s0.gfx, s0.memory, s0.i as int, s0.v[x as int], s0.v[y as int],
                        rows as int),
                    v: s0.v.update(15, if draw_collision(s0.gfx, s0.memory, s0.i as int,
                        s0.v[x as int], s0.v[y as int], rows as int) { 1u8 } else { 0u8 }),
                    pc: pc2,
                    ..s0
                }));
                assert(spec_exec(s0, opcode, 0) == Ok::<CpuView, RuntimeError>(self@));
            }
            Ok(())
        } else if fam == 14 {
            if kk == 0x9E {
                let kidx = (self.v[x] % 16) as usize;
                self.pc = if self.key[kidx] == 1 { self.pc.wrapping_add(4) } else { pc2 };
                proof {
                    assert(spec_exec(s0, opcode, 0) == Ok::<CpuView, RuntimeError>(self@));
                }
                Ok(())
            } else if kk == 0xA1 {
                let kidx = (self.v[x] % 16) as usize;
                self.pc = if self.key[kidx] != 1 { self.pc.wrapping_add(4) } else { pc2 };
                proof {
                    assert(spec_exec(s0, opcode, 0) == Ok::<CpuView, RuntimeError>(self@));
                }
                Ok(())
            } else {
                proof {
                    assert(spec_exec(s0, opcode, 0)
                        == Err::<CpuView, RuntimeError>(RuntimeError::DecodeError));
                }
                Err(RuntimeError::DecodeError)
            }
        } else {
            // fam == 15; every other family value is impossible for a u16.
            if kk == 0x07 {
                let d = self.delay_timer;
                self.v.set(x, d);
                self.pc = pc2;
                proof {
                    assert(self@ =~= (CpuView { v: s0.v.update(x as int, d), pc: pc2, ..s0 }));
                    assert(spec_exec(s0, opcode, 0) == Ok::<CpuView, RuntimeError>(self@));
                }
                Ok(())
            } else if kk == 0x0A {
                let mut pressed: usize = 16;
                let mut kidx: usize = 0;
                while kidx < 16
                    invariant
                        self.wf(),
                        self@ == s0,
                        kidx <= 16,
                        pressed <= 16,
                        pressed == 16 ==> first_pressed_from(s0.key, 0)
                            == first_pressed_from(s0.key, kidx as int),
                        pressed < 16 ==> first_pressed_from(s0.key, 0) == Some(pressed as int),
                    decreases 16 - kidx,
                {
                    if pressed == 16 && self.key[kidx] == 1 {
                        pressed = kidx;
                    }
                    kidx += 1;
                }
                if pressed < 16 {
                    self.v.set(x, pressed as u8);
                    self.pc = pc2;
                    proof {
                        assert(first_pressed(s0.key) == Some(pressed as int));
                        assert(self@ =~= (CpuView {
                            v: s0.v.update(x as int, pressed as u8),
                            pc: pc2,
                            ..s0
                        }));
                        assert(spec_exec(s0, opcode, 0) == Ok::<CpuView, RuntimeError>(self@));
                    }
                    Ok(())
                } else {
                    proof {
                        assert(first_pressed(s0.key) is None);
                        assert(self@ =~= (CpuView { pc: s0.pc, ..(CpuView { pc: pc2, ..s0 }) }));
                        assert(spec_exec(s0, opcode, 0) == Ok::<CpuView, RuntimeError>(self@));
                    }
                    Ok(())
                }
            } else if kk == 0x15 {
                self.delay_timer = self.v[x];
                self.pc = pc2;
                proof {
                    assert(spec_exec(s0, opcode, 0) == Ok::<CpuView, RuntimeError>(self@));
                }
                Ok(())
            } else if kk == 0x18 {
                self.sound_timer = self.v[x];
                self.pc = pc2;
                proof {
                    assert(spec_exec(s0, opcode, 0) == Ok::<CpuView, RuntimeError>(self@));
                }
                Ok(())
            } else if kk == 0x1E {
                self.i = self.i.wrapping_add(self.v[x] as u16);
                self.pc = pc2;
                proof {
                    assert(spec_exec(s0, opcode, 0) == Ok::<CpuView, RuntimeError>(self@));
                }
                Ok(())
            } else if kk == 0x29 {
                self.i = 5 * (self.v[x] % 16) as u16;
                self.pc = pc2;
                proof {
                    assert(spec_exec(s0, opcode, 0) == Ok::<CpuView, RuntimeError>(self@));
                }
                Ok(())
            } else if kk == 0x33 {
                if self.i as usize + 2 >= 4096 {
                    proof {
                        assert(spec_exec(s0, opcode, 0)
                            == Err::<CpuView, RuntimeError>(RuntimeError::AddressOutOfRange));
                    }
                    return Err(RuntimeError::AddressOutOfRange);
                }
                let ii = self.i as usize;
                let vx = self.v[x];
                self.memory.set(ii, vx / 100);
                self.memory.set(ii + 1, (vx / 10) % 10);
                self.memory.set(ii + 2, vx % 10);
                self.pc = pc2;
                proof {
                    assert(self@ =~= (CpuView {
                        memory: mem_after_bcd(s0.memory, s0.i as int, s0.v[x as int]),
                        pc: pc2,
                        ..s0
                    }));
                    assert(spec_exec(s0, opcode, 0) == Ok::<CpuView, RuntimeError>(self@));
                }
                Ok(())
            } else if kk == 0x55 {
                if self.i as usize + x >= 4096 {
                    proof {
                        assert(spec_exec(s0, opcode, 0)
                            == Err::<CpuView, RuntimeError>(RuntimeError::AddressOutOfRange));
                    }
                    return Err(RuntimeError::AddressOutOfRange);
                }
                let ii = self.i as usize;
                let mut k: usize = 0;
                while k <= x
                    invariant
                        self@ == (CpuView { memory: self.memory@, ..s0 }),
                        self.memory@.len() == 4096,
                        self.v@.len() == 16,
                        x < 16,
                        ii + x < 4096,
                        ii == s0.i,
                        k <= x + 1,
                        forall|j: int| ii <= j < ii + k ==> self.memory@[j] == s0.v[j - ii],
                        forall|j: int| 0 <= j < 4096 && !(ii <= j < ii + k)
                            ==> self.memory@[j] == s0.memory[j],
                    decreases x + 1 - k,
                {
                    self.memory.set(ii + k, self.v[k]);
                    k += 1;
                }
                if self.quirks.load_store_increments_i {
                    self.i = self.i + x as u16 + 1;
                }
                self.pc = pc2;
                proof {
                    assert(self.memory@ =~= mem_after_store(s0.memory, s0.v, s0.i as int,
                        x as int));
                    assert(self@ =~= (CpuView {
                        memory: mem_after_store(s0.memory, s0.v, s0.i as int, x as int),
                        i: if s0.quirks.load_store_increments_i {
                            (s0.i + x + 1) as u16
                        } else {
                            s0.i
                        },
                        pc: pc2,
                        ..s0
                    }));
                    assert(spec_exec(s0, opcode, 0) == Ok::<CpuView, RuntimeError>(self@));
                }
                Ok(())
            } else if kk == 0x65 {
                if self.i as usize + x >= 4096 {
                    proof {
                        assert(spec_exec(s0, opcode, 0)
                            == Err::<CpuView, RuntimeError>(RuntimeError::AddressOutOfRange));
                    }
                    return Err(RuntimeError::AddressOutOfRange);
                }
                let ii = self.i as usize;
                let mut k: usize = 0;
                while k <= x
                    invariant
                        self@ == (CpuView { v: self.v@, ..s0 }),
                        self.v@.len() == 16,
                        self.memory@.len() == 4096,
                        x < 16,
                        ii + x < 4096,
                        ii == s0.i,
                        k <= x + 1,
                        forall|rr: int| 0 <= rr < k ==> self.v@[rr] == s0.memory[ii + rr],
                        forall|rr: int| k <= rr < 16 ==> self.v@[rr] == s0.v[rr],
                    decreases x + 1 - k,
                {
                    let b = self.memory[ii + k];
                    self.v.set(k, b);
                    k += 1;
                }
                if self.quirks.load_store_increments_i {
                    self.i = self.i + x as u16 + 1;
                }
                self.pc = pc2;
                proof {
                    assert(self.v@ =~= regs_after_load(s0.v, s0.memory, s0.i as int, x as int));
                    assert(self@ =~= (CpuView {
                        v: regs_after_load(s0.v, s0.memory, s0.i as int, x as int),
                        i: if s0.quirks.load_store_increments_i {
                            (s0.i + x + 1) as u16
                        } else {
                            s0.i
                        },
                        pc: pc2,
                        ..s0
                    }));
                    assert(spec_exec(s0, opcode, 0) == Ok::<CpuView, RuntimeError>(self@));
                }
                Ok(())
            } else {
                proof {
                    assert(spec_exec(s0, opcode, 0)
                        == Err::<CpuView, RuntimeError>(RuntimeError::DecodeError));
                }
                Err(RuntimeError::DecodeError)
            }
        }
    }

    /// Fetches the instruction word at the program counter and executes it:
    /// one full step, exactly [`spec_step`] of the old state for some byte
    /// of the random source.
    pub fn read_rom(&mut self) -> (r: Result<(), RuntimeError>)
        requires
            old(self).wf(),
        ensures
            final(self).wf(),
            (match r {
                Ok(()) => exists|rb: u8|
                    spec_step(old(self)@, rb) == Ok::<CpuView, RuntimeError>(final(self)@),
                Err(e) => spec_step(old(self)@, 0) == Err::<CpuView, RuntimeError>(e)
                    && final(self)@ == old(self)@,
            }),
    {
        if self.pc >= 4095 {
            proof {
                assert(spec_fetch(self@) is None);
            }
            return Err(RuntimeError::AddressOutOfRange);
        }
        let hi = self.memory[self.pc as usize];
        let lo = self.memory[self.pc as usize + 1];
        let opcode = hi as u16 * 256 + lo as u16;
        proof {
            assert(spec_fetch(self@) == Some(opcode));
        }
        let r = self.process_opcode(opcode);
        proof {
            match r {
                Ok(_) => {
                    let rb = choose|rb: u8|
                        spec_exec(old(self)@, opcode, rb) == Ok::<CpuView, RuntimeError>(self@);
                    assert(spec_step(old(self)@, rb) == Ok::<CpuView, RuntimeError>(self@));
                },
                Err(e) => {
                    assert(spec_step(old(self)@, 0) == Err::<CpuView, RuntimeError>(e));
                },
            }
        }
        r
    }

    /// One emulated cycle: the step entry point the host calls once per
    /// emulated instruction. Identical to [`CPU::read_rom`].
    pub fn cycle(&mut self) -> (r: Result<(), RuntimeError>)
        requires
            old(self).wf(),
        ensures
            final(self).wf(),
            (match r {
                Ok(()) => exists|rb: u8|
                    spec_step(old(self)@, rb) == Ok::<CpuView, RuntimeError>(final(self)@),
                Err(e) => spec_step(old(self)@, 0) == Err::<CpuView, RuntimeError>(e)
                    && final(self)@ == old(self)@,
            }),
    {
        self.read_rom()
    }

    /// Records key `k` as released.
    pub fn release_key(&mut self, k: usize)
        requires
            old(self).wf(),
            k < 16,
        ensures
            final(self).wf(),
            final(self)@ == (CpuView { key: old(self)@.key.update(k as int, 0u8), ..old(self)@ }),
    {
        self.key.set(k, 0);
    }
}

} // verus!
