//! The decode/execute engine: one spec-level transition relation pins down
//! what every instruction does to the machine state, and the executable
//! dispatch is proved to realize it. The one instruction needing entropy
//! draws its byte behind a single trusted wrapper; its deterministic core
//! takes the byte as an argument and carries the exact contract.

use crate::device::{
    eq_except_display, eq_except_draw, eq_except_flow, eq_except_index, eq_except_memory,
    eq_except_pc, eq_except_regs, eq_except_timers, Chip8Error, Device,
};
use crate::display::{disp_view, draw_rows};
use crate::isa::{lemma_field_bounds, parse, parse_instr, Instr};
use rand::Rng;
use vstd::prelude::*;

verus! {

/// Memory after the block transfer that copies `register[0]..register[k-1]`
/// to consecutive addresses starting at `ip`.
pub open spec fn store_regs(mem: Seq<u8>, regs: Seq<u8>, ip: int, k: int) -> Seq<u8>
    decreases k,
{
    if k <= 0 {
        mem
    } else {
        store_regs(mem, regs, ip, k - 1).update(ip + (k - 1), regs[k - 1])
    }
}

/// Registers after the block transfer that loads `register[0]..register[k-1]`
/// from consecutive addresses starting at `ip`.
pub open spec fn load_regs(regs: Seq<u8>, mem: Seq<u8>, ip: int, k: int) -> Seq<u8>
    decreases k,
{
    if k <= 0 {
        regs
    } else {
        load_regs(regs, mem, ip, k - 1).update(k - 1, mem[ip + (k - 1)])
    }
}

/// The lowest index of a pressed key at or above `i`, or 16 when none is.
pub open spec fn first_pressed(keys: [bool; 16], i: int) -> int
    decreases 16 - i,
{
    if i < 0 || i >= 16 {
        16
    } else if keys[i] {
        i
    } else {
        first_pressed(keys, i + 1)
    }
}

/// The error, if any, that executing instruction word `i` in state `pre`
/// raises: a call on a full stack, a return on an empty one, a block
/// transfer or sprite read past the end of memory, or an encoding outside
/// the instruction set. The state is left untouched in every such case.
pub open spec fn decode_err(pre: Device, i: u16) -> Option<Chip8Error> {
    match parse_instr(i) {
        Instr::Ret => if pre.stack_pointer == 0 {
            Some(Chip8Error::StackUnderflow)
        } else {
            None
        },
        Instr::Call(_) => if pre.stack_pointer >= 48 {
            Some(Chip8Error::StackOverflow)
        } else {
            None
        },
        Instr::Draw(_, _, n) => if pre.instruction_pointer + n > 4096 {
            Some(Chip8Error::MemoryOutOfBounds)
        } else {
            None
        },
        Instr::StoreDigits(_) => if pre.instruction_pointer + 3 > 4096 {
            Some(Chip8Error::MemoryOutOfBounds)
        } else {
            None
        },
        Instr::StoreRegs(x) => if pre.instruction_pointer + x + 1 > 4096 {
            Some(Chip8Error::MemoryOutOfBounds)
        } else {
            None
        },
        Instr::LoadRegs(x) => if pre.instruction_pointer + x + 1 > 4096 {
            Some(Chip8Error::MemoryOutOfBounds)
        } else {
            None
        },
        Instr::Unknown => Some(Chip8Error::UnknownInstruction(i)),
        _ => None,
    }
}

/// The transition relation of the instruction set: `post` is the state
/// after executing instruction word `i` in state `pre` without error,
/// where `rnd` is the byte the randomness source supplied. Each arm states
/// the full effect; the `eq_except` conjunct carries every untouched
/// field.
pub open spec fn step_ok(pre: Device, post: Device, i: u16, rnd: u8) -> bool {
    match parse_instr(i) {
        Instr::Cls => {
            &&& eq_except_display(pre, post)
            &&& post.display_changed
            &&& forall|px: int, py: int|
                0 <= px < 64 && 0 <= py < 32 ==> #[trigger] post.display[px][py] == 0
        },
        Instr::Ret => {
            &&& eq_except_flow(pre, post)
            &&& post.stack == pre.stack
            &&& post.stack_pointer == pre.stack_pointer - 1
            &&& post.pc == pre.stack[pre.stack_pointer - 1]
        },
        Instr::Jump(nnn) => eq_except_pc(pre, post) && post.pc == nnn,
        Instr::Call(nnn) => {
            &&& eq_except_flow(pre, post)
            &&& post.stack@ == pre.stack@.update(pre.stack_pointer as int, pre.pc)
            &&& post.stack_pointer == pre.stack_pointer + 1
            &&& post.pc == nnn
        },
        Instr::SkipEqImm(x, nn) => {
            &&& eq_except_pc(pre, post)
            &&& post.pc == pre.pc + (if pre.registers[x as int] == nn {
                2int
            } else {
                0int
            })
        },
        Instr::SkipNeImm(x, nn) => {
            &&& eq_except_pc(pre, post)
            &&& post.pc == pre.pc + (if pre.registers[x as int] != nn {
                2int
            } else {
                0int
            })
        },
        Instr::SkipEqReg(x, y) => {
            &&& eq_except_pc(pre, post)
            &&& post.pc == pre.pc + (if pre.registers[x as int] == pre.registers[y as int] {
                2int
            } else {
                0int
            })
        },
        Instr::SetImm(x, nn) => {
            &&& eq_except_regs(pre, post)
            &&& post.registers@ == pre.registers@.update(x as int, nn)
        },
        Instr::AddImm(x, nn) => {
            &&& eq_except_regs(pre, post)
            &&& post.registers@ == pre.registers@.update(
                x as int,
                ((pre.registers[x as int] + nn) % 256) as u8,
            )
        },
        Instr::Mov(x, y) => {
            &&& eq_except_regs(pre, post)
            &&& post.registers@ == pre.registers@.update(x as int, pre.registers[y as int])
        },
        Instr::Or(x, y) => {
            &&& eq_except_regs(pre, post)
            &&& post.registers@ == pre.registers@.update(
                x as int,
                pre.registers[x as int] | pre.registers[y as int],
            )
        },
        Instr::And(x, y) => {
            &&& eq_except_regs(pre, post)
            &&& post.registers@ == pre.registers@.update(
                x as int,
                pre.registers[x as int] & pre.registers[y as int],
            )
        },
        Instr::Xor(x, y) => {
            &&& eq_except_regs(pre, post)
            &&& post.registers@ == pre.registers@.update(
                x as int,
                pre.registers[x as int] ^ pre.registers[y as int],
            )
        },
        Instr::AddCarry(x, y) => {
            let a = pre.registers[x as int];
            let b = pre.registers[y as int];
            &&& eq_except_regs(pre, post)
            &&& post.registers@ == pre.registers@.update(x as int, ((a + b) % 256) as u8).update(
                15,
                if a + b > 255 {
                    1u8
                } else {
                    0u8
                },
            )
        },
        Instr::SubBorrow(x, y) => {
            let a = pre.registers[x as int];
            let b = pre.registers[y as int];
            let r1 = pre.registers@.update(
                15,
                if a > b {
                    1u8
                } else {
                    0u8
                },
            );
            &&& eq_except_regs(pre, post)
            &&& post.registers@ == r1.update(
                x as int,
                ((r1[x as int] - r1[y as int]) % 256) as u8,
            )
        },
        Instr::ShiftRight(x) => {
            let r1 = pre.registers@.update(15, pre.registers[x as int] & 1);
            &&& eq_except_regs(pre, post)
            &&& post.registers@ == r1.update(x as int, r1[x as int] >> 1u8)
        },
        Instr::SubReverse(x, y) => {
            let a = pre.registers[x as int];
            let b = pre.registers[y as int];
            let r1 = pre.registers@.update(
                15,
                if b > a {
                    1u8
                } else {
                    0u8
                },
            );
            &&& eq_except_regs(pre, post)
            &&& post.registers@ == r1.update(
                x as int,
                ((r1[y as int] - r1[x as int]) % 256) as u8,
            )
        },
        Instr::ShiftLeft(x) => {
            let r1 = pre.registers@.update(15, (pre.registers[x as int] >> 7u8) & 1);
            &&& eq_except_regs(pre, post)
            &&& post.registers@ == r1.update(x as int, ((2 * r1[x as int]) % 256) as u8)
        },
        Instr::SkipNeReg(x, y) => {
            &&& eq_except_pc(pre, post)
            &&& post.pc == pre.pc + (if pre.registers[x as int] != pre.registers[y as int] {
                2int
            } else {
                0int
            })
        },
        Instr::SetIndex(nnn) => eq_except_index(pre, post) && post.instruction_pointer == nnn,
        Instr::JumpOffset(nnn) => eq_except_pc(pre, post) && post.pc == pre.registers[0] + nnn,
        Instr::RandMask(x, nn) => {
            &&& eq_except_regs(pre, post)
            &&& post.registers@ == pre.registers@.update(x as int, nn & rnd)
        },
        Instr::Draw(x, y, n) => {
            let res = draw_rows(
                disp_view(pre.display),
                0,
                pre.registers[x as int] as int,
                pre.registers[y as int] as int,
                pre.memory@,
                pre.instruction_pointer as int,
                n as int,
            );
            &&& eq_except_draw(pre, post)
            &&& disp_view(post.display) == res.0
            &&& post.registers@ == pre.registers@.update(15, res.1)
            &&& post.display_changed
        },
        Instr::SkipKeyPressed(x) => {
            &&& eq_except_pc(pre, post)
            &&& post.pc == pre.pc + (if pre.keyboard[(pre.registers[x as int] & 0x0F) as int] {
                2int
            } else {
                0int
            })
        },
        Instr::SkipKeyNotPressed(x) => {
            &&& eq_except_pc(pre, post)
            &&& post.pc == pre.pc + (if !pre.keyboard[(pre.registers[x as int] & 0x0F) as int] {
                2int
            } else {
                0int
            })
        },
        Instr::ReadDelay(x) => {
            &&& eq_except_regs(pre, post)
            &&& post.registers@ == pre.registers@.update(x as int, pre.delay_timer)
        },
        Instr::WaitKey(x) => {
            let k = first_pressed(pre.keyboard, 0);
            if k < 16 {
                &&& eq_except_regs(pre, post)
                &&& post.registers@ == pre.registers@.update(x as int, k as u8)
            } else {
                &&& eq_except_pc(pre, post)
                &&& post.pc == pre.pc - 2
            }
        },
        Instr::SetDelay(x) => {
            &&& eq_except_timers(pre, post)
            &&& post.delay_timer == pre.registers[x as int]
            &&& post.sound_timer == pre.sound_timer
        },
        Instr::SetSound(x) => {
            &&& eq_except_timers(pre, post)
            &&& post.sound_timer == pre.registers[x as int]
            &&& post.delay_timer == pre.delay_timer
        },
        Instr::AddIndex(x) => {
            &&& eq_except_index(pre, post)
            &&& post.instruction_pointer == ((pre.instruction_pointer + pre.registers[x as int])
                % 0x10000) as u16
        },
        Instr::FontIndex(x) => {
            &&& eq_except_index(pre, post)
            &&& post.instruction_pointer == 5 * pre.registers[x as int]
        },
        Instr::StoreDigits(x) => {
            let v = pre.registers[x as int];
            let ip = pre.instruction_pointer as int;
            &&& eq_except_memory(pre, post)
            &&& post.memory@ == pre.memory@.update(ip, (v / 100) as u8).update(
                ip + 1,
                ((v / 10) % 10) as u8,
            ).update(ip + 2, (v % 10) as u8)
        },
        Instr::StoreRegs(x) => {
            &&& eq_except_memory(pre, post)
            &&& post.memory@ == store_regs(
                pre.memory@,
                pre.registers@,
                pre.instruction_pointer as int,
                x as int + 1,
            )
        },
        Instr::LoadRegs(x) => {
            &&& eq_except_regs(pre, post)
            &&& post.registers@ == load_regs(
                pre.registers@,
                pre.memory@,
                pre.instruction_pointer as int,
                x as int + 1,
            )
        },
        Instr::Unknown => false,
    }
}

/// Relies on rand::rngs::ThreadRng through rand::Rng::gen_range over the
/// full byte range: one uniformly drawn byte. Nothing is promised of the
/// value; every caller must hold for every byte that could come back.
#[verifier::external_body]
fn random_byte() -> u8 {
    let mut rng = rand::thread_rng();
    rng.gen_range(0..=255)
}

impl Device {
    /// The lowest-numbered key currently pressed, if any.
    fn first_key_pressed(&self) -> (r: Option<u8>)
        ensures
            match r {
                Some(k) => first_pressed(self.keyboard, 0) == k as int && k < 16,
                None => first_pressed(self.keyboard, 0) == 16,
            },
    {
        let mut i: usize = 0;
        while i < 16
            invariant
                0 <= i <= 16,
                first_pressed(self.keyboard, 0) == first_pressed(self.keyboard, i as int),
            decreases 16 - i,
        {
            if self.keyboard[i] {
                return Some(i as u8);
            }
            i = i + 1;
        }
        None
    }

    /// Execute one instruction deterministically: `rnd` stands in for the
    /// byte the randomness source would supply, so the whole effect is a
    /// function of the arguments. The program counter must be the
    /// post-fetch value: at least 2 (a waiting instruction rewinds it by
    /// 2) and low enough that a skip cannot overflow it.
    pub fn decode_with_random(&mut self, instruction: u16, rnd: u8) -> (r: Result<
        (),
        Chip8Error,
    >)
        requires
            old(self).wf(),
            2 <= old(self).pc,
            old(self).pc + 2 <= 0xFFFF,
        ensures
            final(self).wf(),
            match decode_err(*old(self), instruction) {
                Some(e) => r == Err::<(), Chip8Error>(e) && *final(self) == *old(self),
                None => r is Ok && step_ok(*old(self), *final(self), instruction, rnd),
            },
    {
        proof {
            lemma_field_bounds(instruction);
        }
        let instr = parse(instruction);
        match instr {
            Instr::Cls => {
                self.clear_display();
                Ok(())
            },
            Instr::Ret => self.return_from_subroutine(),
            Instr::Jump(nnn) => {
                self.pc = nnn;
                Ok(())
            },
            Instr::Call(nnn) => self.call_subroutine(nnn),
            Instr::SkipEqImm(x, nn) => {
                if self.registers[x as usize] == nn {
                    self.pc = self.pc + 2;
                }
                Ok(())
            },
            Instr::SkipNeImm(x, nn) => {
                if self.registers[x as usize] != nn {
                    self.pc = self.pc + 2;
                }
                Ok(())
            },
            Instr::SkipEqReg(x, y) => {
                if self.registers[x as usize] == self.registers[y as usize] {
                    self.pc = self.pc + 2;
                }
                Ok(())
            },
            Instr::SetImm(x, nn) => {
                self.registers[x as usize] = nn;
                Ok(())
            },
            Instr::AddImm(x, nn) => {
                let a = self.registers[x as usize];
                let s: u16 = (a as u16) + (nn as u16);
                self.registers[x as usize] = (s % 256) as u8;
                Ok(())
            },
            Instr::Mov(x, y) => {
                let v = self.registers[y as usize];
                self.registers[x as usize] = v;
                Ok(())
            },
            Instr::Or(x, y) => {
                let v = self.registers[x as usize] | self.registers[y as usize];
                self.registers[x as usize] = v;
                Ok(())
            },
            Instr::And(x, y) => {
                let v = self.registers[x as usize] & self.registers[y as usize];
                self.registers[x as usize] = v;
                Ok(())
            },
            Instr::Xor(x, y) => {
                let v = self.registers[x as usize] ^ self.registers[y as usize];
                self.registers[x as usize] = v;
                Ok(())
            },
            Instr::AddCarry(x, y) => {
                let a = self.registers[x as usize];
                let b = self.registers[y as usize];
                let s: u16 = (a as u16) + (b as u16);
                self.registers[x as usize] = (s % 256) as u8;
                self.registers[15] = if s > 255 {
                    1
                } else {
                    0
                };
                Ok(())
            },
            Instr::SubBorrow(x, y) => {
                let a = self.registers[x as usize];
                let b = self.registers[y as usize];
                self.registers[15] = if a > b {
                    1
                } else {
                    0
                };
                let a2 = self.registers[x as usize];
                let b2 = self.registers[y as usize];
                let d: u16 = (a2 as u16) + 256 - (b2 as u16);
                proof {
                    vstd::arithmetic::div_mod::lemma_mod_add_multiples_vanish(
                        a2 as int - b2 as int,
                        256,
                    );
                    vstd::arithmetic::div_mod::lemma_mod_bound(a2 as int - b2 as int, 256);
                }
                self.registers[x as usize] = (d % 256) as u8;
                Ok(())
            },
            Instr::ShiftRight(x) => {
                let a = self.registers[x as usize];
                self.registers[15] = a & 1;
                let v = self.registers[x as usize];
                self.registers[x as usize] = v >> 1u8;
                Ok(())
            },
            Instr::SubReverse(x, y) => {
                let a = self.registers[x as usize];
                let b = self.registers[y as usize];
                self.registers[15] = if b > a {
                    1
                } else {
                    0
                };
                let a2 = self.registers[x as usize];
                let b2 = self.registers[y as usize];
                let d: u16 = (b2 as u16) + 256 - (a2 as u16);
                proof {
                    vstd::arithmetic::div_mod::lemma_mod_add_multiples_vanish(
                        b2 as int - a2 as int,
                        256,
                    );
                    vstd::arithmetic::div_mod::lemma_mod_bound(b2 as int - a2 as int, 256);
                }
                self.registers[x as usize] = (d % 256) as u8;
                Ok(())
            },
            Instr::ShiftLeft(x) => {
                let a = self.registers[x as usize];
                self.registers[15] = (a >> 7u8) & 1;
                let v = self.registers[x as usize];
                let s: u16 = (v as u16) * 2;
                self.registers[x as usize] = (s % 256) as u8;
                Ok(())
            },
            Instr::SkipNeReg(x, y) => {
                if self.registers[x as usize] != self.registers[y as usize] {
                    self.pc = self.pc + 2;
                }
                Ok(())
            },
            Instr::SetIndex(nnn) => {
                self.instruction_pointer = nnn;
                Ok(())
            },
            Instr::JumpOffset(nnn) => {
                self.pc = (self.registers[0] as u16) + nnn;
                Ok(())
            },
            Instr::RandMask(x, nn) => {
                self.registers[x as usize] = nn & rnd;
                Ok(())
            },
            Instr::Draw(x, y, n) => {
                let xc = self.registers[x as usize];
                let yc = self.registers[y as usize];
                self.draw_sprite(xc, yc, n)
            },
            Instr::SkipKeyPressed(x) => {
                let v = self.registers[x as usize];
                let key = v & 0x0F;
                proof {
                    assert((v & 0x0F) < 16) by (bit_vector);
                }
                if self.keyboard[key as usize] {
                    self.pc = self.pc + 2;
                }
                Ok(())
            },
            Instr::SkipKeyNotPressed(x) => {
                let v = self.registers[x as usize];
                let key = v & 0x0F;
                proof {
                    assert((v & 0x0F) < 16) by (bit_vector);
                }
                if !self.keyboard[key as usize] {
                    self.pc = self.pc + 2;
                }
                Ok(())
            },
            Instr::ReadDelay(x) => {
                self.registers[x as usize] = self.delay_timer;
                Ok(())
            },
            Instr::WaitKey(x) => {
                match self.first_key_pressed() {
                    Some(k) => {
                        self.registers[x as usize] = k;
                    },
                    None => {
                        self.pc = self.pc - 2;
                    },
                }
                Ok(())
            },
            Instr::SetDelay(x) => {
                self.delay_timer = self.registers[x as usize];
                Ok(())
            },
            Instr::SetSound(x) => {
                self.sound_timer = self.registers[x as usize];
                Ok(())
            },
            Instr::AddIndex(x) => {
                let s: u32 = (self.instruction_pointer as u32) + (self.registers[x as usize]
                    as u32);
                self.instruction_pointer = (s % 65536) as u16;
                Ok(())
            },
            Instr::FontIndex(x) => {
                self.instruction_pointer = (self.registers[x as usize] as u16) * 5;
                Ok(())
            },
            Instr::StoreDigits(x) => {
                if (self.instruction_pointer as usize) + 3 > 4096 {
                    return Err(Chip8Error::MemoryOutOfBounds);
                }
                let ip = self.instruction_pointer as usize;
                let v = self.registers[x as usize];
                self.memory[ip] = v / 100;
                self.memory[ip + 1] = (v / 10) % 10;
                self.memory[ip + 2] = v % 10;
                Ok(())
            },
            Instr::StoreRegs(x) => {
                if (self.instruction_pointer as usize) + (x as usize) + 1 > 4096 {
                    return Err(Chip8Error::MemoryOutOfBounds);
                }
                let ip = self.instruction_pointer as usize;
                let mut i: usize = 0;
                while i < (x as usize) + 1
                    invariant
                        old(self).wf(),
                        x < 16,
                        0 <= i <= x as int + 1,
                        ip == old(self).instruction_pointer,
                        ip + x + 1 <= 4096,
                        eq_except_memory(*old(self), *self),
                        self.memory@ == store_regs(
                            old(self).memory@,
                            old(self).registers@,
                            ip as int,
                            i as int,
                        ),
                    decreases x as int + 1 - i,
                {
                    self.memory[ip + i] = self.registers[i];
                    i = i + 1;
                }
                Ok(())
            },
            Instr::LoadRegs(x) => {
                if (self.instruction_pointer as usize) + (x as usize) + 1 > 4096 {
                    return Err(Chip8Error::MemoryOutOfBounds);
                }
                let ip = self.instruction_pointer as usize;
                let mut i: usize = 0;
                while i < (x as usize) + 1
                    invariant
                        old(self).wf(),
                        x < 16,
                        0 <= i <= x as int + 1,
                        ip == old(self).instruction_pointer,
                        ip + x + 1 <= 4096,
                        eq_except_regs(*old(self), *self),
                        self.registers@ == load_regs(
                            old(self).registers@,
                            old(self).memory@,
                            ip as int,
                            i as int,
                        ),
                    decreases x as int + 1 - i,
                {
                    self.registers[i] = self.memory[ip + i];
                    i = i + 1;
                }
                Ok(())
            },
            Instr::Unknown => Err(Chip8Error::UnknownInstruction(instruction)),
        }
    }

    /// Execute one instruction, drawing the byte for the masked-random
    /// instruction from the process randomness source. The effect is that
    /// of the deterministic core for some byte value.
    pub fn decode(&mut self, instruction: u16) -> (r: Result<(), Chip8Error>)
        requires
            old(self).wf(),
            2 <= old(self).pc,
            old(self).pc + 2 <= 0xFFFF,
        ensures
            final(self).wf(),
            match decode_err(*old(self), instruction) {
                Some(e) => r == Err::<(), Chip8Error>(e) && *final(self) == *old(self),
                None => r is Ok && exists|rnd: u8|
                    step_ok(*old(self), *final(self), instruction, rnd),
            },
    {
        let rnd: u8 = if matches!(parse(instruction), Instr::RandMask(_, _)) {
            random_byte()
        } else {
            0
        };
        let r = self.decode_with_random(instruction, rnd);
        proof {
            if decode_err(*old(self), instruction) is None {
                assert(step_ok(*old(self), *self, instruction, rnd));
            }
        }
        r
    }
}

} // verus!
