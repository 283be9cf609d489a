//! The machine state: memory, registers, call stack, pointers, timers,
//! keyboard mirror and pixel grid, together with the operations that do not
//! depend on instruction decoding: construction, instruction fetch, the
//! bounded call stack, the timer tick, and the loader entry points.

use vstd::prelude::*;

verus! {

/// An error raised by the interpreter core. Stack overflow, stack
/// underflow and out-of-range memory accesses are fatal: they indicate a
/// corrupted or malicious program. An unknown instruction encoding is
/// recoverable: the program counter already points past it, so a host may
/// report it and resume the cycle loop. An oversized program image is
/// rejected by the loader before execution starts.
#[derive(Clone, Copy, Debug, PartialEq, Eq, Structural)]
pub enum Chip8Error {
    StackOverflow,
    StackUnderflow,
    MemoryOutOfBounds,
    RomTooLarge,
    UnknownInstruction(u16),
}

impl Chip8Error {
    /// A fatal error must stop execution; a recoverable one may be
    /// reported and skipped by the host.
    pub fn is_fatal(&self) -> (r: bool)
        ensures
            r == !(self is UnknownInstruction),
    {
        !matches!(self, Chip8Error::UnknownInstruction(_))
    }
}

/// The single exclusively-owned machine state. All mutation goes through
/// the fetch, decode, timer-tick and loader operations; the keyboard
/// mirror and, for presentation, the display and dirty flag are written
/// and read directly by the host collaborators.
pub struct Device {
    pub pc: u16,
    pub stack: [u16; 48],
    pub stack_pointer: u16,
    pub instruction_pointer: u16,
    pub memory: [u8; 4096],
    pub registers: [u8; 16],
    pub keyboard: [bool; 16],
    pub display: [[u8; 32]; 64],
    pub delay_timer: u8,
    pub sound_timer: u8,
    pub display_changed: bool,
}

/// One tick of a saturating countdown timer.
pub open spec fn sat_dec(t: u8) -> u8 {
    if t > 0 {
        (t - 1) as u8
    } else {
        0
    }
}

/// The 16-bit word read big-endian from two bytes.
pub open spec fn word(hi: u8, lo: u8) -> u16 {
    (256 * (hi as int) + (lo as int)) as u16
}

/// The instruction that a fetch at the current program counter returns.
pub open spec fn fetched_instr(s: Device) -> u16 {
    word(s.memory[s.pc as int], s.memory[s.pc as int + 1])
}

/// All fields of `b` equal those of `a` except the program counter.
pub open spec fn eq_except_pc(a: Device, b: Device) -> bool {
    &&& b.stack == a.stack
    &&& b.stack_pointer == a.stack_pointer
    &&& b.instruction_pointer == a.instruction_pointer
    &&& b.memory == a.memory
    &&& b.registers == a.registers
    &&& b.keyboard == a.keyboard
    &&& b.display == a.display
    &&& b.delay_timer == a.delay_timer
    &&& b.sound_timer == a.sound_timer
    &&& b.display_changed == a.display_changed
}

/// Equal except the general registers.
pub open spec fn eq_except_regs(a: Device, b: Device) -> bool {
    &&& b.pc == a.pc
    &&& b.stack == a.stack
    &&& b.stack_pointer == a.stack_pointer
    &&& b.instruction_pointer == a.instruction_pointer
    &&& b.memory == a.memory
    &&& b.keyboard == a.keyboard
    &&& b.display == a.display
    &&& b.delay_timer == a.delay_timer
    &&& b.sound_timer == a.sound_timer
    &&& b.display_changed == a.display_changed
}

/// Equal except the control-flow state: program counter, stack and stack
/// pointer.
pub open spec fn eq_except_flow(a: Device, b: Device) -> bool {
    &&& b.instruction_pointer == a.instruction_pointer
    &&& b.memory == a.memory
    &&& b.registers == a.registers
    &&& b.keyboard == a.keyboard
    &&& b.display == a.display
    &&& b.delay_timer == a.delay_timer
    &&& b.sound_timer == a.sound_timer
    &&& b.display_changed == a.display_changed
}

/// Equal except the index pointer.
pub open spec fn eq_except_index(a: Device, b: Device) -> bool {
    &&& b.pc == a.pc
    &&& b.stack == a.stack
    &&& b.stack_pointer == a.stack_pointer
    &&& b.memory == a.memory
    &&& b.registers == a.registers
    &&& b.keyboard == a.keyboard
    &&& b.display == a.display
    &&& b.delay_timer == a.delay_timer
    &&& b.sound_timer == a.sound_timer
    &&& b.display_changed == a.display_changed
}

/// Equal except memory.
pub open spec fn eq_except_memory(a: Device, b: Device) -> bool {
    &&& b.pc == a.pc
    &&& b.stack == a.stack
    &&& b.stack_pointer == a.stack_pointer
    &&& b.instruction_pointer == a.instruction_pointer
    &&& b.registers == a.registers
    &&& b.keyboard == a.keyboard
    &&& b.display == a.display
    &&& b.delay_timer == a.delay_timer
    &&& b.sound_timer == a.sound_timer
    &&& b.display_changed == a.display_changed
}

/// Equal except the pixel grid and its dirty flag.
pub open spec fn eq_except_display(a: Device, b: Device) -> bool {
    &&& b.pc == a.pc
    &&& b.stack == a.stack
    &&& b.stack_pointer == a.stack_pointer
    &&& b.instruction_pointer == a.instruction_pointer
    &&& b.memory == a.memory
    &&& b.registers == a.registers
    &&& b.keyboard == a.keyboard
    &&& b.delay_timer == a.delay_timer
    &&& b.sound_timer == a.sound_timer
}

/// Equal except the pixel grid, its dirty flag, and the registers (a
/// sprite draw writes the collision flag).
pub open spec fn eq_except_draw(a: Device, b: Device) -> bool {
    &&& b.pc == a.pc
    &&& b.stack == a.stack
    &&& b.stack_pointer == a.stack_pointer
    &&& b.instruction_pointer == a.instruction_pointer
    &&& b.memory == a.memory
    &&& b.keyboard == a.keyboard
    &&& b.delay_timer == a.delay_timer
    &&& b.sound_timer == a.sound_timer
}

/// Equal except the two countdown timers.
pub open spec fn eq_except_timers(a: Device, b: Device) -> bool {
    &&& b.pc == a.pc
    &&& b.stack == a.stack
    &&& b.stack_pointer == a.stack_pointer
    &&& b.instruction_pointer == a.instruction_pointer
    &&& b.memory == a.memory
    &&& b.registers == a.registers
    &&& b.keyboard == a.keyboard
    &&& b.display == a.display
    &&& b.display_changed == a.display_changed
}

impl Device {
    /// Well-formedness: the stack pointer stays within the 48-entry stack
    /// and every pixel holds a single bit.
    pub open spec fn wf(self) -> bool {
        &&& self.stack_pointer <= 48
        &&& forall|x: int, y: int|
            0 <= x < 64 && 0 <= y < 32 ==> #[trigger] self.display[x][y] <= 1
    }

    /// A fresh machine: everything zeroed, the program counter at the
    /// conventional program start 0x200.
    pub fn new() -> (d: Device)
        ensures
            d.wf(),
            d.pc == 0x200,
            d.stack_pointer == 0,
            d.instruction_pointer == 0,
            forall|i: int| 0 <= i < 4096 ==> #[trigger] d.memory[i] == 0,
            forall|i: int| 0 <= i < 16 ==> #[trigger] d.registers[i] == 0,
            forall|i: int| 0 <= i < 48 ==> #[trigger] d.stack[i] == 0,
            forall|i: int| 0 <= i < 16 ==> !(#[trigger] d.keyboard[i]),
            forall|x: int, y: int|
                0 <= x < 64 && 0 <= y < 32 ==> #[trigger] d.display[x][y] == 0,
            d.delay_timer == 0,
            d.sound_timer == 0,
            !d.display_changed,
    {
        Device {
            pc: 0x200,
            stack: [0; 48],
            stack_pointer: 0,
            instruction_pointer: 0,
            memory: [0; 4096],
            registers: [0; 16],
            keyboard: [false; 16],
            display: [[0; 32]; 64],
            delay_timer: 0,
            sound_timer: 0,
            display_changed: false,
        }
    }

    /// Read the two bytes at the program counter, compose them big-endian,
    /// and advance the counter past them. Fails, leaving the state
    /// untouched, when the second byte would lie outside memory.
    pub fn fetch(&mut self) -> (r: Result<u16, Chip8Error>)
        requires
            old(self).wf(),
        ensures
            final(self).wf(),
            old(self).pc + 1 < 4096 ==> {
                &&& r == Ok::<u16, Chip8Error>(fetched_instr(*old(self)))
                &&& final(self).pc == old(self).pc + 2
                &&& eq_except_pc(*old(self), *final(self))
            },
            old(self).pc + 1 >= 4096 ==> {
                &&& r == Err::<u16, Chip8Error>(Chip8Error::MemoryOutOfBounds)
                &&& *final(self) == *old(self)
            },
    {
        if (self.pc as usize) + 1 < 4096 {
            let hi = self.memory[self.pc as usize];
            let lo = self.memory[(self.pc as usize) + 1];
            let instruction: u16 = ((hi as u16) << 8) | (lo as u16);
            proof {
                assert((((hi as u16) << 8) | (lo as u16)) == 256 * (hi as u16) + (lo as u16))
                    by (bit_vector);
            }
            self.pc = self.pc + 2;
            Ok(instruction)
        } else {
            Err(Chip8Error::MemoryOutOfBounds)
        }
    }

    /// Push the current program counter and jump to `address`. Fails with
    /// a stack overflow, leaving the state untouched, when all 48 stack
    /// slots are in use.
    pub fn call_subroutine(&mut self, address: u16) -> (r: Result<(), Chip8Error>)
        requires
            old(self).wf(),
        ensures
            final(self).wf(),
            old(self).stack_pointer < 48 ==> {
                &&& r is Ok
                &&& eq_except_flow(*old(self), *final(self))
                &&& final(self).stack@ == old(self).stack@.update(
                    old(self).stack_pointer as int,
                    old(self).pc,
                )
                &&& final(self).stack_pointer == old(self).stack_pointer + 1
                &&& final(self).pc == address
            },
            old(self).stack_pointer >= 48 ==> {
                &&& r == Err::<(), Chip8Error>(Chip8Error::StackOverflow)
                &&& *final(self) == *old(self)
            },
    {
        if self.stack_pointer < 48 {
            self.stack[self.stack_pointer as usize] = self.pc;
            self.stack_pointer = self.stack_pointer + 1;
            self.pc = address;
            Ok(())
        } else {
            Err(Chip8Error::StackOverflow)
        }
    }

    /// Pop the most recent return address into the program counter. Fails
    /// with a stack underflow, leaving the state untouched, when the stack
    /// is empty.
    pub fn return_from_subroutine(&mut self) -> (r: Result<(), Chip8Error>)
        requires
            old(self).wf(),
        ensures
            final(self).wf(),
            old(self).stack_pointer > 0 ==> {
                &&& r is Ok
                &&& eq_except_flow(*old(self), *final(self))
                &&& final(self).stack == old(self).stack
                &&& final(self).stack_pointer == old(self).stack_pointer - 1
                &&& final(self).pc == old(self).stack[old(self).stack_pointer - 1]
            },
            old(self).stack_pointer == 0 ==> {
                &&& r == Err::<(), Chip8Error>(Chip8Error::StackUnderflow)
                &&& *final(self) == *old(self)
            },
    {
        if self.stack_pointer > 0 {
            self.stack_pointer = self.stack_pointer - 1;
            self.pc = self.stack[self.stack_pointer as usize];
            Ok(())
        } else {
            Err(Chip8Error::StackUnderflow)
        }
    }

    /// One external frame tick: each timer counts down by one and
    /// saturates at zero.
    pub fn update_timers(&mut self)
        requires
            old(self).wf(),
        ensures
            final(self).wf(),
            eq_except_timers(*old(self), *final(self)),
            final(self).delay_timer == sat_dec(old(self).delay_timer),
            final(self).sound_timer == sat_dec(old(self).sound_timer),
    {
        if self.delay_timer > 0 {
            self.delay_timer = self.delay_timer - 1;
        }
        if self.sound_timer > 0 {
            self.sound_timer = self.sound_timer - 1;
        }
    }

    /// Write a program image verbatim at the conventional start address
    /// 0x200. An image larger than the 3584 bytes above that address is
    /// rejected whole.
    pub fn load_rom(&mut self, rom: &[u8]) -> (r: Result<(), Chip8Error>)
        requires
            old(self).wf(),
        ensures
            final(self).wf(),
            rom@.len() <= 4096 - 0x200 ==> {
                &&& r is Ok
                &&& eq_except_memory(*old(self), *final(self))
                &&& forall|j: int|
                    0 <= j < 4096 ==> #[trigger] final(self).memory[j] == if 0x200 <= j < 0x200
                        + rom@.len() {
                        rom@[j - 0x200]
                    } else {
                        old(self).memory[j]
                    }
            },
            rom@.len() > 4096 - 0x200 ==> {
                &&& r == Err::<(), Chip8Error>(Chip8Error::RomTooLarge)
                &&& *final(self) == *old(self)
            },
    {
        if rom.len() > 4096 - 0x200 {
            return Err(Chip8Error::RomTooLarge);
        }
        let mut i: usize = 0;
        while i < rom.len()
            invariant
                old(self).wf(),
                self.wf(),
                rom@.len() <= 4096 - 0x200,
                0 <= i <= rom@.len(),
                eq_except_memory(*old(self), *self),
                forall|j: int|
                    0 <= j < 4096 ==> #[trigger] self.memory[j] == if 0x200 <= j < 0x200
                        + i {
                        rom@[j - 0x200]
                    } else {
                        old(self).memory[j]
                    },
            decreases rom@.len() - i,
        {
            self.memory[0x200 + i] = rom[i];
            i = i + 1;
        }
        Ok(())
    }

    /// Write the 80-byte font table (16 glyphs of 5 bytes) at address 0,
    /// the base the glyph-locating instruction's `register * 5` formula
    /// assumes.
    pub fn load_font(&mut self, font: &[u8])
        requires
            old(self).wf(),
            font@.len() == 80,
        ensures
            final(self).wf(),
            eq_except_memory(*old(self), *final(self)),
            forall|j: int|
                0 <= j < 4096 ==> #[trigger] final(self).memory[j] == if j < 80 {
                    font@[j]
                } else {
                    old(self).memory[j]
                },
    {
        let mut i: usize = 0;
        while i < 80
            invariant
                old(self).wf(),
                self.wf(),
                font@.len() == 80,
                0 <= i <= 80,
                eq_except_memory(*old(self), *self),
                forall|j: int|
                    0 <= j < 4096 ==> #[trigger] self.memory[j] == if j < i {
                        font@[j]
                    } else {
                        old(self).memory[j]
                    },
            decreases 80 - i,
        {
            self.memory[i] = font[i];
            i = i + 1;
        }
    }
}

} // verus!
