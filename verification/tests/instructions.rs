//! Behaviour of the arithmetic, logic, control-flow and register-transfer
//! instructions, exercised through the public fetch/decode cycle.

use chip8::device::{Chip8Error, Device};

fn fresh() -> Device {
    Device::new()
}

#[test]
fn add_with_carry_sets_flag_on_overflow() {
    let mut d = fresh();
    d.registers[1] = 200;
    d.registers[2] = 100;
    assert_eq!(d.decode_with_random(0x8124, 0), Ok(()));
    assert_eq!(d.registers[1], 44);
    assert_eq!(d.registers[15], 1);
}

#[test]
fn add_with_carry_clears_flag_without_overflow() {
    let mut d = fresh();
    d.registers[1] = 20;
    d.registers[2] = 30;
    d.registers[15] = 1;
    assert_eq!(d.decode_with_random(0x8124, 0), Ok(()));
    assert_eq!(d.registers[1], 50);
    assert_eq!(d.registers[15], 0);
}

#[test]
fn add_with_carry_boundary_pair() {
    // 255 + 1 wraps to 0 with the carry set; 255 + 0 does not.
    let mut d = fresh();
    d.registers[0] = 255;
    d.registers[1] = 1;
    assert_eq!(d.decode_with_random(0x8014, 0), Ok(()));
    assert_eq!(d.registers[0], 0);
    assert_eq!(d.registers[15], 1);

    let mut e = fresh();
    e.registers[0] = 255;
    e.registers[1] = 0;
    assert_eq!(e.decode_with_random(0x8014, 0), Ok(()));
    assert_eq!(e.registers[0], 255);
    assert_eq!(e.registers[15], 0);
}

#[test]
fn sub_with_borrow_flag_iff_strictly_greater() {
    let mut d = fresh();
    d.registers[1] = 100;
    d.registers[2] = 30;
    assert_eq!(d.decode_with_random(0x8125, 0), Ok(()));
    assert_eq!(d.registers[1], 70);
    assert_eq!(d.registers[15], 1);

    let mut e = fresh();
    e.registers[1] = 30;
    e.registers[2] = 100;
    assert_eq!(e.decode_with_random(0x8125, 0), Ok(()));
    assert_eq!(e.registers[1], 186); // (30 - 100) mod 256
    assert_eq!(e.registers[15], 0);

    let mut f = fresh();
    f.registers[1] = 50;
    f.registers[2] = 50;
    assert_eq!(f.decode_with_random(0x8125, 0), Ok(()));
    assert_eq!(f.registers[1], 0);
    assert_eq!(f.registers[15], 0); // equal values: no strict excess
}

#[test]
fn sub_reverse_takes_y_minus_x() {
    let mut d = fresh();
    d.registers[1] = 10;
    d.registers[2] = 25;
    assert_eq!(d.decode_with_random(0x8127, 0), Ok(()));
    assert_eq!(d.registers[1], 15);
    assert_eq!(d.registers[15], 1);
}

#[test]
fn sub_reverse_without_excess_clears_flag() {
    let mut d = fresh();
    d.registers[1] = 25;
    d.registers[2] = 10;
    d.registers[15] = 1;
    assert_eq!(d.decode_with_random(0x8127, 0), Ok(()));
    assert_eq!(d.registers[1], 241); // (10 - 25) mod 256
    assert_eq!(d.registers[15], 0);
}

#[test]
fn logic_ops_write_register_x() {
    let mut d = fresh();
    d.registers[1] = 0b1100;
    d.registers[2] = 0b1010;
    assert_eq!(d.decode_with_random(0x8121, 0), Ok(())); // or
    assert_eq!(d.registers[1], 0b1110);

    d.registers[1] = 0b1100;
    assert_eq!(d.decode_with_random(0x8122, 0), Ok(())); // and
    assert_eq!(d.registers[1], 0b1000);

    d.registers[1] = 0b1100;
    assert_eq!(d.decode_with_random(0x8123, 0), Ok(())); // xor
    assert_eq!(d.registers[1], 0b0110);

    assert_eq!(d.decode_with_random(0x8120, 0), Ok(())); // mov
    assert_eq!(d.registers[1], 0b1010);
}

#[test]
fn shifts_operate_on_x_and_record_the_shifted_bit() {
    let mut d = fresh();
    d.registers[3] = 0b1001_0101;
    assert_eq!(d.decode_with_random(0x8346, 0), Ok(()));
    assert_eq!(d.registers[3], 0b0100_1010);
    assert_eq!(d.registers[15], 1);

    let mut e = fresh();
    e.registers[3] = 0b1001_0100;
    assert_eq!(e.decode_with_random(0x834E, 0), Ok(()));
    assert_eq!(e.registers[3], 0b0010_1000);
    assert_eq!(e.registers[15], 1);
}

#[test]
fn set_and_add_immediate_wrap() {
    let mut d = fresh();
    assert_eq!(d.decode_with_random(0x61FE, 0), Ok(()));
    assert_eq!(d.registers[1], 0xFE);
    assert_eq!(d.decode_with_random(0x7105, 0), Ok(()));
    assert_eq!(d.registers[1], 0x03); // 0xFE + 5 wraps
    assert_eq!(d.registers[15], 0); // no flag change
}

#[test]
fn skip_equal_immediate_advances_pc_by_four_from_prefetch() {
    let mut d = fresh();
    d.memory[0x200] = 0x31;
    d.memory[0x201] = 0x07;
    d.registers[1] = 0x07;
    let i = d.fetch().unwrap();
    assert_eq!(i, 0x3107);
    assert_eq!(d.decode(i), Ok(()));
    assert_eq!(d.pc, 0x204);
}

#[test]
fn skip_equal_immediate_advances_pc_by_two_when_false() {
    let mut d = fresh();
    d.memory[0x200] = 0x31;
    d.memory[0x201] = 0x07;
    d.registers[1] = 0x08;
    let i = d.fetch().unwrap();
    assert_eq!(d.decode(i), Ok(()));
    assert_eq!(d.pc, 0x202);
}

#[test]
fn skip_not_equal_and_register_skips() {
    // 4XNN skips when different.
    let mut d = fresh();
    d.memory[0x200] = 0x41;
    d.memory[0x201] = 0x07;
    d.registers[1] = 0x08;
    let i = d.fetch().unwrap();
    assert_eq!(d.decode(i), Ok(()));
    assert_eq!(d.pc, 0x204);

    // 5XY0 skips when the registers are equal.
    let mut e = fresh();
    e.memory[0x200] = 0x51;
    e.memory[0x201] = 0x20;
    e.registers[1] = 9;
    e.registers[2] = 9;
    let i = e.fetch().unwrap();
    assert_eq!(e.decode(i), Ok(()));
    assert_eq!(e.pc, 0x204);

    // 9XY0 skips when they differ.
    let mut f = fresh();
    f.memory[0x200] = 0x91;
    f.memory[0x201] = 0x20;
    f.registers[1] = 9;
    f.registers[2] = 8;
    let i = f.fetch().unwrap();
    assert_eq!(f.decode(i), Ok(()));
    assert_eq!(f.pc, 0x204);
}

#[test]
fn jump_and_jump_offset() {
    let mut d = fresh();
    assert_eq!(d.decode(0x1ABC), Ok(()));
    assert_eq!(d.pc, 0x0ABC);

    let mut e = fresh();
    e.registers[0] = 0x10;
    assert_eq!(e.decode(0xB300), Ok(()));
    assert_eq!(e.pc, 0x310);
}

#[test]
fn set_index_and_add_index_wrap() {
    let mut d = fresh();
    assert_eq!(d.decode(0xA123), Ok(()));
    assert_eq!(d.instruction_pointer, 0x123);

    d.instruction_pointer = 0xFFFF;
    d.registers[4] = 2;
    assert_eq!(d.decode(0xF41E), Ok(()));
    assert_eq!(d.instruction_pointer, 1); // 16-bit wraparound
}

#[test]
fn font_index_is_five_times_the_digit() {
    let mut d = fresh();
    d.registers[6] = 0x0B;
    assert_eq!(d.decode(0xF629), Ok(()));
    assert_eq!(d.instruction_pointer, 55);
}

#[test]
fn timers_read_and_write() {
    let mut d = fresh();
    d.registers[2] = 42;
    assert_eq!(d.decode(0xF215), Ok(()));
    assert_eq!(d.delay_timer, 42);
    assert_eq!(d.decode(0xF218), Ok(()));
    assert_eq!(d.sound_timer, 42);
    d.delay_timer = 7;
    assert_eq!(d.decode(0xF307), Ok(()));
    assert_eq!(d.registers[3], 7);
}

#[test]
fn random_mask_clears_bits_outside_the_mask() {
    let mut d = fresh();
    assert_eq!(d.decode_with_random(0xC50F, 0xAB), Ok(()));
    assert_eq!(d.registers[5], 0x0B);
    // Through the real randomness source the masked bits still hold.
    let mut e = fresh();
    assert_eq!(e.decode(0xC730), Ok(()));
    assert_eq!(e.registers[7] & !0x30, 0);
}

#[test]
fn store_digits_writes_decimal_decomposition() {
    let mut d = fresh();
    d.registers[4] = 237;
    d.instruction_pointer = 0x300;
    assert_eq!(d.decode(0xF433), Ok(()));
    assert_eq!(d.memory[0x300], 2);
    assert_eq!(d.memory[0x301], 3);
    assert_eq!(d.memory[0x302], 7);
}

#[test]
fn store_and_load_registers_round_trip() {
    let mut d = fresh();
    for i in 0..8usize {
        d.registers[i] = (10 + i) as u8;
    }
    d.instruction_pointer = 0x320;
    assert_eq!(d.decode(0xF755), Ok(()));
    for i in 0..8usize {
        assert_eq!(d.memory[0x320 + i], (10 + i) as u8);
    }
    // Zero the bank, read the window back, and compare.
    for i in 0..16usize {
        d.registers[i] = 0;
    }
    assert_eq!(d.decode(0xF765), Ok(()));
    for i in 0..8usize {
        assert_eq!(d.registers[i], (10 + i) as u8);
    }
    for i in 8..16usize {
        assert_eq!(d.registers[i], 0);
    }
}

#[test]
fn block_transfer_out_of_bounds_is_fatal() {
    let mut d = fresh();
    d.instruction_pointer = 4090;
    assert_eq!(d.decode(0xF755), Err(Chip8Error::MemoryOutOfBounds));
    assert_eq!(d.decode(0xF765), Err(Chip8Error::MemoryOutOfBounds));
    d.instruction_pointer = 4094;
    assert_eq!(d.decode(0xF433), Err(Chip8Error::MemoryOutOfBounds));
}

#[test]
fn unknown_instruction_is_recoverable() {
    let mut d = fresh();
    let r = d.decode(0x8FF8);
    assert_eq!(r, Err(Chip8Error::UnknownInstruction(0x8FF8)));
    assert!(!r.unwrap_err().is_fatal());
    let r2 = d.decode(0x0123);
    assert_eq!(r2, Err(Chip8Error::UnknownInstruction(0x0123)));
    // 5XY3 is outside the set even though its high nibble matches a skip.
    assert_eq!(d.decode(0x5123), Err(Chip8Error::UnknownInstruction(0x5123)));
    assert_eq!(d.pc, 0x200);
}
