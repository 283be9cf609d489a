//! Behaviour of the machine around the instructions: the call stack,
//! timers, keyboard, display compositing, loading, and a whole
//! fetch/decode scenario.

use chip8::device::{Chip8Error, Device};

#[test]
fn new_device_is_zeroed_with_pc_at_start() {
    let d = Device::new();
    assert_eq!(d.pc, 0x200);
    assert_eq!(d.stack_pointer, 0);
    assert_eq!(d.instruction_pointer, 0);
    assert!(d.memory.iter().all(|&b| b == 0));
    assert!(d.registers.iter().all(|&b| b == 0));
    assert!(d.keyboard.iter().all(|&k| !k));
    assert!(d.display.iter().all(|col| col.iter().all(|&p| p == 0)));
    assert_eq!(d.delay_timer, 0);
    assert_eq!(d.sound_timer, 0);
    assert!(!d.display_changed);
}

#[test]
fn fetch_composes_big_endian_and_advances() {
    let mut d = Device::new();
    d.memory[0x200] = 0xAB;
    d.memory[0x201] = 0xCD;
    assert_eq!(d.fetch(), Ok(0xABCD));
    assert_eq!(d.pc, 0x202);
}

#[test]
fn fetch_past_end_of_memory_is_fatal() {
    let mut d = Device::new();
    d.pc = 4095;
    let r = d.fetch();
    assert_eq!(r, Err(Chip8Error::MemoryOutOfBounds));
    assert!(r.unwrap_err().is_fatal());
    assert_eq!(d.pc, 4095);
}

#[test]
fn forty_eight_calls_then_overflow_then_returns_in_reverse() {
    let mut d = Device::new();
    let mut pushed = Vec::new();
    for k in 0..48u16 {
        d.pc = 0x200 + 2 * k; // a distinct return address for each call
        pushed.push(d.pc);
        assert_eq!(d.decode(0x2300), Ok(()));
        assert_eq!(d.stack_pointer, k + 1);
        assert_eq!(d.pc, 0x300);
    }
    assert_eq!(d.stack_pointer, 48);
    // The 49th call overflows and changes nothing.
    let before_pc = d.pc;
    assert_eq!(d.decode(0x2300), Err(Chip8Error::StackOverflow));
    assert_eq!(d.stack_pointer, 48);
    assert_eq!(d.pc, before_pc);
    // 48 returns restore the pushed counters in reverse call order.
    for k in (0..48u16).rev() {
        assert_eq!(d.decode(0x00EE), Ok(()));
        assert_eq!(d.stack_pointer, k);
        assert_eq!(d.pc, pushed[k as usize]);
    }
    // One more return underflows.
    assert_eq!(d.decode(0x00EE), Err(Chip8Error::StackUnderflow));
}

#[test]
fn call_pushes_the_counter_that_a_return_restores() {
    let mut d = Device::new();
    d.pc = 0x250;
    assert_eq!(d.decode(0x2ABC), Ok(()));
    assert_eq!(d.pc, 0xABC);
    assert_eq!(d.stack[0], 0x250);
    assert_eq!(d.decode(0x00EE), Ok(()));
    assert_eq!(d.pc, 0x250);
    assert_eq!(d.stack_pointer, 0);
}

#[test]
fn timers_saturate_at_zero() {
    let mut d = Device::new();
    d.delay_timer = 2;
    d.sound_timer = 1;
    d.update_timers();
    assert_eq!((d.delay_timer, d.sound_timer), (1, 0));
    d.update_timers();
    assert_eq!((d.delay_timer, d.sound_timer), (0, 0));
    for _ in 0..10 {
        d.update_timers();
        assert_eq!((d.delay_timer, d.sound_timer), (0, 0));
    }
}

#[test]
fn keyboard_skips_follow_the_key_state() {
    let mut d = Device::new();
    d.registers[1] = 0x05;
    d.keyboard[5] = true;
    assert_eq!(d.decode(0xE19E), Ok(()));
    assert_eq!(d.pc, 0x202);
    assert_eq!(d.decode(0xE1A1), Ok(()));
    assert_eq!(d.pc, 0x202);
    d.keyboard[5] = false;
    assert_eq!(d.decode(0xE19E), Ok(()));
    assert_eq!(d.pc, 0x202);
    assert_eq!(d.decode(0xE1A1), Ok(()));
    assert_eq!(d.pc, 0x204);
    // Only the low nibble of the register names the key.
    d.registers[1] = 0xF5;
    d.keyboard[5] = true;
    d.pc = 0x202;
    assert_eq!(d.decode(0xE19E), Ok(()));
    assert_eq!(d.pc, 0x204);
}

#[test]
fn wait_key_rewinds_until_a_key_is_down() {
    let mut d = Device::new();
    d.pc = 0x202; // post-fetch counter
    assert_eq!(d.decode(0xF20A), Ok(()));
    assert_eq!(d.pc, 0x200); // rewound to refetch the same instruction
    assert_eq!(d.registers[2], 0);
    d.pc = 0x202;
    d.keyboard[9] = true;
    d.keyboard[12] = true;
    assert_eq!(d.decode(0xF20A), Ok(()));
    assert_eq!(d.pc, 0x202); // proceeds
    assert_eq!(d.registers[2], 9); // lowest pressed key wins
}

#[test]
fn clear_display_zeroes_pixels_and_marks_dirty() {
    let mut d = Device::new();
    d.display[10][20] = 1;
    d.display[63][31] = 1;
    assert_eq!(d.decode(0x00E0), Ok(()));
    assert!(d.display.iter().all(|col| col.iter().all(|&p| p == 0)));
    assert!(d.display_changed);
}

#[test]
fn draw_twice_restores_pixels_and_reports_collision() {
    let mut d = Device::new();
    d.instruction_pointer = 0x300;
    d.memory[0x300] = 0xFF;
    d.registers[0] = 12;
    d.registers[1] = 5;
    assert_eq!(d.decode(0xD011), Ok(()));
    assert_eq!(d.registers[15], 0);
    for c in 0..8usize {
        assert_eq!(d.display[12 + c][5], 1);
    }
    assert!(d.display_changed);
    assert_eq!(d.decode(0xD011), Ok(()));
    assert_eq!(d.registers[15], 1);
    assert!(d.display.iter().all(|col| col.iter().all(|&p| p == 0)));
}

#[test]
fn draw_wraps_at_both_edges() {
    let mut d = Device::new();
    d.instruction_pointer = 0x300;
    d.memory[0x300] = 0xFF;
    d.memory[0x301] = 0xFF;
    d.registers[0] = 63;
    d.registers[1] = 31;
    assert_eq!(d.decode(0xD012), Ok(()));
    assert_eq!(d.registers[15], 0);
    // Columns wrap: 63 then 0..=6; rows wrap: 31 then 0.
    for &y in &[31usize, 0usize] {
        assert_eq!(d.display[63][y], 1);
        for x in 0..7usize {
            assert_eq!(d.display[x][y], 1);
        }
        assert_eq!(d.display[7][y], 0);
    }
}

#[test]
fn draw_of_height_zero_touches_nothing_but_marks_dirty() {
    let mut d = Device::new();
    d.registers[15] = 1;
    assert_eq!(d.decode(0xD010), Ok(()));
    assert!(d.display.iter().all(|col| col.iter().all(|&p| p == 0)));
    assert_eq!(d.registers[15], 0); // the collision flag is still reset
    assert!(d.display_changed);
}

#[test]
fn draw_reading_past_memory_is_fatal() {
    let mut d = Device::new();
    d.instruction_pointer = 4095;
    d.registers[15] = 1;
    assert_eq!(d.decode(0xD002), Err(Chip8Error::MemoryOutOfBounds));
    assert_eq!(d.registers[15], 1); // untouched, including the flag
    assert!(!d.display_changed);
}

#[test]
fn load_rom_rejects_oversized_images() {
    let mut d = Device::new();
    let image = vec![0xAAu8; 4096 - 0x200 + 1];
    assert_eq!(d.load_rom(&image), Err(Chip8Error::RomTooLarge));
    assert!(d.memory.iter().all(|&b| b == 0));
    let image = vec![0xABu8; 4096 - 0x200];
    assert_eq!(d.load_rom(&image), Ok(()));
    assert_eq!(d.memory[0x1FF], 0);
    assert_eq!(d.memory[0x200], 0xAB);
    assert_eq!(d.memory[4095], 0xAB);
}

#[test]
fn program_draws_a_font_glyph() {
    // Set register 0 to 0, point the index pointer at digit 0's glyph,
    // and draw its five rows at (0, 0).
    let mut d = Device::new();
    let glyph_zero = [0xF0u8, 0x90, 0x90, 0x90, 0xF0];
    let mut font = vec![0u8; 80];
    font[..5].copy_from_slice(&glyph_zero);
    d.load_font(&font);
    let program = vec![0x60u8, 0x00, 0xF0, 0x29, 0xD0, 0x05];
    assert_eq!(d.load_rom(&program), Ok(()));
    for _ in 0..3 {
        let i = d.fetch().unwrap();
        assert_eq!(d.decode(i), Ok(()));
    }
    for (row, &byte) in glyph_zero.iter().enumerate() {
        for col in 0..8usize {
            let expected = if byte & (0x80 >> col) != 0 { 1 } else { 0 };
            assert_eq!(d.display[col][row], expected, "col {} row {}", col, row);
        }
    }
    assert!(d.display_changed);
}
