use chip8::cpu::{Cpu, Fault, PROGRAM_START};
use chip8::display::Display;

#[test]
fn rom_two_loads_advance_pc_by_four() {
    let mut cpu = Cpu::new();
    cpu.load_rom(&[0x61, 0xAA, 0x62, 0x1A]).unwrap();

    cpu.emulate_cycle().unwrap();
    assert_eq!(cpu.v[1], 0xAA);

    cpu.emulate_cycle().unwrap();
    assert_eq!(cpu.v[2], 0x1A);

    assert_eq!(cpu.pc, PROGRAM_START + 4);
}

#[test]
fn oversized_rom_is_rejected() {
    let mut cpu = Cpu::new();
    let rom = vec![0u8; 3585];
    assert_eq!(
        cpu.load_rom(&rom),
        Err(Fault::OversizedRom { len: 3585 })
    );
    assert_eq!(cpu.memory[PROGRAM_START as usize], 0);

    let rom = vec![0x11u8; 3584];
    cpu.load_rom(&rom).unwrap();
    assert_eq!(cpu.memory[PROGRAM_START as usize], 0x11);
    assert_eq!(cpu.memory[4095], 0x11);
}

#[test]
fn delay_timer_decrements_once_per_cycle_and_floors_at_zero() {
    let mut cpu = Cpu::new();
    cpu.load_rom(&[0x60, 0x05, 0x61, 0x06, 0x62, 0x07]).unwrap();
    cpu.dt = 1;

    cpu.emulate_cycle().unwrap();
    assert_eq!(cpu.dt, 0);

    cpu.emulate_cycle().unwrap();
    assert_eq!(cpu.dt, 0);
}

#[test]
fn timer_moves_and_tone() {
    let mut cpu = Cpu::new();
    cpu.v[1] = 3;
    // LD DT, V1 then LD ST, V1 then LD V2, DT
    cpu.execute_opcode(0xF115).unwrap();
    assert_eq!(cpu.dt, 3);
    cpu.execute_opcode(0xF118).unwrap();
    assert_eq!(cpu.st, 3);
    cpu.execute_opcode(0xF207).unwrap();
    assert_eq!(cpu.v[2], 3);
    assert!(cpu.tone_active());
    cpu.st = 0;
    assert!(!cpu.tone_active());
}

#[test]
fn opcode_sub_vx_vy() {
    let mut cpu = Cpu::new();
    cpu.v[1] = 10;
    cpu.v[2] = 3;

    cpu.execute_opcode(0x8125).unwrap();
    assert_eq!(cpu.v[1], 7, "Vx holds vx - vy");
    assert_eq!(cpu.v[0xF], 1, "no borrow: flag is 1");

    cpu.v[1] = 3;
    cpu.v[2] = 10;
    cpu.execute_opcode(0x8125).unwrap();
    assert_eq!(cpu.v[1], 249, "the difference wraps modulo 256");
    assert_eq!(cpu.v[0xF], 0, "borrow: flag is 0");
}

#[test]
fn opcode_subn_vx_vy() {
    let mut cpu = Cpu::new();
    cpu.v[1] = 3;
    cpu.v[2] = 10;

    cpu.execute_opcode(0x8127).unwrap();
    assert_eq!(cpu.v[1], 7, "Vx holds vy - vx");
    assert_eq!(cpu.v[0xF], 1, "no borrow: flag is 1");

    cpu.v[1] = 10;
    cpu.v[2] = 3;
    cpu.execute_opcode(0x8127).unwrap();
    assert_eq!(cpu.v[1], 249, "the difference wraps modulo 256");
    assert_eq!(cpu.v[0xF], 0, "borrow: flag is 0");
}

#[test]
fn opcode_shr_shl() {
    let mut cpu = Cpu::new();
    cpu.v[1] = 5;
    cpu.execute_opcode(0x8106).unwrap();
    assert_eq!(cpu.v[1], 2, "right shift halves");
    assert_eq!(cpu.v[0xF], 1, "the dropped low bit lands in the flag");

    cpu.v[1] = 0x81;
    cpu.execute_opcode(0x810E).unwrap();
    assert_eq!(cpu.v[1], 0x02, "left shift wraps at 8 bits");
    assert_eq!(cpu.v[0xF], 1, "the dropped high bit lands in the flag, as 0 or 1");
}

#[test]
fn opcode_jp_v0() {
    let mut cpu = Cpu::new();
    cpu.v[0] = 4;
    cpu.execute_opcode(0xB300).unwrap();
    assert_eq!(cpu.pc, 0x304, "the jump target is addr + V0");
}

#[test]
fn opcode_rnd_masks() {
    let mut cpu = Cpu::new();
    cpu.v[1] = 0xFF;
    cpu.execute_opcode(0xC10F).unwrap();
    assert_eq!(cpu.v[1] & 0xF0, 0, "the random byte is masked by the immediate");
}

#[test]
fn opcode_ld_f_vx() {
    let mut cpu = Cpu::new();
    cpu.v[1] = 0xAB;
    cpu.execute_opcode(0xF129).unwrap();
    assert_eq!(cpu.i, 0xB * 5, "i points at the glyph for the low nibble");
    // the glyph rows for digit B sit there
    assert_eq!(cpu.memory[cpu.i as usize], 0xE0);
}

#[test]
fn opcode_skp_sknp() {
    let mut cpu = Cpu::new();
    cpu.v[1] = 3;
    cpu.keypad.keys[3] = true;

    cpu.execute_opcode(0xE19E).unwrap();
    assert_eq!(cpu.pc, PROGRAM_START + 4, "pressed: skip");

    cpu.execute_opcode(0xE1A1).unwrap();
    assert_eq!(cpu.pc, PROGRAM_START + 6, "pressed: no skip on skip-if-not");

    cpu.keypad.keys[3] = false;
    cpu.execute_opcode(0xE19E).unwrap();
    assert_eq!(cpu.pc, PROGRAM_START + 8, "released: no skip");

    cpu.execute_opcode(0xE1A1).unwrap();
    assert_eq!(cpu.pc, PROGRAM_START + 12, "released: skip on skip-if-not");
}

#[test]
fn opcode_wait_key_polls() {
    let mut cpu = Cpu::new();

    // no key pressed: the program counter is rewound so the same word
    // is fetched again
    cpu.execute_opcode(0xF30A).unwrap();
    assert_eq!(cpu.pc, PROGRAM_START);

    // two keys pressed: the lowest-indexed one is recorded
    cpu.keypad.keys[7] = true;
    cpu.keypad.keys[2] = true;
    cpu.execute_opcode(0xF30A).unwrap();
    assert_eq!(cpu.v[3], 2);
    assert_eq!(cpu.pc, PROGRAM_START + 2);
}

#[test]
fn block_store_load_roundtrip() {
    let mut cpu = Cpu::new();
    cpu.v[0] = 9;
    cpu.v[1] = 8;
    cpu.v[2] = 7;
    cpu.v[3] = 0xEE;
    cpu.i = 0x400;

    cpu.execute_opcode(0xF255).unwrap();
    cpu.v[0] = 0;
    cpu.v[1] = 0;
    cpu.v[2] = 0;
    cpu.execute_opcode(0xF265).unwrap();

    assert_eq!(cpu.v[0], 9);
    assert_eq!(cpu.v[1], 8);
    assert_eq!(cpu.v[2], 7);
    assert_eq!(cpu.v[3], 0xEE, "registers beyond x are untouched");
}

#[test]
fn stack_underflow_is_reported() {
    let mut cpu = Cpu::new();
    assert_eq!(
        cpu.execute_opcode(0x00EE),
        Err(Fault::StackUnderflow { opcode: 0x00EE, sp: 0 })
    );
}

#[test]
fn stack_overflow_is_reported() {
    let mut cpu = Cpu::new();
    for _ in 0..16 {
        cpu.execute_opcode(0x2ABC).unwrap();
    }
    assert_eq!(cpu.sp, 16);
    assert_eq!(
        cpu.execute_opcode(0x2ABC),
        Err(Fault::StackOverflow { opcode: 0x2ABC, sp: 16 })
    );
}

#[test]
fn address_out_of_range_is_reported() {
    let mut cpu = Cpu::new();
    cpu.i = 4094;
    cpu.v[1] = 234;
    assert_eq!(
        cpu.execute_opcode(0xF133),
        Err(Fault::AddressOutOfRange { opcode: 0xF133, addr: 4094 })
    );

    cpu.i = 4090;
    assert_eq!(
        cpu.execute_opcode(0xF755),
        Err(Fault::AddressOutOfRange { opcode: 0xF755, addr: 4090 })
    );
}

#[test]
fn fetch_out_of_range_is_reported() {
    let mut cpu = Cpu::new();
    cpu.pc = 4095;
    assert_eq!(
        cpu.emulate_cycle(),
        Err(Fault::FetchOutOfRange { pc: 4095 })
    );
}

#[test]
fn unknown_opcode_is_a_silent_no_op() {
    let mut cpu = Cpu::new();
    cpu.execute_opcode(0x0123).unwrap();
    assert_eq!(cpu.pc, PROGRAM_START + 2);
    cpu.execute_opcode(0x8FF9).unwrap();
    assert_eq!(cpu.pc, PROGRAM_START + 4);
    assert_eq!(cpu.v, vec![0u8; 16]);
}

#[test]
fn draw_twice_collides_and_clears() {
    let mut d = Display::new();
    let sprite = [0xF0u8, 0x90, 0x90, 0x90, 0xF0];

    let first = d.draw(10, 5, &sprite);
    assert!(!first, "a draw on a clear grid reports no collision");
    assert!(d.get_pixel(10, 5));

    let second = d.draw(10, 5, &sprite);
    assert!(second, "the identical second draw reports a collision");
    for x in 0..64 {
        for y in 0..32 {
            assert!(!d.get_pixel(x, y), "the XOR blit cancelled itself");
        }
    }
}

#[test]
fn draw_wraps_around_both_edges() {
    let mut d = Display::new();
    let sprite = [0x80u8, 0x01];

    // one row at the far corner: its set bit lands on (63, 31), the next
    // row wraps to y 0, and its lowest bit sits at x 63 + 7 wrapped to 6
    let collision = d.draw(63, 31, &sprite);
    assert!(!collision);
    assert!(d.get_pixel(63, 31));
    assert!(d.get_pixel(6, 0));
}

#[test]
fn draw_through_cycle_sets_flag_by_collision() {
    let mut cpu = Cpu::new();
    cpu.memory[0x300] = 0x80;
    cpu.i = 0x300;
    cpu.v[1] = 4;
    cpu.v[2] = 9;

    cpu.execute_opcode(0xD121).unwrap();
    assert_eq!(cpu.v[0xF], 1, "no collision is reported as flag 1");
    assert!(cpu.display.get_pixel(4, 9));

    cpu.execute_opcode(0xD121).unwrap();
    assert_eq!(cpu.v[0xF], 0, "a collision is reported as flag 0");
    assert!(!cpu.display.get_pixel(4, 9));
}

#[test]
fn cls_clears_every_pixel() {
    let mut cpu = Cpu::new();
    cpu.display.set_pixel(12, 20, true);
    cpu.execute_opcode(0x00E0).unwrap();
    for x in 0..64 {
        for y in 0..32 {
            assert!(!cpu.display.get_pixel(x, y));
        }
    }
}

#[test]
fn add_i_vx_accumulates() {
    let mut cpu = Cpu::new();
    cpu.i = 0x0FFF;
    cpu.v[1] = 2;
    cpu.execute_opcode(0xF11E).unwrap();
    assert_eq!(cpu.i, 0x1001, "the index register is 16 bits wide");
}

#[test]
fn keypad_set_and_query() {
    let mut cpu = Cpu::new();
    assert!(!cpu.keypad.is_pressed(0xA));
    cpu.keypad.set_key(0xA, true);
    assert!(cpu.keypad.is_pressed(0xA));
    assert_eq!(cpu.keypad.first_pressed(), Some(0xA));
    cpu.keypad.set_key(0xA, false);
    assert!(!cpu.keypad.is_pressed(0xA));
    assert_eq!(cpu.keypad.first_pressed(), None);
}
