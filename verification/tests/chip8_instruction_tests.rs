use chip8_core::chip8::{Chip8, FONT_START_ADDRESS, PROGRAM_START_ADDRESS};

fn init_emulator() -> Chip8 {
    let chip8 = Chip8::new(true, true, false);

    return chip8;
}

fn run_emulator(chip8: &mut Chip8) {
    while !chip8.reached_end_of_file() {
        chip8.exec_next_instruction().expect("an error occurred during emulator execution");
    }
}

#[test]
fn chip8_add_xy() {
    let mut chip8 = init_emulator();

    let val_1 = 5;
    let val_2 = 7;

    // load registers
    chip8.load_register(0, val_1);
    chip8.load_register(1, val_2);

    // load opcodes
    chip8.load_opcode_into_memory(0x8014, PROGRAM_START_ADDRESS);
    run_emulator(&mut chip8);

    // verify result
    assert_eq!(chip8.get_register(0), val_1 + val_2, "failed to correctly add the two registers; a: {}, b: {}, result: {}", val_1, val_2, chip8.get_register(0));

    let vf_register = chip8.get_register(0xF);
    assert_eq!(vf_register, 0, "failed to correctly set the carry bit; VF register: 0x{:02x}", vf_register);
}

#[test]
fn chip8_add_xy_with_carry() {
    let mut chip8 = init_emulator();

    let val_1 = 1;
    let val_2 = 255;

    // load registers
    chip8.load_register(0, val_1);
    chip8.load_register(1, val_2);

    // load opcodes
    chip8.load_opcode_into_memory(0x8014, PROGRAM_START_ADDRESS);
    run_emulator(&mut chip8);

    // verify result
    assert_eq!(chip8.get_register(0), 0, "failed to correctly add the two registers; a: {}, b: {}, result: {}", val_1, val_2, chip8.get_register(0));

    let vf_register = chip8.get_register(0xF);
    assert_eq!(vf_register, 1, "failed to correctly set the carry bit; VF register: 0x{:02x}", vf_register);
}

#[test]
fn chip8_add_const_to_x() {
    let mut chip8 = init_emulator();

    let val_1 = 5;
    let val_2 = 7;

    // load registers
    chip8.load_register(0, val_1);

    // load opcodes
    let opcode: u16 = (0x7000 as u16) | (val_2 as u16);
    chip8.load_opcode_into_memory(opcode, PROGRAM_START_ADDRESS);
    run_emulator(&mut chip8);

    // verify result
    assert_eq!(chip8.get_register(0), val_1 + val_2, "failed to correctly add a constant and a register; a: {}, b: {}, result: {}", val_1, val_2, chip8.get_register(0));
}

#[test]
fn chip8_subtract_y_from_x() {
    let mut chip8 = init_emulator();

    let val_1 = 8;
    let val_2 = 3;

    // load registers
    chip8.load_register(0, val_1);
    chip8.load_register(1, val_2);

    // load opcodes
    chip8.load_opcode_into_memory(0x8015, PROGRAM_START_ADDRESS);
    run_emulator(&mut chip8);

    // verify result
    assert_eq!(chip8.get_register(0), val_1 - val_2, "failed to correctly subtract the two registers (result = a - b); a: {}, b: {}, result: {}", val_1, val_2, chip8.get_register(0));

    let vf_register = chip8.get_register(0xF);
    assert_eq!(vf_register, 1, "failed to correctly set the underflow bit; VF register: 0x{:02x}", vf_register);
}

#[test]
fn chip8_subtract_y_from_x_with_underflow() {
    let mut chip8 = init_emulator();

    let val_1 = 8;
    let val_2 = 10;

    // load registers
    chip8.load_register(0, val_1);
    chip8.load_register(1, val_2);

    // load opcodes
    chip8.load_opcode_into_memory(0x8015, PROGRAM_START_ADDRESS);
    run_emulator(&mut chip8);

    // verify result
    assert_eq!(chip8.get_register(0), 254, "failed to correctly subtract the two registers (result = a - b); a: {}, b: {}, result: {}", val_1, val_2, chip8.get_register(0));

    let vf_register = chip8.get_register(0xF);
    assert_eq!(vf_register, 0, "failed to correctly set the underflow bit; VF register: 0x{:02x}", vf_register);
}

#[test]
fn chip8_subtract_x_from_y() {
    let mut chip8 = init_emulator();

    let val_1 = 3;
    let val_2 = 8;

    // load registers
    chip8.load_register(0, val_1);
    chip8.load_register(1, val_2);

    // load opcodes
    chip8.load_opcode_into_memory(0x8017, PROGRAM_START_ADDRESS);
    run_emulator(&mut chip8);

    // verify result
    assert_eq!(chip8.get_register(0), val_2 - val_1, "failed to correctly subtract the two registers (result = b - a); a: {}, b: {}, result: {}", val_1, val_2, chip8.get_register(0));

    let vf_register = chip8.get_register(0xF);
    assert_eq!(vf_register, 1, "failed to correctly set the underflow bit; VF register: 0x{:02x}", vf_register);
}

#[test]
fn chip8_subtract_x_from_y_with_underflow() {
    let mut chip8 = init_emulator();

    let val_1 = 10;
    let val_2 = 8;

    // load registers
    chip8.load_register(0, val_1);
    chip8.load_register(1, val_2);

    // load opcodes
    chip8.load_opcode_into_memory(0x8017, PROGRAM_START_ADDRESS);
    run_emulator(&mut chip8);

    // verify result
    assert_eq!(chip8.get_register(0), 254, "failed to correctly subtract the two registers (result = b - a); a: {}, b: {}, result: {}", val_1, val_2, chip8.get_register(0));

    let vf_register = chip8.get_register(0xF);
    assert_eq!(vf_register, 0, "failed to correctly set the underflow bit; VF register: 0x{:02x}", vf_register);
}

#[test]
fn chip8_assign_const_to_x() {
    let mut chip8 = init_emulator();

    let val_1: u8 = 0x15;

    // load opcodes
    let opcode: u16 = (0x6000 as u16) | (val_1 as u16);
    chip8.load_opcode_into_memory(opcode, PROGRAM_START_ADDRESS);
    run_emulator(&mut chip8);

    // verify result
    assert_eq!(chip8.get_register(0), val_1, "failed to correctly assign constant to register; constant: {}, reg: {}", val_1, chip8.get_register(0));
}

#[test]
fn chip8_assign_y_to_x() {
    let mut chip8 = init_emulator();

    let val_1 = 10;

    // load registers
    chip8.load_register(1, val_1);

    // load opcodes
    chip8.load_opcode_into_memory(0x8010, PROGRAM_START_ADDRESS);
    run_emulator(&mut chip8);

    // verify result
    assert_eq!(chip8.get_register(0), val_1, "failed to correctly assign register y to register x; reg_y: {}, reg_x: {}", val_1, chip8.get_register(0));
}

#[test]
fn chip8_bitwise_or_x_y() {
    let mut chip8 = init_emulator();

    let val_1 = 10;
    let val_2 = 15;

    // load registers
    chip8.load_register(0, val_1);
    chip8.load_register(1, val_2);

    // load opcodes
    chip8.load_opcode_into_memory(0x8011, PROGRAM_START_ADDRESS);
    run_emulator(&mut chip8);

    // verify result
    assert_eq!(chip8.get_register(0), (val_1 | val_2), "failed to correctly perform the bitwise OR operation on 2 registers; val_1: {}, val_2: {}, result: {}", val_1, val_2, chip8.get_register(0));
}

#[test]
fn chip8_bitwise_and_x_y() {
    let mut chip8 = init_emulator();

    let val_1 = 64;
    let val_2 = 15;

    // load registers
    chip8.load_register(0, val_1);
    chip8.load_register(1, val_2);

    // load opcodes
    chip8.load_opcode_into_memory(0x8012, PROGRAM_START_ADDRESS);
    run_emulator(&mut chip8);

    // verify result
    assert_eq!(chip8.get_register(0), (val_1 & val_2), "failed to correctly perform the bitwise AND operation on 2 registers; val_1: {}, val_2: {}, result: {}", val_1, val_2, chip8.get_register(0));
}

#[test]
fn chip8_bitwise_xor_x_y() {
    let mut chip8 = init_emulator();

    let val_1 = 65;
    let val_2 = 15;

    // load registers
    chip8.load_register(0, val_1);
    chip8.load_register(1, val_2);

    // load opcodes
    chip8.load_opcode_into_memory(0x8013, PROGRAM_START_ADDRESS);
    run_emulator(&mut chip8);

    // verify result
    assert_eq!(chip8.get_register(0), (val_1 ^ val_2), "failed to correctly perform the bitwise XOR operation on 2 registers; val_1: {}, val_2: {}, result: {}", val_1, val_2, chip8.get_register(0));
}

#[test]
fn chip8_right_bit_shift() {
    let mut chip8 = init_emulator();

    let val_1 = 65;

    // load registers
    chip8.load_register(1, val_1);

    // load opcodes
    chip8.load_opcode_into_memory(0x8016, PROGRAM_START_ADDRESS);
    run_emulator(&mut chip8);

    // verify result
    assert_eq!(chip8.get_register(0), val_1 >> 1, "failed to correctly perform the right bit-shift operation; val_1: {}, result: {}", val_1, chip8.get_register(0));

    let vf_register = chip8.get_register(0xF);
    assert_eq!(vf_register, 1, "failed to correctly load the LSB into VF; VF register: 0x{:02x}", vf_register);
}

#[test]
fn chip8_left_bit_shift() {
    let mut chip8 = init_emulator();

    let val_1 = 255;

    // load registers
    chip8.load_register(1, val_1);

    // load opcodes
    chip8.load_opcode_into_memory(0x801E, PROGRAM_START_ADDRESS);
    run_emulator(&mut chip8);

    // verify result
    assert_eq!(chip8.get_register(0), val_1 << 1, "failed to correctly perform the left bit-shift operation; val_1: {}, result: {}", val_1, chip8.get_register(0));

    let vf_register = chip8.get_register(0xF);
    assert_eq!(vf_register, 1, "failed to correctly load the LSB into VF; VF register: 0x{:02x}", vf_register);
}

#[test]
fn chip8_skip_if_x_equals_const() {
    let mut chip8 = init_emulator();

    let val_1 = 5;

    // load registers
    chip8.load_register(0, val_1);

    // load opcodes
    let opcode: u16 = (0x3000 as u16) | (val_1 as u16);
    chip8.load_opcode_into_memory(opcode, PROGRAM_START_ADDRESS);
    // if the skip fails, V0 is set to 0x11
    chip8.load_opcode_into_memory(0x6011, PROGRAM_START_ADDRESS + 2);
    run_emulator(&mut chip8);

    // verify result
    assert_eq!(chip8.get_register(0), val_1, "failed to correctly perform the if(VX == NN) operation");
}

#[test]
fn chip8_skip_if_x_not_equals_const() {
    let mut chip8 = init_emulator();

    let val_1 = 5;

    // load registers
    chip8.load_register(0, val_1);

    // load opcodes
    let opcode: u16 = (0x4000 as u16) | ((val_1 + 1) as u16);
    chip8.load_opcode_into_memory(opcode, PROGRAM_START_ADDRESS);
    // if the skip fails, V0 is set to 0x11
    chip8.load_opcode_into_memory(0x6011, PROGRAM_START_ADDRESS + 2);
    run_emulator(&mut chip8);

    // verify result
    assert_eq!(chip8.get_register(0), val_1, "failed to correctly perform the if(VX != NN) operation");
}

#[test]
fn chip8_skip_if_x_equals_y() {
    let mut chip8 = init_emulator();

    let val_1 = 5;

    // load registers
    chip8.load_register(0, val_1);
    chip8.load_register(1, val_1);

    // load opcodes
    chip8.load_opcode_into_memory(0x5010, PROGRAM_START_ADDRESS);
    // if the skip fails, V0 is set to 0x11
    chip8.load_opcode_into_memory(0x6011, PROGRAM_START_ADDRESS + 2);
    run_emulator(&mut chip8);

    // verify result
    assert_eq!(chip8.get_register(0), val_1, "failed to correctly perform the if(VX == VY) operation");
}

#[test]
fn chip8_skip_if_x_not_equals_y() {
    let mut chip8 = init_emulator();

    let val_1 = 5;

    // load registers
    chip8.load_register(0, val_1);
    chip8.load_register(1, val_1 + 1);

    // load opcodes
    chip8.load_opcode_into_memory(0x9010, PROGRAM_START_ADDRESS);
    // if the skip fails, V0 is set to 0x11
    chip8.load_opcode_into_memory(0x6011, PROGRAM_START_ADDRESS + 2);
    run_emulator(&mut chip8);

    // verify result
    assert_eq!(chip8.get_register(0), val_1, "failed to correctly perform the if(VX != VY) operation");
}

#[test]
fn chip8_call_and_return_from_subroutine() {
    let mut chip8 = init_emulator();

    let val_1 = 5;
    let val_2 = 7;

    // load registers
    chip8.load_register(0, val_1);
    chip8.load_register(1, val_2);

    // load opcodes
    let main_opcodes: Vec<u16> = vec![0x2300, 0x8014];
    chip8.load_opcodes_into_memory(&main_opcodes, PROGRAM_START_ADDRESS);

    let subroutine_opcodes: Vec<u16> = vec![0x8104, 0x00EE];
    chip8.load_opcodes_into_memory(&subroutine_opcodes, 0x300);

    run_emulator(&mut chip8);

    // verify result
    assert_eq!(chip8.get_register(1), val_1 + val_2, "failed to correctly call subroutine");

    assert_eq!(chip8.get_register(0), val_1 * 2 + val_2, "failed to correctly return from subroutine");
}

#[test]
fn chip8_jump_to_address() {
    let mut chip8 = init_emulator();

    let val_1 = 5;
    let val_2 = 7;

    // load registers
    chip8.load_register(0, val_1);
    chip8.load_register(1, val_2);

    // load opcodes
    chip8.load_opcode_into_memory(0x2300, PROGRAM_START_ADDRESS);
    chip8.load_opcode_into_memory(0x8104, 0x300);

    run_emulator(&mut chip8);

    // verify result
    assert_eq!(chip8.get_register(1), val_1 + val_2, "failed to correctly execute jump");
}

#[test]
fn chip8_jump_to_address_with_displacement() {
    let mut chip8 = init_emulator();

    let val_1 = 5;
    let val_2 = 7;

    // load registers
    chip8.load_register(0, val_1);
    chip8.load_register(1, val_2);

    // load opcodes
    chip8.load_opcode_into_memory(0xB2FB, PROGRAM_START_ADDRESS);
    chip8.load_opcode_into_memory(0x8104, 0x300);

    run_emulator(&mut chip8);

    // verify result
    assert_eq!(chip8.get_register(1), val_1 + val_2, "failed to correctly execute jump");
}

#[test]
fn set_index_reg() {
    let mut chip8 = init_emulator();

    let val_1: u16 = 5;

    // load opcodes
    let opcode: u16 = (0xA000 as u16) | val_1;
    chip8.load_opcode_into_memory(opcode, PROGRAM_START_ADDRESS);

    run_emulator(&mut chip8);

    // verify result
    assert_eq!(chip8.get_index_reg(), val_1, "failed to correctly set the index register; index_reg: {}", chip8.get_index_reg());
}

#[test]
fn add_x_to_index() {
    let mut chip8 = init_emulator();

    let val_1: u16 = 5;
    let val_2: u8 = 7;

    // load registers
    chip8.load_index_reg(val_1);
    chip8.load_register(0, val_2);

    // load opcodes
    chip8.load_opcode_into_memory(0xF01E, PROGRAM_START_ADDRESS);

    run_emulator(&mut chip8);

    // verify result
    assert_eq!(chip8.get_index_reg(), val_1 + (val_2 as u16), "failed to correctly add to X to index register; index_reg: {}", chip8.get_index_reg());
}

#[test]
fn set_index_to_char_font() {
    let mut chip8 = init_emulator();

    let val_1: u8 = 0xF;

    // load registers
    chip8.load_register(0, val_1);

    // load opcodes
    chip8.load_opcode_into_memory(0xF029, PROGRAM_START_ADDRESS);

    run_emulator(&mut chip8);

    // verify result
    assert_eq!(chip8.get_index_reg(), FONT_START_ADDRESS + (15 * 5), "failed to correctly set the index register to the font location; index_reg: 0x{:04x}; character: 0x{:02x}", chip8.get_index_reg(), val_1);
}

#[test]
fn dump_registers_to_memory() {
    let mut chip8 = init_emulator();

    let vals: Vec<u8> = vec![16, 15, 14, 13, 12, 11, 10, 9, 8, 7, 6, 5, 4, 3, 2, 1];

    // load registers
    chip8.load_registers(&vals);
    chip8.load_index_reg(0x300);

    // load opcodes
    chip8.load_opcode_into_memory(0xFF55, PROGRAM_START_ADDRESS);

    run_emulator(&mut chip8);

    // verify result
    for (idx, val) in vals.iter().enumerate() {
        assert_eq!(chip8.read_memory_byte(chip8.get_index_reg() + (idx as u16)), *val, "failed to correctly dump register V{:1X} into memory", idx);
    }
}

#[test]
fn load_registers_from_memory() {
    let mut chip8 = init_emulator();

    let vals: Vec<u8> = vec![16, 15, 14, 13, 12, 11, 10, 9, 8, 7, 6, 5, 4, 3, 2, 1];

    // load registers
    chip8.load_index_reg(0x300);

    // load memory
    chip8.load_bytes_into_memory(&vals, chip8.get_index_reg());

    // load opcodes
    chip8.load_opcode_into_memory(0xFF65, PROGRAM_START_ADDRESS);

    run_emulator(&mut chip8);

    // verify result
    for (idx, val) in vals.iter().enumerate() {
        assert_eq!(chip8.get_register(idx as u8), *val, "failed to correctly load register V{:1X} from memory", idx);
    }
}
