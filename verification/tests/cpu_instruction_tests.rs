use chip8_core::cpu::CPU;

#[test]
fn cpu_add_xy() {
    let mut cpu = CPU::new(true);

    let val_1 = 5;
    let val_2 = 7;

    // load registers
    cpu.load_register(0, val_1);
    cpu.load_register(1, val_2);

    // load opcodes
    cpu.load_opcode_into_memory(0x8014, 0x0);
    cpu.run().unwrap();

    // verify result
    assert_eq!(cpu.get_register(0), val_1 + val_2, "failed to correctly add the two registers; a: {}, b: {}, result: {}", val_1, val_2, cpu.get_register(0));

    let vf_register = cpu.get_register(0xF);
    assert_eq!(vf_register, 0, "failed to correctly set the carry bit; VF register: 0x{:02x}", vf_register);
}

#[test]
fn cpu_add_xy_with_carry() {
    let mut cpu = CPU::new(true);

    let val_1 = 1;
    let val_2 = 255;

    // load registers
    cpu.load_register(0, val_1);
    cpu.load_register(1, val_2);

    // load opcodes
    cpu.load_opcode_into_memory(0x8014, 0x0);
    cpu.run().unwrap();

    // verify result
    assert_eq!(cpu.get_register(0), 0, "failed to correctly add the two registers; a: {}, b: {}, result: {}", val_1, val_2, cpu.get_register(0));

    let vf_register = cpu.get_register(0xF);
    assert_eq!(vf_register, 1, "failed to correctly set the carry bit; VF register: 0x{:02x}", vf_register);
}

#[test]
fn cpu_add_const_to_x() {
    let mut cpu = CPU::new(true);

    let val_1 = 5;
    let val_2 = 7;

    // load registers
    cpu.load_register(0, val_1);

    // load opcodes
    let opcode: u16 = (0x7000 as u16) | (val_2 as u16);
    cpu.load_opcode_into_memory(opcode, 0x0);
    cpu.run().unwrap();

    // verify result
    assert_eq!(cpu.get_register(0), val_1 + val_2, "failed to correctly add a constant and a register; a: {}, b: {}, result: {}", val_1, val_2, cpu.get_register(0));
}

#[test]
fn cpu_subtract_y_from_x() {
    let mut cpu = CPU::new(true);

    let val_1 = 8;
    let val_2 = 3;

    // load registers
    cpu.load_register(0, val_1);
    cpu.load_register(1, val_2);

    // load opcodes
    cpu.load_opcode_into_memory(0x8015, 0x0);
    cpu.run().unwrap();

    // verify result
    assert_eq!(cpu.get_register(0), val_1 - val_2, "failed to correctly subtract the two registers (result = a - b); a: {}, b: {}, result: {}", val_1, val_2, cpu.get_register(0));

    let vf_register = cpu.get_register(0xF);
    assert_eq!(vf_register, 1, "failed to correctly set the underflow bit; VF register: 0x{:02x}", vf_register);
}

#[test]
fn cpu_subtract_y_from_x_with_underflow() {
    let mut cpu = CPU::new(true);

    let val_1 = 8;
    let val_2 = 10;

    // load registers
    cpu.load_register(0, val_1);
    cpu.load_register(1, val_2);

    // load opcodes
    cpu.load_opcode_into_memory(0x8015, 0x0);
    cpu.run().unwrap();

    // verify result
    assert_eq!(cpu.get_register(0), 254, "failed to correctly subtract the two registers (result = a - b); a: {}, b: {}, result: {}", val_1, val_2, cpu.get_register(0));

    let vf_register = cpu.get_register(0xF);
    assert_eq!(vf_register, 0, "failed to correctly set the underflow bit; VF register: 0x{:02x}", vf_register);
}

#[test]
fn cpu_subtract_x_from_y() {
    let mut cpu = CPU::new(true);

    let val_1 = 3;
    let val_2 = 8;

    // load registers
    cpu.load_register(0, val_1);
    cpu.load_register(1, val_2);

    // load opcodes
    cpu.load_opcode_into_memory(0x8017, 0x0);
    cpu.run().unwrap();

    // verify result
    assert_eq!(cpu.get_register(0), val_2 - val_1, "failed to correctly subtract the two registers (result = b - a); a: {}, b: {}, result: {}", val_1, val_2, cpu.get_register(0));

    let vf_register = cpu.get_register(0xF);
    assert_eq!(vf_register, 1, "failed to correctly set the underflow bit; VF register: 0x{:02x}", vf_register);
}

#[test]
fn cpu_subtract_x_from_y_with_underflow() {
    let mut cpu = CPU::new(true);

    let val_1 = 10;
    let val_2 = 8;

    // load registers
    cpu.load_register(0, val_1);
    cpu.load_register(1, val_2);

    // load opcodes
    cpu.load_opcode_into_memory(0x8017, 0x0);
    cpu.run().unwrap();

    // verify result
    assert_eq!(cpu.get_register(0), 254, "failed to correctly subtract the two registers (result = b - a); a: {}, b: {}, result: {}", val_1, val_2, cpu.get_register(0));

    let vf_register = cpu.get_register(0xF);
    assert_eq!(vf_register, 0, "failed to correctly set the underflow bit; VF register: 0x{:02x}", vf_register);
}

#[test]
fn cpu_assign_const_to_x() {
    let mut cpu = CPU::new(true);

    let val_1: u8 = 0x15;

    // load opcodes
    let opcode: u16 = (0x6000 as u16) | (val_1 as u16);
    cpu.load_opcode_into_memory(opcode, 0x0);
    cpu.run().unwrap();

    // verify result
    assert_eq!(cpu.get_register(0), val_1, "failed to correctly assign constant to register; constant: {}, reg: {}", val_1, cpu.get_register(0));
}

#[test]
fn cpu_assign_y_to_x() {
    let mut cpu = CPU::new(true);

    let val_1 = 10;

    // load registers
    cpu.load_register(1, val_1);

    // load opcodes
    cpu.load_opcode_into_memory(0x8010, 0x0);
    cpu.run().unwrap();

    // verify result
    assert_eq!(cpu.get_register(0), val_1, "failed to correctly assign register y to register x; reg_y: {}, reg_x: {}", val_1, cpu.get_register(0));
}

#[test]
fn cpu_bitwise_or_x_y() {
    let mut cpu = CPU::new(true);

    let val_1 = 10;
    let val_2 = 15;

    // load registers
    cpu.load_register(0, val_1);
    cpu.load_register(1, val_2);

    // load opcodes
    cpu.load_opcode_into_memory(0x8011, 0x0);
    cpu.run().unwrap();

    // verify result
    assert_eq!(cpu.get_register(0), (val_1 | val_2), "failed to correctly perform the bitwise OR operation on 2 registers; val_1: {}, val_2: {}, result: {}", val_1, val_2, cpu.get_register(0));
}

#[test]
fn cpu_bitwise_and_x_y() {
    let mut cpu = CPU::new(true);

    let val_1 = 64;
    let val_2 = 15;

    // load registers
    cpu.load_register(0, val_1);
    cpu.load_register(1, val_2);

    // load opcodes
    cpu.load_opcode_into_memory(0x8012, 0x0);
    cpu.run().unwrap();

    // verify result
    assert_eq!(cpu.get_register(0), (val_1 & val_2), "failed to correctly perform the bitwise AND operation on 2 registers; val_1: {}, val_2: {}, result: {}", val_1, val_2, cpu.get_register(0));
}

#[test]
fn cpu_bitwise_xor_x_y() {
    let mut cpu = CPU::new(true);

    let val_1 = 65;
    let val_2 = 15;

    // load registers
    cpu.load_register(0, val_1);
    cpu.load_register(1, val_2);

    // load opcodes
    cpu.load_opcode_into_memory(0x8013, 0x0);
    cpu.run().unwrap();

    // verify result
    assert_eq!(cpu.get_register(0), (val_1 ^ val_2), "failed to correctly perform the bitwise XOR operation on 2 registers; val_1: {}, val_2: {}, result: {}", val_1, val_2, cpu.get_register(0));
}

#[test]
fn cpu_right_bit_shift() {
    let mut cpu = CPU::new(true);

    let val_1 = 65;

    // load registers
    cpu.load_register(1, val_1);

    // load opcodes
    cpu.load_opcode_into_memory(0x8016, 0x0);
    cpu.run().unwrap();

    // verify result
    assert_eq!(cpu.get_register(0), val_1 >> 1, "failed to correctly perform the right bit-shift operation; val_1: {}, result: {}", val_1, cpu.get_register(0));

    let vf_register = cpu.get_register(0xF);
    assert_eq!(vf_register, 1, "failed to correctly load the LSB into VF; VF register: 0x{:02x}", vf_register);
}

#[test]
fn cpu_left_bit_shift() {
    let mut cpu = CPU::new(true);

    let val_1 = 255;

    // load registers
    cpu.load_register(1, val_1);

    // load opcodes
    cpu.load_opcode_into_memory(0x801E, 0x0);
    cpu.run().unwrap();

    // verify result
    assert_eq!(cpu.get_register(0), val_1 << 1, "failed to correctly perform the left bit-shift operation; val_1: {}, result: {}", val_1, cpu.get_register(0));

    let vf_register = cpu.get_register(0xF);
    assert_eq!(vf_register, 1, "failed to correctly load the LSB into VF; VF register: 0x{:02x}", vf_register);
}

#[test]
fn cpu_skip_if_x_equals_const() {
    let mut cpu = CPU::new(true);

    let val_1 = 5;

    // load registers
    cpu.load_register(0, val_1);

    // load opcodes
    let opcode: u16 = (0x3000 as u16) | (val_1 as u16);
    cpu.load_opcode_into_memory(opcode, 0x0);
    // if the skip fails, V0 is set to 0x11
    cpu.load_opcode_into_memory(0x6011, 0x2);
    cpu.run().unwrap();

    // verify result
    assert_eq!(cpu.get_register(0), val_1, "failed to correctly perform the if(VX == NN) operation");
}

#[test]
fn cpu_skip_if_x_not_equals_const() {
    let mut cpu = CPU::new(true);

    let val_1 = 5;

    // load registers
    cpu.load_register(0, val_1);

    // load opcodes
    let opcode: u16 = (0x4000 as u16) | ((val_1 + 1) as u16);
    cpu.load_opcode_into_memory(opcode, 0x0);
    // if the skip fails, V0 is set to 0x11
    cpu.load_opcode_into_memory(0x6011, 0x2);
    cpu.run().unwrap();

    // verify result
    assert_eq!(cpu.get_register(0), val_1, "failed to correctly perform the if(VX != NN) operation");
}

#[test]
fn cpu_skip_if_x_equals_y() {
    let mut cpu = CPU::new(true);

    let val_1 = 5;

    // load registers
    cpu.load_register(0, val_1);
    cpu.load_register(1, val_1);

    // load opcodes
    cpu.load_opcode_into_memory(0x5010, 0x0);
    // if the skip fails, V0 is set to 0x11
    cpu.load_opcode_into_memory(0x6011, 0x2);
    cpu.run().unwrap();

    // verify result
    assert_eq!(cpu.get_register(0), val_1, "failed to correctly perform the if(VX == VY) operation");
}

#[test]
fn cpu_skip_if_x_not_equals_y() {
    let mut cpu = CPU::new(true);

    let val_1 = 5;

    // load registers
    cpu.load_register(0, val_1);
    cpu.load_register(1, val_1 + 1);

    // load opcodes
    cpu.load_opcode_into_memory(0x9010, 0x0);
    // if the skip fails, V0 is set to 0x11
    cpu.load_opcode_into_memory(0x6011, 0x2);
    cpu.run().unwrap();

    // verify result
    assert_eq!(cpu.get_register(0), val_1, "failed to correctly perform the if(VX != VY) operation");
}

#[test]
fn cpu_call_and_return_from_subroutine() {
    let mut cpu = CPU::new(true);

    let val_1 = 5;
    let val_2 = 7;

    // load registers
    cpu.load_register(0, val_1);
    cpu.load_register(1, val_2);

    // load opcodes
    let main_opcodes: Vec<u16> = vec![0x2100, 0x8014];
    cpu.load_opcodes_into_memory(&main_opcodes, 0x0);

    let subroutine_opcodes: Vec<u16> = vec![0x8104, 0x00EE];
    cpu.load_opcodes_into_memory(&subroutine_opcodes, 0x100);

    cpu.run().unwrap();

    // verify result
    assert_eq!(cpu.get_register(1), val_1 + val_2, "failed to correctly call subroutine");

    assert_eq!(cpu.get_register(0), val_1 * 2 + val_2, "failed to correctly return from subroutine");
}

#[test]
fn cpu_jump_to_address() {
    let mut cpu = CPU::new(true);

    let val_1 = 5;
    let val_2 = 7;

    // load registers
    cpu.load_register(0, val_1);
    cpu.load_register(1, val_2);

    // load opcodes
    cpu.load_opcode_into_memory(0x2100, 0x0);
    cpu.load_opcode_into_memory(0x8104, 0x100);

    cpu.run().unwrap();

    // verify result
    assert_eq!(cpu.get_register(1), val_1 + val_2, "failed to correctly execute jump");
}

#[test]
fn cpu_jump_to_address_with_displacement() {
    let mut cpu = CPU::new(true);

    let val_1 = 5;
    let val_2 = 7;

    // load registers
    cpu.load_register(0, val_1);
    cpu.load_register(1, val_2);

    // load opcodes
    cpu.load_opcode_into_memory(0xB0FB, 0x0);
    cpu.load_opcode_into_memory(0x8104, 0x100);

    cpu.run().unwrap();

    // verify result
    assert_eq!(cpu.get_register(1), val_1 + val_2, "failed to correctly execute jump");
}
