//! A reduced CHIP-8 processor: registers, memory, call stack and a run loop
//! over the arithmetic, logic, shift, skip and flow-control instructions.
//!
//! The all-zero instruction word halts the run loop; an opcode outside the
//! implemented set, a fetch past the end of memory and a call-stack
//! overflow or underflow stop it with an error.

use vstd::prelude::*;
use crate::alu::{
    FLAG_REG_ID, NUM_REGISTERS, regs_add_y_to_x, regs_add_const_to_x, regs_subtract_y_from_x,
    regs_subtract_x_from_y, regs_assign_const_to_x, regs_assign_y_to_x, regs_bitwise_or_x_y,
    regs_bitwise_and_x_y, regs_bitwise_xor_x_y, regs_right_bit_shift, regs_left_bit_shift,
    wrap_add, add_carry, wrap_sub, sub_no_borrow,
};
use crate::chip8::{Chip8Error, MEMORY_SIZE};
use crate::decode::{
    spec_op_group, spec_x_reg, spec_y_reg, spec_subgroup, spec_address, spec_const_val, spec_word,
    lemma_decode_bounds, lemma_word_bytes_roundtrip,
};
use crate::stack::{Stack, STACK_CAPACITY};

verus! {

/// Mathematical state of the processor.
pub struct CpuView {
    pub regs: Seq<u8>,
    pub pc: u16,
    pub mem: Seq<u8>,
    pub stack: Seq<u16>,
    pub assign_before_shift: bool,
}

/// What one executed instruction reports back to the run loop.
#[derive(Debug, Clone, Copy, PartialEq, Eq, Structural)]
pub enum CpuOutcome {
    /// The instruction completed; execution goes on.
    Continue,
    /// The all-zero word was fetched; the run loop stops.
    Halt,
    /// Execution failed; the run loop stops with this error.
    Failed(Chip8Error),
}

/// Whether a full instruction word can be fetched at the program counter.
pub open spec fn cpu_can_fetch(v: CpuView) -> bool {
    v.pc as int + 1 < MEMORY_SIZE
}

/// Effect of the already-fetched instruction `opcode` on the machine state
/// `v`, whose program counter has been advanced past the instruction.
/// `at` is the address the word was fetched from, reported on error.
#[verifier::opaque]
pub open spec fn spec_cpu_exec_op(v: CpuView, opcode: u16, at: u16) -> (CpuView, CpuOutcome) {
    let x = spec_x_reg(opcode) as int;
    let y = spec_y_reg(opcode) as int;
    let group = spec_op_group(opcode);
    let subgroup = spec_subgroup(opcode);
    let address = spec_address(opcode);
    let const_val = spec_const_val(opcode);
    if opcode == 0x0000 {
        (v, CpuOutcome::Halt)
    } else if group == 0x0 && spec_x_reg(opcode) == 0x0 && spec_y_reg(opcode) == 0xE && subgroup
        == 0xE {
        if v.stack.len() == 0 {
            (v, CpuOutcome::Failed(Chip8Error::StackUnderflow))
        } else {
            (
                (CpuView { pc: v.stack.last(), stack: v.stack.drop_last(), ..v }),
                CpuOutcome::Continue,
            )
        }
    } else if group == 0x1 {
        ((CpuView { pc: address, ..v }), CpuOutcome::Continue)
    } else if group == 0x2 {
        if v.stack.len() >= STACK_CAPACITY {
            (v, CpuOutcome::Failed(Chip8Error::StackOverflow))
        } else {
            ((CpuView { stack: v.stack.push(v.pc), pc: address, ..v }), CpuOutcome::Continue)
        }
    } else if group == 0x3 {
        (
            (CpuView {
                pc: if v.regs[x] == const_val {
                    (v.pc + 2) as u16
                } else {
                    v.pc
                },
                ..v
            }),
            CpuOutcome::Continue,
        )
    } else if group == 0x4 {
        (
            (CpuView {
                pc: if v.regs[x] != const_val {
                    (v.pc + 2) as u16
                } else {
                    v.pc
                },
                ..v
            }),
            CpuOutcome::Continue,
        )
    } else if group == 0x5 && subgroup == 0x0 {
        (
            (CpuView {
                pc: if v.regs[x] == v.regs[y] {
                    (v.pc + 2) as u16
                } else {
                    v.pc
                },
                ..v
            }),
            CpuOutcome::Continue,
        )
    } else if group == 0x6 {
        ((CpuView { regs: regs_assign_const_to_x(v.regs, x, const_val), ..v }), CpuOutcome::Continue)
    } else if group == 0x7 {
        ((CpuView { regs: regs_add_const_to_x(v.regs, x, const_val), ..v }), CpuOutcome::Continue)
    } else if group == 0x8 && subgroup == 0x0 {
        ((CpuView { regs: regs_assign_y_to_x(v.regs, x, y), ..v }), CpuOutcome::Continue)
    } else if group == 0x8 && subgroup == 0x1 {
        ((CpuView { regs: regs_bitwise_or_x_y(v.regs, x, y), ..v }), CpuOutcome::Continue)
    } else if group == 0x8 && subgroup == 0x2 {
        ((CpuView { regs: regs_bitwise_and_x_y(v.regs, x, y), ..v }), CpuOutcome::Continue)
    } else if group == 0x8 && subgroup == 0x3 {
        ((CpuView { regs: regs_bitwise_xor_x_y(v.regs, x, y), ..v }), CpuOutcome::Continue)
    } else if group == 0x8 && subgroup == 0x4 {
        ((CpuView { regs: regs_add_y_to_x(v.regs, x, y), ..v }), CpuOutcome::Continue)
    } else if group == 0x8 && subgroup == 0x5 {
        ((CpuView { regs: regs_subtract_y_from_x(v.regs, x, y), ..v }), CpuOutcome::Continue)
    } else if group == 0x8 && subgroup == 0x6 {
        (
            (CpuView { regs: regs_right_bit_shift(v.regs, x, y, v.assign_before_shift), ..v }),
            CpuOutcome::Continue,
        )
    } else if group == 0x8 && subgroup == 0x7 {
        ((CpuView { regs: regs_subtract_x_from_y(v.regs, x, y), ..v }), CpuOutcome::Continue)
    } else if group == 0x8 && subgroup == 0xE {
        (
            (CpuView { regs: regs_left_bit_shift(v.regs, x, y, v.assign_before_shift), ..v }),
            CpuOutcome::Continue,
        )
    } else if group == 0x9 && subgroup == 0x0 {
        (
            (CpuView {
                pc: if v.regs[x] != v.regs[y] {
                    (v.pc + 2) as u16
                } else {
                    v.pc
                },
                ..v
            }),
            CpuOutcome::Continue,
        )
    } else if group == 0xB {
        ((CpuView { pc: (address + v.regs[0]) as u16, ..v }), CpuOutcome::Continue)
    } else {
        (v, CpuOutcome::Failed(Chip8Error::InstructionNotImplemented(opcode, at)))
    }
}

/// One fetch-decode-execute step: fetch the big-endian word at the program
/// counter, advance the counter by two, then apply the instruction. A
/// program counter that cannot address a full word fails without changing
/// the state.
#[verifier::opaque]
pub open spec fn spec_cpu_step(v: CpuView) -> (CpuView, CpuOutcome) {
    if !cpu_can_fetch(v) {
        (v, CpuOutcome::Failed(Chip8Error::MemoryOutOfBounds))
    } else {
        let opcode = spec_word(v.mem[v.pc as int], v.mem[v.pc as int + 1]);
        spec_cpu_exec_op((CpuView { pc: (v.pc + 2) as u16, ..v }), opcode, v.pc)
    }
}

/// The state after `n` steps, ignoring outcomes.
pub open spec fn spec_cpu_steps(v: CpuView, n: nat) -> CpuView
    decreases n,
{
    if n == 0 {
        v
    } else {
        spec_cpu_step(spec_cpu_steps(v, (n - 1) as nat)).0
    }
}

/// The first `n` steps from `v0` all report `Continue`.
pub open spec fn cpu_runs_until(v0: CpuView, n: nat) -> bool {
    forall|k: nat| k < n ==> spec_cpu_step(#[trigger] spec_cpu_steps(v0, k)).1 == CpuOutcome::Continue
}

/// The run loop made `n` continuing steps from `v0` and then one final step
/// that halted (result `Ok`) or failed (result `Err`), ending in `vend`.
pub open spec fn cpu_run_result(
    v0: CpuView,
    n: nat,
    vend: CpuView,
    result: Result<(), Chip8Error>,
) -> bool {
    &&& cpu_runs_until(v0, n)
    &&& vend == spec_cpu_step(spec_cpu_steps(v0, n)).0
    &&& match result {
        Ok(_) => spec_cpu_step(spec_cpu_steps(v0, n)).1 == CpuOutcome::Halt,
        Err(e) => spec_cpu_step(spec_cpu_steps(v0, n)).1 == CpuOutcome::Failed(e),
    }
}

/// The reduced processor.
pub struct CPU {
    registers: Vec<u8>,
    program_counter: u16,
    memory: Vec<u8>,
    assign_before_shift: bool,
    stack: Stack,
}

impl CPU {
    pub closed spec fn wf(&self) -> bool {
        &&& self.registers@.len() == NUM_REGISTERS
        &&& self.memory@.len() == MEMORY_SIZE
        &&& self.stack.wf()
    }

    /// The mathematical state of the processor.
    pub closed spec fn state(&self) -> CpuView {
        CpuView {
            regs: self.registers@,
            pc: self.program_counter,
            mem: self.memory@,
            stack: self.stack@,
            assign_before_shift: self.assign_before_shift,
        }
    }

    pub fn new(assign_before_shift: bool) -> (cpu: CPU)
        ensures
            cpu.wf(),
            cpu.state().pc == 0,
            cpu.state().regs.len() == NUM_REGISTERS,
            forall|i: int| 0 <= i < NUM_REGISTERS ==> cpu.state().regs[i] == 0,
            cpu.state().mem.len() == MEMORY_SIZE,
            forall|i: int| 0 <= i < MEMORY_SIZE ==> cpu.state().mem[i] == 0,
            cpu.state().stack == Seq::<u16>::empty(),
            cpu.state().assign_before_shift == assign_before_shift,
    {
        let mut registers: Vec<u8> = Vec::new();
        while registers.len() < NUM_REGISTERS
            invariant
                registers@.len() <= NUM_REGISTERS,
                forall|i: int| 0 <= i < registers@.len() ==> registers@[i] == 0,
            decreases NUM_REGISTERS - registers@.len(),
        {
            registers.push(0);
        }
        let mut memory: Vec<u8> = Vec::new();
        while memory.len() < MEMORY_SIZE
            invariant
                memory@.len() <= MEMORY_SIZE,
                forall|i: int| 0 <= i < memory@.len() ==> memory@[i] == 0,
            decreases MEMORY_SIZE - memory@.len(),
        {
            memory.push(0);
        }
        CPU { registers, program_counter: 0x0, memory, assign_before_shift, stack: Stack::new() }
    }

    /// The big-endian instruction word at the program counter.
    fn read_opcode(&self) -> (opcode: u16)
        requires
            self.wf(),
            cpu_can_fetch(self.state()),
        ensures
            opcode == spec_word(
                self.state().mem[self.state().pc as int],
                self.state().mem[self.state().pc as int + 1],
            ),
    {
        let byte_1 = self.memory[self.program_counter as usize];
        let byte_2 = self.memory[(self.program_counter + 1) as usize];
        ((byte_1 as u16) << 8u16) | (byte_2 as u16)
    }

    /// Writes the word big-endian at `address`, so that a fetch from
    /// `address` yields `opcode` back.
    pub fn load_opcode_into_memory(&mut self, opcode: u16, address: u16)
        requires
            old(self).wf(),
            address as int + 1 < MEMORY_SIZE,
        ensures
            final(self).wf(),
            final(self).state() == (CpuView {
                mem: old(self).state().mem.update(
                    address as int,
                    ((opcode & 0xFF00) >> 8u16) as u8,
                ).update(address as int + 1, (opcode & 0x00FF) as u8),
                ..old(self).state()
            }),
            spec_word(
                final(self).state().mem[address as int],
                final(self).state().mem[address as int + 1],
            ) == opcode,
    {
        let byte_1 = ((opcode & 0xFF00) >> 8u16) as u8;
        let byte_2 = (opcode & 0x00FF) as u8;
        self.memory.set(address as usize, byte_1);
        self.memory.set((address + 1) as usize, byte_2);
        proof {
            lemma_word_bytes_roundtrip(opcode);
        }
    }

    /// Writes consecutive instruction words starting at `address`.
    pub fn load_opcodes_into_memory(&mut self, opcodes: &Vec<u16>, address: u16)
        requires
            old(self).wf(),
            address as int + 2 * opcodes@.len() <= MEMORY_SIZE,
        ensures
            final(self).wf(),
            final(self).state().regs == old(self).state().regs,
            final(self).state().pc == old(self).state().pc,
            final(self).state().stack == old(self).state().stack,
            final(self).state().assign_before_shift == old(self).state().assign_before_shift,
            final(self).state().mem.len() == MEMORY_SIZE,
            forall|j: int|
                0 <= j < opcodes@.len() ==> spec_word(
                    final(self).state().mem[address as int + 2 * j],
                    final(self).state().mem[address as int + 2 * j + 1],
                ) == opcodes@[j],
            forall|k: int|
                0 <= k < MEMORY_SIZE && !(address as int <= k < address as int + 2 * opcodes@.len())
                    ==> final(self).state().mem[k] == old(self).state().mem[k],
    {
        let ghost orig = self.state();
        let mut i: usize = 0;
        while i < opcodes.len()
            invariant
                self.wf(),
                i <= opcodes@.len(),
                address as int + 2 * opcodes@.len() <= MEMORY_SIZE,
                self.state().regs == orig.regs,
                self.state().pc == orig.pc,
                self.state().stack == orig.stack,
                self.state().assign_before_shift == orig.assign_before_shift,
                self.state().mem.len() == MEMORY_SIZE,
                forall|j: int|
                    0 <= j < i ==> spec_word(
                        self.state().mem[address as int + 2 * j],
                        self.state().mem[address as int + 2 * j + 1],
                    ) == opcodes@[j],
                forall|k: int|
                    0 <= k < MEMORY_SIZE && !(address as int <= k < address as int + 2 * i)
                        ==> self.state().mem[k] == orig.mem[k],
            decreases opcodes@.len() - i,
        {
            let word_address = address + 2 * (i as u16);
            self.load_opcode_into_memory(opcodes[i], word_address);
            i = i + 1;
        }
    }

    /// Sets one register directly.
    pub fn load_register(&mut self, reg_id: u8, value: u8)
        requires
            old(self).wf(),
            reg_id < NUM_REGISTERS,
        ensures
            final(self).wf(),
            final(self).state() == (CpuView {
                regs: old(self).state().regs.update(reg_id as int, value),
                ..old(self).state()
            }),
    {
        self.registers.set(reg_id as usize, value);
    }

    /// Sets the whole register file.
    pub fn load_registers(&mut self, values: &Vec<u8>)
        requires
            old(self).wf(),
            values@.len() == NUM_REGISTERS,
        ensures
            final(self).wf(),
            final(self).state() == (CpuView { regs: values@, ..old(self).state() }),
    {
        let ghost orig = self.state();
        let mut reg_id: usize = 0;
        while reg_id < NUM_REGISTERS
            invariant
                self.wf(),
                reg_id <= NUM_REGISTERS,
                values@.len() == NUM_REGISTERS,
                self.state().pc == orig.pc,
                self.state().mem == orig.mem,
                self.state().stack == orig.stack,
                self.state().assign_before_shift == orig.assign_before_shift,
                self.state().regs.len() == NUM_REGISTERS,
                forall|j: int| 0 <= j < reg_id ==> self.state().regs[j] == values@[j],
                forall|j: int|
                    reg_id <= j < NUM_REGISTERS ==> self.state().regs[j] == orig.regs[j],
            decreases NUM_REGISTERS - reg_id,
        {
            self.registers.set(reg_id, values[reg_id]);
            reg_id = reg_id + 1;
        }
        proof {
            assert(self.state().regs =~= values@);
        }
    }

    /// Reads one register.
    pub fn get_register(&self, reg_id: u8) -> (value: u8)
        requires
            self.wf(),
            reg_id < NUM_REGISTERS,
        ensures
            value == self.state().regs[reg_id as int],
    {
        self.registers[reg_id as usize]
    }

    /// 8-bit wraparound add of Y into X; the flags register records the
    /// carry (this one, unlike `add_const_to_x`, does set it).
    fn add_y_to_x(&mut self, x_reg_id: u8, y_reg_id: u8)
        requires
            old(self).wf(),
            x_reg_id < NUM_REGISTERS,
            y_reg_id < NUM_REGISTERS,
        ensures
            final(self).wf(),
            final(self).state() == (CpuView {
                regs: regs_add_y_to_x(old(self).state().regs, x_reg_id as int, y_reg_id as int),
                ..old(self).state()
            }),
    {
        let arg_1 = self.registers[x_reg_id as usize];
        let arg_2 = self.registers[y_reg_id as usize];
        let sum = (arg_1 as u16) + (arg_2 as u16);
        let value = (sum % 256) as u8;
        let flag: u8 = if sum >= 256 {
            1
        } else {
            0
        };
        self.registers.set(x_reg_id as usize, value);
        self.registers.set(FLAG_REG_ID as usize, flag);
        proof {
            assert(value == wrap_add(arg_1, arg_2));
            assert(flag == add_carry(arg_1, arg_2));
        }
    }

    /// 8-bit wraparound add of a constant into X; the flags register is not
    /// touched.
    fn add_const_to_x(&mut self, x_reg_id: u8, const_val: u8)
        requires
            old(self).wf(),
            x_reg_id < NUM_REGISTERS,
        ensures
            final(self).wf(),
            final(self).state() == (CpuView {
                regs: regs_add_const_to_x(old(self).state().regs, x_reg_id as int, const_val),
                ..old(self).state()
            }),
    {
        let arg_1 = self.registers[x_reg_id as usize];
        let sum = (arg_1 as u16) + (const_val as u16);
        let value = (sum % 256) as u8;
        self.registers.set(x_reg_id as usize, value);
        proof {
            assert(value == wrap_add(arg_1, const_val));
        }
    }

    /// X = X - Y with 8-bit wraparound; the flags register is set to 0 on a
    /// borrow and to 1 otherwise.
    fn subtract_y_from_x(&mut self, x_reg_id: u8, y_reg_id: u8)
        requires
            old(self).wf(),
            x_reg_id < NUM_REGISTERS,
            y_reg_id < NUM_REGISTERS,
        ensures
            final(self).wf(),
            final(self).state() == (CpuView {
                regs: regs_subtract_y_from_x(
                    old(self).state().regs,
                    x_reg_id as int,
                    y_reg_id as int,
                ),
                ..old(self).state()
            }),
    {
        let arg_1 = self.registers[x_reg_id as usize];
        let arg_2 = self.registers[y_reg_id as usize];
        let value = ((((arg_1 as u16) + 256) - (arg_2 as u16)) % 256) as u8;
        let flag: u8 = if arg_1 < arg_2 {
            0
        } else {
            1
        };
        self.registers.set(x_reg_id as usize, value);
        self.registers.set(FLAG_REG_ID as usize, flag);
        proof {
            assert(value == wrap_sub(arg_1, arg_2));
            assert(flag == sub_no_borrow(arg_1, arg_2));
        }
    }

    /// X = Y - X with 8-bit wraparound: the result is written to X even
    /// though X is the subtrahend, with the same inverted borrow flag.
    fn subtract_x_from_y(&mut self, x_reg_id: u8, y_reg_id: u8)
        requires
            old(self).wf(),
            x_reg_id < NUM_REGISTERS,
            y_reg_id < NUM_REGISTERS,
        ensures
            final(self).wf(),
            final(self).state() == (CpuView {
                regs: regs_subtract_x_from_y(
                    old(self).state().regs,
                    x_reg_id as int,
                    y_reg_id as int,
                ),
                ..old(self).state()
            }),
    {
        let arg_1 = self.registers[x_reg_id as usize];
        let arg_2 = self.registers[y_reg_id as usize];
        let value = ((((arg_2 as u16) + 256) - (arg_1 as u16)) % 256) as u8;
        let flag: u8 = if arg_2 < arg_1 {
            0
        } else {
            1
        };
        self.registers.set(x_reg_id as usize, value);
        self.registers.set(FLAG_REG_ID as usize, flag);
        proof {
            assert(value == wrap_sub(arg_2, arg_1));
            assert(flag == sub_no_borrow(arg_2, arg_1));
        }
    }

    fn assign_const_to_x(&mut self, x_reg_id: u8, const_val: u8)
        requires
            old(self).wf(),
            x_reg_id < NUM_REGISTERS,
        ensures
            final(self).wf(),
            final(self).state() == (CpuView {
                regs: regs_assign_const_to_x(old(self).state().regs, x_reg_id as int, const_val),
                ..old(self).state()
            }),
    {
        self.registers.set(x_reg_id as usize, const_val);
    }

    fn assign_y_to_x(&mut self, x_reg_id: u8, y_reg_id: u8)
        requires
            old(self).wf(),
            x_reg_id < NUM_REGISTERS,
            y_reg_id < NUM_REGISTERS,
        ensures
            final(self).wf(),
            final(self).state() == (CpuView {
                regs: regs_assign_y_to_x(old(self).state().regs, x_reg_id as int, y_reg_id as int),
                ..old(self).state()
            }),
    {
        let value = self.registers[y_reg_id as usize];
        self.registers.set(x_reg_id as usize, value);
    }

    fn bitwise_or_x_y(&mut self, x_reg_id: u8, y_reg_id: u8)
        requires
            old(self).wf(),
            x_reg_id < NUM_REGISTERS,
            y_reg_id < NUM_REGISTERS,
        ensures
            final(self).wf(),
            final(self).state() == (CpuView {
                regs: regs_bitwise_or_x_y(old(self).state().regs, x_reg_id as int, y_reg_id as int),
                ..old(self).state()
            }),
    {
        let value = self.registers[x_reg_id as usize] | self.registers[y_reg_id as usize];
        self.registers.set(x_reg_id as usize, value);
    }

    fn bitwise_and_x_y(&mut self, x_reg_id: u8, y_reg_id: u8)
        requires
            old(self).wf(),
            x_reg_id < NUM_REGISTERS,
            y_reg_id < NUM_REGISTERS,
        ensures
            final(self).wf(),
            final(self).state() == (CpuView {
                regs: regs_bitwise_and_x_y(
                    old(self).state().regs,
                    x_reg_id as int,
                    y_reg_id as int,
                ),
                ..old(self).state()
            }),
    {
        let value = self.registers[x_reg_id as usize] & self.registers[y_reg_id as usize];
        self.registers.set(x_reg_id as usize, value);
    }

    fn bitwise_xor_x_y(&mut self, x_reg_id: u8, y_reg_id: u8)
        requires
            old(self).wf(),
            x_reg_id < NUM_REGISTERS,
            y_reg_id < NUM_REGISTERS,
        ensures
            final(self).wf(),
            final(self).state() == (CpuView {
                regs: regs_bitwise_xor_x_y(
                    old(self).state().regs,
                    x_reg_id as int,
                    y_reg_id as int,
                ),
                ..old(self).state()
            }),
    {
        let value = self.registers[x_reg_id as usize] ^ self.registers[y_reg_id as usize];
        self.registers.set(x_reg_id as usize, value);
    }

    /// Shifts X one position to the right. The flags register receives the
    /// pre-shift least significant bit; with the `assign_before_shift`
    /// quirk, Y is first copied into X.
    fn right_bit_shift(&mut self, x_reg_id: u8, y_reg_id: u8)
        requires
            old(self).wf(),
            x_reg_id < NUM_REGISTERS,
            y_reg_id < NUM_REGISTERS,
        ensures
            final(self).wf(),
            final(self).state() == (CpuView {
                regs: regs_right_bit_shift(
                    old(self).state().regs,
                    x_reg_id as int,
                    y_reg_id as int,
                    old(self).state().assign_before_shift,
                ),
                ..old(self).state()
            }),
    {
        if self.assign_before_shift {
            self.assign_y_to_x(x_reg_id, y_reg_id);
        }
        let flag = self.registers[x_reg_id as usize] & 1;
        self.registers.set(FLAG_REG_ID as usize, flag);
        let value = self.registers[x_reg_id as usize] >> 1u8;
        self.registers.set(x_reg_id as usize, value);
    }

    /// Shifts X one position to the left. The flags register receives the
    /// pre-shift most significant bit; with the `assign_before_shift`
    /// quirk, Y is first copied into X.
    fn left_bit_shift(&mut self, x_reg_id: u8, y_reg_id: u8)
        requires
            old(self).wf(),
            x_reg_id < NUM_REGISTERS,
            y_reg_id < NUM_REGISTERS,
        ensures
            final(self).wf(),
            final(self).state() == (CpuView {
                regs: regs_left_bit_shift(
                    old(self).state().regs,
                    x_reg_id as int,
                    y_reg_id as int,
                    old(self).state().assign_before_shift,
                ),
                ..old(self).state()
            }),
    {
        if self.assign_before_shift {
            self.assign_y_to_x(x_reg_id, y_reg_id);
        }
        let flag = (self.registers[x_reg_id as usize] & 0x80) >> 7u8;
        self.registers.set(FLAG_REG_ID as usize, flag);
        let value = self.registers[x_reg_id as usize] << 1u8;
        self.registers.set(x_reg_id as usize, value);
    }

    /// Advances the program counter by an extra instruction when X holds
    /// the constant.
    fn skip_if_x_equals_const(&mut self, x_reg_id: u8, const_val: u8)
        requires
            old(self).wf(),
            x_reg_id < NUM_REGISTERS,
            old(self).state().pc as int + 2 <= u16::MAX,
        ensures
            final(self).wf(),
            final(self).state() == (CpuView {
                pc: if old(self).state().regs[x_reg_id as int] == const_val {
                    (old(self).state().pc + 2) as u16
                } else {
                    old(self).state().pc
                },
                ..old(self).state()
            }),
    {
        if self.registers[x_reg_id as usize] == const_val {
            self.program_counter = self.program_counter + 2;
        }
    }

    /// Advances the program counter by an extra instruction when X does not
    /// hold the constant.
    fn skip_if_x_not_equals_const(&mut self, x_reg_id: u8, const_val: u8)
        requires
            old(self).wf(),
            x_reg_id < NUM_REGISTERS,
            old(self).state().pc as int + 2 <= u16::MAX,
        ensures
            final(self).wf(),
            final(self).state() == (CpuView {
                pc: if old(self).state().regs[x_reg_id as int] != const_val {
                    (old(self).state().pc + 2) as u16
                } else {
                    old(self).state().pc
                },
                ..old(self).state()
            }),
    {
        if self.registers[x_reg_id as usize] != const_val {
            self.program_counter = self.program_counter + 2;
        }
    }

    /// Advances the program counter by an extra instruction when X and Y
    /// hold the same value.
    fn skip_if_x_equals_y(&mut self, x_reg_id: u8, y_reg_id: u8)
        requires
            old(self).wf(),
            x_reg_id < NUM_REGISTERS,
            y_reg_id < NUM_REGISTERS,
            old(self).state().pc as int + 2 <= u16::MAX,
        ensures
            final(self).wf(),
            final(self).state() == (CpuView {
                pc: if old(self).state().regs[x_reg_id as int] == old(self).state().regs[y_reg_id as int] {
                    (old(self).state().pc + 2) as u16
                } else {
                    old(self).state().pc
                },
                ..old(self).state()
            }),
    {
        if self.registers[x_reg_id as usize] == self.registers[y_reg_id as usize] {
            self.program_counter = self.program_counter + 2;
        }
    }

    /// Advances the program counter by an extra instruction when X and Y
    /// hold different values.
    fn skip_if_x_not_equals_y(&mut self, x_reg_id: u8, y_reg_id: u8)
        requires
            old(self).wf(),
            x_reg_id < NUM_REGISTERS,
            y_reg_id < NUM_REGISTERS,
            old(self).state().pc as int + 2 <= u16::MAX,
        ensures
            final(self).wf(),
            final(self).state() == (CpuView {
                pc: if old(self).state().regs[x_reg_id as int] != old(self).state().regs[y_reg_id as int] {
                    (old(self).state().pc + 2) as u16
                } else {
                    old(self).state().pc
                },
                ..old(self).state()
            }),
    {
        if self.registers[x_reg_id as usize] != self.registers[y_reg_id as usize] {
            self.program_counter = self.program_counter + 2;
        }
    }

    /// Pushes the program counter and jumps to the target address.
    fn call_subroutine(&mut self, address: u16)
        requires
            old(self).wf(),
            old(self).state().stack.len() < STACK_CAPACITY,
        ensures
            final(self).wf(),
            final(self).state() == (CpuView {
                stack: old(self).state().stack.push(old(self).state().pc),
                pc: address,
                ..old(self).state()
            }),
    {
        self.stack.push(self.program_counter);
        self.program_counter = address;
    }

    /// Pops the most recent return address into the program counter.
    fn return_from_subroutine(&mut self)
        requires
            old(self).wf(),
            old(self).state().stack.len() > 0,
        ensures
            final(self).wf(),
            final(self).state() == (CpuView {
                pc: old(self).state().stack.last(),
                stack: old(self).state().stack.drop_last(),
                ..old(self).state()
            }),
    {
        let address: u16 = self.stack.pop();
        self.program_counter = address;
    }

    fn jump_to_address(&mut self, address: u16)
        requires
            old(self).wf(),
        ensures
            final(self).wf(),
            final(self).state() == (CpuView { pc: address, ..old(self).state() }),
    {
        self.program_counter = address;
    }

    /// Jumps to the target address displaced by the value of register 0.
    fn jump_to_address_with_displacement(&mut self, address: u16)
        requires
            old(self).wf(),
            address < 0x1000,
        ensures
            final(self).wf(),
            final(self).state() == (CpuView {
                pc: (address + old(self).state().regs[0]) as u16,
                ..old(self).state()
            }),
    {
        let target = address + (self.registers[0x0] as u16);
        self.jump_to_address(target);
    }

    /// One fetch-decode-execute step, reported to the run loop.
    fn step(&mut self) -> (outcome: CpuOutcome)
        requires
            old(self).wf(),
        ensures
            final(self).wf(),
            final(self).state() == spec_cpu_step(old(self).state()).0,
            outcome == spec_cpu_step(old(self).state()).1,
    {
        let ghost v0 = self.state();
        proof {
            reveal(spec_cpu_step);
            reveal(spec_cpu_exec_op);
        }
        if self.program_counter >= (MEMORY_SIZE as u16) - 1 {
            return CpuOutcome::Failed(Chip8Error::MemoryOutOfBounds);
        }
        let at = self.program_counter;
        let opcode = self.read_opcode();
        self.program_counter = self.program_counter + 2;
        let ghost v1 = self.state();
        proof {
            lemma_decode_bounds(opcode);
            assert(v1 == (CpuView { pc: (v0.pc + 2) as u16, ..v0 }));
        }

        let opcode_group: u8 = ((opcode & 0xF000) >> 12u16) as u8;
        let x_reg_id: u8 = ((opcode & 0x0F00) >> 8u16) as u8;
        let y_reg_id: u8 = ((opcode & 0x00F0) >> 4u16) as u8;
        let opcode_subgroup: u8 = (opcode & 0x000F) as u8;
        let address: u16 = opcode & 0x0FFF;
        let const_val: u8 = (opcode & 0x00FF) as u8;
        proof {
            assert(opcode_group == spec_op_group(opcode));
            assert(x_reg_id == spec_x_reg(opcode));
            assert(y_reg_id == spec_y_reg(opcode));
            assert(opcode_subgroup == spec_subgroup(opcode));
            assert(address == spec_address(opcode));
            assert(const_val == spec_const_val(opcode));
        }

        let outcome: CpuOutcome = if opcode == 0x0000 {
            CpuOutcome::Halt
        } else if opcode_group == 0x0 && x_reg_id == 0x0 && y_reg_id == 0xE && opcode_subgroup
            == 0xE {
            if self.stack.len() == 0 {
                CpuOutcome::Failed(Chip8Error::StackUnderflow)
            } else {
                self.return_from_subroutine();
                CpuOutcome::Continue
            }
        } else if opcode_group == 0x1 {
            self.jump_to_address(address);
            CpuOutcome::Continue
        } else if opcode_group == 0x2 {
            if self.stack.len() >= STACK_CAPACITY {
                CpuOutcome::Failed(Chip8Error::StackOverflow)
            } else {
                self.call_subroutine(address);
                CpuOutcome::Continue
            }
        } else if opcode_group == 0x3 {
            self.skip_if_x_equals_const(x_reg_id, const_val);
            CpuOutcome::Continue
        } else if opcode_group == 0x4 {
            self.skip_if_x_not_equals_const(x_reg_id, const_val);
            CpuOutcome::Continue
        } else if opcode_group == 0x5 && opcode_subgroup == 0x0 {
            self.skip_if_x_equals_y(x_reg_id, y_reg_id);
            CpuOutcome::Continue
        } else if opcode_group == 0x6 {
            self.assign_const_to_x(x_reg_id, const_val);
            CpuOutcome::Continue
        } else if opcode_group == 0x7 {
            self.add_const_to_x(x_reg_id, const_val);
            CpuOutcome::Continue
        } else if opcode_group == 0x8 && opcode_subgroup == 0x0 {
            self.assign_y_to_x(x_reg_id, y_reg_id);
            CpuOutcome::Continue
        } else if opcode_group == 0x8 && opcode_subgroup == 0x1 {
            self.bitwise_or_x_y(x_reg_id, y_reg_id);
            CpuOutcome::Continue
        } else if opcode_group == 0x8 && opcode_subgroup == 0x2 {
            self.bitwise_and_x_y(x_reg_id, y_reg_id);
            CpuOutcome::Continue
        } else if opcode_group == 0x8 && opcode_subgroup == 0x3 {
            self.bitwise_xor_x_y(x_reg_id, y_reg_id);
            CpuOutcome::Continue
        } else if opcode_group == 0x8 && opcode_subgroup == 0x4 {
            self.add_y_to_x(x_reg_id, y_reg_id);
            CpuOutcome::Continue
        } else if opcode_group == 0x8 && opcode_subgroup == 0x5 {
            self.subtract_y_from_x(x_reg_id, y_reg_id);
            CpuOutcome::Continue
        } else if opcode_group == 0x8 && opcode_subgroup == 0x6 {
            self.right_bit_shift(x_reg_id, y_reg_id);
            CpuOutcome::Continue
        } else if opcode_group == 0x8 && opcode_subgroup == 0x7 {
            self.subtract_x_from_y(x_reg_id, y_reg_id);
            CpuOutcome::Continue
        } else if opcode_group == 0x8 && opcode_subgroup == 0xE {
            self.left_bit_shift(x_reg_id, y_reg_id);
            CpuOutcome::Continue
        } else if opcode_group == 0x9 && opcode_subgroup == 0x0 {
            self.skip_if_x_not_equals_y(x_reg_id, y_reg_id);
            CpuOutcome::Continue
        } else if opcode_group == 0xB {
            self.jump_to_address_with_displacement(address);
            CpuOutcome::Continue
        } else {
            CpuOutcome::Failed(Chip8Error::InstructionNotImplemented(opcode, at))
        };
        proof {
            assert((final(self).state(), outcome) == spec_cpu_exec_op(v1, opcode, v0.pc));
        }
        outcome
    }

    /// Runs instructions until the all-zero halt word (`Ok`) or a failing
    /// instruction (`Err`). The result and the final state are those of a
    /// chain of specification steps whose last step halted or failed. The
    /// loop is bounded by a step budget of `u64::MAX` instructions, far
    /// beyond what any real program executes; if the budget ever ran out
    /// the function would return `Ok` after exactly that many continuing
    /// steps, as the second case of the contract states.
    #[verifier::rlimit(100)]
    pub fn run(&mut self) -> (result: Result<(), Chip8Error>)
        requires
            old(self).wf(),
        ensures
            final(self).wf(),
            (exists|n: nat|
                #[trigger] cpu_run_result(old(self).state(), n, final(self).state(), result)) || (
            result == Result::<(), Chip8Error>::Ok(()) && cpu_runs_until(
                old(self).state(),
                u64::MAX as nat,
            ) && final(self).state() == spec_cpu_steps(old(self).state(), u64::MAX as nat)),
    {
        let ghost v0 = self.state();
        let ghost mut n: nat = 0nat;
        let mut fuel: u64 = u64::MAX;
        while fuel > 0
            invariant
                self.wf(),
                v0 == old(self).state(),
                n == u64::MAX - fuel,
                self.state() == spec_cpu_steps(v0, n),
                cpu_runs_until(v0, n),
            decreases fuel,
        {
            fuel = fuel - 1;
            let outcome = self.step();
            proof {
                assert(spec_cpu_steps(v0, n + 1) == spec_cpu_step(spec_cpu_steps(v0, n)).0);
            }
            match outcome {
                CpuOutcome::Continue => {
                    proof {
                        assert forall|k: nat| k < n + 1 implies spec_cpu_step(
                            #[trigger] spec_cpu_steps(v0, k),
                        ).1 == CpuOutcome::Continue by {
                            if k == n {
                                assert(spec_cpu_step(spec_cpu_steps(v0, k)).1
                                    == CpuOutcome::Continue);
                            }
                        }
                        n = n + 1;
                    }
                }
                CpuOutcome::Halt => {
                    proof {
                        assert(v0 == old(self).state());
                        assert(cpu_run_result(
                            old(self).state(),
                            n,
                            self.state(),
                            Result::<(), Chip8Error>::Ok(()),
                        ));
                    }
                    return Ok(());
                }
                CpuOutcome::Failed(error) => {
                    proof {
                        assert(v0 == old(self).state());
                        assert(cpu_run_result(
                            old(self).state(),
                            n,
                            self.state(),
                            Result::<(), Chip8Error>::Err(error),
                        ));
                    }
                    return Err(error);
                }
            }
        }
        Ok(())
    }
}

} // verus!
