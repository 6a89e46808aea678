//! The full CHIP-8 machine: registers, memory, call stack, framebuffer,
//! keypad, timers and the fetch-decode-execute engine, with three
//! configurable quirk behaviours fixed at construction.
//!
//! The embedder loads program bytes, replaces the keypad snapshot once per
//! frame, advances the machine one frame at a time with the elapsed wall
//! clock time in nanoseconds, and reads back the framebuffer and the sound
//! flag. The all-zero instruction word marks the end of a program without a
//! trailing halt: it sets a terminal flag and execution may simply stop.

use vstd::prelude::*;
use crate::alu::{
    FLAG_REG_ID, NUM_REGISTERS, regs_add_y_to_x, regs_add_const_to_x, regs_subtract_y_from_x,
    regs_subtract_x_from_y, regs_assign_const_to_x, regs_assign_y_to_x, regs_bitwise_or_x_y,
    regs_bitwise_and_x_y, regs_bitwise_xor_x_y, regs_right_bit_shift, regs_left_bit_shift,
    wrap_add, add_carry, wrap_sub, sub_no_borrow,
};
use crate::decode::{
    spec_op_group, spec_x_reg, spec_y_reg, spec_subgroup, spec_address, spec_const_val, spec_word,
    lemma_decode_bounds, lemma_word_bytes_roundtrip,
};
use crate::keypad::{Keypad, NUM_KEYS, spec_first_pressed};
use crate::screen::{Screen, WIDTH, HEIGHT, NUM_PIXELS, draw_spec, draw_collision};
use crate::stack::{Stack, STACK_CAPACITY};

verus! {

/// Size of the addressable memory in bytes.
pub const MEMORY_SIZE: usize = 0x1000;

/// Address where the font sprite data is stored.
pub const FONT_START_ADDRESS: u16 = 0x050;

/// Address where a loaded program starts.
pub const PROGRAM_START_ADDRESS: u16 = 0x200;

/// Duration of one emulated instruction in nanoseconds, chosen to emulate a
/// reference clock of roughly 700 instructions per second times frame rate.
pub const INSTRUCTION_EXEC_NANOS: u64 = 1_428_571;

/// Errors surfaced by instruction execution. The reference behaviour for
/// the stack, addressing and keypad conditions is a halt of the whole
/// process; they are reported as errors here so that execution never
/// silently corrupts state and never panics.
#[derive(Debug, Clone, Copy, PartialEq, Eq, Structural)]
pub enum Chip8Error {
    /// A fetched opcode matches no implemented pattern; carries the raw
    /// opcode and the address it was fetched from.
    InstructionNotImplemented(u16, u16),
    /// A subroutine call was attempted with the call stack at capacity.
    StackOverflow,
    /// A return was attempted with an empty call stack.
    StackUnderflow,
    /// A fetch or a register dump, load or sprite read would touch an
    /// address outside the 4096-byte memory.
    MemoryOutOfBounds,
    /// A skip-on-key instruction named a key index above 15.
    KeyOutOfRange(u8),
}

/// Mathematical state of the machine.
pub struct Chip8View {
    pub regs: Seq<u8>,
    pub pc: u16,
    pub mem: Seq<u8>,
    pub assign_before_shift: bool,
    pub set_flag_on_index_overflow: bool,
    pub modify_index_on_dump_or_load: bool,
    pub stack: Seq<u16>,
    pub pixels: Seq<bool>,
    pub keys: Seq<bool>,
    pub index_reg: u16,
    pub delay_timer: u8,
    pub sound_timer: u8,
    pub playing_sound: bool,
    pub exec_time: u64,
    pub reached_end_of_file: bool,
}

/// Whether a full instruction word can be fetched at the program counter.
pub open spec fn can_fetch(v: Chip8View) -> bool {
    v.pc as int + 1 < MEMORY_SIZE
}

/// Memory after registers `0..=x` are written consecutively from `index`.
pub open spec fn mem_with_regs_dumped(mem: Seq<u8>, regs: Seq<u8>, index: int, x: int) -> Seq<u8> {
    Seq::new(mem.len(), |k: int|
        if index <= k <= index + x {
            regs[k - index]
        } else {
            mem[k]
        })
}

/// Registers after `0..=x` are read consecutively from `index`.
pub open spec fn regs_loaded_from_mem(regs: Seq<u8>, mem: Seq<u8>, index: int, x: int) -> Seq<u8> {
    Seq::new(regs.len(), |r: int|
        if 0 <= r <= x {
            mem[index + r]
        } else {
            regs[r]
        })
}

/// One frame's timer step: the delay timer goes down by one to a floor of
/// zero; the sound timer goes down by one while above one, and sound plays
/// exactly while it stays above one before the step.
pub open spec fn spec_tick_timers(v: Chip8View) -> Chip8View {
    let delay = if v.delay_timer >= 1 {
        (v.delay_timer - 1) as u8
    } else {
        v.delay_timer
    };
    if v.sound_timer <= 1 {
        (Chip8View { delay_timer: delay, sound_timer: 0, playing_sound: false, ..v })
    } else {
        (Chip8View {
            delay_timer: delay,
            sound_timer: (v.sound_timer - 1) as u8,
            playing_sound: true,
            ..v
        })
    }
}

/// Effect of the already-fetched instruction `opcode` on the machine state
/// `v`, whose program counter has been advanced past the instruction.
/// `at` is the address the word was fetched from, reported on error. When
/// an error is reported, the state is the post-fetch state unchanged.
#[verifier::opaque]
pub open spec fn spec_exec_op(v: Chip8View, opcode: u16, at: u16) -> (Chip8View, Option<
    Chip8Error,
>) {
    let x = spec_x_reg(opcode) as int;
    let y = spec_y_reg(opcode) as int;
    let group = spec_op_group(opcode);
    let subgroup = spec_subgroup(opcode);
    let address = spec_address(opcode);
    let const_val = spec_const_val(opcode);
    let nibble_const_val = spec_subgroup(opcode);
    if opcode == 0x0000 {
        ((Chip8View { reached_end_of_file: true, ..v }), None)
    } else if group == 0x0 && spec_x_reg(opcode) == 0x0 && spec_y_reg(opcode) == 0xE && subgroup
        == 0xE {
        if v.stack.len() == 0 {
            (v, Some(Chip8Error::StackUnderflow))
        } else {
            ((Chip8View { pc: v.stack.last(), stack: v.stack.drop_last(), ..v }), None)
        }
    } else if group == 0x0 && spec_x_reg(opcode) == 0x0 && spec_y_reg(opcode) == 0xE && subgroup
        == 0x0 {
        ((Chip8View { pixels: Seq::new(NUM_PIXELS as nat, |i: int| false), ..v }), None)
    } else if group == 0x1 {
        ((Chip8View { pc: address, ..v }), None)
    } else if group == 0x2 {
        if v.stack.len() >= STACK_CAPACITY {
            (v, Some(Chip8Error::StackOverflow))
        } else {
            ((Chip8View { stack: v.stack.push(v.pc), pc: address, ..v }), None)
        }
    } else if group == 0x3 {
        (
            (Chip8View {
                pc: if v.regs[x] == const_val {
                    (v.pc + 2) as u16
                } else {
                    v.pc
                },
                ..v
            }),
            None,
        )
    } else if group == 0x4 {
        (
            (Chip8View {
                pc: if v.regs[x] != const_val {
                    (v.pc + 2) as u16
                } else {
                    v.pc
                },
                ..v
            }),
            None,
        )
    } else if group == 0x5 && subgroup == 0x0 {
        (
            (Chip8View {
                pc: if v.regs[x] == v.regs[y] {
                    (v.pc + 2) as u16
                } else {
                    v.pc
                },
                ..v
            }),
            None,
        )
    } else if group == 0x6 {
        ((Chip8View { regs: regs_assign_const_to_x(v.regs, x, const_val), ..v }), None)
    } else if group == 0x7 {
        ((Chip8View { regs: regs_add_const_to_x(v.regs, x, const_val), ..v }), None)
    } else if group == 0x8 && subgroup == 0x0 {
        ((Chip8View { regs: regs_assign_y_to_x(v.regs, x, y), ..v }), None)
    } else if group == 0x8 && subgroup == 0x1 {
        ((Chip8View { regs: regs_bitwise_or_x_y(v.regs, x, y), ..v }), None)
    } else if group == 0x8 && subgroup == 0x2 {
        ((Chip8View { regs: regs_bitwise_and_x_y(v.regs, x, y), ..v }), None)
    } else if group == 0x8 && subgroup == 0x3 {
        ((Chip8View { regs: regs_bitwise_xor_x_y(v.regs, x, y), ..v }), None)
    } else if group == 0x8 && subgroup == 0x4 {
        ((Chip8View { regs: regs_add_y_to_x(v.regs, x, y), ..v }), None)
    } else if group == 0x8 && subgroup == 0x5 {
        ((Chip8View { regs: regs_subtract_y_from_x(v.regs, x, y), ..v }), None)
    } else if group == 0x8 && subgroup == 0x6 {
        ((Chip8View { regs: regs_right_bit_shift(v.regs, x, y, v.assign_before_shift), ..v }), None)
    } else if group == 0x8 && subgroup == 0x7 {
        ((Chip8View { regs: regs_subtract_x_from_y(v.regs, x, y), ..v }), None)
    } else if group == 0x8 && subgroup == 0xE {
        ((Chip8View { regs: regs_left_bit_shift(v.regs, x, y, v.assign_before_shift), ..v }), None)
    } else if group == 0x9 && subgroup == 0x0 {
        (
            (Chip8View {
                pc: if v.regs[x] != v.regs[y] {
                    (v.pc + 2) as u16
                } else {
                    v.pc
                },
                ..v
            }),
            None,
        )
    } else if group == 0xA {
        ((Chip8View { index_reg: address, ..v }), None)
    } else if group == 0xB {
        ((Chip8View { pc: (address + v.regs[0]) as u16, ..v }), None)
    } else if group == 0xD {
        if v.index_reg as int + nibble_const_val > MEMORY_SIZE {
            (v, Some(Chip8Error::MemoryOutOfBounds))
        } else {
            let sprite = v.mem.subrange(v.index_reg as int, v.index_reg as int + nibble_const_val);
            let x0 = v.regs[x] as int % (WIDTH as int);
            let y0 = v.regs[y] as int % (HEIGHT as int);
            (
                (Chip8View {
                    pixels: draw_spec(v.pixels, x0, y0, sprite),
                    regs: if draw_collision(v.pixels, x0, y0, sprite) {
                        v.regs.update(FLAG_REG_ID as int, 1u8)
                    } else {
                        v.regs
                    },
                    ..v
                }),
                None,
            )
        }
    } else if group == 0xE && spec_y_reg(opcode) == 0x9 && subgroup == 0xE {
        if v.regs[x] >= NUM_KEYS {
            (v, Some(Chip8Error::KeyOutOfRange(v.regs[x])))
        } else {
            (
                (Chip8View {
                    pc: if v.keys[v.regs[x] as int] {
                        (v.pc + 2) as u16
                    } else {
                        v.pc
                    },
                    ..v
                }),
                None,
            )
        }
    } else if group == 0xE && spec_y_reg(opcode) == 0xA && subgroup == 0x1 {
        if v.regs[x] >= NUM_KEYS {
            (v, Some(Chip8Error::KeyOutOfRange(v.regs[x])))
        } else {
            (
                (Chip8View {
                    pc: if !v.keys[v.regs[x] as int] {
                        (v.pc + 2) as u16
                    } else {
                        v.pc
                    },
                    ..v
                }),
                None,
            )
        }
    } else if group == 0xF && spec_y_reg(opcode) == 0x0 && subgroup == 0x7 {
        ((Chip8View { regs: v.regs.update(x, v.delay_timer), ..v }), None)
    } else if group == 0xF && spec_y_reg(opcode) == 0x0 && subgroup == 0xA {
        match spec_first_pressed(v.keys, 0) {
            Some(key_id) => ((Chip8View { regs: v.regs.update(x, key_id), ..v }), None),
            None => ((Chip8View { pc: (v.pc - 2) as u16, ..v }), None),
        }
    } else if group == 0xF && spec_y_reg(opcode) == 0x1 && subgroup == 0x5 {
        ((Chip8View { delay_timer: v.regs[x], ..v }), None)
    } else if group == 0xF && spec_y_reg(opcode) == 0x1 && subgroup == 0x8 {
        ((Chip8View { sound_timer: v.regs[x], ..v }), None)
    } else if group == 0xF && spec_y_reg(opcode) == 0x1 && subgroup == 0xE {
        let new_index = ((v.index_reg + v.regs[x]) % 0x10000) as u16;
        (
            (Chip8View {
                index_reg: new_index,
                regs: if v.set_flag_on_index_overflow && new_index > 0x1000 {
                    v.regs.update(FLAG_REG_ID as int, 1u8)
                } else {
                    v.regs
                },
                ..v
            }),
            None,
        )
    } else if group == 0xF && spec_y_reg(opcode) == 0x2 && subgroup == 0x9 {
        ((Chip8View { index_reg: (FONT_START_ADDRESS + (v.regs[x] & 0xF) * 5) as u16, ..v }), None)
    } else if group == 0xF && spec_y_reg(opcode) == 0x5 && subgroup == 0x5 {
        if v.index_reg as int + x + 1 > MEMORY_SIZE {
            (v, Some(Chip8Error::MemoryOutOfBounds))
        } else {
            (
                (Chip8View {
                    mem: mem_with_regs_dumped(v.mem, v.regs, v.index_reg as int, x),
                    index_reg: if v.modify_index_on_dump_or_load {
                        (v.index_reg + x + 1) as u16
                    } else {
                        v.index_reg
                    },
                    ..v
                }),
                None,
            )
        }
    } else if group == 0xF && spec_y_reg(opcode) == 0x6 && subgroup == 0x5 {
        if v.index_reg as int + x + 1 > MEMORY_SIZE {
            (v, Some(Chip8Error::MemoryOutOfBounds))
        } else {
            (
                (Chip8View {
                    regs: regs_loaded_from_mem(v.regs, v.mem, v.index_reg as int, x),
                    index_reg: if v.modify_index_on_dump_or_load {
                        (v.index_reg + x + 1) as u16
                    } else {
                        v.index_reg
                    },
                    ..v
                }),
                None,
            )
        }
    } else {
        (v, Some(Chip8Error::InstructionNotImplemented(opcode, at)))
    }
}

/// One fetch-decode-execute step: fetch the big-endian word at the program
/// counter, advance the counter by two, then apply the instruction. A
/// program counter that cannot address a full word fails without changing
/// the state.
#[verifier::opaque]
pub open spec fn spec_step(v: Chip8View) -> (Chip8View, Option<Chip8Error>) {
    if !can_fetch(v) {
        (v, Some(Chip8Error::MemoryOutOfBounds))
    } else {
        let opcode = spec_word(v.mem[v.pc as int], v.mem[v.pc as int + 1]);
        spec_exec_op((Chip8View { pc: (v.pc + 2) as u16, ..v }), opcode, v.pc)
    }
}

/// Executes instructions while at least one instruction's worth of time
/// debt remains, paying one instruction off per step; stops early with the
/// first error, leaving the remaining debt in place.
pub open spec fn spec_run_loop(v: Chip8View) -> (Chip8View, Option<Chip8Error>)
    decreases v.exec_time,
{
    if v.exec_time < INSTRUCTION_EXEC_NANOS {
        (v, None)
    } else {
        let stepped = spec_step(v);
        if stepped.1 is Some {
            stepped
        } else {
            spec_run_loop(
                (Chip8View {
                    exec_time: (v.exec_time - INSTRUCTION_EXEC_NANOS) as u64,
                    ..stepped.0
                }),
            )
        }
    }
}

/// One frame: a single timer step, then the elapsed nanoseconds are added
/// to the instruction-time debt and instructions run until the debt is
/// below one instruction. Fractional leftover debt carries into the next
/// frame.
pub open spec fn spec_run_frame(v: Chip8View, frame_nanos: u64) -> (Chip8View, Option<Chip8Error>) {
    let ticked = spec_tick_timers(v);
    spec_run_loop((Chip8View { exec_time: (ticked.exec_time + frame_nanos) as u64, ..ticked }))
}

/// The CHIP-8 machine.
pub struct Chip8 {
    registers: Vec<u8>,
    program_counter: u16,
    memory: Vec<u8>,
    /// Whether Y is loaded into X before a shift instruction.
    assign_before_shift: bool,
    /// Whether the flags register is set when the index register leaves the
    /// normal addressing range after an add-to-index.
    set_flag_on_index_overflow: bool,
    /// Whether the index register is advanced past the touched region by
    /// the register dump and load instructions.
    modify_index_on_dump_or_load: bool,
    stack: Stack,
    screen: Screen,
    keypad: Keypad,
    /// The I register, used to point at locations in memory.
    index_reg: u16,
    delay_timer: u8,
    sound_timer: u8,
    playing_sound: bool,
    /// Accumulated instruction-time debt in nanoseconds.
    exec_time: u64,
    reached_end_of_file: bool,
}

impl Chip8 {
    pub closed spec fn wf(&self) -> bool {
        &&& self.registers@.len() == NUM_REGISTERS
        &&& self.memory@.len() == MEMORY_SIZE
        &&& self.stack.wf()
        &&& self.screen.wf()
        &&& self.keypad.wf()
    }

    /// The mathematical state of the machine.
    pub closed spec fn state(&self) -> Chip8View {
        Chip8View {
            regs: self.registers@,
            pc: self.program_counter,
            mem: self.memory@,
            assign_before_shift: self.assign_before_shift,
            set_flag_on_index_overflow: self.set_flag_on_index_overflow,
            modify_index_on_dump_or_load: self.modify_index_on_dump_or_load,
            stack: self.stack@,
            pixels: self.screen@,
            keys: self.keypad@,
            index_reg: self.index_reg,
            delay_timer: self.delay_timer,
            sound_timer: self.sound_timer,
            playing_sound: self.playing_sound,
            exec_time: self.exec_time,
            reached_end_of_file: self.reached_end_of_file,
        }
    }

    /// A machine with the three quirk switches fixed, zeroed registers,
    /// memory, screen and keypad, and the program counter at the program
    /// start address.
    pub fn new(
        assign_before_shift: bool,
        set_flag_on_index_overflow: bool,
        modify_index_on_dump_or_load: bool,
    ) -> (chip8: Chip8)
        ensures
            chip8.wf(),
            chip8.state().pc == PROGRAM_START_ADDRESS,
            chip8.state().regs.len() == NUM_REGISTERS,
            forall|i: int| 0 <= i < NUM_REGISTERS ==> chip8.state().regs[i] == 0,
            chip8.state().mem.len() == MEMORY_SIZE,
            forall|i: int| 0 <= i < MEMORY_SIZE ==> chip8.state().mem[i] == 0,
            chip8.state().stack == Seq::<u16>::empty(),
            forall|i: int| 0 <= i < NUM_PIXELS ==> !chip8.state().pixels[i],
            forall|i: int| 0 <= i < NUM_KEYS ==> !chip8.state().keys[i],
            chip8.state().index_reg == 0,
            chip8.state().delay_timer == 0,
            chip8.state().sound_timer == 0,
            !chip8.state().playing_sound,
            chip8.state().exec_time == 0,
            !chip8.state().reached_end_of_file,
            chip8.state().assign_before_shift == assign_before_shift,
            chip8.state().set_flag_on_index_overflow == set_flag_on_index_overflow,
            chip8.state().modify_index_on_dump_or_load == modify_index_on_dump_or_load,
    {
        let mut registers: Vec<u8> = Vec::new();
        while registers.len() < NUM_REGISTERS
            invariant
                registers@.len() <= NUM_REGISTERS,
                forall|i: int| 0 <= i < registers@.len() ==> registers@[i] == 0,
            decreases NUM_REGISTERS - registers@.len(),
        {
            registers.push(0);
        }
        let mut memory: Vec<u8> = Vec::new();
        while memory.len() < MEMORY_SIZE
            invariant
                memory@.len() <= MEMORY_SIZE,
                forall|i: int| 0 <= i < memory@.len() ==> memory@[i] == 0,
            decreases MEMORY_SIZE - memory@.len(),
        {
            memory.push(0);
        }
        Chip8 {
            registers,
            program_counter: PROGRAM_START_ADDRESS,
            memory,
            assign_before_shift,
            set_flag_on_index_overflow,
            modify_index_on_dump_or_load,
            stack: Stack::new(),
            screen: Screen::new(),
            keypad: Keypad::new(),
            index_reg: 0x0,
            sound_timer: 0,
            delay_timer: 0,
            playing_sound: false,
            exec_time: 0,
            reached_end_of_file: false,
        }
    }

    /// Copies the bytes verbatim into memory starting at `address`.
    pub fn load_bytes_into_memory(&mut self, bytes: &Vec<u8>, address: u16)
        requires
            old(self).wf(),
            address as int + bytes@.len() <= MEMORY_SIZE,
        ensures
            final(self).wf(),
            final(self).state().mem.len() == MEMORY_SIZE,
            forall|j: int|
                0 <= j < bytes@.len() ==> final(self).state().mem[address as int + j] == bytes@[j],
            forall|k: int|
                0 <= k < MEMORY_SIZE && !(address as int <= k < address as int + bytes@.len())
                    ==> final(self).state().mem[k] == old(self).state().mem[k],
            final(self).state() == (Chip8View { mem: final(self).state().mem, ..old(self).state() }),
    {
        let ghost v0 = self.state();
        let mut idx: usize = 0;
        while idx < bytes.len()
            invariant
                self.wf(),
                idx <= bytes@.len(),
                address as int + bytes@.len() <= MEMORY_SIZE,
                self.state() == (Chip8View { mem: self.state().mem, ..v0 }),
                self.state().mem.len() == MEMORY_SIZE,
                forall|j: int|
                    0 <= j < idx ==> self.state().mem[address as int + j] == bytes@[j],
                forall|k: int|
                    0 <= k < MEMORY_SIZE && !(address as int <= k < address as int + idx)
                        ==> self.state().mem[k] == v0.mem[k],
            decreases bytes@.len() - idx,
        {
            self.memory.set((address as usize) + idx, bytes[idx]);
            idx = idx + 1;
        }
    }

    /// Writes the word big-endian at `address`, so that a fetch from
    /// `address` yields `opcode` back.
    pub fn load_opcode_into_memory(&mut self, opcode: u16, address: u16)
        requires
            old(self).wf(),
            address as int + 1 < MEMORY_SIZE,
        ensures
            final(self).wf(),
            final(self).state() == (Chip8View {
                mem: old(self).state().mem.update(
                    address as int,
                    ((opcode & 0xFF00) >> 8u16) as u8,
                ).update(address as int + 1, (opcode & 0x00FF) as u8),
                ..old(self).state()
            }),
            spec_word(
                final(self).state().mem[address as int],
                final(self).state().mem[address as int + 1],
            ) == opcode,
    {
        let byte_1 = ((opcode & 0xFF00) >> 8u16) as u8;
        let byte_2 = (opcode & 0x00FF) as u8;
        self.memory.set(address as usize, byte_1);
        self.memory.set((address + 1) as usize, byte_2);
        proof {
            lemma_word_bytes_roundtrip(opcode);
        }
    }

    /// Writes consecutive instruction words starting at `address`.
    pub fn load_opcodes_into_memory(&mut self, opcodes: &Vec<u16>, address: u16)
        requires
            old(self).wf(),
            address as int + 2 * opcodes@.len() <= MEMORY_SIZE,
        ensures
            final(self).wf(),
            final(self).state() == (Chip8View { mem: final(self).state().mem, ..old(self).state() }),
            final(self).state().mem.len() == MEMORY_SIZE,
            forall|j: int|
                0 <= j < opcodes@.len() ==> spec_word(
                    final(self).state().mem[address as int + 2 * j],
                    final(self).state().mem[address as int + 2 * j + 1],
                ) == opcodes@[j],
            forall|k: int|
                0 <= k < MEMORY_SIZE && !(address as int <= k < address as int + 2 * opcodes@.len())
                    ==> final(self).state().mem[k] == old(self).state().mem[k],
    {
        let ghost v0 = self.state();
        let mut i: usize = 0;
        while i < opcodes.len()
            invariant
                self.wf(),
                i <= opcodes@.len(),
                address as int + 2 * opcodes@.len() <= MEMORY_SIZE,
                self.state() == (Chip8View { mem: self.state().mem, ..v0 }),
                self.state().mem.len() == MEMORY_SIZE,
                forall|j: int|
                    0 <= j < i ==> spec_word(
                        self.state().mem[address as int + 2 * j],
                        self.state().mem[address as int + 2 * j + 1],
                    ) == opcodes@[j],
                forall|k: int|
                    0 <= k < MEMORY_SIZE && !(address as int <= k < address as int + 2 * i)
                        ==> self.state().mem[k] == v0.mem[k],
            decreases opcodes@.len() - i,
        {
            let word_address = address + 2 * (i as u16);
            self.load_opcode_into_memory(opcodes[i], word_address);
            i = i + 1;
        }
    }

    /// Copies the 16 five-byte font characters into the reserved font
    /// region starting at the font base address.
    pub fn load_font_into_memory(&mut self, font_data: &Vec<u8>)
        requires
            old(self).wf(),
            font_data@.len() == 80,
        ensures
            final(self).wf(),
            final(self).state().mem.len() == MEMORY_SIZE,
            forall|j: int|
                0 <= j < 80 ==> final(self).state().mem[FONT_START_ADDRESS as int + j]
                    == font_data@[j],
            forall|k: int|
                0 <= k < MEMORY_SIZE && !(FONT_START_ADDRESS as int <= k < FONT_START_ADDRESS as int
                    + 80) ==> final(self).state().mem[k] == old(self).state().mem[k],
            final(self).state() == (Chip8View { mem: final(self).state().mem, ..old(self).state() }),
    {
        self.load_bytes_into_memory(font_data, FONT_START_ADDRESS);
    }

    /// Sets one register directly.
    pub fn load_register(&mut self, reg_id: u8, value: u8)
        requires
            old(self).wf(),
            reg_id < NUM_REGISTERS,
        ensures
            final(self).wf(),
            final(self).state() == (Chip8View {
                regs: old(self).state().regs.update(reg_id as int, value),
                ..old(self).state()
            }),
    {
        self.registers.set(reg_id as usize, value);
    }

    /// Sets the index register directly.
    pub fn load_index_reg(&mut self, address: u16)
        requires
            old(self).wf(),
        ensures
            final(self).wf(),
            final(self).state() == (Chip8View { index_reg: address, ..old(self).state() }),
    {
        self.set_index_reg(address);
    }

    /// Sets the whole register file.
    pub fn load_registers(&mut self, values: &Vec<u8>)
        requires
            old(self).wf(),
            values@.len() == NUM_REGISTERS,
        ensures
            final(self).wf(),
            final(self).state() == (Chip8View { regs: values@, ..old(self).state() }),
    {
        let ghost v0 = self.state();
        let mut reg_id: usize = 0;
        while reg_id < NUM_REGISTERS
            invariant
                self.wf(),
                reg_id <= NUM_REGISTERS,
                values@.len() == NUM_REGISTERS,
                self.state() == (Chip8View { regs: self.state().regs, ..v0 }),
                self.state().regs.len() == NUM_REGISTERS,
                forall|j: int| 0 <= j < reg_id ==> self.state().regs[j] == values@[j],
                forall|j: int|
                    reg_id <= j < NUM_REGISTERS ==> self.state().regs[j] == v0.regs[j],
            decreases NUM_REGISTERS - reg_id,
        {
            self.registers.set(reg_id, values[reg_id]);
            reg_id = reg_id + 1;
        }
        proof {
            assert(self.state().regs =~= values@);
        }
    }

    /// Replaces the keypad snapshot for the coming frame.
    pub fn load_keypad(&mut self, keypad: Keypad)
        requires
            old(self).wf(),
            keypad.wf(),
        ensures
            final(self).wf(),
            final(self).state() == (Chip8View { keys: keypad@, ..old(self).state() }),
    {
        self.keypad = keypad;
    }

    /// Whether the sound collaborator should be playing a tone.
    pub fn playing_sound(&self) -> (playing: bool)
        ensures
            playing == self.state().playing_sound,
    {
        self.playing_sound
    }

    /// Whether the all-zero end-of-program word has been fetched.
    pub fn reached_end_of_file(&self) -> (reached: bool)
        ensures
            reached == self.state().reached_end_of_file,
    {
        self.reached_end_of_file
    }

    /// Clears the end-of-program flag, zeroes the registers and rewinds the
    /// program counter to the program start address.
    pub fn reset_state(&mut self)
        requires
            old(self).wf(),
        ensures
            final(self).wf(),
            final(self).state() == (Chip8View {
                reached_end_of_file: false,
                pc: PROGRAM_START_ADDRESS,
                regs: Seq::new(NUM_REGISTERS as nat, |i: int| 0u8),
                ..old(self).state()
            }),
    {
        self.reached_end_of_file = false;
        self.program_counter = PROGRAM_START_ADDRESS;
        let ghost v0 = self.state();
        let mut reg_id: usize = 0;
        while reg_id < NUM_REGISTERS
            invariant
                self.wf(),
                reg_id <= NUM_REGISTERS,
                self.state() == (Chip8View { regs: self.state().regs, ..v0 }),
                self.state().regs.len() == NUM_REGISTERS,
                forall|j: int| 0 <= j < reg_id ==> self.state().regs[j] == 0,
            decreases NUM_REGISTERS - reg_id,
        {
            self.registers.set(reg_id, 0);
            reg_id = reg_id + 1;
        }
        proof {
            assert(self.state().regs =~= Seq::new(NUM_REGISTERS as nat, |i: int| 0u8));
        }
    }

    /// Read-only snapshot of the 64 by 32 pixel grid in row-major order.
    pub fn get_frame_buffer(&self) -> (frame_buffer: &Vec<bool>)
        ensures
            frame_buffer@ == self.state().pixels,
    {
        self.screen.get_frame_buffer()
    }

    /// Reads one register.
    pub fn get_register(&self, reg_id: u8) -> (value: u8)
        requires
            self.wf(),
            reg_id < NUM_REGISTERS,
        ensures
            value == self.state().regs[reg_id as int],
    {
        self.registers[reg_id as usize]
    }

    /// Reads the index register.
    pub fn get_index_reg(&self) -> (address: u16)
        ensures
            address == self.state().index_reg,
    {
        self.index_reg
    }

    /// Reads the program counter.
    pub fn get_program_counter(&self) -> (address: u16)
        ensures
            address == self.state().pc,
    {
        self.program_counter
    }

    /// The instruction-time debt, in nanoseconds, carried over from past
    /// frames and not yet paid off with executed instructions.
    pub fn pending_exec_nanos(&self) -> (nanos: u64)
        ensures
            nanos == self.state().exec_time,
    {
        self.exec_time
    }

    /// Reads one memory byte.
    pub fn read_memory_byte(&self, address: u16) -> (byte: u8)
        requires
            self.wf(),
            address < MEMORY_SIZE,
        ensures
            byte == self.state().mem[address as int],
    {
        self.memory[address as usize]
    }

    /// 8-bit wraparound add of Y into X; the flags register records the
    /// carry (this one, unlike `add_const_to_x`, does set it).
    fn add_y_to_x(&mut self, x_reg_id: u8, y_reg_id: u8)
        requires
            old(self).wf(),
            x_reg_id < NUM_REGISTERS,
            y_reg_id < NUM_REGISTERS,
        ensures
            final(self).wf(),
            final(self).state() == (Chip8View {
                regs: regs_add_y_to_x(old(self).state().regs, x_reg_id as int, y_reg_id as int),
                ..old(self).state()
            }),
    {
        let arg_1 = self.registers[x_reg_id as usize];
        let arg_2 = self.registers[y_reg_id as usize];
        let sum = (arg_1 as u16) + (arg_2 as u16);
        let value = (sum % 256) as u8;
        let flag: u8 = if sum >= 256 {
            1
        } else {
            0
        };
        self.registers.set(x_reg_id as usize, value);
        self.registers.set(FLAG_REG_ID as usize, flag);
        proof {
            assert(value == wrap_add(arg_1, arg_2));
            assert(flag == add_carry(arg_1, arg_2));
        }
    }

    /// 8-bit wraparound add of a constant into X; the flags register is not
    /// touched.
    fn add_const_to_x(&mut self, x_reg_id: u8, const_val: u8)
        requires
            old(self).wf(),
            x_reg_id < NUM_REGISTERS,
        ensures
            final(self).wf(),
            final(self).state() == (Chip8View {
                regs: regs_add_const_to_x(old(self).state().regs, x_reg_id as int, const_val),
                ..old(self).state()
            }),
    {
        let arg_1 = self.registers[x_reg_id as usize];
        let sum = (arg_1 as u16) + (const_val as u16);
        let value = (sum % 256) as u8;
        self.registers.set(x_reg_id as usize, value);
        proof {
            assert(value == wrap_add(arg_1, const_val));
        }
    }

    /// X = X - Y with 8-bit wraparound; the flags register is set to 0 on a
    /// borrow and to 1 otherwise.
    fn subtract_y_from_x(&mut self, x_reg_id: u8, y_reg_id: u8)
        requires
            old(self).wf(),
            x_reg_id < NUM_REGISTERS,
            y_reg_id < NUM_REGISTERS,
        ensures
            final(self).wf(),
            final(self).state() == (Chip8View {
                regs: regs_subtract_y_from_x(
                    old(self).state().regs,
                    x_reg_id as int,
                    y_reg_id as int,
                ),
                ..old(self).state()
            }),
    {
        let arg_1 = self.registers[x_reg_id as usize];
        let arg_2 = self.registers[y_reg_id as usize];
        let value = ((((arg_1 as u16) + 256) - (arg_2 as u16)) % 256) as u8;
        let flag: u8 = if arg_1 < arg_2 {
            0
        } else {
            1
        };
        self.registers.set(x_reg_id as usize, value);
        self.registers.set(FLAG_REG_ID as usize, flag);
        proof {
            assert(value == wrap_sub(arg_1, arg_2));
            assert(flag == sub_no_borrow(arg_1, arg_2));
        }
    }

    /// X = Y - X with 8-bit wraparound: the result is written to X even
    /// though X is the subtrahend, with the same inverted borrow flag.
    fn subtract_x_from_y(&mut self, x_reg_id: u8, y_reg_id: u8)
        requires
            old(self).wf(),
            x_reg_id < NUM_REGISTERS,
            y_reg_id < NUM_REGISTERS,
        ensures
            final(self).wf(),
            final(self).state() == (Chip8View {
                regs: regs_subtract_x_from_y(
                    old(self).state().regs,
                    x_reg_id as int,
                    y_reg_id as int,
                ),
                ..old(self).state()
            }),
    {
        let arg_1 = self.registers[x_reg_id as usize];
        let arg_2 = self.registers[y_reg_id as usize];
        let value = ((((arg_2 as u16) + 256) - (arg_1 as u16)) % 256) as u8;
        let flag: u8 = if arg_2 < arg_1 {
            0
        } else {
            1
        };
        self.registers.set(x_reg_id as usize, value);
        self.registers.set(FLAG_REG_ID as usize, flag);
        proof {
            assert(value == wrap_sub(arg_2, arg_1));
            assert(flag == sub_no_borrow(arg_2, arg_1));
        }
    }

    fn assign_const_to_x(&mut self, x_reg_id: u8, const_val: u8)
        requires
            old(self).wf(),
            x_reg_id < NUM_REGISTERS,
        ensures
            final(self).wf(),
            final(self).state() == (Chip8View {
                regs: regs_assign_const_to_x(old(self).state().regs, x_reg_id as int, const_val),
                ..old(self).state()
            }),
    {
        self.registers.set(x_reg_id as usize, const_val);
    }

    fn assign_y_to_x(&mut self, x_reg_id: u8, y_reg_id: u8)
        requires
            old(self).wf(),
            x_reg_id < NUM_REGISTERS,
            y_reg_id < NUM_REGISTERS,
        ensures
            final(self).wf(),
            final(self).state() == (Chip8View {
                regs: regs_assign_y_to_x(old(self).state().regs, x_reg_id as int, y_reg_id as int),
                ..old(self).state()
            }),
    {
        let value = self.registers[y_reg_id as usize];
        self.registers.set(x_reg_id as usize, value);
    }

    fn bitwise_or_x_y(&mut self, x_reg_id: u8, y_reg_id: u8)
        requires
            old(self).wf(),
            x_reg_id < NUM_REGISTERS,
            y_reg_id < NUM_REGISTERS,
        ensures
            final(self).wf(),
            final(self).state() == (Chip8View {
                regs: regs_bitwise_or_x_y(old(self).state().regs, x_reg_id as int, y_reg_id as int),
                ..old(self).state()
            }),
    {
        let value = self.registers[x_reg_id as usize] | self.registers[y_reg_id as usize];
        self.registers.set(x_reg_id as usize, value);
    }

    fn bitwise_and_x_y(&mut self, x_reg_id: u8, y_reg_id: u8)
        requires
            old(self).wf(),
            x_reg_id < NUM_REGISTERS,
            y_reg_id < NUM_REGISTERS,
        ensures
            final(self).wf(),
            final(self).state() == (Chip8View {
                regs: regs_bitwise_and_x_y(
                    old(self).state().regs,
                    x_reg_id as int,
                    y_reg_id as int,
                ),
                ..old(self).state()
            }),
    {
        let value = self.registers[x_reg_id as usize] & self.registers[y_reg_id as usize];
        self.registers.set(x_reg_id as usize, value);
    }

    fn bitwise_xor_x_y(&mut self, x_reg_id: u8, y_reg_id: u8)
        requires
            old(self).wf(),
            x_reg_id < NUM_REGISTERS,
            y_reg_id < NUM_REGISTERS,
        ensures
            final(self).wf(),
            final(self).state() == (Chip8View {
                regs: regs_bitwise_xor_x_y(
                    old(self).state().regs,
                    x_reg_id as int,
                    y_reg_id as int,
                ),
                ..old(self).state()
            }),
    {
        let value = self.registers[x_reg_id as usize] ^ self.registers[y_reg_id as usize];
        self.registers.set(x_reg_id as usize, value);
    }

    /// Shifts X one position to the right. The flags register receives the
    /// pre-shift least significant bit; with the `assign_before_shift`
    /// quirk, Y is first copied into X.
    fn right_bit_shift(&mut self, x_reg_id: u8, y_reg_id: u8)
        requires
            old(self).wf(),
            x_reg_id < NUM_REGISTERS,
            y_reg_id < NUM_REGISTERS,
        ensures
            final(self).wf(),
            final(self).state() == (Chip8View {
                regs: regs_right_bit_shift(
                    old(self).state().regs,
                    x_reg_id as int,
                    y_reg_id as int,
                    old(self).state().assign_before_shift,
                ),
                ..old(self).state()
            }),
    {
        if self.assign_before_shift {
            self.assign_y_to_x(x_reg_id, y_reg_id);
        }
        let flag = self.registers[x_reg_id as usize] & 1;
        self.registers.set(FLAG_REG_ID as usize, flag);
        let value = self.registers[x_reg_id as usize] >> 1u8;
        self.registers.set(x_reg_id as usize, value);
    }

    /// Shifts X one position to the left. The flags register receives the
    /// pre-shift most significant bit; with the `assign_before_shift`
    /// quirk, Y is first copied into X.
    fn left_bit_shift(&mut self, x_reg_id: u8, y_reg_id: u8)
        requires
            old(self).wf(),
            x_reg_id < NUM_REGISTERS,
            y_reg_id < NUM_REGISTERS,
        ensures
            final(self).wf(),
            final(self).state() == (Chip8View {
                regs: regs_left_bit_shift(
                    old(self).state().regs,
                    x_reg_id as int,
                    y_reg_id as int,
                    old(self).state().assign_before_shift,
                ),
                ..old(self).state()
            }),
    {
        if self.assign_before_shift {
            self.assign_y_to_x(x_reg_id, y_reg_id);
        }
        let flag = (self.registers[x_reg_id as usize] & 0x80) >> 7u8;
        self.registers.set(FLAG_REG_ID as usize, flag);
        let value = self.registers[x_reg_id as usize] << 1u8;
        self.registers.set(x_reg_id as usize, value);
    }

    /// Advances the program counter by an extra instruction when X holds
    /// the constant.
    fn skip_if_x_equals_const(&mut self, x_reg_id: u8, const_val: u8)
        requires
            old(self).wf(),
            x_reg_id < NUM_REGISTERS,
            old(self).state().pc as int + 2 <= u16::MAX,
        ensures
            final(self).wf(),
            final(self).state() == (Chip8View {
                pc: if old(self).state().regs[x_reg_id as int] == const_val {
                    (old(self).state().pc + 2) as u16
                } else {
                    old(self).state().pc
                },
                ..old(self).state()
            }),
    {
        if self.registers[x_reg_id as usize] == const_val {
            self.program_counter = self.program_counter + 2;
        }
    }

    /// Advances the program counter by an extra instruction when X does not
    /// hold the constant.
    fn skip_if_x_not_equals_const(&mut self, x_reg_id: u8, const_val: u8)
        requires
            old(self).wf(),
            x_reg_id < NUM_REGISTERS,
            old(self).state().pc as int + 2 <= u16::MAX,
        ensures
            final(self).wf(),
            final(self).state() == (Chip8View {
                pc: if old(self).state().regs[x_reg_id as int] != const_val {
                    (old(self).state().pc + 2) as u16
                } else {
                    old(self).state().pc
                },
                ..old(self).state()
            }),
    {
        if self.registers[x_reg_id as usize] != const_val {
            self.program_counter = self.program_counter + 2;
        }
    }

    /// Advances the program counter by an extra instruction when X and Y
    /// hold the same value.
    fn skip_if_x_equals_y(&mut self, x_reg_id: u8, y_reg_id: u8)
        requires
            old(self).wf(),
            x_reg_id < NUM_REGISTERS,
            y_reg_id < NUM_REGISTERS,
            old(self).state().pc as int + 2 <= u16::MAX,
        ensures
            final(self).wf(),
            final(self).state() == (Chip8View {
                pc: if old(self).state().regs[x_reg_id as int] == old(self).state().regs[y_reg_id as int] {
                    (old(self).state().pc + 2) as u16
                } else {
                    old(self).state().pc
                },
                ..old(self).state()
            }),
    {
        if self.registers[x_reg_id as usize] == self.registers[y_reg_id as usize] {
            self.program_counter = self.program_counter + 2;
        }
    }

    /// Advances the program counter by an extra instruction when X and Y
    /// hold different values.
    fn skip_if_x_not_equals_y(&mut self, x_reg_id: u8, y_reg_id: u8)
        requires
            old(self).wf(),
            x_reg_id < NUM_REGISTERS,
            y_reg_id < NUM_REGISTERS,
            old(self).state().pc as int + 2 <= u16::MAX,
        ensures
            final(self).wf(),
            final(self).state() == (Chip8View {
                pc: if old(self).state().regs[x_reg_id as int] != old(self).state().regs[y_reg_id as int] {
                    (old(self).state().pc + 2) as u16
                } else {
                    old(self).state().pc
                },
                ..old(self).state()
            }),
    {
        if self.registers[x_reg_id as usize] != self.registers[y_reg_id as usize] {
            self.program_counter = self.program_counter + 2;
        }
    }

    /// Pushes the program counter and jumps to the target address.
    fn call_subroutine(&mut self, address: u16)
        requires
            old(self).wf(),
            old(self).state().stack.len() < STACK_CAPACITY,
        ensures
            final(self).wf(),
            final(self).state() == (Chip8View {
                stack: old(self).state().stack.push(old(self).state().pc),
                pc: address,
                ..old(self).state()
            }),
    {
        self.stack.push(self.program_counter);
        self.program_counter = address;
    }

    /// Pops the most recent return address into the program counter.
    fn return_from_subroutine(&mut self)
        requires
            old(self).wf(),
            old(self).state().stack.len() > 0,
        ensures
            final(self).wf(),
            final(self).state() == (Chip8View {
                pc: old(self).state().stack.last(),
                stack: old(self).state().stack.drop_last(),
                ..old(self).state()
            }),
    {
        let address: u16 = self.stack.pop();
        self.program_counter = address;
    }

    fn jump_to_address(&mut self, address: u16)
        requires
            old(self).wf(),
        ensures
            final(self).wf(),
            final(self).state() == (Chip8View { pc: address, ..old(self).state() }),
    {
        self.program_counter = address;
    }

    /// Jumps to the target address displaced by the value of register 0.
    fn jump_to_address_with_displacement(&mut self, address: u16)
        requires
            old(self).wf(),
            address < 0x1000,
        ensures
            final(self).wf(),
            final(self).state() == (Chip8View {
                pc: (address + old(self).state().regs[0]) as u16,
                ..old(self).state()
            }),
    {
        let target = address + (self.registers[0x0] as u16);
        self.jump_to_address(target);
    }

    fn set_index_reg(&mut self, address: u16)
        requires
            old(self).wf(),
        ensures
            final(self).wf(),
            final(self).state() == (Chip8View { index_reg: address, ..old(self).state() }),
    {
        self.index_reg = address;
    }

    /// Adds the (widened) 8-bit value of X into the 16-bit index register,
    /// wrapping around. With the `set_flag_on_index_overflow` quirk, the
    /// flags register is set to 1 when the new index lies strictly above
    /// 0x1000, the comparison the reference behaviour makes after the add.
    fn add_x_to_index(&mut self, x_reg_id: u8)
        requires
            old(self).wf(),
            x_reg_id < NUM_REGISTERS,
        ensures
            final(self).wf(),
            final(self).state() == ({
                let v = old(self).state();
                let new_index = ((v.index_reg + v.regs[x_reg_id as int]) % 0x10000) as u16;
                Chip8View {
                    index_reg: new_index,
                    regs: if v.set_flag_on_index_overflow && new_index > 0x1000 {
                        v.regs.update(FLAG_REG_ID as int, 1u8)
                    } else {
                        v.regs
                    },
                    ..v
                }
            }),
    {
        let sum: u32 = (self.index_reg as u32) + (self.registers[x_reg_id as usize] as u32);
        let new_index = (sum % 0x10000) as u16;
        self.index_reg = new_index;
        if self.set_flag_on_index_overflow && new_index > 0x1000 {
            self.registers.set(FLAG_REG_ID as usize, 1);
        }
    }

    /// Points the index register at the five-byte font sprite of the least
    /// significant nibble of X.
    fn set_index_to_char_font(&mut self, x_reg_id: u8)
        requires
            old(self).wf(),
            x_reg_id < NUM_REGISTERS,
        ensures
            final(self).wf(),
            final(self).state() == (Chip8View {
                index_reg: (FONT_START_ADDRESS + (old(self).state().regs[x_reg_id as int] & 0xF)
                    * 5) as u16,
                ..old(self).state()
            }),
    {
        let reg_val = self.registers[x_reg_id as usize];
        let character = reg_val & 0xF;
        proof {
            assert((reg_val & 0xF) <= 15) by (bit_vector);
        }
        self.index_reg = FONT_START_ADDRESS + (character as u16) * 5;
    }

    /// Writes registers 0 through X consecutively into memory starting at
    /// the index register; with the `modify_index_on_dump_or_load` quirk,
    /// the index register is advanced past the written region.
    fn dump_registers_to_memory(&mut self, x_reg_id: u8)
        requires
            old(self).wf(),
            x_reg_id < NUM_REGISTERS,
            old(self).state().index_reg as int + x_reg_id + 1 <= MEMORY_SIZE,
        ensures
            final(self).wf(),
            final(self).state() == ({
                let v = old(self).state();
                Chip8View {
                    mem: mem_with_regs_dumped(v.mem, v.regs, v.index_reg as int, x_reg_id as int),
                    index_reg: if v.modify_index_on_dump_or_load {
                        (v.index_reg + x_reg_id + 1) as u16
                    } else {
                        v.index_reg
                    },
                    ..v
                }
            }),
    {
        let ghost v0 = self.state();
        let mut address: u16 = self.index_reg;
        let mut idx: u8 = 0;
        while idx < x_reg_id + 1
            invariant
                self.wf(),
                idx <= x_reg_id + 1,
                x_reg_id < NUM_REGISTERS,
                v0.index_reg as int + x_reg_id + 1 <= MEMORY_SIZE,
                address == v0.index_reg + idx,
                self.state() == (Chip8View { mem: self.state().mem, ..v0 }),
                self.state().mem.len() == MEMORY_SIZE,
                forall|k: int|
                    0 <= k < MEMORY_SIZE && !(v0.index_reg as int <= k < v0.index_reg as int + idx)
                        ==> self.state().mem[k] == v0.mem[k],
                forall|k: int|
                    v0.index_reg as int <= k < v0.index_reg as int + idx ==> self.state().mem[k]
                        == v0.regs[k - v0.index_reg],
            decreases x_reg_id + 1 - idx,
        {
            let value = self.registers[idx as usize];
            self.memory.set(address as usize, value);
            address = address + 1;
            idx = idx + 1;
        }
        if self.modify_index_on_dump_or_load {
            self.index_reg = address;
        }
        proof {
            assert(self.state().mem =~= mem_with_regs_dumped(
                v0.mem,
                v0.regs,
                v0.index_reg as int,
                x_reg_id as int,
            ));
        }
    }

    /// Reads registers 0 through X consecutively from memory starting at
    /// the index register; with the `modify_index_on_dump_or_load` quirk,
    /// the index register is advanced past the read region.
    fn load_registers_from_memory(&mut self, x_reg_id: u8)
        requires
            old(self).wf(),
            x_reg_id < NUM_REGISTERS,
            old(self).state().index_reg as int + x_reg_id + 1 <= MEMORY_SIZE,
        ensures
            final(self).wf(),
            final(self).state() == ({
                let v = old(self).state();
                Chip8View {
                    regs: regs_loaded_from_mem(v.regs, v.mem, v.index_reg as int, x_reg_id as int),
                    index_reg: if v.modify_index_on_dump_or_load {
                        (v.index_reg + x_reg_id + 1) as u16
                    } else {
                        v.index_reg
                    },
                    ..v
                }
            }),
    {
        let ghost v0 = self.state();
        let mut address: u16 = self.index_reg;
        let mut idx: u8 = 0;
        while idx < x_reg_id + 1
            invariant
                self.wf(),
                idx <= x_reg_id + 1,
                x_reg_id < NUM_REGISTERS,
                v0.index_reg as int + x_reg_id + 1 <= MEMORY_SIZE,
                address == v0.index_reg + idx,
                self.state() == (Chip8View { regs: self.state().regs, ..v0 }),
                self.state().regs.len() == NUM_REGISTERS,
                forall|r: int|
                    0 <= r < NUM_REGISTERS && !(r < idx) ==> self.state().regs[r] == v0.regs[r],
                forall|r: int|
                    0 <= r < idx ==> self.state().regs[r] == v0.mem[v0.index_reg as int + r],
            decreases x_reg_id + 1 - idx,
        {
            let value = self.memory[address as usize];
            self.registers.set(idx as usize, value);
            address = address + 1;
            idx = idx + 1;
        }
        if self.modify_index_on_dump_or_load {
            self.index_reg = address;
        }
        proof {
            assert(self.state().regs =~= regs_loaded_from_mem(
                v0.regs,
                v0.mem,
                v0.index_reg as int,
                x_reg_id as int,
            ));
        }
    }

    /// Reads the sprite rows at the index register and XOR-composites them
    /// onto the screen at the position given by registers X and Y, setting
    /// the flags register to 1 when a lit pixel was turned off.
    fn display_sprite(&mut self, x_reg_id: u8, y_reg_id: u8, pixel_height: u8)
        requires
            old(self).wf(),
            x_reg_id < NUM_REGISTERS,
            y_reg_id < NUM_REGISTERS,
            pixel_height < 16,
            old(self).state().index_reg as int + pixel_height <= MEMORY_SIZE,
        ensures
            final(self).wf(),
            final(self).state() == ({
                let v = old(self).state();
                let sprite = v.mem.subrange(v.index_reg as int, v.index_reg as int + pixel_height);
                let x0 = v.regs[x_reg_id as int] as int % (WIDTH as int);
                let y0 = v.regs[y_reg_id as int] as int % (HEIGHT as int);
                Chip8View {
                    pixels: draw_spec(v.pixels, x0, y0, sprite),
                    regs: if draw_collision(v.pixels, x0, y0, sprite) {
                        v.regs.update(FLAG_REG_ID as int, 1u8)
                    } else {
                        v.regs
                    },
                    ..v
                }
            }),
    {
        let ghost v0 = self.state();
        let x_pos = self.registers[x_reg_id as usize];
        let y_pos = self.registers[y_reg_id as usize];
        let start = self.index_reg as usize;

        let mut sprite_data: Vec<u8> = Vec::new();
        let mut i: usize = 0;
        while i < pixel_height as usize
            invariant
                self.wf(),
                self.state() == v0,
                i <= pixel_height,
                start == v0.index_reg,
                start + pixel_height <= MEMORY_SIZE,
                sprite_data@.len() == i,
                forall|j: int| 0 <= j < i ==> sprite_data@[j] == v0.mem[start + j],
            decreases pixel_height - i,
        {
            sprite_data.push(self.memory[start + i]);
            i = i + 1;
        }
        proof {
            assert(sprite_data@ =~= v0.mem.subrange(
                v0.index_reg as int,
                v0.index_reg as int + pixel_height,
            ));
        }
        let collision = self.screen.display_sprite(x_pos, y_pos, &sprite_data);
        if collision {
            self.registers.set(FLAG_REG_ID as usize, 1);
        }
    }

    /// Turns every pixel off.
    fn clear_screen(&mut self)
        requires
            old(self).wf(),
        ensures
            final(self).wf(),
            final(self).state() == (Chip8View {
                pixels: Seq::new(NUM_PIXELS as nat, |i: int| false),
                ..old(self).state()
            }),
    {
        self.screen.clear();
        proof {
            assert(self.screen@ =~= Seq::new(NUM_PIXELS as nat, |i: int| false));
        }
    }

    fn set_x_to_delay_timer(&mut self, x_reg_id: u8)
        requires
            old(self).wf(),
            x_reg_id < NUM_REGISTERS,
        ensures
            final(self).wf(),
            final(self).state() == (Chip8View {
                regs: old(self).state().regs.update(
                    x_reg_id as int,
                    old(self).state().delay_timer,
                ),
                ..old(self).state()
            }),
    {
        let value = self.delay_timer;
        self.registers.set(x_reg_id as usize, value);
    }

    fn set_delay_timer_to_x(&mut self, x_reg_id: u8)
        requires
            old(self).wf(),
            x_reg_id < NUM_REGISTERS,
        ensures
            final(self).wf(),
            final(self).state() == (Chip8View {
                delay_timer: old(self).state().regs[x_reg_id as int],
                ..old(self).state()
            }),
    {
        self.delay_timer = self.registers[x_reg_id as usize];
    }

    fn set_sound_timer_to_x(&mut self, x_reg_id: u8)
        requires
            old(self).wf(),
            x_reg_id < NUM_REGISTERS,
        ensures
            final(self).wf(),
            final(self).state() == (Chip8View {
                sound_timer: old(self).state().regs[x_reg_id as int],
                ..old(self).state()
            }),
    {
        self.sound_timer = self.registers[x_reg_id as usize];
    }

    /// Advances the program counter by an extra instruction when the key
    /// named by X is pressed.
    fn skip_if_key_pressed(&mut self, x_reg_id: u8)
        requires
            old(self).wf(),
            x_reg_id < NUM_REGISTERS,
            old(self).state().regs[x_reg_id as int] < NUM_KEYS,
            old(self).state().pc as int + 2 <= u16::MAX,
        ensures
            final(self).wf(),
            final(self).state() == (Chip8View {
                pc: if old(self).state().keys[old(self).state().regs[x_reg_id as int] as int] {
                    (old(self).state().pc + 2) as u16
                } else {
                    old(self).state().pc
                },
                ..old(self).state()
            }),
    {
        let key_id: u8 = self.registers[x_reg_id as usize];
        if self.keypad.check_key_state(key_id) {
            self.program_counter = self.program_counter + 2;
        }
    }

    /// Advances the program counter by an extra instruction when the key
    /// named by X is not pressed.
    fn skip_if_key_not_pressed(&mut self, x_reg_id: u8)
        requires
            old(self).wf(),
            x_reg_id < NUM_REGISTERS,
            old(self).state().regs[x_reg_id as int] < NUM_KEYS,
            old(self).state().pc as int + 2 <= u16::MAX,
        ensures
            final(self).wf(),
            final(self).state() == (Chip8View {
                pc: if !old(self).state().keys[old(self).state().regs[x_reg_id as int] as int] {
                    (old(self).state().pc + 2) as u16
                } else {
                    old(self).state().pc
                },
                ..old(self).state()
            }),
    {
        let key_id: u8 = self.registers[x_reg_id as usize];
        if !self.keypad.check_key_state(key_id) {
            self.program_counter = self.program_counter + 2;
        }
    }

    /// Stores the lowest pressed key in X, or rewinds the program counter
    /// by one instruction so the same await is refetched next cycle: the
    /// cooperative suspension that stands in for a blocking wait.
    fn await_keypress(&mut self, x_reg_id: u8)
        requires
            old(self).wf(),
            x_reg_id < NUM_REGISTERS,
            old(self).state().pc >= 2,
        ensures
            final(self).wf(),
            final(self).state() == (match spec_first_pressed(old(self).state().keys, 0) {
                Some(key_id) => Chip8View {
                    regs: old(self).state().regs.update(x_reg_id as int, key_id),
                    ..old(self).state()
                },
                None => Chip8View {
                    pc: (old(self).state().pc - 2) as u16,
                    ..old(self).state()
                },
            }),
    {
        let keypress: Option<u8> = self.keypad.get_keypress();
        match keypress {
            Some(key_id) => {
                self.registers.set(x_reg_id as usize, key_id);
            },
            None => {
                self.program_counter = self.program_counter - 2;
            },
        }
    }
    /// The big-endian instruction word at the program counter.
    fn fetch_instruction(&self) -> (opcode: u16)
        requires
            self.wf(),
            can_fetch(self.state()),
        ensures
            opcode == spec_word(
                self.state().mem[self.state().pc as int],
                self.state().mem[self.state().pc as int + 1],
            ),
    {
        let byte_1 = self.memory[self.program_counter as usize];
        let byte_2 = self.memory[(self.program_counter + 1) as usize];
        ((byte_1 as u16) << 8u16) | (byte_2 as u16)
    }

    /// One fetch-decode-execute step against the machine's step
    /// specification: exactly the state change and, when one arises,
    /// exactly the error that [`spec_step`] gives for the prior state.
    pub fn exec_next_instruction(&mut self) -> (result: Result<(), Chip8Error>)
        requires
            old(self).wf(),
        ensures
            final(self).wf(),
            final(self).state() == spec_step(old(self).state()).0,
            (match spec_step(old(self).state()).1 {
                Option::None => result is Ok,
                Option::Some(error) => result == Result::<(), Chip8Error>::Err(error),
            }),
    {
        let ghost v0 = self.state();
        proof {
            reveal(spec_step);
            reveal(spec_exec_op);
        }
        if self.program_counter >= (MEMORY_SIZE as u16) - 1 {
            return Err(Chip8Error::MemoryOutOfBounds);
        }
        let at = self.program_counter;
        let opcode = self.fetch_instruction();
        self.program_counter = self.program_counter + 2;
        let ghost v1 = self.state();
        proof {
            lemma_decode_bounds(opcode);
            assert(v1 == (Chip8View { pc: (v0.pc + 2) as u16, ..v0 }));
        }

        let opcode_group: u8 = ((opcode & 0xF000) >> 12u16) as u8;
        let x_reg_id: u8 = ((opcode & 0x0F00) >> 8u16) as u8;
        let y_reg_id: u8 = ((opcode & 0x00F0) >> 4u16) as u8;
        let opcode_subgroup: u8 = (opcode & 0x000F) as u8;
        let address: u16 = opcode & 0x0FFF;
        let const_val: u8 = (opcode & 0x00FF) as u8;
        let nibble_const_val: u8 = (opcode & 0x000F) as u8;
        proof {
            assert(opcode_group == spec_op_group(opcode));
            assert(x_reg_id == spec_x_reg(opcode));
            assert(y_reg_id == spec_y_reg(opcode));
            assert(opcode_subgroup == spec_subgroup(opcode));
            assert(address == spec_address(opcode));
            assert(const_val == spec_const_val(opcode));
            assert(nibble_const_val == spec_subgroup(opcode));
        }

        let result: Result<(), Chip8Error> = if opcode == 0x0000 {
            self.reached_end_of_file = true;
            Ok(())
        } else if opcode_group == 0x0 && x_reg_id == 0x0 && y_reg_id == 0xE && opcode_subgroup
            == 0xE {
            if self.stack.len() == 0 {
                Err(Chip8Error::StackUnderflow)
            } else {
                self.return_from_subroutine();
                Ok(())
            }
        } else if opcode_group == 0x0 && x_reg_id == 0x0 && y_reg_id == 0xE && opcode_subgroup
            == 0x0 {
            self.clear_screen();
            Ok(())
        } else if opcode_group == 0x1 {
            self.jump_to_address(address);
            Ok(())
        } else if opcode_group == 0x2 {
            if self.stack.len() >= STACK_CAPACITY {
                Err(Chip8Error::StackOverflow)
            } else {
                self.call_subroutine(address);
                Ok(())
            }
        } else if opcode_group == 0x3 {
            self.skip_if_x_equals_const(x_reg_id, const_val);
            Ok(())
        } else if opcode_group == 0x4 {
            self.skip_if_x_not_equals_const(x_reg_id, const_val);
            Ok(())
        } else if opcode_group == 0x5 && opcode_subgroup == 0x0 {
            self.skip_if_x_equals_y(x_reg_id, y_reg_id);
            Ok(())
        } else if opcode_group == 0x6 {
            self.assign_const_to_x(x_reg_id, const_val);
            Ok(())
        } else if opcode_group == 0x7 {
            self.add_const_to_x(x_reg_id, const_val);
            Ok(())
        } else if opcode_group == 0x8 && opcode_subgroup == 0x0 {
            self.assign_y_to_x(x_reg_id, y_reg_id);
            Ok(())
        } else if opcode_group == 0x8 && opcode_subgroup == 0x1 {
            self.bitwise_or_x_y(x_reg_id, y_reg_id);
            Ok(())
        } else if opcode_group == 0x8 && opcode_subgroup == 0x2 {
            self.bitwise_and_x_y(x_reg_id, y_reg_id);
            Ok(())
        } else if opcode_group == 0x8 && opcode_subgroup == 0x3 {
            self.bitwise_xor_x_y(x_reg_id, y_reg_id);
            Ok(())
        } else if opcode_group == 0x8 && opcode_subgroup == 0x4 {
            self.add_y_to_x(x_reg_id, y_reg_id);
            Ok(())
        } else if opcode_group == 0x8 && opcode_subgroup == 0x5 {
            self.subtract_y_from_x(x_reg_id, y_reg_id);
            Ok(())
        } else if opcode_group == 0x8 && opcode_subgroup == 0x6 {
            self.right_bit_shift(x_reg_id, y_reg_id);
            Ok(())
        } else if opcode_group == 0x8 && opcode_subgroup == 0x7 {
            self.subtract_x_from_y(x_reg_id, y_reg_id);
            Ok(())
        } else if opcode_group == 0x8 && opcode_subgroup == 0xE {
            self.left_bit_shift(x_reg_id, y_reg_id);
            Ok(())
        } else if opcode_group == 0x9 && opcode_subgroup == 0x0 {
            self.skip_if_x_not_equals_y(x_reg_id, y_reg_id);
            Ok(())
        } else if opcode_group == 0xA {
            self.set_index_reg(address);
            Ok(())
        } else if opcode_group == 0xB {
            self.jump_to_address_with_displacement(address);
            Ok(())
        } else if opcode_group == 0xD {
            if (self.index_reg as usize) + (nibble_const_val as usize) > MEMORY_SIZE {
                Err(Chip8Error::MemoryOutOfBounds)
            } else {
                self.display_sprite(x_reg_id, y_reg_id, nibble_const_val);
                Ok(())
            }
        } else if opcode_group == 0xE && y_reg_id == 0x9 && opcode_subgroup == 0xE {
            let key_id = self.registers[x_reg_id as usize];
            if key_id >= (NUM_KEYS as u8) {
                Err(Chip8Error::KeyOutOfRange(key_id))
            } else {
                self.skip_if_key_pressed(x_reg_id);
                Ok(())
            }
        } else if opcode_group == 0xE && y_reg_id == 0xA && opcode_subgroup == 0x1 {
            let key_id = self.registers[x_reg_id as usize];
            if key_id >= (NUM_KEYS as u8) {
                Err(Chip8Error::KeyOutOfRange(key_id))
            } else {
                self.skip_if_key_not_pressed(x_reg_id);
                Ok(())
            }
        } else if opcode_group == 0xF && y_reg_id == 0x0 && opcode_subgroup == 0x7 {
            self.set_x_to_delay_timer(x_reg_id);
            Ok(())
        } else if opcode_group == 0xF && y_reg_id == 0x0 && opcode_subgroup == 0xA {
            self.await_keypress(x_reg_id);
            Ok(())
        } else if opcode_group == 0xF && y_reg_id == 0x1 && opcode_subgroup == 0x5 {
            self.set_delay_timer_to_x(x_reg_id);
            Ok(())
        } else if opcode_group == 0xF && y_reg_id == 0x1 && opcode_subgroup == 0x8 {
            self.set_sound_timer_to_x(x_reg_id);
            Ok(())
        } else if opcode_group == 0xF && y_reg_id == 0x1 && opcode_subgroup == 0xE {
            self.add_x_to_index(x_reg_id);
            Ok(())
        } else if opcode_group == 0xF && y_reg_id == 0x2 && opcode_subgroup == 0x9 {
            self.set_index_to_char_font(x_reg_id);
            Ok(())
        } else if opcode_group == 0xF && y_reg_id == 0x5 && opcode_subgroup == 0x5 {
            if (self.index_reg as usize) + (x_reg_id as usize) + 1 > MEMORY_SIZE {
                Err(Chip8Error::MemoryOutOfBounds)
            } else {
                self.dump_registers_to_memory(x_reg_id);
                Ok(())
            }
        } else if opcode_group == 0xF && y_reg_id == 0x6 && opcode_subgroup == 0x5 {
            if (self.index_reg as usize) + (x_reg_id as usize) + 1 > MEMORY_SIZE {
                Err(Chip8Error::MemoryOutOfBounds)
            } else {
                self.load_registers_from_memory(x_reg_id);
                Ok(())
            }
        } else {
            Err(Chip8Error::InstructionNotImplemented(opcode, at))
        };
        proof {
            assert(self.state() == spec_exec_op(v1, opcode, v0.pc).0);
            assert(match spec_exec_op(v1, opcode, v0.pc).1 {
                Option::None => result is Ok,
                Option::Some(error) => result == Result::<(), Chip8Error>::Err(error),
            });
        }
        result
    }

    /// One frame's timer step, run once per frame before any instruction.
    fn decrement_timers(&mut self)
        requires
            old(self).wf(),
        ensures
            final(self).wf(),
            final(self).state() == spec_tick_timers(old(self).state()),
    {
        if self.delay_timer >= 1 {
            self.delay_timer = self.delay_timer - 1;
        }
        if self.sound_timer <= 1 {
            self.playing_sound = false;
            self.sound_timer = 0;
        } else {
            self.playing_sound = true;
            self.sound_timer = self.sound_timer - 1;
        }
    }

    /// Advances the machine one frame: a single timer step, then the
    /// elapsed nanoseconds join the instruction-time debt and instructions
    /// run until the debt is below one instruction. The first error stops
    /// execution at once, leaving the timer step and the remaining debt in
    /// place, exactly as [`spec_run_frame`] states.
    pub fn run_frame(&mut self, frame_nanos: u64) -> (result: Result<(), Chip8Error>)
        requires
            old(self).wf(),
            old(self).state().exec_time + frame_nanos <= u64::MAX,
        ensures
            final(self).wf(),
            final(self).state() == spec_run_frame(old(self).state(), frame_nanos).0,
            (match spec_run_frame(old(self).state(), frame_nanos).1 {
                Option::None => result is Ok,
                Option::Some(error) => result == Result::<(), Chip8Error>::Err(error),
            }),
    {
        let ghost v0 = self.state();
        self.decrement_timers();
        self.exec_time = self.exec_time + frame_nanos;
        proof {
            assert(self.state() == (Chip8View {
                exec_time: (spec_tick_timers(v0).exec_time + frame_nanos) as u64,
                ..spec_tick_timers(v0)
            }));
            assert(spec_run_frame(v0, frame_nanos) == spec_run_loop(self.state()));
        }
        while self.exec_time >= INSTRUCTION_EXEC_NANOS
            invariant
                self.wf(),
                spec_run_loop(self.state()) == spec_run_frame(old(self).state(), frame_nanos),
            decreases self.exec_time,
        {
            let ghost prev = self.state();
            let step_result = self.exec_next_instruction();
            match step_result {
                Result::Err(error) => {
                    proof {
                        assert(spec_run_loop(prev) == (self.state(), Some(error)));
                    }
                    return Err(error);
                },
                Result::Ok(_) => {},
            }
            proof {
                lemma_step_preserves_exec_time(prev);
                assert(self.exec_time == prev.exec_time);
            }
            self.exec_time = self.exec_time - INSTRUCTION_EXEC_NANOS;
            proof {
                assert(self.state() == (Chip8View {
                    exec_time: (prev.exec_time - INSTRUCTION_EXEC_NANOS) as u64,
                    ..spec_step(prev).0
                }));
                assert(spec_run_loop(prev) == spec_run_loop(self.state()));
            }
        }
        proof {
            assert(spec_run_loop(self.state()) == (self.state(), Option::<Chip8Error>::None));
        }
        Ok(())
    }
}

/// A fetch-decode-execute step never touches the instruction-time debt:
/// only the frame loop pays it off.
pub proof fn lemma_step_preserves_exec_time(v: Chip8View)
    ensures
        spec_step(v).0.exec_time == v.exec_time,
{
    reveal(spec_step);
    reveal(spec_exec_op);
}

/// Whether the instruction word belongs to the skip family.
pub open spec fn spec_skip_opcode(opcode: u16) -> bool {
    ||| spec_op_group(opcode) == 0x3
    ||| spec_op_group(opcode) == 0x4
    ||| (spec_op_group(opcode) == 0x5 && spec_subgroup(opcode) == 0x0)
    ||| (spec_op_group(opcode) == 0x9 && spec_subgroup(opcode) == 0x0)
}

/// The predicate a skip-family instruction tests against the registers.
pub open spec fn spec_skip_predicate(v: Chip8View, opcode: u16) -> bool {
    let x = spec_x_reg(opcode) as int;
    let y = spec_y_reg(opcode) as int;
    if spec_op_group(opcode) == 0x3 {
        v.regs[x] == spec_const_val(opcode)
    } else if spec_op_group(opcode) == 0x4 {
        v.regs[x] != spec_const_val(opcode)
    } else if spec_op_group(opcode) == 0x5 {
        v.regs[x] == v.regs[y]
    } else {
        v.regs[x] != v.regs[y]
    }
}

/// A skip-family instruction advances the program counter by four in all
/// (two for the fetch and two for the skip) when its predicate holds, and
/// by two only otherwise; nothing else in the machine changes.
pub proof fn lemma_skip_advances_program_counter(v: Chip8View)
    requires
        can_fetch(v),
        spec_skip_opcode(spec_word(v.mem[v.pc as int], v.mem[v.pc as int + 1])),
    ensures
        ({
            let opcode = spec_word(v.mem[v.pc as int], v.mem[v.pc as int + 1]);
            let stepped = spec_step(v);
            stepped.1 is None && stepped.0 == (Chip8View {
                pc: if spec_skip_predicate(v, opcode) {
                    (v.pc + 4) as u16
                } else {
                    (v.pc + 2) as u16
                },
                ..v
            })
        }),
{
    reveal(spec_step);
    reveal(spec_exec_op);
    let opcode = spec_word(v.mem[v.pc as int], v.mem[v.pc as int + 1]);
    assert((0u16 & 0xF000) >> 12u16 == 0) by (bit_vector);
    assert(opcode != 0x0000);
}

/// A subroutine call pushes the address of the instruction after the call
/// and jumps to its 12-bit target; when the target holds a return
/// instruction, the following step pops that address back, so a call
/// followed by its return resumes exactly after the call with the stack as
/// it was. With the contracts of push and pop this nesting is LIFO at any
/// depth the 24-entry stack admits.
pub proof fn lemma_call_then_return(v: Chip8View)
    requires
        can_fetch(v),
        spec_op_group(spec_word(v.mem[v.pc as int], v.mem[v.pc as int + 1])) == 0x2,
        v.stack.len() < STACK_CAPACITY,
        ({
            let target = spec_address(spec_word(v.mem[v.pc as int], v.mem[v.pc as int + 1]));
            target as int + 1 < MEMORY_SIZE && spec_word(
                v.mem[target as int],
                v.mem[target as int + 1],
            ) == 0x00EE
        }),
    ensures
        ({
            let target = spec_address(spec_word(v.mem[v.pc as int], v.mem[v.pc as int + 1]));
            let first = spec_step(v);
            let second = spec_step(first.0);
            first.1 is None && first.0.pc == target && first.0.stack == v.stack.push(
                (v.pc + 2) as u16,
            ) && second.1 is None && second.0 == (Chip8View {
                pc: (v.pc + 2) as u16,
                ..v
            })
        }),
{
    reveal(spec_step);
    reveal(spec_exec_op);
    let opcode = spec_word(v.mem[v.pc as int], v.mem[v.pc as int + 1]);
    let target = spec_address(opcode);
    assert((0u16 & 0xF000) >> 12u16 == 0) by (bit_vector);
    assert(opcode != 0x0000);
    let first = spec_step(v);
    assert((0x00EEu16 & 0xF000) >> 12u16 == 0x0 && (0x00EEu16 & 0x0F00) >> 8u16 == 0x0 && (
    0x00EEu16 & 0x00F0) >> 4u16 == 0xE && (0x00EEu16 & 0x000F) == 0xE) by (bit_vector);
    let pushed = v.stack.push((v.pc + 2) as u16);
    assert(pushed.last() == (v.pc + 2) as u16);
    assert(pushed.drop_last() =~= v.stack);
    let second = spec_step(first.0);
    assert(second.0 == (Chip8View { pc: (v.pc + 2) as u16, ..v }));
}

/// With the call stack already holding its 24 return addresses, one more
/// subroutine call is a stack overflow and changes nothing but the fetch.
pub proof fn lemma_call_overflows_at_capacity(v: Chip8View)
    requires
        can_fetch(v),
        spec_op_group(spec_word(v.mem[v.pc as int], v.mem[v.pc as int + 1])) == 0x2,
        v.stack.len() == STACK_CAPACITY,
    ensures
        spec_step(v).1 == Some(Chip8Error::StackOverflow),
        spec_step(v).0 == (Chip8View { pc: (v.pc + 2) as u16, ..v }),
{
    reveal(spec_step);
    reveal(spec_exec_op);
    let opcode = spec_word(v.mem[v.pc as int], v.mem[v.pc as int + 1]);
    assert((0u16 & 0xF000) >> 12u16 == 0) by (bit_vector);
    assert(opcode != 0x0000);
}

/// A frame advance with a zero-length elapsed duration performs exactly
/// one timer step and executes no instruction, as long as the machine does
/// not already carry a full instruction of time debt.
pub proof fn lemma_zero_duration_frame(v: Chip8View)
    requires
        v.exec_time < INSTRUCTION_EXEC_NANOS,
    ensures
        spec_run_frame(v, 0) == (spec_tick_timers(v), Option::<Chip8Error>::None),
{
    let ticked = spec_tick_timers(v);
    assert((Chip8View { exec_time: (ticked.exec_time + 0) as u64, ..ticked }) == ticked);
}



} // verus!
