//! Register-file semantics of the arithmetic, logic and shift instructions.
//!
//! Each spec function maps the sixteen-register file to its state after one
//! instruction. Register `0xF` doubles as the flags register: the carry,
//! borrow and shift-bit outputs land in it after the result is written, so
//! an instruction that names it as destination sees its result overwritten.

use vstd::prelude::*;

verus! {

/// Index of the flags register, overloaded as carry/borrow/shift/collision
/// output by several instructions.
pub const FLAG_REG_ID: u8 = 0xF;

/// Number of general-purpose registers.
pub const NUM_REGISTERS: usize = 16;

/// 8-bit wraparound sum.
pub open spec fn wrap_add(a: u8, b: u8) -> u8 {
    ((a + b) % 256) as u8
}

/// Carry flag of the 8-bit sum: 1 exactly when the sum does not fit.
pub open spec fn add_carry(a: u8, b: u8) -> u8 {
    if a + b >= 256 {
        1u8
    } else {
        0u8
    }
}

/// 8-bit wraparound difference `a - b`.
pub open spec fn wrap_sub(a: u8, b: u8) -> u8 {
    (((a - b) + 256) % 256) as u8
}

/// Inverted borrow flag of `a - b`: 0 exactly when a borrow occurred.
pub open spec fn sub_no_borrow(a: u8, b: u8) -> u8 {
    if a < b {
        0u8
    } else {
        1u8
    }
}

/// Registers after add-Y-into-X: X receives the wrapped sum, then the flags
/// register receives the carry.
pub open spec fn regs_add_y_to_x(regs: Seq<u8>, x: int, y: int) -> Seq<u8> {
    regs.update(x, wrap_add(regs[x], regs[y])).update(
        FLAG_REG_ID as int,
        add_carry(regs[x], regs[y]),
    )
}

/// Registers after add-constant-into-X: no flag is touched.
pub open spec fn regs_add_const_to_x(regs: Seq<u8>, x: int, const_val: u8) -> Seq<u8> {
    regs.update(x, wrap_add(regs[x], const_val))
}

/// Registers after X-minus-Y: X receives the wrapped difference, then the
/// flags register receives the inverted borrow.
pub open spec fn regs_subtract_y_from_x(regs: Seq<u8>, x: int, y: int) -> Seq<u8> {
    regs.update(x, wrap_sub(regs[x], regs[y])).update(
        FLAG_REG_ID as int,
        sub_no_borrow(regs[x], regs[y]),
    )
}

/// Registers after Y-minus-X: the result is still written to X, with the
/// same inverted borrow convention.
pub open spec fn regs_subtract_x_from_y(regs: Seq<u8>, x: int, y: int) -> Seq<u8> {
    regs.update(x, wrap_sub(regs[y], regs[x])).update(
        FLAG_REG_ID as int,
        sub_no_borrow(regs[y], regs[x]),
    )
}

/// Registers after assigning a constant to X.
pub open spec fn regs_assign_const_to_x(regs: Seq<u8>, x: int, const_val: u8) -> Seq<u8> {
    regs.update(x, const_val)
}

/// Registers after assigning Y to X.
pub open spec fn regs_assign_y_to_x(regs: Seq<u8>, x: int, y: int) -> Seq<u8> {
    regs.update(x, regs[y])
}

/// Registers after X |= Y.
pub open spec fn regs_bitwise_or_x_y(regs: Seq<u8>, x: int, y: int) -> Seq<u8> {
    regs.update(x, regs[x] | regs[y])
}

/// Registers after X &= Y.
pub open spec fn regs_bitwise_and_x_y(regs: Seq<u8>, x: int, y: int) -> Seq<u8> {
    regs.update(x, regs[x] & regs[y])
}

/// Registers after X ^= Y.
pub open spec fn regs_bitwise_xor_x_y(regs: Seq<u8>, x: int, y: int) -> Seq<u8> {
    regs.update(x, regs[x] ^ regs[y])
}

/// Registers after shift-right: with the `assign_before_shift` quirk Y is
/// first copied into X; the flags register then receives the pre-shift least
/// significant bit of X, and X is shifted right by one.
pub open spec fn regs_right_bit_shift(
    regs: Seq<u8>,
    x: int,
    y: int,
    assign_before_shift: bool,
) -> Seq<u8> {
    let r1 = if assign_before_shift {
        regs.update(x, regs[y])
    } else {
        regs
    };
    let r2 = r1.update(FLAG_REG_ID as int, r1[x] & 1);
    r2.update(x, r2[x] >> 1u8)
}

/// Registers after shift-left: with the `assign_before_shift` quirk Y is
/// first copied into X; the flags register then receives the pre-shift most
/// significant bit of X, and X is shifted left by one.
pub open spec fn regs_left_bit_shift(
    regs: Seq<u8>,
    x: int,
    y: int,
    assign_before_shift: bool,
) -> Seq<u8> {
    let r1 = if assign_before_shift {
        regs.update(x, regs[y])
    } else {
        regs
    };
    let r2 = r1.update(FLAG_REG_ID as int, (r1[x] & 0x80) >> 7u8);
    r2.update(x, r2[x] << 1u8)
}

/// Add-Y-into-X leaves `(a + b) mod 256` in X and sets the flags register
/// to 1 exactly when `a + b` reached 256, for every pair of 8-bit values.
pub proof fn lemma_add_y_to_x_law(regs: Seq<u8>, x: int, y: int)
    requires
        regs.len() == NUM_REGISTERS,
        0 <= x < NUM_REGISTERS,
        0 <= y < NUM_REGISTERS,
        x != FLAG_REG_ID as int,
    ensures
        regs_add_y_to_x(regs, x, y)[x] == (regs[x] + regs[y]) % 256,
        regs_add_y_to_x(regs, x, y)[FLAG_REG_ID as int] == 1 <==> regs[x] + regs[y] >= 256,
        regs_add_y_to_x(regs, x, y)[FLAG_REG_ID as int] == 0 <==> regs[x] + regs[y] < 256,
{
}

/// Subtract-Y-from-X leaves `(a - b) mod 256` in X and sets the flags
/// register to 0 exactly when a borrow occurred (`a < b`), else to 1.
pub proof fn lemma_subtract_y_from_x_law(regs: Seq<u8>, x: int, y: int)
    requires
        regs.len() == NUM_REGISTERS,
        0 <= x < NUM_REGISTERS,
        0 <= y < NUM_REGISTERS,
        x != FLAG_REG_ID as int,
    ensures
        regs_subtract_y_from_x(regs, x, y)[x] == (regs[x] - regs[y] + 256) % 256,
        regs_subtract_y_from_x(regs, x, y)[FLAG_REG_ID as int] == 0 <==> regs[x] < regs[y],
        regs_subtract_y_from_x(regs, x, y)[FLAG_REG_ID as int] == 1 <==> regs[x] >= regs[y],
{
}

/// Shift-right sets the flags register to the pre-shift least significant
/// bit and halves the shifted value.
pub proof fn lemma_right_bit_shift_law(regs: Seq<u8>, x: int, y: int, assign_before_shift: bool)
    requires
        regs.len() == NUM_REGISTERS,
        0 <= x < NUM_REGISTERS,
        0 <= y < NUM_REGISTERS,
        x != FLAG_REG_ID as int,
    ensures
        ({
            let v = if assign_before_shift {
                regs[y]
            } else {
                regs[x]
            };
            regs_right_bit_shift(regs, x, y, assign_before_shift)[x] == v / 2
                && regs_right_bit_shift(regs, x, y, assign_before_shift)[FLAG_REG_ID as int] == v % 2
        }),
{
    let v = if assign_before_shift {
        regs[y]
    } else {
        regs[x]
    };
    assert(v >> 1u8 == v / 2 && (v & 1) == v % 2) by (bit_vector);
}

/// Shift-left sets the flags register to the pre-shift most significant bit
/// and doubles the shifted value modulo 256.
pub proof fn lemma_left_bit_shift_law(regs: Seq<u8>, x: int, y: int, assign_before_shift: bool)
    requires
        regs.len() == NUM_REGISTERS,
        0 <= x < NUM_REGISTERS,
        0 <= y < NUM_REGISTERS,
        x != FLAG_REG_ID as int,
    ensures
        ({
            let v = if assign_before_shift {
                regs[y]
            } else {
                regs[x]
            };
            regs_left_bit_shift(regs, x, y, assign_before_shift)[x] == (v * 2) % 256
                && regs_left_bit_shift(regs, x, y, assign_before_shift)[FLAG_REG_ID as int] == v
                / 128
        }),
{
    let v = if assign_before_shift {
        regs[y]
    } else {
        regs[x]
    };
    assert(v << 1u8 == (v * 2) % 256 && ((v & 0x80) >> 7u8) == v / 128) by (bit_vector);
}

} // verus!
