//! Decoding of 16-bit instruction words into their bit fields.
//!
//! A word splits into an opcode group (bits 15-12), the X register id
//! (bits 11-8), the Y register id (bits 7-4) and an opcode subgroup
//! (bits 3-0); a 12-bit address, an 8-bit constant and a 4-bit nibble are
//! derived from the low bits.

use vstd::prelude::*;

verus! {

/// Opcode group: the most significant nibble.
pub open spec fn spec_op_group(opcode: u16) -> u8 {
    ((opcode & 0xF000) >> 12) as u8
}

/// X register id: bits 11-8.
pub open spec fn spec_x_reg(opcode: u16) -> u8 {
    ((opcode & 0x0F00) >> 8) as u8
}

/// Y register id: bits 7-4.
pub open spec fn spec_y_reg(opcode: u16) -> u8 {
    ((opcode & 0x00F0) >> 4) as u8
}

/// Opcode subgroup: the least significant nibble.
pub open spec fn spec_subgroup(opcode: u16) -> u8 {
    (opcode & 0x000F) as u8
}

/// The 12-bit address field.
pub open spec fn spec_address(opcode: u16) -> u16 {
    opcode & 0x0FFF
}

/// The 8-bit constant field.
pub open spec fn spec_const_val(opcode: u16) -> u8 {
    (opcode & 0x00FF) as u8
}

/// A big-endian 16-bit word from two consecutive memory bytes.
pub open spec fn spec_word(hi: u8, lo: u8) -> u16 {
    ((hi as u16) << 8u16) | (lo as u16)
}

/// Ranges of the decoded fields: each register id and nibble is below 16
/// and the address field is below 0x1000.
pub proof fn lemma_decode_bounds(opcode: u16)
    ensures
        spec_op_group(opcode) < 16,
        spec_x_reg(opcode) < 16,
        spec_y_reg(opcode) < 16,
        spec_subgroup(opcode) < 16,
        spec_address(opcode) < 0x1000,
{
    assert(((opcode & 0xF000) >> 12) < 16 && ((opcode & 0x0F00) >> 8) < 16 && ((opcode & 0x00F0)
        >> 4) < 16 && (opcode & 0x000F) < 16 && (opcode & 0x0FFF) < 0x1000) by (bit_vector);
}

/// Splitting a word into its big-endian bytes and reassembling them yields
/// the word back.
pub proof fn lemma_word_bytes_roundtrip(opcode: u16)
    ensures
        spec_word(((opcode & 0xFF00) >> 8) as u8, (opcode & 0x00FF) as u8) == opcode,
{
    assert(((((opcode & 0xFF00) >> 8) as u8 as u16) << 8u16) | ((opcode & 0x00FF) as u8 as u16)
        == opcode) by (bit_vector);
}

} // verus!
