//! Instruction fields and immediates of the 32-bit RISC-V encodings.

use crate::bits::{
    sign_extend, sign_extend_12, sign_extend_13, sign_extend_21, sign_extend_32,
};
use vstd::prelude::*;

verus! {

/// Major opcode: the low seven bits.
pub open spec fn opcode(isn: u32) -> u32 {
    isn & 0x7f
}

/// Destination register number.
pub open spec fn rd(isn: u32) -> int {
    ((isn >> 7) & 0x1f) as int
}

/// First source register number.
pub open spec fn rs1(isn: u32) -> int {
    ((isn >> 15) & 0x1f) as int
}

/// Second source register number.
pub open spec fn rs2(isn: u32) -> int {
    ((isn >> 20) & 0x1f) as int
}

/// The three-bit function selector.
pub open spec fn funct3(isn: u32) -> u32 {
    (isn >> 12) & 0x7
}

/// The seven-bit function selector.
pub open spec fn funct7(isn: u32) -> u32 {
    (isn >> 25) & 0x7f
}

/// Immediate of the I format.
pub open spec fn imm_i(isn: u32) -> u64 {
    sign_extend((isn >> 20) as u64, 0x1000)
}

/// Immediate of the S format.
pub open spec fn imm_s(isn: u32) -> u64 {
    sign_extend((((isn >> 25) << 5) | ((isn >> 7) & 0x1f)) as u64, 0x1000)
}

/// Immediate of the B format: a multiple of two in 13 bits.
pub open spec fn imm_b(isn: u32) -> u64 {
    sign_extend(
        ((((isn >> 31) & 1) << 12) | (((isn >> 7) & 1) << 11) | (((isn >> 25) & 0x3f) << 5) | (((isn
            >> 8) & 0xf) << 1)) as u64,
        0x2000,
    )
}

/// Immediate of the U format: the upper twenty bits, as a signed 32-bit value.
pub open spec fn imm_u(isn: u32) -> u64 {
    sign_extend((isn & 0xffff_f000) as u64, 0x1_0000_0000)
}

/// Immediate of the J format: a multiple of two in 21 bits.
pub open spec fn imm_j(isn: u32) -> u64 {
    sign_extend(
        ((((isn >> 31) & 1) << 20) | (((isn >> 12) & 0xff) << 12) | (((isn >> 20) & 1) << 11) | (((
        isn >> 21) & 0x3ff) << 1)) as u64,
        0x20_0000,
    )
}

/// Shift amount of the 64-bit immediate shifts: six bits.
pub open spec fn shamt6(isn: u32) -> u32 {
    (isn >> 20) & 0x3f
}

/// Shift amount of the 32-bit immediate shifts: five bits.
pub open spec fn shamt5(isn: u32) -> u32 {
    (isn >> 20) & 0x1f
}

/// The field widths, as bounds on the values.
pub proof fn lemma_field_bounds(isn: u32)
    by (bit_vector)
    ensures
        isn & 0x7f < 128,
        (isn >> 7) & 0x1f < 32,
        (isn >> 15) & 0x1f < 32,
        (isn >> 20) & 0x1f < 32,
        (isn >> 12) & 0x7 < 8,
        (isn >> 25) & 0x7f < 128,
        (isn >> 20) & 0x3f < 64,
        (isn >> 26) & 0x3f < 64,
{
}

/// Extracts the major opcode.
pub fn get_opcode(isn: u32) -> (r: u32)
    ensures
        r == opcode(isn),
        r < 128,
{
    proof {
        lemma_field_bounds(isn);
    }
    isn & 0x7f
}

/// Extracts the destination register number.
pub fn get_rd(isn: u32) -> (r: usize)
    ensures
        r == rd(isn),
        r < 32,
{
    proof {
        lemma_field_bounds(isn);
    }
    ((isn >> 7) & 0x1f) as usize
}

/// Extracts the first source register number.
pub fn get_rs1(isn: u32) -> (r: usize)
    ensures
        r == rs1(isn),
        r < 32,
{
    proof {
        lemma_field_bounds(isn);
    }
    ((isn >> 15) & 0x1f) as usize
}

/// Extracts the second source register number.
pub fn get_rs2(isn: u32) -> (r: usize)
    ensures
        r == rs2(isn),
        r < 32,
{
    proof {
        lemma_field_bounds(isn);
    }
    ((isn >> 20) & 0x1f) as usize
}

/// Extracts the three-bit function selector.
pub fn get_funct3(isn: u32) -> (r: u32)
    ensures
        r == funct3(isn),
        r < 8,
{
    proof {
        lemma_field_bounds(isn);
    }
    (isn >> 12) & 0x7
}

/// Extracts the seven-bit function selector.
pub fn get_funct7(isn: u32) -> (r: u32)
    ensures
        r == funct7(isn),
        r < 128,
{
    proof {
        lemma_field_bounds(isn);
    }
    (isn >> 25) & 0x7f
}

/// Assembles and sign-extends the immediate of the I format.
pub fn get_imm_i(isn: u32) -> (r: u64)
    ensures
        r == imm_i(isn),
{
    sign_extend_12((isn >> 20) as u64)
}

/// Assembles and sign-extends the immediate of the S format.
pub fn get_imm_s(isn: u32) -> (r: u64)
    ensures
        r == imm_s(isn),
{
    sign_extend_12((((isn >> 25) << 5) | ((isn >> 7) & 0x1f)) as u64)
}

/// Assembles and sign-extends the immediate of the B format.
pub fn get_imm_b(isn: u32) -> (r: u64)
    ensures
        r == imm_b(isn),
{
    sign_extend_13(
        ((((isn >> 31) & 1) << 12) | (((isn >> 7) & 1) << 11) | (((isn >> 25) & 0x3f) << 5) | (((isn
            >> 8) & 0xf) << 1)) as u64,
    )
}

/// Assembles and sign-extends the immediate of the U format.
pub fn get_imm_u(isn: u32) -> (r: u64)
    ensures
        r == imm_u(isn),
{
    sign_extend_32((isn & 0xffff_f000) as u64)
}

/// Assembles and sign-extends the immediate of the J format.
pub fn get_imm_j(isn: u32) -> (r: u64)
    ensures
        r == imm_j(isn),
{
    sign_extend_21(
        ((((isn >> 31) & 1) << 20) | (((isn >> 12) & 0xff) << 12) | (((isn >> 20) & 1) << 11) | (((
        isn >> 21) & 0x3ff) << 1)) as u64,
    )
}

} // verus!
