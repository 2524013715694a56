//! The values that the register-to-register and register-immediate
//! instructions compute.

use crate::bits::{sign_extend, sign_extend_32};
use crate::decode::{
    funct3, funct7, get_funct3, get_funct7, get_imm_i, imm_i, lemma_field_bounds, shamt5, shamt6,
};
use vstd::prelude::*;

verus! {

/// `x` reduced to 64 bits.
pub open spec fn wrap64(x: int) -> u64 {
    (x % 0x1_0000_0000_0000_0000) as u64
}

/// Reducing a sum once is the same as reducing its first term before.
pub proof fn lemma_wrap_add(x: int, y: int)
    ensures
        wrap64(wrap64(x) + y) == wrap64(x + y),
{
    vstd::arithmetic::div_mod::lemma_add_mod_noop_right(y, x, 0x1_0000_0000_0000_0000);
}

/// `a` read as a two's-complement number.
pub open spec fn signed64(a: u64) -> int {
    if a < 0x8000_0000_0000_0000 {
        a as int
    } else {
        a - 0x1_0000_0000_0000_0000
    }
}

/// 1 where the condition holds, else 0.
pub open spec fn flag(c: bool) -> u64 {
    if c {
        1
    } else {
        0
    }
}

/// `a` shifted right by `s` bits with its sign bit copied in from the left.
pub open spec fn sra64(a: u64, s: u64) -> u64 {
    ((a as i64) >> s) as u64
}

/// What OP-IMM writes to `rd` where `rs1` holds `a`; nothing for an encoding
/// that is reserved.
#[verifier::opaque]
pub open spec fn op_imm_value(isn: u32, a: u64) -> Option<u64> {
    let imm = imm_i(isn);
    let f3 = funct3(isn);
    let top6 = (isn >> 26) & 0x3f;
    let s = shamt6(isn) as u64;
    if f3 == 0 {
        Some(wrap64(a + imm))
    } else if f3 == 1 {
        if top6 == 0 {
            Some(a << s)
        } else {
            None
        }
    } else if f3 == 2 {
        Some(flag(signed64(a) < signed64(imm)))
    } else if f3 == 3 {
        Some(flag(a < imm))
    } else if f3 == 4 {
        Some(a ^ imm)
    } else if f3 == 5 {
        if top6 == 0 {
            Some(a >> s)
        } else if top6 == 0x10 {
            Some(sra64(a, s))
        } else {
            None
        }
    } else if f3 == 6 {
        Some(a | imm)
    } else {
        Some(a & imm)
    }
}

/// What OP writes to `rd` where `rs1` holds `a` and `rs2` holds `b`; nothing
/// for a combination of selectors that is not implemented.
#[verifier::opaque]
pub open spec fn op_value(isn: u32, a: u64, b: u64) -> Option<u64> {
    let f3 = funct3(isn);
    let f7 = funct7(isn);
    let s = b & 0x3f;
    if f7 == 0 {
        if f3 == 0 {
            Some(wrap64(a + b))
        } else if f3 == 1 {
            Some(a << s)
        } else if f3 == 2 {
            Some(flag(signed64(a) < signed64(b)))
        } else if f3 == 3 {
            Some(flag(a < b))
        } else if f3 == 4 {
            Some(a ^ b)
        } else if f3 == 5 {
            Some(a >> s)
        } else if f3 == 6 {
            Some(a | b)
        } else {
            Some(a & b)
        }
    } else if f7 == 0x20 {
        if f3 == 0 {
            Some(wrap64(a - b))
        } else if f3 == 5 {
            Some(sra64(a, s))
        } else {
            None
        }
    } else {
        None
    }
}

/// What OP-IMM-32 writes to `rd`: the operation on the low 32 bits,
/// sign-extended.
#[verifier::opaque]
pub open spec fn op_imm_32_value(isn: u32, a: u64) -> Option<u64> {
    let f3 = funct3(isn);
    let f7 = funct7(isn);
    let s = shamt5(isn) as u64;
    if f3 == 0 {
        Some(sign_extend(wrap64(a + imm_i(isn)), 0x1_0000_0000))
    } else if f3 == 1 {
        if f7 == 0 {
            Some(sign_extend(a << s, 0x1_0000_0000))
        } else {
            None
        }
    } else if f3 == 5 {
        if f7 == 0 {
            Some(sign_extend((a & 0xffff_ffff) >> s, 0x1_0000_0000))
        } else if f7 == 0x20 {
            Some(sra64(sign_extend(a, 0x1_0000_0000), s))
        } else {
            None
        }
    } else {
        None
    }
}

/// What OP-32 writes to `rd`: the operation on the low 32 bits,
/// sign-extended.
#[verifier::opaque]
pub open spec fn op_32_value(isn: u32, a: u64, b: u64) -> Option<u64> {
    let f3 = funct3(isn);
    let f7 = funct7(isn);
    let s = b & 0x1f;
    if f7 == 0 {
        if f3 == 0 {
            Some(sign_extend(wrap64(a + b), 0x1_0000_0000))
        } else if f3 == 1 {
            Some(sign_extend(a << s, 0x1_0000_0000))
        } else if f3 == 5 {
            Some(sign_extend((a & 0xffff_ffff) >> s, 0x1_0000_0000))
        } else {
            None
        }
    } else if f7 == 0x20 {
        if f3 == 0 {
            Some(sign_extend(wrap64(a - b), 0x1_0000_0000))
        } else if f3 == 5 {
            Some(sra64(sign_extend(a, 0x1_0000_0000), s))
        } else {
            None
        }
    } else {
        None
    }
}

/// Whether BRANCH with selector `f3` is taken on `a`, `b`; nothing for the
/// two selectors that name no comparison.
pub open spec fn branch_taken(f3: u32, a: u64, b: u64) -> Option<bool> {
    if f3 == 0 {
        Some(a == b)
    } else if f3 == 1 {
        Some(a != b)
    } else if f3 == 4 {
        Some(signed64(a) < signed64(b))
    } else if f3 == 5 {
        Some(signed64(a) >= signed64(b))
    } else if f3 == 6 {
        Some(a < b)
    } else if f3 == 7 {
        Some(a >= b)
    } else {
        None
    }
}

/// A masked shift amount is below the width.
proof fn lemma_shift_bounds(b: u64)
    by (bit_vector)
    ensures
        b & 0x3f < 64,
        b & 0x1f < 32,
{
}

/// Compares two words as two's-complement numbers.
pub fn signed_less(a: u64, b: u64) -> (r: bool)
    ensures
        r == (signed64(a) < signed64(b)),
{
    let a_neg: bool = a >= 0x8000_0000_0000_0000;
    let b_neg: bool = b >= 0x8000_0000_0000_0000;
    if a_neg == b_neg {
        a < b
    } else {
        a_neg
    }
}

/// 1 for true, 0 for false.
fn bit(c: bool) -> (r: u64)
    ensures
        r == flag(c),
{
    if c {
        1
    } else {
        0
    }
}

/// Shifts right, copying the sign bit in.
fn shift_right_arithmetic(a: u64, s: u64) -> (r: u64)
    requires
        s < 64,
    ensures
        r == sra64(a, s),
{
    ((a as i64) >> s) as u64
}

/// Computes the value of an OP-IMM instruction.
pub fn op_imm(isn: u32, a: u64) -> (r: Option<u64>)
    ensures
        r == op_imm_value(isn, a),
{
    proof {
        reveal(op_imm_value);
        lemma_field_bounds(isn);
    }
    let imm: u64 = get_imm_i(isn);
    let top6: u32 = (isn >> 26) & 0x3f;
    let s: u64 = ((isn >> 20) & 0x3f) as u64;
    match get_funct3(isn) {
        0 => Some(a.wrapping_add(imm)),
        1 => if top6 == 0 {
            Some(a << s)
        } else {
            None
        },
        2 => Some(bit(signed_less(a, imm))),
        3 => Some(bit(a < imm)),
        4 => Some(a ^ imm),
        5 => if top6 == 0 {
            Some(a >> s)
        } else if top6 == 0x10 {
            Some(shift_right_arithmetic(a, s))
        } else {
            None
        },
        6 => Some(a | imm),
        _ => Some(a & imm),
    }
}

/// Computes the value of an OP instruction.
pub fn op(isn: u32, a: u64, b: u64) -> (r: Option<u64>)
    ensures
        r == op_value(isn, a, b),
{
    proof {
        reveal(op_value);
        lemma_shift_bounds(b);
    }
    let f3: u32 = get_funct3(isn);
    let f7: u32 = get_funct7(isn);
    let s: u64 = b & 0x3f;
    if f7 == 0 {
        match f3 {
            0 => Some(a.wrapping_add(b)),
            1 => Some(a << s),
            2 => Some(bit(signed_less(a, b))),
            3 => Some(bit(a < b)),
            4 => Some(a ^ b),
            5 => Some(a >> s),
            6 => Some(a | b),
            _ => Some(a & b),
        }
    } else if f7 == 0x20 {
        match f3 {
            0 => Some(a.wrapping_sub(b)),
            5 => Some(shift_right_arithmetic(a, s)),
            _ => None,
        }
    } else {
        None
    }
}

/// Computes the value of an OP-IMM-32 instruction.
pub fn op_imm_32(isn: u32, a: u64) -> (r: Option<u64>)
    ensures
        r == op_imm_32_value(isn, a),
{
    proof {
        reveal(op_imm_32_value);
        lemma_field_bounds(isn);
    }
    let f7: u32 = get_funct7(isn);
    let s: u64 = ((isn >> 20) & 0x1f) as u64;
    match get_funct3(isn) {
        0 => Some(sign_extend_32(a.wrapping_add(get_imm_i(isn)))),
        1 => if f7 == 0 {
            Some(sign_extend_32(a << s))
        } else {
            None
        },
        5 => if f7 == 0 {
            Some(sign_extend_32((a & 0xffff_ffff) >> s))
        } else if f7 == 0x20 {
            Some(shift_right_arithmetic(sign_extend_32(a), s))
        } else {
            None
        },
        _ => None,
    }
}

/// Computes the value of an OP-32 instruction.
pub fn op_32(isn: u32, a: u64, b: u64) -> (r: Option<u64>)
    ensures
        r == op_32_value(isn, a, b),
{
    proof {
        reveal(op_32_value);
        lemma_shift_bounds(b);
    }
    let f3: u32 = get_funct3(isn);
    let f7: u32 = get_funct7(isn);
    let s: u64 = b & 0x1f;
    if f7 == 0 {
        match f3 {
            0 => Some(sign_extend_32(a.wrapping_add(b))),
            1 => Some(sign_extend_32(a << s)),
            5 => Some(sign_extend_32((a & 0xffff_ffff) >> s)),
            _ => None,
        }
    } else if f7 == 0x20 {
        match f3 {
            0 => Some(sign_extend_32(a.wrapping_sub(b))),
            5 => Some(shift_right_arithmetic(sign_extend_32(a), s)),
            _ => None,
        }
    } else {
        None
    }
}

/// Decides a BRANCH comparison.
pub fn branch(f3: u32, a: u64, b: u64) -> (r: Option<bool>)
    ensures
        r == branch_taken(f3, a, b),
{
    match f3 {
        0 => Some(a == b),
        1 => Some(a != b),
        4 => Some(signed_less(a, b)),
        5 => Some(!signed_less(a, b)),
        6 => Some(a < b),
        7 => Some(a >= b),
        _ => None,
    }
}

} // verus!
