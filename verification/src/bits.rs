//! Bit-level helpers: sign extension, the guarded register write, and
//! little-endian extraction from a page.

use vstd::prelude::*;

verus! {

/// The low bits of `v` below `modulus` (a power of two), read as a
/// two's-complement number of that width and widened to 64 bits.
pub open spec fn sign_extend(v: u64, modulus: int) -> u64 {
    let low: int = v as int % modulus;
    if 2 * low < modulus {
        low as u64
    } else {
        (low + 0x1_0000_0000_0000_0000 - modulus) as u64
    }
}

/// Sign extension of 12 bits, in bit operations.
proof fn lemma_sign_extend_12_bits(v: u64)
    by (bit_vector)
    ensures
        sign_extend(v, 0x1000) == if (v >> 11) & 1 != 0 {
            (v & 0xfff) | 0xffff_ffff_ffff_f000
        } else {
            v & 0xfff
        },
        v < 0x1000 ==> sign_extend(v, 0x1000) == if (v >> 11) & 1 == 0 {
            v
        } else {
            v | (!0u64 << 12)
        },
{
}

/// Sign extension of 13 bits, in bit operations.
proof fn lemma_sign_extend_13_bits(v: u64)
    by (bit_vector)
    ensures
        sign_extend(v, 0x2000) == if (v >> 12) & 1 != 0 {
            (v & 0x1fff) | 0xffff_ffff_ffff_e000
        } else {
            v & 0x1fff
        },
        v < 0x2000 ==> sign_extend(v, 0x2000) == if (v >> 12) & 1 == 0 {
            v
        } else {
            v | (!0u64 << 13)
        },
{
}

/// Sign extension of 20 bits, in bit operations.
proof fn lemma_sign_extend_20_bits(v: u64)
    by (bit_vector)
    ensures
        sign_extend(v, 0x10_0000) == if (v >> 19) & 1 != 0 {
            (v & 0xf_ffff) | 0xffff_ffff_fff0_0000
        } else {
            v & 0xf_ffff
        },
        v < 0x10_0000 ==> sign_extend(v, 0x10_0000) == if (v >> 19) & 1 == 0 {
            v
        } else {
            v | (!0u64 << 20)
        },
{
}

/// Sign extension of 21 bits, in bit operations.
proof fn lemma_sign_extend_21_bits(v: u64)
    by (bit_vector)
    ensures
        sign_extend(v, 0x20_0000) == if (v >> 20) & 1 != 0 {
            (v & 0x1f_ffff) | 0xffff_ffff_ffe0_0000
        } else {
            v & 0x1f_ffff
        },
        v < 0x20_0000 ==> sign_extend(v, 0x20_0000) == if (v >> 20) & 1 == 0 {
            v
        } else {
            v | (!0u64 << 21)
        },
{
}

/// Sign extension of 32 bits, in bit operations.
proof fn lemma_sign_extend_32_bits(v: u64)
    by (bit_vector)
    ensures
        sign_extend(v, 0x1_0000_0000) == if (v >> 31) & 1 != 0 {
            (v & 0xffff_ffff) | 0xffff_ffff_0000_0000
        } else {
            v & 0xffff_ffff
        },
        v < 0x1_0000_0000 ==> sign_extend(v, 0x1_0000_0000) == if (v >> 31) & 1 == 0 {
            v
        } else {
            v | (!0u64 << 32)
        },
{
}

/// Sign-extends the low 12 bits of `val` to 64 bits.
pub fn sign_extend_12(val: u64) -> (r: u64)
    ensures
        r == sign_extend(val, 0x1000),
{
    proof {
        lemma_sign_extend_12_bits(val);
    }
    if (val >> 11) & 1 != 0 {
        (val & 0xfff) | 0xffff_ffff_ffff_f000
    } else {
        val & 0xfff
    }
}

/// Sign-extends the low 13 bits of `val` to 64 bits.
pub fn sign_extend_13(val: u64) -> (r: u64)
    ensures
        r == sign_extend(val, 0x2000),
{
    proof {
        lemma_sign_extend_13_bits(val);
    }
    if (val >> 12) & 1 != 0 {
        (val & 0x1fff) | 0xffff_ffff_ffff_e000
    } else {
        val & 0x1fff
    }
}

/// Sign-extends the low 20 bits of `val` to 64 bits.
pub fn sign_extend_20(val: u64) -> (r: u64)
    ensures
        r == sign_extend(val, 0x10_0000),
{
    proof {
        lemma_sign_extend_20_bits(val);
    }
    if (val >> 19) & 1 != 0 {
        (val & 0xf_ffff) | 0xffff_ffff_fff0_0000
    } else {
        val & 0xf_ffff
    }
}

/// Sign-extends the low 21 bits of `val` to 64 bits.
pub fn sign_extend_21(val: u64) -> (r: u64)
    ensures
        r == sign_extend(val, 0x20_0000),
{
    proof {
        lemma_sign_extend_21_bits(val);
    }
    if (val >> 20) & 1 != 0 {
        (val & 0x1f_ffff) | 0xffff_ffff_ffe0_0000
    } else {
        val & 0x1f_ffff
    }
}

/// Sign-extends the low 32 bits of `val` to 64 bits.
pub fn sign_extend_32(val: u64) -> (r: u64)
    ensures
        r == sign_extend(val, 0x1_0000_0000),
{
    proof {
        lemma_sign_extend_32_bits(val);
    }
    if (val >> 31) & 1 != 0 {
        (val & 0xffff_ffff) | 0xffff_ffff_0000_0000
    } else {
        val & 0xffff_ffff
    }
}

/// A 12-bit value is kept when its top bit is clear, and otherwise gets every
/// bit from 12 upwards set.
pub proof fn sign_extend_12_of_narrow(v: u64)
    requires
        v < 0x1000,
    ensures
        sign_extend(v, 0x1000) == if (v >> 11) & 1 == 0 {
            v
        } else {
            v | (!0u64 << 12)
        },
{
    lemma_sign_extend_12_bits(v);
}

/// A 13-bit value is kept when its top bit is clear, and otherwise gets every
/// bit from 13 upwards set.
pub proof fn sign_extend_13_of_narrow(v: u64)
    requires
        v < 0x2000,
    ensures
        sign_extend(v, 0x2000) == if (v >> 12) & 1 == 0 {
            v
        } else {
            v | (!0u64 << 13)
        },
{
    lemma_sign_extend_13_bits(v);
}

/// A 20-bit value is kept when its top bit is clear, and otherwise gets every
/// bit from 20 upwards set.
pub proof fn sign_extend_20_of_narrow(v: u64)
    requires
        v < 0x10_0000,
    ensures
        sign_extend(v, 0x10_0000) == if (v >> 19) & 1 == 0 {
            v
        } else {
            v | (!0u64 << 20)
        },
{
    lemma_sign_extend_20_bits(v);
}

/// A 21-bit value is kept when its top bit is clear, and otherwise gets every
/// bit from 21 upwards set.
pub proof fn sign_extend_21_of_narrow(v: u64)
    requires
        v < 0x20_0000,
    ensures
        sign_extend(v, 0x20_0000) == if (v >> 20) & 1 == 0 {
            v
        } else {
            v | (!0u64 << 21)
        },
{
    lemma_sign_extend_21_bits(v);
}

/// A 32-bit value is kept when its top bit is clear, and otherwise gets every
/// bit from 32 upwards set.
pub proof fn sign_extend_32_of_narrow(v: u64)
    requires
        v < 0x1_0000_0000,
    ensures
        sign_extend(v, 0x1_0000_0000) == if (v >> 31) & 1 == 0 {
            v
        } else {
            v | (!0u64 << 32)
        },
{
    lemma_sign_extend_32_bits(v);
}

/// Writes `val` to register `reg_num`, except that register 0 is never
/// written.
pub fn write_register_safe(reg: &mut [u64; 32], reg_num: usize, val: u64)
    requires
        reg_num < 32,
    ensures
        final(reg)@ == if reg_num == 0 {
            old(reg)@
        } else {
            old(reg)@.update(reg_num as int, val)
        },
{
    if reg_num != 0 {
        reg[reg_num] = val;
    }
}

/// The 16-bit number whose little-endian bytes are `b0`, `b1`.
pub open spec fn le16(b0: u8, b1: u8) -> u16 {
    (b0 + 0x100 * b1) as u16
}

/// The 32-bit number whose little-endian bytes are `b0` to `b3`.
pub open spec fn le32(b0: u8, b1: u8, b2: u8, b3: u8) -> u32 {
    (b0 + 0x100 * b1 + 0x1_0000 * b2 + 0x100_0000 * b3) as u32
}

/// The 64-bit number whose little-endian bytes are `b0` to `b7`.
pub open spec fn le64(b0: u8, b1: u8, b2: u8, b3: u8, b4: u8, b5: u8, b6: u8, b7: u8) -> u64 {
    (b0 + 0x100 * b1 + 0x1_0000 * b2 + 0x100_0000 * b3 + 0x1_0000_0000 * b4 + 0x100_0000_0000
        * b5 + 0x1_0000_0000_0000 * b6 + 0x100_0000_0000_0000 * b7) as u64
}

/// Byte `i` of `v`, counting from the least significant.
pub open spec fn byte_of(v: u64, i: nat) -> u8 {
    ((v >> (8 * i) as u64) & 0xff) as u8
}

/// Two bytes joined with a shift.
pub(crate) proof fn lemma_join_16(b0: u8, b1: u8)
    by (bit_vector)
    ensures
        (b0 as u16) | ((b1 as u16) << 8) == le16(b0, b1),
{
}

/// Two half-words joined with a shift.
pub(crate) proof fn lemma_join_32(lo: u16, hi: u16)
    by (bit_vector)
    ensures
        (lo as u32) | ((hi as u32) << 16) == lo + 0x1_0000 * hi,
{
}

/// Two words joined with a shift.
pub(crate) proof fn lemma_join_64(lo: u32, hi: u32)
    by (bit_vector)
    ensures
        (lo as u64) | ((hi as u64) << 32) == lo + 0x1_0000_0000 * hi,
{
}

/// Reads the little-endian 16-bit value at `start` in a page.
pub fn extract_u16_from_page(array: &[u8; 4096], start: usize) -> (r: u16)
    requires
        start + 2 <= 4096,
    ensures
        r == le16(array@[start as int], array@[start + 1]),
{
    let b0: u8 = array[start];
    let b1: u8 = array[start + 1];
    proof {
        lemma_join_16(b0, b1);
    }
    (b0 as u16) | ((b1 as u16) << 8)
}

/// Reads the little-endian 32-bit value at `start` in a page.
pub fn extract_u32_from_page(array: &[u8; 4096], start: usize) -> (r: u32)
    requires
        start + 4 <= 4096,
    ensures
        r == le32(array@[start as int], array@[start + 1], array@[start + 2], array@[start + 3]),
{
    let lo: u16 = extract_u16_from_page(array, start);
    let hi: u16 = extract_u16_from_page(array, start + 2);
    proof {
        lemma_join_32(lo, hi);
    }
    (lo as u32) | ((hi as u32) << 16)
}

/// Reads the little-endian 64-bit value at `start` in a page.
pub fn extract_u64_from_page(array: &[u8; 4096], start: usize) -> (r: u64)
    requires
        start + 8 <= 4096,
    ensures
        r == le64(
            array@[start as int],
            array@[start + 1],
            array@[start + 2],
            array@[start + 3],
            array@[start + 4],
            array@[start + 5],
            array@[start + 6],
            array@[start + 7],
        ),
{
    let lo: u32 = extract_u32_from_page(array, start);
    let hi: u32 = extract_u32_from_page(array, start + 4);
    proof {
        lemma_join_64(lo, hi);
    }
    (lo as u64) | ((hi as u64) << 32)
}

} // verus!
