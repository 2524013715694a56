use riscv_um::bits::{
    extract_u16_from_page, extract_u32_from_page, extract_u64_from_page, sign_extend_12,
    sign_extend_13, sign_extend_20, sign_extend_21, sign_extend_32, write_register_safe,
};

#[test]
fn sign_extend_12_keeps_small_values() {
    assert_eq!(sign_extend_12(0), 0);
    assert_eq!(sign_extend_12(1), 1);
    assert_eq!(sign_extend_12(0x7ff), 0x7ff);
}

#[test]
fn sign_extend_12_fills_upper_bits() {
    assert_eq!(sign_extend_12(0x800), 0xffff_ffff_ffff_f800);
    assert_eq!(sign_extend_12(0xfff), u64::MAX);
    assert_eq!(sign_extend_12(0xffc), (-4i64) as u64);
}

#[test]
fn sign_extend_12_reads_low_bits_only() {
    assert_eq!(sign_extend_12(0xabcd_e7ff), 0x7ff);
    assert_eq!(sign_extend_12(0xffff_ffff_ffff_f000), 0);
    assert_eq!(sign_extend_12(0x1800), 0xffff_ffff_ffff_f800);
}

#[test]
fn sign_extend_13_values() {
    assert_eq!(sign_extend_13(0xfff), 0xfff);
    assert_eq!(sign_extend_13(0x1000), 0xffff_ffff_ffff_f000);
    assert_eq!(sign_extend_13(0x1ffc), (-4i64) as u64);
    assert_eq!(sign_extend_13(0x2000), 0);
}

#[test]
fn sign_extend_20_values() {
    assert_eq!(sign_extend_20(0x7_ffff), 0x7_ffff);
    assert_eq!(sign_extend_20(0x8_0000), 0xffff_ffff_fff8_0000);
    assert_eq!(sign_extend_20(0xf_ffff), u64::MAX);
    assert_eq!(sign_extend_20(0x10_0000), 0);
}

#[test]
fn sign_extend_21_values() {
    assert_eq!(sign_extend_21(0xf_ffff), 0xf_ffff);
    assert_eq!(sign_extend_21(0x10_0000), 0xffff_ffff_fff0_0000);
    assert_eq!(sign_extend_21(0x1f_fffe), (-2i64) as u64);
}

#[test]
fn sign_extend_32_values() {
    assert_eq!(sign_extend_32(0x7fff_ffff), 0x7fff_ffff);
    assert_eq!(sign_extend_32(0x8000_0000), 0xffff_ffff_8000_0000);
    assert_eq!(sign_extend_32(0xffff_ffff), u64::MAX);
    assert_eq!(sign_extend_32(0x1_0000_0001), 1);
}

#[test]
fn sign_extension_matches_the_bit_rule_on_every_edge() {
    let widths: [(u32, fn(u64) -> u64); 5] = [
        (12, sign_extend_12),
        (13, sign_extend_13),
        (20, sign_extend_20),
        (21, sign_extend_21),
        (32, sign_extend_32),
    ];
    for (k, f) in widths {
        let top: u64 = 1 << (k - 1);
        for v in [0, 1, top - 1, top, top + 1, (1u64 << k) - 1] {
            let expected = if v & top == 0 { v } else { v | (!0u64 << k) };
            assert_eq!(f(v), expected, "width {} value {:#x}", k, v);
        }
    }
}

#[test]
fn register_zero_is_never_written() {
    let mut regs = [0u64; 32];
    write_register_safe(&mut regs, 0, 0xdead_beef);
    assert_eq!(regs, [0u64; 32]);
}

#[test]
fn other_registers_take_the_write() {
    let mut regs = [0u64; 32];
    write_register_safe(&mut regs, 1, 7);
    write_register_safe(&mut regs, 31, u64::MAX);
    assert_eq!(regs[1], 7);
    assert_eq!(regs[31], u64::MAX);
    for i in 2..31 {
        assert_eq!(regs[i], 0);
    }
}

#[test]
fn extraction_is_little_endian() {
    let mut page = [0u8; 4096];
    for i in 0..8 {
        page[100 + i] = (0x11 * (i as u8 + 1)) as u8;
    }
    assert_eq!(extract_u16_from_page(&page, 100), 0x2211);
    assert_eq!(extract_u32_from_page(&page, 100), 0x4433_2211);
    assert_eq!(extract_u64_from_page(&page, 100), 0x8877_6655_4433_2211);
    assert_eq!(extract_u16_from_page(&page, 101), 0x3322);
}

#[test]
fn extraction_reaches_the_end_of_the_page() {
    let mut page = [0u8; 4096];
    page[4094] = 0x34;
    page[4095] = 0x12;
    assert_eq!(extract_u16_from_page(&page, 4094), 0x1234);
    assert_eq!(extract_u32_from_page(&page, 4092), 0x1234_0000);
    assert_eq!(extract_u64_from_page(&page, 4088), 0x1234_0000_0000_0000);
}
