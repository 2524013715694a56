use riscv_um::cpu::Event;
use riscv_um::image::{ElfClass, ElfData, ElfHeader, SectionHeader};
use riscv_um::loader::{
    check_header, find_start, has_magic, is_start, load, load_section, load_sections,
    setup_stack, LoadError, Section, Symbol,
};
use riscv_um::mm::{MemoryMap, ADDRESS_SPACE, STACK_BOTTOM};

const SHT_PROGBITS: u32 = 1;
const SHT_SYMTAB: u32 = 2;
const SHT_STRTAB: u32 = 3;
const SHT_NOBITS: u32 = 8;
const SHF_COMPRESSED: u64 = 0x800;

fn header(sh_type: u32, sh_addr: u64, sh_size: u64) -> SectionHeader {
    SectionHeader {
        sh_name: 0,
        sh_type,
        sh_flags: 0,
        sh_addr,
        sh_offset: 0,
        sh_size,
        sh_link: 0,
        sh_info: 0,
        sh_addralign: 1,
        sh_entsize: 0,
    }
}

fn section(sh_type: u32, sh_addr: u64, data: &[u8]) -> Section {
    Section { header: header(sh_type, sh_addr, data.len() as u64), data: data.to_vec(), compressed: false }
}

fn symbol(name: &str, value: u64) -> Symbol {
    Symbol { name: name.as_bytes().to_vec(), value }
}

/// What a file is made of: sections with their bytes, and symbols.
struct Layout {
    sections: Vec<(u32, u64, u64, Vec<u8>)>,
    symbols: Option<Vec<(String, u64)>>,
}

fn put16(out: &mut Vec<u8>, v: u16) {
    out.extend_from_slice(&v.to_le_bytes());
}

fn put32(out: &mut Vec<u8>, v: u32) {
    out.extend_from_slice(&v.to_le_bytes());
}

fn put64(out: &mut Vec<u8>, v: u64) {
    out.extend_from_slice(&v.to_le_bytes());
}

/// Writes a little-endian ELF file of the 64-bit class for RISC-V.
fn build(layout: &Layout) -> Vec<u8> {
    // (type, flags, addr, size, bytes in the file, link, entsize)
    let mut table: Vec<(u32, u64, u64, u64, Vec<u8>, u32, u64)> = Vec::new();
    table.push((0, 0, 0, 0, Vec::new(), 0, 0));
    for (kind, flags, addr, data) in &layout.sections {
        let in_file = if *kind == SHT_NOBITS { Vec::new() } else { data.clone() };
        table.push((*kind, *flags, *addr, data.len() as u64, in_file, 0, 0));
    }
    if let Some(symbols) = &layout.symbols {
        let mut strings: Vec<u8> = vec![0];
        let mut entries: Vec<u8> = vec![0; 24];
        for (name, value) in symbols {
            put32(&mut entries, strings.len() as u32);
            entries.push(0x12);
            entries.push(0);
            put16(&mut entries, 1);
            put64(&mut entries, *value);
            put64(&mut entries, 0);
            strings.extend_from_slice(name.as_bytes());
            strings.push(0);
        }
        let link = table.len() as u32 + 1;
        table.push((SHT_SYMTAB, 0, 0, entries.len() as u64, entries, link, 24));
        table.push((SHT_STRTAB, 0, 0, strings.len() as u64, strings, 0, 0));
    }
    let mut offset = 64u64;
    let mut offsets = Vec::new();
    for entry in &table {
        offsets.push(offset);
        offset += entry.4.len() as u64;
    }
    let mut out: Vec<u8> = vec![0x7f, b'E', b'L', b'F', 2, 1, 1, 0, 0, 0, 0, 0, 0, 0, 0, 0];
    put16(&mut out, 2);
    put16(&mut out, 243);
    put32(&mut out, 1);
    put64(&mut out, 0);
    put64(&mut out, 0);
    put64(&mut out, offset);
    put32(&mut out, 0);
    put16(&mut out, 64);
    put16(&mut out, 56);
    put16(&mut out, 0);
    put16(&mut out, 64);
    put16(&mut out, table.len() as u16);
    put16(&mut out, 0);
    assert_eq!(out.len(), 64);
    for entry in &table {
        out.extend_from_slice(&entry.4);
    }
    for (entry, at) in table.iter().zip(offsets) {
        put32(&mut out, 0);
        put32(&mut out, entry.0);
        put64(&mut out, entry.1);
        put64(&mut out, entry.2);
        put64(&mut out, at);
        put64(&mut out, entry.3);
        put32(&mut out, entry.5);
        put32(&mut out, 0);
        put64(&mut out, 1);
        put64(&mut out, entry.6);
    }
    out
}

fn words(ws: &[u32]) -> Vec<u8> {
    ws.iter().flat_map(|w| w.to_le_bytes()).collect()
}

fn hello() -> Layout {
    let text = words(&[
        0x0400_0893, // li a7, 64
        0x0010_0513, // li a0, 1
        0x0001_15b7, // lui a1, 0x11
        0x0035_8593, // addi a1, a1, 3
        0x0030_0613, // li a2, 3
        0x0000_0073, // ecall
        0x05d0_0893, // li a7, 93
        0x0000_0513, // li a0, 0
        0x0000_0073, // ecall
    ]);
    Layout {
        sections: vec![
            (SHT_PROGBITS, 0, 0x10000, text),
            (SHT_PROGBITS, 0, 0x11003, b"Hi\n".to_vec()),
            (SHT_NOBITS, 0, 0x12ff0, vec![0; 0x20]),
        ],
        symbols: Some(vec![
            ("main".to_string(), 0x10010),
            ("_start".to_string(), 0x10000),
            ("_start".to_string(), 0x10020),
        ]),
    }
}

fn error_of(bytes: &[u8]) -> LoadError {
    let mut mem = MemoryMap::new();
    match load(bytes, &mut mem) {
        Ok(_) => panic!("the file was loaded"),
        Err(e) => e,
    }
}

#[test]
fn a_file_is_loaded_and_runs() {
    let bytes = build(&hello());
    let mut mem = MemoryMap::new();
    let mut cpu = load(&bytes, &mut mem).expect("the file loads");
    assert_eq!(cpu.pc(), 0x10000);
    assert_eq!(cpu.reg(2), ADDRESS_SPACE);
    for i in 0..32 {
        if i != 2 {
            assert_eq!(cpu.reg(i), 0);
        }
    }
    assert_eq!(mem.readword(0x10000), Some(0x0400_0893));
    assert_eq!(mem.readword(0x10020), Some(0x0000_0073));
    assert_eq!(mem.readword(0x10024), Some(0));
    assert_eq!(mem.read_bytes(0x11003, 3), Some(b"Hi\n".to_vec()));
    assert_eq!(mem.readbyte(0x11002), Some(0));
    assert_eq!(
        cpu.run(&mut mem, 100),
        Ok(Event::Write { fd: 1, data: b"Hi\n".to_vec() })
    );
    cpu.finish_write(3);
    assert_eq!(cpu.run(&mut mem, 100), Ok(Event::Exit { status: 0 }));
}

#[test]
fn loading_backs_the_sections_and_the_stack_and_nothing_else() {
    let bytes = build(&hello());
    let mut mem = MemoryMap::new();
    load(&bytes, &mut mem).expect("the file loads");
    assert_eq!(mem.readbyte(0xffff), None);
    assert_eq!(mem.readbyte(0x10fff), Some(0));
    assert_eq!(mem.readbyte(0x11fff), Some(0));
    // the section without bytes in the file is backed too, and holds zeros
    assert_eq!(mem.readdword(0x12ff0), Some(0));
    assert_eq!(mem.readdword(0x13008), Some(0));
    assert_eq!(mem.readbyte(0x14000), None);
    // the symbol and string tables are not loaded
    assert_eq!(mem.readbyte(0), None);
    assert_eq!(mem.readbyte(STACK_BOTTOM - 1), None);
    assert_eq!(mem.readbyte(STACK_BOTTOM), Some(0));
    assert_eq!(mem.readbyte(ADDRESS_SPACE - 1), Some(0));
}

#[test]
fn the_first_symbol_named_start_is_the_entry() {
    let mut layout = hello();
    layout.symbols = Some(vec![
        ("_start_".to_string(), 0x10004),
        ("start".to_string(), 0x10008),
        ("_star".to_string(), 0x1000c),
        ("_start".to_string(), 0x10018),
        ("_start".to_string(), 0x10000),
    ]);
    let mut mem = MemoryMap::new();
    let cpu = load(&build(&layout), &mut mem).expect("the file loads");
    assert_eq!(cpu.pc(), 0x10018);
}

#[test]
fn a_file_that_is_no_elf_file() {
    assert_eq!(error_of(b""), LoadError::NotElf);
    assert_eq!(error_of(b"\x7fEL"), LoadError::NotElf);
    assert_eq!(error_of(b"#!/bin/sh\n"), LoadError::NotElf);
    let mut bytes = build(&hello());
    bytes[0] = 0x7e;
    assert_eq!(error_of(&bytes), LoadError::NotElf);
    let mut bytes = build(&hello());
    bytes[3] = b'G';
    assert_eq!(error_of(&bytes), LoadError::NotElf);
}

#[test]
fn a_file_cut_short() {
    let bytes = build(&hello());
    assert_eq!(error_of(&bytes[..4]), LoadError::Parse);
    assert_eq!(error_of(&bytes[..63]), LoadError::Parse);
    assert_eq!(error_of(&bytes[..bytes.len() - 1]), LoadError::Parse);
}

#[test]
fn a_file_of_the_32_bit_class() {
    // a header of the 32-bit class has 52 bytes
    let mut bytes: Vec<u8> = vec![0x7f, b'E', b'L', b'F', 1, 1, 1, 0, 0, 0, 0, 0, 0, 0, 0, 0];
    put16(&mut bytes, 2);
    put16(&mut bytes, 243);
    put32(&mut bytes, 1);
    bytes.resize(52, 0);
    assert_eq!(error_of(&bytes), LoadError::Class);
}

#[test]
fn a_file_for_another_abi() {
    let mut bytes = build(&hello());
    bytes[7] = 3;
    assert_eq!(error_of(&bytes), LoadError::OsAbi);
}

#[test]
fn a_file_for_another_machine() {
    let mut bytes = build(&hello());
    bytes[18] = 62;
    bytes[19] = 0;
    assert_eq!(error_of(&bytes), LoadError::Machine);
}

#[test]
fn a_big_endian_file() {
    let mut bytes: Vec<u8> = vec![0x7f, b'E', b'L', b'F', 2, 2, 1, 0, 0, 0, 0, 0, 0, 0, 0, 0];
    bytes.extend_from_slice(&2u16.to_be_bytes());
    bytes.extend_from_slice(&243u16.to_be_bytes());
    bytes.extend_from_slice(&1u32.to_be_bytes());
    bytes.resize(64, 0);
    assert_eq!(error_of(&bytes), LoadError::Endianness);
}

#[test]
fn the_header_is_judged_in_order() {
    // wrong ABI and wrong machine: the ABI is named
    let mut bytes = build(&hello());
    bytes[7] = 3;
    bytes[18] = 62;
    assert_eq!(error_of(&bytes), LoadError::OsAbi);
}

#[test]
fn a_file_without_sections() {
    let mut bytes = build(&hello());
    // e_shoff
    for b in &mut bytes[40..48] {
        *b = 0;
    }
    assert_eq!(error_of(&bytes), LoadError::NoSections);
}

#[test]
fn a_section_whose_bytes_are_not_in_the_file() {
    let layout = hello();
    let mut bytes = build(&layout);
    // the size of the first program section, in its header
    let shoff = u64::from_le_bytes(bytes[40..48].try_into().unwrap()) as usize;
    let size_at = shoff + 64 + 32;
    bytes[size_at..size_at + 8].copy_from_slice(&0x10_0000u64.to_le_bytes());
    assert_eq!(error_of(&bytes), LoadError::SectionData);
}

#[test]
fn a_compressed_section() {
    let mut layout = hello();
    // a compression header: type, reserved, size, alignment
    let mut data = Vec::new();
    put32(&mut data, 1);
    put32(&mut data, 0);
    put64(&mut data, 100);
    put64(&mut data, 1);
    data.extend_from_slice(&[1, 2, 3, 4]);
    layout.sections.push((SHT_PROGBITS, SHF_COMPRESSED, 0, data));
    assert_eq!(error_of(&build(&layout)), LoadError::Compressed);
}

#[test]
fn a_section_beyond_the_address_space() {
    let mut layout = hello();
    layout.sections.push((SHT_PROGBITS, 0, ADDRESS_SPACE - 2, vec![1, 2, 3]));
    assert_eq!(error_of(&build(&layout)), LoadError::SectionRange);
}

#[test]
fn a_file_without_a_symbol_table() {
    let mut layout = hello();
    layout.symbols = None;
    assert_eq!(error_of(&build(&layout)), LoadError::NoSymbolTable);
}

#[test]
fn a_symbol_table_with_entries_of_the_wrong_size() {
    let layout = hello();
    let mut bytes = build(&layout);
    let shoff = u64::from_le_bytes(bytes[40..48].try_into().unwrap()) as usize;
    // sh_entsize of the symbol table, the fifth header
    let at = shoff + 4 * 64 + 56;
    bytes[at..at + 8].copy_from_slice(&16u64.to_le_bytes());
    assert_eq!(error_of(&bytes), LoadError::SymbolTable);
}

#[test]
fn a_file_without_start() {
    let mut layout = hello();
    layout.symbols = Some(vec![("main".to_string(), 0x10000), ("_Start".to_string(), 0x10000)]);
    assert_eq!(error_of(&build(&layout)), LoadError::NoStart);
    layout.symbols = Some(vec![]);
    assert_eq!(error_of(&build(&layout)), LoadError::NoStart);
}

#[test]
fn a_section_in_the_stack_region() {
    let mut layout = hello();
    layout.sections.push((SHT_PROGBITS, 0, STACK_BOTTOM + 0x100, vec![1, 2, 3]));
    assert_eq!(error_of(&build(&layout)), LoadError::StackOverlap);
}

#[test]
fn a_failed_load_keeps_the_sections_it_had_loaded() {
    let mut layout = hello();
    layout.symbols = None;
    let mut mem = MemoryMap::new();
    assert!(load(&build(&layout), &mut mem).is_err());
    assert_eq!(mem.readword(0x10000), Some(0x0400_0893));
    assert_eq!(mem.readbyte(STACK_BOTTOM), None);
    let mut mem = MemoryMap::new();
    assert!(load(b"not a program", &mut mem).is_err());
    assert_eq!(mem.total_pages_alloc(), 0);
}

#[test]
fn sections_come_before_symbols() {
    // a compressed section and no symbol table: the section is named
    let mut layout = hello();
    let mut data = Vec::new();
    put32(&mut data, 1);
    put32(&mut data, 0);
    put64(&mut data, 100);
    put64(&mut data, 1);
    layout.sections.push((SHT_PROGBITS, SHF_COMPRESSED, 0, data));
    layout.symbols = None;
    assert_eq!(error_of(&build(&layout)), LoadError::Compressed);
}

#[test]
fn the_magic_number() {
    assert!(has_magic(&[0x7f, 0x45, 0x4c, 0x46]));
    assert!(has_magic(b"\x7fELF and more"));
    assert!(!has_magic(&[0x7f, 0x45, 0x4c]));
    assert!(!has_magic(&[]));
    assert!(!has_magic(b"ELF\x7f"));
    assert!(!has_magic(b"\x7fELf"));
}

#[test]
fn header_checks() {
    let good = ElfHeader { class: ElfClass::Elf64, data: ElfData::Little, osabi: 0, machine: 243 };
    assert_eq!(check_header(&good), Ok(()));
    assert_eq!(check_header(&ElfHeader { class: ElfClass::Elf32, ..good }), Err(LoadError::Class));
    assert_eq!(check_header(&ElfHeader { osabi: 3, ..good }), Err(LoadError::OsAbi));
    assert_eq!(check_header(&ElfHeader { machine: 62, ..good }), Err(LoadError::Machine));
    assert_eq!(check_header(&ElfHeader { data: ElfData::Big, ..good }), Err(LoadError::Endianness));
    let all_wrong = ElfHeader { class: ElfClass::Elf32, data: ElfData::Big, osabi: 9, machine: 3 };
    assert_eq!(check_header(&all_wrong), Err(LoadError::Class));
    assert_eq!(
        check_header(&ElfHeader { class: ElfClass::Elf64, ..all_wrong }),
        Err(LoadError::OsAbi)
    );
    assert_eq!(
        check_header(&ElfHeader { class: ElfClass::Elf64, osabi: 0, ..all_wrong }),
        Err(LoadError::Machine)
    );
}

#[test]
fn a_program_section_is_copied() {
    let mut mem = MemoryMap::new();
    let sec = section(SHT_PROGBITS, 0x20ffe, &[1, 2, 3, 4]);
    assert_eq!(load_section(&sec, &mut mem), Ok(()));
    assert_eq!(mem.readword(0x20ffe), Some(0x0403_0201));
    assert_eq!(mem.readbyte(0x20000), Some(0));
    assert_eq!(mem.readbyte(0x21fff), Some(0));
    assert_eq!(mem.readbyte(0x1ffff), None);
    assert_eq!(mem.readbyte(0x22000), None);
}

#[test]
fn sections_may_share_a_page() {
    let mut mem = MemoryMap::new();
    let secs = vec![
        section(SHT_PROGBITS, 0x10000, &[0xaa; 0x10]),
        section(SHT_PROGBITS, 0x10010, &[0xbb; 0x10]),
        section(SHT_NOBITS, 0x10018, &[0; 0x10]),
    ];
    assert_eq!(load_sections(&secs, &mut mem), Ok(()));
    assert_eq!(mem.readbyte(0x1000f), Some(0xaa));
    assert_eq!(mem.readbyte(0x10010), Some(0xbb));
    // backing a range again keeps what is there
    assert_eq!(mem.readbyte(0x1001f), Some(0xbb));
    assert_eq!(mem.readbyte(0x10020), Some(0));
}

#[test]
fn a_later_section_overwrites_an_earlier_one() {
    let mut mem = MemoryMap::new();
    let secs = vec![
        section(SHT_PROGBITS, 0, &[1, 1, 1, 1]),
        section(SHT_PROGBITS, 2, &[2, 2]),
    ];
    assert_eq!(load_sections(&secs, &mut mem), Ok(()));
    assert_eq!(mem.readword(0), Some(0x0202_0101));
}

#[test]
fn sections_of_other_types_and_empty_sections_are_passed_over() {
    let mut mem = MemoryMap::new();
    let mut empty = section(SHT_PROGBITS, 0x5000, &[]);
    empty.header.sh_addr = ADDRESS_SPACE + 5;
    let secs = vec![
        section(SHT_SYMTAB, 0x1000, &[1, 2, 3]),
        section(SHT_STRTAB, 0x2000, &[1, 2, 3]),
        section(0, 0x3000, &[]),
        section(4, 0x4000, &[9; 24]),
        empty,
        Section { header: header(SHT_NOBITS, 0x6000, 0), data: vec![], compressed: false },
    ];
    assert_eq!(load_sections(&secs, &mut mem), Ok(()));
    for a in [0x1000u64, 0x2000, 0x3000, 0x4000, 0x5000, 0x6000] {
        assert_eq!(mem.readbyte(a), None);
    }
}

#[test]
fn a_section_without_file_bytes_is_backed_with_zeros() {
    let mut mem = MemoryMap::new();
    let sec = Section { header: header(SHT_NOBITS, 0x7ff0, 0x20), data: vec![], compressed: false };
    assert_eq!(load_section(&sec, &mut mem), Ok(()));
    assert_eq!(mem.read_bytes(0x7ff0, 0x20), Some(vec![0; 0x20]));
    assert_eq!(mem.readbyte(0x7000), Some(0));
    assert_eq!(mem.readbyte(0x8fff), Some(0));
    assert_eq!(mem.readbyte(0x9000), None);
}

#[test]
fn a_compressed_section_is_refused_whatever_its_type() {
    let mut mem = MemoryMap::new();
    for kind in [SHT_PROGBITS, SHT_NOBITS, SHT_STRTAB, 0] {
        let mut sec = section(kind, 0x1000, &[1, 2, 3]);
        sec.compressed = true;
        assert_eq!(load_section(&sec, &mut mem), Err(LoadError::Compressed));
    }
    assert_eq!(mem.readbyte(0x1000), None);
}

#[test]
fn a_section_must_fit_in_the_address_space() {
    let mut mem = MemoryMap::new();
    let fits = section(SHT_PROGBITS, ADDRESS_SPACE - 4, &[1, 2, 3, 4]);
    assert_eq!(load_section(&fits, &mut mem), Ok(()));
    assert_eq!(mem.readword(ADDRESS_SPACE - 4), Some(0x0403_0201));
    let mut mem = MemoryMap::new();
    let too_far = section(SHT_PROGBITS, ADDRESS_SPACE - 3, &[1, 2, 3, 4]);
    assert_eq!(load_section(&too_far, &mut mem), Err(LoadError::SectionRange));
    assert_eq!(mem.readbyte(ADDRESS_SPACE - 3), None);
    let outside = Section { header: header(SHT_NOBITS, u64::MAX, 2), data: vec![], compressed: false };
    assert_eq!(load_section(&outside, &mut mem), Err(LoadError::SectionRange));
    let huge = Section { header: header(SHT_NOBITS, 0, u64::MAX), data: vec![], compressed: false };
    assert_eq!(load_section(&huge, &mut mem), Err(LoadError::SectionRange));
}

#[test]
fn a_program_section_needs_all_its_bytes() {
    let mut mem = MemoryMap::new();
    let mut sec = section(SHT_PROGBITS, 0x1000, &[1, 2, 3]);
    sec.header.sh_size = 4;
    assert_eq!(load_section(&sec, &mut mem), Err(LoadError::SectionData));
    sec.header.sh_size = 2;
    assert_eq!(load_section(&sec, &mut mem), Err(LoadError::SectionData));
    assert_eq!(mem.readbyte(0x1000), None);
}

#[test]
fn loading_stops_at_the_first_section_that_fails() {
    let mut mem = MemoryMap::new();
    let mut bad = section(SHT_PROGBITS, 0x2000, &[1]);
    bad.compressed = true;
    let secs = vec![
        section(SHT_PROGBITS, 0x1000, &[7]),
        bad,
        section(SHT_PROGBITS, ADDRESS_SPACE, &[7]),
    ];
    assert_eq!(load_sections(&secs, &mut mem), Err(LoadError::Compressed));
    // what came before the failure stays, what comes after is not tried
    assert_eq!(mem.readbyte(0x1000), Some(7));
    assert_eq!(mem.readbyte(0x2000), None);
    assert_eq!(load_sections(&vec![], &mut mem), Ok(()));
}

#[test]
fn the_name_start() {
    assert!(is_start(&b"_start".to_vec()));
    assert!(!is_start(&b"_start\0".to_vec()));
    assert!(!is_start(&b"_star".to_vec()));
    assert!(!is_start(&b"_Start".to_vec()));
    assert!(!is_start(&b"start_".to_vec()));
    assert!(!is_start(&b"_starT".to_vec()));
    assert!(!is_start(&vec![]));
}

#[test]
fn find_start_takes_the_first_match() {
    assert_eq!(find_start(&vec![]), None);
    assert_eq!(find_start(&vec![symbol("main", 1), symbol("__start", 2)]), None);
    assert_eq!(find_start(&vec![symbol("_start", 0x10078)]), Some(0x10078));
    assert_eq!(
        find_start(&vec![symbol("", 0), symbol("main", 1), symbol("_start", 2), symbol("_start", 3)]),
        Some(2)
    );
}

#[test]
fn the_stack_is_backed_once() {
    let mut mem = MemoryMap::new();
    assert_eq!(setup_stack(&mut mem), Ok(()));
    assert_eq!(mem.readbyte(STACK_BOTTOM), Some(0));
    assert_eq!(mem.readbyte(ADDRESS_SPACE - 1), Some(0));
    assert_eq!(mem.readbyte(STACK_BOTTOM - 1), None);
    assert_eq!(setup_stack(&mut mem), Err(LoadError::StackOverlap));
}

#[test]
fn the_stack_does_not_share_a_page_with_a_section() {
    let mut mem = MemoryMap::new();
    mem.allocate_known_page(ADDRESS_SPACE - 1);
    mem.writebyte(ADDRESS_SPACE - 1, 9);
    assert_eq!(setup_stack(&mut mem), Err(LoadError::StackOverlap));
    assert_eq!(mem.readbyte(STACK_BOTTOM), None);
    assert_eq!(mem.readbyte(ADDRESS_SPACE - 1), Some(9));
}

#[test]
fn every_error_has_a_line_of_its_own() {
    let all = [
        LoadError::NotElf,
        LoadError::Parse,
        LoadError::Class,
        LoadError::OsAbi,
        LoadError::Machine,
        LoadError::Endianness,
        LoadError::NoSections,
        LoadError::SectionData,
        LoadError::Compressed,
        LoadError::SectionRange,
        LoadError::SymbolTable,
        LoadError::NoSymbolTable,
        LoadError::NoStart,
        LoadError::StackOverlap,
    ];
    for (i, a) in all.iter().enumerate() {
        assert!(!a.message().is_empty());
        for b in &all[i + 1..] {
            assert_ne!(a.message(), b.message());
        }
    }
    assert_eq!(LoadError::NotElf.message(), "Non-ELF executables are currently not supported");
    assert_eq!(LoadError::Class.message(), "32-bit ELF files are not supported");
    assert_eq!(LoadError::OsAbi.message(), "File is not linked for Unix System V ABI");
    assert_eq!(LoadError::Machine.message(), "File architecture is not RISC-V");
    assert_eq!(LoadError::Compressed.message(), "ELF compression is not yet supported");
    assert_eq!(LoadError::NoStart.message(), "Could not find _start");
}
