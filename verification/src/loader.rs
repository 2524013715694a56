//! The program loader: checks an ELF file, copies its sections into guest
//! memory, finds `_start` and sets up the stack.

use crate::cpu::{initial_hart, Cpu};
use crate::image::{
    elf_header, elf_section_data, elf_section_headers, elf_symbol_name, elf_symbols,
    parse_header, parse_section_data, parse_section_headers, parse_symbol_name, parse_symbols,
    ElfClass, ElfData, ElfHeader, SectionHeader, SymbolEntry,
};
use crate::mm::{
    first_page, last_page, overlay, pages_free, with_pages, MemoryMap, ADDRESS_SPACE,
    STACK_BOTTOM, STACK_SIZE,
};
use vstd::prelude::*;

verus! {

/// OS ABI of Unix System V.
pub const ELFOSABI_SYSV: u8 = 0;

/// Machine number of RISC-V.
pub const EM_RISCV: u16 = 243;

/// Type of a section whose bytes are part of the program image.
pub const SHT_PROGBITS: u32 = 1;

/// Type of a section that occupies memory but no bytes of the file.
pub const SHT_NOBITS: u32 = 8;

/// Why a file could not be loaded.
#[derive(Clone, Copy, Debug, PartialEq, Eq, Structural)]
pub enum LoadError {
    /// The file does not start with the ELF magic number.
    NotElf,
    /// The file header or one of its tables cannot be parsed.
    Parse,
    /// The file is not of the 64-bit class.
    Class,
    /// The file is not linked for the System V ABI.
    OsAbi,
    /// The file is not for RISC-V.
    Machine,
    /// The file is not little-endian.
    Endianness,
    /// The file has no section header table.
    NoSections,
    /// The bytes of a section cannot be had from the file.
    SectionData,
    /// A section is compressed.
    Compressed,
    /// A section does not fit in the guest address space.
    SectionRange,
    /// The symbol table cannot be parsed.
    SymbolTable,
    /// The file has no symbol table.
    NoSymbolTable,
    /// No symbol is named `_start`.
    NoStart,
    /// A section lies in the stack region.
    StackOverlap,
}

/// A section with its bytes.
#[derive(Debug)]
pub struct Section {
    pub header: SectionHeader,
    pub data: Vec<u8>,
    pub compressed: bool,
}

/// A symbol with its name.
#[derive(Debug)]
pub struct Symbol {
    pub name: Vec<u8>,
    pub value: u64,
}

/// A section as mathematical values.
pub struct SectionModel {
    pub header: SectionHeader,
    pub data: Seq<u8>,
    pub compressed: bool,
}

/// A symbol as mathematical values.
pub struct SymbolModel {
    pub name: Seq<u8>,
    pub value: u64,
}

impl View for Section {
    type V = SectionModel;

    open spec fn view(&self) -> SectionModel {
        SectionModel { header: self.header, data: self.data@, compressed: self.compressed }
    }
}

impl View for Symbol {
    type V = SymbolModel;

    open spec fn view(&self) -> SymbolModel {
        SymbolModel { name: self.name@, value: self.value }
    }
}

/// The views of a sequence of sections.
pub open spec fn section_models(secs: Seq<Section>) -> Seq<SectionModel> {
    Seq::new(secs.len(), |i: int| secs[i]@)
}

/// The views of a sequence of symbols.
pub open spec fn symbol_models(syms: Seq<Symbol>) -> Seq<SymbolModel> {
    Seq::new(syms.len(), |i: int| syms[i]@)
}

/// The bytes of the name `_start`.
pub open spec fn start_name() -> Seq<u8> {
    seq![0x5fu8, 0x73u8, 0x74u8, 0x61u8, 0x72u8, 0x74u8]
}

/// The file starts with `7F 45 4C 46`.
pub open spec fn is_elf(bytes: Seq<u8>) -> bool {
    bytes.len() >= 4 && bytes[0] == 0x7f && bytes[1] == 0x45 && bytes[2] == 0x4c && bytes[3]
        == 0x46
}

/// The first thing wrong with a header, checked in this order: class, OS
/// ABI, machine, byte order.
pub open spec fn header_verdict(h: ElfHeader) -> Result<(), LoadError> {
    if h.class != ElfClass::Elf64 {
        Err(LoadError::Class)
    } else if h.osabi != ELFOSABI_SYSV {
        Err(LoadError::OsAbi)
    } else if h.machine != EM_RISCV {
        Err(LoadError::Machine)
    } else if h.data != ElfData::Little {
        Err(LoadError::Endianness)
    } else {
        Ok(())
    }
}

/// Memory after one section is loaded. A compressed section is refused. A
/// PROGBITS or NOBITS section of non-zero size has its range backed, and a
/// PROGBITS section its bytes copied there; any other section is passed
/// over.
pub open spec fn section_outcome(s: SectionModel, m: Map<int, u8>) -> Result<
    Map<int, u8>,
    LoadError,
> {
    let h = s.header;
    let backed_range = with_pages(
        m,
        first_page(h.sh_addr as int),
        last_page(h.sh_addr as int, h.sh_size as int),
    );
    if s.compressed {
        Err(LoadError::Compressed)
    } else if (h.sh_type != SHT_PROGBITS && h.sh_type != SHT_NOBITS) || h.sh_size == 0 {
        Ok(m)
    } else if h.sh_addr + h.sh_size > ADDRESS_SPACE {
        Err(LoadError::SectionRange)
    } else if h.sh_type == SHT_NOBITS {
        Ok(backed_range)
    } else if s.data.len() != h.sh_size {
        Err(LoadError::SectionData)
    } else {
        Ok(overlay(backed_range, h.sh_addr as int, s.data))
    }
}

/// Memory after the sections are loaded in order up to the first that
/// fails, and the error of that one, if there is one.
pub open spec fn sections_outcome(secs: Seq<SectionModel>, m: Map<int, u8>) -> (
    Map<int, u8>,
    Option<LoadError>,
)
    decreases secs.len(),
{
    if secs.len() == 0 {
        (m, None)
    } else {
        match section_outcome(secs[0], m) {
            Err(e) => (m, Some(e)),
            Ok(m1) => sections_outcome(secs.drop_first(), m1),
        }
    }
}

/// The value of the first symbol whose name is exactly `_start`.
pub open spec fn first_start(syms: Seq<SymbolModel>) -> Option<u64>
    decreases syms.len(),
{
    if syms.len() == 0 {
        None
    } else if syms[0].name == start_name() {
        Some(syms[0].value)
    } else {
        first_start(syms.drop_first())
    }
}

/// Memory with the stack region backed, unless a page of it is in use.
pub open spec fn stack_outcome(m: Map<int, u8>) -> Result<Map<int, u8>, LoadError> {
    let first = first_page(STACK_BOTTOM as int);
    let last = last_page(STACK_BOTTOM as int, STACK_SIZE as int);
    if pages_free(m, first, last) {
        Ok(with_pages(m, first, last))
    } else {
        Err(LoadError::StackOverlap)
    }
}

impl LoadError {
    /// The text of each error.
    pub open spec fn text(self) -> Seq<char> {
        match self {
            LoadError::NotElf => "Non-ELF executables are currently not supported"@,
            LoadError::Parse => "Unable to parse ELF file"@,
            LoadError::Class => "32-bit ELF files are not supported"@,
            LoadError::OsAbi => "File is not linked for Unix System V ABI"@,
            LoadError::Machine => "File architecture is not RISC-V"@,
            LoadError::Endianness => "Big-endian ELF files are not supported"@,
            LoadError::NoSections => "No ELF sections"@,
            LoadError::SectionData => "Failed to get section data"@,
            LoadError::Compressed => "ELF compression is not yet supported"@,
            LoadError::SectionRange => "Section lies outside the guest address space"@,
            LoadError::SymbolTable => "Failed to get symbol table"@,
            LoadError::NoSymbolTable => "Symbol table is empty"@,
            LoadError::NoStart => "Could not find _start"@,
            LoadError::StackOverlap => "Section overlaps the stack"@,
        }
    }

    /// A line for the user that tells this error from every other.
    pub fn message(&self) -> (r: &'static str)
        ensures
            r@ == self.text(),
    {
        match self {
            LoadError::NotElf => "Non-ELF executables are currently not supported",
            LoadError::Parse => "Unable to parse ELF file",
            LoadError::Class => "32-bit ELF files are not supported",
            LoadError::OsAbi => "File is not linked for Unix System V ABI",
            LoadError::Machine => "File architecture is not RISC-V",
            LoadError::Endianness => "Big-endian ELF files are not supported",
            LoadError::NoSections => "No ELF sections",
            LoadError::SectionData => "Failed to get section data",
            LoadError::Compressed => "ELF compression is not yet supported",
            LoadError::SectionRange => "Section lies outside the guest address space",
            LoadError::SymbolTable => "Failed to get symbol table",
            LoadError::NoSymbolTable => "Symbol table is empty",
            LoadError::NoStart => "Could not find _start",
            LoadError::StackOverlap => "Section overlaps the stack",
        }
    }
}

/// Whether the file starts with the ELF magic number.
pub fn has_magic(bytes: &[u8]) -> (r: bool)
    ensures
        r == is_elf(bytes@),
{
    bytes.len() >= 4 && bytes[0] == 0x7f && bytes[1] == 0x45 && bytes[2] == 0x4c && bytes[3]
        == 0x46
}

/// Checks that the file is a little-endian RISC-V file of the 64-bit class
/// for System V.
pub fn check_header(h: &ElfHeader) -> (r: Result<(), LoadError>)
    ensures
        r == header_verdict(*h),
{
    if h.class != ElfClass::Elf64 {
        Err(LoadError::Class)
    } else if h.osabi != ELFOSABI_SYSV {
        Err(LoadError::OsAbi)
    } else if h.machine != EM_RISCV {
        Err(LoadError::Machine)
    } else if h.data != ElfData::Little {
        Err(LoadError::Endianness)
    } else {
        Ok(())
    }
}

/// Loads one section. On an error memory is as before.
pub fn load_section(sec: &Section, mem: &mut MemoryMap) -> (r: Result<(), LoadError>)
    requires
        old(mem).wf(),
    ensures
        final(mem).wf(),
        match section_outcome(sec@, old(mem)@) {
            Ok(m) => r == Ok::<(), LoadError>(()) && final(mem)@ == m,
            Err(e) => r == Err::<(), LoadError>(e) && final(mem)@ == old(mem)@,
        },
{
    let h = &sec.header;
    if sec.compressed {
        return Err(LoadError::Compressed);
    }
    if (h.sh_type != SHT_PROGBITS && h.sh_type != SHT_NOBITS) || h.sh_size == 0 {
        return Ok(());
    }
    if h.sh_addr > ADDRESS_SPACE || h.sh_size > ADDRESS_SPACE - h.sh_addr {
        return Err(LoadError::SectionRange);
    }
    if h.sh_type == SHT_NOBITS {
        mem.allocate_address_range(h.sh_addr, h.sh_size);
        return Ok(());
    }
    if sec.data.len() as u64 != h.sh_size {
        return Err(LoadError::SectionData);
    }
    mem.allocate_address_range(h.sh_addr, h.sh_size);
    mem.write_bytes(h.sh_addr, sec.data.as_slice());
    Ok(())
}

/// Loads the sections in order and stops at the first that fails; the
/// sections before it stay loaded.
pub fn load_sections(secs: &Vec<Section>, mem: &mut MemoryMap) -> (r: Result<(), LoadError>)
    requires
        old(mem).wf(),
    ensures
        final(mem).wf(),
        final(mem)@ == sections_outcome(section_models(secs@), old(mem)@).0,
        r == match sections_outcome(section_models(secs@), old(mem)@).1 {
            None => Ok::<(), LoadError>(()),
            Some(e) => Err::<(), LoadError>(e),
        },
{
    let mut i: usize = 0;
    let ghost all = section_models(secs@);
    assert(all.skip(0) =~= all);
    while i < secs.len()
        invariant
            i <= secs.len(),
            mem.wf(),
            all == section_models(secs@),
            sections_outcome(all.skip(i as int), mem@) == sections_outcome(all, old(mem)@),
        decreases secs.len() - i,
    {
        proof {
            assert(all.skip(i as int).drop_first() =~= all.skip(i + 1));
            assert(all.skip(i as int)[0] == secs[i as int]@);
        }
        match load_section(&secs[i], mem) {
            Ok(()) => {},
            Err(e) => {
                return Err(e);
            },
        }
        i += 1;
    }
    Ok(())
}

/// Whether a symbol's name is exactly `_start`.
pub fn is_start(name: &Vec<u8>) -> (r: bool)
    ensures
        r == (name@ == start_name()),
{
    let r: bool = name.len() == 6 && name[0] == 0x5f && name[1] == 0x73 && name[2] == 0x74
        && name[3] == 0x61 && name[4] == 0x72 && name[5] == 0x74;
    proof {
        if r {
            assert(name@ =~= start_name());
        } else if name.len() == 6 {
            assert(start_name()[0] == 0x5f && start_name()[1] == 0x73 && start_name()[2] == 0x74
                && start_name()[3] == 0x61 && start_name()[4] == 0x72 && start_name()[5]
                == 0x74);
        } else {
            assert(start_name().len() == 6);
        }
    }
    r
}

/// The entry point: the value of the first symbol named `_start`.
pub fn find_start(syms: &Vec<Symbol>) -> (r: Option<u64>)
    ensures
        r == first_start(symbol_models(syms@)),
{
    let mut i: usize = 0;
    let ghost all = symbol_models(syms@);
    assert(all.skip(0) =~= all);
    while i < syms.len()
        invariant
            i <= syms.len(),
            all == symbol_models(syms@),
            first_start(all.skip(i as int)) == first_start(all),
        decreases syms.len() - i,
    {
        proof {
            assert(all.skip(i as int).drop_first() =~= all.skip(i + 1));
            assert(all.skip(i as int)[0] == syms[i as int]@);
        }
        if is_start(&syms[i].name) {
            return Some(syms[i].value);
        }
        i += 1;
    }
    None
}

/// Backs the stack region. Fails, changing nothing, where a page of it is
/// backed already.
pub fn setup_stack(mem: &mut MemoryMap) -> (r: Result<(), LoadError>)
    requires
        old(mem).wf(),
    ensures
        final(mem).wf(),
        match stack_outcome(old(mem)@) {
            Ok(m) => r == Ok::<(), LoadError>(()) && final(mem)@ == m,
            Err(e) => r == Err::<(), LoadError>(e) && final(mem)@ == old(mem)@,
        },
{
    if !mem.range_is_free(STACK_BOTTOM, STACK_SIZE) {
        return Err(LoadError::StackOverlap);
    }
    mem.allocate_address_range(STACK_BOTTOM, STACK_SIZE);
    Ok(())
}

/// Memory after the sections of a file are loaded in the order of their
/// headers, each with the bytes that the file holds for it, up to the first
/// that fails, and the error of that one, if there is one.
pub open spec fn file_sections_outcome(
    bytes: Seq<u8>,
    headers: Seq<SectionHeader>,
    m: Map<int, u8>,
) -> (Map<int, u8>, Option<LoadError>)
    decreases headers.len(),
{
    if headers.len() == 0 {
        (m, None)
    } else {
        match elf_section_data(bytes, headers[0]) {
            None => (m, Some(LoadError::SectionData)),
            Some((data, compressed)) => match section_outcome(
                SectionModel { header: headers[0], data, compressed },
                m,
            ) {
                Err(e) => (m, Some(e)),
                Ok(m1) => file_sections_outcome(bytes, headers.drop_first(), m1),
            },
        }
    }
}

/// The symbols of a file whose names can be read, in the table's order.
pub open spec fn file_symbols(bytes: Seq<u8>, entries: Seq<SymbolEntry>) -> Seq<SymbolModel>
    decreases entries.len(),
{
    if entries.len() == 0 {
        Seq::empty()
    } else {
        let rest = file_symbols(bytes, entries.drop_last());
        match elf_symbol_name(bytes, entries.last().st_name) {
            Some(name) => rest.push(SymbolModel { name, value: entries.last().st_value }),
            None => rest,
        }
    }
}

/// What loading a file into memory `m` comes to: the memory it leaves, and
/// the entry point or the first error. Where loading succeeds the memory
/// holds the program and its stack; where it fails, the sections that were
/// loaded before the error.
pub open spec fn load_outcome(bytes: Seq<u8>, m: Map<int, u8>) -> (
    Map<int, u8>,
    Result<u64, LoadError>,
) {
    if !is_elf(bytes) {
        (m, Err(LoadError::NotElf))
    } else {
        match elf_header(bytes) {
            None => (m, Err(LoadError::Parse)),
            Some(h) => match header_verdict(h) {
                Err(e) => (m, Err(e)),
                Ok(_) => match elf_section_headers(bytes) {
                    None => (m, Err(LoadError::Parse)),
                    Some(None) => (m, Err(LoadError::NoSections)),
                    Some(Some(headers)) => match file_sections_outcome(bytes, headers, m) {
                        (m1, Some(e)) => (m1, Err(e)),
                        (m1, None) => entry_and_stack(bytes, m1),
                    },
                },
            },
        }
    }
}

/// The last part of loading: the entry point from the symbol table, then
/// the stack.
pub open spec fn entry_and_stack(bytes: Seq<u8>, m: Map<int, u8>) -> (
    Map<int, u8>,
    Result<u64, LoadError>,
) {
    match elf_symbols(bytes) {
        None => (m, Err(LoadError::SymbolTable)),
        Some(None) => (m, Err(LoadError::NoSymbolTable)),
        Some(Some(entries)) => match first_start(file_symbols(bytes, entries)) {
            None => (m, Err(LoadError::NoStart)),
            Some(entry) => match stack_outcome(m) {
                Err(e) => (m, Err(e)),
                Ok(m1) => (m1, Ok(entry)),
            },
        },
    }
}

/// Loads the sections of a file, fetching the bytes of each in turn.
fn load_file_sections(bytes: &[u8], headers: &Vec<SectionHeader>, mem: &mut MemoryMap) -> (r:
    Result<(), LoadError>)
    requires
        old(mem).wf(),
    ensures
        final(mem).wf(),
        final(mem)@ == file_sections_outcome(bytes@, headers@, old(mem)@).0,
        r == match file_sections_outcome(bytes@, headers@, old(mem)@).1 {
            None => Ok::<(), LoadError>(()),
            Some(e) => Err::<(), LoadError>(e),
        },
{
    let mut i: usize = 0;
    assert(headers@.skip(0) =~= headers@);
    while i < headers.len()
        invariant
            i <= headers.len(),
            mem.wf(),
            file_sections_outcome(bytes@, headers@.skip(i as int), mem@) == file_sections_outcome(
                bytes@,
                headers@,
                old(mem)@,
            ),
        decreases headers.len() - i,
    {
        proof {
            assert(headers@.skip(i as int).drop_first() =~= headers@.skip(i + 1));
            assert(headers@.skip(i as int)[0] == headers@[i as int]);
        }
        let (data, compressed) = match parse_section_data(bytes, &headers[i]) {
            Ok(d) => d,
            Err(_) => {
                return Err(LoadError::SectionData);
            },
        };
        let sec = Section { header: headers[i], data, compressed };
        match load_section(&sec, mem) {
            Ok(()) => {},
            Err(e) => {
                return Err(e);
            },
        }
        i += 1;
    }
    Ok(())
}

/// Reads the name of every symbol; a symbol whose name cannot be read is
/// left out.
fn name_symbols(bytes: &[u8], entries: &Vec<SymbolEntry>) -> (syms: Vec<Symbol>)
    ensures
        symbol_models(syms@) == file_symbols(bytes@, entries@),
{
    let mut syms: Vec<Symbol> = Vec::new();
    let mut i: usize = 0;
    assert(symbol_models(syms@) =~= file_symbols(bytes@, entries@.take(0)));
    while i < entries.len()
        invariant
            i <= entries.len(),
            symbol_models(syms@) == file_symbols(bytes@, entries@.take(i as int)),
        decreases entries.len() - i,
    {
        let ghost before = symbol_models(syms@);
        proof {
            assert(entries@.take(i + 1).drop_last() =~= entries@.take(i as int));
            assert(entries@.take(i + 1).last() == entries@[i as int]);
        }
        match parse_symbol_name(bytes, entries[i].st_name) {
            Some(name) => {
                syms.push(Symbol { name, value: entries[i].st_value });
                assert(symbol_models(syms@) =~= before.push(
                    SymbolModel { name: name@, value: entries@[i as int].st_value },
                ));
            },
            None => {},
        }
        i += 1;
    }
    assert(entries@.take(entries@.len() as int) =~= entries@);
    syms
}

/// Loads an ELF file into `mem` and makes the hart that is to run it.
///
/// The file must be a little-endian RISC-V file of the 64-bit class for
/// System V. Its sections are loaded in the order of their headers, `_start`
/// gives the program counter, and the stack region is backed last, with the
/// stack pointer one past its top. Where loading fails, the sections loaded
/// before the error stay in `mem`.
pub fn load(bytes: &[u8], mem: &mut MemoryMap) -> (r: Result<Cpu, LoadError>)
    requires
        old(mem).wf(),
    ensures
        final(mem).wf(),
        final(mem)@ == load_outcome(bytes@, old(mem)@).0,
        match load_outcome(bytes@, old(mem)@).1 {
            Ok(entry) => r matches Ok(cpu) && cpu.wf() && cpu@ == initial_hart(entry),
            Err(e) => r matches Err(e1) && e1 == e,
        },
{
    if !has_magic(bytes) {
        return Err(LoadError::NotElf);
    }
    let header = match parse_header(bytes) {
        Ok(h) => h,
        Err(_) => {
            return Err(LoadError::Parse);
        },
    };
    match check_header(&header) {
        Ok(()) => {},
        Err(e) => {
            return Err(e);
        },
    }
    let headers = match parse_section_headers(bytes) {
        Ok(Some(t)) => t,
        Ok(None) => {
            return Err(LoadError::NoSections);
        },
        Err(_) => {
            return Err(LoadError::Parse);
        },
    };
    match load_file_sections(bytes, &headers, mem) {
        Ok(()) => {},
        Err(e) => {
            return Err(e);
        },
    }
    let entries = match parse_symbols(bytes) {
        Ok(Some(t)) => t,
        Ok(None) => {
            return Err(LoadError::NoSymbolTable);
        },
        Err(_) => {
            return Err(LoadError::SymbolTable);
        },
    };
    let entry: u64 = match find_start(&name_symbols(bytes, &entries)) {
        Some(v) => v,
        None => {
            return Err(LoadError::NoStart);
        },
    };
    match setup_stack(mem) {
        Ok(()) => {},
        Err(e) => {
            return Err(e);
        },
    }
    Ok(Cpu::new(entry))
}

} // verus!
