//! What the loader reads from an ELF file, as plain values, and the calls
//! into the `elf` crate that produce them.
//!
//! The functions marked `external_body` are believed, not proved: each hands
//! the file's bytes to the `elf` crate and turns what comes back into the
//! types of this module, one field for one field.

use elf::endian::AnyEndian;
use elf::file::Class;
use elf::parse::ParseError;
use elf::ElfBytes;
use vstd::prelude::*;

verus! {

/// Word size of an ELF file.
#[derive(Clone, Copy, Debug, PartialEq, Eq, Structural)]
pub enum ElfClass {
    Elf32,
    Elf64,
}

/// Byte order of an ELF file.
#[derive(Clone, Copy, Debug, PartialEq, Eq, Structural)]
pub enum ElfData {
    Little,
    Big,
}

/// The fields of the ELF file header that the loader checks.
#[derive(Clone, Copy, Debug, PartialEq, Eq, Structural)]
pub struct ElfHeader {
    pub class: ElfClass,
    pub data: ElfData,
    pub osabi: u8,
    pub machine: u16,
}

/// A section header.
#[derive(Clone, Copy, Debug, PartialEq, Eq, Structural)]
pub struct SectionHeader {
    pub sh_name: u32,
    pub sh_type: u32,
    pub sh_flags: u64,
    pub sh_addr: u64,
    pub sh_offset: u64,
    pub sh_size: u64,
    pub sh_link: u32,
    pub sh_info: u32,
    pub sh_addralign: u64,
    pub sh_entsize: u64,
}

/// An entry of the symbol table: where its name starts in the string table,
/// and its value.
#[derive(Clone, Copy, Debug, PartialEq, Eq, Structural)]
pub struct SymbolEntry {
    pub st_name: u32,
    pub st_value: u64,
}

/// `elf::parse::ParseError`, carried from the calls below to the loader,
/// which looks at nothing inside it.
#[verifier::external_type_specification]
#[verifier::external_body]
pub struct ExParseError(ParseError);

/// The header that `elf::ElfBytes::minimal_parse` reads from a file, where it
/// accepts the file. Nothing is claimed of it but that the same bytes give
/// the same header.
pub uninterp spec fn elf_header(bytes: Seq<u8>) -> Option<ElfHeader>;

/// The section headers that `elf::ElfBytes::section_headers` finds in a file
/// that parses: nothing at all where the file does not parse, nothing inside
/// where it has no section header table.
pub uninterp spec fn elf_section_headers(bytes: Seq<u8>) -> Option<Option<Seq<SectionHeader>>>;

/// The bytes that `elf::ElfBytes::section_data` returns for a section header
/// of a file, and whether a compression header came with them: nothing where
/// the call fails.
pub uninterp spec fn elf_section_data(bytes: Seq<u8>, shdr: SectionHeader) -> Option<
    (Seq<u8>, bool),
>;

/// The entries of the symbol table that `elf::ElfBytes::symbol_table` finds
/// in a file: nothing at all where the call fails, nothing inside where the
/// file has no symbol table.
pub uninterp spec fn elf_symbols(bytes: Seq<u8>) -> Option<Option<Seq<SymbolEntry>>>;

/// The name that `elf::string_table::StringTable::get` reads at offset
/// `st_name` of the string table that belongs to the symbol table: nothing
/// where there is no such table or no name to be read there.
pub uninterp spec fn elf_symbol_name(bytes: Seq<u8>, st_name: u32) -> Option<Seq<u8>>;

/// Calls `elf::ElfBytes::minimal_parse` and hands back the class, byte
/// order, OS ABI and machine of the header it returns. Believed: the outcome
/// is what `elf_header` names, a function of the bytes alone.
#[verifier::external_body]
pub(crate) fn parse_header(bytes: &[u8]) -> (r: Result<ElfHeader, ParseError>)
    ensures
        r is Ok == elf_header(bytes@) is Some,
        r matches Ok(h) ==> elf_header(bytes@) == Some(h),
{
    let file = ElfBytes::<AnyEndian>::minimal_parse(bytes)?;
    Ok(
        ElfHeader {
            class: match file.ehdr.class {
                Class::ELF32 => ElfClass::Elf32,
                Class::ELF64 => ElfClass::Elf64,
            },
            data: match file.ehdr.endianness {
                AnyEndian::Little => ElfData::Little,
                AnyEndian::Big => ElfData::Big,
            },
            osabi: file.ehdr.osabi,
            machine: file.ehdr.e_machine,
        },
    )
}

/// Parses the file again and calls `elf::ElfBytes::section_headers`: every
/// header that the table yields, in the table's order, field for field.
/// Believed: the outcome is what `elf_section_headers` names.
#[verifier::external_body]
pub(crate) fn parse_section_headers(bytes: &[u8]) -> (r: Result<
    Option<Vec<SectionHeader>>,
    ParseError,
>)
    ensures
        r is Ok == elf_section_headers(bytes@) is Some,
        r matches Ok(t) ==> match t {
            Some(v) => elf_section_headers(bytes@) == Some(Some(v@)),
            None => elf_section_headers(bytes@) == Some(None::<Seq<SectionHeader>>),
        },
{
    let file = ElfBytes::<AnyEndian>::minimal_parse(bytes)?;
    Ok(file.section_headers().map(|table| table.iter().map(|s| SectionHeader {
        sh_name: s.sh_name, sh_type: s.sh_type, sh_flags: s.sh_flags,
        sh_addr: s.sh_addr, sh_offset: s.sh_offset, sh_size: s.sh_size,
        sh_link: s.sh_link, sh_info: s.sh_info,
        sh_addralign: s.sh_addralign, sh_entsize: s.sh_entsize,
    }).collect()))
}

/// Parses the file again and calls `elf::ElfBytes::section_data` with the
/// section header: a copy of the section's bytes, and whether a compression
/// header came with them. Believed: the outcome is what `elf_section_data`
/// names.
#[verifier::external_body]
pub(crate) fn parse_section_data(bytes: &[u8], shdr: &SectionHeader) -> (r: Result<
    (Vec<u8>, bool),
    ParseError,
>)
    ensures
        r is Ok == elf_section_data(bytes@, *shdr) is Some,
        r matches Ok(d) ==> elf_section_data(bytes@, *shdr) == Some((d.0@, d.1)),
{
    let file = ElfBytes::<AnyEndian>::minimal_parse(bytes)?;
    let (data, compression) = file.section_data(&elf::section::SectionHeader {
        sh_name: shdr.sh_name, sh_type: shdr.sh_type, sh_flags: shdr.sh_flags,
        sh_addr: shdr.sh_addr, sh_offset: shdr.sh_offset, sh_size: shdr.sh_size,
        sh_link: shdr.sh_link, sh_info: shdr.sh_info,
        sh_addralign: shdr.sh_addralign, sh_entsize: shdr.sh_entsize,
    })?;
    Ok((data.to_vec(), compression.is_some()))
}

/// Parses the file again and calls `elf::ElfBytes::symbol_table`: the name
/// offset and the value of every entry that the table yields, in the table's
/// order. Believed: the outcome is what `elf_symbols` names.
#[verifier::external_body]
pub(crate) fn parse_symbols(bytes: &[u8]) -> (r: Result<Option<Vec<SymbolEntry>>, ParseError>)
    ensures
        r is Ok == elf_symbols(bytes@) is Some,
        r matches Ok(t) ==> match t {
            Some(v) => elf_symbols(bytes@) == Some(Some(v@)),
            None => elf_symbols(bytes@) == Some(None::<Seq<SymbolEntry>>),
        },
{
    let file = ElfBytes::<AnyEndian>::minimal_parse(bytes)?;
    Ok(
        file.symbol_table()?.map(
            |(symbols, _)|
                symbols.iter().map(
                    |s| SymbolEntry { st_name: s.st_name, st_value: s.st_value },
                ).collect(),
        ),
    )
}

/// Parses the file again, calls `elf::ElfBytes::symbol_table`, and calls
/// `elf::string_table::StringTable::get` on the string table that comes with
/// it: the name at offset `st_name`, as bytes. Nothing where a call fails or
/// the file has no symbol table. Believed: the outcome is what
/// `elf_symbol_name` names.
#[verifier::external_body]
pub(crate) fn parse_symbol_name(bytes: &[u8], st_name: u32) -> (r: Option<Vec<u8>>)
    ensures
        r is Some == elf_symbol_name(bytes@, st_name) is Some,
        r matches Some(n) ==> elf_symbol_name(bytes@, st_name) == Some(n@),
{
    let file = ElfBytes::<AnyEndian>::minimal_parse(bytes).ok()?;
    let (_, strings) = file.symbol_table().ok()??;
    Some(strings.get(st_name as usize).ok()?.as_bytes().to_vec())
}

} // verus!
