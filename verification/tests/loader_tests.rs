use disasm::binary::data::BinaryData;
use disasm::binary::sections::addr_to_offset;
use disasm::binary::{detect_format, Arch, Binary, Bits, Endian, ObjectFormat, SearchOptions};
use disasm::symbol::SymbolSource;

fn put_u16(buf: &mut [u8], at: usize, v: u16) {
    buf[at..at + 2].copy_from_slice(&v.to_le_bytes());
}

fn put_u32(buf: &mut [u8], at: usize, v: u32) {
    buf[at..at + 4].copy_from_slice(&v.to_le_bytes());
}

fn put_u64(buf: &mut [u8], at: usize, v: u64) {
    buf[at..at + 8].copy_from_slice(&v.to_le_bytes());
}

fn section_header(
    buf: &mut [u8],
    at: usize,
    name: u32,
    typ: u32,
    flags: u64,
    addr: u64,
    offset: u64,
    size: u64,
    link: u32,
    info: u32,
    align: u64,
    entsize: u64,
) {
    put_u32(buf, at, name);
    put_u32(buf, at + 4, typ);
    put_u64(buf, at + 8, flags);
    put_u64(buf, at + 16, addr);
    put_u64(buf, at + 24, offset);
    put_u64(buf, at + 32, size);
    put_u32(buf, at + 40, link);
    put_u32(buf, at + 44, info);
    put_u64(buf, at + 48, align);
    put_u64(buf, at + 56, entsize);
}

/// A minimal 64-bit little-endian x86-64 ELF executable with one global
/// function symbol `my_pow` at virtual address 0x1000, 32 bytes long,
/// backed by file offset 0x40.
fn tiny_elf() -> Vec<u8> {
    let mut b = vec![0u8; 0xc0 + 5 * 64];
    // identification
    b[0..4].copy_from_slice(&[0x7f, 0x45, 0x4c, 0x46]);
    b[4] = 2; // 64-bit
    b[5] = 1; // little-endian
    b[6] = 1; // version
    put_u16(&mut b, 16, 2); // executable
    put_u16(&mut b, 18, 62); // x86-64
    put_u32(&mut b, 20, 1); // version
    put_u64(&mut b, 24, 0x1000); // entry
    put_u64(&mut b, 40, 0xc0); // section header table offset
    put_u16(&mut b, 52, 64); // ELF header size
    put_u16(&mut b, 58, 64); // section header size
    put_u16(&mut b, 60, 5); // section count
    put_u16(&mut b, 62, 4); // section name table index

    // .text bytes live at 0x40 (left as zeros)

    // .symtab at 0x60: a null entry and the my_pow function
    let sym = 0x60 + 24;
    put_u32(&mut b, sym, 1); // name offset in .strtab
    b[sym + 4] = 0x12; // global function
    put_u16(&mut b, sym + 6, 1); // section index: .text
    put_u64(&mut b, sym + 8, 0x1000); // value
    put_u64(&mut b, sym + 16, 0x20); // size

    // .strtab at 0x90: "\0my_pow\0"
    b[0x91..0x97].copy_from_slice(b"my_pow");

    // .shstrtab at 0x98: "\0.text\0.symtab\0.strtab\0.shstrtab\0"
    let names = b"\0.text\0.symtab\0.strtab\0.shstrtab\0";
    b[0x98..0x98 + names.len()].copy_from_slice(names);

    // section headers at 0xc0
    section_header(&mut b, 0xc0 + 64, 1, 1, 6, 0x1000, 0x40, 0x20, 0, 0, 16, 0); // .text
    section_header(&mut b, 0xc0 + 128, 7, 2, 0, 0, 0x60, 48, 3, 1, 8, 24); // .symtab
    section_header(&mut b, 0xc0 + 192, 15, 3, 0, 0, 0x90, 8, 0, 0, 1, 0); // .strtab
    section_header(&mut b, 0xc0 + 256, 23, 3, 0, 0, 0x98, names.len() as u64, 0, 0, 1, 0); // .shstrtab
    b
}

/// The tiny ELF with one extra `.debug_line` section of eight zero
/// bytes at file offset 0x300; the name table moves to 0x250 to make
/// room for the sixth header.
fn tiny_elf_with_debug() -> Vec<u8> {
    let mut b = tiny_elf();
    b.resize(0x308, 0);
    put_u16(&mut b, 60, 6); // six section headers
    let names = b"\0.text\0.symtab\0.strtab\0.shstrtab\0.debug_line\0";
    b[0x250..0x250 + names.len()].copy_from_slice(names);
    put_u64(&mut b, 0xc0 + 256 + 24, 0x250); // .shstrtab file offset
    put_u64(&mut b, 0xc0 + 256 + 32, names.len() as u64); // .shstrtab size
    section_header(&mut b, 0xc0 + 320, 33, 1, 0, 0, 0x300, 8, 0, 0, 1, 0); // .debug_line
    b
}

fn search(sources: Vec<SymbolSource>) -> SearchOptions {
    SearchOptions { sources, dwarf_path: None, dsym_path: None, pdb_path: None }
}

fn data_of(bytes: &[u8]) -> BinaryData {
    let mut m = memmap::MmapMut::map_anon(bytes.len().max(1)).unwrap();
    m[..bytes.len()].copy_from_slice(bytes);
    BinaryData::from_mmap(m.make_read_only().unwrap(), "mem".to_string())
}

fn put_name(buf: &mut [u8], at: usize, name: &str) {
    buf[at..at + name.len()].copy_from_slice(name.as_bytes());
}

/// A minimal thin 64-bit little-endian x86-64 Mach-O executable with a
/// `__TEXT,__text` section at address 0x1000 and three debug-map (stab)
/// function entries: `_alpha` at 0x1000, `_omega` at 0x1020, and an
/// unnamed terminator at 0x1040. The symbol table records no sizes.
fn tiny_macho() -> Vec<u8> {
    let mut b = vec![0u8; 0x14f];
    // mach_header_64
    put_u32(&mut b, 0, 0xfeedfacf); // magic
    put_u32(&mut b, 4, 0x0100_0007); // cputype: x86-64
    put_u32(&mut b, 8, 3); // cpusubtype
    put_u32(&mut b, 12, 2); // filetype: execute
    put_u32(&mut b, 16, 2); // load commands
    put_u32(&mut b, 20, 176); // size of load commands

    // LC_SEGMENT_64 for __TEXT with one section
    let seg = 0x20;
    put_u32(&mut b, seg, 0x19);
    put_u32(&mut b, seg + 4, 152);
    put_name(&mut b, seg + 8, "__TEXT");
    put_u64(&mut b, seg + 24, 0x1000); // vmaddr
    put_u64(&mut b, seg + 32, 0x100); // vmsize
    put_u64(&mut b, seg + 40, 0xd0); // fileoff
    put_u64(&mut b, seg + 48, 0x40); // filesize
    put_u32(&mut b, seg + 56, 7); // maxprot
    put_u32(&mut b, seg + 60, 5); // initprot
    put_u32(&mut b, seg + 64, 1); // one section
    let sec = seg + 72;
    put_name(&mut b, sec, "__text");
    put_name(&mut b, sec + 16, "__TEXT");
    put_u64(&mut b, sec + 32, 0x1000); // addr
    put_u64(&mut b, sec + 40, 0x40); // size
    put_u32(&mut b, sec + 48, 0xd0); // offset
    put_u32(&mut b, sec + 52, 4); // align
    put_u32(&mut b, sec + 60, 0); // relocations
    put_u32(&mut b, sec + 64, 0x8000_0400); // flags

    // LC_SYMTAB
    let st = 0xb8;
    put_u32(&mut b, st, 0x2);
    put_u32(&mut b, st + 4, 24);
    put_u32(&mut b, st + 8, 0x110); // symbol table offset
    put_u32(&mut b, st + 12, 3); // symbol count
    put_u32(&mut b, st + 16, 0x140); // string table offset
    put_u32(&mut b, st + 20, 15); // string table size

    // nlist_64 entries: N_FUN stabs without sizes
    let mut nl = 0x110;
    for (strx, value) in [(1u32, 0x1000u64), (8, 0x1020), (0, 0x1040)] {
        put_u32(&mut b, nl, strx);
        b[nl + 4] = 0x24; // N_FUN
        b[nl + 5] = 1; // section
        put_u64(&mut b, nl + 8, value);
        nl += 16;
    }

    // string table: "\0_alpha\0_omega\0"
    put_name(&mut b, 0x141, "_alpha");
    put_name(&mut b, 0x148, "_omega");
    b
}

/// A minimal 64-bit PE image with one `.text` section and two external
/// COFF symbol records: the function `my_func` at section offset 0x10
/// and the plain symbol `stop` at 0x40. The table records no sizes.
fn tiny_pe() -> Vec<u8> {
    let mut b = vec![0u8; 0x428];
    // DOS header
    b[0] = b'M';
    b[1] = b'Z';
    put_u32(&mut b, 0x3c, 0x80); // PE header offset
    b[0x80..0x84].copy_from_slice(b"PE\0\0");
    // COFF header
    put_u16(&mut b, 0x84, 0x8664); // machine: x86-64
    put_u16(&mut b, 0x86, 1); // one section
    put_u32(&mut b, 0x8c, 0x400); // symbol table offset
    put_u32(&mut b, 0x90, 2); // symbol count
    put_u16(&mut b, 0x94, 240); // optional header size
    put_u16(&mut b, 0x96, 0x0022); // executable image
    // optional header, PE32+
    let oh = 0x98;
    put_u16(&mut b, oh, 0x20b); // magic
    put_u32(&mut b, oh + 4, 0x200); // size of code
    put_u32(&mut b, oh + 16, 0x1000); // entry point
    put_u32(&mut b, oh + 20, 0x1000); // base of code
    put_u64(&mut b, oh + 24, 0x1_4000_0000); // image base
    put_u32(&mut b, oh + 32, 0x1000); // section alignment
    put_u32(&mut b, oh + 36, 0x200); // file alignment
    put_u16(&mut b, oh + 40, 6); // os version
    put_u16(&mut b, oh + 48, 6); // subsystem version
    put_u32(&mut b, oh + 56, 0x2000); // size of image
    put_u32(&mut b, oh + 60, 0x200); // size of headers
    put_u16(&mut b, oh + 68, 3); // subsystem: console
    put_u64(&mut b, oh + 72, 0x100000); // stack reserve
    put_u64(&mut b, oh + 80, 0x1000); // stack commit
    put_u64(&mut b, oh + 88, 0x100000); // heap reserve
    put_u64(&mut b, oh + 96, 0x1000); // heap commit
    put_u32(&mut b, oh + 108, 16); // data directories
    // the .text section header
    let sh = oh + 240;
    put_name(&mut b, sh, ".text");
    put_u32(&mut b, sh + 8, 0x100); // virtual size
    put_u32(&mut b, sh + 12, 0x1000); // virtual address
    put_u32(&mut b, sh + 16, 0x200); // raw size
    put_u32(&mut b, sh + 20, 0x200); // raw pointer
    put_u32(&mut b, sh + 36, 0x6000_0020); // code, execute, read
    // COFF symbols: an external function and an external label
    let sym = 0x400;
    put_name(&mut b, sym, "my_func");
    put_u32(&mut b, sym + 8, 0x10); // value
    put_u16(&mut b, sym + 12, 1); // section number
    put_u16(&mut b, sym + 14, 0x20); // type: function
    b[sym + 16] = 2; // storage class: external
    let sym2 = sym + 18;
    put_name(&mut b, sym2, "stop");
    put_u32(&mut b, sym2 + 8, 0x40);
    put_u16(&mut b, sym2 + 12, 1);
    b[sym2 + 16] = 2;
    // an empty string table right after the symbols
    put_u32(&mut b, 0x424, 4);
    b
}

#[test]
fn loading_a_tiny_pe_sizes_symbols_from_recorded_addresses() {
    // the COFF table records no sizes: the emitted function gets the
    // distance to the next recorded address
    let data = data_of(&tiny_pe());
    let binary = Binary::new(data, &search(vec![SymbolSource::Pe])).unwrap();
    assert_eq!(binary.arch(), Arch::X86_64);
    assert_eq!(binary.bits(), Bits::Bits64);
    assert_eq!(binary.endian(), Endian::Little);

    assert_eq!(binary.symbols.len(), 1);
    let sym = &binary.symbols[0];
    assert_eq!(sym.name(), "my_func");
    assert_eq!(sym.address(), 0x1_4000_1010);
    assert_eq!(sym.size(), 0x30);
    assert_eq!(sym.offset(), 0x210);
    assert_eq!(sym.source(), SymbolSource::Pe);
    // the section table maps image addresses back to file offsets
    assert_eq!(addr_to_offset(&binary.sections, 0x1_4000_1000), Some(0x200));
}

#[test]
fn debug_section_ranges_find_exactly_the_debug_sections() {
    assert!(disasm::binary::elf::debug_section_ranges(&tiny_elf()).is_empty());
    let b = tiny_elf_with_debug();
    let got = disasm::binary::elf::debug_section_ranges(&b);
    assert_eq!(got, vec![(".debug_line".to_string(), 0x300, 0x308)]);
}

#[test]
fn magic_detection_recognizes_the_formats() {
    assert_eq!(detect_format(&tiny_elf()), ObjectFormat::Elf);
    assert_eq!(detect_format(&[0xfe, 0xed, 0xfa, 0xcf]), ObjectFormat::MachThin);
    assert_eq!(detect_format(&[0xcf, 0xfa, 0xed, 0xfe]), ObjectFormat::MachThin);
    assert_eq!(detect_format(&[0xca, 0xfe, 0xba, 0xbe]), ObjectFormat::MachFat);
    assert_eq!(detect_format(b"MZ\x90\x00"), ObjectFormat::Pe);
    assert_eq!(detect_format(b"!<arch>\n"), ObjectFormat::Archive);
    assert_eq!(detect_format(&[0, 1, 2, 3]), ObjectFormat::Unknown);
}

#[test]
fn loading_a_tiny_elf_finds_the_function_symbol() {
    let data = data_of(&tiny_elf());
    let binary =
        Binary::new(data, &search(vec![SymbolSource::Elf])).unwrap();
    assert_eq!(binary.arch(), Arch::X86_64);
    assert_eq!(binary.bits(), Bits::Bits64);
    assert_eq!(binary.endian(), Endian::Little);

    // the emitted symbol's offset agrees with the address-to-offset map
    assert_eq!(binary.symbols.len(), 1);
    let sym = &binary.symbols[0];
    assert_eq!(sym.name(), "my_pow");
    assert_eq!(sym.address(), 0x1000);
    assert_eq!(sym.size(), 0x20);
    assert_eq!(sym.offset(), 0x40);
    assert_eq!(sym.source(), SymbolSource::Elf);
    assert_eq!(addr_to_offset(&binary.sections, 0x1000), Some(0x40));

    // lookups work against the real index
    let hit = binary.fuzzy_find_symbol("my_pow").unwrap();
    assert_eq!(hit.address(), 0x1000);
    let (cov, off) = binary.symbolicate(0x1010).unwrap();
    assert_eq!(cov.name(), "my_pow");
    assert_eq!(off, 0x10);
}

#[test]
fn loading_a_thin_macho_infers_symbol_sizes() {
    // the Mach symbol table records no sizes: each retained symbol gets
    // the distance to the next recorded address, and the entry with no
    // successor drops out
    let data = data_of(&tiny_macho());
    let binary =
        Binary::new(data, &search(vec![SymbolSource::Mach])).unwrap();
    assert_eq!(binary.arch(), Arch::X86_64);
    assert_eq!(binary.bits(), Bits::Bits64);
    assert_eq!(binary.endian(), Endian::Little);

    let got: Vec<(&str, u64, usize, usize)> = binary
        .symbols
        .iter()
        .map(|s| (s.name(), s.address(), s.size(), s.offset()))
        .collect();
    assert_eq!(
        got,
        vec![("_alpha", 0x1000, 0x20, 0xd0), ("_omega", 0x1020, 0x20, 0xf0)]
    );
    for s in &binary.symbols {
        assert!(s.size() > 0);
    }
}

#[test]
fn selecting_only_debug_sources_skips_the_object_table() {
    let data = data_of(&tiny_elf());
    let binary =
        Binary::new(data, &search(vec![SymbolSource::Dwarf])).unwrap();
    assert!(binary.symbols.is_empty());
}

#[test]
fn auto_falls_back_to_the_object_table() {
    // under `auto` the object table is a fall-back: nothing loads until
    // debug information had its chance and yielded too little
    let data = data_of(&tiny_elf());
    let mut binary = Binary::new(data, &search(Vec::new())).unwrap();
    assert!(binary.symbols.is_empty());
    binary.load_object_symbols();
    assert_eq!(binary.symbols.len(), 1);
    assert_eq!(binary.symbols[0].name(), "my_pow");
}

#[test]
fn unknown_magic_and_archives_are_fatal() {
    assert!(Binary::new(data_of(&[0, 1, 2, 3]), &search(Vec::new())).is_err());
    assert!(
        Binary::new(data_of(b"!<arch>\nrest"), &search(Vec::new())).is_err()
    );
    // a good magic with a truncated header is a parse failure
    assert!(
        Binary::new(data_of(&[0x7f, 0x45, 0x4c, 0x46]), &search(Vec::new()))
            .is_err()
    );
}
