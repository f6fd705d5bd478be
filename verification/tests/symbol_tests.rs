use disasm::symbol::{
    parse_symbol_source, Symbol, SymbolLang, SymbolSource, SymbolType,
};

#[test]
fn new_demangles_rust_names() {
    let sym = Symbol::new(
        "_ZN3std2io5stdio6_print17h1234567890abcdefE".to_string(),
        0x1000,
        0x400,
        32,
        SymbolType::Function,
        SymbolSource::Elf,
        SymbolLang::Unknown,
    );
    assert_eq!(sym.name(), "std::io::stdio::_print");
    assert_eq!(sym.lang(), SymbolLang::Rust);
}

#[test]
fn new_demangles_cpp_names() {
    let sym = Symbol::new(
        "_ZN9wikipedia7article6formatEv".to_string(),
        0x2000,
        0x800,
        16,
        SymbolType::Function,
        SymbolSource::Elf,
        SymbolLang::Unknown,
    );
    assert_eq!(sym.name(), "wikipedia::article::format()");
    assert_eq!(sym.lang(), SymbolLang::Cpp);
}

#[test]
fn new_keeps_undemanglable_names_verbatim() {
    let sym = Symbol::new(
        "plain_function".to_string(),
        0x3000,
        0xc00,
        8,
        SymbolType::Function,
        SymbolSource::Pe,
        SymbolLang::Unknown,
    );
    assert_eq!(sym.name(), "plain_function");
    assert_eq!(sym.lang(), SymbolLang::Unknown);
}

#[test]
fn derived_fields_follow_the_ranges() {
    let sym = Symbol::new_unmangled("f".to_string(), 0x1000, 0x400, 0x20, SymbolSource::Mach);
    assert_eq!(sym.address(), 0x1000);
    assert_eq!(sym.end_address(), 0x1020);
    assert_eq!(sym.address_range(), (0x1000, 0x1020));
    assert_eq!(sym.offset(), 0x400);
    assert_eq!(sym.end(), 0x420);
    assert_eq!(sym.size(), 0x20);
    assert_eq!(sym.source(), SymbolSource::Mach);
    assert_eq!(sym.type_(), SymbolType::Function);
    assert!(sym.contains_address(0x101f));
    assert!(!sym.contains_address(0x1020));
}

#[test]
fn priorities_rank_debug_sources_first() {
    assert_eq!(SymbolSource::Dwarf.priority(), 1);
    assert_eq!(SymbolSource::Pdb.priority(), 1);
    assert_eq!(SymbolSource::Elf.priority(), 2);
    assert_eq!(SymbolSource::Mach.priority(), 2);
    assert_eq!(SymbolSource::Pe.priority(), 2);
    assert_eq!(SymbolSource::Archive.priority(), 2);
}

#[test]
fn source_names_round_trip() {
    for (s, name) in [
        (SymbolSource::Elf, "elf"),
        (SymbolSource::Mach, "mach"),
        (SymbolSource::Pe, "pe"),
        (SymbolSource::Archive, "archive"),
        (SymbolSource::Dwarf, "dwarf"),
        (SymbolSource::Pdb, "pdb"),
    ] {
        assert_eq!(s.as_str(), name);
        assert_eq!(parse_symbol_source(name), Some(s));
    }
}

#[test]
fn source_parsing_ignores_case_and_rejects_junk() {
    assert_eq!(parse_symbol_source("ELF"), Some(SymbolSource::Elf));
    assert_eq!(parse_symbol_source("DwArF"), Some(SymbolSource::Dwarf));
    assert_eq!(parse_symbol_source("coff"), None);
    assert_eq!(parse_symbol_source(""), None);
}
