use disasm::binary::parse_symbol_sources;
use disasm::error::Error;
use disasm::printer::{Hex, Spacing, WordWrapped, WrappedStr};
use disasm::symbol::SymbolSource;

fn parse(items: &[&str]) -> Result<(Vec<SymbolSource>, bool), Error> {
    parse_symbol_sources(&items.iter().map(|s| s.to_string()).collect())
}

#[test]
fn empty_source_list_means_auto() {
    let (sources, auto) = parse(&[]).unwrap();
    assert!(sources.is_empty());
    assert!(auto);
}

#[test]
fn auto_token_requests_automatic_selection() {
    let (sources, auto) = parse(&["auto"]).unwrap();
    assert!(sources.is_empty());
    assert!(auto);
}

#[test]
fn all_token_selects_every_source() {
    let (sources, auto) = parse(&["all"]).unwrap();
    assert_eq!(sources.len(), 6);
    assert!(!auto);
    for s in [
        SymbolSource::Elf,
        SymbolSource::Mach,
        SymbolSource::Pe,
        SymbolSource::Archive,
        SymbolSource::Dwarf,
        SymbolSource::Pdb,
    ] {
        assert!(sources.contains(&s));
    }
}

#[test]
fn groups_and_singletons_accumulate_without_duplicates() {
    let (sources, auto) = parse(&["obj", "elf", "DWARF"]).unwrap();
    assert!(!auto);
    assert!(sources.contains(&SymbolSource::Elf));
    assert!(sources.contains(&SymbolSource::Mach));
    assert!(sources.contains(&SymbolSource::Pe));
    assert!(sources.contains(&SymbolSource::Archive));
    assert!(sources.contains(&SymbolSource::Dwarf));
    assert!(!sources.contains(&SymbolSource::Pdb));
    assert_eq!(sources.len(), 5);

    let (debug, _) = parse(&["debug"]).unwrap();
    assert_eq!(debug.len(), 2);
    assert!(debug.contains(&SymbolSource::Dwarf));
    assert!(debug.contains(&SymbolSource::Pdb));
}

#[test]
fn unrecognized_tokens_are_a_configuration_error() {
    assert!(parse(&["bogus"]).is_err());
    assert!(parse(&["elf", "bogus"]).is_err());
    // tokens after a terminating `all` are never scanned
    assert!(parse(&["all", "bogus"]).is_ok());
    match parse(&["nonsense"]) {
        Err(e) => assert!(!e.message().is_empty()),
        Ok(_) => panic!("expected a configuration error"),
    }
}

#[test]
fn every_error_kind_carries_its_message() {
    let cases = [
        Error::Io("io".to_string()),
        Error::Format("format".to_string()),
        Error::Unsupported("unsupported".to_string()),
        Error::Query("query".to_string()),
        Error::Config("config".to_string()),
    ];
    let expected = ["io", "format", "unsupported", "query", "config"];
    for (e, want) in cases.iter().zip(expected) {
        assert_eq!(e.message(), want);
    }
}

#[test]
fn hex_column_renders_spaced_pairs() {
    assert_eq!(Hex(&[]).render(), "");
    assert_eq!(Hex(&[0x0f]).render(), "0f");
    assert_eq!(Hex(&[0xde, 0xad, 0x01]).render(), "de ad 01");
}

#[test]
fn spacing_renders_runs_of_spaces() {
    assert_eq!(Spacing(0).render(), "");
    assert_eq!(Spacing(3).render(), "   ");
    assert_eq!(Spacing(2).plus(4).render(), "      ");
}

#[test]
fn word_wrapping_breaks_at_token_boundaries() {
    let mut pieces: Vec<String> = Vec::new();
    let mut breaks = 0;
    let mut w = WordWrapped::new("mov dword ptr [rax], 1", 8);
    while let Some(p) = w.next_piece() {
        match p {
            WrappedStr::Str(s) => pieces.push(s),
            WrappedStr::Break => breaks += 1,
        }
    }
    // every piece of text comes back, in order
    assert_eq!(pieces.concat(), "mov dword ptr [rax], 1");
    assert!(breaks > 0);
}
