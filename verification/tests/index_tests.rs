use disasm::binary::data::{BinaryData, SeekFrom};
use disasm::binary::sections::{addr_to_offset, Section};
use disasm::binary::sizes::{dedup_sorted, infer_sizes, next_greater, sort_addresses};
use disasm::binary::{Arch, Binary, Bits, Endian};
use disasm::index::{find_covering, fuzzy_find_in, sort_symbols};
use disasm::symbol::{Symbol, SymbolSource};

fn anon_data(bytes: &[u8]) -> BinaryData {
    let len = if bytes.is_empty() { 1 } else { bytes.len() };
    let mut m = memmap::MmapMut::map_anon(len).unwrap();
    m[..bytes.len()].copy_from_slice(bytes);
    BinaryData::from_mmap(m.make_read_only().unwrap(), "mem".to_string())
}

fn sym(name: &str, addr: u64, bpos: usize, blen: usize, source: SymbolSource) -> Symbol {
    Symbol::new_unmangled(name.to_string(), addr, bpos, blen, source)
}

fn test_binary(symbols: Vec<Symbol>) -> Binary {
    let mut symbols = symbols;
    sort_symbols(&mut symbols);
    Binary {
        data: anon_data(&[0u8; 64]),
        arch: Arch::X86_64,
        endian: Endian::Little,
        bits: Bits::Bits64,
        sections: Vec::new(),
        symbols,
    }
}

#[test]
fn sort_orders_by_address_end_and_priority() {
    let mut v = vec![
        sym("b", 0x2000, 0, 0x10, SymbolSource::Elf),
        sym("a", 0x1000, 0, 0x20, SymbolSource::Elf),
        sym("a_dwarf", 0x1000, 0, 0x20, SymbolSource::Dwarf),
        sym("a_short", 0x1000, 0, 0x10, SymbolSource::Elf),
    ];
    sort_symbols(&mut v);
    let order: Vec<(&str, u64)> = v.iter().map(|s| (s.name(), s.address())).collect();
    // address first, then end address, then debug sources before object
    // tables within one range
    assert_eq!(
        order,
        vec![
            ("a_short", 0x1000),
            ("a_dwarf", 0x1000),
            ("a", 0x1000),
            ("b", 0x2000)
        ]
    );
}

#[test]
fn symbolicate_prefers_debug_sources_over_duplicates() {
    let b = test_binary(vec![
        sym("from_elf", 0x1000, 0, 0x20, SymbolSource::Elf),
        sym("from_dwarf", 0x1000, 0, 0x20, SymbolSource::Dwarf),
        sym("next", 0x1020, 0x20, 0x10, SymbolSource::Elf),
    ]);
    let (hit, off) = b.symbolicate(0x1008).unwrap();
    assert_eq!(hit.name(), "from_dwarf");
    assert_eq!(hit.source(), SymbolSource::Dwarf);
    assert_eq!(off, 8);
    assert!(b.symbolicate(0x0fff).is_none());
    assert!(b.symbolicate(0x1030).is_none());
}

#[test]
fn find_covering_returns_first_of_duplicate_run() {
    let mut v = vec![
        sym("obj", 0x1000, 0, 0x20, SymbolSource::Elf),
        sym("dbg", 0x1000, 0, 0x20, SymbolSource::Dwarf),
    ];
    sort_symbols(&mut v);
    let i = find_covering(&v, 0x1000).unwrap();
    assert_eq!(v[i].name(), "dbg");
}

#[test]
fn fuzzy_find_matches_subsequences() {
    let b = test_binary(vec![
        sym("std::io::print", 0x40a0, 0x10a0, 0x30, SymbolSource::Elf),
        sym("pow::my_pow", 0x1000, 0x1000, 0x20, SymbolSource::Elf),
    ]);
    // the short query is a subsequence of the qualified name
    let hit = b.fuzzy_find_symbol("my_pow").unwrap();
    assert_eq!(hit.name(), "pow::my_pow");
    let exact = b.fuzzy_find_symbol("pow::my_pow").unwrap();
    assert_eq!(exact.name(), "pow::my_pow");
    assert!(b.fuzzy_find_symbol("nothing_like_this").is_none());
}

#[test]
fn fuzzy_find_prefers_smaller_distance() {
    let i = fuzzy_find_in(
        &{
            let mut v = vec![
                sym("deep::nested::target", 0x2000, 0, 0x10, SymbolSource::Elf),
                sym("target", 0x1000, 0, 0x10, SymbolSource::Elf),
            ];
            sort_symbols(&mut v);
            v
        },
        "target",
    )
    .unwrap();
    // index 0 after sorting is the 0x1000 symbol, an exact match
    assert_eq!(i, 0);
}

#[test]
fn addr_to_offset_follows_the_section_table() {
    let sections = vec![
        Section { name: ".text".to_string(), addr: 0x1000, size: 0x100, offset: 0x400 },
        Section { name: ".data".to_string(), addr: 0x2000, size: 0x80, offset: 0x600 },
    ];
    assert_eq!(addr_to_offset(&sections, 0x1000), Some(0x400));
    assert_eq!(addr_to_offset(&sections, 0x1034), Some(0x434));
    assert_eq!(addr_to_offset(&sections, 0x2010), Some(0x610));
    assert_eq!(addr_to_offset(&sections, 0x0fff), None);
    assert_eq!(addr_to_offset(&sections, 0x1100), None);
    assert_eq!(addr_to_offset(&sections, 0x2080), None);
}

#[test]
fn binary_data_slice_exposes_exact_subranges() {
    // slice(a..b).as_bytes() equals original.as_bytes()[a..b]
    let data = anon_data(&[10, 11, 12, 13, 14, 15, 16, 17]);
    let all = data.as_bytes().to_vec();
    for a in 0..=8usize {
        for b in a..=8usize {
            let s = data.slice(a, b);
            assert_eq!(s.as_bytes(), &all[a..b]);
        }
    }
    // out-of-range bounds clamp to the view
    let clamped = data.slice(6, 100);
    assert_eq!(clamped.as_bytes(), &all[6..8]);
    // a sub-slice of a sub-slice clamps against its parent
    let inner = data.slice(2, 6).slice(1, 100);
    assert_eq!(inner.as_bytes(), &all[3..6]);
}

#[test]
fn binary_data_read_and_seek() {
    let mut data = anon_data(&[1, 2, 3, 4, 5]);
    let mut buf = vec![0u8; 3];
    assert_eq!(data.read(&mut buf), 3);
    assert_eq!(buf, vec![1, 2, 3]);
    assert_eq!(data.read(&mut buf), 2);
    assert_eq!(&buf[..2], &[4, 5]);
    assert_eq!(data.read(&mut buf), 0);
    assert_eq!(data.seek(SeekFrom::Start(1)), 1);
    let mut one = vec![0u8; 1];
    assert_eq!(data.read(&mut one), 1);
    assert_eq!(one, vec![2]);
    // out-of-range seeks clamp to the view's end
    assert_eq!(data.seek(SeekFrom::Start(99)), 5);
    assert_eq!(data.seek(SeekFrom::End(-2)), 3);
    assert_eq!(data.seek(SeekFrom::Current(-1)), 2);
}

#[test]
fn size_inference_uses_next_recorded_address() {
    // Mach-O and PE symbol tables carry no sizes: each retained symbol
    // gets the distance to the next recorded address, and symbols with
    // no successor are dropped
    let mut addrs = vec![0x1020, 0x1000, 0x1050, 0x1020];
    sort_addresses(&mut addrs);
    let addrs = dedup_sorted(&addrs);
    assert_eq!(addrs, vec![0x1000, 0x1020, 0x1050]);
    assert_eq!(next_greater(&addrs, 0x1000), Some(0x1020));
    assert_eq!(next_greater(&addrs, 0x1021), Some(0x1050));
    assert_eq!(next_greater(&addrs, 0x1050), None);

    let mut symbols = vec![
        sym("first", 0x1000, 0x100, 0, SymbolSource::Mach),
        sym("second", 0x1020, 0x120, 0, SymbolSource::Mach),
        sym("last", 0x1050, 0x150, 0, SymbolSource::Mach),
    ];
    infer_sizes(&mut symbols, 0, &addrs);
    let got: Vec<(&str, usize)> = symbols.iter().map(|s| (s.name(), s.size())).collect();
    assert_eq!(got, vec![("first", 0x20), ("second", 0x30)]);
    for s in &symbols {
        assert!(s.size() > 0);
    }
}
