use disasm::binary::sections::Section;
use disasm::dwarf::{
    build_sequences, load_symbols_from_unit, DieKind, DieRecord, DwarfInfo, LineRow, Lines,
    NameChain,
};
use disasm::symbol::SymbolSource;

fn die(
    depth: i64,
    kind: DieKind,
    name: Option<&str>,
    linkage: Option<&str>,
    low: Option<u64>,
    high: Option<u64>,
    high_is_offset: bool,
) -> DieRecord {
    DieRecord {
        depth,
        kind,
        name: name.map(|s| s.to_string()),
        linkage_name: linkage.map(|s| s.to_string()),
        low_pc: low,
        high_pc: high,
        high_pc_is_offset: high_is_offset,
    }
}

fn text_section() -> Vec<Section> {
    vec![Section { name: ".text".to_string(), addr: 0x1000, size: 0x1000, offset: 0x400 }]
}

#[test]
fn name_chain_pops_on_shallower_depths() {
    let mut chain = NameChain::new();
    chain.set_depth(1);
    chain.push("outer".to_string());
    chain.set_depth(2);
    chain.push("inner".to_string());
    assert_eq!(chain.combine("::"), "outer::inner");
    // a sibling at the same depth replaces the last entry
    chain.set_depth(2);
    assert_eq!(chain.combine("::"), "outer");
    chain.push("other".to_string());
    assert_eq!(chain.combine("::"), "outer::other");
    // stepping out pops everything at or below the new depth
    chain.set_depth(1);
    assert_eq!(chain.combine("::"), "");
}

#[test]
fn walk_qualifies_plain_names_with_containers() {
    let events = vec![
        die(1, DieKind::Container, Some("pow"), None, None, None, false),
        die(2, DieKind::Subprogram, Some("my_pow"), None, Some(0x1000), Some(0x20), true),
    ];
    let mut out = Vec::new();
    load_symbols_from_unit(&events, &text_section(), &mut out);
    assert_eq!(out.len(), 1);
    assert_eq!(out[0].name(), "pow::my_pow");
    assert_eq!(out[0].address(), 0x1000);
    assert_eq!(out[0].size(), 0x20);
    // the file offset follows the section table
    assert_eq!(out[0].offset(), 0x400);
    assert_eq!(out[0].source(), SymbolSource::Dwarf);
}

#[test]
fn walk_prefers_linkage_names_and_demangles_them() {
    let events = vec![die(
        1,
        DieKind::Subprogram,
        Some("print"),
        Some("_ZN3std2io5print17h1234567890abcdefE"),
        Some(0x1100),
        Some(0x1120),
        false,
    )];
    let mut out = Vec::new();
    load_symbols_from_unit(&events, &text_section(), &mut out);
    assert_eq!(out.len(), 1);
    assert_eq!(out[0].name(), "std::io::print");
}

#[test]
fn walk_drops_subprograms_without_addresses() {
    let events = vec![
        die(1, DieKind::Subprogram, Some("declared_only"), None, None, None, false),
        die(1, DieKind::Subprogram, Some("no_end"), None, Some(0x1000), None, false),
        die(1, DieKind::Subprogram, Some("empty"), None, Some(0x1000), Some(0x1000), false),
        die(1, DieKind::Subprogram, Some("unmapped"), None, Some(0x9000), Some(0x9010), false),
    ];
    let mut out = Vec::new();
    load_symbols_from_unit(&events, &text_section(), &mut out);
    assert!(out.is_empty());
}

#[test]
fn sibling_containers_do_not_leak_into_each_other() {
    let events = vec![
        die(1, DieKind::Container, Some("alpha"), None, None, None, false),
        die(2, DieKind::Subprogram, Some("f"), None, Some(0x1000), Some(0x10), true),
        die(1, DieKind::Container, Some("beta"), None, None, None, false),
        die(2, DieKind::Subprogram, Some("g"), None, Some(0x1010), Some(0x10), true),
    ];
    let mut out = Vec::new();
    load_symbols_from_unit(&events, &text_section(), &mut out);
    let names: Vec<&str> = out.iter().map(|s| s.name()).collect();
    assert_eq!(names, vec!["alpha::f", "beta::g"]);
}

fn row(address: u64, file: usize, line: u32, end_sequence: bool) -> LineRow {
    LineRow { address, file, line, end_sequence }
}

#[test]
fn line_rows_fold_into_sequences() {
    let rows = vec![
        row(0x1000, 1, 10, false),
        row(0x1004, 1, 11, false),
        // two rows at one address: the last wins
        row(0x1004, 1, 12, false),
        row(0x1008, 2, 3, false),
        row(0x100c, 0, 0, true),
        // a run starting at address zero is an artifact
        row(0x0, 1, 1, false),
        row(0x4, 0, 0, true),
    ];
    let seqs = build_sequences(&rows);
    assert_eq!(seqs.len(), 1);
    assert_eq!(seqs[0].start, 0x1000);
    assert_eq!(seqs[0].end, 0x100c);
    assert_eq!(seqs[0].rows, vec![(0x1000, 1, 10), (0x1004, 1, 12), (0x1008, 2, 3)]);
}

#[test]
fn line_cache_hands_out_exact_lines() {
    let text = b"alpha\nbeta\n\nlast";
    let mut m = memmap::MmapMut::map_anon(text.len()).unwrap();
    m[..].copy_from_slice(text);
    let data = disasm::binary::data::BinaryData::from_mmap(
        m.make_read_only().unwrap(),
        "mem".to_string(),
    );
    let mut cache = disasm::source::LineCache::new(data).unwrap();
    assert_eq!(cache.line(1).as_deref(), Some(b"alpha".as_slice()));
    assert_eq!(cache.line(2).as_deref(), Some(b"beta".as_slice()));
    assert_eq!(cache.line(3).as_deref(), Some(b"".as_slice()));
    // the final line has no trailing newline
    assert_eq!(cache.line(4).as_deref(), Some(b"last".as_slice()));
    assert_eq!(cache.line(0), None);
    assert_eq!(cache.line(5), None);
}

#[test]
fn addr2line_answers_from_the_owning_unit() {
    let rows = vec![
        row(0x1000, 1, 10, false),
        row(0x1004, 1, 11, false),
        row(0x1008, 0, 0, true),
    ];
    let lines = Lines {
        sequences: build_sequences(&rows),
        files: vec!["".to_string(), "pow.rs".to_string()],
    };
    let info = DwarfInfo { unit_ranges: vec![(0x1000, 0x1008, 0)], units: vec![lines] };
    assert_eq!(info.addr2line(0x1004), Some(vec![(1, 11)]));
    assert_eq!(info.addr2line(0x1002), None);
    assert_eq!(info.addr2line(0x2000), None);
}

#[test]
fn unit_ranges_record_every_sequence() {
    let rows = vec![
        row(0x1000, 1, 10, false),
        row(0x1008, 0, 0, true),
        row(0x2000, 1, 20, false),
        row(0x2010, 0, 0, true),
    ];
    let seqs = build_sequences(&rows);
    let mut out = vec![(0u64, 1u64, 7usize)];
    disasm::dwarf::record_unit_ranges(&seqs, 3, &mut out);
    // old entries stay; each sequence contributes its range and unit
    assert_eq!(out, vec![(0, 1, 7), (0x1000, 0x1008, 3), (0x2000, 0x2010, 3)]);
}
