use disasm::anal::{identify_jump_target, Jump};
use disasm::binary::data::BinaryData;
use disasm::binary::{Arch, Binary, Bits, Endian};
use disasm::display::measure;
use disasm::index::sort_symbols;
use disasm::insn::{Insn, InsnGroup, OpValue};
use disasm::symbol::{Symbol, SymbolSource};
use disasm::util::hex_string;
use disasm::{disasm, Disassembly};

fn mapped_data(bytes: &[u8]) -> BinaryData {
    let len = if bytes.is_empty() { 1 } else { bytes.len() };
    let mut m = memmap::MmapMut::map_anon(len).unwrap();
    m[..bytes.len()].copy_from_slice(bytes);
    BinaryData::from_mmap(m.make_read_only().unwrap(), "mem".to_string())
}

fn symbol_at(name: &str, addr: u64, bpos: usize, blen: usize, source: SymbolSource) -> Symbol {
    Symbol::new_unmangled(name.to_string(), addr, bpos, blen, source)
}

fn insn(addr: u64, mnemonic: &str, operands: &str, len: usize) -> Insn {
    Insn {
        address: addr,
        mnemonic: mnemonic.to_string(),
        operands: operands.to_string(),
        bytes: vec![0x90; len],
        groups: Vec::new(),
        ops: Vec::new(),
    }
}

fn call_insn(addr: u64, target: i64, len: usize) -> Insn {
    Insn {
        address: addr,
        mnemonic: "call".to_string(),
        operands: format!("0x{:x}", target),
        bytes: vec![0xe8; len],
        groups: vec![InsnGroup::Call],
        ops: vec![OpValue::Imm(target)],
    }
}

/// The binary of the disassembly scenarios: `pow::my_pow` at 0x1000, 32
/// bytes, and `std::io::print` at 0x40a0.
fn pow_binary() -> Binary {
    let mut symbols = vec![
        symbol_at("pow::my_pow", 0x1000, 0x1000, 32, SymbolSource::Dwarf),
        symbol_at("std::io::print", 0x40a0, 0x40a0, 0x30, SymbolSource::Dwarf),
    ];
    sort_symbols(&mut symbols);
    Binary {
        data: mapped_data(&[0u8; 32]),
        arch: Arch::X86_64,
        endian: Endian::Little,
        bits: Bits::Bits64,
        sections: Vec::new(),
        symbols,
    }
}

fn pow_listing(binary: &Binary) -> Disassembly {
    let my_pow = binary.fuzzy_find_symbol("pow::my_pow").unwrap().clone_symbol();
    let insns = vec![
        insn(0x1000, "push", "rbp", 4),
        call_insn(0x1004, 0x1018, 4),
        insn(0x1008, "mov", "eax, 1", 8),
        call_insn(0x1010, 0x40a0, 4),
        insn(0x1014, "nop", "", 4),
        insn(0x1018, "pop", "rbp", 4),
        insn(0x101c, "ret", "", 4),
    ];
    disasm(binary, &my_pow, insns).unwrap()
}

#[test]
fn listing_spans_the_symbol() {
    let binary = pow_binary();
    let listing = pow_listing(&binary);
    let lines = listing.lines();
    assert_eq!(lines.len(), 7);
    assert_eq!(lines[0].address(), 0x1000);
    let last = &lines[lines.len() - 1];
    assert_eq!(last.address() + last.bytes().len() as u64, 0x1020);
}

#[test]
fn fuzzy_query_selects_the_same_symbol() {
    let binary = pow_binary();
    // the short query's tokens are a subsequence of the qualified name
    let by_short = binary.fuzzy_find_symbol("my_pow").unwrap();
    let by_full = binary.fuzzy_find_symbol("pow::my_pow").unwrap();
    assert_eq!(by_short.name(), "pow::my_pow");
    assert_eq!(by_full.name(), "pow::my_pow");
}

#[test]
fn internal_call_is_rewritten_and_internalized() {
    let binary = pow_binary();
    let listing = pow_listing(&binary);
    let line = &listing.lines()[1];
    assert_eq!(line.address(), 0x1004);
    assert_eq!(line.operands(), "pow::my_pow+0x18");
    assert_eq!(line.comments(), "0x1018");
    assert!(line.is_symbolicated_jump());
    match line.jump() {
        Jump::Internal(k) => {
            // the internal index points at the line whose address is the
            // original external target
            assert_eq!(listing.lines()[k].address(), 0x1018);
        }
        other => panic!("expected an internal jump, got {:?}", other),
    }
}

#[test]
fn external_call_is_symbolicated_but_stays_external() {
    let binary = pow_binary();
    let listing = pow_listing(&binary);
    let line = &listing.lines()[3];
    assert_eq!(line.address(), 0x1010);
    // the target is the start of the other symbol, so no offset is shown
    assert_eq!(line.operands(), "std::io::print");
    assert_eq!(line.comments(), "0x40a0");
    assert!(line.is_symbolicated_jump());
    assert!(matches!(line.jump(), Jump::External(0x40a0)));
}

#[test]
fn unresolved_targets_leave_the_line_alone() {
    let binary = pow_binary();
    let my_pow = binary.fuzzy_find_symbol("pow::my_pow").unwrap().clone_symbol();
    let listing = disasm(&binary, &my_pow, vec![call_insn(0x1000, 0x9999, 4)]).unwrap();
    let line = &listing.lines()[0];
    assert_eq!(line.operands(), "0x9999");
    assert_eq!(line.comments(), "");
    assert!(!line.is_symbolicated_jump());
    assert!(matches!(line.jump(), Jump::External(0x9999)));
}

#[test]
fn jump_analysis_needs_exactly_one_immediate() {
    let arch = Arch::X86_64;
    let call = call_insn(0x10, 0x20, 2);
    assert!(matches!(identify_jump_target(&call, arch), Jump::External(0x20)));

    let mut reg_call = call_insn(0x10, 0x20, 2);
    reg_call.ops = vec![OpValue::Reg(7)];
    assert!(matches!(identify_jump_target(&reg_call, arch), Jump::NoJump));

    let mut two_ops = call_insn(0x10, 0x20, 2);
    two_ops.ops = vec![OpValue::Imm(0x20), OpValue::Imm(0x30)];
    assert!(matches!(identify_jump_target(&two_ops, arch), Jump::NoJump));

    let plain = insn(0x10, "mov", "eax, 1", 2);
    assert!(matches!(identify_jump_target(&plain, arch), Jump::NoJump));

    // no operand model for this architecture: never a jump
    assert!(matches!(identify_jump_target(&call, Arch::Arm), Jump::NoJump));
}

#[test]
fn measure_reports_column_maxima() {
    let binary = pow_binary();
    let listing = pow_listing(&binary);
    let m = measure(&listing);
    assert_eq!(m.max_address, 0x101c);
    assert_eq!(m.max_address_width_hex(), 4);
    assert_eq!(m.max_mnemonic_len(), 4);
    assert_eq!(m.max_operands_len(), "pow::my_pow+0x18".len());
    assert_eq!(m.max_comments_len(), "0x1018".len());
    assert_eq!(m.max_bytes_width_hex(1), 8 * 2 + 7);
}

#[test]
fn lines_know_the_addresses_they_cover() {
    let binary = pow_binary();
    let listing = pow_listing(&binary);
    let first = &listing.lines()[0];
    assert!(first.contains_addr(0x1000));
    assert!(first.contains_addr(0x1003));
    assert!(!first.contains_addr(0x1004));
}

#[test]
fn unknown_architecture_is_fatal() {
    let mut binary = pow_binary();
    binary.arch = Arch::Unknown;
    let my_pow = binary.fuzzy_find_symbol("pow::my_pow").unwrap().clone_symbol();
    assert!(disasm(&binary, &my_pow, vec![]).is_err());
}

#[test]
fn hex_rendering_matches_the_usual_form() {
    assert_eq!(hex_string(0), "0");
    assert_eq!(hex_string(0x40a0), "40a0");
    assert_eq!(hex_string(0x18), "18");
    assert_eq!(hex_string(u64::MAX), "ffffffffffffffff");
}
