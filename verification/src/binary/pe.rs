use vstd::prelude::*;

use crate::binary::sections::{
    addr_to_offset, drop_overlaps, sec_desc_matches, sec_sorted, sec_all_wf, sections_wf,
    sort_sections, spec_addr_to_offset, spec_drop_from, spec_short_name, spec_short_name_from,
    Section,
};
use crate::binary::sizes::{dedup_sorted, infer_sizes, sort_addresses};
use crate::binary::{Arch, Bits, Endian};
use crate::symbol::{Symbol, SymbolLang, SymbolSource, SymbolType};

verus! {

#[verifier::external_type_specification]
#[verifier::external_body]
pub struct ExPE<'a>(goblin::pe::PE<'a>);

/// Whether goblin parses the image; a function of the bytes alone.
pub uninterp spec fn pe_parses(b: Seq<u8>) -> bool;

/// The header fields the loader reads from an image that parses:
/// (is_64, machine, image_base).
pub uninterp spec fn pe_header_of(b: Seq<u8>) -> (bool, u16, u64);

/// Relies on goblin::pe::PE::parse: parses a PE/COFF image; success is
/// named `pe_parses`.
#[verifier::external_body]
pub fn pe_parse(data: &[u8]) -> (r: Option<goblin::pe::PE<'_>>)
    ensures
        r is Some <==> pe_parses(data@),
{
    goblin::pe::PE::parse(data).ok()
}

/// Relies on goblin::pe::PE::parse and the public fields of
/// goblin::pe::PE: is_64, the COFF header's machine, and image_base,
/// named `pe_header_of`.
#[verifier::external_body]
fn pe_header_info(bytes: &[u8]) -> (r: Option<(bool, u16, u64)>)
    ensures
        r is Some <==> pe_parses(bytes@),
        r matches Some(h) ==> h == pe_header_of(bytes@),
{
    let pe = goblin::pe::PE::parse(bytes).ok()?;
    Some((pe.is_64, pe.header.coff_header.machine, pe.image_base))
}

/// Relies on the public fields of goblin::pe::PE: is_64, the COFF
/// header's machine, and image_base.
#[verifier::external_body]
fn pe_info(pe: &goblin::pe::PE) -> (r: (bool, u16, u64)) {
    (pe.is_64, pe.header.coff_header.machine, pe.image_base)
}

/// The raw section table of an image that parses: each entry's (name
/// bytes, virtual_address, virtual_size, size_of_raw_data,
/// pointer_to_raw_data).
pub uninterp spec fn pe_sects_of(b: Seq<u8>) -> Seq<(Seq<u8>, u32, u32, u32, u32)>;

/// Relies on goblin::pe::PE::parse and the sections field of
/// goblin::pe::PE; each section table entry's fields move into a plain
/// tuple, named `pe_sects_of`.
#[verifier::external_body]
fn pe_sections(bytes: &[u8]) -> (r: Option<Vec<([u8; 8], u32, u32, u32, u32)>>)
    ensures
        r is Some <==> pe_parses(bytes@),
        r matches Some(v) ==> v.deep_view() == pe_sects_of(bytes@),
{
    let pe = goblin::pe::PE::parse(bytes).ok()?;
    Some(
        pe.sections.iter().map(
            |s| (
                s.name,
                s.virtual_address,
                s.virtual_size,
                s.size_of_raw_data,
                s.pointer_to_raw_data,
            ),
        ).collect(),
    )
}

/// Whether the image parses and carries a readable COFF symbol table; a
/// function of the bytes alone.
pub uninterp spec fn pe_symtab_reads(b: Seq<u8>) -> bool;

/// The COFF symbol table of an image whose table reads: each record's
/// (inline name, raw name bytes, value, section_number, typ,
/// storage_class).
pub uninterp spec fn pe_syms_of(b: Seq<u8>) -> Seq<
    (Option<Seq<char>>, Seq<u8>, u32, i16, u16, u8),
>;

/// Relies on goblin::pe::PE::parse, goblin::pe::header::CoffHeader::symbols
/// and the COFF symbol iterator; each record becomes (inline name, raw
/// name bytes, value, section_number, typ, storage_class); the result
/// is named `pe_syms_of`, its availability `pe_symtab_reads`.
#[verifier::external_body]
fn pe_symbols(bytes: &[u8]) -> (r: Option<Vec<(Option<String>, [u8; 8], u32, i16, u16, u8)>>)
    ensures
        r is Some <==> pe_symtab_reads(bytes@),
        r matches Some(v) ==> v.deep_view() == pe_syms_of(bytes@),
{
    let pe = goblin::pe::PE::parse(bytes).ok()?;
    let symtab = pe.header.coff_header.symbols(bytes).ok()??;
    Some(
        symtab.iter().map(
            |(_, name, s)| (
                name.map(|n| n.to_string()),
                s.name,
                s.value,
                s.section_number,
                s.typ,
                s.storage_class,
            ),
        ).collect(),
    )
}

/// The string at an offset of the image's COFF string table, when the
/// image parses and the offset starts a string there.
pub uninterp spec fn pe_strtab_name_of(b: Seq<u8>, off: usize) -> Option<Seq<char>>;

/// Relies on goblin::pe::PE::parse, goblin::pe::header::CoffHeader::strings
/// and goblin::strtab::Strtab::get_at: resolves a long symbol name from
/// the COFF string table; the result is named `pe_strtab_name_of`.
#[verifier::external_body]
fn pe_strtab_name(bytes: &[u8], off: usize) -> (r: Option<String>)
    ensures
        r is Some <==> pe_strtab_name_of(bytes@, off) is Some,
        r matches Some(n) ==> Some(n@) == pe_strtab_name_of(bytes@, off),
{
    let pe = goblin::pe::PE::parse(bytes).ok()?;
    let strtab = pe.header.coff_header.strings(bytes).ok()??;
    strtab.get_at(off).map(|s| s.to_string())
}

/// Relies on the debug_data field of goblin::pe::PE: the filename bytes
/// of the CodeView PDB 7.0 record, when the image carries one.
#[verifier::external_body]
pub fn pe_codeview_filename(pe: &goblin::pe::PE) -> (r: Option<Vec<u8>>) {
    let dd = pe.debug_data.as_ref()?;
    dd.codeview_pdb70_debug_info.as_ref().map(|cv| cv.filename.to_vec())
}

/// Architecture, word size and byte order from the PE header; PE images
/// are little-endian. An image that does not parse reads as unknown.
pub fn load_arch_info(bytes: &[u8]) -> (r: (Arch, Bits, Endian))
    ensures
        pe_parses(bytes@) ==> {
            &&& r.0 == crate::binary::spec_arch_from_coff_machine(pe_header_of(bytes@).1)
            &&& r.1 == if pe_header_of(bytes@).0 {
                Bits::Bits64
            } else {
                Bits::Bits32
            }
            &&& r.2 == Endian::Little
        },
        !pe_parses(bytes@) ==> r == (Arch::Unknown, Bits::Unknown, Endian::Unknown),
{
    let (is_64, machine, _) = match pe_header_info(bytes) {
        Some(h) => h,
        None => {
            return (Arch::Unknown, Bits::Unknown, Endian::Unknown);
        },
    };
    let arch = Arch::from_coff_machine(machine);
    let bits = if is_64 {
        Bits::Bits64
    } else {
        Bits::Bits32
    };
    (arch, bits, Endian::Little)
}

/// The image base address of the PE.
pub fn image_base(pe: &goblin::pe::PE) -> u64 {
    let (_, _, base) = pe_info(pe);
    base
}

/// Turns a fixed-size COFF section or symbol name (a NUL-padded ASCII
/// field) into a string; bytes outside ASCII yield `None`.
pub fn short_name_string(raw: &[u8; 8]) -> (r: Option<String>)
    ensures
        match r {
            Some(n) => Some(n@) == spec_short_name(raw@),
            None => spec_short_name(raw@) is None,
        },
{
    let mut out = String::new();
    let mut i: usize = 0;
    while i < 8
        invariant
            i <= 8,
            raw@.len() == 8,
            spec_short_name(raw@) == (match spec_short_name_from(raw@, i as int) {
                Some(rest) => Some(out@ + rest),
                None => None::<Seq<char>>,
            }),
        decreases 8 - i,
    {
        let b = raw[i];
        if b == 0 {
            proof {
                assert(spec_short_name_from(raw@, i as int) == Some(Seq::<char>::empty()));
                assert(out@ + Seq::<char>::empty() =~= out@);
            }
            return Some(out);
        }
        if b >= 128 {
            proof {
                assert(spec_short_name_from(raw@, i as int) is None);
            }
            return None;
        }
        let ghost pre = out@;
        out.push(b as char);
        proof {
            assert(out@ =~= pre + seq![b as char]);
            match spec_short_name_from(raw@, i + 1) {
                Some(rest) => {
                    assert(spec_short_name_from(raw@, i as int) == Some(
                        seq![raw@[i as int] as char] + rest,
                    ));
                    assert(pre + (seq![b as char] + rest) =~= out@ + rest);
                },
                None => {
                    assert(spec_short_name_from(raw@, i as int) is None);
                },
            }
        }
        i = i + 1;
    }
    proof {
        assert(spec_short_name_from(raw@, 8) == Some(Seq::<char>::empty()));
        assert(out@ + Seq::<char>::empty() =~= out@);
    }
    Some(out)
}

/// The long-name offset encoded in a COFF symbol name field: when the
/// leading four bytes are zero, the trailing four hold a little-endian
/// offset into the string table.
pub open spec fn spec_name_offset(raw: Seq<u8>) -> Option<int> {
    if raw.len() == 8 && raw[0] == 0 && raw[1] == 0 && raw[2] == 0 && raw[3] == 0 {
        Some(raw[4] + raw[5] * 0x100 + raw[6] * 0x10000 + raw[7] * 0x1000000)
    } else {
        None
    }
}

pub fn name_offset(raw: &[u8; 8]) -> (r: Option<u32>)
    ensures
        match r {
            Some(off) => Some(off as int) == spec_name_offset(raw@),
            None => spec_name_offset(raw@) is None,
        },
{
    proof {
        assert(raw@.len() == 8);
    }
    if raw[0] == 0 && raw[1] == 0 && raw[2] == 0 && raw[3] == 0 {
        let off: u32 = (raw[4] as u32) + (raw[5] as u32) * 0x100 + (raw[6] as u32) * 0x10000 + (
        raw[7] as u32) * 0x1000000;
        Some(off)
    } else {
        None
    }
}

/// Whether a COFF symbol record defines a function: external storage
/// class, function derived type, and a real section.
pub open spec fn spec_is_function_definition(section_number: i16, typ: u16, storage_class: u8) -> bool {
    storage_class == 2 && (typ >> 4) == 2 && section_number > 0
}

pub fn is_function_definition(section_number: i16, typ: u16, storage_class: u8) -> (r: bool)
    ensures
        r == spec_is_function_definition(section_number, typ, storage_class),
{
    storage_class == 2 && (typ >> 4) == 2 && section_number > 0
}

/// The section-table entries the loader keeps, from entry `i` on, as
/// (name, address, size, offset) descriptions: the runtime address is
/// the image base plus the relative virtual address; the size is the
/// larger of virtual and raw size; an entry whose address is zero or
/// whose ranges do not fit drops out.
pub open spec fn spec_pe_kept_sections(b: Seq<u8>, i: int) -> Seq<(Seq<char>, u64, u64, u64)>
    decreases pe_sects_of(b).len() - i,
{
    if 0 <= i < pe_sects_of(b).len() {
        let e = pe_sects_of(b)[i];
        let rest = spec_pe_kept_sections(b, i + 1);
        let base = pe_header_of(b).2;
        let size = if e.2 > e.3 {
            e.2 as u64
        } else {
            e.3 as u64
        };
        if base + e.1 <= u64::MAX && (base + e.1) as u64 != 0 && base + e.1 + size <= u64::MAX
            && e.4 + size <= u64::MAX {
            seq![
                (
                    match spec_short_name(e.0) {
                        Some(n) => n,
                        None => Seq::<char>::empty(),
                    },
                    (base + e.1) as u64,
                    size,
                    e.4 as u64,
                ),
            ] + rest
        } else {
            rest
        }
    } else {
        Seq::empty()
    }
}

/// Builds the section table: each kept section table entry becomes a
/// section, the list is sorted by (address, size), and overlaps are
/// dropped. The result is exactly the overlap-drop of a sorted
/// permutation of the kept entries; an image that does not parse yields
/// an empty table.
pub fn build_section_table(bytes: &[u8]) -> (r: Vec<Section>)
    ensures
        sections_wf(r@),
        !pe_parses(bytes@) ==> r@ =~= Seq::<Section>::empty(),
        pe_parses(bytes@) ==> exists|pre: Seq<Section>, srt: Seq<Section>|
            #![trigger pre.to_multiset(), srt.to_multiset()]
            {
                &&& pre.len() == spec_pe_kept_sections(bytes@, 0).len()
                &&& (forall|j: int|
                    0 <= j < pre.len() ==> sec_desc_matches(
                        #[trigger] pre[j],
                        spec_pe_kept_sections(bytes@, 0)[j],
                    ))
                &&& srt.to_multiset() == pre.to_multiset()
                &&& sec_sorted(srt)
                &&& r@ == spec_drop_from(srt, 0, 0)
            },
{
    let raw = match pe_sections(bytes) {
        Some(v) => v,
        None => {
            let none_out: Vec<Section> = Vec::new();
            proof {
                assert(none_out@ =~= Seq::<Section>::empty());
            }
            return none_out;
        },
    };
    let base = match pe_header_info(bytes) {
        Some(h) => h.2,
        None => {
            proof {
                assert(false);
            }
            return Vec::new();
        },
    };
    let ghost b = bytes@;
    let ghost kept = spec_pe_kept_sections(b, 0);
    proof {
        assert(raw.deep_view() == pe_sects_of(b));
        assert(raw@.len() == pe_sects_of(b).len());
        assert(base == pe_header_of(b).2);
    }
    let mut out: Vec<Section> = Vec::new();
    let mut i: usize = 0;
    while i < raw.len()
        invariant
            i <= raw@.len(),
            raw.deep_view() == pe_sects_of(b),
            raw@.len() == pe_sects_of(b).len(),
            base == pe_header_of(b).2,
            kept == spec_pe_kept_sections(b, 0),
            out@.len() <= kept.len(),
            kept.skip(out@.len() as int) =~= spec_pe_kept_sections(b, i as int),
            forall|j: int|
                0 <= j < out@.len() ==> sec_desc_matches(#[trigger] out@[j], kept[j]),
            sec_all_wf(out@),
        decreases raw@.len() - i,
    {
        let ghost e = pe_sects_of(b)[i as int];
        let ghost done = out@.len() as int;
        let (raw_name, vaddr, vsize, rawsize, rawptr) = raw[i];
        proof {
            assert(e == raw@[i as int].deep_view());
            assert(e.1 == vaddr && e.2 == vsize && e.3 == rawsize && e.4 == rawptr);
            assert(e.0 =~= raw_name@);
        }
        let size: u64 = if vsize > rawsize {
            vsize as u64
        } else {
            rawsize as u64
        };
        if base <= u64::MAX - (vaddr as u64) {
            let addr = base + (vaddr as u64);
            if addr != 0 && addr <= u64::MAX - size && (rawptr as u64) <= u64::MAX - size {
                let name = match short_name_string(&raw_name) {
                    Some(n) => n,
                    None => String::new(),
                };
                let s = Section { name, addr, size, offset: rawptr as u64 };
                proof {
                    let desc = (
                        match spec_short_name(e.0) {
                            Some(n) => n,
                            None => Seq::<char>::empty(),
                        },
                        (base + e.1) as u64,
                        size,
                        e.4 as u64,
                    );
                    assert(s.wf());
                    assert(sec_desc_matches(s, desc));
                    assert(spec_pe_kept_sections(b, i as int) == seq![desc]
                        + spec_pe_kept_sections(b, i + 1));
                    assert(kept.skip(done)[0] == desc);
                    assert(kept[done] == kept.skip(done)[0]);
                    assert(kept.skip(done).drop_first() =~= kept.skip(done + 1));
                    assert(kept.skip(done + 1) =~= spec_pe_kept_sections(b, i + 1));
                }
                out.push(s);
            } else {
                proof {
                    assert(spec_pe_kept_sections(b, i as int) == spec_pe_kept_sections(b, i + 1));
                }
            }
        } else {
            proof {
                assert(spec_pe_kept_sections(b, i as int) == spec_pe_kept_sections(b, i + 1));
            }
        }
        i = i + 1;
    }
    proof {
        assert(kept.skip(out@.len() as int) =~= Seq::<(Seq<char>, u64, u64, u64)>::empty());
        assert(out@.len() == kept.len());
    }
    let ghost pre_sort = out@;
    sort_sections(&mut out);
    let ghost srt_g = out@;
    let result = drop_overlaps(out);
    proof {
        assert(pre_sort.len() == kept.len());
        assert(srt_g.to_multiset() == pre_sort.to_multiset());
        assert(sec_sorted(srt_g));
        assert(result@ == spec_drop_from(srt_g, 0, 0));
    }
    result
}

/// Whether any section carries one of the DWARF debug-section names.
pub fn contains_dwarf(sections: &Vec<Section>) -> (r: bool)
    ensures
        r == exists|i: int|
            0 <= i < sections@.len() && crate::util::spec_is_dwarf_section_name(
                (#[trigger] sections@[i]).name@,
            ),
{
    let mut i: usize = 0;
    while i < sections.len()
        invariant
            i <= sections@.len(),
            forall|k: int|
                0 <= k < i ==> !crate::util::spec_is_dwarf_section_name(
                    (#[trigger] sections@[k]).name@,
                ),
        decreases sections@.len() - i,
    {
        if crate::util::is_dwarf_section_name(sections[i].name.as_str()) {
            assert(crate::util::spec_is_dwarf_section_name(sections@[i as int].name@));
            return true;
        }
        i = i + 1;
    }
    false
}

/// The runtime address of a section-relative COFF value: the image base
/// plus the pointed-at section's relative virtual address plus the
/// value, when the image parses, the section exists and the sum fits.
pub open spec fn spec_pe_section_addr(b: Seq<u8>, section_number: i16, value: u32) -> Option<
    u64,
> {
    if !pe_parses(b) {
        None
    } else if section_number < 1 {
        None
    } else if section_number - 1 >= pe_sects_of(b).len() {
        None
    } else {
        let base = pe_header_of(b).2;
        let vaddr = pe_sects_of(b)[section_number - 1].1;
        if base + vaddr > u64::MAX {
            None
        } else if base + vaddr + value > u64::MAX {
            None
        } else {
            Some((base + vaddr + value) as u64)
        }
    }
}

/// The runtime address of a section-relative COFF value, read back from
/// the image's section table.
fn section_address(bytes: &[u8], section_number: i16, value: u32) -> (r: Option<u64>)
    ensures
        r == spec_pe_section_addr(bytes@, section_number, value),
{
    let raw = match pe_sections(bytes) {
        Some(v) => v,
        None => {
            return None;
        },
    };
    let base = match pe_header_info(bytes) {
        Some(h) => h.2,
        None => {
            proof {
                assert(false);
            }
            return None;
        },
    };
    proof {
        assert(base == pe_header_of(bytes@).2);
        assert(raw.deep_view() == pe_sects_of(bytes@));
        assert(raw@.len() == pe_sects_of(bytes@).len());
    }
    if section_number < 1 {
        return None;
    }
    let idx = (section_number - 1) as usize;
    proof {
        assert(idx as int == section_number - 1);
    }
    if idx >= raw.len() {
        return None;
    }
    let (_, vaddr, _, _, _) = raw[idx];
    proof {
        assert(pe_sects_of(bytes@)[idx as int] == raw@[idx as int].deep_view());
        assert(pe_sects_of(bytes@)[idx as int].1 == vaddr);
    }
    if base > u64::MAX - (vaddr as u64) {
        return None;
    }
    let sec_addr = base + (vaddr as u64);
    if sec_addr > u64::MAX - (value as u64) {
        return None;
    }
    Some(sec_addr + (value as u64))
}

/// The name of a COFF symbol record: the inline name when the reader
/// already resolved one, else the string-table entry the name field
/// points at, else the short name held in the field itself.
pub open spec fn spec_pe_sym_name(b: Seq<u8>, inline: Option<Seq<char>>, raw: Seq<u8>) -> Option<
    Seq<char>,
> {
    match inline {
        Some(n) => Some(n),
        None => match spec_name_offset(raw) {
            Some(off) => if 0 <= off && off <= usize::MAX {
                pe_strtab_name_of(b, off as usize)
            } else {
                None
            },
            None => spec_short_name(raw),
        },
    }
}

/// The addresses the walk records: every record with External, Static or
/// Label storage class whose section-relative value maps to a runtime
/// address contributes that address.
pub open spec fn spec_pe_addrs(
    b: Seq<u8>,
    entries: Seq<(Option<Seq<char>>, Seq<u8>, u32, i16, u16, u8)>,
    i: int,
) -> Seq<u64>
    decreases entries.len() - i,
{
    if 0 <= i < entries.len() {
        let rest = spec_pe_addrs(b, entries, i + 1);
        let e = entries[i];
        if e.3 >= 1 && (e.5 == 2 || e.5 == 3 || e.5 == 6) && spec_pe_section_addr(b, e.3, e.2)
            is Some {
            seq![spec_pe_section_addr(b, e.3, e.2).unwrap()] + rest
        } else {
            rest
        }
    } else {
        Seq::empty()
    }
}

/// The entries the walk emits, before sizes are known: each function
/// definition with a non-zero value, a name that resolves, a runtime
/// address, and a backed offset that fits, as (demangled name, address,
/// offset).
pub open spec fn spec_pe_emits(
    b: Seq<u8>,
    entries: Seq<(Option<Seq<char>>, Seq<u8>, u32, i16, u16, u8)>,
    sections: Seq<Section>,
    i: int,
) -> Seq<(Seq<char>, u64, int)>
    decreases entries.len() - i,
{
    if 0 <= i < entries.len() {
        let rest = spec_pe_emits(b, entries, sections, i + 1);
        let e = entries[i];
        if spec_is_function_definition(e.3, e.4, e.5) && e.2 != 0 {
            match spec_pe_sym_name(b, e.0, e.1) {
                Some(nm) => match spec_pe_section_addr(b, e.3, e.2) {
                    Some(va) => match spec_addr_to_offset(sections, va) {
                        Some(off) => if off <= usize::MAX {
                            seq![(crate::symbol::spec_demangle(nm), va, off)] + rest
                        } else {
                            rest
                        },
                        None => rest,
                    },
                    None => rest,
                },
                None => rest,
            }
        } else {
            rest
        }
    } else {
        Seq::empty()
    }
}

/// A symbol realizes a sized entry: same name, address, file position
/// and length, from the PE/COFF object table.
pub open spec fn pe_sym_matches(s: Symbol, d: (Seq<char>, u64, int, int)) -> bool {
    &&& s.name@ == d.0
    &&& s.addr == d.1
    &&& s.bpos == d.2
    &&& s.blen == d.3
    &&& s.source == SymbolSource::Pe
}

/// Emits exactly the sized entries of the COFF symbol table: the table
/// records no sizes, so the pass records the runtime address of every
/// External, Static or Label record in a real section, emits the
/// function definitions with a non-zero value, a name and a backed
/// address, and keeps each with the distance to the next recorded
/// address as its size; entries with no successor drop out. Every
/// emitted symbol has a positive size and a file offset that is exactly
/// what `addr_to_offset` yields for its address. An image without a
/// readable symbol table emits nothing.
pub fn load_symbols(bytes: &[u8], sections: &Vec<Section>, out: &mut Vec<Symbol>)
    requires
        sections_wf(sections@),
        forall|k: int| 0 <= k < old(out)@.len() ==> (#[trigger] old(out)@[k]).wf(),
    ensures
        forall|k: int| 0 <= k < old(out)@.len() ==> final(out)@[k] == old(out)@[k],
        !pe_symtab_reads(bytes@) ==> final(out)@ == old(out)@,
        pe_symtab_reads(bytes@) ==> exists|addrs: Seq<u64>|
            {
                &&& crate::binary::sizes::strictly_increasing(addrs)
                &&& (forall|x: u64|
                    #[trigger] addrs.contains(x) <==> spec_pe_addrs(
                        bytes@,
                        pe_syms_of(bytes@),
                        0,
                    ).contains(x))
                &&& final(out)@.len() == old(out)@.len() + crate::binary::sizes::spec_sized_descs(
                    spec_pe_emits(bytes@, pe_syms_of(bytes@), sections@, 0),
                    addrs,
                    0,
                ).len()
                &&& forall|j: int|
                    0 <= j < final(out)@.len() - old(out)@.len() ==> pe_sym_matches(
                        #[trigger] final(out)@[old(out)@.len() + j],
                        crate::binary::sizes::spec_sized_descs(
                            spec_pe_emits(bytes@, pe_syms_of(bytes@), sections@, 0),
                            addrs,
                            0,
                        )[j],
                    )
            },
        forall|k: int|
            old(out)@.len() <= k < final(out)@.len() ==> {
                let s = #[trigger] final(out)@[k];
                &&& s.wf()
                &&& s.source == SymbolSource::Pe
                &&& s.blen > 0
                &&& spec_addr_to_offset(sections@, s.addr) == Some(s.bpos as int)
            },
{
    let entries = match pe_symbols(bytes) {
        Some(v) => v,
        None => {
            return ;
        },
    };
    let ghost dv = pe_syms_of(bytes@);
    proof {
        assert(entries.deep_view() == dv);
        assert(entries@.len() == dv.len());
    }
    let base = out.len();
    let ghost base_g = out@.len() as int;

    // record the runtime address of every External, Static or Label
    // record in a real section
    let mut addresses: Vec<u64> = Vec::new();
    let mut i: usize = 0;
    while i < entries.len()
        invariant
            i <= entries@.len(),
            entries.deep_view() == dv,
            entries@.len() == dv.len(),
            spec_pe_addrs(bytes@, dv, 0) =~= addresses@ + spec_pe_addrs(bytes@, dv, i as int),
        decreases entries@.len() - i,
    {
        let ghost e_dv = dv[i as int];
        let rec = &entries[i];
        proof {
            assert(e_dv == entries@[i as int].deep_view());
            assert(e_dv.2 == rec.2 && e_dv.3 == rec.3 && e_dv.5 == rec.5);
        }
        if rec.3 >= 1 && (rec.5 == 2 || rec.5 == 3 || rec.5 == 6) {
            match section_address(bytes, rec.3, rec.2) {
                Some(va) => {
                    let ghost pre = addresses@;
                    addresses.push(va);
                    proof {
                        assert(addresses@ =~= pre.push(va));
                        assert(spec_pe_addrs(bytes@, dv, i as int) == seq![va] + spec_pe_addrs(
                            bytes@,
                            dv,
                            i + 1,
                        ));
                        assert(pre + (seq![va] + spec_pe_addrs(bytes@, dv, i + 1)) =~= addresses@
                            + spec_pe_addrs(bytes@, dv, i + 1));
                    }
                },
                None => {
                    proof {
                        assert(spec_pe_addrs(bytes@, dv, i as int) == spec_pe_addrs(
                            bytes@,
                            dv,
                            i + 1,
                        ));
                    }
                },
            }
        } else {
            proof {
                assert(spec_pe_addrs(bytes@, dv, i as int) == spec_pe_addrs(bytes@, dv, i + 1));
            }
        }
        i = i + 1;
    }
    proof {
        assert(spec_pe_addrs(bytes@, dv, entries@.len() as int) =~= Seq::<u64>::empty());
        assert(addresses@ =~= spec_pe_addrs(bytes@, dv, 0));
    }
    sort_addresses(&mut addresses);
    let addresses = dedup_sorted(&addresses);
    let ghost addrs_g = addresses@;

    // emit the function definitions
    let ghost emits = spec_pe_emits(bytes@, dv, sections@, 0);
    let mut i2: usize = 0;
    while i2 < entries.len()
        invariant
            i2 <= entries@.len(),
            entries.deep_view() == dv,
            entries@.len() == dv.len(),
            sections_wf(sections@),
            emits == spec_pe_emits(bytes@, dv, sections@, 0),
            out@.len() >= base_g,
            base_g == base as int,
            out@.len() - base_g <= emits.len(),
            forall|k: int| 0 <= k < base_g ==> out@[k] == old(out)@[k],
            emits.skip(out@.len() - base_g) =~= spec_pe_emits(bytes@, dv, sections@, i2 as int),
            forall|t: int|
                0 <= t < out@.len() - base_g ==> {
                    let s = #[trigger] out@[base_g + t];
                    &&& s.name@ == emits[t].0
                    &&& s.addr == emits[t].1
                    &&& s.bpos == emits[t].2
                    &&& s.blen == 0
                    &&& s.source == SymbolSource::Pe
                },
            forall|k: int| 0 <= k < out@.len() ==> (#[trigger] out@[k]).wf(),
            forall|k: int|
                base_g <= k < out@.len() ==> {
                    let s = #[trigger] out@[k];
                    &&& s.source == SymbolSource::Pe
                    &&& spec_addr_to_offset(sections@, s.addr) == Some(s.bpos as int)
                },
        decreases entries@.len() - i2,
    {
        let ghost done = out@.len() - base_g;
        let ghost idx = i2 as int;
        let ghost e_dv = dv[idx];
        let rec = &entries[i2];
        i2 = i2 + 1;
        proof {
            assert(e_dv == entries@[idx].deep_view());
            assert(e_dv.2 == rec.2 && e_dv.3 == rec.3 && e_dv.4 == rec.4 && e_dv.5 == rec.5);
            assert(e_dv.1 =~= rec.1@);
        }
        if !is_function_definition(rec.3, rec.4, rec.5) {
            proof {
                assert(spec_pe_emits(bytes@, dv, sections@, idx) == spec_pe_emits(
                    bytes@,
                    dv,
                    sections@,
                    idx + 1,
                ));
            }
            continue ;
        }
        if rec.2 == 0 {
            proof {
                assert(spec_pe_emits(bytes@, dv, sections@, idx) == spec_pe_emits(
                    bytes@,
                    dv,
                    sections@,
                    idx + 1,
                ));
            }
            continue ;
        }
        let name = match &rec.0 {
            Some(n) => {
                proof {
                    assert(e_dv.0 == Some(n@));
                    assert(spec_pe_sym_name(bytes@, e_dv.0, e_dv.1) == Some(n@));
                }
                crate::binary::sections::clone_string(n)
            },
            None => {
                proof {
                    assert(e_dv.0 is None);
                }
                match name_offset(&rec.1) {
                    Some(off) => {
                        proof {
                            assert(spec_name_offset(e_dv.1) == Some(off as int));
                            assert(0 <= off as int && off as int <= usize::MAX);
                            assert((off as int) as usize == off as usize);
                        }
                        match pe_strtab_name(bytes, off as usize) {
                            Some(n) => {
                                proof {
                                    assert(spec_pe_sym_name(bytes@, e_dv.0, e_dv.1) == Some(n@));
                                }
                                n
                            },
                            None => {
                                proof {
                                    assert(spec_pe_sym_name(bytes@, e_dv.0, e_dv.1) is None);
                                    assert(spec_pe_emits(bytes@, dv, sections@, idx)
                                        == spec_pe_emits(bytes@, dv, sections@, idx + 1));
                                }
                                continue ;
                            },
                        }
                    },
                    None => {
                        proof {
                            assert(spec_name_offset(e_dv.1) is None);
                        }
                        match short_name_string(&rec.1) {
                            Some(n) => {
                                proof {
                                    assert(spec_pe_sym_name(bytes@, e_dv.0, e_dv.1) == Some(n@));
                                }
                                n
                            },
                            None => {
                                proof {
                                    assert(spec_pe_sym_name(bytes@, e_dv.0, e_dv.1) is None);
                                    assert(spec_pe_emits(bytes@, dv, sections@, idx)
                                        == spec_pe_emits(bytes@, dv, sections@, idx + 1));
                                }
                                continue ;
                            },
                        }
                    },
                }
            },
        };
        proof {
            assert(spec_pe_sym_name(bytes@, e_dv.0, e_dv.1) == Some(name@));
        }
        let va = match section_address(bytes, rec.3, rec.2) {
            Some(v) => v,
            None => {
                proof {
                    assert(spec_pe_emits(bytes@, dv, sections@, idx) == spec_pe_emits(
                        bytes@,
                        dv,
                        sections@,
                        idx + 1,
                    ));
                }
                continue ;
            },
        };
        let off = match addr_to_offset(sections, va) {
            Some(o) => o,
            None => {
                proof {
                    assert(spec_pe_emits(bytes@, dv, sections@, idx) == spec_pe_emits(
                        bytes@,
                        dv,
                        sections@,
                        idx + 1,
                    ));
                }
                continue ;
            },
        };
        if off > usize::MAX as u64 {
            proof {
                assert(spec_pe_emits(bytes@, dv, sections@, idx) == spec_pe_emits(
                    bytes@,
                    dv,
                    sections@,
                    idx + 1,
                ));
            }
            continue ;
        }
        let sym = Symbol::new(
            name,
            va,
            off as usize,
            0,
            SymbolType::Function,
            SymbolSource::Pe,
            SymbolLang::Unknown,
        );
        proof {
            let head = (
                crate::symbol::spec_demangle(spec_pe_sym_name(bytes@, e_dv.0, e_dv.1).unwrap()),
                va,
                off as int,
            );
            assert(spec_pe_emits(bytes@, dv, sections@, idx) == seq![head] + spec_pe_emits(
                bytes@,
                dv,
                sections@,
                idx + 1,
            ));
            assert(emits.skip(done)[0] == head);
            assert(emits[done] == emits.skip(done)[0]);
            assert(emits.skip(done).drop_first() =~= emits.skip(done + 1));
            assert(emits.skip(done + 1) =~= spec_pe_emits(bytes@, dv, sections@, idx + 1));
        }
        out.push(sym);
    }
    proof {
        assert(emits.skip(out@.len() - base_g) =~= Seq::<(Seq<char>, u64, int)>::empty());
        assert(out@.len() - base_g == emits.len());
    }

    // infer sizes from successor addresses; entries with no successor
    // are dropped
    let ghost mid = out@;
    infer_sizes(out, base, &addresses);
    proof {
        assert forall|k: int|
            base_g <= k < mid.len() implies {
            let d = #[trigger] emits[k - base_g + 0];
            &&& mid[k].name@ == d.0
            &&& mid[k].addr == d.1
            &&& mid[k].bpos == d.2
        } by {
            let t = k - base_g;
            assert(emits[k - base_g + 0] == emits[t]);
            assert(mid[base_g + t].name@ == emits[t].0 && mid[base_g + t].addr == emits[t].1
                && mid[base_g + t].bpos == emits[t].2);
            assert(mid[k] == mid[base_g + t]);
        }
        crate::binary::sizes::lemma_sized_correspond(mid, base_g, emits, 0, addrs_g);
        assert(out@ =~= mid.subrange(0, base_g) + crate::binary::sizes::spec_sized_syms(
            mid,
            base_g,
            addrs_g,
        ));
        assert forall|j: int|
            0 <= j < out@.len() - base_g implies pe_sym_matches(
            #[trigger] out@[base_g + j],
            crate::binary::sizes::spec_sized_descs(emits, addrs_g, 0)[j],
        ) by {
            assert(out@[base_g + j] == crate::binary::sizes::spec_sized_syms(
                mid,
                base_g,
                addrs_g,
            )[j]);
            let s = crate::binary::sizes::spec_sized_syms(mid, base_g, addrs_g)[j];
            let m_idx = choose|m_idx: int|
                base_g <= m_idx < mid.len() && s == (Symbol { blen: s.blen, ..#[trigger] mid[m_idx] });
            assert(s.source == mid[m_idx].source);
        }
        assert forall|k: int| base_g <= k < out@.len() implies {
            let s = #[trigger] out@[k];
            &&& s.wf()
            &&& s.source == SymbolSource::Pe
            &&& s.blen > 0
            &&& spec_addr_to_offset(sections@, s.addr) == Some(s.bpos as int)
        } by {
            let s = out@[k];
            let m_idx = choose|m_idx: int|
                base_g <= m_idx < mid.len() && s == (Symbol { blen: s.blen, ..#[trigger] mid[m_idx] });
            assert(s.addr == mid[m_idx].addr && s.bpos == mid[m_idx].bpos && s.source
                == mid[m_idx].source);
        }
    }
}

} // verus!
