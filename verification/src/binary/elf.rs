use vstd::prelude::*;

use crate::binary::sections::{
    addr_to_offset, drop_overlaps, sec_all_wf, sec_desc_matches, sec_sorted, sections_wf,
    sort_sections, spec_addr_to_offset, spec_drop_from, Section,
};
use crate::binary::{Arch, Bits, Endian};
use crate::symbol::{Symbol, SymbolLang, SymbolSource, SymbolType};

verus! {

#[verifier::external_type_specification]
#[verifier::external_body]
pub struct ExElf<'a>(goblin::elf::Elf<'a>);

/// Relies on goblin::elf::Elf::parse: parses an ELF image; success is a
/// function of the bytes alone, named `elf_parses`.
#[verifier::external_body]
pub fn elf_parse(data: &[u8]) -> (r: Option<goblin::elf::Elf<'_>>)
    ensures
        r is Some <==> elf_parses(data@),
{
    goblin::elf::Elf::parse(data).ok()
}

/// The header fields the loader reads from an image that parses:
/// (e_machine, EI_CLASS, EI_DATA).
pub uninterp spec fn elf_header_of(b: Seq<u8>) -> (u16, u8, u8);

/// Relies on goblin::elf::Elf::parse and the public header fields of
/// goblin::elf::Elf: e_machine and the EI_CLASS and EI_DATA
/// identification bytes, named `elf_header_of`.
#[verifier::external_body]
fn elf_header_info(bytes: &[u8]) -> (r: Option<(u16, u8, u8)>)
    ensures
        r is Some <==> elf_parses(bytes@),
        r matches Some(h) ==> h == elf_header_of(bytes@),
{
    let elf = goblin::elf::Elf::parse(bytes).ok()?;
    Some((elf.header.e_machine, elf.header.e_ident[4], elf.header.e_ident[5]))
}

/// The section headers of an image that parses: each header's
/// (sh_addr, sh_size, sh_offset, sh_name).
pub uninterp spec fn elf_shdrs_of(b: Seq<u8>) -> Seq<(u64, u64, u64, usize)>;

/// Relies on goblin::elf::Elf::parse and the section_headers field of
/// goblin::elf::Elf; each header's (sh_addr, sh_size, sh_offset,
/// sh_name) moves into a plain tuple, named `elf_shdrs_of`.
#[verifier::external_body]
fn elf_section_headers(bytes: &[u8]) -> (r: Option<Vec<(u64, u64, u64, usize)>>)
    ensures
        r is Some <==> elf_parses(bytes@),
        r matches Some(v) ==> v@ == elf_shdrs_of(bytes@),
{
    let elf = goblin::elf::Elf::parse(bytes).ok()?;
    Some(
        elf.section_headers.iter().map(
            |h| (h.sh_addr, h.sh_size, h.sh_offset, h.sh_name),
        ).collect(),
    )
}

/// The string at an offset of the image's section-header string table,
/// when the image parses and the offset starts a string there.
pub uninterp spec fn elf_shdr_name_of(b: Seq<u8>, off: usize) -> Option<Seq<char>>;

/// Relies on goblin::elf::Elf::parse and goblin::strtab::Strtab::get_at
/// on the section-header string table; the result is named
/// `elf_shdr_name_of`.
#[verifier::external_body]
fn elf_shdr_name(bytes: &[u8], off: usize) -> (r: Option<String>)
    ensures
        r is Some <==> elf_shdr_name_of(bytes@, off) is Some,
        r matches Some(n) ==> Some(n@) == elf_shdr_name_of(bytes@, off),
{
    let elf = goblin::elf::Elf::parse(bytes).ok()?;
    elf.shdr_strtab.get_at(off).map(|s| s.to_string())
}

/// Whether goblin parses the image; a function of the bytes alone.
pub uninterp spec fn elf_parses(b: Seq<u8>) -> bool;

/// The ELF symbol table of an image that parses: each entry's
/// (st_name, st_info, st_shndx, st_value, st_size).
pub uninterp spec fn elf_syms_of(b: Seq<u8>) -> Seq<(usize, u8, usize, u64, u64)>;

/// The string at an offset of the image's symbol string table, when the
/// image parses and the offset starts a string there.
pub uninterp spec fn elf_sym_name_of(b: Seq<u8>, off: usize) -> Option<Seq<char>>;

/// Relies on goblin::elf::Elf::parse and goblin::elf::Symtab::to_vec;
/// each entry's fields move into a plain tuple, named `elf_syms_of`.
#[verifier::external_body]
fn elf_syms(bytes: &[u8]) -> (r: Option<Vec<(usize, u8, usize, u64, u64)>>)
    ensures
        r is Some <==> elf_parses(bytes@),
        r matches Some(v) ==> v@ == elf_syms_of(bytes@),
{
    let elf = goblin::elf::Elf::parse(bytes).ok()?;
    Some(
        elf.syms.to_vec().into_iter().map(
            |s| (s.st_name, s.st_info, s.st_shndx, s.st_value, s.st_size),
        ).collect(),
    )
}

/// Relies on goblin::elf::Elf::parse and goblin::strtab::Strtab::get_at
/// on the symbol string table; the result is named `elf_sym_name_of`.
#[verifier::external_body]
fn elf_sym_name(bytes: &[u8], off: usize) -> (r: Option<String>)
    ensures
        r is Some <==> elf_sym_name_of(bytes@, off) is Some,
        r matches Some(n) ==> Some(n@) == elf_sym_name_of(bytes@, off),
{
    let elf = goblin::elf::Elf::parse(bytes).ok()?;
    elf.strtab.get_at(off).map(|s| s.to_string())
}

/// Architecture, word size and byte order from the ELF header: e_machine
/// selects the architecture, EI_CLASS the width, EI_DATA the endianness
/// (1 little, 2 big). An image that does not parse reads as unknown.
pub fn load_arch_info(bytes: &[u8]) -> (r: (Arch, Bits, Endian))
    ensures
        elf_parses(bytes@) ==> {
            &&& r.0 == crate::binary::spec_arch_from_elf_machine(elf_header_of(bytes@).0)
            &&& (elf_header_of(bytes@).1 == 1 ==> r.1 == Bits::Bits32)
            &&& (elf_header_of(bytes@).1 == 2 ==> r.1 == Bits::Bits64)
            &&& (elf_header_of(bytes@).2 == 1 ==> r.2 == Endian::Little)
            &&& (elf_header_of(bytes@).2 == 2 ==> r.2 == Endian::Big)
        },
        !elf_parses(bytes@) ==> r == (Arch::Unknown, Bits::Unknown, Endian::Unknown),
{
    let (machine, class, data) = match elf_header_info(bytes) {
        Some(h) => h,
        None => {
            return (Arch::Unknown, Bits::Unknown, Endian::Unknown);
        },
    };
    let arch = Arch::from_elf_machine(machine);
    let bits = Bits::from_elf_class(class);
    let endian = if data == 1 {
        Endian::Little
    } else if data == 2 {
        Endian::Big
    } else {
        Endian::Unknown
    };
    (arch, bits, endian)
}

/// The section headers the loader keeps, from header `i` on, as
/// (name, address, size, offset) descriptions: headers with a load
/// address of zero or ranges that do not fit drop out; the name comes
/// from the section-header string table when it resolves.
pub open spec fn spec_elf_kept_sections(b: Seq<u8>, i: int) -> Seq<(Seq<char>, u64, u64, u64)>
    decreases elf_shdrs_of(b).len() - i,
{
    if 0 <= i < elf_shdrs_of(b).len() {
        let h = elf_shdrs_of(b)[i];
        let rest = spec_elf_kept_sections(b, i + 1);
        if h.0 != 0 && h.0 + h.1 <= u64::MAX && h.2 + h.1 <= u64::MAX {
            seq![
                (
                    match elf_shdr_name_of(b, h.3) {
                        Some(n) => n,
                        None => Seq::<char>::empty(),
                    },
                    h.0,
                    h.1,
                    h.2,
                ),
            ] + rest
        } else {
            rest
        }
    } else {
        Seq::empty()
    }
}

/// Builds the section table: each kept section header becomes a
/// section, the list is sorted by (address, size), and overlaps are
/// dropped. The result is exactly the overlap-drop of a sorted
/// permutation of the kept headers; an image that does not parse yields
/// an empty table.
pub fn build_section_table(bytes: &[u8]) -> (r: Vec<Section>)
    ensures
        sections_wf(r@),
        !elf_parses(bytes@) ==> r@ =~= Seq::<Section>::empty(),
        elf_parses(bytes@) ==> exists|pre: Seq<Section>, srt: Seq<Section>|
            #![trigger pre.to_multiset(), srt.to_multiset()]
            {
                &&& pre.len() == spec_elf_kept_sections(bytes@, 0).len()
                &&& (forall|j: int|
                    0 <= j < pre.len() ==> sec_desc_matches(
                        #[trigger] pre[j],
                        spec_elf_kept_sections(bytes@, 0)[j],
                    ))
                &&& srt.to_multiset() == pre.to_multiset()
                &&& sec_sorted(srt)
                &&& r@ == spec_drop_from(srt, 0, 0)
            },
{
    let headers = match elf_section_headers(bytes) {
        Some(v) => v,
        None => {
            let none_out: Vec<Section> = Vec::new();
            proof {
                assert(none_out@ =~= Seq::<Section>::empty());
            }
            return none_out;
        },
    };
    let ghost b = bytes@;
    let ghost kept = spec_elf_kept_sections(b, 0);
    proof {
        assert(headers@ == elf_shdrs_of(b));
    }
    let mut out: Vec<Section> = Vec::new();
    let mut i: usize = 0;
    while i < headers.len()
        invariant
            i <= headers@.len(),
            b == bytes@,
            headers@ == elf_shdrs_of(b),
            kept == spec_elf_kept_sections(b, 0),
            out@.len() <= kept.len(),
            kept.skip(out@.len() as int) =~= spec_elf_kept_sections(b, i as int),
            forall|j: int|
                0 <= j < out@.len() ==> sec_desc_matches(#[trigger] out@[j], kept[j]),
            sec_all_wf(out@),
        decreases headers@.len() - i,
    {
        let ghost h = elf_shdrs_of(b)[i as int];
        let ghost done = out@.len() as int;
        let (addr, size, offset, name_off) = headers[i];
        proof {
            assert(h == headers@[i as int]);
            assert(h.0 == addr && h.1 == size && h.2 == offset && h.3 == name_off);
        }
        if addr != 0 && addr <= u64::MAX - size && offset <= u64::MAX - size {
            let name = match elf_shdr_name(bytes, name_off) {
                Some(n) => {
                    proof {
                        assert(Some(n@) == elf_shdr_name_of(b, h.3));
                    }
                    n
                },
                None => {
                    proof {
                        assert(elf_shdr_name_of(b, h.3) is None);
                    }
                    String::new()
                },
            };
            let s = Section { name, addr, size, offset };
            proof {
                let desc = (
                    match elf_shdr_name_of(b, h.3) {
                        Some(n) => n,
                        None => Seq::<char>::empty(),
                    },
                    h.0,
                    h.1,
                    h.2,
                );
                assert(s.wf());
                assert(s.addr == desc.1);
                assert(s.size == desc.2);
                assert(s.offset == desc.3);
                assert(s.name@ == desc.0);
                assert(sec_desc_matches(s, desc));
                assert(spec_elf_kept_sections(b, i as int) == seq![desc]
                    + spec_elf_kept_sections(b, i + 1));
                assert(kept.skip(done)[0] == desc);
                assert(kept.skip(done).len() >= 1);
                assert(done < kept.len());
                assert(kept[done] == kept.skip(done)[0]);
                assert(kept.skip(done).drop_first() =~= kept.skip(done + 1));
                assert(kept.skip(done + 1) =~= spec_elf_kept_sections(b, i + 1));
            }
            out.push(s);
        } else {
            proof {
                assert(spec_elf_kept_sections(b, i as int) == spec_elf_kept_sections(b, i + 1));
            }
        }
        i = i + 1;
    }
    proof {
        assert(kept.skip(out@.len() as int) =~= Seq::<(Seq<char>, u64, u64, u64)>::empty());
        assert(out@.len() == kept.len());
    }
    let ghost pre_sort = out@;
    sort_sections(&mut out);
    let ghost srt_g = out@;
    let result = drop_overlaps(out);
    proof {
        assert(pre_sort.len() == kept.len());
        assert(srt_g.to_multiset() == pre_sort.to_multiset());
        assert(sec_sorted(srt_g));
        assert(result@ == spec_drop_from(srt_g, 0, 0));
    }
    result
}

/// The DWARF debug sections of the image, from header `i` on: each
/// header whose resolved name carries the ".debug_" prefix and whose
/// file range lies within the image's `n` bytes, as the name with the
/// start and end of its bytes.
pub open spec fn spec_elf_debug_sections(b: Seq<u8>, n: int, i: int) -> Seq<(Seq<char>, int, int)>
    decreases elf_shdrs_of(b).len() - i,
{
    if 0 <= i < elf_shdrs_of(b).len() {
        let h = elf_shdrs_of(b)[i];
        let rest = spec_elf_debug_sections(b, n, i + 1);
        match elf_shdr_name_of(b, h.3) {
            Some(nm) => if crate::util::spec_has_debug_prefix(nm) && h.2 + h.1 <= n {
                seq![(nm, h.2 as int, h.2 + h.1)] + rest
            } else {
                rest
            },
            None => rest,
        }
    } else {
        Seq::empty()
    }
}

/// Collects the DWARF debug sections: every section header whose name
/// carries the ".debug_" prefix and whose file range fits in the image,
/// as the name with the range of its bytes. An image that does not
/// parse yields nothing.
pub fn debug_section_ranges(bytes: &[u8]) -> (r: Vec<(String, usize, usize)>)
    ensures
        !elf_parses(bytes@) ==> r@.len() == 0,
        elf_parses(bytes@) ==> {
            let all = spec_elf_debug_sections(bytes@, bytes@.len() as int, 0);
            &&& r@.len() == all.len()
            &&& forall|j: int|
                0 <= j < r@.len() ==> {
                    let e = #[trigger] r@[j];
                    &&& e.0@ == all[j].0
                    &&& e.1 as int == all[j].1
                    &&& e.2 as int == all[j].2
                }
        },
{
    let headers = match elf_section_headers(bytes) {
        Some(v) => v,
        None => {
            return Vec::new();
        },
    };
    let len64: u64 = bytes.len() as u64;
    let ghost b = bytes@;
    let ghost n = bytes@.len() as int;
    let ghost all = spec_elf_debug_sections(b, n, 0);
    let mut out: Vec<(String, usize, usize)> = Vec::new();
    let mut i: usize = 0;
    while i < headers.len()
        invariant
            i <= headers@.len(),
            b == bytes@,
            n == bytes@.len() as int,
            len64 == n as u64,
            n <= usize::MAX,
            headers@ == elf_shdrs_of(b),
            all == spec_elf_debug_sections(b, n, 0),
            out@.len() <= all.len(),
            all.skip(out@.len() as int) =~= spec_elf_debug_sections(b, n, i as int),
            forall|j: int|
                0 <= j < out@.len() ==> {
                    let e = #[trigger] out@[j];
                    &&& e.0@ == all[j].0
                    &&& e.1 as int == all[j].1
                    &&& e.2 as int == all[j].2
                },
        decreases headers@.len() - i,
    {
        let ghost h = elf_shdrs_of(b)[i as int];
        let ghost done = out@.len() as int;
        let (_addr, size, offset, name_off) = headers[i];
        proof {
            assert(h == headers@[i as int]);
            assert(h.1 == size && h.2 == offset && h.3 == name_off);
        }
        match elf_shdr_name(bytes, name_off) {
            Some(nm) => {
                if crate::util::has_debug_prefix(nm.as_str()) && offset <= len64 && size <= len64
                    - offset {
                    let start = offset as usize;
                    let end = (offset + size) as usize;
                    proof {
                        let desc = (elf_shdr_name_of(b, h.3).unwrap(), h.2 as int, h.2 + h.1);
                        assert(nm@ == desc.0);
                        assert(spec_elf_debug_sections(b, n, i as int) == seq![desc]
                            + spec_elf_debug_sections(b, n, i + 1));
                        assert(all.skip(done)[0] == desc);
                        assert(all[done] == all.skip(done)[0]);
                        assert(all.skip(done).drop_first() =~= all.skip(done + 1));
                        assert(all.skip(done + 1) =~= spec_elf_debug_sections(b, n, i + 1));
                    }
                    out.push((nm, start, end));
                } else {
                    proof {
                        assert(spec_elf_debug_sections(b, n, i as int) == spec_elf_debug_sections(
                            b,
                            n,
                            i + 1,
                        ));
                    }
                }
            },
            None => {
                proof {
                    assert(spec_elf_debug_sections(b, n, i as int) == spec_elf_debug_sections(
                        b,
                        n,
                        i + 1,
                    ));
                }
            },
        }
        i = i + 1;
    }
    proof {
        assert(all.skip(out@.len() as int) =~= Seq::<(Seq<char>, int, int)>::empty());
        assert(out@.len() == all.len());
    }
    out
}

/// Whether any section carries one of the DWARF debug-section names.
pub fn contains_dwarf(sections: &Vec<Section>) -> (r: bool)
    ensures
        r == exists|i: int|
            0 <= i < sections@.len() && crate::util::spec_is_dwarf_section_name(
                (#[trigger] sections@[i]).name@,
            ),
{
    let mut i: usize = 0;
    while i < sections.len()
        invariant
            i <= sections@.len(),
            forall|k: int|
                0 <= k < i ==> !crate::util::spec_is_dwarf_section_name(
                    (#[trigger] sections@[k]).name@,
                ),
        decreases sections@.len() - i,
    {
        if crate::util::is_dwarf_section_name(sections[i].name.as_str()) {
            assert(crate::util::spec_is_dwarf_section_name(sections@[i as int].name@));
            return true;
        }
        i = i + 1;
    }
    false
}

/// One kept entry of the symbol table, as the emitted symbol will
/// realize it: the demangled name, the address, and the backing file
/// range. An entry is kept when its type is function, its size is
/// non-zero, its name resolves, a loaded section backs its address, and
/// its ranges fit.
pub open spec fn spec_elf_descs(
    b: Seq<u8>,
    syms: Seq<(usize, u8, usize, u64, u64)>,
    sections: Seq<Section>,
    i: int,
) -> Seq<(Seq<char>, u64, int, int)>
    decreases syms.len() - i,
{
    if 0 <= i < syms.len() {
        let rest = spec_elf_descs(b, syms, sections, i + 1);
        let entry = syms[i];
        if entry.1 & 0xf == 2 && entry.4 != 0 {
            match elf_sym_name_of(b, entry.0) {
                Some(nm) => match spec_addr_to_offset(sections, entry.3) {
                    Some(off) => if entry.3 + entry.4 <= u64::MAX && entry.4 <= usize::MAX && off
                        <= usize::MAX && off + entry.4 <= usize::MAX {
                        seq![
                            (crate::symbol::spec_demangle(nm), entry.3, off, entry.4 as int),
                        ] + rest
                    } else {
                        rest
                    },
                    None => rest,
                },
                None => rest,
            }
        } else {
            rest
        }
    } else {
        Seq::empty()
    }
}

/// A symbol realizes a kept entry: same name, address, file position
/// and length, from the ELF object table.
pub open spec fn elf_sym_matches(s: Symbol, d: (Seq<char>, u64, int, int)) -> bool {
    &&& s.name@ == d.0
    &&& s.addr == d.1
    &&& s.bpos == d.2
    &&& s.blen == d.3
    &&& s.source == SymbolSource::Elf
}

/// Emits exactly one symbol per kept entry of the symbol table, in
/// table order: an entry is kept when its type is function, its size is
/// non-zero, its name resolves, its address is backed by a loaded
/// section and its ranges fit. For every emitted symbol the file offset
/// is exactly what `addr_to_offset` yields for its virtual address. An
/// image goblin does not parse emits nothing.
pub fn load_symbols(bytes: &[u8], sections: &Vec<Section>, out: &mut Vec<Symbol>)
    requires
        sections_wf(sections@),
    ensures
        forall|k: int| 0 <= k < old(out)@.len() ==> final(out)@[k] == old(out)@[k],
        !elf_parses(bytes@) ==> final(out)@ == old(out)@,
        elf_parses(bytes@) ==> final(out)@.len() == old(out)@.len() + spec_elf_descs(
            bytes@,
            elf_syms_of(bytes@),
            sections@,
            0,
        ).len(),
        elf_parses(bytes@) ==> forall|j: int|
            0 <= j < spec_elf_descs(bytes@, elf_syms_of(bytes@), sections@, 0).len()
                ==> elf_sym_matches(
                #[trigger] final(out)@[old(out)@.len() + j],
                spec_elf_descs(bytes@, elf_syms_of(bytes@), sections@, 0)[j],
            ),
        forall|k: int|
            old(out)@.len() <= k < final(out)@.len() ==> {
                let s = #[trigger] final(out)@[k];
                &&& s.wf()
                &&& s.source == SymbolSource::Elf
                &&& s.blen > 0
                &&& spec_addr_to_offset(sections@, s.addr) == Some(s.bpos as int)
            },
{
    let syms = match elf_syms(bytes) {
        Some(v) => v,
        None => {
            return ;
        },
    };
    let ghost base = out@.len();
    let ghost sv = elf_syms_of(bytes@);
    let ghost all = spec_elf_descs(bytes@, sv, sections@, 0);
    let mut i: usize = 0;
    while i < syms.len()
        invariant
            i <= sv.len(),
            syms@ == sv,
            sv == elf_syms_of(bytes@),
            all == spec_elf_descs(bytes@, sv, sections@, 0),
            sections_wf(sections@),
            out@.len() >= base,
            out@.len() - base <= all.len(),
            forall|k: int| 0 <= k < base ==> out@[k] == old(out)@[k],
            all.skip(out@.len() - base) =~= spec_elf_descs(bytes@, sv, sections@, i as int),
            forall|j: int|
                0 <= j < out@.len() - base ==> elf_sym_matches(#[trigger] out@[base + j], all[j]),
            forall|k: int|
                base <= k < out@.len() ==> {
                    let s = #[trigger] out@[k];
                    &&& s.wf()
                    &&& s.source == SymbolSource::Elf
                    &&& s.blen > 0
                    &&& spec_addr_to_offset(sections@, s.addr) == Some(s.bpos as int)
                },
        decreases syms@.len() - i,
    {
        let ghost done = out@.len() - base;
        let ghost i0 = i as int;
        let (st_name, st_info, _st_shndx, st_value, st_size) = syms[i];
        assert(syms@[i as int] == sv[i as int]);
        proof {
            // one unfolding of the descriptor list at this entry
            assert(spec_elf_descs(bytes@, sv, sections@, i as int) == if sv[i as int].1 & 0xf == 2
                && sv[i as int].4 != 0 {
                match elf_sym_name_of(bytes@, sv[i as int].0) {
                    Some(nm) => match spec_addr_to_offset(sections@, sv[i as int].3) {
                        Some(off) => if sv[i as int].3 + sv[i as int].4 <= u64::MAX
                            && sv[i as int].4 <= usize::MAX && off <= usize::MAX && off
                            + sv[i as int].4 <= usize::MAX {
                            seq![
                                (
                                    crate::symbol::spec_demangle(nm),
                                    sv[i as int].3,
                                    off,
                                    sv[i as int].4 as int,
                                ),
                            ] + spec_elf_descs(bytes@, sv, sections@, i + 1)
                        } else {
                            spec_elf_descs(bytes@, sv, sections@, i + 1)
                        },
                        None => spec_elf_descs(bytes@, sv, sections@, i + 1),
                    },
                    None => spec_elf_descs(bytes@, sv, sections@, i + 1),
                }
            } else {
                spec_elf_descs(bytes@, sv, sections@, i + 1)
            });
        }
        i = i + 1;
        // keep function entries (st_type is the low nibble of st_info)
        if st_info & 0xf != 2 {
            assert(spec_elf_descs(bytes@, sv, sections@, i0) == spec_elf_descs(
                bytes@,
                sv,
                sections@,
                i0 + 1,
            ));
            continue ;
        }
        if st_size == 0 {
            assert(spec_elf_descs(bytes@, sv, sections@, i0) == spec_elf_descs(
                bytes@,
                sv,
                sections@,
                i0 + 1,
            ));
            continue ;
        }
        let name = match elf_sym_name(bytes, st_name) {
            Some(n) => n,
            None => {
                assert(spec_elf_descs(bytes@, sv, sections@, i0) == spec_elf_descs(
                    bytes@,
                    sv,
                    sections@,
                    i0 + 1,
                ));
                continue ;
            },
        };
        let off = match addr_to_offset(sections, st_value) {
            Some(o) => o,
            None => {
                assert(spec_elf_descs(bytes@, sv, sections@, i0) == spec_elf_descs(
                    bytes@,
                    sv,
                    sections@,
                    i0 + 1,
                ));
                continue ;
            },
        };
        // the symbol's ranges must fit the address space and the file
        if st_value > u64::MAX - st_size || st_size > usize::MAX as u64 || off > usize::MAX as u64
            || (off as usize) > usize::MAX - (st_size as usize) {
            assert(spec_elf_descs(bytes@, sv, sections@, i0) == spec_elf_descs(
                bytes@,
                sv,
                sections@,
                i0 + 1,
            ));
            continue ;
        }
        let sym = Symbol::new(
            name,
            st_value,
            off as usize,
            st_size as usize,
            SymbolType::Function,
            SymbolSource::Elf,
            SymbolLang::Unknown,
        );
        proof {
            assert(spec_elf_descs(bytes@, sv, sections@, i0) == seq![
                (
                    crate::symbol::spec_demangle(elf_sym_name_of(bytes@, sv[i0].0).unwrap()),
                    sv[i0].3,
                    off as int,
                    sv[i0].4 as int,
                ),
            ] + spec_elf_descs(bytes@, sv, sections@, i0 + 1));
            assert(all.skip(done)[0] == (
                crate::symbol::spec_demangle(elf_sym_name_of(bytes@, sv[i0].0).unwrap()),
                sv[i0].3,
                off as int,
                sv[i0].4 as int,
            ));
            assert(elf_sym_matches(sym, all[done]));
            assert(all.skip(done).drop_first() =~= all.skip(done + 1));
            assert(all.skip(done + 1) =~= spec_elf_descs(bytes@, sv, sections@, i0 + 1));
        }
        out.push(sym);
    }
    proof {
        assert(all.skip(out@.len() - base) =~= Seq::<(Seq<char>, u64, int, int)>::empty());
        assert(out@.len() - base == all.len());
    }
}

} // verus!
