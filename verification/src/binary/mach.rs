use vstd::prelude::*;

use crate::binary::sections::{
    addr_to_offset, clone_string, drop_overlaps, sec_desc_matches, sec_sorted, sections_wf,
    sort_sections, spec_addr_to_offset, spec_drop_from, spec_short_name, spec_short_name_from,
    Section,
};
use crate::binary::sizes::{dedup_sorted, infer_sizes, sort_addresses};
use crate::binary::{Arch, Bits, Endian};
use crate::symbol::{Symbol, SymbolLang, SymbolSource, SymbolType};

verus! {

#[verifier::external_type_specification]
#[verifier::external_body]
pub struct ExMachO<'a>(goblin::mach::MachO<'a>);

/// Whether goblin parses the image (a fat binary's first slice counts);
/// a function of the bytes alone.
pub uninterp spec fn mach_parses(b: Seq<u8>) -> bool;

/// The header fields the loader reads from an image that parses:
/// (is_64, little_endian, cputype, cpusubtype).
pub uninterp spec fn mach_header_of(b: Seq<u8>) -> (bool, bool, u32, u32);

/// Relies on goblin::mach::Mach::parse; a fat binary hands out its first
/// object through goblin::mach::MultiArch::get. Success is named
/// `mach_parses`.
#[verifier::external_body]
pub fn mach_parse(data: &[u8]) -> (r: Option<goblin::mach::MachO<'_>>)
    ensures
        r is Some <==> mach_parses(data@),
{
    match goblin::mach::Mach::parse(data) {
        Ok(goblin::mach::Mach::Binary(m)) => Some(m),
        Ok(goblin::mach::Mach::Fat(f)) => match f.get(0) {
            Ok(goblin::mach::SingleArch::MachO(m)) => Some(m),
            _ => None,
        },
        Err(_) => None,
    }
}

/// Relies on goblin::mach::Mach::parse and the public fields of
/// goblin::mach::MachO: is_64, little_endian, and the header's cputype
/// and cpusubtype, named `mach_header_of`.
#[verifier::external_body]
fn mach_info(bytes: &[u8]) -> (r: Option<(bool, bool, u32, u32)>)
    ensures
        r is Some <==> mach_parses(bytes@),
        r matches Some(h) ==> h == mach_header_of(bytes@),
{
    let m = mach_parse(bytes)?;
    Some((m.is_64, m.little_endian, m.header.cputype, m.header.cpusubtype))
}

/// The sections of every segment of an image that parses, in segment
/// order: each section's (sectname, addr, size, offset); a segment whose
/// sections fail to decode contributes nothing.
pub uninterp spec fn mach_sects_of(b: Seq<u8>) -> Seq<(Seq<u8>, u64, u64, u32)>;

/// Relies on goblin::mach::Mach::parse, the segments field of
/// goblin::mach::MachO and goblin::mach::segment::Segment::sections;
/// each section's (sectname, addr, size, offset) moves into a plain
/// tuple, named `mach_sects_of`.
#[verifier::external_body]
fn mach_sections(bytes: &[u8]) -> (r: Option<Vec<([u8; 16], u64, u64, u32)>>)
    ensures
        r is Some <==> mach_parses(bytes@),
        r matches Some(v) ==> v.deep_view() == mach_sects_of(bytes@),
{
    let m = mach_parse(bytes)?;
    let mut out = Vec::new();
    for seg in &m.segments {
        if let Ok(secs) = seg.sections() {
            out.extend(secs.into_iter().map(|(s, _)| (s.sectname, s.addr, s.size, s.offset)));
        }
    }
    Some(out)
}

/// The Mach-O symbol-table entries of an image that parses: for each,
/// the name with the Nlist fields (n_type, n_sect, n_value); an entry
/// that failed to decode reads as `None` in place.
pub uninterp spec fn mach_syms_of(b: Seq<u8>) -> Seq<Option<(Seq<char>, u8, usize, u64)>>;

/// Relies on goblin::mach::Mach::parse and goblin::mach::MachO::symbols;
/// each entry becomes the symbol name with the Nlist fields, a decoding
/// error becomes `None` in place; the result is named `mach_syms_of`.
#[verifier::external_body]
fn mach_symbols(bytes: &[u8]) -> (r: Option<Vec<Option<(String, u8, usize, u64)>>>)
    ensures
        r is Some <==> mach_parses(bytes@),
        r matches Some(v) ==> v.deep_view() == mach_syms_of(bytes@),
{
    let m = mach_parse(bytes)?;
    Some(
        m.symbols().map(
            |it| it.ok().map(|(name, nl)| (name.to_string(), nl.n_type, nl.n_sect, nl.n_value)),
        ).collect(),
    )
}

/// Architecture, word size and byte order from the Mach-O header. An
/// image that does not parse reads as unknown.
pub fn load_arch_info(bytes: &[u8]) -> (r: (Arch, Bits, Endian))
    ensures
        mach_parses(bytes@) ==> {
            &&& r.0 == crate::binary::spec_arch_from_mach_cpu(mach_header_of(bytes@).2)
            &&& r.1 == if mach_header_of(bytes@).0 {
                Bits::Bits64
            } else {
                Bits::Bits32
            }
            &&& r.2 == if mach_header_of(bytes@).1 {
                Endian::Little
            } else {
                Endian::Big
            }
        },
        !mach_parses(bytes@) ==> r == (Arch::Unknown, Bits::Unknown, Endian::Unknown),
{
    let (is_64, little_endian, cputype, cpusubtype) = match mach_info(bytes) {
        Some(h) => h,
        None => {
            return (Arch::Unknown, Bits::Unknown, Endian::Unknown);
        },
    };
    let arch = Arch::from_mach_cpu_types(cputype, cpusubtype);
    let bits = if is_64 {
        Bits::Bits64
    } else {
        Bits::Bits32
    };
    let endian = if little_endian {
        Endian::Little
    } else {
        Endian::Big
    };
    (arch, bits, endian)
}

/// Turns a fixed-size Mach-O section name (a NUL-padded ASCII field)
/// into a string; bytes outside ASCII yield `None`.
pub fn section_name_string(raw: &[u8; 16]) -> (r: Option<String>)
    ensures
        match r {
            Some(n) => Some(n@) == spec_short_name(raw@),
            None => spec_short_name(raw@) is None,
        },
{
    let mut out = String::new();
    let mut i: usize = 0;
    while i < 16
        invariant
            i <= 16,
            raw@.len() == 16,
            spec_short_name(raw@) == (match spec_short_name_from(raw@, i as int) {
                Some(rest) => Some(out@ + rest),
                None => None::<Seq<char>>,
            }),
        decreases 16 - i,
    {
        let b = raw[i];
        if b == 0 {
            proof {
                assert(spec_short_name_from(raw@, i as int) == Some(Seq::<char>::empty()));
                assert(out@ + Seq::<char>::empty() =~= out@);
            }
            return Some(out);
        }
        if b >= 128 {
            proof {
                assert(spec_short_name_from(raw@, i as int) is None);
            }
            return None;
        }
        let ghost pre = out@;
        out.push(b as char);
        proof {
            assert(out@ =~= pre + seq![b as char]);
            match spec_short_name_from(raw@, i + 1) {
                Some(rest) => {
                    assert(spec_short_name_from(raw@, i as int) == Some(
                        seq![raw@[i as int] as char] + rest,
                    ));
                    assert(pre + (seq![b as char] + rest) =~= out@ + rest);
                },
                None => {
                    assert(spec_short_name_from(raw@, i as int) is None);
                },
            }
        }
        i = i + 1;
    }
    proof {
        assert(spec_short_name_from(raw@, 16) == Some(Seq::<char>::empty()));
        assert(out@ + Seq::<char>::empty() =~= out@);
    }
    Some(out)
}

/// The sections the loader keeps, from entry `i` on, as (name, address,
/// size, offset) descriptions: sections with a load address of zero or
/// ranges that do not fit drop out.
pub open spec fn spec_mach_kept_sections(b: Seq<u8>, i: int) -> Seq<(Seq<char>, u64, u64, u64)>
    decreases mach_sects_of(b).len() - i,
{
    if 0 <= i < mach_sects_of(b).len() {
        let e = mach_sects_of(b)[i];
        let rest = spec_mach_kept_sections(b, i + 1);
        if e.1 != 0 && e.1 + e.2 <= u64::MAX && e.3 + e.2 <= u64::MAX {
            seq![
                (
                    match spec_short_name(e.0) {
                        Some(n) => n,
                        None => Seq::<char>::empty(),
                    },
                    e.1,
                    e.2,
                    e.3 as u64,
                ),
            ] + rest
        } else {
            rest
        }
    } else {
        Seq::empty()
    }
}

/// Builds the section table from every segment's sections: each kept
/// section becomes an entry, the list is sorted by (address, size), and
/// overlaps are dropped. The result is exactly the overlap-drop of a
/// sorted permutation of the kept sections; an image that does not
/// parse yields an empty table.
pub fn build_section_table(bytes: &[u8]) -> (r: Vec<Section>)
    ensures
        sections_wf(r@),
        !mach_parses(bytes@) ==> r@ =~= Seq::<Section>::empty(),
        mach_parses(bytes@) ==> exists|pre: Seq<Section>, srt: Seq<Section>|
            #![trigger pre.to_multiset(), srt.to_multiset()]
            {
                &&& pre.len() == spec_mach_kept_sections(bytes@, 0).len()
                &&& (forall|j: int|
                    0 <= j < pre.len() ==> sec_desc_matches(
                        #[trigger] pre[j],
                        spec_mach_kept_sections(bytes@, 0)[j],
                    ))
                &&& srt.to_multiset() == pre.to_multiset()
                &&& sec_sorted(srt)
                &&& r@ == spec_drop_from(srt, 0, 0)
            },
{
    let raw = match mach_sections(bytes) {
        Some(v) => v,
        None => {
            let none_out: Vec<Section> = Vec::new();
            proof {
                assert(none_out@ =~= Seq::<Section>::empty());
            }
            return none_out;
        },
    };
    let ghost b = bytes@;
    let ghost kept = spec_mach_kept_sections(b, 0);
    proof {
        assert(raw.deep_view() == mach_sects_of(b));
        assert(raw@.len() == mach_sects_of(b).len());
    }
    let mut out: Vec<Section> = Vec::new();
    let mut i: usize = 0;
    while i < raw.len()
        invariant
            i <= raw@.len(),
            b == bytes@,
            raw.deep_view() == mach_sects_of(b),
            raw@.len() == mach_sects_of(b).len(),
            kept == spec_mach_kept_sections(b, 0),
            out@.len() <= kept.len(),
            kept.skip(out@.len() as int) =~= spec_mach_kept_sections(b, i as int),
            forall|j: int|
                0 <= j < out@.len() ==> sec_desc_matches(#[trigger] out@[j], kept[j]),
            crate::binary::sections::sec_all_wf(out@),
        decreases raw@.len() - i,
    {
        let ghost e = mach_sects_of(b)[i as int];
        let ghost done = out@.len() as int;
        let (raw_name, addr, size, offset) = raw[i];
        proof {
            assert(e == raw@[i as int].deep_view());
            assert(e.1 == addr && e.2 == size && e.3 == offset);
            assert(e.0 =~= raw_name@);
        }
        if addr != 0 && addr <= u64::MAX - size && (offset as u64) <= u64::MAX - size {
            let name = match section_name_string(&raw_name) {
                Some(n) => n,
                None => String::new(),
            };
            let s = Section { name, addr, size, offset: offset as u64 };
            proof {
                let desc = (
                    match spec_short_name(e.0) {
                        Some(n) => n,
                        None => Seq::<char>::empty(),
                    },
                    e.1,
                    e.2,
                    e.3 as u64,
                );
                assert(s.wf());
                assert(sec_desc_matches(s, desc));
                assert(spec_mach_kept_sections(b, i as int) == seq![desc]
                    + spec_mach_kept_sections(b, i + 1));
                assert(kept.skip(done)[0] == desc);
                assert(kept[done] == kept.skip(done)[0]);
                assert(kept.skip(done).drop_first() =~= kept.skip(done + 1));
                assert(kept.skip(done + 1) =~= spec_mach_kept_sections(b, i + 1));
            }
            out.push(s);
        } else {
            proof {
                assert(spec_mach_kept_sections(b, i as int) == spec_mach_kept_sections(
                    b,
                    i + 1,
                ));
            }
        }
        i = i + 1;
    }
    proof {
        assert(kept.skip(out@.len() as int) =~= Seq::<(Seq<char>, u64, u64, u64)>::empty());
        assert(out@.len() == kept.len());
    }
    let ghost pre_sort = out@;
    sort_sections(&mut out);
    let ghost srt_g = out@;
    let result = drop_overlaps(out);
    proof {
        assert(pre_sort.len() == kept.len());
        assert(srt_g.to_multiset() == pre_sort.to_multiset());
        assert(sec_sorted(srt_g));
        assert(result@ == spec_drop_from(srt_g, 0, 0));
    }
    result
}

/// Whether any section carries one of the DWARF debug-section names.
pub fn contains_dwarf(sections: &Vec<Section>) -> (r: bool)
    ensures
        r == exists|i: int|
            0 <= i < sections@.len() && crate::util::spec_is_dwarf_section_name(
                (#[trigger] sections@[i]).name@,
            ),
{
    let mut i: usize = 0;
    while i < sections.len()
        invariant
            i <= sections@.len(),
            forall|k: int|
                0 <= k < i ==> !crate::util::spec_is_dwarf_section_name(
                    (#[trigger] sections@[k]).name@,
                ),
        decreases sections@.len() - i,
    {
        if crate::util::is_dwarf_section_name(sections[i].name.as_str()) {
            assert(crate::util::spec_is_dwarf_section_name(sections@[i as int].name@));
            return true;
        }
        i = i + 1;
    }
    false
}

/// The addresses the walk records: every decodable debug-map (stab)
/// entry with a valid section contributes its value.
pub open spec fn spec_mach_addrs(
    entries: Seq<Option<(Seq<char>, u8, usize, u64)>>,
    i: int,
) -> Seq<u64>
    decreases entries.len() - i,
{
    if 0 <= i < entries.len() {
        let rest = spec_mach_addrs(entries, i + 1);
        match entries[i] {
            Some(e) => if e.2 != 0 && e.1 & 0xe0 != 0 {
                seq![e.3] + rest
            } else {
                rest
            },
            None => rest,
        }
    } else {
        Seq::empty()
    }
}

/// The entries the walk emits, before sizes are known: each decodable
/// N_FUN entry with a valid section, a non-empty name, and a backed
/// address whose offset fits, as (demangled name, address, offset).
pub open spec fn spec_mach_emits(
    entries: Seq<Option<(Seq<char>, u8, usize, u64)>>,
    sections: Seq<Section>,
    i: int,
) -> Seq<(Seq<char>, u64, int)>
    decreases entries.len() - i,
{
    if 0 <= i < entries.len() {
        let rest = spec_mach_emits(entries, sections, i + 1);
        match entries[i] {
            Some(e) => if e.2 != 0 && e.1 == 0x24 && e.0.len() > 0 {
                match spec_addr_to_offset(sections, e.3) {
                    Some(off) => if off <= usize::MAX {
                        seq![(crate::symbol::spec_demangle(e.0), e.3, off)] + rest
                    } else {
                        rest
                    },
                    None => rest,
                }
            } else {
                rest
            },
            None => rest,
        }
    } else {
        Seq::empty()
    }
}

/// A symbol realizes a sized entry: same name, address, file position
/// and length, from the Mach-O object table.
pub open spec fn mach_sym_matches(s: Symbol, d: (Seq<char>, u64, int, int)) -> bool {
    &&& s.name@ == d.0
    &&& s.addr == d.1
    &&& s.bpos == d.2
    &&& s.blen == d.3
    &&& s.source == SymbolSource::Mach
}

/// Emits exactly the sized entries of the Mach-O symbol table: the
/// table records no sizes, so the pass records the address of every
/// decodable debug-map (stab) entry with a valid section, emits the
/// N_FUN entries with a name and a backed address, and keeps each with
/// the distance to the next recorded address as its size; entries with
/// no successor drop out. Every emitted symbol has a positive size and
/// a file offset that is exactly what `addr_to_offset` yields for its
/// address. An image goblin does not parse emits nothing.
pub fn load_symbols(bytes: &[u8], sections: &Vec<Section>, out: &mut Vec<Symbol>)
    requires
        sections_wf(sections@),
        forall|k: int| 0 <= k < old(out)@.len() ==> (#[trigger] old(out)@[k]).wf(),
    ensures
        forall|k: int| 0 <= k < old(out)@.len() ==> final(out)@[k] == old(out)@[k],
        !mach_parses(bytes@) ==> final(out)@ == old(out)@,
        mach_parses(bytes@) ==> exists|addrs: Seq<u64>|
            {
                &&& crate::binary::sizes::strictly_increasing(addrs)
                &&& (forall|x: u64|
                    #[trigger] addrs.contains(x) <==> spec_mach_addrs(
                        mach_syms_of(bytes@),
                        0,
                    ).contains(x))
                &&& final(out)@.len() == old(out)@.len() + crate::binary::sizes::spec_sized_descs(
                    spec_mach_emits(mach_syms_of(bytes@), sections@, 0),
                    addrs,
                    0,
                ).len()
                &&& forall|j: int|
                    0 <= j < final(out)@.len() - old(out)@.len() ==> mach_sym_matches(
                        #[trigger] final(out)@[old(out)@.len() + j],
                        crate::binary::sizes::spec_sized_descs(
                            spec_mach_emits(mach_syms_of(bytes@), sections@, 0),
                            addrs,
                            0,
                        )[j],
                    )
            },
        forall|k: int|
            old(out)@.len() <= k < final(out)@.len() ==> {
                let s = #[trigger] final(out)@[k];
                &&& s.wf()
                &&& s.source == SymbolSource::Mach
                &&& s.blen > 0
                &&& spec_addr_to_offset(sections@, s.addr) == Some(s.bpos as int)
            },
{
    let entries = match mach_symbols(bytes) {
        Some(v) => v,
        None => {
            return ;
        },
    };
    let ghost dv = mach_syms_of(bytes@);
    proof {
        assert(entries.deep_view() == dv);
        assert(entries@.len() == dv.len());
    }
    let base = out.len();
    let ghost base_g = out@.len() as int;

    // record the address of every stab entry with a valid section; an
    // entry that failed to decode is dropped, and the walk goes on
    let mut addresses: Vec<u64> = Vec::new();
    let mut i: usize = 0;
    while i < entries.len()
        invariant
            i <= entries@.len(),
            entries.deep_view() == dv,
            entries@.len() == dv.len(),
            spec_mach_addrs(dv, 0) =~= addresses@ + spec_mach_addrs(dv, i as int),
        decreases entries@.len() - i,
    {
        let ghost e_dv = dv[i as int];
        proof {
            assert(e_dv == entries@[i as int].deep_view());
        }
        match &entries[i] {
            Some(e) => {
                if e.2 != 0 && (e.1 & 0xe0) != 0 {
                    let ghost pre = addresses@;
                    addresses.push(e.3);
                    proof {
                        assert(addresses@ =~= pre.push(e.3));
                        assert(spec_mach_addrs(dv, i as int) == seq![e.3] + spec_mach_addrs(
                            dv,
                            i + 1,
                        ));
                        assert(pre + (seq![e.3] + spec_mach_addrs(dv, i + 1)) =~= addresses@
                            + spec_mach_addrs(dv, i + 1));
                    }
                } else {
                    proof {
                        assert(spec_mach_addrs(dv, i as int) == spec_mach_addrs(dv, i + 1));
                    }
                }
            },
            None => {
                proof {
                    assert(spec_mach_addrs(dv, i as int) == spec_mach_addrs(dv, i + 1));
                }
            },
        }
        i = i + 1;
    }
    proof {
        assert(spec_mach_addrs(dv, entries@.len() as int) =~= Seq::<u64>::empty());
        assert(addresses@ =~= spec_mach_addrs(dv, 0));
    }
    let ghost raw_addrs = addresses@;
    sort_addresses(&mut addresses);
    let addresses = dedup_sorted(&addresses);
    let ghost addrs_g = addresses@;

    // emit the function (N_FUN) entries; undecodable entries are dropped
    let ghost emits = spec_mach_emits(dv, sections@, 0);
    let mut i2: usize = 0;
    while i2 < entries.len()
        invariant
            i2 <= entries@.len(),
            entries.deep_view() == dv,
            entries@.len() == dv.len(),
            sections_wf(sections@),
            emits == spec_mach_emits(dv, sections@, 0),
            out@.len() >= base_g,
            base_g == base as int,
            out@.len() - base_g <= emits.len(),
            forall|k: int| 0 <= k < base_g ==> out@[k] == old(out)@[k],
            emits.skip(out@.len() - base_g) =~= spec_mach_emits(dv, sections@, i2 as int),
            forall|t: int|
                0 <= t < out@.len() - base_g ==> {
                    let s = #[trigger] out@[base_g + t];
                    &&& s.name@ == emits[t].0
                    &&& s.addr == emits[t].1
                    &&& s.bpos == emits[t].2
                    &&& s.blen == 0
                    &&& s.source == SymbolSource::Mach
                },
            forall|k: int| 0 <= k < out@.len() ==> (#[trigger] out@[k]).wf(),
            forall|k: int|
                base_g <= k < out@.len() ==> {
                    let s = #[trigger] out@[k];
                    &&& s.source == SymbolSource::Mach
                    &&& spec_addr_to_offset(sections@, s.addr) == Some(s.bpos as int)
                },
        decreases entries@.len() - i2,
    {
        let ghost done = out@.len() - base_g;
        let ghost e_dv = dv[i2 as int];
        proof {
            assert(e_dv == entries@[i2 as int].deep_view());
        }
        match &entries[i2] {
            Some(e) => {
                if e.2 != 0 && e.1 == 0x24 && e.0.unicode_len() > 0 {
                    match addr_to_offset(sections, e.3) {
                        Some(off) => {
                            if off <= usize::MAX as u64 {
                                let sym = Symbol::new(
                                    clone_string(&e.0),
                                    e.3,
                                    off as usize,
                                    0,
                                    SymbolType::Function,
                                    SymbolSource::Mach,
                                    SymbolLang::Unknown,
                                );
                                proof {
                                    let head = (
                                        crate::symbol::spec_demangle(e.0@),
                                        e.3,
                                        off as int,
                                    );
                                    assert(spec_mach_emits(dv, sections@, i2 as int) == seq![head]
                                        + spec_mach_emits(dv, sections@, i2 + 1));
                                    assert(emits.skip(done)[0] == head);
                                    assert(emits[done] == emits.skip(done)[0]);
                                    assert(emits.skip(done).drop_first() =~= emits.skip(done + 1));
                                    assert(emits.skip(done + 1) =~= spec_mach_emits(
                                        dv,
                                        sections@,
                                        i2 + 1,
                                    ));
                                }
                                out.push(sym);
                            } else {
                                proof {
                                    assert(spec_mach_emits(dv, sections@, i2 as int)
                                        == spec_mach_emits(dv, sections@, i2 + 1));
                                }
                            }
                        },
                        None => {
                            proof {
                                assert(spec_mach_emits(dv, sections@, i2 as int)
                                    == spec_mach_emits(dv, sections@, i2 + 1));
                            }
                        },
                    }
                } else {
                    proof {
                        assert(spec_mach_emits(dv, sections@, i2 as int) == spec_mach_emits(
                            dv,
                            sections@,
                            i2 + 1,
                        ));
                    }
                }
            },
            None => {
                proof {
                    assert(spec_mach_emits(dv, sections@, i2 as int) == spec_mach_emits(
                        dv,
                        sections@,
                        i2 + 1,
                    ));
                }
            },
        }
        i2 = i2 + 1;
    }
    proof {
        assert(emits.skip(out@.len() - base_g) =~= Seq::<(Seq<char>, u64, int)>::empty());
        assert(out@.len() - base_g == emits.len());
    }

    // infer sizes from successor addresses; entries with no successor
    // are dropped
    let ghost mid = out@;
    infer_sizes(out, base, &addresses);
    proof {
        assert forall|k: int|
            base_g <= k < mid.len() implies {
            let d = #[trigger] emits[k - base_g + 0];
            &&& mid[k].name@ == d.0
            &&& mid[k].addr == d.1
            &&& mid[k].bpos == d.2
        } by {
            let t = k - base_g;
            assert(emits[k - base_g + 0] == emits[t]);
            assert(mid[base_g + t].name@ == emits[t].0 && mid[base_g + t].addr == emits[t].1
                && mid[base_g + t].bpos == emits[t].2);
            assert(mid[k] == mid[base_g + t]);
        }
        crate::binary::sizes::lemma_sized_correspond(mid, base_g, emits, 0, addrs_g);
        assert(out@ =~= mid.subrange(0, base_g) + crate::binary::sizes::spec_sized_syms(
            mid,
            base_g,
            addrs_g,
        ));
        assert forall|j: int|
            0 <= j < out@.len() - base_g implies mach_sym_matches(
            #[trigger] out@[base_g + j],
            crate::binary::sizes::spec_sized_descs(emits, addrs_g, 0)[j],
        ) by {
            assert(out@[base_g + j] == crate::binary::sizes::spec_sized_syms(
                mid,
                base_g,
                addrs_g,
            )[j]);
            let s = crate::binary::sizes::spec_sized_syms(mid, base_g, addrs_g)[j];
            let m_idx = choose|m_idx: int|
                base_g <= m_idx < mid.len() && s == (Symbol { blen: s.blen, ..#[trigger] mid[m_idx] });
            assert(s.source == mid[m_idx].source);
        }
        assert forall|k: int| base_g <= k < out@.len() implies {
            let s = #[trigger] out@[k];
            &&& s.wf()
            &&& s.source == SymbolSource::Mach
            &&& s.blen > 0
            &&& spec_addr_to_offset(sections@, s.addr) == Some(s.bpos as int)
        } by {
            let s = out@[k];
            let m_idx = choose|m_idx: int|
                base_g <= m_idx < mid.len() && s == (Symbol { blen: s.blen, ..#[trigger] mid[m_idx] });
            assert(s.addr == mid[m_idx].addr && s.bpos == mid[m_idx].bpos && s.source
                == mid[m_idx].source);
        }
    }
}

} // verus!
