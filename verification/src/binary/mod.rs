pub mod data;
pub mod elf;
pub mod mach;
pub mod pe;
pub mod sections;
pub mod sizes;

use vstd::prelude::*;

use crate::error::Error;
use crate::index;
use crate::symbol::{
    spec_eq_ignore_case, spec_parse_symbol_source, spec_priority, Symbol, SymbolSource,
};
use self::data::BinaryData;
use self::sections::{sections_wf, Section};

verus! {

/// While fewer than this many symbols are loaded and the source list is
/// `auto`, the loader keeps consulting further sources.
pub const AUTO_SOURCES_THRESHOLD: usize = 128 * 1024;

/// Instruction-set architecture of a loaded object.
#[derive(Copy, Clone, PartialEq, Eq, Structural, Debug)]
pub enum Arch {
    Unknown,
    X86,
    X86_64,
    Arm,
    AArch64,
}

impl Arch {
    /// ELF e_machine values, as the ELF specification assigns them.
    pub fn from_elf_machine(machine: u16) -> (r: Arch)
        ensures
            r == spec_arch_from_elf_machine(machine),
    {
        if machine == 3 {
            Arch::X86
        } else if machine == 62 {
            Arch::X86_64
        } else if machine == 40 {
            Arch::Arm
        } else if machine == 183 {
            Arch::AArch64
        } else {
            Arch::Unknown
        }
    }

    /// Mach-O cputype values.
    pub fn from_mach_cpu_types(cpu_type: u32, _cpu_subtype: u32) -> (r: Arch)
        ensures
            r == spec_arch_from_mach_cpu(cpu_type),
    {
        if cpu_type == 12 {
            // CPU_TYPE_ARM
            Arch::Arm
        } else if cpu_type == 0x0100000c {
            // CPU_TYPE_ARM64
            Arch::AArch64
        } else if cpu_type == 0x0200000c {
            // CPU_TYPE_ARM64_32
            Arch::AArch64
        } else if cpu_type == 7 {
            // CPU_TYPE_X86
            Arch::X86
        } else if cpu_type == 0x01000007 {
            // CPU_TYPE_X86_64
            Arch::X86_64
        } else {
            Arch::Unknown
        }
    }

    /// PE/COFF machine values.
    pub fn from_coff_machine(machine: u16) -> (r: Arch)
        ensures
            r == spec_arch_from_coff_machine(machine),
    {
        if machine == 0x014c {
            Arch::X86
        } else if machine == 0x8664 {
            Arch::X86_64
        } else if machine == 0x01c0 {
            Arch::Arm
        } else if machine == 0xaa64 {
            Arch::AArch64
        } else {
            Arch::Unknown
        }
    }
}

pub open spec fn spec_arch_from_elf_machine(machine: u16) -> Arch {
    if machine == 3 {
        Arch::X86
    } else if machine == 62 {
        Arch::X86_64
    } else if machine == 40 {
        Arch::Arm
    } else if machine == 183 {
        Arch::AArch64
    } else {
        Arch::Unknown
    }
}

pub open spec fn spec_arch_from_mach_cpu(cpu_type: u32) -> Arch {
    if cpu_type == 12 {
        Arch::Arm
    } else if cpu_type == 0x0100000c {
        Arch::AArch64
    } else if cpu_type == 0x0200000c {
        Arch::AArch64
    } else if cpu_type == 7 {
        Arch::X86
    } else if cpu_type == 0x01000007 {
        Arch::X86_64
    } else {
        Arch::Unknown
    }
}

pub open spec fn spec_arch_from_coff_machine(machine: u16) -> Arch {
    if machine == 0x014c {
        Arch::X86
    } else if machine == 0x8664 {
        Arch::X86_64
    } else if machine == 0x01c0 {
        Arch::Arm
    } else if machine == 0xaa64 {
        Arch::AArch64
    } else {
        Arch::Unknown
    }
}

/// Word size of a loaded object.
#[derive(Copy, Clone, PartialEq, Eq, Structural, Debug)]
pub enum Bits {
    Unknown,
    Bits32,
    Bits64,
}

impl Bits {
    /// ELF EI_CLASS values: 1 is 32-bit, 2 is 64-bit.
    pub fn from_elf_class(class: u8) -> (r: Bits)
        ensures
            class == 1 ==> r == Bits::Bits32,
            class == 2 ==> r == Bits::Bits64,
            class != 1 && class != 2 ==> r == Bits::Unknown,
    {
        if class == 1 {
            Bits::Bits32
        } else if class == 2 {
            Bits::Bits64
        } else {
            Bits::Unknown
        }
    }
}

/// Byte order of a loaded object.
#[derive(Copy, Clone, PartialEq, Eq, Structural, Debug)]
pub enum Endian {
    Unknown,
    Little,
    Big,
}

/// Object container formats this loader recognizes from the leading magic.
#[derive(Copy, Clone, PartialEq, Eq, Structural, Debug)]
pub enum ObjectFormat {
    Elf,
    MachThin,
    MachFat,
    Pe,
    Archive,
    Unknown,
}

/// The format a file's magic bytes announce: ELF (`\x7fELF`), Mach-O thin
/// (FEEDFACE/FEEDFACF in either byte order), Mach-O fat (CAFEBABE /
/// BEBAFECA), PE (`MZ`), or a Unix archive (`!<arch>\n`).
pub open spec fn spec_detect_format(b: Seq<u8>) -> ObjectFormat {
    if b.len() >= 4 && b[0] == 0x7f && b[1] == 0x45 && b[2] == 0x4c && b[3] == 0x46 {
        ObjectFormat::Elf
    } else if b.len() >= 4 && ((b[0] == 0xfe && b[1] == 0xed && b[2] == 0xfa && (b[3] == 0xce || b[3]
        == 0xcf)) || (((b[0] == 0xce || b[0] == 0xcf)) && b[1] == 0xfa && b[2] == 0xed && b[3]
        == 0xfe)) {
        ObjectFormat::MachThin
    } else if b.len() >= 4 && ((b[0] == 0xca && b[1] == 0xfe && b[2] == 0xba && b[3] == 0xbe) || (
    b[0] == 0xbe && b[1] == 0xba && b[2] == 0xfe && b[3] == 0xca)) {
        ObjectFormat::MachFat
    } else if b.len() >= 2 && b[0] == 0x4d && b[1] == 0x5a {
        ObjectFormat::Pe
    } else if b.len() >= 8 && b[0] == 0x21 && b[1] == 0x3c && b[2] == 0x61 && b[3] == 0x72 && b[4]
        == 0x63 && b[5] == 0x68 && b[6] == 0x3e && b[7] == 0x0a {
        ObjectFormat::Archive
    } else {
        ObjectFormat::Unknown
    }
}

/// Identifies the object format from the leading bytes of the image.
pub fn detect_format(b: &[u8]) -> (r: ObjectFormat)
    ensures
        r == spec_detect_format(b@),
{
    let n = b.len();
    if n >= 4 && b[0] == 0x7f && b[1] == 0x45 && b[2] == 0x4c && b[3] == 0x46 {
        ObjectFormat::Elf
    } else if n >= 4 && ((b[0] == 0xfe && b[1] == 0xed && b[2] == 0xfa && (b[3] == 0xce || b[3]
        == 0xcf)) || ((b[0] == 0xce || b[0] == 0xcf) && b[1] == 0xfa && b[2] == 0xed && b[3]
        == 0xfe)) {
        ObjectFormat::MachThin
    } else if n >= 4 && ((b[0] == 0xca && b[1] == 0xfe && b[2] == 0xba && b[3] == 0xbe) || (b[0]
        == 0xbe && b[1] == 0xba && b[2] == 0xfe && b[3] == 0xca)) {
        ObjectFormat::MachFat
    } else if n >= 2 && b[0] == 0x4d && b[1] == 0x5a {
        ObjectFormat::Pe
    } else if n >= 8 && b[0] == 0x21 && b[1] == 0x3c && b[2] == 0x61 && b[3] == 0x72 && b[4] == 0x63
        && b[5] == 0x68 && b[6] == 0x3e && b[7] == 0x0a {
        ObjectFormat::Archive
    } else {
        ObjectFormat::Unknown
    }
}

/// Which symbol emitters run (an empty list means `auto`), and the
/// sidecar overrides: explicit paths to a separate DWARF object, a dSYM
/// bundle, or a PDB file, which replace the default search beside the
/// executable.
pub struct SearchOptions {
    pub sources: Vec<SymbolSource>,
    /// Path to an object file carrying the DWARF debug information.
    pub dwarf_path: Option<String>,
    /// Path to a dSYM bundle directory.
    pub dsym_path: Option<String>,
    /// Path to a PDB file.
    pub pdb_path: Option<String>,
}

/// A loaded object: its mapped bytes, the architecture read from the
/// header, the section table sorted by address, and the symbol index.
pub struct Binary {
    /// Shared binary data.
    pub data: BinaryData,
    pub arch: Arch,
    pub endian: Endian,
    pub bits: Bits,
    /// The section table, sorted by address, overlap-free.
    pub sections: Vec<Section>,
    /// The symbol index, sorted by (address, end, priority, name).
    pub symbols: Vec<Symbol>,
}

impl Binary {
    /// The index is well-formed: every symbol valid and the vector
    /// totally ordered under the index key.
    pub open spec fn index_wf(&self) -> bool {
        index::all_wf(self.symbols@) && index::sym_sorted(self.symbols@)
    }

    pub fn arch(&self) -> (r: Arch)
        ensures
            r == self.arch,
    {
        self.arch
    }

    pub fn endian(&self) -> (r: Endian)
        ensures
            r == self.endian,
    {
        self.endian
    }

    pub fn bits(&self) -> (r: Bits)
        ensures
            r == self.bits,
    {
        self.bits
    }

    /// Returns a symbol (and the offset of `addr` inside it) for an
    /// address. The returned symbol covers `addr` and no duplicate of its
    /// range outranks it; when the index's ranges only coincide exactly
    /// or stand apart, it carries the maximum source priority among all
    /// symbols covering `addr`, and a miss means no symbol covers it.
    pub fn symbolicate(&self, addr: u64) -> (r: Option<(&Symbol, u64)>)
        requires
            self.index_wf(),
        ensures
            match r {
                Some((sym, off)) => {
                    &&& exists|i: int|
                        0 <= i < self.symbols@.len() && *sym == self.symbols@[i]
                    &&& sym.spec_contains(addr)
                    &&& off == addr - sym.addr
                    &&& forall|j: int|
                        0 <= j < self.symbols@.len() && index::same_range(
                            #[trigger] self.symbols@[j],
                            *sym,
                        ) ==> spec_priority(sym.source) <= spec_priority(self.symbols@[j].source)
                    &&& index::ranges_disjoint_or_equal(self.symbols@) ==> forall|j: int|
                        0 <= j < self.symbols@.len() && (#[trigger] self.symbols@[j]).spec_contains(
                            addr,
                        ) ==> spec_priority(sym.source) <= spec_priority(self.symbols@[j].source)
                },
                None => index::ranges_disjoint_or_equal(self.symbols@) ==> forall|j: int|
                    0 <= j < self.symbols@.len() ==> !(#[trigger] self.symbols@[j]).spec_contains(
                        addr,
                    ),
            },
    {
        match index::find_covering(&self.symbols, addr) {
            Some(i) => {
                let sym = &self.symbols[i];
                assert(self.symbols@[i as int].wf());
                let off = addr - sym.address();
                assert(*sym == self.symbols@[i as int]);
                Some((sym, off))
            },
            None => None,
        }
    }

    /// Loads a binary: detects the container format from its magic,
    /// reads the architecture from the header, builds the section table,
    /// and gathers the object-table symbols the source selection names
    /// explicitly. Under `auto` (an empty selection) nothing is gathered
    /// here: debug information is appended first through
    /// `extend_symbols`, and `load_object_symbols` supplies the
    /// object-table fall-back when that yielded few symbols. An unknown
    /// magic or an archive is fatal; so is a header the parser rejects.
    pub fn new(data: BinaryData, options: &SearchOptions) -> (r: Result<Binary, Error>)
        requires
            data.wf(),
        ensures
            match r {
                Ok(b) => b.index_wf() && sections_wf(b.sections@) && b.data.wf(),
                Err(_) => true,
            },
            spec_detect_format(data@) == ObjectFormat::Unknown ==> r is Err,
            spec_detect_format(data@) == ObjectFormat::Archive ==> r is Err,
            spec_detect_format(data@) == ObjectFormat::Elf ==> (r is Ok <==> elf::elf_parses(
                data@,
            )),
            (spec_detect_format(data@) == ObjectFormat::MachThin || spec_detect_format(data@)
                == ObjectFormat::MachFat) ==> (r is Ok <==> mach::mach_parses(data@)),
            spec_detect_format(data@) == ObjectFormat::Pe ==> (r is Ok <==> pe::pe_parses(data@)),
    {
        let mut arch = Arch::Unknown;
        let mut endian = Endian::Unknown;
        let mut bits = Bits::Unknown;
        let mut sections_v: Vec<Section> = Vec::new();
        let mut symbols: Vec<Symbol> = Vec::new();
        let fmt = detect_format(data.as_bytes());
        match fmt {
            ObjectFormat::Elf => {
                let bytes = data.as_bytes();
                match elf::elf_parse(bytes) {
                    Some(_elf_obj) => {
                        let (a, bt, e) = elf::load_arch_info(bytes);
                        arch = a;
                        bits = bt;
                        endian = e;
                        sections_v = elf::build_section_table(bytes);
                        let load_obj = wants_source(options, SymbolSource::Elf);
                        if load_obj {
                            elf::load_symbols(bytes, &sections_v, &mut symbols);
                        }
                    },
                    None => {
                        return Err(
                            Error::Format(String::from_str("failed to parse the ELF image")),
                        );
                    },
                }
            },
            ObjectFormat::MachThin | ObjectFormat::MachFat => {
                let bytes = data.as_bytes();
                match mach::mach_parse(bytes) {
                    Some(_mach_obj) => {
                        let (a, bt, e) = mach::load_arch_info(bytes);
                        arch = a;
                        bits = bt;
                        endian = e;
                        sections_v = mach::build_section_table(bytes);
                        let load_obj = wants_source(options, SymbolSource::Mach);
                        if load_obj {
                            mach::load_symbols(bytes, &sections_v, &mut symbols);
                        }
                    },
                    None => {
                        return Err(
                            Error::Format(String::from_str("failed to parse the Mach-O image")),
                        );
                    },
                }
            },
            ObjectFormat::Pe => {
                let bytes = data.as_bytes();
                match pe::pe_parse(bytes) {
                    Some(_pe_obj) => {
                        let (a, bt, e) = pe::load_arch_info(bytes);
                        arch = a;
                        bits = bt;
                        endian = e;
                        sections_v = pe::build_section_table(bytes);
                        let load_obj = wants_source(options, SymbolSource::Pe);
                        if load_obj {
                            pe::load_symbols(bytes, &sections_v, &mut symbols);
                        }
                    },
                    None => {
                        return Err(
                            Error::Format(String::from_str("failed to parse the PE image")),
                        );
                    },
                }
            },
            ObjectFormat::Archive => {
                return Err(
                    Error::Unsupported(
                        String::from_str("archive objects are not currently supported"),
                    ),
                );
            },
            ObjectFormat::Unknown => {
                return Err(
                    Error::Format(String::from_str("failed to identify the object format magic")),
                );
            },
        }
        index::sort_symbols(&mut symbols);
        Ok(Binary { data, arch, endian, bits, sections: sections_v, symbols })
    }

    /// Appends symbols from a further source (debug information) and
    /// restores the index's order; the result holds exactly the old and
    /// the new symbols together.
    pub fn extend_symbols(&mut self, more: Vec<Symbol>)
        requires
            index::all_wf(old(self).symbols@),
            index::all_wf(more@),
        ensures
            final(self).index_wf(),
            final(self).data == old(self).data,
            final(self).arch == old(self).arch,
            final(self).endian == old(self).endian,
            final(self).bits == old(self).bits,
            final(self).sections == old(self).sections,
            final(self).symbols@.to_multiset() == (old(self).symbols@ + more@).to_multiset(),
    {
        let ghost olds = self.symbols@;
        let ghost more_g = more@;
        let mut rest = more;
        while rest.len() > 0
            invariant
                index::all_wf(self.symbols@),
                self.symbols@ + rest@ =~= olds + more_g,
                index::all_wf(rest@),
                self.data == old(self).data,
                self.arch == old(self).arch,
                self.endian == old(self).endian,
                self.bits == old(self).bits,
                self.sections == old(self).sections,
            decreases rest@.len(),
        {
            let ghost pre = self.symbols@;
            let ghost rpre = rest@;
            let x = rest.remove(0);
            assert(x == rpre[0]);
            assert(rest@ =~= rpre.drop_first());
            assert(x.wf()) by {
                assert(rpre[0].wf());
            }
            self.symbols.push(x);
            proof {
                assert(self.symbols@ =~= pre.push(x));
                assert(self.symbols@ + rest@ =~= pre + rpre);
                assert(index::all_wf(self.symbols@)) by {
                    assert(forall|k: int| 0 <= k < pre.len() ==> (#[trigger] pre[k]).wf());
                }
                assert(index::all_wf(rest@)) by {
                    assert(forall|k: int|
                        0 <= k < rest@.len() ==> rest@[k] == #[trigger] rpre[k + 1]);
                }
            }
        }
        proof {
            assert(self.symbols@ =~= self.symbols@ + rest@);
            assert(self.symbols@ =~= olds + more_g);
        }
        index::sort_symbols(&mut self.symbols);
    }

    /// What the object-table fall-back gathers: exactly what the
    /// format's own loader emits for the image, sized against the
    /// recorded addresses; an image whose table cannot be read, and a
    /// format without an object table, gather nothing.
    pub open spec fn spec_gathered_matches(b: Seq<u8>, sections: Seq<Section>, more: Seq<Symbol>) -> bool {
        let fmt = spec_detect_format(b);
        &&& fmt == ObjectFormat::Elf && elf::elf_parses(b) ==> {
            let descs = elf::spec_elf_descs(b, elf::elf_syms_of(b), sections, 0);
            &&& more.len() == descs.len()
            &&& forall|j: int|
                0 <= j < more.len() ==> elf::elf_sym_matches(#[trigger] more[j], descs[j])
        }
        &&& fmt == ObjectFormat::Elf && !elf::elf_parses(b) ==> more.len() == 0
        &&& (fmt == ObjectFormat::MachThin || fmt == ObjectFormat::MachFat)
            && mach::mach_parses(b) ==> exists|addrs: Seq<u64>|
            {
                let descs = crate::binary::sizes::spec_sized_descs(
                    mach::spec_mach_emits(mach::mach_syms_of(b), sections, 0),
                    addrs,
                    0,
                );
                &&& #[trigger] crate::binary::sizes::strictly_increasing(addrs)
                &&& (forall|x: u64|
                    #[trigger] addrs.contains(x) <==> mach::spec_mach_addrs(
                        mach::mach_syms_of(b),
                        0,
                    ).contains(x))
                &&& more.len() == descs.len()
                &&& forall|j: int|
                    0 <= j < more.len() ==> mach::mach_sym_matches(#[trigger] more[j], descs[j])
            }
        &&& (fmt == ObjectFormat::MachThin || fmt == ObjectFormat::MachFat)
            && !mach::mach_parses(b) ==> more.len() == 0
        &&& fmt == ObjectFormat::Pe && pe::pe_symtab_reads(b) ==> exists|addrs: Seq<u64>|
            {
                let descs = crate::binary::sizes::spec_sized_descs(
                    pe::spec_pe_emits(b, pe::pe_syms_of(b), sections, 0),
                    addrs,
                    0,
                );
                &&& #[trigger] crate::binary::sizes::strictly_increasing(addrs)
                &&& (forall|x: u64|
                    #[trigger] addrs.contains(x) <==> pe::spec_pe_addrs(
                        b,
                        pe::pe_syms_of(b),
                        0,
                    ).contains(x))
                &&& more.len() == descs.len()
                &&& forall|j: int|
                    0 <= j < more.len() ==> pe::pe_sym_matches(#[trigger] more[j], descs[j])
            }
        &&& fmt == ObjectFormat::Pe && !pe::pe_symtab_reads(b) ==> more.len() == 0
        &&& fmt == ObjectFormat::Archive || fmt == ObjectFormat::Unknown ==> more.len() == 0
    }

    /// Gathers the object-table symbols of the binary's own format into
    /// the index: the `auto` policy's fall-back, run after debug
    /// information when that yielded few symbols. Every old symbol
    /// stays, and every gathered one is well-formed, has a positive
    /// size, and a file offset that is exactly what `addr_to_offset`
    /// yields for its address.
    pub fn load_object_symbols(&mut self)
        requires
            index::all_wf(old(self).symbols@),
            old(self).data.wf(),
            sections_wf(old(self).sections@),
        ensures
            final(self).index_wf(),
            final(self).data == old(self).data,
            final(self).arch == old(self).arch,
            final(self).endian == old(self).endian,
            final(self).bits == old(self).bits,
            final(self).sections == old(self).sections,
            exists|more: Seq<Symbol>|
                {
                    &&& final(self).symbols@.to_multiset() == (old(self).symbols@
                        + more).to_multiset()
                    &&& forall|k: int|
                        0 <= k < more.len() ==> {
                            let s = #[trigger] more[k];
                            &&& s.wf()
                            &&& s.blen > 0
                            &&& crate::binary::sections::spec_addr_to_offset(
                                old(self).sections@,
                                s.addr,
                            ) == Some(s.bpos as int)
                        }
                    &&& Self::spec_gathered_matches(old(self).data@, old(self).sections@, more)
                },
    {
        let mut gathered: Vec<Symbol> = Vec::new();
        let fmt = detect_format(self.data.as_bytes());
        match fmt {
            ObjectFormat::Elf => {
                elf::load_symbols(self.data.as_bytes(), &self.sections, &mut gathered);
            },
            ObjectFormat::MachThin | ObjectFormat::MachFat => {
                mach::load_symbols(self.data.as_bytes(), &self.sections, &mut gathered);
            },
            ObjectFormat::Pe => {
                pe::load_symbols(self.data.as_bytes(), &self.sections, &mut gathered);
            },
            _ => {},
        }
        let ghost more = gathered@;
        proof {
            assert(forall|j: int| 0 <= j < more.len() ==> #[trigger] more[j] == more[0 + j]);
            assert(Self::spec_gathered_matches(self.data@, self.sections@, more));
        }
        self.extend_symbols(gathered);
    }

    /// Finds the symbol whose name best matches `name` under the fuzzy
    /// token metric: a symbol with a defined distance such that no other
    /// symbol scores strictly better under (distance, priority, address,
    /// file offset, name). Distances are measured in `u32`.
    pub fn fuzzy_find_symbol(&self, name: &str) -> (r: Option<&Symbol>)
        ensures
            match r {
                Some(sym) => {
                    &&& exists|i: int|
                        0 <= i < self.symbols@.len() && *sym == self.symbols@[i]
                    &&& (index::spec_candidate(name@, *sym) matches Some(di) && di <= u32::MAX)
                    &&& forall|j: int|
                        0 <= j < self.symbols@.len() ==> match index::spec_candidate(
                            name@,
                            #[trigger] self.symbols@[j],
                        ) {
                            Some(dj) => !index::fuzzy_better(
                                dj,
                                self.symbols@[j],
                                index::spec_candidate(name@, *sym).unwrap(),
                                *sym,
                            ),
                            None => true,
                        }
                },
                None => forall|j: int|
                    0 <= j < self.symbols@.len() ==> match index::spec_candidate(
                        name@,
                        #[trigger] self.symbols@[j],
                    ) {
                        Some(dj) => dj > u32::MAX,
                        None => true,
                    },
            },
    {
        match index::fuzzy_find_in(&self.symbols, name) {
            Some(i) => {
                let sym = &self.symbols[i];
                assert(*sym == self.symbols@[i as int]);
                Some(sym)
            },
            None => None,
        }
    }

    /// Scores every symbol against the query: one `(distance, index)`
    /// pair, in index order, for exactly the symbols whose tokens
    /// contain the query's tokens in order (within the `u32` range).
    pub fn fuzzy_list_symbols(&self, name: &str) -> (r: Vec<(u32, usize)>)
        ensures
            forall|k: int|
                0 <= k < r@.len() ==> {
                    let (d, j) = #[trigger] r@[k];
                    &&& j < self.symbols@.len()
                    &&& index::spec_candidate(name@, self.symbols@[j as int]) == Some(d as int)
                },
            forall|k1: int, k2: int| 0 <= k1 < k2 < r@.len() ==> r@[k1].1 < r@[k2].1,
            forall|j: int|
                0 <= j < self.symbols@.len() ==> match index::spec_candidate(
                    name@,
                    #[trigger] self.symbols@[j],
                ) {
                    Some(dj) => (0 <= dj <= u32::MAX) ==> exists|k: int|
                        0 <= k < r@.len() && #[trigger] r@[k] == (dj as u32, j as usize),
                    None => true,
                },
    {
        let query_tokens = crate::strmatch::tokenize(name, true);
        let mut out: Vec<(u32, usize)> = Vec::new();
        let mut j: usize = 0;
        while j < self.symbols.len()
            invariant
                j <= self.symbols@.len(),
                query_tokens.deep_view() == crate::strmatch::spec_tokens(name@, true),
                forall|k: int|
                    0 <= k < out@.len() ==> {
                        let (d, t) = #[trigger] out@[k];
                        &&& (t as int) < j as int
                        &&& index::spec_candidate(name@, self.symbols@[t as int]) == Some(d as int)
                    },
                forall|k1: int, k2: int| 0 <= k1 < k2 < out@.len() ==> out@[k1].1 < out@[k2].1,
                forall|t: int|
                    0 <= t < j ==> match index::spec_candidate(
                        name@,
                        #[trigger] self.symbols@[t],
                    ) {
                        Some(dt) => (0 <= dt <= u32::MAX) ==> exists|k: int|
                            0 <= k < out@.len() && #[trigger] out@[k] == (dt as u32, t as usize),
                        None => true,
                    },
            decreases self.symbols@.len() - j,
        {
            let name_tokens = crate::strmatch::tokenize(self.symbols[j].name.as_str(), true);
            proof {
                crate::strmatch::lemma_distance_nonneg(
                    query_tokens.deep_view(),
                    name_tokens.deep_view(),
                );
            }
            let ghost cand = index::spec_candidate(name@, self.symbols@[j as int]);
            match crate::strmatch::distance(&query_tokens, &name_tokens, u32::MAX) {
                Some(d) => {
                    let ghost pre = out@;
                    out.push((d, j));
                    proof {
                        assert(out@ =~= pre.push((d, j)));
                        assert(out@[out@.len() - 1] == (d, j));
                        assert(cand == Some(d as int));
                        assert forall|t: int|
                            0 <= t < j + 1 implies match index::spec_candidate(
                            name@,
                            #[trigger] self.symbols@[t],
                        ) {
                            Some(dt) => (0 <= dt <= u32::MAX) ==> exists|k: int|
                                0 <= k < out@.len() && #[trigger] out@[k] == (
                                dt as u32,
                                t as usize,
                                ),
                            None => true,
                        } by {
                            if t < j {
                                match index::spec_candidate(name@, self.symbols@[t]) {
                                    Some(dt) => {
                                        if 0 <= dt <= u32::MAX {
                                            let k = choose|k: int|
                                                0 <= k < pre.len() && #[trigger] pre[k] == (
                                                dt as u32,
                                                t as usize,
                                                );
                                            assert(out@[k] == (dt as u32, t as usize));
                                        }
                                    },
                                    None => {},
                                }
                            } else {
                                assert(out@[out@.len() - 1] == (d, j));
                            }
                        }
                    }
                },
                None => {},
            }
            j = j + 1;
        }
        out
    }
}

/// What one recognized source token contributes; `None` marks an
/// unrecognized token.
pub open spec fn spec_source_token(s: Seq<char>) -> Option<Set<SymbolSource>> {
    if spec_eq_ignore_case(s, "obj"@) {
        Some(
            Set::empty().insert(SymbolSource::Elf).insert(SymbolSource::Mach).insert(
                SymbolSource::Pe,
            ).insert(SymbolSource::Archive),
        )
    } else if spec_eq_ignore_case(s, "debug"@) {
        Some(Set::empty().insert(SymbolSource::Dwarf).insert(SymbolSource::Pdb))
    } else {
        match spec_parse_symbol_source(s) {
            Some(x) => Some(Set::empty().insert(x)),
            None => None,
        }
    }
}

pub open spec fn spec_all_sources() -> Set<SymbolSource> {
    Set::empty().insert(SymbolSource::Elf).insert(SymbolSource::Mach).insert(
        SymbolSource::Pe,
    ).insert(SymbolSource::Archive).insert(SymbolSource::Dwarf).insert(SymbolSource::Pdb)
}

/// The scan of a source list from position `i` on: `all` selects every
/// source and stops; `auto` requests automatic selection and stops; a
/// recognized token or group accumulates; an unrecognized token is a
/// configuration error.
pub open spec fn spec_scan_sources(items: Seq<Seq<char>>, i: int) -> Option<(Set<SymbolSource>, bool)>
    decreases items.len() - i,
{
    if i < 0 || i >= items.len() {
        Some((Set::empty(), false))
    } else if spec_eq_ignore_case(items[i], "all"@) {
        Some((spec_all_sources(), false))
    } else if spec_eq_ignore_case(items[i], "auto"@) {
        Some((Set::empty(), true))
    } else {
        match spec_source_token(items[i]) {
            Some(c) => match spec_scan_sources(items, i + 1) {
                Some((s2, a2)) => Some((c.union(s2), a2)),
                None => None,
            },
            None => None,
        }
    }
}

/// Parses a symbol-source list. An unrecognized token (before any `all`
/// or `auto`) is a configuration error. On success the returned list
/// holds each selected source once, debug sources first, and the flag
/// says whether automatic selection was requested — which an empty
/// selection also implies.
pub fn parse_symbol_sources(items: &Vec<String>) -> (r: Result<(Vec<SymbolSource>, bool), Error>)
    ensures
        match r {
            Ok((v, auto)) => match spec_scan_sources(items.deep_view(), 0) {
                Some((sel, a0)) => {
                    &&& forall|s: SymbolSource| v@.contains(s) <==> sel.contains(s)
                    &&& forall|p: int, q: int| 0 <= p < q < v@.len() ==> v@[p] != v@[q]
                    &&& auto == (a0 || sel =~= Set::<SymbolSource>::empty())
                },
                None => false,
            },
            Err(_) => spec_scan_sources(items.deep_view(), 0) is None,
        },
{
    let ghost iv = items.deep_view();
    let mut want_elf = false;
    let mut want_mach = false;
    let mut want_pe = false;
    let mut want_archive = false;
    let mut want_dwarf = false;
    let mut want_pdb = false;
    let mut auto = false;
    let mut i: usize = 0;
    loop
        invariant_except_break
            !auto,
        invariant
            i <= iv.len(),
            iv == items.deep_view(),
            iv.len() == items@.len(),
            spec_scan_sources(iv, 0) == match spec_scan_sources(iv, i as int) {
                Some((s2, a2)) => Some(
                    (
                        spec_selected(
                            want_elf,
                            want_mach,
                            want_pe,
                            want_archive,
                            want_dwarf,
                            want_pdb,
                        ).union(s2),
                        a2,
                    ),
                ),
                None => None::<(Set<SymbolSource>, bool)>,
            },
        ensures
            spec_scan_sources(iv, 0) == Some(
                (
                    spec_selected(want_elf, want_mach, want_pe, want_archive, want_dwarf, want_pdb),
                    auto,
                ),
            ),
        decreases iv.len() - i,
    {
        let ghost sel_entry = spec_selected(
            want_elf,
            want_mach,
            want_pe,
            want_archive,
            want_dwarf,
            want_pdb,
        );
        if i >= items.len() {
            proof {
                assert(spec_scan_sources(iv, i as int) == Some(
                    (Set::<SymbolSource>::empty(), false),
                ));
                assert(sel_entry.union(Set::<SymbolSource>::empty()) =~= sel_entry);
            }
            break ;
        }
        let ghost tok = iv[i as int];
        assert(tok == items@[i as int]@);
        let item = &items[i];
        if crate::symbol::eq_ignore_case(item.as_str(), "all") {
            want_elf = true;
            want_mach = true;
            want_pe = true;
            want_archive = true;
            want_dwarf = true;
            want_pdb = true;
            proof {
                assert(spec_scan_sources(iv, i as int) == Some((spec_all_sources(), false)));
                assert forall|s: SymbolSource| spec_all_sources().contains(s) by {
                    match s {
                        SymbolSource::Elf => {},
                        SymbolSource::Mach => {},
                        SymbolSource::Pe => {},
                        SymbolSource::Archive => {},
                        SymbolSource::Dwarf => {},
                        SymbolSource::Pdb => {},
                    }
                }
                assert(sel_entry.union(spec_all_sources()) =~= spec_all_sources());
                assert(spec_selected(true, true, true, true, true, true) =~= spec_all_sources());
            }
            break ;
        }
        if crate::symbol::eq_ignore_case(item.as_str(), "auto") {
            auto = true;
            proof {
                assert(spec_scan_sources(iv, i as int) == Some(
                    (Set::<SymbolSource>::empty(), true),
                ));
                assert(sel_entry.union(Set::<SymbolSource>::empty()) =~= sel_entry);
            }
            break ;
        }
        let added: Option<(bool, bool, bool, bool, bool, bool)> = if crate::symbol::eq_ignore_case(
            item.as_str(),
            "obj",
        ) {
            Some((true, true, true, true, false, false))
        } else if crate::symbol::eq_ignore_case(item.as_str(), "debug") {
            Some((false, false, false, false, true, true))
        } else {
            match crate::symbol::parse_symbol_source(item.as_str()) {
                Some(SymbolSource::Elf) => Some((true, false, false, false, false, false)),
                Some(SymbolSource::Mach) => Some((false, true, false, false, false, false)),
                Some(SymbolSource::Pe) => Some((false, false, true, false, false, false)),
                Some(SymbolSource::Archive) => Some((false, false, false, true, false, false)),
                Some(SymbolSource::Dwarf) => Some((false, false, false, false, true, false)),
                Some(SymbolSource::Pdb) => Some((false, false, false, false, false, true)),
                None => None,
            }
        };
        match added {
            Some((e, m, p, a, d, b)) => {
                proof {
                    assert(spec_source_token(tok) matches Some(c) && c =~= spec_selected(
                        e,
                        m,
                        p,
                        a,
                        d,
                        b,
                    )) by {
                        if spec_eq_ignore_case(tok, "obj"@) {
                        } else if spec_eq_ignore_case(tok, "debug"@) {
                        } else {
                        }
                    }
                }
                want_elf = want_elf || e;
                want_mach = want_mach || m;
                want_pe = want_pe || p;
                want_archive = want_archive || a;
                want_dwarf = want_dwarf || d;
                want_pdb = want_pdb || b;
                proof {
                    let cur = spec_selected(
                        want_elf,
                        want_mach,
                        want_pe,
                        want_archive,
                        want_dwarf,
                        want_pdb,
                    );
                    let c = spec_source_token(tok).unwrap();
                    assert(cur =~= sel_entry.union(c));
                    match spec_scan_sources(iv, i + 1) {
                        Some((s2, a2)) => {
                            assert(sel_entry.union(c.union(s2)) =~= cur.union(s2));
                        },
                        None => {},
                    }
                }
                i = i + 1;
            },
            None => {
                proof {
                    assert(spec_source_token(tok) is None);
                    assert(spec_scan_sources(iv, i as int) is None);
                }
                return Err(
                    Error::Config(String::from_str("unrecognized symbol source in the list")),
                );
            },
        }
    }
    let v = build_source_list(want_elf, want_mach, want_pe, want_archive, want_dwarf, want_pdb);
    let auto_flag = auto || v.len() == 0;
    proof {
        let sel = spec_selected(want_elf, want_mach, want_pe, want_archive, want_dwarf, want_pdb);
        if v@.len() == 0 {
            assert(sel =~= Set::<SymbolSource>::empty()) by {
                assert forall|s: SymbolSource| !sel.contains(s) by {
                    assert(!v@.contains(s));
                }
            }
        } else {
            assert(v@.contains(v@[0])) by {
                assert(0 <= 0 < v@.len() && v@[0] == v@[0]);
            }
            assert(sel.contains(v@[0]));
            assert(!(sel =~= Set::<SymbolSource>::empty()));
        }
    }
    Ok((v, auto_flag))
}

/// The set selected by six want-flags.
pub open spec fn spec_selected(e: bool, m: bool, p: bool, a: bool, d: bool, b: bool) -> Set<
    SymbolSource,
> {
    Set::new(
        |s: SymbolSource|
            match s {
                SymbolSource::Elf => e,
                SymbolSource::Mach => m,
                SymbolSource::Pe => p,
                SymbolSource::Archive => a,
                SymbolSource::Dwarf => d,
                SymbolSource::Pdb => b,
            },
    )
}

/// Builds the selected-source list in a fixed order: debug sources
/// first, then the object-table sources, each at most once.
fn build_source_list(e: bool, m: bool, p: bool, a: bool, d: bool, b: bool) -> (v: Vec<
    SymbolSource,
>)
    ensures
        forall|s: SymbolSource|
            v@.contains(s) <==> spec_selected(e, m, p, a, d, b).contains(s),
        forall|x: int, y: int| 0 <= x < y < v@.len() ==> v@[x] != v@[y],
{
    broadcast use vstd::seq_lib::lemma_seq_contains_after_push;

    let mut v: Vec<SymbolSource> = Vec::new();
    if d {
        v.push(SymbolSource::Dwarf);
    }
    if b {
        v.push(SymbolSource::Pdb);
    }
    if e {
        v.push(SymbolSource::Elf);
    }
    if m {
        v.push(SymbolSource::Mach);
    }
    if p {
        v.push(SymbolSource::Pe);
    }
    if a {
        v.push(SymbolSource::Archive);
    }
    proof {
        assert forall|s: SymbolSource|
            v@.contains(s) <==> spec_selected(e, m, p, a, d, b).contains(s) by {
            match s {
                SymbolSource::Elf => {},
                SymbolSource::Mach => {},
                SymbolSource::Pe => {},
                SymbolSource::Archive => {},
                SymbolSource::Dwarf => {},
                SymbolSource::Pdb => {},
            }
        }
    }
    v
}

/// Whether the explicit source list names a source.
fn wants_source(options: &SearchOptions, s: SymbolSource) -> (r: bool)
    ensures
        r == options.sources@.contains(s),
{
    let mut i: usize = 0;
    while i < options.sources.len()
        invariant
            i <= options.sources@.len(),
            forall|k: int| 0 <= k < i ==> options.sources@[k] != s,
        decreases options.sources@.len() - i,
    {
        if options.sources[i] == s {
            assert(options.sources@.contains(s)) by {
                assert(options.sources@[i as int] == s);
            }
            return true;
        }
        i = i + 1;
    }
    false
}

} // verus!
