use vstd::prelude::*;

use crate::symbol::{Symbol, SymbolSource};

verus! {

/// One procedure record read from a PDB module's symbol stream.
pub struct PdbProcedure {
    /// The procedure's name, as the record carries it.
    pub name: String,
    /// The section the procedure lives in (one-based; zero means none).
    pub section: u16,
    /// The procedure's offset inside its section.
    pub offset: u32,
    /// The procedure's length in bytes.
    pub len: u32,
    /// The procedure's relative virtual address.
    pub rva: u32,
}

/// Builds the symbol for one PDB procedure record: its virtual address
/// is the image base plus the record's relative virtual address, and its
/// file offset is the owning section's raw-data pointer plus the
/// record's offset. A record with no section, a section index past the
/// table, or a range that does not fit is dropped.
pub fn procedure_symbol(
    proc: PdbProcedure,
    section_raw_ptrs: &Vec<u32>,
    image_base: u64,
) -> (r: Option<Symbol>)
    ensures
        match r {
            Some(s) => {
                &&& s.wf()
                &&& proc.section >= 1
                &&& (proc.section - 1) < section_raw_ptrs@.len()
                &&& s.name == proc.name
                &&& s.addr == image_base + proc.rva
                &&& s.bpos == section_raw_ptrs@[proc.section - 1] + proc.offset
                &&& s.blen == proc.len
                &&& s.source == SymbolSource::Pdb
            },
            None => proc.section == 0 || proc.section as int - 1 >= section_raw_ptrs@.len()
                || image_base + proc.rva + proc.len > u64::MAX || section_raw_ptrs@[proc.section
                - 1] + proc.offset + proc.len > usize::MAX,
        },
{
    if proc.section == 0 {
        return None;
    }
    let idx = (proc.section - 1) as usize;
    if idx >= section_raw_ptrs.len() {
        return None;
    }
    let section_base = section_raw_ptrs[idx];
    if image_base > u64::MAX - (proc.rva as u64) {
        return None;
    }
    let addr = image_base + (proc.rva as u64);
    if addr > u64::MAX - (proc.len as u64) {
        return None;
    }
    let bpos_u64 = (section_base as u64) + (proc.offset as u64);
    if bpos_u64 > usize::MAX as u64 {
        return None;
    }
    let bpos = bpos_u64 as usize;
    if (proc.len as u64) > usize::MAX as u64 || bpos > usize::MAX - (proc.len as usize) {
        return None;
    }
    Some(Symbol::new_unmangled(proc.name, addr, bpos, proc.len as usize, SymbolSource::Pdb))
}

} // verus!
