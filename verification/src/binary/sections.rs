use vstd::prelude::*;

verus! {

/// One section of an object: a named range of virtual addresses and the
/// file offset backing it. For an address A inside the section,
/// `offset + (A - addr)` is the byte position of A's contents in the file.
pub struct Section {
    pub name: String,
    /// Lowest virtual address of the section.
    pub addr: u64,
    /// Size of the section in bytes.
    pub size: u64,
    /// File offset of the section's first byte.
    pub offset: u64,
}

impl Section {
    /// The address range and the file range fit their types.
    pub open spec fn wf(&self) -> bool {
        self.addr + self.size <= u64::MAX && self.offset + self.size <= u64::MAX
    }

    pub open spec fn spec_contains(&self, addr: u64) -> bool {
        self.addr <= addr && addr < self.addr + self.size
    }
}

/// A well-formed section table: every section valid, sorted by address,
/// and free of overlaps.
pub open spec fn sections_wf(ss: Seq<Section>) -> bool {
    &&& forall|i: int| 0 <= i < ss.len() ==> (#[trigger] ss[i]).wf()
    &&& forall|i: int, j: int|
        0 <= i < j < ss.len() ==> (#[trigger] ss[i]).addr + ss[i].size <= (#[trigger] ss[j]).addr
}

/// The file offset backing a virtual address: scan for the section that
/// contains it.
pub open spec fn spec_addr_to_offset(ss: Seq<Section>, addr: u64) -> Option<int>
    decreases ss.len(),
{
    if ss.len() == 0 {
        None
    } else if ss[0].spec_contains(addr) {
        Some(ss[0].offset + (addr - ss[0].addr))
    } else {
        spec_addr_to_offset(ss.drop_first(), addr)
    }
}

/// The scan finds exactly the containing section.
pub proof fn lemma_addr_to_offset_characterization(ss: Seq<Section>, addr: u64)
    requires
        sections_wf(ss),
    ensures
        match spec_addr_to_offset(ss, addr) {
            Some(off) => exists|i: int|
                0 <= i < ss.len() && (#[trigger] ss[i]).spec_contains(addr) && off == ss[i].offset
                    + (addr - ss[i].addr),
            None => forall|i: int| 0 <= i < ss.len() ==> !(#[trigger] ss[i]).spec_contains(addr),
        },
    decreases ss.len(),
{
    if ss.len() > 0 && !ss[0].spec_contains(addr) {
        assert(sections_wf(ss.drop_first())) by {
            assert(forall|k: int|
                0 <= k < ss.drop_first().len() ==> #[trigger] ss.drop_first()[k] == ss[k + 1]);
        }
        lemma_addr_to_offset_characterization(ss.drop_first(), addr);
        if spec_addr_to_offset(ss.drop_first(), addr) is Some {
            let i = choose|i: int|
                0 <= i < ss.drop_first().len() && (#[trigger] ss.drop_first()[i]).spec_contains(
                    addr,
                ) && spec_addr_to_offset(ss.drop_first(), addr).unwrap() == ss.drop_first()[i].offset
                    + (addr - ss.drop_first()[i].addr);
            assert(ss[i + 1].spec_contains(addr));
        } else {
            assert forall|i: int| 1 <= i < ss.len() implies !(#[trigger] ss[i]).spec_contains(
                addr,
            ) by {
                assert(ss.drop_first()[i - 1] == ss[i]);
                assert(!(ss.drop_first()[i - 1]).spec_contains(addr));
            }
        }
    }
}

/// A well-formed table contains at most one section per address.
pub proof fn lemma_containing_unique(ss: Seq<Section>, addr: u64, i: int, j: int)
    requires
        sections_wf(ss),
        0 <= i < ss.len(),
        0 <= j < ss.len(),
        ss[i].spec_contains(addr),
        ss[j].spec_contains(addr),
    ensures
        i == j,
{
    if i < j {
        assert(ss[i].addr + ss[i].size <= ss[j].addr);
    } else if j < i {
        assert(ss[j].addr + ss[j].size <= ss[i].addr);
    }
}

/// Maps a virtual address to the file offset that backs it, through the
/// section table; `None` when no loaded section covers the address.
#[verifier::loop_isolation(false)]
pub fn addr_to_offset(ss: &Vec<Section>, addr: u64) -> (r: Option<u64>)
    requires
        sections_wf(ss@),
    ensures
        match r {
            Some(off) => Some(off as int) == spec_addr_to_offset(ss@, addr),
            None => spec_addr_to_offset(ss@, addr) is None,
        },
{
    proof {
        lemma_addr_to_offset_characterization(ss@, addr);
    }
    let mut lo: usize = 0;
    let mut hi: usize = ss.len();
    while lo < hi
        invariant
            lo <= hi <= ss@.len(),
            forall|k: int| 0 <= k < lo ==> !(#[trigger] ss@[k]).spec_contains(addr),
            forall|k: int| hi <= k < ss@.len() ==> !(#[trigger] ss@[k]).spec_contains(addr),
        decreases hi - lo,
    {
        let mid = lo + (hi - lo) / 2;
        let s = &ss[mid];
        if addr < s.addr {
            assert forall|k: int| mid <= k < ss@.len() implies !(#[trigger] ss@[k]).spec_contains(
                addr,
            ) by {
                if k > mid {
                    assert(ss@[mid as int].addr + ss@[mid as int].size <= ss@[k].addr);
                }
            }
            hi = mid;
        } else if addr >= s.addr + s.size {
            assert forall|k: int| 0 <= k <= mid implies !(#[trigger] ss@[k]).spec_contains(addr) by {
                if k < mid {
                    assert(ss@[k].addr + ss@[k].size <= ss@[mid as int].addr);
                }
            }
            lo = mid + 1;
        } else {
            let off = s.offset + (addr - s.addr);
            proof {
                let w = choose|i: int|
                    0 <= i < ss@.len() && (#[trigger] ss@[i]).spec_contains(addr)
                        && spec_addr_to_offset(ss@, addr).unwrap() == ss@[i].offset + (addr
                        - ss@[i].addr);
                lemma_containing_unique(ss@, addr, w, mid as int);
            }
            return Some(off);
        }
    }
    None
}

/// Sections ordered by (address, size).
pub open spec fn sec_key_le(a: Section, b: Section) -> bool {
    a.addr < b.addr || (a.addr == b.addr && a.size <= b.size)
}

pub open spec fn sec_sorted(ss: Seq<Section>) -> bool {
    forall|i: int, j: int| 0 <= i < j < ss.len() ==> sec_key_le(#[trigger] ss[i], #[trigger] ss[j])
}

pub open spec fn sec_all_wf(ss: Seq<Section>) -> bool {
    forall|i: int| 0 <= i < ss.len() ==> (#[trigger] ss[i]).wf()
}

/// Sorts a section list by (address, size).
pub fn sort_sections(v: &mut Vec<Section>)
    requires
        sec_all_wf(old(v)@),
    ensures
        sec_sorted(final(v)@),
        sec_all_wf(final(v)@),
        final(v)@.to_multiset() == old(v)@.to_multiset(),
        final(v)@.len() == old(v)@.len(),
{
    broadcast use vstd::seq_lib::to_multiset_insert;
    broadcast use vstd::seq_lib::group_to_multiset_ensures;
    broadcast use vstd::multiset::group_multiset_axioms;

    if v.len() == 0 {
        return ;
    }
    let mut i: usize = 1;
    while i < v.len()
        invariant
            1 <= i <= v@.len(),
            sec_all_wf(v@),
            v@.to_multiset() == old(v)@.to_multiset(),
            v@.len() == old(v)@.len(),
            forall|p: int, q: int| 0 <= p < q < i ==> sec_key_le(#[trigger] v@[p], #[trigger] v@[q]),
        decreases v@.len() - i,
    {
        let ghost pre = v@;
        let x = v.remove(i);
        assert(v@ =~= pre.remove(i as int));
        assert(x == pre[i as int]);
        let mut j: usize = i;
        loop
            invariant
                j <= i,
                i < pre.len(),
                v@ == pre.remove(i as int),
                x == pre[i as int],
                x.wf(),
                sec_all_wf(v@),
                forall|p: int, q: int| 0 <= p < q < i ==> sec_key_le(
                    #[trigger] v@[p],
                    #[trigger] v@[q],
                ),
                forall|k: int| j <= k < i ==> sec_key_le(x, #[trigger] v@[k]),
            ensures
                j <= i,
                i < pre.len(),
                v@ == pre.remove(i as int),
                x == pre[i as int],
                forall|k: int| j <= k < i ==> sec_key_le(x, #[trigger] v@[k]),
                j > 0 ==> sec_key_le(v@[j - 1], x),
            decreases j,
        {
            if j == 0 {
                break ;
            }
            let p = &v[j - 1];
            let le = p.addr < x.addr || (p.addr == x.addr && p.size <= x.size);
            if le {
                break ;
            }
            j = j - 1;
        }
        let ghost before_insert = v@;
        v.insert(j, x);
        assert(v@ =~= before_insert.insert(j as int, x));
        proof {
            assert(pre.contains(x)) by {
                assert(pre[i as int] == x);
            }
            pre.to_multiset_ensures();
            vstd::seq_lib::to_multiset_insert(before_insert, j as int, x);
            assert(v@.to_multiset() =~= pre.to_multiset());
            assert forall|p: int, q: int| 0 <= p < q < i + 1 implies sec_key_le(
                #[trigger] v@[p],
                #[trigger] v@[q],
            ) by {
                let jj = j as int;
                if q < jj {
                    assert(v@[p] == pre[p] && v@[q] == pre[q]);
                } else if p < jj && q == jj {
                    assert(v@[q] == x && v@[p] == pre[p]);
                    assert(sec_key_le(before_insert[jj - 1], x));
                    assert(before_insert[jj - 1] == pre[jj - 1]);
                } else if p < jj && q > jj {
                    assert(v@[p] == pre[p] && v@[q] == before_insert[q - 1]);
                    assert(before_insert[q - 1] == pre[q - 1]);
                } else if p == jj && q > jj {
                    assert(v@[p] == x && v@[q] == before_insert[q - 1]);
                } else {
                    assert(p > jj && q > jj);
                    assert(v@[p] == before_insert[p - 1] && v@[q] == before_insert[q - 1]);
                    assert(before_insert[p - 1] == pre[p - 1] && before_insert[q - 1] == pre[q
                        - 1]);
                }
            }
            assert(sec_all_wf(v@)) by {
                assert(forall|k: int|
                    0 <= k < before_insert.len() ==> (#[trigger] before_insert[k]).wf());
            }
        }
        i = i + 1;
    }
}

/// Keeps, from a sorted section list, only sections that do not overlap
/// their predecessor, so that the table satisfies `sections_wf`. A
/// malformed object may carry overlapping sections; those lose their
/// claim to the shared addresses.
/// The sections of a sorted list that survive the overlap drop from
/// position `i` on, when everything kept so far ends at `end`: a section
/// starting at or past `end` is kept and moves the bound to its own end.
pub open spec fn spec_drop_from(ss: Seq<Section>, i: int, end: int) -> Seq<Section>
    decreases ss.len() - i,
{
    if 0 <= i < ss.len() {
        if ss[i].addr >= end {
            seq![ss[i]] + spec_drop_from(ss, i + 1, ss[i].addr + ss[i].size)
        } else {
            spec_drop_from(ss, i + 1, end)
        }
    } else {
        Seq::empty()
    }
}

pub fn drop_overlaps(v: Vec<Section>) -> (r: Vec<Section>)
    requires
        sec_all_wf(v@),
        sec_sorted(v@),
    ensures
        sections_wf(r@),
        r@ == spec_drop_from(v@, 0, 0),
{
    let mut out: Vec<Section> = Vec::new();
    let ghost mut endg: int = 0;
    let mut i: usize = 0;
    while i < v.len()
        invariant
            i <= v@.len(),
            sec_all_wf(v@),
            sec_sorted(v@),
            sections_wf(out@),
            out@.len() == 0 ==> endg == 0,
            out@.len() > 0 ==> endg == out@.last().addr + out@.last().size,
            spec_drop_from(v@, 0, 0) =~= out@ + spec_drop_from(v@, i as int, endg),
        decreases v@.len() - i,
    {
        let s = &v[i];
        assert(v@[i as int].wf());
        let ok = if out.len() == 0 {
            true
        } else {
            let last = &out[out.len() - 1];
            last.addr + last.size <= s.addr
        };
        if ok {
            let ghost pre = out@;
            proof {
                assert(v@[i as int].addr >= endg);
                assert(spec_drop_from(v@, i as int, endg) == seq![v@[i as int]] + spec_drop_from(
                    v@,
                    i + 1,
                    v@[i as int].addr + v@[i as int].size,
                ));
                assert(pre + (seq![v@[i as int]] + spec_drop_from(
                    v@,
                    i + 1,
                    v@[i as int].addr + v@[i as int].size,
                )) =~= pre.push(v@[i as int]) + spec_drop_from(
                    v@,
                    i + 1,
                    v@[i as int].addr + v@[i as int].size,
                ));
                endg = v@[i as int].addr + v@[i as int].size;
            }
            out.push(v[i].clone_section());
            proof {
                assert(out@ =~= pre.push(v@[i as int]));
                assert forall|p: int, q: int| 0 <= p < q < out@.len() implies (
                #[trigger] out@[p]).addr + out@[p].size <= (#[trigger] out@[q]).addr by {
                    if q == out@.len() - 1 && p < pre.len() - 1 {
                        // the pushed section starts at or above the end of
                        // the previous last one, which bounds every earlier
                        // section's end
                        let lst = pre.len() - 1;
                        assert(pre[p].addr + pre[p].size <= pre[lst].addr);
                        assert(pre[lst].wf());
                    }
                }
            }
        } else {
            proof {
                assert(!(v@[i as int].addr >= endg));
                assert(spec_drop_from(v@, i as int, endg) == spec_drop_from(v@, i + 1, endg));
            }
        }
        i = i + 1;
    }
    proof {
        assert(spec_drop_from(v@, v@.len() as int, endg) =~= Seq::<Section>::empty());
        assert(out@ =~= spec_drop_from(v@, 0, 0));
    }
    out
}

impl Section {
    /// A field-for-field copy.
    pub fn clone_section(&self) -> (r: Section)
        ensures
            r == *self,
    {
        let name_copy = clone_string(&self.name);
        Section { name: name_copy, addr: self.addr, size: self.size, offset: self.offset }
    }
}

/// The characters a fixed-size name field holds from position `i` on:
/// the bytes up to the first NUL (or all of them); a byte outside ASCII
/// reads as no name.
pub open spec fn spec_short_name_from(raw: Seq<u8>, i: int) -> Option<Seq<char>>
    decreases raw.len() - i,
{
    if 0 <= i < raw.len() {
        if raw[i] == 0 {
            Some(Seq::empty())
        } else if raw[i] >= 128 {
            None
        } else {
            match spec_short_name_from(raw, i + 1) {
                Some(rest) => Some(seq![raw[i] as char] + rest),
                None => None,
            }
        }
    } else {
        Some(Seq::empty())
    }
}

/// The string in a fixed-size COFF name field: its bytes up to the first
/// NUL, when they are ASCII.
pub open spec fn spec_short_name(raw: Seq<u8>) -> Option<Seq<char>> {
    spec_short_name_from(raw, 0)
}

/// A section realizes a kept header description: same name, address,
/// size and file offset.
pub open spec fn sec_desc_matches(s: Section, d: (Seq<char>, u64, u64, u64)) -> bool {
    &&& s.name@ == d.0
    &&& s.addr == d.1
    &&& s.size == d.2
    &&& s.offset == d.3
}

/// Copies a string; the copy carries the same characters.
pub fn clone_string(s: &String) -> (r: String)
    ensures
        r == *s,
{
    s.clone()
}

} // verus!
