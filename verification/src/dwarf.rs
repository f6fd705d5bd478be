use vstd::prelude::*;

use crate::binary::sections::{addr_to_offset, sections_wf, spec_addr_to_offset, Section};
use crate::symbol::{Symbol, SymbolSource};

verus! {

// ---------------------------------------------------------------------------
// Debugging-information entries, as plain values.
// ---------------------------------------------------------------------------

/// The kinds of DIE tags the walk reacts to: functions, and the
/// namespace-like containers whose names prefix a function's qualified
/// name (module, namespace, structure, class, union, interface,
/// inheritance, enumeration).
#[derive(Copy, Clone, PartialEq, Eq, Structural, Debug)]
pub enum DieKind {
    Subprogram,
    Container,
    Other,
}

/// One debugging-information entry, flattened to what the symbol walk
/// reads: its depth in the tree, its kind, its names and its address
/// attributes. `high_pc` is either an address or an offset from
/// `low_pc`, as `high_pc_is_offset` records.
pub struct DieRecord {
    pub depth: i64,
    pub kind: DieKind,
    pub name: Option<String>,
    pub linkage_name: Option<String>,
    pub low_pc: Option<u64>,
    pub high_pc: Option<u64>,
    pub high_pc_is_offset: bool,
}

// ---------------------------------------------------------------------------
// The name chain.
// ---------------------------------------------------------------------------

/// Joins name parts with a separator.
pub open spec fn spec_join(names: Seq<Seq<char>>, sep: Seq<char>) -> Seq<char>
    decreases names.len(),
{
    if names.len() == 0 {
        Seq::empty()
    } else if names.len() == 1 {
        names[0]
    } else {
        names[0] + sep + spec_join(names.drop_first(), sep)
    }
}

proof fn lemma_join_push(names: Seq<Seq<char>>, sep: Seq<char>, x: Seq<char>)
    ensures
        spec_join(names.push(x), sep) == if names.len() == 0 {
            x
        } else {
            spec_join(names, sep) + sep + x
        },
    decreases names.len(),
{
    let p = names.push(x);
    if names.len() == 0 {
        assert(p.len() == 1);
        assert(spec_join(p, sep) == p[0]);
        assert(p[0] == x);
    } else if names.len() == 1 {
        assert(p.drop_first() =~= seq![x]);
        assert(spec_join(p, sep) == p[0] + sep + spec_join(p.drop_first(), sep));
        assert(spec_join(seq![x], sep) == x);
        assert(spec_join(names, sep) == names[0]);
        assert(p[0] == names[0]);
    } else {
        assert(p.drop_first() =~= names.drop_first().push(x));
        lemma_join_push(names.drop_first(), sep, x);
        assert(spec_join(p, sep) == p[0] + sep + spec_join(names.drop_first().push(x), sep));
        assert(p[0] == names[0]);
        assert((names[0] + sep + (spec_join(names.drop_first(), sep) + sep + x)) =~= ((names[0]
            + sep + spec_join(names.drop_first(), sep)) + sep + x));
    }
}

/// The stack of enclosing container names the DIE walk maintains. Each
/// name carries the depth at which it was seen; stepping back to a
/// shallower or equal depth pops every name recorded at or below it.
pub struct NameChain {
    pub names: Vec<(String, i64)>,
    pub depth: i64,
}

impl NameChain {
    /// The name parts currently on the chain.
    pub open spec fn spec_names(&self) -> Seq<Seq<char>> {
        Seq::new(self.names@.len(), |i: int| self.names@[i].0@)
    }

    /// The chain's recorded depths strictly increase from the outermost
    /// container inward, and never pass the walk's current depth.
    pub open spec fn wf(&self) -> bool {
        &&& forall|p: int, q: int|
            0 <= p < q < self.names@.len() ==> (#[trigger] self.names@[p]).1 < (
            #[trigger] self.names@[q]).1
        &&& forall|k: int| 0 <= k < self.names@.len() ==> (#[trigger] self.names@[k]).1 <= self.depth
    }

    pub fn new() -> (r: NameChain)
        ensures
            r.names@.len() == 0,
            r.depth == 0,
            r.wf(),
    {
        NameChain { names: Vec::new(), depth: 0 }
    }

    /// Steps the walk to a new depth: when the walk leaves a subtree
    /// (the new depth is at or above the recorded one), every name
    /// recorded at or below the new depth pops off.
    pub fn set_depth(&mut self, d: i64)
        requires
            old(self).wf(),
        ensures
            final(self).wf(),
            final(self).depth == d,
            final(self).names@.len() <= old(self).names@.len(),
            forall|k: int|
                0 <= k < final(self).names@.len() ==> final(self).names@[k] == old(
                    self,
                ).names@[k],
            forall|k: int|
                0 <= k < final(self).names@.len() ==> (#[trigger] final(self).names@[k]).1 < d,
            final(self).names@.len() == old(self).names@.len()
                || old(self).names@[final(self).names@.len() as int].1 >= d,
    {
        if d <= self.depth {
            self.depth = d;
            loop
                invariant
                    self.depth == d,
                    self.names@.len() <= old(self).names@.len(),
                    forall|k: int|
                        0 <= k < self.names@.len() ==> self.names@[k] == old(self).names@[k],
                    forall|p: int, q: int|
                        0 <= p < q < self.names@.len() ==> (#[trigger] self.names@[p]).1 < (
                        #[trigger] self.names@[q]).1,
                    self.names@.len() == old(self).names@.len() || old(self).names@[self.names@.len() as int].1
                        >= d,
                ensures
                    self.depth == d,
                    self.names@.len() <= old(self).names@.len(),
                    forall|k: int|
                        0 <= k < self.names@.len() ==> self.names@[k] == old(self).names@[k],
                    forall|k: int|
                        0 <= k < self.names@.len() ==> (#[trigger] self.names@[k]).1 < d,
                    self.names@.len() == old(self).names@.len() || old(self).names@[self.names@.len() as int].1
                        >= d,
                decreases self.names@.len(),
            {
                if self.names.len() == 0 {
                    break ;
                }
                let last = self.names.len() - 1;
                if self.names[last].1 < d {
                    proof {
                        assert forall|k: int|
                            0 <= k < self.names@.len() implies (#[trigger] self.names@[k]).1
                            < d by {
                            if k < last {
                                assert(self.names@[k].1 < self.names@[last as int].1);
                            }
                        }
                    }
                    break ;
                }
                let ghost pre = self.names@;
                let _ = self.names.pop();
                assert(self.names@ =~= pre.drop_last());
            }
        } else {
            self.depth = d;
        }
    }

    /// Records a container name at the current depth. The caller steps
    /// the depth first, so the new entry sits strictly inside every
    /// entry already on the chain.
    pub fn push(&mut self, name: String)
        requires
            old(self).wf(),
            old(self).names@.len() > 0 ==> old(self).names@[old(self).names@.len() - 1].1 < old(
                self,
            ).depth,
        ensures
            final(self).wf(),
            final(self).names@ == old(self).names@.push((name, old(self).depth)),
            final(self).depth == old(self).depth,
    {
        let d = self.depth;
        self.names.push((name, d));
    }

    /// Joins the chain into one qualified prefix, parts separated by
    /// `sep`.
    pub fn combine(&self, sep: &str) -> (r: String)
        ensures
            r@ == spec_join(self.spec_names(), sep@),
    {
        let mut out = String::new();
        let mut first = true;
        let mut i: usize = 0;
        while i < self.names.len()
            invariant
                i <= self.names@.len(),
                first == (i == 0),
                out@ == spec_join(self.spec_names().subrange(0, i as int), sep@),
            decreases self.names@.len() - i,
        {
            let ghost prefix = self.spec_names().subrange(0, i as int);
            if first {
                first = false;
            } else {
                out.append(sep);
            }
            out.append(self.names[i].0.as_str());
            proof {
                lemma_join_push(prefix, sep@, self.spec_names()[i as int]);
                assert(self.spec_names().subrange(0, i + 1) =~= prefix.push(
                    self.spec_names()[i as int],
                ));
            }
            i = i + 1;
        }
        proof {
            assert(self.spec_names().subrange(0, self.names@.len() as int) =~= self.spec_names());
        }
        out
    }
}

// ---------------------------------------------------------------------------
// The symbol walk, as a mathematical model.
// ---------------------------------------------------------------------------

/// The chain as plain values: each entry's characters and recorded depth.
pub open spec fn chain_view(c: NameChain) -> Seq<(Seq<char>, int)> {
    Seq::new(c.names@.len(), |i: int| (c.names@[i].0@, c.names@[i].1 as int))
}

/// The names on a chain, without their depths.
pub open spec fn chain_names(chain: Seq<(Seq<char>, int)>) -> Seq<Seq<char>> {
    Seq::new(chain.len(), |i: int| chain[i].0)
}

/// What stepping to depth `d` leaves on a chain: the longest prefix
/// recorded strictly above the new depth.
pub open spec fn spec_chain_pop(chain: Seq<(Seq<char>, int)>, d: int) -> Seq<(Seq<char>, int)>
    decreases chain.len(),
{
    if chain.len() == 0 {
        chain
    } else if chain.last().1 < d {
        chain
    } else {
        spec_chain_pop(chain.drop_last(), d)
    }
}

/// What a subprogram record emits against a (stepped) chain: `None` when
/// a start, an end or a name is missing, the range is empty or does not
/// fit, or no loaded section backs the start; otherwise the symbol's
/// name (the linkage name demangled, or the plain name qualified by the
/// chain), address, file position and length.
pub open spec fn spec_record_desc(
    rec: DieRecord,
    chain: Seq<(Seq<char>, int)>,
    sections: Seq<Section>,
) -> Option<(Seq<char>, u64, int, int)> {
    match (rec.low_pc, rec.high_pc) {
        (Some(start), Some(raw)) => {
            if rec.high_pc_is_offset && raw > u64::MAX - start {
                None
            } else {
                let end: int = if rec.high_pc_is_offset {
                    start + raw
                } else {
                    raw as int
                };
                if end <= start {
                    None
                } else {
                    let len = end - start;
                    if len > usize::MAX {
                        None
                    } else {
                        match spec_addr_to_offset(sections, start) {
                            Some(off) => if off > usize::MAX || off + len > usize::MAX {
                                None
                            } else {
                                match rec.linkage_name {
                                    Some(ln) => Some(
                                        (crate::symbol::spec_demangle(ln@), start, off, len),
                                    ),
                                    None => match rec.name {
                                        Some(n) => Some(
                                            (
                                                spec_join(chain_names(chain).push(n@), "::"@),
                                                start,
                                                off,
                                                len,
                                            ),
                                        ),
                                        None => None,
                                    },
                                }
                            },
                            None => None,
                        }
                    }
                }
            }
        },
        _ => None,
    }
}

/// The chain after one record: a container's name is recorded, and so is
/// the plain name of a subprogram that emitted a symbol.
pub open spec fn spec_chain_step(
    rec: DieRecord,
    popped: Seq<(Seq<char>, int)>,
    sections: Seq<Section>,
) -> Seq<(Seq<char>, int)> {
    match rec.kind {
        DieKind::Container => match rec.name {
            Some(n) => popped.push((n@, rec.depth as int)),
            None => popped,
        },
        DieKind::Subprogram => {
            if spec_record_desc(rec, popped, sections) is Some && rec.linkage_name is None {
                popped.push((rec.name.unwrap()@, rec.depth as int))
            } else {
                popped
            }
        },
        DieKind::Other => popped,
    }
}

/// The descriptors the walk emits from position `i` on, with the given
/// chain.
pub open spec fn spec_walk(
    events: Seq<DieRecord>,
    i: int,
    chain: Seq<(Seq<char>, int)>,
    sections: Seq<Section>,
) -> Seq<(Seq<char>, u64, int, int)>
    decreases events.len() - i,
{
    if 0 <= i < events.len() {
        let e = events[i];
        let popped = spec_chain_pop(chain, e.depth as int);
        let stepped = spec_chain_step(e, popped, sections);
        if e.kind == DieKind::Subprogram {
            match spec_record_desc(e, popped, sections) {
                Some(d) => seq![d] + spec_walk(events, i + 1, stepped, sections),
                None => spec_walk(events, i + 1, stepped, sections),
            }
        } else {
            spec_walk(events, i + 1, stepped, sections)
        }
    } else {
        Seq::empty()
    }
}

/// Everything one unit's walk emits.
pub open spec fn spec_unit_symbols(events: Seq<DieRecord>, sections: Seq<Section>) -> Seq<
    (Seq<char>, u64, int, int),
> {
    spec_walk(events, 0, Seq::empty(), sections)
}

/// A symbol realizes a descriptor: same name, address, file position and
/// length, and it comes from debug information.
pub open spec fn sym_matches_desc(s: Symbol, d: (Seq<char>, u64, int, int)) -> bool {
    &&& s.name@ == d.0
    &&& s.addr == d.1
    &&& s.bpos == d.2
    &&& s.blen == d.3
    &&& s.source == SymbolSource::Dwarf
}

/// The stepped chain a `set_depth` call leaves is exactly the model's
/// pop: the longest prefix recorded strictly above the new depth.
proof fn lemma_pop_matches(pre: Seq<(Seq<char>, int)>, post: Seq<(Seq<char>, int)>, d: int)
    requires
        forall|p: int, q: int| 0 <= p < q < pre.len() ==> (#[trigger] pre[p]).1 < (#[trigger] pre[q]).1,
        post.len() <= pre.len(),
        forall|k: int| 0 <= k < post.len() ==> post[k] == pre[k],
        forall|k: int| 0 <= k < post.len() ==> (#[trigger] post[k]).1 < d,
        post.len() == pre.len() || pre[post.len() as int].1 >= d,
    ensures
        post =~= spec_chain_pop(pre, d),
    decreases pre.len(),
{
    if pre.len() == 0 {
    } else if pre.last().1 < d {
        // nothing pops: the boundary condition forces the full prefix
        if post.len() < pre.len() {
            assert(pre[post.len() as int].1 >= d);
            if post.len() < pre.len() - 1 {
                assert(pre[post.len() as int].1 < pre[pre.len() - 1].1);
            }
            assert(false);
        }
    } else {
        let shorter = pre.drop_last();
        assert(post.len() < pre.len()) by {
            if post.len() == pre.len() {
                assert(post[post.len() - 1] == pre[pre.len() - 1]);
            }
        }
        assert(forall|p: int, q: int|
            0 <= p < q < shorter.len() ==> (#[trigger] shorter[p]).1 < (#[trigger] shorter[q]).1);
        assert(forall|k: int| 0 <= k < post.len() ==> post[k] == shorter[k]);
        if post.len() < shorter.len() {
            assert(shorter[post.len() as int] == pre[post.len() as int]);
        }
        lemma_pop_matches(shorter, post, d);
    }
}

// ---------------------------------------------------------------------------
// The symbol walk.
// ---------------------------------------------------------------------------

/// Walks a unit's DIEs in document order and emits exactly the symbols
/// of the walk model: one per subprogram record with a resolvable
/// address range and a name, in document order, each realizing its
/// descriptor — the linkage name demangled, or the plain name qualified
/// by the enclosing container names joined with `::`. Every emitted
/// symbol has a positive size and a file offset that is exactly what
/// `addr_to_offset` yields for its address.
pub fn load_symbols_from_unit(
    events: &Vec<DieRecord>,
    sections: &Vec<Section>,
    out: &mut Vec<Symbol>,
)
    requires
        sections_wf(sections@),
    ensures
        final(out)@.len() == old(out)@.len() + spec_unit_symbols(events@, sections@).len(),
        forall|k: int| 0 <= k < old(out)@.len() ==> final(out)@[k] == old(out)@[k],
        forall|j: int|
            0 <= j < spec_unit_symbols(events@, sections@).len() ==> sym_matches_desc(
                #[trigger] final(out)@[old(out)@.len() + j],
                spec_unit_symbols(events@, sections@)[j],
            ),
        forall|k: int|
            old(out)@.len() <= k < final(out)@.len() ==> {
                let s = #[trigger] final(out)@[k];
                &&& s.wf()
                &&& s.source == SymbolSource::Dwarf
                &&& s.blen > 0
                &&& spec_addr_to_offset(sections@, s.addr) == Some(s.bpos as int)
            },
{
    let ghost base = out@.len();
    let ghost all = spec_unit_symbols(events@, sections@);
    let mut chain = NameChain::new();
    proof {
        assert(chain_view(chain) =~= Seq::<(Seq<char>, int)>::empty());
        assert(all.skip(0) =~= all);
    }
    let mut i: usize = 0;
    while i < events.len()
        invariant
            i <= events@.len(),
            chain.wf(),
            sections_wf(sections@),
            all == spec_unit_symbols(events@, sections@),
            out@.len() >= base,
            out@.len() - base <= all.len(),
            forall|k: int| 0 <= k < base ==> out@[k] == old(out)@[k],
            all.skip(out@.len() - base) =~= spec_walk(
                events@,
                i as int,
                chain_view(chain),
                sections@,
            ),
            forall|j: int|
                0 <= j < out@.len() - base ==> sym_matches_desc(
                    #[trigger] out@[base + j],
                    all[j],
                ),
            forall|k: int|
                base <= k < out@.len() ==> {
                    let s = #[trigger] out@[k];
                    &&& s.wf()
                    &&& s.source == SymbolSource::Dwarf
                    &&& s.blen > 0
                    &&& spec_addr_to_offset(sections@, s.addr) == Some(s.bpos as int)
                },
        decreases events@.len() - i,
    {
        let ghost cv_pre = chain_view(chain);
        let ghost done = out@.len() - base;
        let rec = &events[i];
        assert(*rec == events@[i as int]);
        chain.set_depth(rec.depth);
        proof {
            lemma_pop_matches(cv_pre, chain_view(chain), rec.depth as int);
            assert(chain_view(chain) =~= spec_chain_pop(cv_pre, rec.depth as int));
        }
        let ghost popped = chain_view(chain);
        let ghost stepped = spec_chain_step(events@[i as int], popped, sections@);
        proof {
            assert(spec_chain_step(events@[i as int], spec_chain_pop(cv_pre, rec.depth as int), sections@)
                == stepped);
        }
        match rec.kind {
            DieKind::Subprogram => {
                match symbol_from_record(rec, &mut chain, sections) {
                    Some(sym) => {
                        proof {
                            let d = spec_record_desc(*rec, popped, sections@).unwrap();
                            assert(spec_walk(events@, i as int, cv_pre, sections@) == seq![d]
                                + spec_walk(events@, i + 1, stepped, sections@));
                            assert(all.skip(done)[0] == d);
                            assert(all[done] == d);
                            assert(all.skip(done).drop_first() =~= all.skip(done + 1));
                            assert(all.skip(done + 1) =~= spec_walk(
                                events@,
                                i + 1,
                                stepped,
                                sections@,
                            ));
                            assert(chain_view(chain) =~= stepped);
                        }
                        out.push(sym);
                    },
                    None => {
                        proof {
                            assert(spec_walk(events@, i as int, cv_pre, sections@) == spec_walk(
                                events@,
                                i + 1,
                                stepped,
                                sections@,
                            ));
                            assert(chain_view(chain) =~= stepped);
                        }
                    },
                }
            },
            DieKind::Container => {
                match &rec.name {
                    Some(n) => {
                        chain.push(crate::binary::sections::clone_string(n));
                        proof {
                            assert(chain_view(chain) =~= popped.push(
                                (n@, rec.depth as int),
                            ));
                            assert(chain_view(chain) =~= stepped);
                        }
                    },
                    None => {
                        proof {
                            assert(chain_view(chain) =~= stepped);
                        }
                    },
                }
                proof {
                    assert(spec_walk(events@, i as int, cv_pre, sections@) == spec_walk(
                        events@,
                        i + 1,
                        stepped,
                        sections@,
                    ));
                }
            },
            DieKind::Other => {
                proof {
                    assert(chain_view(chain) =~= stepped);
                    assert(spec_walk(events@, i as int, cv_pre, sections@) == spec_walk(
                        events@,
                        i + 1,
                        stepped,
                        sections@,
                    ));
                }
            },
        }
        i = i + 1;
    }
    proof {
        assert(all.skip(out@.len() - base) =~= Seq::<(Seq<char>, u64, int, int)>::empty());
        assert(out@.len() - base == all.len());
    }
}

/// Builds the symbol for one subprogram record: it needs a start
/// address, an end (an address, or an offset added to the start), a
/// name, and a file offset backing the start; the record is dropped
/// otherwise, and also when its range is empty or does not fit.
pub fn symbol_from_record(
    rec: &DieRecord,
    chain: &mut NameChain,
    sections: &Vec<Section>,
) -> (r: Option<Symbol>)
    requires
        sections_wf(sections@),
        old(chain).wf(),
        old(chain).names@.len() > 0 ==> old(chain).names@[old(chain).names@.len() - 1].1 < old(
            chain,
        ).depth,
    ensures
        final(chain).wf(),
        final(chain).depth == old(chain).depth,
        r is Some <==> spec_record_desc(*rec, chain_view(*old(chain)), sections@) is Some,
        match r {
            Some(s) => {
                &&& s.wf()
                &&& s.source == SymbolSource::Dwarf
                &&& s.blen > 0
                &&& spec_addr_to_offset(sections@, s.addr) == Some(s.bpos as int)
                &&& sym_matches_desc(
                    s,
                    spec_record_desc(*rec, chain_view(*old(chain)), sections@).unwrap(),
                )
            },
            None => true,
        },
        chain_view(*final(chain)) =~= if spec_record_desc(
            *rec,
            chain_view(*old(chain)),
            sections@,
        ) is Some && rec.linkage_name is None {
            chain_view(*old(chain)).push((rec.name.unwrap()@, old(chain).depth as int))
        } else {
            chain_view(*old(chain))
        },
{
    let ghost cv0 = chain_view(*old(chain));
    let ghost desc = spec_record_desc(*rec, cv0, sections@);
    let start = match rec.low_pc {
        Some(s) => s,
        None => {
            return None;
        },
    };
    let raw_end = match rec.high_pc {
        Some(e) => e,
        None => {
            return None;
        },
    };
    let end: u64 = if rec.high_pc_is_offset {
        if raw_end > u64::MAX - start {
            return None;
        }
        start + raw_end
    } else {
        raw_end
    };
    if end <= start {
        return None;
    }
    let len = end - start;
    if len > usize::MAX as u64 {
        return None;
    }
    let off = match addr_to_offset(sections, start) {
        Some(o) => o,
        None => {
            return None;
        },
    };
    if off > usize::MAX as u64 || (off as usize) > usize::MAX - (len as usize) {
        return None;
    }
    match &rec.linkage_name {
        Some(ln) => {
            // the linkage name is mangled; demangle it on construction
            let sym = Symbol::new(
                crate::binary::sections::clone_string(ln),
                start,
                off as usize,
                len as usize,
                crate::symbol::SymbolType::Function,
                SymbolSource::Dwarf,
                crate::symbol::SymbolLang::Unknown,
            );
            proof {
                assert(desc matches Some(d) && d == (
                    crate::symbol::spec_demangle(ln@),
                    start,
                    off as int,
                    len as int,
                ));
            }
            Some(sym)
        },
        None => {
            match &rec.name {
                Some(n) => {
                    // qualify the plain name with the enclosing containers
                    chain.push(crate::binary::sections::clone_string(n));
                    proof {
                        assert(chain_view(*chain) =~= cv0.push((n@, old(chain).depth as int)));
                        assert(chain.spec_names() =~= chain_names(cv0).push(n@));
                    }
                    let qualified = chain.combine("::");
                    let sym = Symbol::new_unmangled(
                        qualified,
                        start,
                        off as usize,
                        len as usize,
                        SymbolSource::Dwarf,
                    );
                    proof {
                        assert(desc matches Some(d) && d == (
                            spec_join(chain_names(cv0).push(n@), "::"@),
                            start,
                            off as int,
                            len as int,
                        ));
                    }
                    Some(sym)
                },
                None => None,
            }
        },
    }
}

// ---------------------------------------------------------------------------
// Line information.
// ---------------------------------------------------------------------------

/// One row of a DWARF line program, flattened.
#[derive(Copy, Clone, PartialEq, Eq, Structural, Debug)]
pub struct LineRow {
    pub address: u64,
    pub file: usize,
    pub line: u32,
    pub end_sequence: bool,
}

/// A run of consecutive instructions with their source lines: rows
/// sorted by address, collapsed so that no two consecutive rows share an
/// address.
pub struct LineSequence {
    pub start: u64,
    pub end: u64,
    pub rows: Vec<(u64, usize, u32)>,
}

impl LineSequence {
    /// The construction invariant: a sequence covers a non-empty range
    /// that starts where its first row does, its rows' addresses never
    /// decrease, and consecutive rows never share an address.
    pub open spec fn wf(&self) -> bool {
        &&& self.rows@.len() > 0
        &&& self.start != 0
        &&& self.rows@[0].0 == self.start
        &&& forall|p: int, q: int|
            0 <= p < q < self.rows@.len() ==> (#[trigger] self.rows@[p]).0 <= (
            #[trigger] self.rows@[q]).0
        &&& forall|p: int|
            0 <= p < self.rows@.len() - 1 ==> (#[trigger] self.rows@[p]).0 != self.rows@[p + 1].0
    }
}

/// The line table of one compilation unit: its sequences and its file
/// names, indexed by the rows' file numbers.
pub struct Lines {
    pub sequences: Vec<LineSequence>,
    pub files: Vec<String>,
}

impl Lines {
    pub open spec fn wf(&self) -> bool {
        forall|i: int| 0 <= i < self.sequences@.len() ==> (#[trigger] self.sequences@[i]).wf()
    }
}

/// The fold of a raw row stream, as the DWARF line-number program
/// intends: a row with the end-sequence flag closes the run (discarded
/// when empty or started at address zero), of several consecutive rows
/// at one address the last wins, and a row whose address falls below
/// the run's last is dropped. Each emitted triple is a sequence's
/// (start, end, rows).
pub open spec fn spec_fold_rows(
    rows: Seq<LineRow>,
    i: int,
    start: u64,
    cur: Seq<(u64, usize, u32)>,
) -> Seq<(u64, u64, Seq<(u64, usize, u32)>)>
    decreases rows.len() - i,
{
    if 0 <= i < rows.len() {
        let row = rows[i];
        if row.end_sequence {
            if cur.len() > 0 && start != 0 {
                seq![(start, row.address, cur)] + spec_fold_rows(
                    rows,
                    i + 1,
                    0,
                    Seq::empty(),
                )
            } else {
                spec_fold_rows(rows, i + 1, 0, Seq::empty())
            }
        } else if cur.len() > 0 {
            if cur.last().0 == row.address {
                spec_fold_rows(
                    rows,
                    i + 1,
                    start,
                    cur.drop_last().push((row.address, row.file, row.line)),
                )
            } else if row.address < cur.last().0 {
                spec_fold_rows(rows, i + 1, start, cur)
            } else {
                spec_fold_rows(rows, i + 1, start, cur.push((row.address, row.file, row.line)))
            }
        } else {
            if row.address == 0 {
                spec_fold_rows(rows, i + 1, start, cur)
            } else {
                spec_fold_rows(
                    rows,
                    i + 1,
                    row.address,
                    cur.push((row.address, row.file, row.line)),
                )
            }
        }
    } else {
        Seq::empty()
    }
}

/// A built sequence realizes one triple of the fold.
pub open spec fn seq_matches_fold(q: LineSequence, d: (u64, u64, Seq<(u64, usize, u32)>)) -> bool {
    q.start == d.0 && q.end == d.1 && q.rows@ == d.2
}

/// Folds a raw row stream into sequences — exactly the triples of
/// `spec_fold_rows`, each satisfying the construction invariant — and
/// hands them back sorted by range start, as the lookups expect.
pub fn build_sequences(rows: &Vec<LineRow>) -> (r: Vec<LineSequence>)
    ensures
        forall|i: int| 0 <= i < r@.len() ==> (#[trigger] r@[i]).wf(),
        forall|p: int, q: int|
            0 <= p < q < r@.len() ==> (#[trigger] r@[p]).start <= (#[trigger] r@[q]).start,
        r@.len() == spec_fold_rows(rows@, 0, 0, Seq::empty()).len(),
        exists|pre: Seq<LineSequence>|
            {
                &&& pre.len() == spec_fold_rows(rows@, 0, 0, Seq::empty()).len()
                &&& (forall|j: int|
                    0 <= j < pre.len() ==> seq_matches_fold(
                        #[trigger] pre[j],
                        spec_fold_rows(rows@, 0, 0, Seq::empty())[j],
                    ))
                &&& r@.to_multiset() == #[trigger] pre.to_multiset()
            },
{
    let ghost all = spec_fold_rows(rows@, 0, 0, Seq::empty());
    let mut sequences: Vec<LineSequence> = Vec::new();
    let mut cur: Vec<(u64, usize, u32)> = Vec::new();
    let mut seq_start: u64 = 0;
    let mut prev_addr: u64 = 0;
    proof {
        assert(cur@ =~= Seq::<(u64, usize, u32)>::empty());
        assert(all.skip(0) =~= all);
    }
    let mut i: usize = 0;
    while i < rows.len()
        invariant
            i <= rows@.len(),
            all == spec_fold_rows(rows@, 0, 0, Seq::empty()),
            sequences@.len() <= all.len(),
            all.skip(sequences@.len() as int) =~= spec_fold_rows(
                rows@,
                i as int,
                seq_start,
                cur@,
            ),
            forall|j: int|
                0 <= j < sequences@.len() ==> seq_matches_fold(
                    #[trigger] sequences@[j],
                    all[j],
                ),
            forall|k: int| 0 <= k < sequences@.len() ==> (#[trigger] sequences@[k]).wf(),
            cur@.len() > 0 ==> {
                &&& cur@[0].0 == seq_start
                &&& seq_start != 0
                &&& cur@[cur@.len() - 1].0 == prev_addr
                &&& forall|p: int, q: int|
                    0 <= p < q < cur@.len() ==> (#[trigger] cur@[p]).0 <= (#[trigger] cur@[q]).0
                &&& forall|p: int|
                    0 <= p < cur@.len() - 1 ==> (#[trigger] cur@[p]).0 != cur@[p + 1].0
            },
        decreases rows@.len() - i,
    {
        let ghost done = sequences@.len() as int;
        let ghost start0 = seq_start;
        let ghost cur0 = cur@;
        let row = rows[i];
        assert(row == rows@[i as int]);
        i = i + 1;
        if row.end_sequence {
            if cur.len() > 0 && seq_start != 0 {
                let rows_done = cur;
                cur = Vec::new();
                let seq = LineSequence { start: seq_start, end: row.address, rows: rows_done };
                proof {
                    let h = (start0, row.address, cur0);
                    let rest = spec_fold_rows(
                        rows@,
                        i as int,
                        0u64,
                        Seq::<(u64, usize, u32)>::empty(),
                    );
                    assert(spec_fold_rows(rows@, i - 1, start0, cur0) == seq![h] + rest);
                    assert(all.skip(done) == seq![h] + rest);
                    assert(all.skip(done)[0] == h);
                    assert(all[done] == all.skip(done)[0]);
                    assert(seq_matches_fold(seq, all[done]));
                    assert(all.skip(done).drop_first() =~= all.skip(done + 1));
                    assert(all.skip(done + 1) =~= rest);
                    assert(cur@ =~= Seq::<(u64, usize, u32)>::empty());
                }
                sequences.push(seq);
            } else {
                cur = Vec::new();
                proof {
                    assert(cur@ =~= Seq::<(u64, usize, u32)>::empty());
                }
            }
            seq_start = 0;
            prev_addr = 0;
            continue ;
        }
        if cur.len() > 0 {
            if prev_addr == row.address {
                // the last row at an address wins
                let last = cur.len() - 1;
                let ghost pre = cur@;
                let _ = cur.remove(last);
                assert(cur@ =~= pre.drop_last());
                cur.push((row.address, row.file, row.line));
                proof {
                    assert(cur@ =~= pre.drop_last().push((row.address, row.file, row.line)));
                }
                continue ;
            }
            if row.address < prev_addr {
                // a decreasing address cannot extend the run; drop the row
                continue ;
            }
            prev_addr = row.address;
            let ghost pre = cur@;
            cur.push((row.address, row.file, row.line));
            proof {
                assert(cur@ =~= pre.push((row.address, row.file, row.line)));
            }
        } else {
            if row.address == 0 {
                // runs starting at address zero are artifacts
                continue ;
            }
            seq_start = row.address;
            prev_addr = row.address;
            let ghost pre = cur@;
            cur.push((row.address, row.file, row.line));
            proof {
                assert(cur@ =~= pre.push((row.address, row.file, row.line)));
            }
        }
    }
    proof {
        assert(all.skip(sequences@.len() as int) =~= Seq::<
            (u64, u64, Seq<(u64, usize, u32)>),
        >::empty());
        assert(sequences@.len() == all.len());
    }
    let ghost pre_sort = sequences@;
    sort_sequences_by_start(&mut sequences);
    sequences
}

/// Sorts a sequence list by range start, keeping exactly the same
/// sequences.
fn sort_sequences_by_start(v: &mut Vec<LineSequence>)
    requires
        forall|i: int| 0 <= i < old(v)@.len() ==> (#[trigger] old(v)@[i]).wf(),
    ensures
        forall|i: int| 0 <= i < final(v)@.len() ==> (#[trigger] final(v)@[i]).wf(),
        forall|p: int, q: int|
            0 <= p < q < final(v)@.len() ==> (#[trigger] final(v)@[p]).start <= (
            #[trigger] final(v)@[q]).start,
        final(v)@.to_multiset() == old(v)@.to_multiset(),
        final(v)@.len() == old(v)@.len(),
{
    broadcast use vstd::seq_lib::to_multiset_insert;
    broadcast use vstd::seq_lib::group_to_multiset_ensures;
    broadcast use vstd::multiset::group_multiset_axioms;

    if v.len() == 0 {
        return ;
    }
    let mut i: usize = 1;
    while i < v.len()
        invariant
            1 <= i <= v@.len(),
            forall|k: int| 0 <= k < v@.len() ==> (#[trigger] v@[k]).wf(),
            v@.to_multiset() == old(v)@.to_multiset(),
            v@.len() == old(v)@.len(),
            forall|p: int, q: int|
                0 <= p < q < i ==> (#[trigger] v@[p]).start <= (#[trigger] v@[q]).start,
        decreases v@.len() - i,
    {
        let ghost pre = v@;
        let x = v.remove(i);
        assert(v@ =~= pre.remove(i as int));
        assert(x == pre[i as int]);
        let mut j: usize = i;
        loop
            invariant
                j <= i,
                i < pre.len(),
                v@ == pre.remove(i as int),
                x == pre[i as int],
                forall|p: int, q: int|
                    0 <= p < q < i ==> (#[trigger] v@[p]).start <= (#[trigger] v@[q]).start,
                forall|k: int| j <= k < i ==> x.start <= (#[trigger] v@[k]).start,
            ensures
                j <= i,
                i < pre.len(),
                v@ == pre.remove(i as int),
                x == pre[i as int],
                forall|k: int| j <= k < i ==> x.start <= (#[trigger] v@[k]).start,
                j > 0 ==> v@[j - 1].start <= x.start,
            decreases j,
        {
            if j == 0 {
                break ;
            }
            if v[j - 1].start <= x.start {
                break ;
            }
            j = j - 1;
        }
        let ghost before_insert = v@;
        v.insert(j, x);
        assert(v@ =~= before_insert.insert(j as int, x));
        proof {
            assert(pre.contains(x)) by {
                assert(pre[i as int] == x);
            }
            pre.to_multiset_ensures();
            vstd::seq_lib::to_multiset_insert(before_insert, j as int, x);
            assert(v@.to_multiset() =~= pre.to_multiset());
            assert forall|p: int, q: int| 0 <= p < q < i + 1 implies (#[trigger] v@[p]).start <= (
            #[trigger] v@[q]).start by {
                let jj = j as int;
                if q < jj {
                    assert(v@[p] == pre[p] && v@[q] == pre[q]);
                } else if p < jj && q == jj {
                    assert(v@[q] == x && v@[p] == pre[p]);
                    assert(before_insert[jj - 1] == pre[jj - 1]);
                } else if p < jj && q > jj {
                    assert(v@[p] == pre[p] && v@[q] == before_insert[q - 1]);
                    assert(before_insert[q - 1] == pre[q - 1]);
                } else if p == jj && q > jj {
                    assert(v@[p] == x && v@[q] == before_insert[q - 1]);
                } else {
                    assert(p > jj && q > jj);
                    assert(v@[p] == before_insert[p - 1] && v@[q] == before_insert[q - 1]);
                    assert(before_insert[p - 1] == pre[p - 1] && before_insert[q - 1] == pre[q
                        - 1]);
                }
            }
            assert forall|k: int| 0 <= k < v@.len() implies (#[trigger] v@[k]).wf() by {
                if k < j as int {
                    assert(v@[k] == pre[k]);
                } else if k > j as int {
                    assert(v@[k] == before_insert[k - 1]);
                }
            }
        }
        i = i + 1;
    }
}

/// The (file, line) pairs of the rows at exactly `addr`/// The (file, line) pairs of the rows at exactly `addr`, in order.
pub open spec fn spec_seq_hits(rows: Seq<(u64, usize, u32)>, addr: u64) -> Seq<(usize, u32)>
    decreases rows.len(),
{
    if rows.len() == 0 {
        Seq::empty()
    } else {
        let rest = spec_seq_hits(rows.drop_first(), addr);
        if rows[0].0 == addr {
            seq![(rows[0].1, rows[0].2)] + rest
        } else {
            rest
        }
    }
}

/// Whether a sequence covers an address.
pub open spec fn seq_covers(q: LineSequence, addr: u64) -> bool {
    q.start <= addr && addr < q.end
}

impl Lines {
    /// Every row of the first sequence covering `addr` that maps exactly
    /// that address, in document order; `None` when no sequence covers
    /// it or the covering sequence has no row at it.
    pub fn lines_for_addr(&self, addr: u64) -> (r: Option<Vec<(usize, u32)>>)
        requires
            self.wf(),
        ensures
            match r {
                Some(v) => exists|si: int|
                    {
                        &&& 0 <= si < self.sequences@.len()
                        &&& seq_covers(#[trigger] self.sequences@[si], addr)
                        &&& forall|k: int| 0 <= k < si ==> !seq_covers(#[trigger] self.sequences@[k], addr)
                        &&& v@ =~= spec_seq_hits(self.sequences@[si].rows@, addr)
                        &&& v@.len() > 0
                    },
                None => forall|si: int|
                    (0 <= si < self.sequences@.len() && seq_covers(#[trigger] self.sequences@[si], addr)
                        && (forall|k: int| 0 <= k < si ==> !seq_covers(#[trigger] self.sequences@[k], addr)))
                        ==> spec_seq_hits(self.sequences@[si].rows@, addr).len() == 0,
            },
    {
        let mut si: usize = 0;
        while si < self.sequences.len()
            invariant
                self.wf(),
                si <= self.sequences@.len(),
                forall|k: int| 0 <= k < si ==> !seq_covers(#[trigger] self.sequences@[k], addr),
            decreases self.sequences@.len() - si,
        {
            let seq = &self.sequences[si];
            if seq.start <= addr && addr < seq.end {
                let mut hits: Vec<(usize, u32)> = Vec::new();
                let mut k: usize = 0;
                proof {
                    assert(seq.rows@.skip(0) =~= seq.rows@);
                }
                while k < seq.rows.len()
                    invariant
                        self.wf(),
                        si < self.sequences@.len(),
                        seq == self.sequences@[si as int],
                        k <= seq.rows@.len(),
                        hits@ + spec_seq_hits(seq.rows@.skip(k as int), addr) =~= spec_seq_hits(
                            seq.rows@,
                            addr,
                        ),
                    decreases seq.rows@.len() - k,
                {
                    let ghost suffix = seq.rows@.skip(k as int);
                    proof {
                        assert(suffix[0] == seq.rows@[k as int]);
                        assert(suffix.drop_first() =~= seq.rows@.skip(k + 1));
                    }
                    let row = seq.rows[k];
                    if row.0 == addr {
                        let ghost pre = hits@;
                        hits.push((row.1, row.2));
                        proof {
                            assert(hits@ =~= pre.push((row.1, row.2)));
                            assert(hits@ + spec_seq_hits(seq.rows@.skip(k + 1), addr)
                                =~= spec_seq_hits(seq.rows@, addr));
                        }
                    }
                    k = k + 1;
                }
                proof {
                    assert(spec_seq_hits(seq.rows@.skip(seq.rows@.len() as int), addr)
                        =~= Seq::<(usize, u32)>::empty());
                    assert(hits@ =~= spec_seq_hits(seq.rows@, addr));
                }
                if hits.len() > 0 {
                    return Some(hits);
                } else {
                    return None;
                }
            }
            si = si + 1;
        }
        None
    }
}

/// The ranges a unit claims, from sequence `i` on: one (start, end,
/// unit) triple for each of its line sequences.
pub open spec fn spec_claimed_ranges(
    seqs: Seq<LineSequence>,
    u: usize,
    i: int,
) -> Seq<(u64, u64, usize)>
    decreases seqs.len() - i,
{
    if 0 <= i < seqs.len() {
        seq![(seqs[i].start, seqs[i].end, u)] + spec_claimed_ranges(seqs, u, i + 1)
    } else {
        Seq::empty()
    }
}

/// Records the address ranges a unit claims: exactly one entry per line
/// sequence, carrying the sequence's range and the unit's index.
pub fn record_unit_ranges(
    seqs: &Vec<LineSequence>,
    unit_index: usize,
    out: &mut Vec<(u64, u64, usize)>,
)
    ensures
        final(out)@ =~= old(out)@ + spec_claimed_ranges(seqs@, unit_index, 0),
{
    let ghost olds = out@;
    let ghost all = spec_claimed_ranges(seqs@, unit_index, 0);
    let ghost mut added: Seq<(u64, u64, usize)> = Seq::empty();
    let mut i: usize = 0;
    while i < seqs.len()
        invariant
            i <= seqs@.len(),
            all == spec_claimed_ranges(seqs@, unit_index, 0),
            out@ =~= olds + added,
            all =~= added + spec_claimed_ranges(seqs@, unit_index, i as int),
        decreases seqs@.len() - i,
    {
        let ghost pre = out@;
        let ghost pre_added = added;
        let s = &seqs[i];
        out.push((s.start, s.end, unit_index));
        proof {
            let head = (seqs@[i as int].start, seqs@[i as int].end, unit_index);
            added = added.push(head);
            assert(spec_claimed_ranges(seqs@, unit_index, i as int) == seq![head]
                + spec_claimed_ranges(seqs@, unit_index, i + 1));
            assert(out@ =~= pre.push(head));
            assert(olds + pre_added.push(head) =~= (olds + pre_added).push(head));
            assert(pre_added + (seq![head] + spec_claimed_ranges(seqs@, unit_index, i + 1))
                =~= added + spec_claimed_ranges(seqs@, unit_index, i + 1));
        }
        i = i + 1;
    }
    proof {
        assert(spec_claimed_ranges(seqs@, unit_index, seqs@.len() as int) =~= Seq::<(
            u64,
            u64,
            usize,
        )>::empty());
        assert(all =~= added);
    }
}

/// The line information of a whole binary: one entry per compilation
/// unit, with the address ranges that map to each unit.
pub struct DwarfInfo {
    /// (range start, range end, unit index) triples.
    pub unit_ranges: Vec<(u64, u64, usize)>,
    pub units: Vec<Lines>,
}

impl DwarfInfo {
    pub open spec fn wf(&self) -> bool {
        &&& forall|i: int| 0 <= i < self.units@.len() ==> (#[trigger] self.units@[i]).wf()
        &&& forall|i: int|
            0 <= i < self.unit_ranges@.len() ==> (#[trigger] self.unit_ranges@[i]).2
                < self.units@.len()
    }

    /// The sequences of the unit a range entry points at.
    pub open spec fn unit_seqs(&self, ri: int) -> Seq<LineSequence> {
        self.units@[self.unit_ranges@[ri].2 as int].sequences@
    }

    /// The (file index, line) pairs recorded for an address: the first
    /// unit whose range covers the address answers, with every row of
    /// its first covering sequence that hits the address exactly, in
    /// document order.
    pub fn addr2line(&self, addr: u64) -> (r: Option<Vec<(usize, u32)>>)
        requires
            self.wf(),
        ensures
            match r {
                Some(v) => exists|ri: int|
                    {
                        &&& 0 <= ri < self.unit_ranges@.len()
                        &&& range_covers(#[trigger] self.unit_ranges@[ri], addr)
                        &&& forall|k: int|
                            0 <= k < ri ==> !range_covers(#[trigger] self.unit_ranges@[k], addr)
                        &&& exists|si: int|
                            {
                                &&& 0 <= si < self.unit_seqs(ri).len()
                                &&& seq_covers(#[trigger] self.unit_seqs(ri)[si], addr)
                                &&& forall|k: int|
                                    0 <= k < si ==> !seq_covers(
                                        #[trigger] self.unit_seqs(ri)[k],
                                        addr,
                                    )
                                &&& v@ =~= spec_seq_hits(self.unit_seqs(ri)[si].rows@, addr)
                                &&& v@.len() > 0
                            }
                    },
                None => forall|ri: int|
                    (0 <= ri < self.unit_ranges@.len() && range_covers(
                        #[trigger] self.unit_ranges@[ri],
                        addr,
                    ) && (forall|k: int|
                        0 <= k < ri ==> !range_covers(#[trigger] self.unit_ranges@[k], addr)))
                        ==> forall|si: int|
                        (0 <= si < self.unit_seqs(ri).len() && seq_covers(
                            #[trigger] self.unit_seqs(ri)[si],
                            addr,
                        ) && (forall|k: int|
                            0 <= k < si ==> !seq_covers(#[trigger] self.unit_seqs(ri)[k], addr)))
                            ==> spec_seq_hits(self.unit_seqs(ri)[si].rows@, addr).len() == 0,
            },
    {
        let mut i: usize = 0;
        while i < self.unit_ranges.len()
            invariant
                self.wf(),
                i <= self.unit_ranges@.len(),
                forall|k: int| 0 <= k < i ==> !range_covers(#[trigger] self.unit_ranges@[k], addr),
            decreases self.unit_ranges@.len() - i,
        {
            let (lo, hi, unit) = self.unit_ranges[i];
            if lo <= addr && addr < hi {
                assert(range_covers(self.unit_ranges@[i as int], addr));
                assert(self.units@[unit as int].wf());
                let r = self.units[unit].lines_for_addr(addr);
                proof {
                    assert(self.unit_seqs(i as int) == self.units@[unit as int].sequences@);
                    match &r {
                        Some(v) => {
                            assert(exists|ri: int|
                                {
                                    &&& 0 <= ri < self.unit_ranges@.len()
                                    &&& range_covers(#[trigger] self.unit_ranges@[ri], addr)
                                    &&& forall|k: int|
                                        0 <= k < ri ==> !range_covers(
                                            #[trigger] self.unit_ranges@[k],
                                            addr,
                                        )
                                    &&& exists|si: int|
                                        {
                                            &&& 0 <= si < self.unit_seqs(ri).len()
                                            &&& seq_covers(
                                                #[trigger] self.unit_seqs(ri)[si],
                                                addr,
                                            )
                                            &&& forall|k: int|
                                                0 <= k < si ==> !seq_covers(
                                                    #[trigger] self.unit_seqs(ri)[k],
                                                    addr,
                                                )
                                            &&& v@ =~= spec_seq_hits(
                                                self.unit_seqs(ri)[si].rows@,
                                                addr,
                                            )
                                            &&& v@.len() > 0
                                        }
                                }) by {
                                assert((i as int) < self.unit_ranges@.len() && range_covers(
                                    self.unit_ranges@[i as int],
                                    addr,
                                ) && (forall|k: int|
                                    0 <= k < i as int ==> !range_covers(
                                        #[trigger] self.unit_ranges@[k],
                                        addr,
                                    )));
                            }
                        },
                        None => {
                            // only this range is first-covering, and the
                            // unit it points at answered that no covering
                            // sequence has a row at the address
                            assert(forall|ri: int|
                                (0 <= ri < self.unit_ranges@.len() && range_covers(
                                    #[trigger] self.unit_ranges@[ri],
                                    addr,
                                ) && (forall|k: int|
                                    0 <= k < ri ==> !range_covers(
                                        #[trigger] self.unit_ranges@[k],
                                        addr,
                                    ))) ==> ri == i as int);
                            assert(forall|si: int|
                                (0 <= si < self.unit_seqs(i as int).len() && seq_covers(
                                    #[trigger] self.unit_seqs(i as int)[si],
                                    addr,
                                ) && (forall|k: int|
                                    0 <= k < si ==> !seq_covers(
                                        #[trigger] self.unit_seqs(i as int)[k],
                                        addr,
                                    ))) ==> spec_seq_hits(
                                    self.unit_seqs(i as int)[si].rows@,
                                    addr,
                                ).len() == 0);
                        },
                    }
                }
                return r;
            }
            i = i + 1;
        }
        None
    }
}

/// Whether a unit range covers an address.
pub open spec fn range_covers(r: (u64, u64, usize), addr: u64) -> bool {
    r.0 <= addr && addr < r.1
}

} // verus!
