pub mod anal;
pub mod binary;
pub mod display;
pub mod dwarf;
pub mod error;
pub mod index;
pub mod insn;
pub mod pdb;
pub mod printer;
pub mod source;
pub mod strmatch;
pub mod symbol;
pub mod util;

use vstd::prelude::*;

use crate::anal::{spec_identify_jump, Jump};
use crate::binary::{Arch, Binary};
use crate::insn::Insn;
use crate::symbol::{spec_priority, Symbol};
use crate::util::{hex_string, spec_hex_digits};

verus! {

/// One line of a disassembly listing: one decoded instruction with its
/// rendering, the jump analyzer's verdict, and the annotations the
/// symbolication pass adds.
pub struct DisasmLine {
    pub address: u64,
    pub mnemonic: String,
    pub operands: String,
    pub comments: Option<String>,
    pub bytes: Vec<u8>,
    pub source_lines: Option<Vec<String>>,
    pub jump: Jump,
    pub is_symbolicated_jump: bool,
}

impl DisasmLine {
    /// The line's byte range fits the address space.
    pub open spec fn wf(&self) -> bool {
        self.address + self.bytes@.len() <= u64::MAX
    }

    pub open spec fn spec_contains_addr(&self, addr: u64) -> bool {
        self.address <= addr && addr < self.address + self.bytes@.len()
    }

    /// Whether an address falls inside this line's byte range.
    pub fn contains_addr(&self, addr: u64) -> (r: bool)
        requires
            self.wf(),
        ensures
            r == self.spec_contains_addr(addr),
    {
        addr >= self.address && addr < self.address + (self.bytes.len() as u64)
    }

    pub fn address(&self) -> (r: u64)
        ensures
            r == self.address,
    {
        self.address
    }

    pub fn mnemonic(&self) -> (r: &str)
        ensures
            r@ == self.mnemonic@,
    {
        self.mnemonic.as_str()
    }

    pub fn operands(&self) -> (r: &str)
        ensures
            r@ == self.operands@,
    {
        self.operands.as_str()
    }

    /// The comment, or the empty string when the line has none.
    pub fn comments(&self) -> (r: &str)
        ensures
            match self.comments {
                Some(c) => r@ == c@,
                None => r@.len() == 0,
            },
    {
        match &self.comments {
            Some(c) => c.as_str(),
            None => {
                let empty = "";
                proof {
                    reveal_strlit("");
                }
                empty
            },
        }
    }

    pub fn bytes(&self) -> (r: &Vec<u8>)
        ensures
            r == self.bytes,
    {
        &self.bytes
    }

    pub fn source_lines(&self) -> (r: Option<&Vec<String>>)
        ensures
            match r {
                Some(v) => self.source_lines == Some(*v),
                None => self.source_lines is None,
            },
    {
        match &self.source_lines {
            Some(v) => Some(v),
            None => None,
        }
    }

    pub fn jump(&self) -> (r: Jump)
        ensures
            r == self.jump,
    {
        self.jump
    }

    pub fn is_symbolicated_jump(&self) -> (r: bool)
        ensures
            r == self.is_symbolicated_jump,
    {
        self.is_symbolicated_jump
    }
}

/// An ordered disassembly listing, immutable once built.
pub struct Disassembly {
    pub lines: Vec<DisasmLine>,
}

impl Disassembly {
    pub fn lines(&self) -> (r: &Vec<DisasmLine>)
        ensures
            r == self.lines,
    {
        &self.lines
    }

    /// Attaches source lines to one listing line; everything else is
    /// untouched.
    pub fn set_source_lines(&mut self, idx: usize, source_lines: Vec<String>)
        requires
            idx < old(self).lines@.len(),
        ensures
            final(self).lines@.len() == old(self).lines@.len(),
            forall|k: int|
                0 <= k < old(self).lines@.len() && k != idx ==> final(self).lines@[k] == old(
                    self,
                ).lines@[k],
            final(self).lines@[idx as int] == (DisasmLine {
                source_lines: Some(source_lines),
                ..old(self).lines@[idx as int]
            }),
    {
        let mut line = self.lines.remove(idx);
        line.source_lines = Some(source_lines);
        self.lines.insert(idx, line);
    }
}

/// The line the first pass builds for one decoded instruction: the
/// instruction's rendering with the jump analyzer's verdict, no comment,
/// and no symbolication yet.
pub open spec fn spec_initial_line(n: Insn, arch: Arch) -> DisasmLine {
    DisasmLine {
        address: n.address,
        mnemonic: n.mnemonic,
        operands: n.operands,
        comments: Option::<String>::None,
        bytes: n.bytes,
        source_lines: Option::<Vec<String>>::None,
        jump: if arch == Arch::X86 || arch == Arch::X86_64 || arch == Arch::AArch64 {
            spec_identify_jump(n.groups@, n.ops@)
        } else {
            Jump::NoJump
        },
        is_symbolicated_jump: false,
    }
}

pub open spec fn spec_initial_lines(insns: Seq<Insn>, arch: Arch) -> Seq<DisasmLine> {
    Seq::new(insns.len(), |i: int| spec_initial_line(insns[i], arch))
}

/// The shape of a line rewritten after a successful index lookup of an
/// external target `t`: the comment records the absolute target, and the
/// operand is the name of a symbol covering `t` (plus `+0x<offset>` when
/// the target is not its start) that no duplicate of its range outranks
/// — nor, in an index whose ranges only coincide exactly or stand apart,
/// any other symbol covering `t`.
pub open spec fn spec_resolved_by(index: Seq<Symbol>, t: u64, n: DisasmLine, si: int) -> bool {
    &&& 0 <= si < index.len()
    &&& index[si].spec_contains(t)
    &&& forall|j3: int|
        0 <= j3 < index.len() && crate::index::same_range(#[trigger] index[j3], index[si])
            ==> spec_priority(index[si].source) <= spec_priority(index[j3].source)
    &&& (crate::index::ranges_disjoint_or_equal(index) ==> forall|j3: int|
        0 <= j3 < index.len() && (#[trigger] index[j3]).spec_contains(t) ==> spec_priority(
            index[si].source,
        ) <= spec_priority(index[j3].source))
    &&& n.operands@ == if t == index[si].addr {
        index[si].name@
    } else {
        index[si].name@ + "+0x"@ + spec_hex_digits((t - index[si].addr) as nat)
    }
}

#[verifier::opaque]
pub open spec fn spec_resolved_rewrite(index: Seq<Symbol>, t: u64, n: DisasmLine) -> bool {
    &&& (n.comments matches Some(c) && c@ == "0x"@ + spec_hex_digits(t as nat))
    &&& exists|si: int| spec_resolved_by(index, t, n, si)
}

/// A line rewritten after a successful index lookup: same instruction,
/// jump unchanged, flagged as symbolicated, in the resolved shape.
pub open spec fn spec_resolved_line(index: Seq<Symbol>, t: u64, o: DisasmLine, n: DisasmLine) -> bool {
    &&& n.address == o.address
    &&& n.mnemonic == o.mnemonic
    &&& n.bytes == o.bytes
    &&& n.source_lines == o.source_lines
    &&& n.jump == o.jump
    &&& n.is_symbolicated_jump
    &&& spec_resolved_rewrite(index, t, n)
}

/// What the symbolication pass does to one line, given the symbol index,
/// the symbol under disassembly, and the original listing. A line whose
/// jump is external is rewritten: a target inside the current symbol
/// becomes `name+0x<offset>`, and the jump turns internal exactly when
/// some line starts at the target; a target covered by the index becomes
/// the covering symbol's name (with its offset when non-zero); an
/// unresolved target leaves the line unchanged. Every rewritten line
/// keeps its address, mnemonic, bytes and source lines, and records the
/// original absolute target as its comment.
pub open spec fn spec_line_after_pass(
    index: Seq<Symbol>,
    sym: Symbol,
    all_old: Seq<DisasmLine>,
    o: DisasmLine,
    n: DisasmLine,
) -> bool {
    &&& n.address == o.address
    &&& n.mnemonic == o.mnemonic
    &&& n.bytes == o.bytes
    &&& n.source_lines == o.source_lines
    &&& match o.jump {
        Jump::External(t) => {
            &&& match n.jump {
                Jump::Internal(j) => 0 <= j < all_old.len() && all_old[j as int].address == t,
                Jump::External(t2) => t2 == t,
                Jump::NoJump => false,
            }
            &&& if sym.spec_contains(t) {
                &&& n.operands@ == sym.name@ + "+0x"@ + spec_hex_digits((t - sym.addr) as nat)
                &&& (n.comments matches Some(c) && c@ == "0x"@ + spec_hex_digits(t as nat))
                &&& n.is_symbolicated_jump
                &&& (n.jump is Internal <==> exists|j2: int|
                    0 <= j2 < all_old.len() && (#[trigger] all_old[j2]).address == t)
            } else {
                // the target lies outside the current symbol: the jump
                // stays external, and the line is either rewritten in the
                // resolved shape or left alone — exactly according to
                // whether some symbol covers the target, whenever the
                // index's ranges only coincide exactly or stand apart
                &&& n.jump == o.jump
                &&& (n == o || spec_resolved_line(index, t, o, n))
                &&& (crate::index::ranges_disjoint_or_equal(index) ==> if exists|j2: int|
                    0 <= j2 < index.len() && (#[trigger] index[j2]).spec_contains(t) {
                    spec_resolved_line(index, t, o, n)
                } else {
                    n == o
                })
            }
        },
        _ => n == o,
    }
}

/// The first index of a line starting exactly at `addr`.
fn find_line_at(addrs: &Vec<u64>, addr: u64) -> (r: Option<usize>)
    ensures
        match r {
            Some(j) => j < addrs@.len() && addrs@[j as int] == addr && forall|k: int|
                0 <= k < j ==> addrs@[k] != addr,
            None => forall|k: int| 0 <= k < addrs@.len() ==> addrs@[k] != addr,
        },
{
    let mut j: usize = 0;
    while j < addrs.len()
        invariant
            j <= addrs@.len(),
            forall|k: int| 0 <= k < j ==> addrs@[k] != addr,
        decreases addrs@.len() - j,
    {
        if addrs[j] == addr {
            return Some(j);
        }
        j = j + 1;
    }
    None
}

/// Rewrites a line whose external target lies inside the symbol under
/// disassembly.
#[verifier::spinoff_prover]
fn rewrite_in_symbol(
    symbol: &Symbol,
    addrs: &Vec<u64>,
    line: DisasmLine,
    t: u64,
    Ghost(olds): Ghost<Seq<DisasmLine>>,
) -> (r: DisasmLine)
    requires
        symbol.wf(),
        symbol.spec_contains(t),
        addrs@.len() == olds.len(),
        forall|k: int| 0 <= k < olds.len() ==> addrs@[k] == (#[trigger] olds[k]).address,
    ensures
        r.address == line.address,
        r.mnemonic == line.mnemonic,
        r.bytes == line.bytes,
        r.source_lines == line.source_lines,
        r.operands@ == symbol.name@ + "+0x"@ + spec_hex_digits((t - symbol.addr) as nat),
        r.comments matches Some(c) && c@ == "0x"@ + spec_hex_digits(t as nat),
        r.is_symbolicated_jump,
        match r.jump {
            Jump::Internal(j) => 0 <= j < olds.len() && olds[j as int].address == t,
            Jump::External(t2) => t2 == t,
            Jump::NoJump => false,
        },
        r.jump is Internal <==> exists|j2: int|
            0 <= j2 < olds.len() && (#[trigger] olds[j2]).address == t,
{
    let off = t - symbol.address();
    let mut operands = crate::binary::sections::clone_string(&symbol.name);
    operands.append("+0x");
    let off_hex = hex_string(off);
    operands.append(off_hex.as_str());
    let mut comment = String::from_str("0x");
    let t_hex = hex_string(t);
    comment.append(t_hex.as_str());
    let njump = match find_line_at(addrs, t) {
        Some(j) => Jump::Internal(j),
        None => Jump::External(t),
    };
    DisasmLine {
        address: line.address,
        mnemonic: line.mnemonic,
        operands,
        comments: Some(comment),
        bytes: line.bytes,
        source_lines: line.source_lines,
        jump: njump,
        is_symbolicated_jump: true,
    }
}

/// Resolves an external target against the index: the rewritten line
/// with a set flag, or the line unchanged with a clear flag when the
/// lookup found nothing.
#[verifier::spinoff_prover]
#[verifier::rlimit(100)]
fn rewrite_resolved(binary: &Binary, line: DisasmLine, t: u64) -> (r: (DisasmLine, bool))
    requires
        binary.index_wf(),
    ensures
        r.1 ==> {
            &&& r.0.address == line.address
            &&& r.0.mnemonic == line.mnemonic
            &&& r.0.bytes == line.bytes
            &&& r.0.source_lines == line.source_lines
            &&& r.0.jump == Jump::External(t)
            &&& r.0.is_symbolicated_jump
            &&& spec_resolved_rewrite(binary.symbols@, t, r.0)
        },
        !r.1 ==> r.0 == line,
        crate::index::ranges_disjoint_or_equal(binary.symbols@) ==> (r.1 <==> exists|j2: int|
            0 <= j2 < binary.symbols@.len() && (#[trigger] binary.symbols@[j2]).spec_contains(t)),
{
    let ghost index = binary.symbols@;
    match index::find_covering(&binary.symbols, t) {
        Some(i) => {
            let s = &binary.symbols[i];
            assert(index[i as int].wf());
            let off = t - s.address();
            let mut operands = crate::binary::sections::clone_string(&s.name);
            if off != 0 {
                operands.append("+0x");
                let off_hex = hex_string(off);
                operands.append(off_hex.as_str());
            }
            let mut comment = String::from_str("0x");
            let t_hex = hex_string(t);
            comment.append(t_hex.as_str());
            let out = DisasmLine {
                address: line.address,
                mnemonic: line.mnemonic,
                operands,
                comments: Some(comment),
                bytes: line.bytes,
                source_lines: line.source_lines,
                jump: Jump::External(t),
                is_symbolicated_jump: true,
            };
            proof {
                assert(out.operands@ == if t == index[i as int].addr {
                    index[i as int].name@
                } else {
                    index[i as int].name@ + "+0x"@ + spec_hex_digits(
                        (t - index[i as int].addr) as nat,
                    )
                });
                assert(spec_resolved_by(index, t, out, i as int));
                assert(spec_resolved_rewrite(index, t, out)) by {
                    reveal(spec_resolved_rewrite);
                    assert(spec_resolved_by(index, t, out, i as int));
                }
            }
            (out, true)
        },
        None => (line, false),
    }
}

/// Rewrites one line per the symbolication policy.
#[verifier::spinoff_prover]
fn process_line(
    binary: &Binary,
    symbol: &Symbol,
    addrs: &Vec<u64>,
    line: DisasmLine,
    Ghost(olds): Ghost<Seq<DisasmLine>>,
) -> (r: DisasmLine)
    requires
        symbol.wf(),
        binary.index_wf(),
        addrs@.len() == olds.len(),
        forall|k: int| 0 <= k < olds.len() ==> addrs@[k] == (#[trigger] olds[k]).address,
    ensures
        spec_line_after_pass(binary.symbols@, *symbol, olds, line, r),
{
    let t = match line.jump {
        Jump::External(t) => t,
        _ => {
            return line;
        },
    };
    if symbol.contains_address(t) {
        rewrite_in_symbol(symbol, addrs, line, t, Ghost(olds))
    } else {
        let (n, _) = rewrite_resolved(binary, line, t);
        n
    }
}

/// The symbolication pass: rewrites the operand of every line whose jump
/// resolved to an absolute target, as `spec_line_after_pass` states; in
/// particular a jump downgraded to `Internal(i)` always points at the
/// line whose address is the original external target.
pub fn symbolicate_and_internalize_jumps(
    binary: &Binary,
    symbol: &Symbol,
    disassembly: &mut Disassembly,
)
    requires
        symbol.wf(),
        binary.index_wf(),
    ensures
        final(disassembly).lines@.len() == old(disassembly).lines@.len(),
        forall|i: int|
            0 <= i < old(disassembly).lines@.len() ==> spec_line_after_pass(
                binary.symbols@,
                *symbol,
                old(disassembly).lines@,
                old(disassembly).lines@[i],
                #[trigger] final(disassembly).lines@[i],
            ),
{
    let ghost olds = disassembly.lines@;
    let mut addrs: Vec<u64> = Vec::new();
    let mut i: usize = 0;
    while i < disassembly.lines.len()
        invariant
            disassembly.lines@ == olds,
            i <= olds.len(),
            addrs@.len() == i,
            forall|k: int| 0 <= k < i ==> addrs@[k] == (#[trigger] olds[k]).address,
        decreases olds.len() - i,
    {
        addrs.push(disassembly.lines[i].address);
        i = i + 1;
    }
    let mut out: Vec<DisasmLine> = Vec::new();
    while disassembly.lines.len() > 0
        invariant
            symbol.wf(),
            binary.index_wf(),
            addrs@.len() == olds.len(),
            forall|k: int| 0 <= k < olds.len() ==> addrs@[k] == (#[trigger] olds[k]).address,
            out@.len() + disassembly.lines@.len() == olds.len(),
            disassembly.lines@ == olds.subrange(out@.len() as int, olds.len() as int),
            forall|k: int|
                0 <= k < out@.len() ==> spec_line_after_pass(
                    binary.symbols@,
                    *symbol,
                    olds,
                    olds[k],
                    #[trigger] out@[k],
                ),
        decreases disassembly.lines@.len(),
    {
        let ghost done = out@.len() as int;
        let line = disassembly.lines.remove(0);
        assert(line == olds[done]);
        assert(disassembly.lines@ =~= olds.subrange(done + 1, olds.len() as int));
        let processed = process_line(binary, symbol, &addrs, line, Ghost(olds));
        out.push(processed);
    }
    disassembly.lines = out;
}

/// Builds the first-pass listing for a stream of decoded instructions.
pub fn build_lines(insns: Vec<Insn>, arch: Arch) -> (r: Disassembly)
    ensures
        r.lines@ =~= spec_initial_lines(insns@, arch),
{
    let ghost insns_g = insns@;
    let mut rest = insns;
    let mut out: Vec<DisasmLine> = Vec::new();
    while rest.len() > 0
        invariant
            out@.len() + rest@.len() == insns_g.len(),
            rest@ == insns_g.subrange(out@.len() as int, insns_g.len() as int),
            forall|k: int|
                0 <= k < out@.len() ==> #[trigger] out@[k] == spec_initial_line(insns_g[k], arch),
        decreases rest@.len(),
    {
        let ghost done = out@.len() as int;
        let n = rest.remove(0);
        assert(n == insns_g[done]);
        assert(rest@ =~= insns_g.subrange(done + 1, insns_g.len() as int));
        let jump = crate::anal::identify_jump_target(&n, arch);
        let line = DisasmLine {
            address: n.address,
            mnemonic: n.mnemonic,
            operands: n.operands,
            comments: None,
            bytes: n.bytes,
            source_lines: None,
            jump,
            is_symbolicated_jump: false,
        };
        out.push(line);
    }
    Disassembly { lines: out }
}

/// Disassembles one symbol from its decoded instruction stream: builds a
/// line per instruction with the jump analyzer's verdict, then runs the
/// symbolication pass over the whole listing. An unknown architecture is
/// fatal, and the only error.
pub fn disasm(binary: &Binary, symbol: &Symbol, insns: Vec<Insn>) -> (r: Result<
    Disassembly,
    crate::error::Error,
>)
    requires
        symbol.wf(),
        binary.index_wf(),
    ensures
        r is Err <==> binary.arch == Arch::Unknown,
        r matches Err(e) ==> e is Unsupported,
        r matches Ok(d) ==> {
            &&& d.lines@.len() == insns@.len()
            &&& forall|i: int|
                0 <= i < insns@.len() ==> spec_line_after_pass(
                    binary.symbols@,
                    *symbol,
                    spec_initial_lines(insns@, binary.arch),
                    spec_initial_lines(insns@, binary.arch)[i],
                    #[trigger] d.lines@[i],
                )
        },
{
    if binary.arch() == Arch::Unknown {
        return Err(
            crate::error::Error::Unsupported(
                String::from_str("unknown or unsupported binary architecture"),
            ),
        );
    }
    let mut listing = build_lines(insns, binary.arch());
    symbolicate_and_internalize_jumps(binary, symbol, &mut listing);
    Ok(listing)
}

} // verus!
