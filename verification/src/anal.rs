use vstd::prelude::*;

use crate::binary::Arch;
use crate::insn::{Insn, InsnGroup, OpValue};

verus! {

/// The jump analyzer's verdict on one instruction.
#[derive(Copy, Clone, PartialEq, Eq, Structural, Debug)]
pub enum Jump {
    /// A jump to an instruction inside the symbol's own listing, by
    /// line index.
    Internal(usize),
    /// A jump to an absolute address that should be symbolicated.
    External(u64),
    /// No jump.
    NoJump,
}

impl Jump {
    pub open spec fn spec_is_internal(&self) -> bool {
        self is Internal
    }

    pub open spec fn spec_is_external(&self) -> bool {
        self is External
    }

    #[inline]
    pub fn is_internal(&self) -> (r: bool)
        ensures
            r == self.spec_is_internal(),
    {
        match self {
            Jump::Internal(_) => true,
            _ => false,
        }
    }

    #[inline]
    pub fn is_external(&self) -> (r: bool)
        ensures
            r == self.spec_is_external(),
    {
        match self {
            Jump::External(_) => true,
            _ => false,
        }
    }
}

/// The groups that mark a control transfer with a potential target.
pub open spec fn spec_is_branch_group(g: InsnGroup) -> bool {
    g == InsnGroup::Call || g == InsnGroup::Jump || g == InsnGroup::BranchRelative
}

/// The verdict for an instruction's groups and operands: a control
/// transfer with exactly one operand that is an immediate resolves to
/// that absolute target; anything else (indirect jumps included) is no
/// jump.
pub open spec fn spec_identify_jump(groups: Seq<InsnGroup>, ops: Seq<OpValue>) -> Jump {
    if exists|i: int| 0 <= i < groups.len() && spec_is_branch_group(#[trigger] groups[i]) {
        if ops.len() == 1 {
            match ops[0] {
                OpValue::Imm(a) => Jump::External(a as u64),
                _ => Jump::NoJump,
            }
        } else {
            Jump::NoJump
        }
    } else {
        Jump::NoJump
    }
}

/// Classifies one instruction. Jump analysis runs for the architectures
/// with an operand model (x86, x86-64, AArch64); for the others every
/// instruction reads as no jump.
pub fn identify_jump_target(insn: &Insn, arch: Arch) -> (r: Jump)
    ensures
        (arch == Arch::X86 || arch == Arch::X86_64 || arch == Arch::AArch64) ==> r
            == spec_identify_jump(insn.groups@, insn.ops@),
        !(arch == Arch::X86 || arch == Arch::X86_64 || arch == Arch::AArch64) ==> r
            == Jump::NoJump,
{
    if !(arch == Arch::X86 || arch == Arch::X86_64 || arch == Arch::AArch64) {
        return Jump::NoJump;
    }
    let mut is_branch = false;
    let mut i: usize = 0;
    while i < insn.groups.len()
        invariant
            i <= insn.groups@.len(),
            is_branch == exists|k: int|
                0 <= k < i && spec_is_branch_group(#[trigger] insn.groups@[k]),
        decreases insn.groups@.len() - i,
    {
        let g = insn.groups[i];
        if g == InsnGroup::Call || g == InsnGroup::Jump || g == InsnGroup::BranchRelative {
            is_branch = true;
        }
        i = i + 1;
    }
    if !is_branch {
        return Jump::NoJump;
    }
    if insn.ops.len() != 1 {
        return Jump::NoJump;
    }
    match insn.ops[0] {
        OpValue::Imm(a) => Jump::External(a as u64),
        _ => Jump::NoJump,
    }
}

} // verus!
