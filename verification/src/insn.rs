use vstd::prelude::*;

verus! {

/// The instruction groups the jump analyzer inspects. The decoder tags
/// each instruction with the groups it belongs to.
#[derive(Copy, Clone, PartialEq, Eq, Structural, Debug)]
pub enum InsnGroup {
    Invalid,
    Jump,
    Call,
    Ret,
    Int,
    Iret,
    Privilege,
    BranchRelative,
}

/// A memory operand as the decoder reports it.
#[derive(Copy, Clone, PartialEq, Eq, Structural, Debug)]
pub struct MemOperand {
    pub segment: u32,
    pub base: u32,
    pub index: u32,
    pub scale: i32,
    pub disp: i64,
}

/// The value of one operand: a register number, an immediate, a memory
/// reference, or something the analyzer does not inspect.
#[derive(Copy, Clone, PartialEq, Eq, Structural, Debug)]
pub enum OpValue {
    Reg(u32),
    Imm(i64),
    Mem(MemOperand),
    Other,
}

/// One decoded machine instruction, as the black-box decoder hands it
/// out: its address, rendered mnemonic and operand strings, raw bytes,
/// group memberships and operand values.
pub struct Insn {
    pub address: u64,
    pub mnemonic: String,
    pub operands: String,
    pub bytes: Vec<u8>,
    pub groups: Vec<InsnGroup>,
    pub ops: Vec<OpValue>,
}

} // verus!
