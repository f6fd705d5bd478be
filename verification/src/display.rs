use vstd::prelude::*;

use crate::util::spec_hex_digits;
use crate::Disassembly;

verus! {

/// Column measurements for a listing: the widest address, mnemonic,
/// operand string, comment and byte count over all lines, for downstream
/// formatters. String lengths saturate at the field width.
pub struct DisasmDisplayMeasure {
    /// The largest address that needs to be displayed.
    pub max_address: u64,
    /// The longest mnemonic, in characters.
    pub max_mnemonic_len: u16,
    /// The longest operand string, in characters.
    pub max_operands_len: u16,
    /// The longest comment, in characters.
    pub max_comments_len: u16,
    /// The most instruction bytes on one line.
    pub max_bytes_count: u16,
}

/// A string length clipped to a u16 column width.
pub open spec fn clip16(n: nat) -> u16 {
    if n > 65535 {
        65535u16
    } else {
        n as u16
    }
}

pub open spec fn spec_comment_len(c: Option<String>) -> nat {
    match c {
        Some(s) => s@.len(),
        None => 0,
    }
}

/// Measures the listing: each field is the maximum over all lines, and
/// each maximum is attained (or the field is zero for an empty listing).
pub fn measure(disassembly: &Disassembly) -> (r: DisasmDisplayMeasure)
    ensures
        forall|i: int|
            0 <= i < disassembly.lines@.len() ==> {
                let l = #[trigger] disassembly.lines@[i];
                &&& l.address <= r.max_address
                &&& clip16(l.mnemonic@.len()) <= r.max_mnemonic_len
                &&& clip16(l.operands@.len()) <= r.max_operands_len
                &&& clip16(spec_comment_len(l.comments)) <= r.max_comments_len
                &&& clip16(l.bytes@.len()) <= r.max_bytes_count
            },
        r.max_address != 0 ==> exists|i: int|
            0 <= i < disassembly.lines@.len() && (#[trigger] disassembly.lines@[i]).address
                == r.max_address,
        r.max_mnemonic_len != 0 ==> exists|i: int|
            0 <= i < disassembly.lines@.len() && clip16(
                (#[trigger] disassembly.lines@[i]).mnemonic@.len(),
            ) == r.max_mnemonic_len,
        r.max_operands_len != 0 ==> exists|i: int|
            0 <= i < disassembly.lines@.len() && clip16(
                (#[trigger] disassembly.lines@[i]).operands@.len(),
            ) == r.max_operands_len,
        r.max_comments_len != 0 ==> exists|i: int|
            0 <= i < disassembly.lines@.len() && clip16(
                spec_comment_len((#[trigger] disassembly.lines@[i]).comments),
            ) == r.max_comments_len,
        r.max_bytes_count != 0 ==> exists|i: int|
            0 <= i < disassembly.lines@.len() && clip16(
                (#[trigger] disassembly.lines@[i]).bytes@.len(),
            ) == r.max_bytes_count,
        disassembly.lines@.len() == 0 ==> r.max_address == 0 && r.max_mnemonic_len == 0
            && r.max_operands_len == 0 && r.max_comments_len == 0 && r.max_bytes_count == 0,
{
    let mut max_address: u64 = 0;
    let mut max_mnemonic_len: u16 = 0;
    let mut max_operands_len: u16 = 0;
    let mut max_comments_len: u16 = 0;
    let mut max_bytes_count: u16 = 0;
    let mut i: usize = 0;
    while i < disassembly.lines.len()
        invariant
            i <= disassembly.lines@.len(),
            forall|k: int|
                0 <= k < i ==> {
                    let l = #[trigger] disassembly.lines@[k];
                    &&& l.address <= max_address
                    &&& clip16(l.mnemonic@.len()) <= max_mnemonic_len
                    &&& clip16(l.operands@.len()) <= max_operands_len
                    &&& clip16(spec_comment_len(l.comments)) <= max_comments_len
                    &&& clip16(l.bytes@.len()) <= max_bytes_count
                },
            max_address != 0 ==> exists|k: int|
                0 <= k < i && (#[trigger] disassembly.lines@[k]).address == max_address,
            max_mnemonic_len != 0 ==> exists|k: int|
                0 <= k < i && clip16((#[trigger] disassembly.lines@[k]).mnemonic@.len())
                    == max_mnemonic_len,
            max_operands_len != 0 ==> exists|k: int|
                0 <= k < i && clip16((#[trigger] disassembly.lines@[k]).operands@.len())
                    == max_operands_len,
            max_comments_len != 0 ==> exists|k: int|
                0 <= k < i && clip16(spec_comment_len((#[trigger] disassembly.lines@[k]).comments))
                    == max_comments_len,
            max_bytes_count != 0 ==> exists|k: int|
                0 <= k < i && clip16((#[trigger] disassembly.lines@[k]).bytes@.len())
                    == max_bytes_count,
            i == 0 ==> max_address == 0 && max_mnemonic_len == 0 && max_operands_len == 0
                && max_comments_len == 0 && max_bytes_count == 0,
        decreases disassembly.lines@.len() - i,
    {
        let line = &disassembly.lines[i];
        if line.address > max_address {
            max_address = line.address;
            assert(disassembly.lines@[i as int].address == max_address);
        }
        let m_len = clip_len(line.mnemonic.unicode_len());
        if m_len > max_mnemonic_len {
            max_mnemonic_len = m_len;
            assert(clip16(disassembly.lines@[i as int].mnemonic@.len()) == max_mnemonic_len);
        }
        let o_len = clip_len(line.operands.unicode_len());
        if o_len > max_operands_len {
            max_operands_len = o_len;
            assert(clip16(disassembly.lines@[i as int].operands@.len()) == max_operands_len);
        }
        let c_len = match &line.comments {
            Some(c) => clip_len(c.unicode_len()),
            None => 0,
        };
        if c_len > max_comments_len {
            max_comments_len = c_len;
            assert(clip16(spec_comment_len(disassembly.lines@[i as int].comments))
                == max_comments_len);
        }
        let b_len = clip_len(line.bytes.len());
        if b_len > max_bytes_count {
            max_bytes_count = b_len;
            assert(clip16(disassembly.lines@[i as int].bytes@.len()) == max_bytes_count);
        }
        i = i + 1;
    }
    DisasmDisplayMeasure {
        max_address,
        max_mnemonic_len,
        max_operands_len,
        max_comments_len,
        max_bytes_count,
    }
}

fn clip_len(n: usize) -> (r: u16)
    ensures
        r == clip16(n as nat),
{
    if n > 65535 {
        65535
    } else {
        n as u16
    }
}

proof fn lemma_hex_len_step(v: nat)
    requires
        v >= 16,
    ensures
        spec_hex_digits(v).len() == 1 + spec_hex_digits(v / 16).len(),
{
}

/// Sixteen to the power `k`.
pub open spec fn pow16(k: nat) -> nat
    decreases k,
{
    if k == 0 {
        1
    } else {
        16 * pow16((k - 1) as nat)
    }
}

proof fn lemma_hex_len_le(v: nat, k: nat)
    requires
        k >= 1,
        v < pow16(k),
    ensures
        spec_hex_digits(v).len() <= k,
    decreases k,
{
    if v >= 16 {
        assert(pow16(k) == 16 * pow16((k - 1) as nat));
        lemma_hex_len_le(v / 16, (k - 1) as nat);
    }
}

impl DisasmDisplayMeasure {
    /// The width of the widest address in hexadecimal characters; an
    /// all-zero listing needs no digits.
    pub fn max_address_width_hex(&self) -> (r: usize)
        ensures
            self.max_address == 0 ==> r == 0,
            self.max_address != 0 ==> r == spec_hex_digits(self.max_address as nat).len(),
    {
        if self.max_address == 0 {
            return 0;
        }
        proof {
            assert(pow16(16) == 0x10000000000000000) by {
                reveal_with_fuel(pow16, 17);
            }
            lemma_hex_len_le(self.max_address as nat, 16);
        }
        let mut count: usize = 1;
        let mut x: u64 = self.max_address;
        while x >= 16
            invariant
                1 <= count,
                x > 0,
                spec_hex_digits(self.max_address as nat).len() <= 16,
                spec_hex_digits(x as nat).len() >= 1,
                spec_hex_digits(self.max_address as nat).len() == count + spec_hex_digits(
                    x as nat,
                ).len() - 1,
            decreases x,
        {
            proof {
                lemma_hex_len_step(x as nat);
            }
            x = x / 16;
            count = count + 1;
        }
        count
    }

    /// The width of the byte column in hexadecimal characters: two per
    /// byte plus `spacing` between bytes.
    pub fn max_bytes_width_hex(&self, spacing: usize) -> (r: usize)
        requires
            self.max_bytes_count * 2 + (if self.max_bytes_count > 0 {
                (self.max_bytes_count - 1) * spacing
            } else {
                0int
            }) <= usize::MAX,
        ensures
            self.max_bytes_count == 0 ==> r == 0,
            self.max_bytes_count > 0 ==> r == self.max_bytes_count * 2 + (self.max_bytes_count
                - 1) * spacing,
    {
        if self.max_bytes_count == 0 {
            return 0;
        }
        let n = self.max_bytes_count as usize;
        n * 2 + (n - 1) * spacing
    }

    pub fn max_mnemonic_len(&self) -> (r: usize)
        ensures
            r == self.max_mnemonic_len,
    {
        self.max_mnemonic_len as usize
    }

    pub fn max_operands_len(&self) -> (r: usize)
        ensures
            r == self.max_operands_len,
    {
        self.max_operands_len as usize
    }

    pub fn max_comments_len(&self) -> (r: usize)
        ensures
            r == self.max_comments_len,
    {
        self.max_comments_len as usize
    }
}

} // verus!
