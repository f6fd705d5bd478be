use vstd::prelude::*;

use crate::binary::data::BinaryData;

verus! {

/// The position one past the newline that ends the line beginning at
/// `pos` (or the end of the data when no newline follows).
pub open spec fn spec_line_end(s: Seq<u8>, pos: int) -> int
    decreases s.len() - pos,
{
    if pos < 0 || pos >= s.len() {
        s.len() as int
    } else if s[pos] == 10 {
        pos + 1
    } else {
        spec_line_end(s, pos + 1)
    }
}

pub proof fn lemma_line_end_bounds(s: Seq<u8>, pos: int)
    requires
        0 <= pos <= s.len(),
    ensures
        pos <= spec_line_end(s, pos) <= s.len(),
    decreases s.len() - pos,
{
    if pos < s.len() && s[pos] != 10 {
        lemma_line_end_bounds(s, pos + 1);
    }
}

/// The end of the k-th line (zero-based): line ends chain through
/// `spec_line_end` from the start of the data.
pub open spec fn spec_nth_line_end(s: Seq<u8>, k: int) -> int
    decreases k + 1,
{
    if k < 0 {
        0
    } else {
        spec_line_end(s, spec_nth_line_end(s, k - 1))
    }
}

/// A lazily extended table of line endings over one source file: entry k
/// is the position one past the end of line k (lines count from zero
/// here; the query interface is one-based, as DWARF line numbers are).
/// Work grows with the deepest line asked for, never with the file size.
pub struct LineCache {
    pub data: BinaryData,
    pub offsets: Vec<usize>,
    pub scanned: usize,
}

impl LineCache {
    /// Offsets recorded so far are exactly the line ends of the data,
    /// each computed from the end of the line before it.
    pub open spec fn wf(&self) -> bool {
        &&& self.data.wf()
        &&& self.data.start == 0
        &&& self.data.end == self.data.mapping().len()
        &&& self.scanned <= self.data@.len()
        &&& forall|k: int|
            0 <= k < self.offsets@.len() ==> (#[trigger] self.offsets@[k]) == spec_line_end(
                self.data@,
                if k == 0 {
                    0int
                } else {
                    self.offsets@[k - 1] as int
                },
            )
        &&& (self.offsets@.len() == 0 ==> self.scanned == 0)
        &&& (self.offsets@.len() > 0 ==> self.scanned == self.offsets@[self.offsets@.len() - 1])
    }

    /// Wraps a whole mapped source file.
    pub fn new(data: BinaryData) -> (r: Option<LineCache>)
        requires
            data.wf(),
        ensures
            match r {
                Some(c) => c.wf(),
                None => data.start != 0 || data.end != data.mapping().len(),
            },
    {
        let whole = data.end == data.mapping_len();
        if data.start == 0 && whole {
            Some(LineCache { data, offsets: Vec::new(), scanned: 0 })
        } else {
            None
        }
    }

    /// Scans one more line ending into the table; does nothing at the
    /// end of the file.
    #[verifier::rlimit(50)]
    fn next_line(&mut self)
        requires
            old(self).wf(),
            old(self).scanned < old(self).data@.len(),
        ensures
            final(self).wf(),
            final(self).data == old(self).data,
            final(self).offsets@.len() == old(self).offsets@.len() + 1,
            final(self).scanned > old(self).scanned,
    {
        let bytes = self.data.as_bytes();
        let mut pos = self.scanned;
        let ghost start = old(self).scanned as int;
        let mut found = false;
        while pos < bytes.len() && !found
            invariant
                self == old(self),
                self.data.wf(),
                bytes@ == self.data@,
                start <= pos <= bytes@.len(),
                !found ==> spec_line_end(self.data@, start) == spec_line_end(self.data@, pos as int),
                found ==> spec_line_end(self.data@, start) == pos,
                found ==> pos > start,
            decreases bytes@.len() - pos + (if found { 0int } else { 1int }),
        {
            if bytes[pos] == 10 {
                pos = pos + 1;
                found = true;
            } else {
                pos = pos + 1;
            }
        }
        proof {
            lemma_line_end_bounds(self.data@, start);
            if !found {
                assert(pos == bytes@.len());
                assert(spec_line_end(self.data@, pos as int) == self.data@.len());
            }
        }
        let ghost pre = self.offsets@;
        self.offsets.push(pos);
        self.scanned = pos;
        proof {
            assert(self.offsets@ =~= pre.push(pos));
        }
    }

    /// The text of line `index` (one-based), without its trailing
    /// newline; `None` for line zero or a line past the end of the
    /// file. The table extends itself as far as the request needs.
    pub fn line(&mut self, index: u32) -> (r: Option<Vec<u8>>)
        requires
            old(self).wf(),
        ensures
            final(self).wf(),
            final(self).data == old(self).data,
            ({
                let s = old(self).data@;
                let k = index - 1;
                let start = spec_nth_line_end(s, k - 1);
                let raw_end = spec_nth_line_end(s, k);
                match r {
                    Some(v) => {
                        &&& index >= 1
                        &&& start < s.len()
                        &&& v@ =~= s.subrange(
                            start,
                            if raw_end > start && s[raw_end - 1] == 10 {
                                raw_end - 1
                            } else {
                                raw_end
                            },
                        )
                    },
                    None => index == 0 || start >= s.len(),
                }
            }),
    {
        if index == 0 {
            return None;
        }
        let want = (index - 1) as usize;
        loop
            invariant
                self.wf(),
                self.data == old(self).data,
            ensures
                self.wf(),
                self.data == old(self).data,
                self.offsets@.len() > want || self.scanned >= self.data@.len(),
            decreases want + 1 - self.offsets@.len(),
        {
            if !(self.offsets.len() <= want && self.scanned < self.data.len()) {
                break ;
            }
            self.next_line();
        }
        proof {
            lemma_offsets_are_nth_ends(self);
        }
        let ghost s = self.data@;
        let ghost start_g = spec_nth_line_end(s, want - 1);
        if want >= self.offsets.len() {
            // every recorded line was scanned and the file is exhausted:
            // the requested line starts at or past the end of the data
            proof {
                lemma_nth_end_monotonic(s, self.offsets@.len() as int - 1, want - 1);
                if self.offsets@.len() > 0 {
                    assert(self.scanned == self.offsets@[self.offsets@.len() - 1]);
                    assert(spec_nth_line_end(s, self.offsets@.len() - 1) == self.scanned);
                } else {
                    assert(self.scanned == 0);
                }
            }
            return None;
        }
        let end_raw = self.offsets[want];
        let start = if want == 0 {
            0
        } else {
            self.offsets[want - 1]
        };
        proof {
            lemma_nth_ends_ordered(s, want as int);
            assert(start as int == start_g);
            assert(end_raw as int == spec_nth_line_end(s, want as int));
        }
        if start >= self.data.len() {
            return None;
        }
        let bytes = self.data.as_bytes();
        let mut end = end_raw;
        if end > start && bytes[end - 1] == 10 {
            end = end - 1;
        }
        let mut out: Vec<u8> = Vec::new();
        let mut k = start;
        while k < end
            invariant
                start <= k <= end,
                end <= bytes@.len(),
                bytes@ == self.data@,
                out@ =~= self.data@.subrange(start as int, k as int),
            decreases end - k,
        {
            out.push(bytes[k]);
            proof {
                assert(out@ =~= self.data@.subrange(start as int, k + 1));
            }
            k = k + 1;
        }
        Some(out)
    }
}

/// The recorded offsets are exactly the successive line ends.
proof fn lemma_offsets_are_nth_ends(c: &LineCache)
    requires
        c.wf(),
    ensures
        forall|k: int|
            0 <= k < c.offsets@.len() ==> #[trigger] c.offsets@[k] == spec_nth_line_end(
                c.data@,
                k,
            ),
    decreases c.offsets@.len(),
{
    assert forall|k: int|
        0 <= k < c.offsets@.len() implies #[trigger] c.offsets@[k] == spec_nth_line_end(
        c.data@,
        k,
    ) by {
        lemma_offset_is_nth_end(c, k);
    }
}

proof fn lemma_offset_is_nth_end(c: &LineCache, k: int)
    requires
        c.wf(),
        0 <= k < c.offsets@.len(),
    ensures
        c.offsets@[k] == spec_nth_line_end(c.data@, k),
    decreases k,
{
    if k == 0 {
        assert(spec_nth_line_end(c.data@, -1) == 0);
    } else {
        lemma_offset_is_nth_end(c, k - 1);
    }
}

/// Line ends never decrease and never pass the end of the data.
proof fn lemma_nth_ends_ordered(s: Seq<u8>, k: int)
    requires
        k >= -1,
    ensures
        0 <= spec_nth_line_end(s, k) <= s.len(),
        k >= 0 ==> spec_nth_line_end(s, k - 1) <= spec_nth_line_end(s, k),
    decreases k + 1,
{
    if k >= 0 {
        lemma_nth_ends_ordered(s, k - 1);
        lemma_line_end_bounds(s, spec_nth_line_end(s, k - 1));
    }
}

/// Once a line end reaches the end of the data, all later ones stay
/// there.
proof fn lemma_nth_end_monotonic(s: Seq<u8>, have: int, want: int)
    requires
        have <= want,
        have >= -1,
        have == -1 ==> s.len() == 0 || true,
    ensures
        spec_nth_line_end(s, have) >= s.len() ==> spec_nth_line_end(s, want) >= s.len(),
        have == -1 && s.len() == 0 ==> spec_nth_line_end(s, want) >= s.len(),
    decreases want - have,
{
    if have < want {
        lemma_nth_ends_ordered(s, have + 1);
        if spec_nth_line_end(s, have) >= s.len() {
            lemma_nth_ends_ordered(s, have);
            assert(spec_nth_line_end(s, have) == s.len());
            assert(spec_nth_line_end(s, have + 1) == spec_line_end(s, s.len() as int));
        }
        lemma_nth_end_monotonic(s, have + 1, want);
    }
}

} // verus!
