use vstd::prelude::*;

use std::sync::Arc;

verus! {

use vstd::math::{min, max};

#[verifier::external_type_specification]
#[verifier::external_body]
pub struct ExMmap(memmap::Mmap);

/// The bytes of a read-only memory mapping. The mapping never moves and
/// is never written through, so its contents are a function of the
/// mapping value alone.
pub uninterp spec fn mmap_bytes(m: memmap::Mmap) -> Seq<u8>;

/// Relies on the Deref impl of memmap::Mmap: the mapped bytes, stable
/// for as long as the mapping lives.
#[verifier::external_body]
fn mmap_slice(m: &memmap::Mmap) -> (r: &[u8])
    ensures
        r@ == mmap_bytes(*m),
{
    &m[..]
}

/// Relies on Arc::clone: the clone refers to the same mapping.
#[verifier::external_body]
fn share_mapping(m: &Arc<memmap::Mmap>) -> (r: Arc<memmap::Mmap>)
    ensures
        r == *m,
{
    m.clone()
}

/// Where a seek starts from.
#[derive(Copy, Clone, PartialEq, Eq, Structural, Debug)]
pub enum SeekFrom {
    Start(u64),
    End(i64),
    Current(i64),
}

/// Reference-counted, memory-mapped binary data: a view `[start, end)`
/// into a shared immutable mapping, with a read cursor. Sub-slices share
/// the mapping; the bytes never move while any slice is alive.
pub struct BinaryData {
    /// The original path the data was loaded from.
    pub path: String,
    /// First byte of this view within the mapping.
    pub start: usize,
    /// One past the last byte of this view within the mapping.
    pub end: usize,
    /// The read cursor, absolute within the mapping.
    pub cursor: usize,
    /// The shared mapping.
    pub mmap: Arc<memmap::Mmap>,
}

impl View for BinaryData {
    type V = Seq<u8>;

    /// The bytes this view exposes.
    open spec fn view(&self) -> Seq<u8> {
        mmap_bytes(*self.mmap).subrange(self.start as int, self.end as int)
    }
}

impl BinaryData {
    /// The whole underlying mapping.
    pub open spec fn mapping(&self) -> Seq<u8> {
        mmap_bytes(*self.mmap)
    }

    /// The view's bounds lie inside the mapping and the cursor inside
    /// the view.
    pub open spec fn wf(&self) -> bool {
        self.start <= self.end && self.end <= self.mapping().len() && self.start <= self.cursor
            && self.cursor <= self.end
    }

    /// The length of this view.
    pub fn len(&self) -> (r: usize)
        requires
            self.wf(),
        ensures
            r == self@.len(),
    {
        self.end - self.start
    }

    /// Wraps a fresh read-only mapping: the view spans the whole file.
    pub fn from_mmap(m: memmap::Mmap, path: String) -> (r: BinaryData)
        ensures
            r.wf(),
            r.mapping() == mmap_bytes(m),
            r@ == mmap_bytes(m),
            r.start == 0,
            r.cursor == 0,
            r.path == path,
    {
        let n = mmap_slice(&m).len();
        let d = BinaryData { path, start: 0, end: n, cursor: 0, mmap: Arc::new(m) };
        proof {
            assert(d@ =~= mmap_bytes(m));
        }
        d
    }

    /// The length of the whole underlying mapping.
    pub fn mapping_len(&self) -> (r: usize)
        ensures
            r == self.mapping().len(),
    {
        mmap_slice(&self.mmap).len()
    }

    pub fn path(&self) -> (r: &String)
        ensures
            r == self.path,
    {
        &self.path
    }

    /// The bytes of this view. They stay at the same place in memory for
    /// as long as the mapping lives.
    pub fn as_bytes(&self) -> (r: &[u8])
        requires
            self.wf(),
        ensures
            r@ == self@,
    {
        let whole = mmap_slice(&self.mmap);
        &whole[self.start..self.end]
    }

    /// A sub-view of this view. Bounds are clamped to this view's
    /// bounds; the sub-view shares the mapping and its cursor rests at
    /// the start of the requested range. For an in-range pair the bytes
    /// of the slice are exactly the requested bytes of this view.
    pub fn slice(&self, from: usize, to: usize) -> (r: BinaryData)
        requires
            self.wf(),
        ensures
            r.wf(),
            r.mapping() == self.mapping(),
            r.path == self.path,
            r@ == self@.subrange(
                min(from as int, self@.len() as int),
                max(min(to as int, self@.len() as int), min(from as int, self@.len() as int)),
            ),
            from <= to && to <= self@.len() ==> r@ == self@.subrange(from as int, to as int),
            r.cursor == r.start,
    {
        let len = self.end - self.start;
        let a = if from < len {
            from
        } else {
            len
        };
        let mut b = if to < len {
            to
        } else {
            len
        };
        if b < a {
            b = a;
        }
        let r = BinaryData {
            path: clone_str(&self.path),
            start: self.start + a,
            end: self.start + b,
            cursor: self.start + a,
            mmap: share_mapping(&self.mmap),
        };
        proof {
            assert(r@ =~= self@.subrange(
                min(from as int, self@.len() as int),
                max(min(to as int, self@.len() as int), min(from as int, self@.len() as int)),
            ));
            if from <= to && to <= self@.len() {
                assert(r@ =~= self@.subrange(from as int, to as int));
            }
        }
        r
    }

    /// Reads sequentially from the cursor into `buf`, advancing the
    /// cursor; returns the number of bytes copied, which is the smaller
    /// of the buffer's size and what is left before the view's end, and
    /// zero only at the end of the view (or for an empty buffer).
    pub fn read(&mut self, buf: &mut Vec<u8>) -> (r: usize)
        requires
            old(self).wf(),
        ensures
            final(self).wf(),
            final(self).mapping() == old(self).mapping(),
            final(self).start == old(self).start,
            final(self).end == old(self).end,
            final(self).path == old(self).path,
            r == min(old(buf)@.len() as int, old(self).end - old(self).cursor),
            final(self).cursor == old(self).cursor + r,
            final(buf)@.len() == old(buf)@.len(),
            forall|k: int|
                0 <= k < r ==> final(buf)@[k] == old(self).mapping()[old(self).cursor + k],
            forall|k: int| r <= k < old(buf)@.len() ==> final(buf)@[k] == old(buf)@[k],
    {
        let avail = self.end - self.cursor;
        let want = buf.len();
        let n = if want < avail {
            want
        } else {
            avail
        };
        let whole = mmap_slice(&self.mmap);
        let mut k: usize = 0;
        while k < n
            invariant
                k <= n,
                n <= buf@.len(),
                buf@.len() == old(buf)@.len(),
                self == old(self),
                old(self).wf(),
                whole@ == old(self).mapping(),
                n == min(old(buf)@.len() as int, old(self).end - old(self).cursor),
                forall|t: int|
                    0 <= t < k ==> buf@[t] == old(self).mapping()[old(self).cursor + t],
                forall|t: int| k <= t < old(buf)@.len() ==> buf@[t] == old(buf)@[t],
            decreases n - k,
        {
            let byte = whole[self.cursor + k];
            buf.set(k, byte);
            k = k + 1;
        }
        self.cursor = self.cursor + n;
        n
    }

    /// The cursor position a seek requests, relative to the view: from
    /// its start, its end, or the current cursor; a position that falls
    /// outside the view clamps to the view's end.
    pub open spec fn spec_seek_target(&self, pos: SeekFrom) -> int {
        let len = self.end - self.start;
        let raw = match pos {
            SeekFrom::Start(o) => o as int,
            SeekFrom::End(o) => len + o,
            SeekFrom::Current(o) => (self.cursor - self.start) + o,
        };
        if 0 <= raw && raw <= len {
            raw
        } else {
            len
        }
    }

    /// Seeks within the view and returns the new cursor position,
    /// relative to the view's start.
    pub fn seek(&mut self, pos: SeekFrom) -> (r: u64)
        requires
            old(self).wf(),
        ensures
            final(self).wf(),
            final(self).mapping() == old(self).mapping(),
            final(self).start == old(self).start,
            final(self).end == old(self).end,
            final(self).path == old(self).path,
            r == old(self).spec_seek_target(pos),
            final(self).cursor == old(self).start + old(self).spec_seek_target(pos),
    {
        let len = self.end - self.start;
        let target: usize = match pos {
            SeekFrom::Start(o) => {
                if o <= len as u64 {
                    o as usize
                } else {
                    len
                }
            },
            SeekFrom::End(o) => {
                if o >= 0 {
                    len
                } else {
                    let back: u64 = if o == i64::MIN {
                        9223372036854775808u64
                    } else {
                        (-o) as u64
                    };
                    if back <= len as u64 {
                        len - (back as usize)
                    } else {
                        len
                    }
                }
            },
            SeekFrom::Current(o) => {
                let cur = self.cursor - self.start;
                if o >= 0 {
                    let fwd = o as u64;
                    if fwd <= (len - cur) as u64 {
                        cur + (fwd as usize)
                    } else {
                        len
                    }
                } else {
                    let back: u64 = if o == i64::MIN {
                        9223372036854775808u64
                    } else {
                        (-o) as u64
                    };
                    if back <= cur as u64 {
                        cur - (back as usize)
                    } else {
                        len
                    }
                }
            },
        };
        self.cursor = self.start + target;
        target as u64
    }
}

/// Copies a string; the copy carries the same characters.
fn clone_str(s: &String) -> (r: String)
    ensures
        r == *s,
{
    s.clone()
}

} // verus!
