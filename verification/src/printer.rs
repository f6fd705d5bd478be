use vstd::prelude::*;

use crate::strmatch::Tokenizer;
use crate::util::spec_hex_digit;

verus! {

/// Formatting options for a listing.
#[derive(Copy, Clone, PartialEq, Eq, Structural, Debug)]
pub struct DisasmOptions {
    pub show_bytes: bool,
    pub show_source: bool,
}

// ---------------------------------------------------------------------------
// Hexadecimal byte columns.
// ---------------------------------------------------------------------------

/// A borrowed byte string destined for a hexadecimal column.
pub struct Hex<'b>(pub &'b [u8]);

/// Two hexadecimal digits for one byte.
pub open spec fn spec_byte_hex(b: u8) -> Seq<char> {
    seq![spec_hex_digit(b as int / 16), spec_hex_digit(b as int % 16)]
}

/// The space-separated hexadecimal rendering of a byte string.
pub open spec fn spec_bytes_hex(b: Seq<u8>) -> Seq<char>
    decreases b.len(),
{
    if b.len() == 0 {
        Seq::empty()
    } else if b.len() == 1 {
        spec_byte_hex(b[0])
    } else {
        spec_byte_hex(b[0]) + seq![' '] + spec_bytes_hex(b.drop_first())
    }
}

fn byte_hex_digit(d: u8) -> (r: char)
    requires
        d < 16,
    ensures
        r == spec_hex_digit(d as int),
{
    if d == 0 {
        '0'
    } else if d == 1 {
        '1'
    } else if d == 2 {
        '2'
    } else if d == 3 {
        '3'
    } else if d == 4 {
        '4'
    } else if d == 5 {
        '5'
    } else if d == 6 {
        '6'
    } else if d == 7 {
        '7'
    } else if d == 8 {
        '8'
    } else if d == 9 {
        '9'
    } else if d == 10 {
        'a'
    } else if d == 11 {
        'b'
    } else if d == 12 {
        'c'
    } else if d == 13 {
        'd'
    } else if d == 14 {
        'e'
    } else {
        'f'
    }
}

impl<'b> Hex<'b> {
    /// Renders the bytes as lower-case hexadecimal pairs separated by
    /// single spaces.
    pub fn render(&self) -> (r: String)
        ensures
            r@ == spec_bytes_hex(self.0@),
    {
        let b = self.0;
        let mut out = String::new();
        let mut i: usize = 0;
        while i < b.len()
            invariant
                i <= b@.len(),
                out@ == spec_bytes_hex(b@.subrange(0, i as int)) + if i > 0 && i < b@.len() {
                    seq![' ']
                } else {
                    Seq::<char>::empty()
                },
            decreases b@.len() - i,
        {
            let ghost prefix = b@.subrange(0, i as int);
            let byte = b[i];
            out.push(byte_hex_digit(byte / 16));
            out.push(byte_hex_digit(byte % 16));
            if i + 1 < b.len() {
                out.push(' ');
            }
            proof {
                lemma_bytes_hex_snoc(b@, i as int);
            }
            i = i + 1;
        }
        proof {
            assert(b@.subrange(0, b@.len() as int) =~= b@);
        }
        out
    }
}

/// Extending the prefix by one byte extends the rendering by that byte's
/// digits (with a separating space before them when the prefix was not
/// empty).
proof fn lemma_bytes_hex_snoc(b: Seq<u8>, i: int)
    requires
        0 <= i < b.len(),
    ensures
        spec_bytes_hex(b.subrange(0, i + 1)) == if i == 0 {
            spec_byte_hex(b[0])
        } else {
            spec_bytes_hex(b.subrange(0, i)) + seq![' '] + spec_byte_hex(b[i])
        },
    decreases i,
{
    if i == 0 {
        assert(b.subrange(0, 1) =~= seq![b[0]]);
        assert(spec_bytes_hex(seq![b[0]]) == spec_byte_hex(b[0]));
    } else {
        let p1 = b.subrange(0, i + 1);
        let p0 = b.subrange(0, i);
        assert(p1.drop_first() =~= b.subrange(1, i + 1));
        assert(p0.drop_first() =~= b.subrange(1, i));
        lemma_bytes_hex_snoc(b.subrange(1, b.len() as int), i - 1);
        assert(b.subrange(1, b.len() as int).subrange(0, i) =~= b.subrange(1, i + 1));
        assert(b.subrange(1, b.len() as int).subrange(0, i - 1) =~= b.subrange(1, i));
        assert(b.subrange(1, b.len() as int)[i - 1] == b[i]);
        if i == 1 {
            assert(spec_bytes_hex(p1) == spec_byte_hex(p1[0]) + seq![' '] + spec_bytes_hex(
                p1.drop_first(),
            ));
            assert(spec_bytes_hex(b.subrange(1, 2)) == spec_byte_hex(b[1]));
            assert(spec_bytes_hex(p0) == spec_byte_hex(b[0]));
            assert(spec_bytes_hex(p1) =~= spec_bytes_hex(p0) + seq![' '] + spec_byte_hex(b[i]));
        } else {
            assert(spec_bytes_hex(p1) == spec_byte_hex(p1[0]) + seq![' '] + spec_bytes_hex(
                b.subrange(1, i + 1),
            ));
            assert(spec_bytes_hex(p0) == spec_byte_hex(p0[0]) + seq![' '] + spec_bytes_hex(
                b.subrange(1, i),
            ));
            assert(spec_bytes_hex(p1) =~= spec_bytes_hex(p0) + seq![' '] + spec_byte_hex(b[i]));
        }
    }
}

// ---------------------------------------------------------------------------
// Spacing.
// ---------------------------------------------------------------------------

/// A run of space characters for column alignment.
#[derive(Copy, Clone, PartialEq, Eq, Structural, Debug)]
pub struct Spacing(pub usize);

impl Spacing {
    /// Widens the run.
    pub fn plus(self, other: usize) -> (r: Spacing)
        requires
            self.0 + other <= usize::MAX,
        ensures
            r.0 == self.0 + other,
    {
        Spacing(self.0 + other)
    }

    /// The run as a string of spaces.
    pub fn render(&self) -> (r: String)
        ensures
            r@.len() == self.0,
            forall|k: int| 0 <= k < r@.len() ==> r@[k] == ' ',
    {
        let mut out = String::new();
        let mut i: usize = 0;
        while i < self.0
            invariant
                i <= self.0,
                out@.len() == i,
                forall|k: int| 0 <= k < i ==> out@[k] == ' ',
            decreases self.0 - i,
        {
            out.push(' ');
            i = i + 1;
        }
        out
    }
}

// ---------------------------------------------------------------------------
// Word wrapping for long operand strings.
// ---------------------------------------------------------------------------

/// One piece of a wrapped string: a run of text, or a forced break.
pub enum WrappedStr {
    Str(String),
    Break,
}

/// Wraps a string at token boundaries so that no output line exceeds
/// `max_len` characters (a single token longer than the limit stands on
/// a line of its own).
pub struct WordWrapped<'s> {
    pub max_len: usize,
    pub cur_len: usize,
    pub tokens: Tokenizer<'s>,
    pub pending: Option<&'s str>,
}

impl<'s> WordWrapped<'s> {
    pub open spec fn wf(&self) -> bool {
        self.tokens.wf()
    }

    pub fn new(string: &'s str, max_len: usize) -> (r: WordWrapped<'s>)
        ensures
            r.wf(),
            r.max_len == max_len,
    {
        WordWrapped {
            max_len,
            cur_len: 0,
            tokens: Tokenizer::no_whitespace_normalize(string),
            pending: None,
        }
    }

    /// The next piece: the pending token after a break, the next token
    /// of the source when it fits on the current line, a break (which
    /// stores that token as pending and resets the line) when it would
    /// not, and nothing once the source is exhausted.
    pub fn next_piece(&mut self) -> (r: Option<WrappedStr>)
        requires
            old(self).wf(),
        ensures
            final(self).wf(),
            final(self).max_len == old(self).max_len,
            final(self).tokens.source == old(self).tokens.source,
            final(self).tokens.normalize_whitespace == old(self).tokens.normalize_whitespace,
            match r {
                None => {
                    &&& old(self).pending is None
                    &&& old(self).tokens.spec_pos() == old(self).tokens.spec_source().len()
                    &&& *final(self) == *old(self)
                },
                Some(WrappedStr::Str(t)) => {
                    ||| {
                        &&& old(self).pending is Some
                        &&& t@ == (old(self).pending.unwrap())@
                        &&& final(self).pending is None
                        &&& final(self).tokens == old(self).tokens
                        &&& final(self).cur_len == if old(self).cur_len + t@.len() <= usize::MAX {
                            old(self).cur_len + t@.len()
                        } else {
                            old(self).cur_len as int
                        }
                    }
                    ||| {
                        &&& old(self).pending is None
                        &&& old(self).tokens.spec_pos() < old(self).tokens.spec_source().len()
                        &&& t@ == crate::strmatch::token_at(
                            old(self).tokens.spec_source(),
                            old(self).tokens.spec_pos(),
                            old(self).tokens.spec_normalize(),
                        )
                        &&& old(self).cur_len + t@.len() <= old(self).max_len
                        &&& final(self).cur_len == old(self).cur_len + t@.len()
                        &&& final(self).pending is None
                        &&& final(self).tokens.spec_pos() == crate::strmatch::token_end(
                            old(self).tokens.spec_source(),
                            old(self).tokens.spec_pos(),
                            old(self).tokens.spec_normalize(),
                        )
                    }
                },
                Some(WrappedStr::Break) => {
                    &&& old(self).pending is None
                    &&& old(self).tokens.spec_pos() < old(self).tokens.spec_source().len()
                    &&& (final(self).pending matches Some(p) && p@ == crate::strmatch::token_at(
                        old(self).tokens.spec_source(),
                        old(self).tokens.spec_pos(),
                        old(self).tokens.spec_normalize(),
                    ))
                    &&& old(self).cur_len + (final(self).pending.unwrap())@.len() > old(
                        self,
                    ).max_len || old(self).cur_len + (final(self).pending.unwrap())@.len()
                        > usize::MAX
                    &&& final(self).cur_len == 0
                    &&& final(self).tokens.spec_pos() == crate::strmatch::token_end(
                        old(self).tokens.spec_source(),
                        old(self).tokens.spec_pos(),
                        old(self).tokens.spec_normalize(),
                    )
                },
            },
    {
        match self.pending {
            Some(p) => {
                self.pending = None;
                let plen = p.unicode_len();
                if self.cur_len <= usize::MAX - plen {
                    self.cur_len = self.cur_len + plen;
                }
                return Some(WrappedStr::Str(p.to_owned()));
            },
            None => {},
        }
        let tok = match self.tokens.next_token() {
            Some(t) => t,
            None => {
                return None;
            },
        };
        let tlen = tok.unicode_len();
        if self.cur_len > usize::MAX - tlen || self.cur_len + tlen > self.max_len {
            self.cur_len = 0;
            self.pending = Some(tok);
            Some(WrappedStr::Break)
        } else {
            self.cur_len = self.cur_len + tlen;
            Some(WrappedStr::Str(tok.to_owned()))
        }
    }
}

} // verus!
