use vstd::prelude::*;

verus! {

// ---------------------------------------------------------------------------
// Character classes used by the tokenizer.
// ---------------------------------------------------------------------------

/// First character of an identifier token.
pub open spec fn spec_is_ident_start(c: char) -> bool {
    ('a' <= c && c <= 'z') || ('A' <= c && c <= 'Z') || c == '_'
}

/// Character that may continue an identifier token.
pub open spec fn spec_is_ident_cont(c: char) -> bool {
    spec_is_ident_start(c) || ('0' <= c && c <= '9')
}

/// First character of a numeric token.
pub open spec fn spec_is_digit(c: char) -> bool {
    '0' <= c && c <= '9'
}

/// Character that may continue a numeric token (digits grouped with `_`).
pub open spec fn spec_is_digit_cont(c: char) -> bool {
    spec_is_digit(c) || c == '_'
}

/// Whitespace recognized by the tokenizer: the Unicode white-space
/// code points.
pub open spec fn spec_is_space(c: char) -> bool {
    ||| ('\u{09}' <= c && c <= '\u{0d}')
    ||| c == ' '
    ||| c == '\u{85}'
    ||| c == '\u{a0}'
    ||| c == '\u{1680}'
    ||| ('\u{2000}' <= c && c <= '\u{200a}')
    ||| c == '\u{2028}'
    ||| c == '\u{2029}'
    ||| c == '\u{202f}'
    ||| c == '\u{205f}'
    ||| c == '\u{3000}'
}

pub fn is_ident_start(c: char) -> (r: bool)
    ensures
        r == spec_is_ident_start(c),
{
    ('a' <= c && c <= 'z') || ('A' <= c && c <= 'Z') || c == '_'
}

pub fn is_ident_cont(c: char) -> (r: bool)
    ensures
        r == spec_is_ident_cont(c),
{
    is_ident_start(c) || ('0' <= c && c <= '9')
}

pub fn is_digit(c: char) -> (r: bool)
    ensures
        r == spec_is_digit(c),
{
    '0' <= c && c <= '9'
}

pub fn is_digit_cont(c: char) -> (r: bool)
    ensures
        r == spec_is_digit_cont(c),
{
    is_digit(c) || c == '_'
}

pub fn is_space(c: char) -> (r: bool)
    ensures
        r == spec_is_space(c),
{
    ('\u{09}' <= c && c <= '\u{0d}') || c == ' ' || c == '\u{85}' || c == '\u{a0}' || c
        == '\u{1680}' || ('\u{2000}' <= c && c <= '\u{200a}') || c == '\u{2028}' || c
        == '\u{2029}' || c == '\u{202f}' || c == '\u{205f}' || c == '\u{3000}'
}

// ---------------------------------------------------------------------------
// Token boundaries as a mathematical model.
// ---------------------------------------------------------------------------

/// End of the maximal whitespace run starting at `i`.
pub open spec fn space_run_end(s: Seq<char>, i: int) -> int
    decreases s.len() - i,
{
    if 0 <= i && i < s.len() && spec_is_space(s[i]) {
        space_run_end(s, i + 1)
    } else {
        i
    }
}

/// End of the maximal identifier run starting at `i`.
pub open spec fn ident_run_end(s: Seq<char>, i: int) -> int
    decreases s.len() - i,
{
    if 0 <= i && i < s.len() && spec_is_ident_cont(s[i]) {
        ident_run_end(s, i + 1)
    } else {
        i
    }
}

/// End of the maximal numeric run starting at `i`.
pub open spec fn digit_run_end(s: Seq<char>, i: int) -> int
    decreases s.len() - i,
{
    if 0 <= i && i < s.len() && spec_is_digit_cont(s[i]) {
        digit_run_end(s, i + 1)
    } else {
        i
    }
}

pub proof fn lemma_run_end_bounds(s: Seq<char>, i: int)
    requires
        0 <= i <= s.len(),
    ensures
        i <= space_run_end(s, i) <= s.len(),
        i <= ident_run_end(s, i) <= s.len(),
        i <= digit_run_end(s, i) <= s.len(),
    decreases s.len() - i,
{
    if i < s.len() {
        lemma_run_end_bounds(s, i + 1);
    }
}

/// One past the last character of the token that starts at `i`.
pub open spec fn token_end(s: Seq<char>, i: int, normalize: bool) -> int {
    let c = s[i];
    if c == ':' && i + 1 < s.len() && s[i + 1] == ':' {
        i + 2
    } else if spec_is_space(c) && normalize {
        space_run_end(s, i + 1)
    } else if spec_is_ident_start(c) {
        ident_run_end(s, i + 1)
    } else if spec_is_digit(c) {
        digit_run_end(s, i + 1)
    } else {
        i + 1
    }
}

pub proof fn lemma_token_end_bounds(s: Seq<char>, i: int, normalize: bool)
    requires
        0 <= i < s.len(),
    ensures
        i < token_end(s, i, normalize) <= s.len(),
{
    lemma_run_end_bounds(s, i + 1);
}

/// The token emitted for position `i`: a whitespace run collapses into a
/// single space when normalizing; every other token is the exact slice.
pub open spec fn token_at(s: Seq<char>, i: int, normalize: bool) -> Seq<char> {
    if spec_is_space(s[i]) && normalize {
        seq![' ']
    } else {
        s.subrange(i, token_end(s, i, normalize))
    }
}

/// All tokens of `s` from position `i` on.
pub open spec fn tokens_from(s: Seq<char>, i: int, normalize: bool) -> Seq<Seq<char>>
    decreases s.len() - i,
{
    if 0 <= i && i < s.len() {
        let e = token_end(s, i, normalize);
        if i < e && e <= s.len() {
            seq![token_at(s, i, normalize)] + tokens_from(s, e, normalize)
        } else {
            Seq::empty()
        }
    } else {
        Seq::empty()
    }
}

/// The token stream of a whole string.
pub open spec fn spec_tokens(s: Seq<char>, normalize: bool) -> Seq<Seq<char>> {
    tokens_from(s, 0, normalize)
}

/// Concatenation of a sequence of tokens.
pub open spec fn concat_tokens(ts: Seq<Seq<char>>) -> Seq<char>
    decreases ts.len(),
{
    if ts.len() == 0 {
        Seq::empty()
    } else {
        ts[0] + concat_tokens(ts.drop_first())
    }
}

proof fn lemma_concat_tokens_from(s: Seq<char>, i: int)
    requires
        0 <= i <= s.len(),
    ensures
        concat_tokens(tokens_from(s, i, false)) =~= s.subrange(i, s.len() as int),
    decreases s.len() - i,
{
    if i < s.len() {
        lemma_token_end_bounds(s, i, false);
        let e = token_end(s, i, false);
        lemma_concat_tokens_from(s, e);
        let ts = tokens_from(s, i, false);
        assert(ts[0] == token_at(s, i, false));
        assert(ts.drop_first() =~= tokens_from(s, e, false));
        assert(token_at(s, i, false) =~= s.subrange(i, e));
        assert(s.subrange(i, e) + s.subrange(e, s.len() as int) =~= s.subrange(i, s.len() as int));
    }
}

/// The tokenizer is lossless: without whitespace normalization,
/// concatenating the emitted tokens reproduces the input exactly.
pub proof fn lemma_tokens_concat_exact(s: Seq<char>)
    ensures
        concat_tokens(spec_tokens(s, false)) =~= s,
{
    lemma_concat_tokens_from(s, 0);
    assert(s.subrange(0, s.len() as int) =~= s);
}

proof fn lemma_tokens_concat_normalized_from(s: Seq<char>, i: int)
    requires
        0 <= i <= s.len(),
        forall|j: int|
            0 <= j < s.len() && #[trigger] spec_is_space(s[j]) ==> s[j] == ' ' && (j + 1 == s.len()
                || !spec_is_space(s[j + 1])),
    ensures
        concat_tokens(tokens_from(s, i, true)) =~= s.subrange(i, s.len() as int),
    decreases s.len() - i,
{
    if i < s.len() {
        lemma_token_end_bounds(s, i, true);
        let e = token_end(s, i, true);
        lemma_tokens_concat_normalized_from(s, e);
        let ts = tokens_from(s, i, true);
        assert(ts[0] == token_at(s, i, true));
        assert(ts.drop_first() =~= tokens_from(s, e, true));
        if spec_is_space(s[i]) {
            assert(s[i] == ' ');
            assert(e == space_run_end(s, i + 1));
            assert(e == i + 1);
            assert(token_at(s, i, true) =~= s.subrange(i, e));
        } else {
            assert(token_at(s, i, true) =~= s.subrange(i, e));
        }
        assert(s.subrange(i, e) + s.subrange(e, s.len() as int) =~= s.subrange(i, s.len() as int));
    }
}

/// With whitespace normalization the same holds as long as every
/// whitespace character of the input is a lone `' '` (a longer run is
/// deliberately collapsed into a single space).
pub proof fn lemma_tokens_concat_normalized(s: Seq<char>)
    requires
        forall|j: int|
            0 <= j < s.len() && #[trigger] spec_is_space(s[j]) ==> s[j] == ' ' && (j + 1 == s.len()
                || !spec_is_space(s[j + 1])),
    ensures
        concat_tokens(spec_tokens(s, true)) =~= s,
{
    lemma_tokens_concat_normalized_from(s, 0);
    assert(s.subrange(0, s.len() as int) =~= s);
}

// ---------------------------------------------------------------------------
// The executable tokenizer.
// ---------------------------------------------------------------------------

/// Splits a string into tokens: `::` is one token, identifier and numeric
/// runs group, whitespace optionally collapses into a single space, and any
/// other character stands alone.
pub struct Tokenizer<'a> {
    pub source: &'a str,
    pub pos: usize,
    pub normalize_whitespace: bool,
}

impl<'a> Tokenizer<'a> {
    /// Well-formedness: the cursor never passes the end of the source.
    pub open spec fn wf(&self) -> bool {
        self.pos <= self.source@.len()
    }

    pub open spec fn spec_source(&self) -> Seq<char> {
        self.source@
    }

    pub open spec fn spec_pos(&self) -> int {
        self.pos as int
    }

    pub open spec fn spec_normalize(&self) -> bool {
        self.normalize_whitespace
    }

    /// The tokens this tokenizer has yet to emit.
    pub open spec fn remaining_tokens(&self) -> Seq<Seq<char>> {
        tokens_from(self.source@, self.pos as int, self.normalize_whitespace)
    }

    pub fn new(source: &'a str) -> (t: Tokenizer<'a>)
        ensures
            t.wf(),
            t.spec_source() == source@,
            t.spec_pos() == 0,
            t.spec_normalize() == true,
    {
        Tokenizer { source, pos: 0, normalize_whitespace: true }
    }

    pub fn no_whitespace_normalize(source: &'a str) -> (t: Tokenizer<'a>)
        ensures
            t.wf(),
            t.spec_source() == source@,
            t.spec_pos() == 0,
            t.spec_normalize() == false,
    {
        Tokenizer { source, pos: 0, normalize_whitespace: false }
    }

    /// Advances `pos` to the end of the maximal run of the given character
    /// class, mirroring the run-end functions of the model.
    fn advance_run(&mut self, class: u8)
        requires
            old(self).wf(),
            class == 1 || class == 2 || class == 3,
        ensures
            final(self).wf(),
            final(self).source == old(self).source,
            final(self).normalize_whitespace == old(self).normalize_whitespace,
            class == 1 ==> final(self).pos as int == space_run_end(
                old(self).source@,
                old(self).pos as int,
            ),
            class == 2 ==> final(self).pos as int == ident_run_end(
                old(self).source@,
                old(self).pos as int,
            ),
            class == 3 ==> final(self).pos as int == digit_run_end(
                old(self).source@,
                old(self).pos as int,
            ),
    {
        let ghost start = old(self).pos as int;
        let len = self.source.unicode_len();
        loop
            invariant
                self.wf(),
                self.source == old(self).source,
                self.normalize_whitespace == old(self).normalize_whitespace,
                len == self.source@.len(),
                start == old(self).pos as int,
                start <= self.pos as int,
                class == 1 || class == 2 || class == 3,
                class == 1 ==> space_run_end(self.source@, start) == space_run_end(
                    self.source@,
                    self.pos as int,
                ),
                class == 2 ==> ident_run_end(self.source@, start) == ident_run_end(
                    self.source@,
                    self.pos as int,
                ),
                class == 3 ==> digit_run_end(self.source@, start) == digit_run_end(
                    self.source@,
                    self.pos as int,
                ),
            decreases self.source@.len() - self.pos as int,
        {
            if self.pos >= len {
                return ;
            }
            let c = self.source.get_char(self.pos);
            let cont = if class == 1 {
                is_space(c)
            } else if class == 2 {
                is_ident_cont(c)
            } else {
                is_digit_cont(c)
            };
            if !cont {
                return ;
            }
            self.pos = self.pos + 1;
        }
    }

    /// Emits the next token, or `None` once the input is exhausted.
    pub fn next_token(&mut self) -> (r: Option<&'a str>)
        requires
            old(self).wf(),
        ensures
            final(self).wf(),
            final(self).source == old(self).source,
            final(self).normalize_whitespace == old(self).normalize_whitespace,
            match r {
                Some(t) => {
                    &&& old(self).spec_pos() < old(self).spec_source().len()
                    &&& t@ == token_at(
                        old(self).spec_source(),
                        old(self).spec_pos(),
                        old(self).spec_normalize(),
                    )
                    &&& final(self).spec_pos() == token_end(
                        old(self).spec_source(),
                        old(self).spec_pos(),
                        old(self).spec_normalize(),
                    )
                },
                None => {
                    &&& old(self).spec_pos() == old(self).spec_source().len()
                    &&& final(self).pos == old(self).pos
                },
            },
    {
        let len = self.source.unicode_len();
        if self.pos >= len {
            return None;
        }
        let ghost s = self.source@;
        let ghost start_g = self.pos as int;
        proof {
            lemma_token_end_bounds(s, start_g, self.normalize_whitespace);
        }
        let start = self.pos;
        let c = self.source.get_char(start);

        if c == ':' && start + 1 < len && self.source.get_char(start + 1) == ':' {
            self.pos = start + 2;
            return Some(self.source.substring_char(start, start + 2));
        }
        if is_space(c) && self.normalize_whitespace {
            self.pos = start + 1;
            self.advance_run(1);
            proof {
                reveal_strlit(" ");
                assert(" "@ =~= seq![' ']);
            }
            return Some(" ");
        }
        if is_ident_start(c) {
            self.pos = start + 1;
            self.advance_run(2);
            return Some(self.source.substring_char(start, self.pos));
        }
        if is_digit(c) {
            self.pos = start + 1;
            self.advance_run(3);
            return Some(self.source.substring_char(start, self.pos));
        }
        self.pos = start + 1;
        Some(self.source.substring_char(start, self.pos))
    }
}

/// Collects every token of `source` into a vector.
pub fn tokenize(source: &str, normalize_whitespace: bool) -> (r: Vec<String>)
    ensures
        r.deep_view() == spec_tokens(source@, normalize_whitespace),
{
    let mut t = if normalize_whitespace {
        Tokenizer::new(source)
    } else {
        Tokenizer::no_whitespace_normalize(source)
    };
    let mut out: Vec<String> = Vec::new();
    loop
        invariant
            t.wf(),
            t.spec_source() == source@,
            t.spec_normalize() == normalize_whitespace,
            out.deep_view() + t.remaining_tokens() =~= spec_tokens(source@, normalize_whitespace),
        decreases t.spec_source().len() - t.spec_pos(),
    {
        let ghost p0 = t.spec_pos();
        let ghost before = t.remaining_tokens();
        let ghost out_before = out.deep_view();
        match t.next_token() {
            Some(tok) => {
                proof {
                    lemma_token_end_bounds(t.spec_source(), p0, t.spec_normalize());
                }
                assert(before =~= seq![tok@] + t.remaining_tokens());
                out.push(tok.to_owned());
                assert(out.deep_view() =~= out_before.push(tok@));
                assert(out.deep_view() + t.remaining_tokens() =~= spec_tokens(
                    source@,
                    normalize_whitespace,
                ));
            },
            None => {
                assert(t.remaining_tokens() =~= Seq::<Seq<char>>::empty());
                assert(out.deep_view() =~= out.deep_view() + t.remaining_tokens());
                return out;
            },
        }
    }
}

// ---------------------------------------------------------------------------
// Subsequence distance over token streams.
// ---------------------------------------------------------------------------

/// Number of tokens of `s` that must be skipped to match every token of `q`,
/// in order; `None` when some token of `q` never occurs.
pub open spec fn spec_distance(q: Seq<Seq<char>>, s: Seq<Seq<char>>) -> Option<int>
    decreases q.len(), s.len(),
{
    if q.len() == 0 {
        Some(0int)
    } else if s.len() == 0 {
        None
    } else if q[0] == s[0] {
        spec_distance(q.drop_first(), s.drop_first())
    } else {
        match spec_distance(q, s.drop_first()) {
            Some(d) => Some(d + 1),
            None => None,
        }
    }
}

/// Distance is never negative and never exceeds the subject's length.
pub proof fn lemma_distance_nonneg(q: Seq<Seq<char>>, s: Seq<Seq<char>>)
    ensures
        match spec_distance(q, s) {
            Some(d) => 0 <= d <= s.len(),
            None => true,
        },
    decreases q.len(), s.len(),
{
    if q.len() == 0 {
    } else if s.len() == 0 {
    } else if q[0] == s[0] {
        lemma_distance_nonneg(q.drop_first(), s.drop_first());
    } else {
        lemma_distance_nonneg(q, s.drop_first());
    }
}

/// String equality by contents.
pub fn compare_strings(a: &String, b: &String) -> (r: bool)
    ensures
        r == (a@ == b@),
{
    *a == *b
}

/// The subsequence distance of `q` against `s`, bounded: mismatch counts
/// beyond `max_distance` report as no match.
pub fn distance(q: &Vec<String>, s: &Vec<String>, max_distance: u32) -> (r: Option<u32>)
    ensures
        r == match spec_distance(q.deep_view(), s.deep_view()) {
            Some(d) => if d <= max_distance as int {
                Some(d as u32)
            } else {
                None::<u32>
            },
            None => None::<u32>,
        },
{
    let ghost qv = q.deep_view();
    let ghost sv = s.deep_view();
    proof {
        lemma_distance_nonneg(qv, sv);
        assert(qv.subrange(0, qv.len() as int) =~= qv);
        assert(sv.subrange(0, sv.len() as int) =~= sv);
    }
    let mut dist: u32 = 0;
    let mut qi: usize = 0;
    let mut si: usize = 0;
    loop
        invariant
            qi <= qv.len(),
            si <= sv.len(),
            qv == q.deep_view(),
            sv == s.deep_view(),
            q@.len() == qv.len(),
            s@.len() == sv.len(),
            dist <= max_distance,
            dist <= si,
            spec_distance(qv, sv) == match spec_distance(
                qv.subrange(qi as int, qv.len() as int),
                sv.subrange(si as int, sv.len() as int),
            ) {
                Some(d) => Some(d + dist),
                None => None::<int>,
            },
        decreases sv.len() - si,
    {
        let ghost qrest = qv.subrange(qi as int, qv.len() as int);
        let ghost srest = sv.subrange(si as int, sv.len() as int);
        proof {
            lemma_distance_nonneg(qrest, srest);
        }
        if qi >= q.len() {
            assert(qrest.len() == 0);
            return Some(dist);
        }
        if si >= s.len() {
            assert(srest.len() == 0 && qrest.len() > 0);
            return None;
        }
        assert(qrest[0] == qv[qi as int] && srest[0] == sv[si as int]);
        assert(qrest.drop_first() =~= qv.subrange(qi as int + 1, qv.len() as int));
        assert(srest.drop_first() =~= sv.subrange(si as int + 1, sv.len() as int));
        assert(qv[qi as int] == q@[qi as int]@ && sv[si as int] == s@[si as int]@);
        if compare_strings(&q[qi], &s[si]) {
            qi = qi + 1;
            si = si + 1;
        } else {
            si = si + 1;
            if dist == max_distance {
                proof {
                    lemma_distance_nonneg(qrest, srest.drop_first());
                }
                return None;
            }
            dist = dist + 1;
        }
    }
}

// ---------------------------------------------------------------------------
// Laws of the distance metric.
// ---------------------------------------------------------------------------

/// The distance is zero exactly when the query tokens are a contiguous
/// prefix of the subject tokens.
pub proof fn lemma_distance_zero_iff_prefix(q: Seq<Seq<char>>, s: Seq<Seq<char>>)
    ensures
        spec_distance(q, s) == Some(0int) <==> (q.len() <= s.len() && q =~= s.subrange(
            0,
            q.len() as int,
        )),
    decreases q.len(), s.len(),
{
    lemma_distance_nonneg(q, s);
    if q.len() == 0 {
        assert(q =~= s.subrange(0, 0));
    } else if s.len() == 0 {
    } else if q[0] == s[0] {
        lemma_distance_zero_iff_prefix(q.drop_first(), s.drop_first());
        let q1 = q.drop_first();
        let s1 = s.drop_first();
        if spec_distance(q, s) == Some(0int) {
            assert(q1 =~= s1.subrange(0, q1.len() as int));
            assert(q =~= s.subrange(0, q.len() as int)) by {
                assert(forall|k: int| 0 <= k < q1.len() ==> q1[k] == #[trigger] q[k + 1]);
                assert(forall|k: int| 0 <= k < q1.len() ==> s1[k] == #[trigger] s[k + 1]);
                assert(forall|k: int|
                    1 <= k < q.len() ==> #[trigger] q[k] == s1.subrange(0, q1.len() as int)[k - 1]);
            }
        }
        if q.len() <= s.len() && q =~= s.subrange(0, q.len() as int) {
            assert(q1 =~= s1.subrange(0, q1.len() as int)) by {
                assert(forall|k: int|
                    0 <= k < q1.len() ==> #[trigger] q1[k] == q[k + 1] && q[k + 1] == s.subrange(
                        0,
                        q.len() as int,
                    )[k + 1] && s[k + 1] == s1[k]);
            }
        }
    } else {
        lemma_distance_nonneg(q, s.drop_first());
        if q.len() <= s.len() && q =~= s.subrange(0, q.len() as int) {
            assert(q[0] == s.subrange(0, q.len() as int)[0]);
            assert(false);
        }
    }
}

/// Inserting a token that occurs nowhere in the query can only leave the
/// distance unchanged or increase it by one; a failed match stays failed.
pub proof fn lemma_distance_insert_monotonic(
    q: Seq<Seq<char>>,
    s: Seq<Seq<char>>,
    t: Seq<char>,
    i: int,
)
    requires
        0 <= i <= s.len(),
        forall|k: int| 0 <= k < q.len() ==> q[k] != t,
    ensures
        match spec_distance(q, s) {
            Some(d) => spec_distance(q, s.insert(i, t)) == Some(d) || spec_distance(
                q,
                s.insert(i, t),
            ) == Some(d + 1),
            None => spec_distance(q, s.insert(i, t)) is None,
        },
    decreases q.len(), s.len(),
{
    let s2 = s.insert(i, t);
    assert(s2.len() == s.len() + 1);
    if q.len() == 0 {
    } else if i == 0 {
        assert(s2[0] == t);
        assert(q[0] != t);
        assert(s2.drop_first() =~= s);
    } else {
        assert(s.len() > 0);
        assert(s2[0] == s[0]);
        assert(s2.drop_first() =~= s.drop_first().insert(i - 1, t));
        if q[0] == s[0] {
            assert(forall|k: int|
                0 <= k < q.drop_first().len() ==> #[trigger] q.drop_first()[k] == q[k + 1]);
            lemma_distance_insert_monotonic(q.drop_first(), s.drop_first(), t, i - 1);
        } else {
            lemma_distance_insert_monotonic(q, s.drop_first(), t, i - 1);
        }
    }
}

} // verus!
