use vstd::prelude::*;

use crate::strmatch;
use crate::symbol::{spec_priority, Symbol};

verus! {

// ---------------------------------------------------------------------------
// Lexicographic order on character sequences.
// ---------------------------------------------------------------------------

/// Lexicographic order by code point; the shorter string wins a tie.
pub open spec fn lex_le(a: Seq<char>, b: Seq<char>) -> bool
    decreases a.len(),
{
    if a.len() == 0 {
        true
    } else if b.len() == 0 {
        false
    } else if a[0] < b[0] {
        true
    } else if b[0] < a[0] {
        false
    } else {
        lex_le(a.drop_first(), b.drop_first())
    }
}

pub proof fn lemma_lex_le_total(a: Seq<char>, b: Seq<char>)
    ensures
        lex_le(a, b) || lex_le(b, a),
    decreases a.len(),
{
    if a.len() != 0 && b.len() != 0 && !(a[0] < b[0]) && !(b[0] < a[0]) {
        lemma_lex_le_total(a.drop_first(), b.drop_first());
    }
}

pub proof fn lemma_lex_le_trans(a: Seq<char>, b: Seq<char>, c: Seq<char>)
    requires
        lex_le(a, b),
        lex_le(b, c),
    ensures
        lex_le(a, c),
    decreases a.len(),
{
    if a.len() != 0 && b.len() != 0 && c.len() != 0 && !(a[0] < b[0]) && !(b[0] < a[0]) && !(b[0]
        < c[0]) && !(c[0] < b[0]) {
        lemma_lex_le_trans(a.drop_first(), b.drop_first(), c.drop_first());
    }
}

/// Compares two strings lexicographically by code point.
pub fn str_le(a: &str, b: &str) -> (r: bool)
    ensures
        r == lex_le(a@, b@),
{
    let alen = a.unicode_len();
    let blen = b.unicode_len();
    proof {
        assert(a@.subrange(0, alen as int) =~= a@);
        assert(b@.subrange(0, blen as int) =~= b@);
    }
    let mut i: usize = 0;
    loop
        invariant
            i <= alen,
            i <= blen,
            alen == a@.len(),
            blen == b@.len(),
            lex_le(a@, b@) == lex_le(
                a@.subrange(i as int, alen as int),
                b@.subrange(i as int, blen as int),
            ),
        decreases alen - i,
    {
        let ghost sa = a@.subrange(i as int, alen as int);
        let ghost sb = b@.subrange(i as int, blen as int);
        if i >= alen {
            assert(sa.len() == 0);
            return true;
        }
        if i >= blen {
            assert(sb.len() == 0 && sa.len() > 0);
            return false;
        }
        assert(sa[0] == a@[i as int] && sb[0] == b@[i as int]);
        let ca = a.get_char(i);
        let cb = b.get_char(i);
        if ca < cb {
            return true;
        }
        if cb < ca {
            return false;
        }
        assert(sa.drop_first() =~= a@.subrange(i + 1, alen as int));
        assert(sb.drop_first() =~= b@.subrange(i + 1, blen as int));
        i = i + 1;
    }
}

// ---------------------------------------------------------------------------
// The total order of the symbol index.
// ---------------------------------------------------------------------------

/// The index's total order: address, then end address, then source
/// priority (debug information first), then name. Runs over the same
/// binary therefore produce identical orderings.
pub open spec fn sym_key_le(a: Symbol, b: Symbol) -> bool {
    if a.addr != b.addr {
        a.addr < b.addr
    } else if a.addr + a.blen != b.addr + b.blen {
        a.addr + a.blen < b.addr + b.blen
    } else if spec_priority(a.source) != spec_priority(b.source) {
        spec_priority(a.source) < spec_priority(b.source)
    } else {
        lex_le(a.name@, b.name@)
    }
}

pub proof fn lemma_sym_key_le_total(a: Symbol, b: Symbol)
    ensures
        sym_key_le(a, b) || sym_key_le(b, a),
{
    lemma_lex_le_total(a.name@, b.name@);
}

pub proof fn lemma_sym_key_le_trans(a: Symbol, b: Symbol, c: Symbol)
    requires
        sym_key_le(a, b),
        sym_key_le(b, c),
    ensures
        sym_key_le(a, c),
{
    if a.addr == b.addr && b.addr == c.addr && a.addr + a.blen == b.addr + b.blen && b.addr
        + b.blen == c.addr + c.blen && spec_priority(a.source) == spec_priority(b.source)
        && spec_priority(b.source) == spec_priority(c.source) {
        lemma_lex_le_trans(a.name@, b.name@, c.name@);
    }
}

fn sym_le_exec(a: &Symbol, b: &Symbol) -> (r: bool)
    requires
        a.wf(),
        b.wf(),
    ensures
        r == sym_key_le(*a, *b),
{
    if a.addr != b.addr {
        return a.addr < b.addr;
    }
    let ea = a.addr + (a.blen as u64);
    let eb = b.addr + (b.blen as u64);
    if ea != eb {
        return ea < eb;
    }
    let pa = a.source.priority();
    let pb = b.source.priority();
    if pa != pb {
        return pa < pb;
    }
    str_le(a.name.as_str(), b.name.as_str())
}

/// Every symbol of the index is well-formed.
pub open spec fn all_wf(v: Seq<Symbol>) -> bool {
    forall|i: int| 0 <= i < v.len() ==> (#[trigger] v[i]).wf()
}

/// The index is totally ordered under the (address, end address,
/// priority, name) key.
pub open spec fn sym_sorted(v: Seq<Symbol>) -> bool {
    forall|i: int, j: int| 0 <= i < j < v.len() ==> sym_key_le(#[trigger] v[i], #[trigger] v[j])
}

// ---------------------------------------------------------------------------
// Sorting.
// ---------------------------------------------------------------------------

/// Sorts the symbol vector by (address, end address, source priority,
/// name): the one mutation the index sees after loading. The result is a
/// permutation of the input, totally ordered under the index's key.
pub fn sort_symbols(v: &mut Vec<Symbol>)
    requires
        all_wf(old(v)@),
    ensures
        sym_sorted(final(v)@),
        all_wf(final(v)@),
        final(v)@.to_multiset() == old(v)@.to_multiset(),
        final(v)@.len() == old(v)@.len(),
{
    broadcast use vstd::seq_lib::to_multiset_insert;
    broadcast use vstd::seq_lib::group_to_multiset_ensures;
    broadcast use vstd::multiset::group_multiset_axioms;

    if v.len() == 0 {
        return ;
    }
    let mut i: usize = 1;
    while i < v.len()
        invariant
            1 <= i <= v@.len(),
            all_wf(v@),
            v@.to_multiset() == old(v)@.to_multiset(),
            v@.len() == old(v)@.len(),
            forall|p: int, q: int| 0 <= p < q < i ==> sym_key_le(
                #[trigger] v@[p],
                #[trigger] v@[q],
            ),
        decreases v@.len() - i,
    {
        let ghost pre = v@;
        let x = v.remove(i);
        assert(v@ =~= pre.remove(i as int));
        assert(x == pre[i as int]);
        let mut j: usize = i;
        loop
            invariant
                j <= i,
                i < pre.len(),
                v@ == pre.remove(i as int),
                x == pre[i as int],
                x.wf(),
                all_wf(v@),
                forall|p: int, q: int| 0 <= p < q < i ==> sym_key_le(
                    #[trigger] v@[p],
                    #[trigger] v@[q],
                ),
                forall|k: int| j <= k < i ==> sym_key_le(x, #[trigger] v@[k]),
            ensures
                j <= i,
                i < pre.len(),
                v@ == pre.remove(i as int),
                x == pre[i as int],
                forall|k: int| j <= k < i ==> sym_key_le(x, #[trigger] v@[k]),
                j > 0 ==> sym_key_le(v@[j - 1], x),
            decreases j,
        {
            if j == 0 {
                break ;
            }
            assert(v@[j - 1].wf());
            if sym_le_exec(&v[j - 1], &x) {
                break ;
            }
            proof {
                lemma_sym_key_le_total(v@[j - 1], x);
            }
            j = j - 1;
        }
        let ghost before_insert = v@;
        v.insert(j, x);
        assert(v@ =~= before_insert.insert(j as int, x));
        proof {
            // multiset preserved: removing and re-inserting the same element
            assert(pre.contains(x)) by {
                assert(pre[i as int] == x);
            }
            pre.to_multiset_ensures();
            vstd::seq_lib::to_multiset_insert(before_insert, j as int, x);
            assert(pre.remove(i as int).to_multiset() == pre.to_multiset().remove(x));
            assert(before_insert.insert(j as int, x).to_multiset() == before_insert.to_multiset().insert(x));
            assert(pre.to_multiset().count(x) > 0);
            assert(v@.to_multiset() =~= pre.to_multiset());
            // the prefix [0, i] of the new vector is sorted
            assert forall|p: int, q: int| 0 <= p < q < i + 1 implies sym_key_le(
                #[trigger] v@[p],
                #[trigger] v@[q],
            ) by {
                let jj = j as int;
                if q < jj {
                    assert(v@[p] == pre[p] && v@[q] == pre[q]);
                } else if p < jj && q == jj {
                    assert(v@[q] == x && v@[p] == pre[p]);
                    assert(sym_key_le(before_insert[jj - 1], x));
                    assert(before_insert[jj - 1] == pre[jj - 1]);
                    if p < jj - 1 {
                        lemma_sym_key_le_trans(pre[p], pre[jj - 1], x);
                    }
                } else if p < jj && q > jj {
                    assert(v@[p] == pre[p] && v@[q] == before_insert[q - 1]);
                    assert(before_insert[q - 1] == pre[q - 1]);
                } else if p == jj && q > jj {
                    assert(v@[p] == x && v@[q] == before_insert[q - 1]);
                } else {
                    assert(p > jj && q > jj);
                    assert(v@[p] == before_insert[p - 1] && v@[q] == before_insert[q - 1]);
                    assert(before_insert[p - 1] == pre[p - 1] && before_insert[q - 1] == pre[q
                        - 1]);
                }
            }
            assert(all_wf(v@)) by {
                assert(forall|k: int|
                    0 <= k < before_insert.len() ==> (#[trigger] before_insert[k]).wf());
            }
        }
        i = i + 1;
    }
}

// ---------------------------------------------------------------------------
// Reverse lookup (symbolication).
// ---------------------------------------------------------------------------

/// Ranges in the index either coincide exactly (the same function seen by
/// several sources) or do not overlap. Loaders produce such indexes; nested
/// or partially overlapping ranges void the priority guarantee.
pub open spec fn ranges_disjoint_or_equal(v: Seq<Symbol>) -> bool {
    forall|i: int, j: int|
        0 <= i < j < v.len() ==> ((#[trigger] v[i]).addr == (#[trigger] v[j]).addr && v[i].blen
            == v[j].blen) || v[i].addr + v[i].blen <= v[j].addr || v[j].addr + v[j].blen
            <= v[i].addr
}

/// Two symbols covering the same address have equal ranges, so the sorted
/// index keeps them adjacent and ranks them by priority.
proof fn lemma_covering_equal_ranges(v: Seq<Symbol>, addr: u64, i: int, j: int)
    requires
        all_wf(v),
        sym_sorted(v),
        ranges_disjoint_or_equal(v),
        0 <= i < v.len(),
        0 <= j < v.len(),
        v[i].spec_contains(addr),
        v[j].spec_contains(addr),
    ensures
        v[i].addr == v[j].addr,
        v[i].blen == v[j].blen,
{
    if i < j {
        assert(v[i].addr == v[j].addr && v[i].blen == v[j].blen || v[i].addr + v[i].blen
            <= v[j].addr || v[j].addr + v[j].blen <= v[i].addr);
    } else if j < i {
        assert(v[j].addr == v[i].addr && v[j].blen == v[i].blen || v[j].addr + v[j].blen
            <= v[i].addr || v[i].addr + v[i].blen <= v[j].addr);
    }
}

/// The reverse lookup's priority law: in a sorted index whose ranges
/// only coincide exactly or stand apart, the first symbol of the run
/// covering an address carries the maximum source priority among all
/// symbols covering it.
pub proof fn lemma_covering_run(v: Seq<Symbol>, addr: u64, i: int, j: int)
    requires
        all_wf(v),
        sym_sorted(v),
        ranges_disjoint_or_equal(v),
        0 <= i < v.len(),
        0 <= j < v.len(),
        v[i].spec_contains(addr),
        v[j].spec_contains(addr),
        i == 0 || !v[i - 1].spec_contains(addr),
    ensures
        i <= j,
        spec_priority(v[i].source) <= spec_priority(v[j].source),
{
    lemma_covering_equal_ranges(v, addr, i, j);
    if j < i {
        // the predecessor of i would share the range of j and i, and
        // would therefore also cover addr
        assert(sym_key_le(v[j], v[i - 1]) && sym_key_le(v[i - 1], v[i]));
        assert(v[i - 1].addr == v[i].addr && v[i - 1].addr + v[i - 1].blen == v[i].addr
            + v[i].blen);
        assert(v[i - 1].spec_contains(addr));
    }
    if i < j {
        assert(sym_key_le(v[i], v[j]));
    }
}

/// Whether two symbols claim exactly the same address range.
pub open spec fn same_range(a: Symbol, b: Symbol) -> bool {
    a.addr == b.addr && a.blen == b.blen
}

/// A duplicate of the run's first symbol never outranks it: needs only
/// the sort order, not the shape of the other ranges.
proof fn lemma_duplicate_run(v: Seq<Symbol>, addr: u64, i: int, j: int)
    requires
        all_wf(v),
        sym_sorted(v),
        0 <= i < v.len(),
        0 <= j < v.len(),
        v[i].spec_contains(addr),
        i == 0 || !v[i - 1].spec_contains(addr),
        same_range(v[j], v[i]),
    ensures
        i <= j,
        spec_priority(v[i].source) <= spec_priority(v[j].source),
{
    if j < i {
        // the entry before i would be sandwiched between two symbols of
        // one range, so it would share that range and cover the address
        assert(sym_key_le(v[j], v[i - 1]) && sym_key_le(v[i - 1], v[i]));
        assert(v[i - 1].addr == v[i].addr && v[i - 1].addr + v[i - 1].blen == v[i].addr
            + v[i].blen);
        assert(v[i - 1].spec_contains(addr));
    }
    if i < j {
        assert(sym_key_le(v[i], v[j]));
    }
}

/// Finds the symbol covering `addr` by binary search: the returned index
/// is the first of its contiguous covering run, and — because the sort
/// ranks priority within equal ranges — no duplicate of its range
/// outranks it. When the index's ranges only coincide exactly or stand
/// apart (overlaps void the search), the hit additionally outranks every
/// symbol covering the address, and a miss means no symbol covers it.
pub fn find_covering(v: &Vec<Symbol>, addr: u64) -> (r: Option<usize>)
    requires
        all_wf(v@),
        sym_sorted(v@),
    ensures
        match r {
            Some(i) => {
                &&& i < v@.len()
                &&& v@[i as int].spec_contains(addr)
                &&& (i == 0 || !v@[i - 1].spec_contains(addr))
                &&& forall|j: int|
                    0 <= j < v@.len() && same_range(#[trigger] v@[j], v@[i as int]) ==> i <= j
                        && spec_priority(v@[i as int].source) <= spec_priority(v@[j].source)
                &&& ranges_disjoint_or_equal(v@) ==> forall|j: int|
                    0 <= j < v@.len() && (#[trigger] v@[j]).spec_contains(addr) ==> i <= j
                        && spec_priority(v@[i as int].source) <= spec_priority(v@[j].source)
            },
            None => ranges_disjoint_or_equal(v@) ==> forall|j: int|
                0 <= j < v@.len() ==> !(#[trigger] v@[j]).spec_contains(addr),
        },
{
    let mut lo: usize = 0;
    let mut hi: usize = v.len();
    while lo < hi
        invariant
            lo <= hi <= v@.len(),
            all_wf(v@),
            sym_sorted(v@),
            ranges_disjoint_or_equal(v@) ==> forall|k: int|
                0 <= k < lo ==> !(#[trigger] v@[k]).spec_contains(addr),
            ranges_disjoint_or_equal(v@) ==> forall|k: int|
                hi <= k < v@.len() ==> !(#[trigger] v@[k]).spec_contains(addr),
        decreases hi - lo,
    {
        let mid = lo + (hi - lo) / 2;
        assert(v@[mid as int].wf());
        let s = &v[mid];
        if addr < s.addr {
            // no symbol at or after mid starts at or below addr
            assert forall|k: int| mid <= k < v@.len() implies !(#[trigger] v@[k]).spec_contains(
                addr,
            ) by {
                if k > mid {
                    assert(sym_key_le(v@[mid as int], v@[k]));
                }
            }
            hi = mid;
        } else if addr >= s.addr + (s.blen as u64) {
            // with overlap-free ranges, every symbol at or before mid
            // ends at or below addr
            proof {
                if ranges_disjoint_or_equal(v@) {
                    assert forall|k: int| 0 <= k <= mid implies !(
                    #[trigger] v@[k]).spec_contains(addr) by {
                        if k < mid {
                            assert(sym_key_le(v@[k], v@[mid as int]));
                            assert(v@[k].addr == v@[mid as int].addr && v@[k].blen
                                == v@[mid as int].blen || v@[k].addr + v@[k].blen
                                <= v@[mid as int].addr || v@[mid as int].addr
                                + v@[mid as int].blen <= v@[k].addr);
                        }
                    }
                }
            }
            lo = mid + 1;
        } else {
            // hit: walk back over duplicates covering the address
            let mut idx = mid;
            loop
                invariant
                    idx <= mid,
                    mid < v@.len(),
                    all_wf(v@),
                    v@[idx as int].spec_contains(addr),
                ensures
                    idx <= mid,
                    mid < v@.len(),
                    v@[idx as int].spec_contains(addr),
                    idx == 0 || !v@[idx - 1].spec_contains(addr),
                decreases idx,
            {
                if idx == 0 {
                    break ;
                }
                assert(v@[idx - 1].wf());
                let p = &v[idx - 1];
                if addr < p.addr {
                    break ;
                }
                if addr >= p.addr + (p.blen as u64) {
                    break ;
                }
                idx = idx - 1;
            }
            // duplicates of the hit's range rank at or after it; with
            // overlap-free ranges the same holds for every covering symbol
            assert forall|j: int|
                0 <= j < v@.len() && same_range(#[trigger] v@[j], v@[idx as int]) implies idx as int
                <= j && spec_priority(v@[idx as int].source) <= spec_priority(v@[j].source) by {
                lemma_duplicate_run(v@, addr, idx as int, j);
            }
            proof {
                if ranges_disjoint_or_equal(v@) {
                    assert forall|j: int|
                        0 <= j < v@.len() && (#[trigger] v@[j]).spec_contains(addr) implies idx as int
                        <= j && spec_priority(v@[idx as int].source) <= spec_priority(
                        v@[j].source,
                    ) by {
                        lemma_covering_run(v@, addr, idx as int, j);
                    }
                }
            }
            return Some(idx);
        }
    }
    None
}

// ---------------------------------------------------------------------------
// Fuzzy lookup.
// ---------------------------------------------------------------------------

/// The fuzzy score of one symbol against a query: the subsequence
/// distance between the two token streams.
pub open spec fn spec_candidate(query: Seq<char>, sym: Symbol) -> Option<int> {
    strmatch::spec_distance(
        strmatch::spec_tokens(query, true),
        strmatch::spec_tokens(sym.name@, true),
    )
}

/// The strict "wins the fuzzy search" order on scored candidates:
/// distance, then source priority, then address, then file offset, then
/// name.
pub open spec fn fuzzy_better(d1: int, s1: Symbol, d2: int, s2: Symbol) -> bool {
    if d1 != d2 {
        d1 < d2
    } else if spec_priority(s1.source) != spec_priority(s2.source) {
        spec_priority(s1.source) < spec_priority(s2.source)
    } else if s1.addr != s2.addr {
        s1.addr < s2.addr
    } else if s1.bpos != s2.bpos {
        s1.bpos < s2.bpos
    } else {
        lex_le(s1.name@, s2.name@) && !lex_le(s2.name@, s1.name@)
    }
}

/// The strict order is transitive.
proof fn lemma_fuzzy_better_trans(
    d1: int,
    s1: Symbol,
    d2: int,
    s2: Symbol,
    d3: int,
    s3: Symbol,
)
    requires
        fuzzy_better(d1, s1, d2, s2),
        fuzzy_better(d2, s2, d3, s3),
    ensures
        fuzzy_better(d1, s1, d3, s3),
{
    if d1 == d2 && d2 == d3 && spec_priority(s1.source) == spec_priority(s2.source)
        && spec_priority(s2.source) == spec_priority(s3.source) && s1.addr == s2.addr && s2.addr
        == s3.addr && s1.bpos == s2.bpos && s2.bpos == s3.bpos {
        lemma_lex_le_trans(s1.name@, s2.name@, s3.name@);
        if lex_le(s3.name@, s1.name@) {
            lemma_lex_le_trans(s3.name@, s1.name@, s2.name@);
        }
    }
}

fn better_exec(d1: u32, s1: &Symbol, d2: u32, s2: &Symbol) -> (r: bool)
    ensures
        r == fuzzy_better(d1 as int, *s1, d2 as int, *s2),
{
    if d1 != d2 {
        return d1 < d2;
    }
    let p1 = s1.source.priority();
    let p2 = s2.source.priority();
    if p1 != p2 {
        return p1 < p2;
    }
    if s1.addr != s2.addr {
        return s1.addr < s2.addr;
    }
    if s1.bpos != s2.bpos {
        return s1.bpos < s2.bpos;
    }
    str_le(s1.name.as_str(), s2.name.as_str()) && !str_le(s2.name.as_str(), s1.name.as_str())
}

/// Finds the symbol that best matches `query` under the fuzzy metric: a
/// symbol with a defined distance such that no other symbol scores
/// strictly better under (distance, priority, address, offset, name).
/// Distances are measured in `u32`; a distance beyond `u32::MAX` counts
/// as no match.
pub fn fuzzy_find_in(v: &Vec<Symbol>, query: &str) -> (r: Option<usize>)
    ensures
        match r {
            Some(i) => {
                &&& i < v@.len()
                &&& (spec_candidate(query@, v@[i as int]) matches Some(di) && di <= u32::MAX)
                &&& forall|j: int|
                    0 <= j < v@.len() ==> match spec_candidate(query@, #[trigger] v@[j]) {
                        Some(dj) => !fuzzy_better(
                            dj,
                            v@[j],
                            spec_candidate(query@, v@[i as int]).unwrap(),
                            v@[i as int],
                        ),
                        None => true,
                    }
            },
            None => forall|j: int|
                0 <= j < v@.len() ==> match spec_candidate(query@, #[trigger] v@[j]) {
                    Some(dj) => dj > u32::MAX,
                    None => true,
                },
        },
{
    let query_tokens = strmatch::tokenize(query, true);
    let mut best: Option<(u32, usize)> = None;
    let mut smallest: u32 = u32::MAX;
    let mut k: usize = 0;
    while k < v.len()
        invariant
            k <= v@.len(),
            query_tokens.deep_view() == strmatch::spec_tokens(query@, true),
            match best {
                Some((bd, bi)) => {
                    &&& (bi as int) < k as int
                    &&& smallest == bd
                    &&& spec_candidate(query@, v@[bi as int]) == Some(bd as int)
                    &&& forall|j: int|
                        0 <= j < k ==> match spec_candidate(query@, #[trigger] v@[j]) {
                            Some(dj) => !fuzzy_better(dj, v@[j], bd as int, v@[bi as int]),
                            None => true,
                        }
                },
                None => {
                    &&& smallest == u32::MAX
                    &&& forall|j: int|
                        0 <= j < k ==> match spec_candidate(query@, #[trigger] v@[j]) {
                            Some(dj) => dj > u32::MAX,
                            None => true,
                        }
                },
            },
        decreases v@.len() - k,
    {
        let name_tokens = strmatch::tokenize(v[k].name.as_str(), true);
        assert(name_tokens.deep_view() == strmatch::spec_tokens(v@[k as int].name@, true));
        let ghost cand = spec_candidate(query@, v@[k as int]);
        proof {
            strmatch::lemma_distance_nonneg(query_tokens.deep_view(), name_tokens.deep_view());
        }
        match strmatch::distance(&query_tokens, &name_tokens, smallest) {
            Some(d) => {
                assert(cand == Some(d as int));
                match best {
                    Some((bd, bi)) => {
                        if better_exec(d, &v[k], bd, &v[bi]) {
                            let ghost old_bd = bd as int;
                            let ghost old_bi = bi as int;
                            best = Some((d, k));
                            smallest = d;
                            assert forall|j: int| 0 <= j < k + 1 implies match spec_candidate(
                                query@,
                                #[trigger] v@[j],
                            ) {
                                Some(dj) => !fuzzy_better(dj, v@[j], d as int, v@[k as int]),
                                None => true,
                            } by {
                                if j < k {
                                    match spec_candidate(query@, v@[j]) {
                                        Some(dj) => {
                                            if fuzzy_better(dj, v@[j], d as int, v@[k as int]) {
                                                lemma_fuzzy_better_trans(
                                                    dj,
                                                    v@[j],
                                                    d as int,
                                                    v@[k as int],
                                                    old_bd,
                                                    v@[old_bi],
                                                );
                                            }
                                        },
                                        None => {},
                                    }
                                }
                            }
                        }
                    },
                    None => {
                        best = Some((d, k));
                        smallest = d;
                    },
                }
            },
            None => {
                // either no match at all, or a distance that cannot win
                // against the current best
                assert(match cand {
                    Some(dk) => dk > smallest as int,
                    None => true,
                });
            },
        }
        k = k + 1;
    }
    match best {
        Some((_, bi)) => Some(bi),
        None => None,
    }
}

} // verus!
