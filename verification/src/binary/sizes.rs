use vstd::prelude::*;

use crate::symbol::Symbol;

verus! {

/// A strictly increasing address list (sorted and duplicate-free).
pub open spec fn strictly_increasing(a: Seq<u64>) -> bool {
    forall|i: int, j: int| 0 <= i < j < a.len() ==> a[i] < a[j]
}

/// The least recorded address strictly greater than `a`.
pub open spec fn spec_next_greater(addrs: Seq<u64>, a: u64) -> Option<u64>
    decreases addrs.len(),
{
    if addrs.len() == 0 {
        None
    } else if addrs[0] > a {
        Some(addrs[0])
    } else {
        spec_next_greater(addrs.drop_first(), a)
    }
}

proof fn lemma_next_greater_at(addrs: Seq<u64>, a: u64, i: int)
    requires
        strictly_increasing(addrs),
        0 <= i < addrs.len(),
        addrs[i] > a,
        forall|k: int| 0 <= k < i ==> #[trigger] addrs[k] <= a,
    ensures
        spec_next_greater(addrs, a) == Some(addrs[i]),
    decreases addrs.len(),
{
    if i > 0 {
        let tail = addrs.drop_first();
        assert(forall|k: int| 0 <= k < tail.len() ==> #[trigger] tail[k] == addrs[k + 1]);
        lemma_next_greater_at(tail, a, i - 1);
    }
}

proof fn lemma_next_greater_gt(addrs: Seq<u64>, a: u64)
    ensures
        match spec_next_greater(addrs, a) {
            Some(x) => x > a,
            None => true,
        },
    decreases addrs.len(),
{
    if addrs.len() > 0 && !(addrs[0] > a) {
        lemma_next_greater_gt(addrs.drop_first(), a);
    }
}

proof fn lemma_next_greater_none(addrs: Seq<u64>, a: u64)
    requires
        forall|k: int| 0 <= k < addrs.len() ==> #[trigger] addrs[k] <= a,
    ensures
        spec_next_greater(addrs, a) is None,
    decreases addrs.len(),
{
    if addrs.len() > 0 {
        let tail = addrs.drop_first();
        assert(forall|k: int| 0 <= k < tail.len() ==> #[trigger] tail[k] == addrs[k + 1]);
        lemma_next_greater_none(tail, a);
    }
}

/// Finds the least recorded address strictly greater than `a`.
#[verifier::loop_isolation(false)]
pub fn next_greater(addrs: &Vec<u64>, a: u64) -> (r: Option<u64>)
    requires
        strictly_increasing(addrs@),
    ensures
        r == spec_next_greater(addrs@, a),
        r matches Some(x) ==> x > a,
{
    proof {
        lemma_next_greater_gt(addrs@, a);
    }
    let mut lo: usize = 0;
    let mut hi: usize = addrs.len();
    while lo < hi
        invariant
            lo <= hi <= addrs@.len(),
            forall|k: int| 0 <= k < lo ==> #[trigger] addrs@[k] <= a,
            forall|k: int| hi <= k < addrs@.len() ==> #[trigger] addrs@[k] > a,
        decreases hi - lo,
    {
        let mid = lo + (hi - lo) / 2;
        if addrs[mid] <= a {
            assert forall|k: int| 0 <= k <= mid implies #[trigger] addrs@[k] <= a by {
                if k < mid {
                    assert(addrs@[k] < addrs@[mid as int]);
                }
            }
            lo = mid + 1;
        } else {
            assert forall|k: int| mid <= k < addrs@.len() implies #[trigger] addrs@[k] > a by {
                if k > mid {
                    assert(addrs@[mid as int] < addrs@[k]);
                }
            }
            hi = mid;
        }
    }
    if lo < addrs.len() {
        proof {
            lemma_next_greater_at(addrs@, a, lo as int);
        }
        Some(addrs[lo])
    } else {
        proof {
            lemma_next_greater_none(addrs@, a);
        }
        None
    }
}

/// Sorts an address list.
pub fn sort_addresses(v: &mut Vec<u64>)
    ensures
        forall|p: int, q: int|
            0 <= p < q < final(v)@.len() ==> #[trigger] final(v)@[p] <= #[trigger] final(v)@[q],
        forall|x: u64| final(v)@.contains(x) <==> old(v)@.contains(x),
{
    broadcast use vstd::seq_lib::to_multiset_insert;
    broadcast use vstd::seq_lib::group_to_multiset_ensures;
    broadcast use vstd::multiset::group_multiset_axioms;

    if v.len() == 0 {
        return ;
    }
    let mut i: usize = 1;
    while i < v.len()
        invariant
            1 <= i <= v@.len(),
            v@.to_multiset() == old(v)@.to_multiset(),
            v@.len() == old(v)@.len(),
            forall|p: int, q: int| 0 <= p < q < i ==> #[trigger] v@[p] <= #[trigger] v@[q],
        decreases v@.len() - i,
    {
        let ghost pre = v@;
        let x = v.remove(i);
        assert(v@ =~= pre.remove(i as int));
        assert(x == pre[i as int]);
        let mut j: usize = i;
        loop
            invariant
                j <= i,
                i < pre.len(),
                v@ == pre.remove(i as int),
                x == pre[i as int],
                forall|p: int, q: int| 0 <= p < q < i ==> #[trigger] v@[p] <= #[trigger] v@[q],
                forall|k: int| j <= k < i ==> x <= #[trigger] v@[k],
            ensures
                j <= i,
                i < pre.len(),
                v@ == pre.remove(i as int),
                x == pre[i as int],
                forall|k: int| j <= k < i ==> x <= #[trigger] v@[k],
                j > 0 ==> v@[j - 1] <= x,
            decreases j,
        {
            if j == 0 {
                break ;
            }
            if v[j - 1] <= x {
                break ;
            }
            j = j - 1;
        }
        let ghost before_insert = v@;
        v.insert(j, x);
        assert(v@ =~= before_insert.insert(j as int, x));
        proof {
            assert(pre.contains(x)) by {
                assert(pre[i as int] == x);
            }
            pre.to_multiset_ensures();
            vstd::seq_lib::to_multiset_insert(before_insert, j as int, x);
            assert(v@.to_multiset() =~= pre.to_multiset());
            assert forall|p: int, q: int| 0 <= p < q < i + 1 implies #[trigger] v@[p]
                <= #[trigger] v@[q] by {
                let jj = j as int;
                if q < jj {
                    assert(v@[p] == pre[p] && v@[q] == pre[q]);
                } else if p < jj && q == jj {
                    assert(v@[q] == x && v@[p] == pre[p]);
                    assert(before_insert[jj - 1] == pre[jj - 1]);
                } else if p < jj && q > jj {
                    assert(v@[p] == pre[p] && v@[q] == before_insert[q - 1]);
                    assert(before_insert[q - 1] == pre[q - 1]);
                } else if p == jj && q > jj {
                    assert(v@[p] == x && v@[q] == before_insert[q - 1]);
                } else {
                    assert(p > jj && q > jj);
                    assert(v@[p] == before_insert[p - 1] && v@[q] == before_insert[q - 1]);
                    assert(before_insert[p - 1] == pre[p - 1] && before_insert[q - 1] == pre[q
                        - 1]);
                }
            }
        }
        i = i + 1;
    }
    proof {
        assert forall|x: u64| v@.contains(x) <==> old(v)@.contains(x) by {
            v@.to_multiset_ensures();
            old(v)@.to_multiset_ensures();
            assert(v@.to_multiset().count(x) == old(v)@.to_multiset().count(x));
        }
    }
}

/// Removes duplicates from a sorted list, leaving it strictly increasing
/// with the same set of elements.
pub fn dedup_sorted(v: &Vec<u64>) -> (r: Vec<u64>)
    requires
        forall|p: int, q: int| 0 <= p < q < v@.len() ==> #[trigger] v@[p] <= #[trigger] v@[q],
    ensures
        strictly_increasing(r@),
        forall|x: u64| r@.contains(x) <==> v@.contains(x),
{
    let mut out: Vec<u64> = Vec::new();
    let mut i: usize = 0;
    while i < v.len()
        invariant
            i <= v@.len(),
            forall|p: int, q: int| 0 <= p < q < v@.len() ==> #[trigger] v@[p] <= #[trigger] v@[q],
            strictly_increasing(out@),
            forall|x: u64| out@.contains(x) ==> v@.contains(x),
            forall|k: int| 0 <= k < i ==> out@.contains(#[trigger] v@[k]),
            out@.len() > 0 ==> i > 0 && out@[out@.len() - 1] == v@[i - 1],
            i > 0 && out@.len() > 0 ==> forall|k: int|
                0 <= k < i ==> #[trigger] v@[k] <= out@[out@.len() - 1],
        decreases v@.len() - i,
    {
        let x = v[i];
        let push = if out.len() == 0 {
            true
        } else {
            out[out.len() - 1] != x
        };
        if push {
            let ghost pre = out@;
            out.push(x);
            proof {
                assert(out@ =~= pre.push(x));
                if pre.len() > 0 {
                    assert(pre[pre.len() - 1] == v@[i - 1]);
                    assert(v@[i - 1] <= v@[i as int]);
                }
                assert forall|p: int, q: int|
                    0 <= p < q < out@.len() implies #[trigger] out@[p] < #[trigger] out@[q] by {
                    if q == out@.len() - 1 && p < q - 1 {
                        assert(out@[p] == pre[p] && pre[p] < pre[pre.len() - 1]);
                    }
                }
                assert forall|x2: u64| out@.contains(x2) implies v@.contains(x2) by {
                    let t = choose|t: int| 0 <= t < out@.len() && out@[t] == x2;
                    if t < pre.len() {
                        assert(pre.contains(x2)) by {
                            assert(pre[t] == x2);
                        }
                    } else {
                        assert(v@[i as int] == x2);
                    }
                }
                assert forall|k: int| 0 <= k < i + 1 implies out@.contains(#[trigger] v@[k]) by {
                    if k < i {
                        let t = choose|t: int| 0 <= t < pre.len() && pre[t] == v@[k];
                        assert(out@[t] == v@[k]);
                    } else {
                        assert(out@[out@.len() - 1] == v@[k]);
                    }
                }
            }
        } else {
            proof {
                assert(out@[out@.len() - 1] == x);
                assert forall|k: int| 0 <= k < i + 1 implies out@.contains(#[trigger] v@[k]) by {
                    if k == i {
                        assert(out@[out@.len() - 1] == v@[k]);
                    }
                }
            }
        }
        i = i + 1;
    }
    proof {
        assert forall|x: u64| v@.contains(x) implies out@.contains(x) by {
            let k = choose|k: int| 0 <= k < v@.len() && v@[k] == x;
            assert(out@.contains(v@[k]));
        }
    }
    out
}

/// The sizing pass as a function: from position `i` on, each symbol
/// whose address has a recorded successor, with a positive distance
/// that fits both ranges, survives with that distance as its size; the
/// others drop out.
pub open spec fn spec_sized_syms(syms: Seq<Symbol>, i: int, addrs: Seq<u64>) -> Seq<Symbol>
    decreases syms.len() - i,
{
    if 0 <= i < syms.len() {
        let rest = spec_sized_syms(syms, i + 1, addrs);
        let s = syms[i];
        match spec_next_greater(addrs, s.addr) {
            Some(nx) => {
                let size = nx - s.addr;
                if size > 0 && size <= usize::MAX && s.bpos + size <= usize::MAX {
                    seq![Symbol { blen: size as usize, ..s }] + rest
                } else {
                    rest
                }
            },
            None => rest,
        }
    } else {
        Seq::empty()
    }
}

/// The sizing pass over name/address/offset descriptors: the same
/// filter and size computation as `spec_sized_syms`, for stating a
/// loader's output without building symbols in specifications.
pub open spec fn spec_sized_descs(
    descs: Seq<(Seq<char>, u64, int)>,
    addrs: Seq<u64>,
    i: int,
) -> Seq<(Seq<char>, u64, int, int)>
    decreases descs.len() - i,
{
    if 0 <= i < descs.len() {
        let rest = spec_sized_descs(descs, addrs, i + 1);
        let d = descs[i];
        match spec_next_greater(addrs, d.1) {
            Some(nx) => {
                let size = nx - d.1;
                if size > 0 && size <= usize::MAX && d.2 + size <= usize::MAX {
                    seq![(d.0, d.1, d.2, size)] + rest
                } else {
                    rest
                }
            },
            None => rest,
        }
    } else {
        Seq::empty()
    }
}

/// Sizing symbols and sizing their descriptors agree, when the symbols
/// realize the descriptors pointwise.
pub proof fn lemma_sized_correspond(
    syms: Seq<Symbol>,
    b: int,
    descs: Seq<(Seq<char>, u64, int)>,
    di: int,
    addrs: Seq<u64>,
)
    requires
        0 <= b <= syms.len(),
        0 <= di <= descs.len(),
        syms.len() - b == descs.len() - di,
        forall|k: int|
            b <= k < syms.len() ==> {
                let d = #[trigger] descs[k - b + di];
                &&& syms[k].name@ == d.0
                &&& syms[k].addr == d.1
                &&& syms[k].bpos == d.2
            },
    ensures
        spec_sized_syms(syms, b, addrs).len() == spec_sized_descs(descs, addrs, di).len(),
        forall|j: int|
            0 <= j < spec_sized_syms(syms, b, addrs).len() ==> {
                let s = #[trigger] spec_sized_syms(syms, b, addrs)[j];
                let d = spec_sized_descs(descs, addrs, di)[j];
                &&& s.name@ == d.0
                &&& s.addr == d.1
                &&& s.bpos == d.2
                &&& s.blen == d.3
                &&& exists|k: int| b <= k < syms.len() && s == (Symbol { blen: s.blen, ..#[trigger] syms[k] })
            },
    decreases syms.len() - b,
{
    if b < syms.len() {
        assert forall|k: int|
            b + 1 <= k < syms.len() implies {
            let d = #[trigger] descs[k - (b + 1) + (di + 1)];
            &&& syms[k].name@ == d.0
            &&& syms[k].addr == d.1
            &&& syms[k].bpos == d.2
        } by {
            assert(descs[k - (b + 1) + (di + 1)] == descs[k - b + di]);
            assert(syms[k].name@ == descs[k - b + di].0 && syms[k].addr == descs[k - b + di].1
                && syms[k].bpos == descs[k - b + di].2);
        }
        lemma_sized_correspond(syms, b + 1, descs, di + 1, addrs);
        let s0 = syms[b];
        let d0 = descs[di];
        assert(descs[b - b + di] == d0);
        assert(s0.name@ == d0.0 && s0.addr == d0.1 && s0.bpos == d0.2);
        match spec_next_greater(addrs, s0.addr) {
            Some(nx) => {
                let size = nx - s0.addr;
                if size > 0 && size <= usize::MAX && s0.bpos + size <= usize::MAX {
                    let sh = Symbol { blen: size as usize, ..s0 };
                    assert(spec_sized_syms(syms, b, addrs) == seq![sh] + spec_sized_syms(
                        syms,
                        b + 1,
                        addrs,
                    ));
                    assert(spec_sized_descs(descs, addrs, di) == seq![(d0.0, d0.1, d0.2, size)]
                        + spec_sized_descs(descs, addrs, di + 1));
                }
            },
            None => {},
        }
    }
}

/// Infers the size of each symbol appended after `from` as the distance
/// to the next recorded address; a symbol with no recorded successor, or
/// whose inferred range does not fit, is dropped: the tail becomes
/// exactly `spec_sized_syms` of what stood there. Every retained symbol
/// has a positive size equal to `next_address - address`.
pub fn infer_sizes(symbols: &mut Vec<Symbol>, from: usize, addrs: &Vec<u64>)
    requires
        from <= old(symbols)@.len(),
        strictly_increasing(addrs@),
        forall|k: int| 0 <= k < old(symbols)@.len() ==> (#[trigger] old(symbols)@[k]).wf(),
    ensures
        final(symbols)@.len() >= from,
        forall|k: int| 0 <= k < from ==> final(symbols)@[k] == old(symbols)@[k],
        final(symbols)@ =~= old(symbols)@.subrange(0, from as int) + spec_sized_syms(
            old(symbols)@,
            from as int,
            addrs@,
        ),
        forall|k: int|
            from <= k < final(symbols)@.len() ==> {
                let s = #[trigger] final(symbols)@[k];
                &&& s.wf()
                &&& s.blen > 0
                &&& spec_next_greater(addrs@, s.addr) == Some((s.addr + s.blen) as u64)
                &&& exists|m: int|
                    from <= m < old(symbols)@.len() && s == (Symbol {
                        blen: s.blen,
                        ..#[trigger] old(symbols)@[m]
                    })
            },
{
    let ghost sized = spec_sized_syms(old(symbols)@, from as int, addrs@);
    let mut kept: Vec<Symbol> = Vec::new();
    let mut i: usize = from;
    while i < symbols.len()
        invariant
            from <= i <= symbols@.len(),
            symbols@ == old(symbols)@,
            strictly_increasing(addrs@),
            sized == spec_sized_syms(old(symbols)@, from as int, addrs@),
            kept@.len() <= sized.len(),
            sized.skip(kept@.len() as int) =~= spec_sized_syms(old(symbols)@, i as int, addrs@),
            forall|t: int| 0 <= t < kept@.len() ==> #[trigger] kept@[t] == sized[t],
            forall|k: int| 0 <= k < symbols@.len() ==> (#[trigger] symbols@[k]).wf(),
            forall|k: int|
                0 <= k < kept@.len() ==> {
                    let s = #[trigger] kept@[k];
                    &&& s.wf()
                    &&& s.blen > 0
                    &&& spec_next_greater(addrs@, s.addr) == Some((s.addr + s.blen) as u64)
                    &&& exists|m: int|
                        from <= m < old(symbols)@.len() && s == (Symbol {
                            blen: s.blen,
                            ..#[trigger] old(symbols)@[m]
                        })
                },
        decreases symbols@.len() - i,
    {
        let ghost done = kept@.len() as int;
        let addr = symbols[i].address();
        match next_greater(addrs, addr) {
            Some(next) => {
                assert(next > addr);
                let size = next - addr;
                if size > 0 && size <= usize::MAX as u64 && symbols[i].offset() <= usize::MAX - (
                size as usize) {
                    let mut s = symbols[i].clone_symbol();
                    s.set_size(size as usize);
                    let ghost m = i as int;
                    proof {
                        let head = Symbol { blen: (next - addr) as usize, ..old(symbols)@[m] };
                        assert(spec_sized_syms(old(symbols)@, m, addrs@) == seq![head]
                            + spec_sized_syms(old(symbols)@, m + 1, addrs@));
                        assert(s == head);
                        assert(sized.skip(done)[0] == head);
                        assert(sized[done] == sized.skip(done)[0]);
                        assert(sized.skip(done).drop_first() =~= sized.skip(done + 1));
                        assert(sized.skip(done + 1) =~= spec_sized_syms(
                            old(symbols)@,
                            m + 1,
                            addrs@,
                        ));
                    }
                    kept.push(s);
                    assert(kept@[kept@.len() - 1] == s);
                    assert(from <= m < old(symbols)@.len() && s == (Symbol {
                        blen: s.blen,
                        ..old(symbols)@[m]
                    }));
                } else {
                    proof {
                        assert(spec_sized_syms(old(symbols)@, i as int, addrs@) == spec_sized_syms(
                            old(symbols)@,
                            i + 1,
                            addrs@,
                        ));
                    }
                }
            },
            None => {
                proof {
                    assert(spec_sized_syms(old(symbols)@, i as int, addrs@) == spec_sized_syms(
                        old(symbols)@,
                        i + 1,
                        addrs@,
                    ));
                }
            },
        }
        i = i + 1;
    }
    proof {
        assert(sized.skip(kept@.len() as int) =~= Seq::<Symbol>::empty());
        assert(kept@.len() == sized.len());
        assert(kept@ =~= sized);
    }
    // replace the tail with the retained symbols
    symbols.truncate(from);
    let mut k: usize = 0;
    while k < kept.len()
        invariant
            k <= kept@.len(),
            symbols@.len() == from + k,
            forall|t: int| 0 <= t < from ==> symbols@[t] == old(symbols)@[t],
            forall|t: int| 0 <= t < k ==> symbols@[from + t] == kept@[t],
            forall|t: int|
                0 <= t < kept@.len() ==> {
                    let s = #[trigger] kept@[t];
                    &&& s.wf()
                    &&& s.blen > 0
                    &&& spec_next_greater(addrs@, s.addr) == Some((s.addr + s.blen) as u64)
                    &&& exists|m: int|
                        from <= m < old(symbols)@.len() && s == (Symbol {
                            blen: s.blen,
                            ..#[trigger] old(symbols)@[m]
                        })
                },
        decreases kept@.len() - k,
    {
        symbols.push(kept[k].clone_symbol());
        k = k + 1;
    }
    proof {
        assert(final(symbols)@ =~= old(symbols)@.subrange(0, from as int) + kept@);
    }
    proof {
        assert forall|k2: int| from <= k2 < symbols@.len() implies {
            let s = #[trigger] symbols@[k2];
            &&& s.wf()
            &&& s.blen > 0
            &&& spec_next_greater(addrs@, s.addr) == Some((s.addr + s.blen) as u64)
            &&& exists|m: int|
                from <= m < old(symbols)@.len() && s == (Symbol {
                    blen: s.blen,
                    ..#[trigger] old(symbols)@[m]
                })
        } by {
            let t = k2 - from as int;
            assert(symbols@[k2] == kept@[t]);
        }
    }
}

} // verus!
