//! Order statistics of single-precision samples.

use vstd::prelude::*;
use vstd::relations::*;
use crate::single::{key_of, Single};

verus! {

/// A sample, and its place among the samples that it came with.
#[derive(Debug, Clone, Copy, PartialEq, Eq, Structural)]
pub struct Placed {
    pub value: Single,
    pub at: usize,
}

/// Samples stand by value, and those of equal value, such as the two zeros, as they came. What
/// is not a number stands beyond the infinities.
pub open spec fn stands_before(a: Placed, b: Placed) -> bool {
    ||| a.value.key() < b.value.key()
    ||| a.value.key() == b.value.key() && a.at < b.at
    ||| a.value.key() == b.value.key() && a.at == b.at && a.value.bits <= b.value.bits
}

pub open spec fn ranked() -> spec_fn(Placed, Placed) -> bool {
    |a: Placed, b: Placed| stands_before(a, b)
}

/// The samples with their places.
pub open spec fn placed(v: Seq<Single>) -> Seq<Placed> {
    Seq::new(v.len(), |i: int| Placed { value: v[i], at: i as usize })
}

/// The samples in ascending order, equal ones in the order in which they came.
pub open spec fn ascending(v: Seq<Single>) -> Seq<Single> {
    placed(v).sort_by(ranked()).map_values(|p: Placed| p.value)
}

pub proof fn lemma_ranked_total()
    ensures
        total_ordering(ranked()),
{
    let r = ranked();
    assert forall|a: Placed, b: Placed| #[trigger] r(a, b) && #[trigger] r(b, a) implies a == b by {
        assert(a.value.bits == b.value.bits);
    }
    assert(antisymmetric(r));
    assert(reflexive(r));
    assert(transitive(r));
    assert(strongly_connected(r));
}

fn in_order(a: Placed, b: Placed) -> (r: bool)
    ensures
        r == stands_before(a, b),
{
    let x: i64 = key_of(a.value);
    let y: i64 = key_of(b.value);
    x < y || (x == y && (a.at < b.at || (a.at == b.at && a.value.bits <= b.value.bits)))
}

/// Merges two ascending runs.
fn merge(a: &Vec<Placed>, b: &Vec<Placed>) -> (r: Vec<Placed>)
    requires
        sorted_by(a@, ranked()),
        sorted_by(b@, ranked()),
        a.len() + b.len() <= usize::MAX,
    ensures
        sorted_by(r@, ranked()),
        r@.to_multiset() == a@.to_multiset().add(b@.to_multiset()),
{
    let mut out: Vec<Placed> = Vec::with_capacity(a.len() + b.len());
    let mut i: usize = 0;
    let mut j: usize = 0;
    proof {
        assert(a@.take(0) =~= Seq::<Placed>::empty());
        assert(b@.take(0) =~= Seq::<Placed>::empty());
        assert(out@.to_multiset() =~= a@.take(0).to_multiset().add(b@.take(0).to_multiset())) by {
            broadcast use vstd::seq_lib::group_to_multiset_ensures;
            broadcast use vstd::multiset::group_multiset_axioms;
            vstd::seq_lib::lemma_multiset_commutative(a@.take(0), b@.take(0));
            assert(a@.take(0) + b@.take(0) =~= out@);
        }
    }
    while i < a.len() || j < b.len()
        invariant
            i <= a.len(),
            j <= b.len(),
            sorted_by(a@, ranked()),
            sorted_by(b@, ranked()),
            sorted_by(out@, ranked()),
            out@.to_multiset() == a@.take(i as int).to_multiset().add(
                b@.take(j as int).to_multiset(),
            ),
            forall|k: int, l: int| 0 <= k < out.len() && i <= l < a.len() ==> stands_before(#[trigger] out@[k], #[trigger] a@[l]),
            forall|k: int, l: int| 0 <= k < out.len() && j <= l < b.len() ==> stands_before(#[trigger] out@[k], #[trigger] b@[l]),
        decreases a.len() - i + b.len() - j,
    {
        let ghost before = out@;
        if j >= b.len() || (i < a.len() && in_order(a[i], b[j])) {
            let v = a[i];
            out.push(v);
            proof {
                let r = ranked();
                assert forall|l: int| i < l < a.len() implies stands_before(v, #[trigger] a@[l]) by {
                    assert(r(a@[i as int], a@[l]));
                }
                assert forall|l: int| j <= l < b.len() implies stands_before(v, #[trigger] b@[l]) by {
                    if j < l {
                        assert(r(b@[j as int], b@[l]));
                    }
                }
                assert forall|k: int, l: int| 0 <= k < l < out.len() implies #[trigger] r(
                    out@[k],
                    out@[l],
                ) by {
                    if l < before.len() {
                        assert(r(before[k], before[l]));
                    }
                }
                assert(a@.take(i + 1) =~= a@.take(i as int).push(v));
                assert(out@.to_multiset() =~= a@.take(i + 1).to_multiset().add(
                    b@.take(j as int).to_multiset(),
                )) by {
                    broadcast use vstd::seq_lib::group_to_multiset_ensures;
                    broadcast use vstd::multiset::group_multiset_axioms;
                }
            }
            i = i + 1;
        } else {
            let v = b[j];
            out.push(v);
            proof {
                let r = ranked();
                assert forall|l: int| j < l < b.len() implies stands_before(v, #[trigger] b@[l]) by {
                    assert(r(b@[j as int], b@[l]));
                }
                assert forall|l: int| i <= l < a.len() implies stands_before(v, #[trigger] a@[l]) by {
                    if i < l {
                        assert(r(a@[i as int], a@[l]));
                    }
                }
                assert forall|k: int, l: int| 0 <= k < l < out.len() implies #[trigger] r(
                    out@[k],
                    out@[l],
                ) by {
                    if l < before.len() {
                        assert(r(before[k], before[l]));
                    }
                }
                assert(b@.take(j + 1) =~= b@.take(j as int).push(v));
                assert(out@.to_multiset() =~= a@.take(i as int).to_multiset().add(
                    b@.take(j + 1).to_multiset(),
                )) by {
                    broadcast use vstd::seq_lib::group_to_multiset_ensures;
                    broadcast use vstd::multiset::group_multiset_axioms;
                }
            }
            j = j + 1;
        }
    }
    assert(a@.take(a.len() as int) =~= a@);
    assert(b@.take(b.len() as int) =~= b@);
    out
}

fn merge_sort(v: &Vec<Placed>, from: usize, to: usize) -> (r: Vec<Placed>)
    requires
        from <= to <= v.len(),
    ensures
        sorted_by(r@, ranked()),
        r@.to_multiset() == v@.subrange(from as int, to as int).to_multiset(),
        r.len() == to - from,
    decreases to - from,
{
    if to - from <= 1 {
        let mut one: Vec<Placed> = Vec::new();
        if from < to {
            one.push(v[from]);
        }
        assert(one@ =~= v@.subrange(from as int, to as int));
        return one;
    }
    let mid: usize = from + (to - from) / 2;
    let a = merge_sort(v, from, mid);
    let b = merge_sort(v, mid, to);
    let r = merge(&a, &b);
    proof {
        let x = v@.subrange(from as int, mid as int);
        let y = v@.subrange(mid as int, to as int);
        assert(v@.subrange(from as int, to as int) =~= x + y);
        vstd::seq_lib::lemma_multiset_commutative(x, y);
        broadcast use vstd::seq_lib::group_to_multiset_ensures;

        assert(r@.len() == r@.to_multiset().len());
        assert((x + y).len() == (x + y).to_multiset().len());
    }
    r
}

/// The samples in ascending order, equal ones in the order in which they came.
pub fn sorted(v: &Vec<Single>) -> (r: Vec<Single>)
    ensures
        r@ == ascending(v@),
        r.len() == v.len(),
{
    let mut all: Vec<Placed> = Vec::with_capacity(v.len());
    let mut i: usize = 0;
    while i < v.len()
        invariant
            i <= v.len(),
            all@ == placed(v@).take(i as int),
        decreases v.len() - i,
    {
        all.push(Placed { value: v[i], at: i });
        assert(all@ =~= placed(v@).take(i + 1));
        i = i + 1;
    }
    assert(placed(v@).take(v.len() as int) =~= placed(v@));
    let s: Vec<Placed> = merge_sort(&all, 0, all.len());
    proof {
        assert(all@.subrange(0, all.len() as int) =~= all@);
        lemma_ranked_total();
        placed(v@).lemma_sort_by_ensures(ranked());
        vstd::seq_lib::lemma_sorted_unique(s@, placed(v@).sort_by(ranked()), ranked());
    }
    let mut out: Vec<Single> = Vec::with_capacity(s.len());
    let mut k: usize = 0;
    while k < s.len()
        invariant
            k <= s.len(),
            out@ == ascending(v@).take(k as int),
            s@ == placed(v@).sort_by(ranked()),
        decreases s.len() - k,
    {
        out.push(s[k].value);
        assert(out@ =~= ascending(v@).take(k + 1));
        k = k + 1;
    }
    assert(ascending(v@).take(s.len() as int) =~= ascending(v@));
    out
}

/// Value at fraction `p` of the way through the samples in ascending order, interpolated
/// between neighbours; zero where there are none.
pub open spec fn percentile_spec(v: Seq<Single>, p: Single) -> Single {
    let s = ascending(v);
    let n = s.len();
    if n == 0 {
        Single::whole(0)
    } else if n == 1 {
        s[0]
    } else {
        let idx = p.clamp(Single::whole(0), Single::whole(1)).times(
            Single::whole((n - 1) as u64),
        );
        let i = idx.to_int(u64::MAX);
        if i >= n - 1 {
            s[n - 1]
        } else {
            let frac = idx.minus(Single::whole(i));
            s[i as int].times(Single::whole(1).minus(frac)).plus(s[i + 1].times(frac))
        }
    }
}

pub fn percentile(v: &Vec<Single>, p: Single) -> (r: Single)
    ensures
        r == percentile_spec(v@, p),
{
    let s = sorted(v);
    let n: usize = s.len();
    if n == 0 {
        return Single::whole(0);
    }
    if n == 1 {
        return s[0];
    }
    let zero = Single::whole(0);
    let one = Single::whole(1);
    let idx = p.clamp(zero, one).times(Single::whole((n - 1) as u64));
    let i: u64 = idx.to_int(u64::MAX);
    if i >= (n - 1) as u64 {
        s[n - 1]
    } else {
        let frac = idx.minus(Single::whole(i));
        s[i as usize].times(one.minus(frac)).plus(s[i as usize + 1].times(frac))
    }
}

/// How many of the samples are smaller than a key.
pub open spec fn below(v: Seq<Single>, key: int) -> nat
    decreases v.len(),
{
    if v.len() == 0 {
        0
    } else {
        below(v.drop_last(), key) + if v.last().key() < key {
            1nat
        } else {
            0nat
        }
    }
}

proof fn lemma_below_without(v: Seq<Single>, key: int, i: int)
    requires
        0 <= i < v.len(),
    ensures
        below(v, key) == below(v.remove(i), key) + if v[i].key() < key {
            1nat
        } else {
            0nat
        },
    decreases v.len(),
{
    let r = v.remove(i);
    if i == v.len() - 1 {
        assert(r =~= v.drop_last());
    } else {
        lemma_below_without(v.drop_last(), key, i);
        assert(r.drop_last() =~= v.drop_last().remove(i));
        assert(r.last() == v.last());
    }
}

/// The order of samples does not matter when they are counted.
proof fn lemma_below_any_order(v: Seq<Single>, w: Seq<Single>, key: int)
    requires
        v.to_multiset() == w.to_multiset(),
    ensures
        below(v, key) == below(w, key),
    decreases v.len(),
{
    broadcast use vstd::seq_lib::group_to_multiset_ensures;
    broadcast use vstd::multiset::group_multiset_axioms;

    assert(v.len() == v.to_multiset().len());
    assert(w.len() == w.to_multiset().len());
    if v.len() > 0 {
        let x = v.last();
        assert(v[v.len() - 1] == x);
        assert(v.contains(x));
        assert(w.to_multiset().count(x) > 0);
        assert(w.contains(x));
        let i = choose|i: int| 0 <= i < w.len() && w[i] == x;
        lemma_below_without(w, key, i);
        lemma_below_without(v, key, v.len() - 1);
        assert(v.remove(v.len() - 1).to_multiset() =~= w.remove(i).to_multiset());
        lemma_below_any_order(v.remove(v.len() - 1), w.remove(i), key);
    } else {
        assert(w.len() == 0);
    }
}

proof fn lemma_values_of(p: Seq<Placed>, q: Seq<Placed>)
    requires
        p.to_multiset() == q.to_multiset(),
    ensures
        p.map_values(|a: Placed| a.value).to_multiset() == q.map_values(
            |a: Placed| a.value,
        ).to_multiset(),
    decreases p.len(),
{
    broadcast use vstd::seq_lib::group_to_multiset_ensures;
    broadcast use vstd::multiset::group_multiset_axioms;

    let f = |a: Placed| a.value;
    assert(p.len() == p.to_multiset().len());
    assert(q.len() == q.to_multiset().len());
    if p.len() > 0 {
        let x = p.last();
        assert(p[p.len() - 1] == x);
        assert(p.contains(x));
        assert(q.to_multiset().count(x) > 0);
        assert(q.contains(x));
        let i = choose|i: int| 0 <= i < q.len() && q[i] == x;
        assert(p.remove(p.len() - 1).to_multiset() =~= q.remove(i).to_multiset());
        lemma_values_of(p.remove(p.len() - 1), q.remove(i));
        assert(p.remove(p.len() - 1).map_values(f) =~= p.map_values(f).remove(p.len() - 1));
        assert(q.remove(i).map_values(f) =~= q.map_values(f).remove(i));
        let a = p.map_values(f);
        let b = q.map_values(f);
        assert(a[p.len() - 1] == x.value && b[i] == x.value);
        let v = x.value;
        assert(a.remove(p.len() - 1).to_multiset() == a.to_multiset().remove(v));
        assert(b.remove(i).to_multiset() == b.to_multiset().remove(v));
        assert(a.contains(v) && b.contains(v));
        assert(a.to_multiset().count(v) > 0 && b.to_multiset().count(v) > 0);
        assert(a.to_multiset() =~= a.to_multiset().remove(v).insert(v));
        assert(b.to_multiset() =~= b.to_multiset().remove(v).insert(v));
    } else {
        assert(p.map_values(f) =~= q.map_values(f));
    }
}

/// Sorting keeps the samples, every one as often as it came, and brings them into order.
pub proof fn sorting_keeps_the_samples(v: Seq<Single>)
    ensures
        ascending(v).len() == v.len(),
        ascending(v).to_multiset() == v.to_multiset(),
        forall|i: int, j: int|
            0 <= i <= j < v.len() ==> (#[trigger] ascending(v)[i]).key() <= (
            #[trigger] ascending(v)[j]).key(),
{
    let p = placed(v);
    let s = p.sort_by(ranked());
    lemma_ranked_total();
    p.lemma_sort_by_ensures(ranked());
    assert(s.len() == p.len()) by {
        broadcast use vstd::seq_lib::group_to_multiset_ensures;

        assert(s.len() == s.to_multiset().len());
        assert(p.len() == p.to_multiset().len());
    }
    lemma_values_of(s, p);
    assert(p.map_values(|a: Placed| a.value) =~= v);
    let r = ranked();
    assert forall|i: int, j: int| 0 <= i <= j < v.len() implies (#[trigger] ascending(
        v,
    )[i]).key() <= (#[trigger] ascending(v)[j]).key() by {
        if i < j {
            assert(r(s[i], s[j]));
        }
    }
}

proof fn lemma_below_first(v: Seq<Single>, key: int, m: int)
    requires
        0 <= m <= v.len(),
        forall|i: int| m <= i < v.len() ==> (#[trigger] v[i]).key() >= key,
    ensures
        below(v, key) <= m,
    decreases v.len(),
{
    if v.len() > 0 {
        assert(v.last() == v[v.len() - 1]);
        if m == v.len() {
            lemma_below_first(v.drop_last(), key, m - 1);
        } else {
            lemma_below_first(v.drop_last(), key, m);
        }
    }
}

proof fn lemma_below_last(v: Seq<Single>, key: int, m: int)
    requires
        0 <= m <= v.len(),
        forall|i: int| 0 <= i < m ==> (#[trigger] v[i]).key() < key,
    ensures
        below(v, key) >= m,
    decreases v.len(),
{
    if v.len() > 0 {
        assert(v.last() == v[v.len() - 1]);
        if m == v.len() {
            lemma_below_last(v.drop_last(), key, m - 1);
        } else {
            lemma_below_last(v.drop_last(), key, m);
        }
    }
}

/// The sample at place `i` of the ascending ones has no more than `i` smaller ones, and more than
/// `i` that are not larger.
pub proof fn samples_are_ranked(v: Seq<Single>, i: int)
    requires
        0 <= i < v.len(),
    ensures
        v.contains(ascending(v)[i]),
        below(v, ascending(v)[i].key()) <= i,
        i < below(v, ascending(v)[i].key() + 1),
{
    sorting_keeps_the_samples(v);
    let s = ascending(v);
    let k = s[i].key();
    lemma_below_first(s, k, i);
    lemma_below_last(s, k + 1, i + 1);
    lemma_below_any_order(s, v, k);
    lemma_below_any_order(s, v, k + 1);
    broadcast use vstd::seq_lib::group_to_multiset_ensures;

    assert(s.contains(s[i]));
    assert(s.to_multiset().count(s[i]) > 0);
    assert(v.to_multiset().count(s[i]) > 0);
}

/// A sample that is not huge.
pub open spec fn is_sample(v: Single) -> bool {
    v.finite() && -(1_000 * crate::near::one()) <= v.signed() <= 1_000 * crate::near::one()
}

/// A percentile is what lies at the given part of the way from the smallest sample to the
/// largest: it divides two neighbours in the order of the samples by what is left of the way.
pub open spec fn lies_on_the_way(r: Single, s: Seq<Single>, p: int, i: int, f: int) -> bool {
    let one = crate::near::one();
    let n = s.len() as int;
    &&& 0 <= i < n - 1
    &&& 0 <= f <= one
    &&& -one <= 10 * (i * one + f - p * (n - 1)) <= one
    &&& r.finite()
    &&& -(one * one) <= 100 * (r.signed() * one - s[i].signed() * (one - f) - s[i + 1].signed() * f)
        <= one * one
}

/// Percentiles go from the smallest sample to the largest, in proportion.
pub proof fn percentiles_go_in_proportion(v: Seq<Single>, p: Single)
    requires
        2 <= v.len() <= 0x8_0000,
        forall|i: int| 0 <= i < v.len() ==> is_sample(#[trigger] v[i]),
        p.finite(),
    ensures
        ({
            let r = percentile_spec(v, p);
            let s = ascending(v);
            let one = crate::near::one();
            &&& p.signed() <= 0 ==> r.finite() && r.signed() == s[0].signed()
            &&& p.signed() >= one ==> r == s[v.len() - 1]
            &&& 0 <= p.signed() <= one ==> exists|i: int, f: int| #[trigger]
                lies_on_the_way(r, s, p.signed(), i, f)
        }),
{
    let c = crate::near::one();
    let e = crate::near::slip();
    crate::near::lemma_sizes();
    sorting_keeps_the_samples(v);
    let s = ascending(v);
    let n = s.len() as int;
    assert forall|k: int| 0 <= k < n implies is_sample(#[trigger] s[k]) by {
        samples_are_ranked(v, k);
        let j = choose|j: int| 0 <= j < v.len() && v[j] == s[k];
        assert(is_sample(v[j]));
    }
    crate::near::lemma_whole(0);
    crate::near::lemma_whole(1);
    let last = (n - 1) as u64;
    crate::near::lemma_whole(last);
    crate::near::lemma_held(p, Single::whole(0), Single::whole(1));
    let q = p.clamp(Single::whole(0), Single::whole(1));
    let qv = q.signed();
    let w = Single::whole(last);
    assert(0 <= qv * (last * c) <= last * c * c) by (nonlinear_arith)
        requires
            0 <= qv <= c,
            c > 0,
    ;
    crate::near::lemma_product(q, w, last as int);
    crate::near::lemma_product_not_below(q, w);
    let idx = q.times(w);
    let x = idx.signed();
    assert(-(last * e) <= x - qv * last <= last * e) by (nonlinear_arith)
        requires
            -(last * e * c) <= x * c - qv * (last * c) <= last * e * c,
            c > 0,
    ;
    assert(last * e <= 0x8_0000 * e) by (nonlinear_arith)
        requires
            last < 0x8_0000,
            e > 0,
    ;
    assert(qv * last <= last * c) by (nonlinear_arith)
        requires
            qv <= c,
    ;
    crate::near::lemma_cut(idx, u64::MAX);
    let i = idx.to_int(u64::MAX);
    assert(i * c <= last * c + c);
    assert(i <= last + 1) by (nonlinear_arith)
        requires
            i * c <= last * c + c,
            c > 0,
    ;
    let r = percentile_spec(v, p);
    if p.signed() >= c {
        // The whole way.
        crate::near::lemma_once(q, w);
        assert(x == last * c);
        assert(i >= last) by (nonlinear_arith)
            requires
                x < (i + 1) * c,
                x == last * c,
                c > 0,
        ;
    }
    if i >= last {
        assert(r == s[n - 1]);
        let f = c;
        assert((n - 2) * c + c == last * c) by (nonlinear_arith)
            requires
                last == n - 1,
        ;
        assert(qv * last >= last * c - last * e) by (nonlinear_arith)
            requires
                x >= i * c,
                i >= last,
                c > 0,
                x - qv * last <= last * e,
        ;
        assert(s[n - 1].signed() * c - s[n - 2].signed() * (c - c) - s[n - 1].signed() * c == 0)
            by (nonlinear_arith);
        assert(c * c >= 0) by (nonlinear_arith);
        assert(s[n - 2 + 1] == s[n - 1]);
        if 0 <= p.signed() <= c {
            assert(lies_on_the_way(r, s, p.signed(), n - 2, f));
        }
        if p.signed() <= 0 {
            crate::near::lemma_none(q, w);
            assert(false) by (nonlinear_arith)
                requires
                    x == 0,
                    i * c <= x,
                    i >= last,
                    last >= 1,
                    c > 0,
            ;
        }
    } else {
        crate::near::lemma_whole(i);
        let frac = idx.minus(Single::whole(i));
        // The fraction is exact: the two numbers are close together.
        assert((i + 1) * c == i * c + c) by (nonlinear_arith);
        crate::near::lemma_difference(idx, Single::whole(i), 1);
        let f = frac.signed();
        crate::near::lemma_difference(Single::whole(1), frac, 2);
        let g = Single::whole(1).minus(frac);
        let gv = g.signed();
        let (a, b) = (s[i as int], s[i + 1]);
        let (av, bv) = (a.signed(), b.signed());
        assert(is_sample(s[i as int]) && is_sample(s[i + 1]));
        crate::near::lemma_bounded(av, 1_000 * c, gv, 2 * c);
        crate::near::lemma_bounded(bv, 1_000 * c, f, 2 * c);
        assert(1_000 * c * (2 * c) == 2_000 * c * c) by (nonlinear_arith);
        crate::near::lemma_product(a, g, 2_000);
        crate::near::lemma_product(b, frac, 2_000);
        let (y, z) = (a.times(g), b.times(frac));
        let (yv, zv) = (y.signed(), z.signed());
        lemma_product_bound(yv, av * gv);
        lemma_product_bound(zv, bv * f);
        crate::near::lemma_sum(y, z, 4_002);
        assert(r == y.plus(z));
        let rv = r.signed();
        let t = if f < 0 {
            0
        } else if f > c {
            c
        } else {
            f
        };
        // What is left of the way, up to a slip.
        let (d, h) = (f - t, gv - (c - t));
        assert(-(2 * e) <= d <= 2 * e && -(4 * e) <= h <= 4 * e);
        crate::near::lemma_bounded(bv, 1_000 * c, d, 2 * e);
        crate::near::lemma_bounded(av, 1_000 * c, h, 4 * e);
        let k = rv - yv - zv;
        crate::near::lemma_bounded(k, 4_002 * e, c, c);
        assert(rv * c - av * (c - t) - bv * t == k * c + (yv * c - av * gv) + (zv * c - bv * f) + av
            * h + bv * d) by {
            assert(k * c == rv * c - yv * c - zv * c) by (nonlinear_arith)
                requires
                    k == rv - yv - zv,
            ;
            assert(av * h == av * gv - av * (c - t)) by (nonlinear_arith)
                requires
                    h == gv - (c - t),
            ;
            assert(bv * d == bv * f - bv * t) by (nonlinear_arith)
                requires
                    d == f - t,
            ;
        }
        assert(4_002 * e * c == 4_002 * (e * c) && 2_000 * e * c == 2_000 * (e * c) && 1_000 * c * (
        2 * e) == 2_000 * (e * c) && 1_000 * c * (4 * e) == 4_000 * (e * c) && c * c == 0x80_0000
            * (e * c) && e * c > 0) by (nonlinear_arith)
            requires
                c == e * 0x80_0000,
                e > 0,
        ;
        if 0 <= p.signed() <= c {
            assert(lies_on_the_way(r, s, p.signed(), i as int, t));
        }
        if p.signed() <= 0 {
            // None of the way.
            crate::near::lemma_none(q, w);
            assert(x == 0);
            assert(i == 0) by (nonlinear_arith)
                requires
                    i * c <= 0,
                    c > 0,
            ;
            lemma_first(a, b, idx);
        }
    }
}

proof fn lemma_product_bound(v: int, p: int)
    requires
        -(2_000 * crate::near::one() * crate::near::one()) <= p <= 2_000 * crate::near::one()
            * crate::near::one(),
        -(2_000 * crate::near::slip() * crate::near::one()) <= v * crate::near::one() - p <= 2_000
            * crate::near::slip() * crate::near::one(),
    ensures
        -(2_001 * crate::near::one()) <= v <= 2_001 * crate::near::one(),
{
    crate::near::lemma_sizes();
    let c = crate::near::one();
    let e = crate::near::slip();
    assert(2_000 * e * c <= c * c) by (nonlinear_arith)
        requires
            c == e * 0x80_0000,
            e > 0,
    ;
    assert(2_001 * c * c == 2_000 * c * c + c * c) by (nonlinear_arith);
    crate::near::lemma_divided(v, 2_001 * c, c);
}

/// Where none of the way is gone, the first of two neighbours is met.
proof fn lemma_first(a: Single, b: Single, none: Single)
    requires
        is_sample(a),
        is_sample(b),
        none.finite(),
        none.signed() == 0,
    ensures
        ({
            let f = none.minus(Single::whole(0));
            let r = a.times(Single::whole(1).minus(f)).plus(b.times(f));
            r.finite() && r.signed() == a.signed()
        }),
{
    crate::near::lemma_sizes();
    crate::near::lemma_whole(0);
    crate::near::lemma_whole(1);
    let zero = Single::whole(0);
    let one = Single::whole(1);
    crate::near::lemma_exact_difference(none, zero, zero);
    let f = none.minus(zero);
    crate::near::lemma_exact_difference(one, f, one);
    let g = one.minus(f);
    crate::near::lemma_once(g, a);
    crate::near::lemma_none(f, b);
    let (x, y) = (a.times(g), b.times(f));
    crate::near::lemma_exact_sum(x, y, a);
}

} // verus!
