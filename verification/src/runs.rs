//! Runs of marked lines.

use vstd::prelude::*;
use crate::single::Single;

verus! {

/// Start of the run that reaches up to line `n`, where line `n - 1` is marked.
pub open spec fn open_start(f: Seq<bool>, n: int) -> Option<int>
    decreases n,
{
    if n <= 0 || !f[n - 1] {
        None
    } else {
        match open_start(f, n - 1) {
            Some(s) => Some(s),
            None => Some(n - 1),
        }
    }
}

/// The runs that end before line `n`, each as its first line and one past its last.
pub open spec fn closed_runs(f: Seq<bool>, n: int) -> Seq<(int, int)>
    decreases n,
{
    if n <= 0 {
        Seq::empty()
    } else {
        let r = closed_runs(f, n - 1);
        if !f[n - 1] && open_start(f, n - 1) is Some {
            r.push((open_start(f, n - 1)->0, n - 1))
        } else {
            r
        }
    }
}

/// All runs of marked lines, first to last.
pub open spec fn runs_spec(f: Seq<bool>) -> Seq<(int, int)> {
    let n = f.len() as int;
    match open_start(f, n) {
        Some(s) => closed_runs(f, n).push((s, n)),
        None => closed_runs(f, n),
    }
}

/// A run in machine numbers.
pub open spec fn as_run(p: (usize, usize)) -> (int, int) {
    (p.0 as int, p.1 as int)
}

proof fn lemma_open_start(f: Seq<bool>, n: int)
    requires
        0 <= n <= f.len(),
    ensures
        open_start(f, n) matches Some(s) ==> {
            &&& 0 <= s < n
            &&& forall|i: int| s <= i < n ==> f[i]
            &&& s == 0 || !f[s - 1]
        },
        open_start(f, n) is None ==> n == 0 || !f[n - 1],
    decreases n,
{
    if n > 0 {
        lemma_open_start(f, n - 1);
    }
}

/// A maximal run of marked lines.
pub open spec fn maximal_run(f: Seq<bool>, s: int, e: int) -> bool {
    &&& 0 <= s < e <= f.len()
    &&& forall|i: int| s <= i < e ==> f[i]
    &&& s == 0 || !f[s - 1]
    &&& e == f.len() || !f[e]
}

proof fn lemma_closed_runs(f: Seq<bool>, n: int)
    requires
        0 <= n <= f.len(),
    ensures
        forall|k: int|
            0 <= k < closed_runs(f, n).len() ==> {
                let r = #[trigger] closed_runs(f, n)[k];
                maximal_run(f, r.0, r.1) && r.1 < n
            },
        forall|i: int|
            0 <= i < n && #[trigger] f[i] ==> {
                ||| exists|k: int|
                    0 <= k < closed_runs(f, n).len() && (#[trigger] closed_runs(f, n)[k]).0 <= i
                        < closed_runs(f, n)[k].1
                ||| open_start(f, n) matches Some(s) && s <= i
            },
    decreases n,
{
    if n > 0 {
        lemma_closed_runs(f, n - 1);
        lemma_open_start(f, n - 1);
        lemma_open_start(f, n);
        let before = closed_runs(f, n - 1);
        let after = closed_runs(f, n);
        assert forall|i: int| 0 <= i < n && #[trigger] f[i] implies {
            ||| exists|k: int| 0 <= k < after.len() && (#[trigger] after[k]).0 <= i < after[k].1
            ||| open_start(f, n) matches Some(s) && s <= i
        } by {
            if i < n - 1 {
                if exists|k: int| 0 <= k < before.len() && (#[trigger] before[k]).0 <= i
                    < before[k].1 {
                    let k = choose|k: int|
                        0 <= k < before.len() && (#[trigger] before[k]).0 <= i < before[k].1;
                    assert(after[k] == before[k]);
                } else {
                    if !f[n - 1] {
                        assert(after[after.len() - 1].0 <= i);
                    }
                }
            }
        }
    }
}

/// The runs are the maximal runs, and every marked line lies in one of them.
pub proof fn runs_cover_the_marked_lines(f: Seq<bool>)
    ensures
        forall|k: int|
            0 <= k < runs_spec(f).len() ==> {
                let r = #[trigger] runs_spec(f)[k];
                maximal_run(f, r.0, r.1)
            },
        forall|i: int|
            0 <= i < f.len() && #[trigger] f[i] ==> exists|k: int|
                0 <= k < runs_spec(f).len() && (#[trigger] runs_spec(f)[k]).0 <= i
                    < runs_spec(f)[k].1,
{
    let n = f.len() as int;
    lemma_closed_runs(f, n);
    lemma_open_start(f, n);
    let closed = closed_runs(f, n);
    let all = runs_spec(f);
    assert forall|i: int| 0 <= i < f.len() && #[trigger] f[i] implies exists|k: int|
        0 <= k < all.len() && (#[trigger] all[k]).0 <= i < all[k].1 by {
        if exists|k: int| 0 <= k < closed.len() && (#[trigger] closed[k]).0 <= i < closed[k].1 {
            let k = choose|k: int|
                0 <= k < closed.len() && (#[trigger] closed[k]).0 <= i < closed[k].1;
            assert(all[k] == closed[k]);
        } else {
            assert(all[all.len() - 1].0 <= i);
        }
    }
}

/// All runs of marked lines.
pub fn runs(f: &Vec<bool>) -> (r: Vec<(usize, usize)>)
    ensures
        r@.map_values(|p: (usize, usize)| as_run(p)) == runs_spec(f@),
        forall|k: int| 0 <= k < r.len() ==> (#[trigger] r@[k]).0 < r@[k].1 <= f.len(),
        r.len() == runs_spec(f@).len(),
        forall|k: int| 0 <= k < r.len() ==> as_run(#[trigger] r@[k]) == runs_spec(f@)[k],
{
    let mut out: Vec<(usize, usize)> = Vec::new();
    let mut start: Option<usize> = None;
    let mut i: usize = 0;
    while i < f.len()
        invariant
            i <= f.len(),
            start matches Some(s) ==> open_start(f@, i as int) == Some(s as int) && s < i,
            start is None ==> open_start(f@, i as int) is None,
            out.len() == closed_runs(f@, i as int).len(),
            forall|k: int| 0 <= k < out.len() ==> (#[trigger] out@[k]).0 < out@[k].1 <= i,
            forall|k: int|
                0 <= k < out.len() ==> as_run(#[trigger] out@[k]) == closed_runs(f@, i as int)[k],
        decreases f.len() - i,
    {
        if f[i] {
            if start.is_none() {
                start = Some(i);
            }
        } else if let Some(s) = start {
            out.push((s, i));
            start = None;
        }
        i = i + 1;
    }
    if let Some(s) = start {
        out.push((s, f.len()));
    }
    assert(out@.map_values(|p: (usize, usize)| as_run(p)) =~= runs_spec(f@));
    out
}

/// Number of the last of the longest among the first `n` runs.
pub open spec fn longest_index(r: Seq<(int, int)>, n: int) -> int
    decreases n,
{
    if n <= 1 {
        0
    } else {
        let b = longest_index(r, n - 1);
        if r[n - 1].1 - r[n - 1].0 >= r[b].1 - r[b].0 {
            n - 1
        } else {
            b
        }
    }
}

/// Number of the run that holds a line, if any of the first `n` does.
pub open spec fn run_at(r: Seq<(int, int)>, line: int, n: int) -> Option<int>
    decreases n,
{
    if n <= 0 {
        None
    } else {
        match run_at(r, line, n - 1) {
            Some(k) => Some(k),
            None => if r[n - 1].0 <= line < r[n - 1].1 {
                Some(n - 1)
            } else {
                None
            },
        }
    }
}

/// The run that a frame is taken to span: the one across the centre where it covers 28 percent
/// of the axis, else the longest; the whole axis where no line is marked.
pub open spec fn longest_run_spec(f: Seq<bool>, center: int) -> Option<(int, int)> {
    let r = runs_spec(f);
    let n = f.len() as int;
    if n == 0 {
        None
    } else if r.len() == 0 {
        Some((0, n))
    } else {
        match run_at(r, center, r.len() as int) {
            Some(k) => if Single::whole(n as u64).times(Single::ratio(28, 100)).at_most(
                Single::whole((r[k].1 - r[k].0) as u64),
            ) {
                Some(r[k])
            } else {
                Some(r[longest_index(r, r.len() as int)])
            },
            None => Some(r[longest_index(r, r.len() as int)]),
        }
    }
}

pub fn longest_run(f: &Vec<bool>, center: usize) -> (r: Option<(usize, usize)>)
    ensures
        r is Some <==> f.len() > 0,
        r matches Some(p) ==> {
            &&& longest_run_spec(f@, center as int) == Some(as_run(p))
            &&& p.0 < p.1 <= f.len()
        },
        r is None ==> longest_run_spec(f@, center as int) is None,
{
    let n: usize = f.len();
    if n == 0 {
        return None;
    }
    let rs = runs(f);
    if rs.len() == 0 {
        return Some((0, n));
    }
    let ghost all = runs_spec(f@);
    let mut at: Option<usize> = None;
    let mut best: usize = 0;
    let mut k: usize = 0;
    while k < rs.len()
        invariant
            k <= rs.len(),
            rs.len() > 0,
            rs.len() == all.len(),
            forall|j: int| 0 <= j < rs.len() ==> (#[trigger] rs@[j]).0 < rs@[j].1 <= f.len(),
            forall|j: int| 0 <= j < rs.len() ==> as_run(#[trigger] rs@[j]) == all[j],
            best < rs.len(),
            best == longest_index(all, k as int),
            at matches Some(a) ==> a < k && run_at(all, center as int, k as int) == Some(a as int),
            at is None ==> run_at(all, center as int, k as int) is None,
        decreases rs.len() - k,
    {
        let (s, e) = rs[k];
        assert(as_run(rs@[k as int]) == all[k as int]);
        assert(as_run(rs@[best as int]) == all[best as int]);
        if at.is_none() && s <= center && center < e {
            at = Some(k);
        }
        if e - s >= rs[best].1 - rs[best].0 {
            best = k;
        }
        k = k + 1;
    }
    if let Some(a) = at {
        let (s, e) = rs[a];
        assert(as_run(rs@[a as int]) == all[a as int]);
        if Single::whole(n as u64).times(Single::ratio(28, 100)).at_most(
            Single::whole((e - s) as u64),
        ) {
            return Some((s, e));
        }
    }
    assert(as_run(rs@[best as int]) == all[best as int]);
    Some(rs[best])
}

} // verus!
