//! Search for the setting with the lowest score: a coarse row of probes, then a finer one
//! around the best of them.

use vstd::prelude::*;
use crate::single::Single;

verus! {

/// A search under way: what was tried so far, and the best of it.
#[derive(Debug, Clone, Copy, PartialEq, Eq, Structural)]
pub struct Search {
    pub lo: Single,
    pub hi: Single,
    /// Probes of the first and of the second row.
    pub coarse: usize,
    pub refine: usize,
    /// Probes that have been scored.
    pub done: usize,
    /// The setting with the lowest score, and that score.
    pub best: Single,
    pub score: Single,
    /// The best of the first row, around which the second lies.
    pub middle: Single,
}

/// Plus infinity.
pub open spec fn unscored() -> Single {
    Single { bits: crate::single::INFINITE }
}

/// Part of the way from the first to the last of `n` probes at which probe `i` lies; `alone`
/// for a single one.
pub open spec fn way(i: int, n: int, alone: Single) -> Single {
    if n <= 1 {
        alone
    } else {
        Single::whole(i as u64).over(Single::whole((n - 1) as u64))
    }
}

/// The place part `t` of the way from `a` to `b`.
pub open spec fn between(a: Single, b: Single, t: Single) -> Single {
    a.plus(b.minus(a).times(t))
}

fn part_of_way(i: usize, n: usize, alone: Single) -> (r: Single)
    ensures
        r == way(i as int, n as int, alone),
{
    if n <= 1 {
        alone
    } else {
        Single::whole(i as u64).over(Single::whole((n - 1) as u64))
    }
}

impl Search {
    pub open spec fn start_spec(lo: Single, hi: Single, coarse: usize, refine: usize) -> Search {
        Search { lo, hi, coarse, refine, done: 0, best: lo, score: unscored(), middle: lo }
    }

    /// A search from `lo` to `hi` with this many probes in each row.
    #[verifier::when_used_as_spec(start_spec)]
    pub fn start(lo: Single, hi: Single, coarse: usize, refine: usize) -> (r: Search)
        ensures
            r == Search::start_spec(lo, hi, coarse, refine),
    {
        Search {
            lo,
            hi,
            coarse,
            refine,
            done: 0,
            best: lo,
            score: Single { bits: 0x7f80_0000 },
            middle: lo,
        }
    }

    /// No probe is left.
    pub open spec fn finished_spec(self) -> bool {
        self.done >= self.coarse + self.refine
    }

    #[verifier::when_used_as_spec(finished_spec)]
    pub fn finished(self) -> (r: bool)
        ensures
            r == self.finished_spec(),
    {
        self.done >= self.coarse && self.done - self.coarse >= self.refine
    }

    /// How far the second row reaches to either side.
    pub open spec fn reach(self) -> Single {
        self.hi.minus(self.lo).over(Single::whole(self.coarse as u64).larger(Single::whole(1)))
    }

    pub open spec fn probe_spec(self) -> Single {
        if self.done < self.coarse {
            between(self.lo, self.hi, way(self.done as int, self.coarse as int, Single::whole(0)))
        } else {
            between(
                self.middle.minus(self.reach()).larger(self.lo),
                self.middle.plus(self.reach()).smaller(self.hi),
                way(self.done - self.coarse, self.refine as int, Single::ratio(1, 2)),
            )
        }
    }

    /// The setting to score next.
    #[verifier::when_used_as_spec(probe_spec)]
    pub fn probe(self) -> (r: Single)
        ensures
            r == self.probe_spec(),
    {
        if self.done < self.coarse {
            let t: Single = part_of_way(self.done, self.coarse, Single::whole(0));
            return self.lo.plus(self.hi.minus(self.lo).times(t));
        }
        let reach: Single = self.hi.minus(self.lo).over(
            Single::whole(self.coarse as u64).larger(Single::whole(1)),
        );
        let from: Single = self.middle.minus(reach).larger(self.lo);
        let to: Single = self.middle.plus(reach).smaller(self.hi);
        let t: Single = part_of_way(self.done - self.coarse, self.refine, Single::ratio(1, 2));
        from.plus(to.minus(from).times(t))
    }

    /// The search after its next probe got this score.
    pub open spec fn scored(self, score: Single) -> Search {
        let better = score.less(self.score);
        let best = if better {
            self.probe()
        } else {
            self.best
        };
        Search {
            done: (self.done + 1) as usize,
            best,
            score: if better {
                score
            } else {
                self.score
            },
            middle: if self.done < self.coarse {
                best
            } else {
                self.middle
            },
            ..self
        }
    }

    /// Takes the score of the probe that was asked for. The first of the lowest wins.
    pub fn record(&mut self, score: Single)
        requires
            !old(self).finished(),
            old(self).coarse + old(self).refine <= usize::MAX,
        ensures
            *final(self) == old(self).scored(score),
    {
        if score.less(self.score) {
            self.best = self.probe();
            self.score = score;
        }
        if self.done < self.coarse {
            self.middle = self.best;
        }
        self.done = self.done + 1;
    }

    /// The search after these scores, one after the other.
    pub open spec fn after(self, scores: Seq<Single>) -> Search
        decreases scores.len(),
    {
        if scores.len() == 0 {
            self
        } else {
            self.after(scores.drop_last()).scored(scores.last())
        }
    }
}

/// The scores are those that `score` gave to the probes of the search, in turn.
pub open spec fn scored_by<F: Fn(Single, usize, usize) -> Single>(
    score: F,
    start: Search,
    scores: Seq<Single>,
) -> bool {
    forall|i: int|
        0 <= i < scores.len() ==> #[trigger] score.ensures(
            (
                start.after(scores.take(i)).probe(),
                i as usize,
                (start.coarse + start.refine) as usize,
            ),
            scores[i],
        )
}

/// The setting between `lo` and `hi` that scored lowest. `score` is given the setting, how
/// many were scored before it, and how many there are.
pub fn search_1d<F: Fn(Single, usize, usize) -> Single>(
    lo: Single,
    hi: Single,
    coarse: usize,
    refine: usize,
    score: F,
) -> (r: Single)
    requires
        coarse + refine <= usize::MAX,
        forall|x: Single, i: usize, n: usize| #[trigger] score.requires((x, i, n)),
    ensures
        exists|scores: Seq<Single>|
            #[trigger] scored_by(score, Search::start(lo, hi, coarse, refine), scores)
                && scores.len() == coarse + refine && r == Search::start(
                lo,
                hi,
                coarse,
                refine,
            ).after(scores).best,
{
    let total: usize = coarse + refine;
    let mut search: Search = Search::start(lo, hi, coarse, refine);
    let ghost start = search;
    let ghost mut scores: Seq<Single> = Seq::empty();
    while !search.finished()
        invariant
            total == coarse + refine,
            start == Search::start(lo, hi, coarse, refine),
            search.coarse == coarse,
            search.refine == refine,
            search.done == scores.len(),
            search.done <= total,
            search == start.after(scores),
            forall|x: Single, i: usize, n: usize| #[trigger] score.requires((x, i, n)),
            forall|i: int|
                0 <= i < scores.len() ==> #[trigger] score.ensures(
                    (start.after(scores.take(i)).probe(), i as usize, total),
                    scores[i],
                ),
        decreases total - search.done,
    {
        let x: Single = search.probe();
        let s: Single = score(x, search.done, total);
        proof {
            let next = scores.push(s);
            assert(next.drop_last() =~= scores);
            assert forall|i: int| 0 <= i < next.len() implies #[trigger] score.ensures(
                (start.after(next.take(i)).probe(), i as usize, total),
                next[i],
            ) by {
                if i < scores.len() {
                    assert(next.take(i) =~= scores.take(i));
                    assert(score.ensures(
                        (start.after(scores.take(i)).probe(), i as usize, total),
                        scores[i],
                    ));
                } else {
                    assert(next.take(i) =~= scores);
                }
            }
            scores = next;
        }
        search.record(s);
    }
    assert(scored_by(score, start, scores));
    search.best
}

/// The score that is kept is the lowest of all: no score seen is below it.
pub proof fn search_keeps_the_lowest(search: Search, scores: Seq<Single>, i: int)
    requires
        search.score == unscored(),
        0 <= i < scores.len(),
    ensures
        !scores[i].less(search.after(scores).score),
    decreases scores.len(),
{
    reveal(Single::less_spec);
    if i < scores.len() - 1 {
        search_keeps_the_lowest(search, scores.drop_last(), i);
    }
}

/// The setting that is kept is the one whose score is kept: a probe with that score, or the
/// start of the range where nothing scored below infinity.
pub proof fn search_keeps_a_probe(search: Search, scores: Seq<Single>)
    ensures
        ({
            let end = search.after(scores);
            ||| end.best == search.best && end.score == search.score
            ||| exists|i: int|
                0 <= i < scores.len() && end.score == #[trigger] scores[i] && end.best
                    == search.after(scores.take(i)).probe()
        }),
    decreases scores.len(),
{
    if scores.len() > 0 {
        let rest = scores.drop_last();
        let before = search.after(rest);
        search_keeps_a_probe(search, rest);
        if scores.last().less(before.score) {
            let i = scores.len() - 1;
            assert(scores.take(i) =~= rest);
            assert(scores[i] == scores.last());
        } else if !(before.best == search.best && before.score == search.score) {
            let i = choose|i: int|
                0 <= i < rest.len() && before.score == #[trigger] rest[i] && before.best
                    == search.after(rest.take(i)).probe();
            assert(scores.take(i) =~= rest.take(i));
            assert(scores[i] == rest[i]);
        }
    }
}

} // verus!
