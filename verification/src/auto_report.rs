//! What a search for a grade tells of itself while it runs.
//!
//! Each report names the phase, how far the search has come, and, where the phase is new, a line
//! for the log. The reports of a whole search come in order: their parts never fall, and a phase
//! is logged once, before anything else is told of it.

use vstd::prelude::*;
use vstd::arithmetic::power2::{lemma2_to64, lemma_pow2_adds, lemma_pow2_pos, pow2};
use crate::auto::{AutoPhase, AutoTuner, COARSE, REFINE};
use crate::film::FilmImage;
use crate::metrics::HistMetrics;
use crate::options::{PipelineOptions, ZoneRange};
use crate::single::Single;

verus! {

/// One report: the title of the phase, how far the search has come from 0 to 1, and a line for
/// the log.
pub struct AutoReport {
    pub title: Seq<char>,
    pub part: Single,
    pub log: Option<Seq<char>>,
}

/// Whoever is told how a search goes.
pub trait AutoProgressCb {
    /// What has been told so far.
    spec fn told(&self) -> Seq<AutoReport>;

    /// Takes a report.
    fn tell(&mut self, title: &'static str, part: Single, log: Option<&'static str>)
        ensures
            final(self).told() == old(self).told().push(
                AutoReport {
                    title: title@,
                    part,
                    log: match log {
                        Some(line) => Some(line@),
                        None => None,
                    },
                },
            ),
    ;
}

/// A report that is kept.
#[derive(Debug, Clone, Copy)]
pub struct Told {
    pub title: &'static str,
    pub part: Single,
    pub log: Option<&'static str>,
}

impl View for Told {
    type V = AutoReport;

    open spec fn view(&self) -> AutoReport {
        AutoReport {
            title: self.title@,
            part: self.part,
            log: match self.log {
                Some(line) => Some(line@),
                None => None,
            },
        }
    }
}

/// Keeps all reports.
#[derive(Debug, Clone)]
pub struct ReportList {
    pub reports: Vec<Told>,
}

impl AutoProgressCb for ReportList {
    open spec fn told(&self) -> Seq<AutoReport> {
        self.reports@.map_values(|t: Told| t@)
    }

    fn tell(&mut self, title: &'static str, part: Single, log: Option<&'static str>) {
        self.reports.push(Told { title, part, log });
        assert(self.told() =~= old(self).told().push((Told { title, part, log })@));
    }
}

/// Hands each report on as it comes, to a window or a log.
pub struct Relay<C: Fn(&'static str, Single, Option<&'static str>)> {
    call: C,
    handed: Ghost<Seq<AutoReport>>,
}

impl<C: Fn(&'static str, Single, Option<&'static str>)> Relay<C> {
    #[verifier::type_invariant]
    spec fn callable(self) -> bool {
        forall|title: &'static str, part: Single, log: Option<&'static str>| #[trigger]
            self.call.requires((title, part, log))
    }

    /// A relay that has handed nothing on.
    pub fn new(call: C) -> (r: Relay<C>)
        requires
            forall|title: &'static str, part: Single, log: Option<&'static str>| #[trigger]
                call.requires((title, part, log)),
        ensures
            r.told() == Seq::<AutoReport>::empty(),
    {
        Relay { call, handed: Ghost(Seq::empty()) }
    }
}

impl<C: Fn(&'static str, Single, Option<&'static str>)> AutoProgressCb for Relay<C> {
    closed spec fn told(&self) -> Seq<AutoReport> {
        self.handed@
    }

    fn tell(&mut self, title: &'static str, part: Single, log: Option<&'static str>) {
        proof {
            use_type_invariant(&*self);
        }
        (self.call)(title, part, log);
        let ghost report = (Told { title, part, log })@;
        self.handed = Ghost(self.handed@.push(report));
    }
}

/// A report of a phase that is new, or of one that goes on.
pub open spec fn said(title: Seq<char>, part: Single, new: bool) -> AutoReport {
    AutoReport {
        title,
        part,
        log: if new {
            Some(title)
        } else {
            None
        },
    }
}

pub open spec fn preparing() -> Seq<char> {
    "Preparing analysis…"@
}

/// What is told before an image was looked at.
pub open spec fn opening() -> Seq<AutoReport> {
    seq![said(preparing(), Single::ratio(2, 100), true)]
}

/// The search has just come to a phase that has a title of its own.
pub open spec fn announces(t: AutoTuner) -> bool {
    &&& !(t.phase is ClipBase || t.phase is ClipSat)
    &&& t.phase.searches() ==> t.search.done == 0
}

/// What is told of a state of the search.
pub open spec fn told_of(t: AutoTuner, new: bool) -> AutoReport {
    said(AutoTuner::title_text(t.phase), t.part_done(), new)
}

/// What is told on the way from one state of the search to the next.
pub open spec fn told_between(t: AutoTuner, u: AutoTuner) -> Seq<AutoReport> {
    let probe = if t.phase.searches() {
        seq![told_of(t, false)]
    } else {
        Seq::empty()
    };
    if announces(u) {
        probe.push(told_of(u, true))
    } else {
        probe
    }
}

/// What is told of the states of a search.
pub open spec fn told_by(states: Seq<AutoTuner>) -> Seq<AutoReport>
    decreases states.len(),
{
    if states.len() == 0 {
        Seq::empty()
    } else if states.len() == 1 {
        seq![told_of(states[0], true)]
    } else {
        told_by(states.drop_last()) + told_between(states[states.len() - 2], states.last())
    }
}

/// All that is told of a search that runs to its end.
pub open spec fn reports_of(states: Seq<AutoTuner>) -> Seq<AutoReport> {
    opening().push(said(preparing(), Single::ratio(8, 100), false)) + told_by(states)
}

pub(crate) proof fn lemma_told_step(states: Seq<AutoTuner>, u: AutoTuner)
    requires
        states.len() > 0,
    ensures
        reports_of(states.push(u)) == reports_of(states) + told_between(states.last(), u),
{
    let next = states.push(u);
    assert(next.drop_last() =~= states);
    assert(next[next.len() - 2] == states.last());
    assert(reports_of(next) =~= reports_of(states) + told_between(states.last(), u));
}

/// `k / 4096`, which is held exactly.
spec fn dyadic(k: nat) -> Single {
    crate::single::round_units(false, k * pow2(137), 1)
}

/// A number that is not below zero.
spec fn sound(a: Single) -> bool {
    a.finite() && !a.negative()
}

proof fn lemma_dyadic(k: nat)
    requires
        k <= 0x1_0000,
    ensures
        sound(dyadic(k)),
        dyadic(k).units() == k * pow2(137),
        pow2(149) == 4096 * pow2(137),
        pow2(137) > 0,
{
    lemma2_to64();
    lemma_pow2_adds(12, 137);
    lemma_pow2_pos(137);
    crate::single::lemma_dyadic_exact(k, 137);
}

proof fn lemma_dyadic_order(a: nat, b: nat)
    requires
        a <= b <= 0x1_0000,
    ensures
        dyadic(a).mag() <= dyadic(b).mag(),
{
    lemma_dyadic(a);
    lemma_dyadic(b);
    let p = pow2(137);
    assert((a * p) * 1 <= (b * p) * 1) by (nonlinear_arith)
        requires
            a <= b,
            p > 0,
    ;
    crate::single::lemma_round_monotone(a * p, 1, b * p, 1);
}

/// Hundredths lie between such fractions.
proof fn lemma_hundredths(n: u32, lo: nat, hi: nat)
    requires
        lo * 100 <= n * 4096 <= hi * 100,
        hi <= 0x1_0000,
    ensures
        sound(Single::ratio(n, 100)),
        dyadic(lo).mag() <= Single::ratio(n, 100).mag() <= dyadic(hi).mag(),
{
    lemma_dyadic(lo);
    lemma_dyadic(hi);
    let p = pow2(137);
    assert((lo * p) * 100 <= n * (4096 * p) <= (hi * p) * 100) by (nonlinear_arith)
        requires
            lo * 100 <= n * 4096 <= hi * 100,
            p > 0,
    ;
    crate::single::lemma_ratio_bounds(n, 100, dyadic(lo), dyadic(hi));
}

/// The probes of a search that are behind, as a part of all.
spec fn probed(done: nat) -> Single {
    Single::whole(done as u64).over(Single::whole((COARSE + REFINE) as u64))
}

proof fn lemma_probed(a: nat, b: nat)
    requires
        a <= b <= 11,
    ensures
        sound(probed(a)),
        sound(probed(b)),
        probed(a).units() <= probed(b).units() <= 3840 * pow2(137),
{
    reveal(Single::over_spec);
    let c = pow2(149);
    let p = pow2(137);
    lemma_dyadic(3840);
    crate::single::lemma_whole_exact(a as u64);
    crate::single::lemma_whole_exact(b as u64);
    crate::single::lemma_whole_exact(12);
    let d = Single::whole(12).units();
    assert((a * c) * c <= (b * c) * c && (b * c) * c <= (3840 * p) * d && d > 0) by (nonlinear_arith)
        requires
            a <= b <= 11,
            c == 4096 * p,
            d == 12 * c,
            p > 0,
    ;
    let top = dyadic(3840);
    crate::single::lemma_round_at_most((a * c) * c, d, top);
    crate::single::lemma_round_at_most((b * c) * c, d, top);
    assert(((a * c) * c) * d <= ((b * c) * c) * d) by (nonlinear_arith)
        requires
            (a * c) * c <= (b * c) * c,
            d > 0,
    ;
    crate::single::lemma_round_monotone((a * c) * c, d, (b * c) * c, d);
    crate::single::lemma_units_monotone(probed(a), probed(b));
    crate::single::lemma_units_monotone(probed(b), top);
}

/// Within a phase the parts grow, from where it begins to no more than `top`.
proof fn lemma_phase_grows(base: Single, span: Single, b: nat, s: nat, x: nat, y: nat)
    requires
        sound(base),
        base.mag() > 0,
        base.mag() <= dyadic(16 * b).mag(),
        sound(span),
        span.mag() <= dyadic(16 * s).mag(),
        b <= 256,
        s <= 256,
        x <= y <= 11,
    ensures
        ({
            let at_x = base.plus(span.times(probed(x)));
            let at_y = base.plus(span.times(probed(y)));
            &&& sound(at_x)
            &&& sound(at_y)
            &&& base.mag() <= at_x.mag() <= at_y.mag() <= dyadic(16 * b + 15 * s).mag()
        }),
{
    reveal(Single::times_spec);
    reveal(Single::plus_spec);
    let c = pow2(149);
    let p = pow2(137);
    lemma_dyadic(16 * b);
    lemma_dyadic(16 * s);
    lemma_dyadic(15 * s);
    lemma_dyadic(16 * b + 15 * s);
    lemma_probed(x, y);
    crate::single::lemma_units_monotone(base, dyadic(16 * b));
    crate::single::lemma_units_monotone(span, dyadic(16 * s));
    let u = span.units();
    let fx = probed(x).units();
    let fy = probed(y).units();
    assert(u * fx <= u * fy && u * fy <= (15 * s * p) * c) by (nonlinear_arith)
        requires
            u <= 16 * s * p,
            fx <= fy <= 3840 * p,
            c == 4096 * p,
            p > 0,
    ;
    let top = dyadic(15 * s);
    crate::single::lemma_round_at_most(u * fx, c, top);
    crate::single::lemma_round_at_most(u * fy, c, top);
    assert((u * fx) * c <= (u * fy) * c) by (nonlinear_arith)
        requires
            u * fx <= u * fy,
            c > 0,
    ;
    crate::single::lemma_round_monotone(u * fx, c, u * fy, c);
    let gx = span.times(probed(x));
    let gy = span.times(probed(y));
    assert(sound(gx) && sound(gy));
    crate::single::lemma_units_monotone(gx, gy);
    crate::single::lemma_units_monotone(gy, top);
    let bu = base.units();
    let whole = dyadic(16 * b + 15 * s);
    assert(bu > 0) by {
        crate::single::lemma_units_positive(base);
    }
    assert(whole.units() == 16 * b * p + 15 * s * p) by (nonlinear_arith)
        requires
            whole.units() == (16 * b + 15 * s) * p,
    ;
    crate::single::lemma_round_self(base);
    crate::single::lemma_round_at_most(bu + gx.units(), 1, whole);
    crate::single::lemma_round_at_most(bu + gy.units(), 1, whole);
    crate::single::lemma_round_monotone(bu, 1, bu + gx.units(), 1);
    crate::single::lemma_round_monotone(bu + gx.units(), 1, bu + gy.units(), 1);
}

/// Bounds of a phase in parts of 4096: where it begins at the earliest, and where it ends at the
/// latest.
spec fn window(phase: AutoPhase) -> (nat, nat) {
    match phase {
        AutoPhase::Gamma => (327, 876),
        AutoPhase::Density => (901, 1377),
        AutoPhase::Grade => (1392, 1873),
        AutoPhase::Exposure => (1884, 2278),
        AutoPhase::Midtones => (2293, 2694),
        AutoPhase::Shadows => (2703, 3094),
        AutoPhase::DensityAgain => (3112, 3510),
        AutoPhase::Done => (3973, 3974),
        _ => (3604, 3605),
    }
}

/// The first bound in 256ths, of where a phase begins and of how much of the way it takes.
spec fn quarters(phase: AutoPhase) -> (nat, nat) {
    match phase {
        AutoPhase::Gamma => (21, 36),
        AutoPhase::Density => (57, 31),
        AutoPhase::Grade => (88, 31),
        AutoPhase::Exposure => (118, 26),
        AutoPhase::Midtones => (144, 26),
        AutoPhase::Shadows => (169, 26),
        _ => (195, 26),
    }
}

proof fn lemma_share(phase: AutoPhase)
    ensures
        ({
            let (base, span) = AutoTuner::share(phase);
            let (from, to) = window(phase);
            let (b, s) = quarters(phase);
            &&& sound(base)
            &&& dyadic(from).mag() <= base.mag()
            &&& base.mag() > 0
            &&& if phase.searches() {
                &&& base.mag() <= dyadic(16 * b).mag()
                &&& sound(span)
                &&& span.mag() <= dyadic(16 * s).mag()
                &&& 16 * b + 15 * s <= to
            } else {
                base.mag() <= dyadic(to).mag()
            }
        }),
{
    let (from, to) = window(phase);
    lemma_dyadic(from);
    crate::single::lemma_dyadic_exact(from, 137);
    match phase {
        AutoPhase::Gamma => {
            lemma_hundredths(8, 327, 336);
            lemma_hundredths(14, 0, 576);
        },
        AutoPhase::Density => {
            lemma_hundredths(22, 901, 912);
            lemma_hundredths(12, 0, 496);
        },
        AutoPhase::Grade => {
            lemma_hundredths(34, 1392, 1408);
            lemma_hundredths(12, 0, 496);
        },
        AutoPhase::Exposure => {
            lemma_hundredths(46, 1884, 1888);
            lemma_hundredths(10, 0, 416);
        },
        AutoPhase::Midtones => {
            lemma_hundredths(56, 2293, 2304);
            lemma_hundredths(10, 0, 416);
        },
        AutoPhase::Shadows => {
            lemma_hundredths(66, 2703, 2704);
            lemma_hundredths(10, 0, 416);
        },
        AutoPhase::DensityAgain => {
            lemma_hundredths(76, 3112, 3120);
            lemma_hundredths(10, 0, 416);
        },
        AutoPhase::Done => {
            lemma_hundredths(97, 3973, 3974);
        },
        _ => {
            lemma_hundredths(88, 3604, 3605);
        },
    }
}

/// A state of a search with probes to come lies in the window of its phase.
proof fn lemma_part(t: AutoTuner)
    requires
        t.wf(),
    ensures
        sound(t.part_done()),
        dyadic(window(t.phase).0).mag() <= t.part_done().mag() <= dyadic(window(t.phase).1).mag(),
{
    lemma_share(t.phase);
    if t.phase.searches() {
        let (base, span) = AutoTuner::share(t.phase);
        let (b, s) = quarters(t.phase);
        let d = t.search.done as nat;
        lemma_phase_grows(base, span, b, s, d, d);
        lemma_dyadic_order(16 * b + 15 * s, window(t.phase).1);
    }
}

/// A step of the search: the measures of a picture, or the chroma of its midtones.
pub open spec fn steps(t: AutoTuner, u: AutoTuner) -> bool {
    if t.phase is Chroma {
        exists|chroma: Single| u == #[trigger] t.with_chroma(chroma)
    } else {
        exists|m: HistMetrics| u == #[trigger] t.measured(m)
    }
}

/// What a step keeps and where it leads: to more probes of the same phase, or to the next one.
proof fn lemma_step_goes_on(t: AutoTuner, u: AutoTuner)
    requires
        t.wf(),
        steps(t, u),
    ensures
        u.wf(),
        u.phase == t.phase || u.phase == t.phase.next(),
        u.phase == t.phase && t.phase.searches() ==> u.search.done == t.search.done + 1,
        u.phase != t.phase && u.phase.searches() ==> u.search.done == 0,
        u.phase == t.phase ==> t.phase.searches() || t.phase is ClipSat || t.phase is Done,
{
}

proof fn lemma_parts_grow(t: AutoTuner, u: AutoTuner)
    requires
        t.wf(),
        steps(t, u),
    ensures
        t.part_done().at_most(u.part_done()),
{
    reveal(Single::at_most_spec);
    lemma_step_goes_on(t, u);
    lemma_part(t);
    lemma_part(u);
    if u.phase == t.phase {
        if t.phase.searches() {
            lemma_share(t.phase);
            let (base, span) = AutoTuner::share(t.phase);
            let (b, s) = quarters(t.phase);
            lemma_phase_grows(
                base,
                span,
                b,
                s,
                t.search.done as nat,
                u.search.done as nat,
            );
        }
    } else if !(t.phase is Chroma || t.phase is ClipBase) {
        lemma_dyadic_order(window(t.phase).1, window(u.phase).0);
    }
}

/// The states of a search, from its start on, each a step from the one before. Only the last may
/// be done.
pub open spec fn is_walk(states: Seq<AutoTuner>) -> bool {
    &&& states.len() > 0
    &&& states.first() == AutoTuner::start()
    &&& forall|i: int, j: int|
        0 <= i && j == i + 1 && j < states.len() ==> #[trigger] steps(states[i], states[j])
    &&& forall|i: int| 0 <= i < states.len() - 1 ==> !((#[trigger] states[i]).phase is Done)
}

/// A part of the way, from 0 to 1.
pub open spec fn is_part(a: Single) -> bool {
    Single::whole(0).at_most(a) && a.at_most(Single::whole(1))
}

/// A report up to report `i` logs this title.
pub open spec fn logged_by(s: Seq<AutoReport>, title: Seq<char>, i: int) -> bool {
    exists|k: int| 0 <= k <= i && k < s.len() && (#[trigger] s[k]).log == Some(title)
}

/// Reports come in order: the parts lie between 0 and 1 and never fall, what is logged is the
/// title, no title is logged twice, and each is logged before anything else is told of it.
pub open spec fn in_order(s: Seq<AutoReport>) -> bool {
    &&& forall|i: int| 0 <= i < s.len() ==> is_part((#[trigger] s[i]).part)
    &&& forall|i: int, j: int|
        0 <= i <= j < s.len() ==> (#[trigger] s[i]).part.at_most((#[trigger] s[j]).part)
    &&& forall|i: int|
        0 <= i < s.len() ==> ((#[trigger] s[i]).log is None || s[i].log == Some(s[i].title))
    &&& forall|i: int, j: int|
        0 <= i < j < s.len() && (#[trigger] s[i]).log is Some && (#[trigger] s[j]).log is Some
            ==> s[i].title != s[j].title
    &&& forall|i: int| 0 <= i < s.len() ==> #[trigger] logged_by(s, s[i].title, i)
}

proof fn lemma_is_part(t: AutoTuner)
    requires
        t.wf(),
    ensures
        is_part(t.part_done()),
{
    lemma_part(t);
    lemma_dyadic_order(window(t.phase).1, 4096);
    lemma_unit_is_dyadic();
}

proof fn lemma_unit_is_dyadic()
    ensures
        forall|a: Single| sound(a) && a.mag() <= dyadic(4096).mag() ==> #[trigger] is_part(a),
{
    reveal(Single::at_most_spec);
    reveal(Single::whole_spec);
    lemma_dyadic(4096);
    crate::single::lemma_whole_exact(1);
    crate::single::lemma_zero();
    crate::single::lemma_whole_exact(0);
    assert(1 * pow2(149) == 4096 * pow2(137));
}

/// A phase with a title of its own.
spec fn titled(q: AutoPhase) -> bool {
    !(q is ClipBase || q is ClipSat)
}

proof fn lemma_titles_differ(p: AutoPhase, q: AutoPhase)
    requires
        titled(p),
        titled(q),
    ensures
        p != q ==> AutoTuner::title_text(p) != AutoTuner::title_text(q),
        AutoTuner::title_text(p) != preparing(),
{
    reveal_strlit("Preparing analysis…");
    reveal_strlit("Finding optimal Film γ…");
    reveal_strlit("Adjusting density…");
    reveal_strlit("Setting paper grade…");
    reveal_strlit("Adjusting exposure…");
    reveal_strlit("Stretching midtones…");
    reveal_strlit("Refining shadows…");
    reveal_strlit("Refining density…");
    reveal_strlit("Adjusting saturation…");
    reveal_strlit("Applying settings…");
    assert("Finding optimal Film γ…"@.len() == 23);
    assert("Adjusting density…"@.len() == 18);
    assert("Setting paper grade…"@.len() == 20);
    assert("Adjusting exposure…"@.len() == 19);
    assert("Stretching midtones…"@.len() == 20);
    assert("Refining shadows…"@.len() == 17);
    assert("Refining density…"@.len() == 17);
    assert("Adjusting saturation…"@.len() == 21);
    assert("Applying settings…"@.len() == 18);
    assert("Setting paper grade…"@[1] != "Stretching midtones…"@[1]);
    assert("Refining shadows…"@[9] != "Refining density…"@[9]);
    assert("Adjusting density…"@[1] != "Applying settings…"@[1]);
    assert("Preparing analysis…"@[0] != "Adjusting exposure…"@[0]);
}

proof fn lemma_push(s: Seq<AutoReport>, r: AutoReport)
    requires
        s.len() > 0,
        in_order(s),
        is_part(r.part),
        s.last().part.at_most(r.part),
        r.log is None || r.log == Some(r.title),
        r.log is None ==> logged_by(s, r.title, s.len() - 1),
        r.log is Some ==> forall|i: int|
            0 <= i < s.len() && (#[trigger] s[i]).log is Some ==> s[i].title != r.title,
    ensures
        in_order(s.push(r)),
{
    reveal(Single::at_most_spec);
    let n = s.push(r);
    assert forall|i: int, j: int| 0 <= i <= j < n.len() implies (#[trigger] n[i]).part.at_most(
        (#[trigger] n[j]).part,
    ) by {
        if j == s.len() && i < j {
            assert(s[i].part.at_most(s[s.len() - 1].part));
        }
    }
    assert forall|i: int, j: int|
        0 <= i < j < n.len() && (#[trigger] n[i]).log is Some && (#[trigger] n[j]).log is Some
        implies n[i].title != n[j].title by {
        assert(n[i] == s[i]);
        if j < s.len() {
            assert(n[j] == s[j]);
        }
    }
    assert forall|i: int| 0 <= i < n.len() implies #[trigger] logged_by(n, n[i].title, i) by {
        if i < s.len() {
            assert(logged_by(s, s[i].title, i));
            let k = choose|k: int|
                0 <= k <= i && k < s.len() && (#[trigger] s[k]).log == Some(s[i].title);
            assert(n[k] == s[k]);
        } else if r.log is Some {
            assert(n[i].log == Some(r.title));
        } else {
            let k = choose|k: int|
                0 <= k <= s.len() - 1 && k < s.len() && (#[trigger] s[k]).log == Some(r.title);
            assert(n[k] == s[k]);
        }
    }
}

/// What is known of the reports when the search has come to `t`.
spec fn so_far(s: Seq<AutoReport>, t: AutoTuner) -> bool {
    &&& s.len() > 0
    &&& in_order(s)
    &&& s.last().part.at_most(t.part_done())
    &&& logged_by(s, AutoTuner::title_text(t.phase), s.len() - 1)
    &&& forall|i: int|
        0 <= i < s.len() && (#[trigger] s[i]).log is Some ==> s[i].title == preparing() || exists|
            q: AutoPhase,
        |
            titled(q) && s[i].title == #[trigger] AutoTuner::title_text(q)
                && crate::auto::phases_left(q) >= crate::auto::phases_left(t.phase)
}

proof fn lemma_start_told()
    ensures
        AutoTuner::start().wf(),
        so_far(reports_of(seq![AutoTuner::start()]), AutoTuner::start()),
{
    reveal(Single::at_most_spec);
    let t = AutoTuner::start();
    lemma_part(t);
    lemma_is_part(t);
    lemma_share(AutoPhase::Gamma);
    let base = Single::ratio(8, 100);
    let (b, s) = quarters(AutoPhase::Gamma);
    lemma_phase_grows(base, Single::ratio(14, 100), b, s, 0, 0);
    lemma_hundredths(2, 81, 82);
    lemma_dyadic_order(82, 327);
    lemma_dyadic_order(336, 4096);
    lemma_dyadic_order(82, 4096);
    lemma_unit_is_dyadic();
    lemma_hundredths(8, 327, 336);
    lemma_titles_differ(AutoPhase::Gamma, AutoPhase::Gamma);
    let one = opening();
    let first = said(preparing(), Single::ratio(2, 100), true);
    assert(one[0] == first);
    assert(in_order(one)) by {
        assert(one.len() == 1);
        assert(logged_by(one, one[0].title, 0));
    }
    let second = said(preparing(), base, false);
    assert(one.last() == first);
    assert(logged_by(one, preparing(), 0));
    lemma_push(one, second);
    let two = one.push(second);
    let third = told_of(t, true);
    assert(two.last() == second);
    lemma_push(two, third);
    let all = reports_of(seq![t]);
    assert(all =~= two.push(third));
    assert(all[2] == third);
    assert(logged_by(all, AutoTuner::title_text(t.phase), 2));
    assert forall|i: int| 0 <= i < all.len() && (#[trigger] all[i]).log is Some implies all[i].title
        == preparing() || exists|q: AutoPhase|
        titled(q) && all[i].title == #[trigger] AutoTuner::title_text(q)
            && crate::auto::phases_left(q) >= crate::auto::phases_left(t.phase) by {
        if i == 2 {
            assert(all[i].title == AutoTuner::title_text(AutoPhase::Gamma));
        }
    }
}

proof fn lemma_step_told(s: Seq<AutoReport>, t: AutoTuner, u: AutoTuner)
    requires
        t.wf(),
        !(t.phase is Done),
        steps(t, u),
        so_far(s, t),
    ensures
        so_far(s + told_between(t, u), u),
{
    reveal(Single::at_most_spec);
    lemma_step_goes_on(t, u);
    lemma_is_part(t);
    lemma_is_part(u);
    lemma_parts_grow(t, u);
    let probe = told_of(t, false);
    let a = if t.phase.searches() {
        s.push(probe)
    } else {
        s
    };
    if t.phase.searches() {
        lemma_push(s, probe);
        assert(a.last() == probe);
        let k = choose|k: int|
            0 <= k <= s.len() - 1 && k < s.len() && (#[trigger] s[k]).log == Some(
                AutoTuner::title_text(t.phase),
            );
        assert(a[k] == s[k]);
    }
    assert(so_far(a, t)) by {
        assert forall|i: int| 0 <= i < a.len() && (#[trigger] a[i]).log is Some implies a[i].title
            == preparing() || exists|q: AutoPhase|
            titled(q) && a[i].title == #[trigger] AutoTuner::title_text(q)
                && crate::auto::phases_left(q) >= crate::auto::phases_left(t.phase) by {
            assert(i < s.len());
            assert(a[i] == s[i]);
        }
    }
    if announces(u) {
        let fresh = told_of(u, true);
        assert forall|i: int| 0 <= i < a.len() && (#[trigger] a[i]).log is Some implies a[i].title
            != fresh.title by {
            lemma_titles_differ(u.phase, u.phase);
            if a[i].title != preparing() {
                let q = choose|q: AutoPhase|
                    titled(q) && a[i].title == #[trigger] AutoTuner::title_text(q)
                        && crate::auto::phases_left(q) >= crate::auto::phases_left(t.phase);
                lemma_titles_differ(q, u.phase);
            }
        }
        lemma_push(a, fresh);
        let n = a.push(fresh);
        assert(n =~= s + told_between(t, u));
        assert(n[a.len() as int] == fresh);
        assert(logged_by(n, AutoTuner::title_text(u.phase), n.len() - 1));
        assert forall|i: int| 0 <= i < n.len() && (#[trigger] n[i]).log is Some implies n[i].title
            == preparing() || exists|q: AutoPhase|
            titled(q) && n[i].title == #[trigger] AutoTuner::title_text(q)
                && crate::auto::phases_left(q) >= crate::auto::phases_left(u.phase) by {
            if i < a.len() {
                assert(n[i] == a[i]);
            } else {
                assert(n[i].title == AutoTuner::title_text(u.phase));
            }
        }
    } else {
        assert(a =~= s + told_between(t, u));
        assert(AutoTuner::title_text(u.phase) == AutoTuner::title_text(t.phase));
    }
}

proof fn lemma_walk_told(states: Seq<AutoTuner>)
    requires
        is_walk(states),
    ensures
        states.last().wf(),
        so_far(reports_of(states), states.last()),
    decreases states.len(),
{
    lemma_start_told();
    if states.len() == 1 {
        assert(states =~= seq![AutoTuner::start()]);
    } else {
        let before = states.drop_last();
        assert(is_walk(before)) by {
            assert forall|i: int, j: int|
                0 <= i && j == i + 1 && j < before.len() implies #[trigger] steps(
                before[i],
                before[j],
            ) by {
                assert(steps(states[i], states[j]));
            }
            assert forall|i: int| 0 <= i < before.len() - 1 implies !((
            #[trigger] before[i]).phase is Done) by {
                assert(states[i] == before[i]);
            }
        }
        lemma_walk_told(before);
        let n = states.len();
        assert(steps(states[n - 2], states[n - 1]));
        assert(!(states[n - 2].phase is Done));
        lemma_step_goes_on(before.last(), states.last());
        lemma_step_told(reports_of(before), before.last(), states.last());
        lemma_told_step(before, states.last());
        assert(before.push(states.last()) =~= states);
    }
}

/// The reports of a search come in order. They begin with the preparation and, once the search
/// is done, end with the settings being applied.
pub proof fn reports_come_in_order(states: Seq<AutoTuner>)
    requires
        is_walk(states),
    ensures
        in_order(reports_of(states)),
        reports_of(states).first() == said(preparing(), Single::ratio(2, 100), true),
        states.last().phase is Done ==> reports_of(states).last() == said(
            "Applying settings…"@,
            Single::ratio(97, 100),
            true,
        ),
{
    lemma_walk_told(states);
    let all = reports_of(states);
    assert(all[0] == opening()[0]);
    if states.last().phase is Done {
        let n = states.len();
        lemma_start_told();
        assert(n > 1);
        let between = told_between(states[n - 2], states.last());
        assert(told_by(states) == told_by(states.drop_last()) + between);
        assert(between.len() > 0 && between.last() == told_of(states.last(), true));
        assert(all.last() == between.last());
    }
}

} // verus!
