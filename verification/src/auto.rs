//! Automatic grade: searches film gamma, density, paper grade, toe and hardness on a rendered
//! proxy, then solves the saturation from the chroma of its midtones.
//!
//! An [`AutoTuner`] says with which settings the proxy is to be rendered next; whoever renders
//! it hands the measures back.

use vstd::prelude::*;
use crate::auto_report::AutoProgressCb;
use crate::film::{downsample_to_max_side, FilmImage};
use crate::geometry::scale_rect_to_size;
use crate::metrics::{metrics_from_rgb, midtone_chroma, solve_saturation, HistMetrics};
use crate::options::{PipelineOptions, Rect, ZoneRange};
use crate::search::Search;
use crate::single::Single;

verus! {

/// Longest side of the proxy.
pub const PROXY_MAX_SIDE: usize = 384;

/// Shortest side of a proxy that can be analysed.
pub const PROXY_MIN_SIDE: usize = 8;

/// Probes of the first and second row of each search.
pub const COARSE: usize = 7;

pub const REFINE: usize = 5;

/// Settings that the automatic grade writes.
#[derive(Debug, Clone, Copy, PartialEq, Eq, Structural)]
pub struct AutoTuneResult {
    pub film_gamma: Single,
    pub curve_offset: Single,
    pub curve_gamma: Single,
    pub toe_strength: Single,
    pub lut_in_mid: Single,
    pub highlight_rolloff: Single,
    pub saturation: Single,
    pub apply_lab: bool,
    pub lab_separation: Single,
    pub bujack_enabled: bool,
    pub highlight_warmth: Single,
}

impl AutoTuneResult {
    /// The settings with the grade written to them.
    pub open spec fn written(self, opts: PipelineOptions) -> PipelineOptions {
        PipelineOptions {
            film_gamma: self.film_gamma,
            curve_offset: self.curve_offset,
            curve_gamma: self.curve_gamma,
            toe_strength: self.toe_strength,
            lut_in_mid: self.lut_in_mid,
            highlight_rolloff: self.highlight_rolloff,
            saturation: self.saturation,
            apply_lab: self.apply_lab,
            lab_separation: self.lab_separation,
            bujack_enabled: self.bujack_enabled,
            highlight_warmth: self.highlight_warmth,
            ..opts
        }
    }

    /// Writes the grade, and nothing else.
    pub fn apply_to(&self, opts: &mut PipelineOptions)
        ensures
            *final(opts) == self.written(*old(opts)),
    {
        opts.film_gamma = self.film_gamma;
        opts.curve_offset = self.curve_offset;
        opts.curve_gamma = self.curve_gamma;
        opts.toe_strength = self.toe_strength;
        opts.lut_in_mid = self.lut_in_mid;
        opts.highlight_rolloff = self.highlight_rolloff;
        opts.saturation = self.saturation;
        opts.apply_lab = self.apply_lab;
        opts.lab_separation = self.lab_separation;
        opts.bujack_enabled = self.bujack_enabled;
        opts.highlight_warmth = self.highlight_warmth;
    }
}

/// What the search starts from.
pub open spec fn house_grade() -> AutoTuneResult {
    AutoTuneResult {
        film_gamma: Single::ratio(65, 100),
        curve_offset: Single::whole(0),
        curve_gamma: Single::ratio(25, 10),
        toe_strength: Single::whole(0),
        lut_in_mid: Single::whole(1),
        highlight_rolloff: Single::whole(0),
        saturation: Single::whole(1),
        apply_lab: true,
        lab_separation: Single::ratio(15, 10),
        bujack_enabled: false,
        highlight_warmth: Single::ratio(6, 10),
    }
}

fn house() -> (r: AutoTuneResult)
    ensures
        r == house_grade(),
{
    AutoTuneResult {
        film_gamma: Single::ratio(65, 100),
        curve_offset: Single::whole(0),
        curve_gamma: Single::ratio(25, 10),
        toe_strength: Single::whole(0),
        lut_in_mid: Single::whole(1),
        highlight_rolloff: Single::whole(0),
        saturation: Single::whole(1),
        apply_lab: true,
        lab_separation: Single::ratio(15, 10),
        bujack_enabled: false,
        highlight_warmth: Single::ratio(6, 10),
    }
}

/// The settings with every knob that the search owns put back to where it starts.
pub fn prepare_search_options(src: PipelineOptions) -> (r: PipelineOptions)
    ensures
        r == house_grade().written(src),
{
    let mut opts: PipelineOptions = src;
    house().apply_to(&mut opts);
    opts
}

/// Where the search stands.
#[derive(Debug, Clone, Copy, PartialEq, Eq, Structural)]
pub enum AutoPhase {
    Gamma,
    Density,
    Grade,
    Exposure,
    Midtones,
    Shadows,
    DensityAgain,
    /// The chroma of the midtones is to be measured.
    Chroma,
    /// The clipping without added saturation is to be measured.
    ClipBase,
    /// The clipping with the saturation is to be measured.
    ClipSat,
    Done,
}

impl AutoPhase {
    /// A knob is being searched.
    pub open spec fn searches_spec(self) -> bool {
        !(self is Chroma || self is ClipBase || self is ClipSat || self is Done)
    }

    #[verifier::when_used_as_spec(searches_spec)]
    pub fn searches(self) -> (r: bool)
        ensures
            r == self.searches_spec(),
    {
        match self {
            AutoPhase::Chroma | AutoPhase::ClipBase | AutoPhase::ClipSat | AutoPhase::Done => false,
            _ => true,
        }
    }

    /// The phase that comes next.
    pub open spec fn next_spec(self) -> AutoPhase {
        match self {
            AutoPhase::Gamma => AutoPhase::Density,
            AutoPhase::Density => AutoPhase::Grade,
            AutoPhase::Grade => AutoPhase::Exposure,
            AutoPhase::Exposure => AutoPhase::Midtones,
            AutoPhase::Midtones => AutoPhase::Shadows,
            AutoPhase::Shadows => AutoPhase::DensityAgain,
            AutoPhase::DensityAgain => AutoPhase::Chroma,
            AutoPhase::Chroma => AutoPhase::ClipBase,
            AutoPhase::ClipBase => AutoPhase::ClipSat,
            AutoPhase::ClipSat => AutoPhase::Done,
            AutoPhase::Done => AutoPhase::Done,
        }
    }

    #[verifier::when_used_as_spec(next_spec)]
    pub fn next(self) -> (r: AutoPhase)
        ensures
            r == self.next_spec(),
    {
        match self {
            AutoPhase::Gamma => AutoPhase::Density,
            AutoPhase::Density => AutoPhase::Grade,
            AutoPhase::Grade => AutoPhase::Exposure,
            AutoPhase::Exposure => AutoPhase::Midtones,
            AutoPhase::Midtones => AutoPhase::Shadows,
            AutoPhase::Shadows => AutoPhase::DensityAgain,
            AutoPhase::DensityAgain => AutoPhase::Chroma,
            AutoPhase::Chroma => AutoPhase::ClipBase,
            AutoPhase::ClipBase => AutoPhase::ClipSat,
            AutoPhase::ClipSat => AutoPhase::Done,
            AutoPhase::Done => AutoPhase::Done,
        }
    }

    /// The range of the knob that is searched.
    pub open spec fn range_spec(self) -> (Single, Single) {
        match self {
            AutoPhase::Gamma => (Single::ratio(55, 100), Single::ratio(75, 100)),
            AutoPhase::Density | AutoPhase::DensityAgain => (
                Single::ratio(12, 100).neg(),
                Single::ratio(12, 100),
            ),
            AutoPhase::Grade => (Single::ratio(80, 100), Single::ratio(125, 100)),
            AutoPhase::Exposure | AutoPhase::Shadows => (
                Single::ratio(50, 100).neg(),
                Single::ratio(50, 100),
            ),
            _ => (Single::whole(1), Single::ratio(135, 100)),
        }
    }

    #[verifier::when_used_as_spec(range_spec)]
    pub fn range(self) -> (r: (Single, Single))
        ensures
            r == self.range_spec(),
    {
        match self {
            AutoPhase::Gamma => (Single::ratio(55, 100), Single::ratio(75, 100)),
            AutoPhase::Density | AutoPhase::DensityAgain => (
                Single::ratio(12, 100).neg(),
                Single::ratio(12, 100),
            ),
            AutoPhase::Grade => (Single::ratio(80, 100), Single::ratio(125, 100)),
            AutoPhase::Exposure | AutoPhase::Shadows => (
                Single::ratio(50, 100).neg(),
                Single::ratio(50, 100),
            ),
            _ => (Single::whole(1), Single::ratio(135, 100)),
        }
    }

    /// What the measures count for in this phase; the lower, the better.
    pub open spec fn score_spec(self, m: HistMetrics) -> Single {
        match self {
            AutoPhase::Grade => m.grade_score(),
            AutoPhase::Exposure | AutoPhase::Shadows => m.toe_score(),
            AutoPhase::Midtones => m.hardness_score(),
            _ => m.gamma_score(),
        }
    }

    #[verifier::when_used_as_spec(score_spec)]
    pub fn score(self, m: HistMetrics) -> (r: Single)
        ensures
            r == self.score_spec(m),
    {
        match self {
            AutoPhase::Grade => m.grade_score(),
            AutoPhase::Exposure | AutoPhase::Shadows => m.toe_score(),
            AutoPhase::Midtones => m.hardness_score(),
            _ => m.gamma_score(),
        }
    }
}

/// The knobs that are searched.
#[derive(Debug, Clone, Copy, PartialEq, Eq, Structural)]
pub struct AutoKnobs {
    pub film_gamma: Single,
    pub curve_offset: Single,
    pub curve_gamma: Single,
    pub toe_strength: Single,
    pub lut_in_mid: Single,
    pub saturation: Single,
}

impl AutoKnobs {
    pub open spec fn tried_spec(self, phase: AutoPhase, x: Single) -> AutoKnobs {
        match phase {
            AutoPhase::Gamma => AutoKnobs { film_gamma: x, ..self },
            AutoPhase::Density | AutoPhase::DensityAgain => AutoKnobs { curve_offset: x, ..self },
            AutoPhase::Grade => AutoKnobs {
                curve_gamma: Single::ratio(25, 10).times(x),
                ..self
            },
            AutoPhase::Exposure | AutoPhase::Shadows => AutoKnobs { toe_strength: x, ..self },
            AutoPhase::Midtones => AutoKnobs { lut_in_mid: x, ..self },
            _ => self,
        }
    }

    /// The knobs with the searched one at `x`.
    #[verifier::when_used_as_spec(tried_spec)]
    pub fn tried(self, phase: AutoPhase, x: Single) -> (r: AutoKnobs)
        ensures
            r == self.tried_spec(phase, x),
    {
        let mut k: AutoKnobs = self;
        match phase {
            AutoPhase::Gamma => {
                k.film_gamma = x;
            },
            AutoPhase::Density | AutoPhase::DensityAgain => {
                k.curve_offset = x;
            },
            AutoPhase::Grade => {
                k.curve_gamma = Single::ratio(25, 10).times(x);
            },
            AutoPhase::Exposure | AutoPhase::Shadows => {
                k.toe_strength = x;
            },
            AutoPhase::Midtones => {
                k.lut_in_mid = x;
            },
            _ => {},
        }
        k
    }

    /// The knobs with the searched one at the best value found, kept in its range.
    pub open spec fn settled_spec(self, phase: AutoPhase, best: Single) -> AutoKnobs {
        let x = best.clamp(phase.range().0, phase.range().1);
        match phase {
            AutoPhase::Grade => AutoKnobs {
                curve_gamma: Single::ratio(25, 10).times(x).clamp(
                    Single::whole(2),
                    Single::ratio(3125, 1000),
                ),
                ..self
            },
            _ => self.tried(phase, x),
        }
    }

    #[verifier::when_used_as_spec(settled_spec)]
    pub fn settled(self, phase: AutoPhase, best: Single) -> (r: AutoKnobs)
        ensures
            r == self.settled_spec(phase, best),
    {
        let (lo, hi) = phase.range();
        let x: Single = best.clamp(lo, hi);
        match phase {
            AutoPhase::Grade => {
                let mut k: AutoKnobs = self;
                k.curve_gamma = Single::ratio(25, 10).times(x).clamp(
                    Single::whole(2),
                    Single::ratio(3125, 1000),
                );
                k
            },
            _ => self.tried(phase, x),
        }
    }

    /// Sets the knobs for one rendering.
    pub fn set_on(&self, opts: &mut PipelineOptions)
        ensures
            *final(opts) == (PipelineOptions {
                film_gamma: self.film_gamma,
                curve_offset: self.curve_offset,
                curve_gamma: self.curve_gamma,
                toe_strength: self.toe_strength,
                lut_in_mid: self.lut_in_mid,
                saturation: self.saturation,
                ..*old(opts)
            }),
    {
        opts.film_gamma = self.film_gamma;
        opts.curve_offset = self.curve_offset;
        opts.curve_gamma = self.curve_gamma;
        opts.toe_strength = self.toe_strength;
        opts.lut_in_mid = self.lut_in_mid;
        opts.saturation = self.saturation;
    }
}

/// The search for a grade.
#[derive(Debug, Clone, Copy, PartialEq, Eq, Structural)]
pub struct AutoTuner {
    pub phase: AutoPhase,
    /// The knobs with which the proxy is to be rendered next.
    pub knobs: AutoKnobs,
    pub search: Search,
    /// The saturation that was solved, as far as it has been eased.
    pub sat: Single,
    pub clip_base: Single,
}

/// Saturation is eased no further once it is this near its least value.
pub open spec fn sat_floor() -> Single {
    Single::ratio(90, 100).plus(Single::ratio(2, 100))
}

impl AutoTuner {
    /// A search has the probes that it should have, and is not over.
    pub open spec fn wf(self) -> bool {
        self.phase.searches() ==> self.search.coarse == COARSE && self.search.refine == REFINE
            && !self.search.finished()
    }

    /// The search as it enters a phase.
    pub open spec fn entered(self, phase: AutoPhase, knobs: AutoKnobs) -> AutoTuner {
        let search = Search::start(phase.range().0, phase.range().1, COARSE, REFINE);
        if phase.searches() {
            AutoTuner { phase, knobs: knobs.tried(phase, search.probe()), search, ..self }
        } else {
            AutoTuner { phase, knobs: AutoKnobs { saturation: Single::whole(1), ..knobs }, ..self }
        }
    }

    fn enter(self, phase: AutoPhase, knobs: AutoKnobs) -> (r: AutoTuner)
        ensures
            r == self.entered(phase, knobs),
            r.wf(),
    {
        let mut t: AutoTuner = self;
        t.phase = phase;
        if phase.searches() {
            let (lo, hi) = phase.range();
            t.search = Search::start(lo, hi, COARSE, REFINE);
            t.knobs = knobs.tried(phase, t.search.probe());
        } else {
            t.knobs = knobs;
            t.knobs.saturation = Single::whole(1);
        }
        t
    }

    /// The search before anything was measured.
    pub open spec fn start_spec() -> AutoTuner {
        let house = house_grade();
        let knobs = AutoKnobs {
            film_gamma: house.film_gamma,
            curve_offset: house.curve_offset,
            curve_gamma: house.curve_gamma,
            toe_strength: house.toe_strength,
            lut_in_mid: house.lut_in_mid,
            saturation: house.saturation,
        };
        (AutoTuner {
            phase: AutoPhase::Gamma,
            knobs,
            search: Search::start(Single::whole(0), Single::whole(0), 0, 0),
            sat: Single::whole(1),
            clip_base: Single::whole(0),
        }).entered(AutoPhase::Gamma, knobs)
    }

    /// Begins a search.
    #[verifier::when_used_as_spec(start_spec)]
    pub fn start() -> (r: AutoTuner)
        ensures
            r == AutoTuner::start_spec(),
            r.wf(),
    {
        let house: AutoTuneResult = house();
        let knobs: AutoKnobs = AutoKnobs {
            film_gamma: house.film_gamma,
            curve_offset: house.curve_offset,
            curve_gamma: house.curve_gamma,
            toe_strength: house.toe_strength,
            lut_in_mid: house.lut_in_mid,
            saturation: house.saturation,
        };
        (AutoTuner {
            phase: AutoPhase::Gamma,
            knobs,
            search: Search::start(Single::whole(0), Single::whole(0), 0, 0),
            sat: Single::whole(1),
            clip_base: Single::whole(0),
        }).enter(AutoPhase::Gamma, knobs)
    }

    /// The saturation clips more than it may, and can still be eased.
    pub open spec fn clips(self, m: HistMetrics) -> bool {
        sat_floor().less(self.sat) && self.clip_base.plus(Single::ratio(5, 10_000)).less(m.clip_hi)
    }

    /// The next lower saturation.
    pub open spec fn eased(self) -> Single {
        self.sat.minus(Single::ratio(5, 100)).larger(Single::ratio(90, 100))
    }

    /// The search after the proxy was measured.
    pub open spec fn measured(self, m: HistMetrics) -> AutoTuner {
        if self.phase.searches() {
            let search = self.search.scored(self.phase.score(m));
            if search.finished() {
                (AutoTuner { search, ..self }).entered(
                    self.phase.next(),
                    self.knobs.settled(self.phase, search.best),
                )
            } else {
                AutoTuner { search, knobs: self.knobs.tried(self.phase, search.probe()), ..self }
            }
        } else if self.phase is ClipBase {
            AutoTuner {
                phase: AutoPhase::ClipSat,
                clip_base: m.clip_hi,
                knobs: AutoKnobs { saturation: self.sat, ..self.knobs },
                ..self
            }
        } else if self.phase is ClipSat {
            if self.clips(m) {
                AutoTuner {
                    sat: self.eased(),
                    knobs: AutoKnobs { saturation: self.eased(), ..self.knobs },
                    ..self
                }
            } else {
                AutoTuner { phase: AutoPhase::Done, ..self }
            }
        } else {
            self
        }
    }

    /// Takes the measures of the proxy, rendered with the current knobs.
    pub fn take_metrics(&mut self, m: HistMetrics)
        requires
            old(self).wf(),
        ensures
            *final(self) == old(self).measured(m),
            final(self).wf(),
    {
        if self.phase.searches() {
            self.search.record(self.phase.score(m));
            if self.search.finished() {
                let knobs: AutoKnobs = self.knobs.settled(self.phase, self.search.best);
                *self = self.enter(self.phase.next(), knobs);
            } else {
                self.knobs = self.knobs.tried(self.phase, self.search.probe());
            }
            return;
        }
        match self.phase {
            AutoPhase::ClipBase => {
                self.clip_base = m.clip_hi;
                self.knobs.saturation = self.sat;
                self.phase = AutoPhase::ClipSat;
            },
            AutoPhase::ClipSat => {
                let floor: Single = Single::ratio(90, 100).plus(Single::ratio(2, 100));
                if floor.less(self.sat) && self.clip_base.plus(Single::ratio(5, 10_000)).less(
                    m.clip_hi,
                ) {
                    self.sat = self.sat.minus(Single::ratio(5, 100)).larger(Single::ratio(90, 100));
                    self.knobs.saturation = self.sat;
                } else {
                    self.phase = AutoPhase::Done;
                }
            },
            _ => {},
        }
    }

    /// Takes the chroma of the midtones, measured with the current knobs.
    pub fn take_chroma(&mut self, chroma: Single)
        requires
            old(self).phase is Chroma,
        ensures
            *final(self) == old(self).with_chroma(chroma),
            final(self).wf(),
    {
        self.sat = solve_saturation(chroma, Single::ratio(10, 100));
        self.phase = AutoPhase::ClipBase;
    }

    /// The grade that was found.
    pub fn result(&self) -> (r: AutoTuneResult)
        requires
            self.phase is Done,
        ensures
            r == self.grade(),
    {
        let mut r: AutoTuneResult = house();
        r.film_gamma = self.knobs.film_gamma;
        r.curve_offset = self.knobs.curve_offset;
        r.curve_gamma = self.knobs.curve_gamma;
        r.toe_strength = self.knobs.toe_strength;
        r.lut_in_mid = self.knobs.lut_in_mid;
        r.saturation = self.knobs.saturation;
        r
    }

    /// Where a phase begins on the way from 0 to 1, and how much of it it takes.
    pub open spec fn share(phase: AutoPhase) -> (Single, Single) {
        match phase {
            AutoPhase::Gamma => (Single::ratio(8, 100), Single::ratio(14, 100)),
            AutoPhase::Density => (Single::ratio(22, 100), Single::ratio(12, 100)),
            AutoPhase::Grade => (Single::ratio(34, 100), Single::ratio(12, 100)),
            AutoPhase::Exposure => (Single::ratio(46, 100), Single::ratio(10, 100)),
            AutoPhase::Midtones => (Single::ratio(56, 100), Single::ratio(10, 100)),
            AutoPhase::Shadows => (Single::ratio(66, 100), Single::ratio(10, 100)),
            AutoPhase::DensityAgain => (Single::ratio(76, 100), Single::ratio(10, 100)),
            AutoPhase::Done => (Single::ratio(97, 100), Single::whole(0)),
            _ => (Single::ratio(88, 100), Single::whole(0)),
        }
    }

    /// How far the search has come, from 0 to 1.
    pub open spec fn part_done(self) -> Single {
        let (base, span) = AutoTuner::share(self.phase);
        if self.phase.searches() {
            base.plus(
                span.times(
                    Single::whole(self.search.done as u64).over(
                        Single::whole((COARSE + REFINE) as u64),
                    ),
                ),
            )
        } else {
            base
        }
    }

    /// How far the search has come, from 0 to 1.
    pub fn progress(&self) -> (r: Single)
        ensures
            r == self.part_done(),
    {
        let (base, span) = match self.phase {
            AutoPhase::Gamma => (Single::ratio(8, 100), Single::ratio(14, 100)),
            AutoPhase::Density => (Single::ratio(22, 100), Single::ratio(12, 100)),
            AutoPhase::Grade => (Single::ratio(34, 100), Single::ratio(12, 100)),
            AutoPhase::Exposure => (Single::ratio(46, 100), Single::ratio(10, 100)),
            AutoPhase::Midtones => (Single::ratio(56, 100), Single::ratio(10, 100)),
            AutoPhase::Shadows => (Single::ratio(66, 100), Single::ratio(10, 100)),
            AutoPhase::DensityAgain => (Single::ratio(76, 100), Single::ratio(10, 100)),
            AutoPhase::Done => (Single::ratio(97, 100), Single::whole(0)),
            _ => (Single::ratio(88, 100), Single::whole(0)),
        };
        if self.phase.searches() {
            base.plus(
                span.times(
                    Single::whole(self.search.done as u64).over(
                        Single::whole((COARSE + REFINE) as u64),
                    ),
                ),
            )
        } else {
            base
        }
    }

    /// What is being done, in words.
    pub open spec fn title_text(phase: AutoPhase) -> Seq<char> {
        match phase {
            AutoPhase::Gamma => "Finding optimal Film γ…"@,
            AutoPhase::Density => "Adjusting density…"@,
            AutoPhase::Grade => "Setting paper grade…"@,
            AutoPhase::Exposure => "Adjusting exposure…"@,
            AutoPhase::Midtones => "Stretching midtones…"@,
            AutoPhase::Shadows => "Refining shadows…"@,
            AutoPhase::DensityAgain => "Refining density…"@,
            AutoPhase::Done => "Applying settings…"@,
            _ => "Adjusting saturation…"@,
        }
    }

    /// Title of the current phase.
    pub fn title(&self) -> (r: &'static str)
        ensures
            r@ == AutoTuner::title_text(self.phase),
    {
        match self.phase {
            AutoPhase::Gamma => "Finding optimal Film γ…",
            AutoPhase::Density => "Adjusting density…",
            AutoPhase::Grade => "Setting paper grade…",
            AutoPhase::Exposure => "Adjusting exposure…",
            AutoPhase::Midtones => "Stretching midtones…",
            AutoPhase::Shadows => "Refining shadows…",
            AutoPhase::DensityAgain => "Refining density…",
            AutoPhase::Done => "Applying settings…",
            _ => "Adjusting saturation…",
        }
    }
}

/// The part of an image that a crop keeps: columns `x0..x1` of rows `y0..y1`.
#[derive(Debug, Clone, Copy, PartialEq, Eq, Structural)]
pub struct Kept {
    pub x0: usize,
    pub x1: usize,
    pub y0: usize,
    pub y1: usize,
}

/// First pixel of a crop along a side of `n`.
pub open spec fn crop_start(at: u32, n: usize) -> usize {
    if n == 0 {
        0
    } else if at >= n {
        (n - 1) as usize
    } else {
        at as usize
    }
}

/// End of a crop along a side of `n`, at least one after its first pixel.
pub open spec fn crop_end(at: u32, len: u32, n: usize) -> usize {
    let end = if at + len < n {
        at + len
    } else {
        n as int
    };
    if end > crop_start(at, n) {
        end as usize
    } else {
        (crop_start(at, n) + 1) as usize
    }
}

/// What the crop keeps of an image of `w` by `h` pixels.
pub open spec fn kept(rect: Rect, w: usize, h: usize) -> Kept {
    Kept {
        x0: crop_start(rect.x, w),
        x1: crop_end(rect.x, rect.width, w),
        y0: crop_start(rect.y, h),
        y1: crop_end(rect.y, rect.height, h),
    }
}

/// The crop is large enough to be cut: more than four pixels each way.
pub open spec fn worth_cutting(k: Kept) -> bool {
    k.x1 > k.x0 + 4 && k.y1 > k.y0 + 4
}

fn span_kept(at: u32, len: u32, n: usize) -> (r: (usize, usize))
    ensures
        r.0 == crop_start(at, n),
        r.1 == crop_end(at, len, n),
        r.1 > r.0 + 4 ==> r.1 <= n,
{
    let start: usize = if n == 0 {
        0
    } else if at as usize >= n {
        n - 1
    } else {
        at as usize
    };
    let sum: u64 = at as u64 + len as u64;
    let end: usize = if sum < n as u64 {
        sum as usize
    } else {
        n
    };
    if end > start {
        (start, end)
    } else {
        (start, start + 1)
    }
}

/// Row `y` of what was cut is the part from `x0` on of row `y0 + y`.
pub open spec fn is_cut(out: Seq<Single>, image: FilmImage, k: Kept) -> bool {
    let len = (k.x1 - k.x0) * image.channels;
    &&& out.len() == (k.y1 - k.y0) * len
    &&& forall|y: int, j: int|
        0 <= y < k.y1 - k.y0 && 0 <= j < len ==> #[trigger] out[y * len + j]
            == image.samples@[((k.y0 + y) * image.width + k.x0) * image.channels + j]
}

/// Cuts an image to a crop in its own pixels; the whole image where there is no crop, or one
/// that leaves hardly anything.
pub fn crop_to_rect(image: &FilmImage, crop: Option<Rect>) -> (r: FilmImage)
    requires
        image.wf(),
        image.channels >= 1,
    ensures
        r.wf(),
        r.channels == image.channels,
        ({
            let whole = r.width == image.width && r.height == image.height && r.samples@
                == image.samples@;
            match crop {
                None => whole,
                Some(rect) => {
                    let k = kept(rect, image.width, image.height);
                    if worth_cutting(k) {
                        &&& r.width == k.x1 - k.x0
                        &&& r.height == k.y1 - k.y0
                        &&& is_cut(r.samples@, *image, k)
                    } else {
                        whole
                    }
                },
            }
        }),
{
    let rect: Rect = match crop {
        None => {
            return whole_image(image);
        },
        Some(rect) => rect,
    };
    let (x0, x1) = span_kept(rect.x, rect.width, image.width);
    let (y0, y1) = span_kept(rect.y, rect.height, image.height);
    if x1 - x0 <= 4 || y1 - y0 <= 4 {
        return whole_image(image);
    }
    let ghost k = kept(rect, image.width, image.height);
    let w: usize = image.width;
    let c: usize = image.channels;
    let nw: usize = x1 - x0;
    proof {
        lemma_cut_row(image.width as int, image.height as int, c as int, x0 as int, nw as int, 0);
    }
    let len: usize = nw * c;
    let mut out: Vec<Single> = Vec::new();
    let mut y: usize = y0;
    while y < y1
        invariant
            image.wf(),
            w == image.width,
            c == image.channels,
            c >= 1,
            k == (Kept { x0, x1, y0, y1 }),
            x0 < x1 <= w,
            y0 <= y <= y1 <= image.height,
            nw == x1 - x0,
            len == nw * c,
            out.len() == (y - y0) * len,
            forall|r: int, j: int|
                0 <= r < y - y0 && 0 <= j < len ==> #[trigger] out@[r * len + j]
                    == image.samples@[((y0 + r) * w + x0) * c + j],
        decreases y1 - y,
    {
        proof {
            lemma_cut_row(
                image.width as int,
                image.height as int,
                c as int,
                x0 as int,
                nw as int,
                y as int,
            );
        }
        let start: usize = (y * w + x0) * c;
        let ghost before = out@;
        let mut j: usize = 0;
        while j < len
            invariant
                image.wf(),
                c == image.channels,
                j <= len,
                start == (y * w + x0) * c,
                start + len <= image.samples.len(),
                before.len() == (y - y0) * len,
                out@.len() == before.len() + j,
                forall|i: int| 0 <= i < before.len() ==> #[trigger] out@[i] == before[i],
                forall|i: int|
                    0 <= i < j ==> #[trigger] out@[before.len() + i] == image.samples@[start + i],
            decreases len - j,
        {
            out.push(image.samples[start + j]);
            j = j + 1;
        }
        proof {
            let n = y - y0;
            assert((n + 1) * len == n * len + len) by (nonlinear_arith);
            assert forall|r: int, j: int|
                0 <= r < n + 1 && 0 <= j < len implies #[trigger] out@[r * len + j]
                == image.samples@[((y0 + r) * w + x0) * c + j] by {
                assert(r < n ==> r * len + j < n * len) by (nonlinear_arith)
                    requires
                        0 <= j < len,
                        r <= n,
                ;
                assert(0 <= r * len) by (nonlinear_arith)
                    requires
                        0 <= r,
                        0 <= len,
                ;
                if r < n {
                    assert(before[r * len + j] == image.samples@[((y0 + r) * w + x0) * c + j]);
                } else {
                    assert(out@[before.len() + j] == image.samples@[start + j]);
                }
            }
        }
        y = y + 1;
    }
    proof {
        let nh = y1 - y0;
        assert(nw * nh * c == nh * (nw * c)) by (nonlinear_arith);
    }
    FilmImage { width: nw, height: y1 - y0, channels: c, samples: out }
}

/// A row of the crop lies in the image.
proof fn lemma_cut_row(w: int, h: int, c: int, x0: int, nw: int, y: int)
    requires
        0 <= x0,
        0 < nw,
        x0 + nw <= w,
        0 <= y < h,
        1 <= c,
    ensures
        w * h <= w * h * c,
        0 <= nw * c <= w * h * c,
        0 <= y * w,
        y * w <= w * h,
        0 <= (y * w + x0) * c,
        y * w + x0 <= w * h,
        (y * w + x0) * c + nw * c <= w * h * c,
{
    assert(0 <= y * w && y * w + x0 + nw <= w * h && nw <= w * h) by (nonlinear_arith)
        requires
            0 <= x0,
            0 < nw,
            x0 + nw <= w,
            0 <= y < h,
    ;
    let a = y * w + x0;
    let b = w * h;
    assert(0 <= nw * c <= b * c && 0 <= a * c && a * c + nw * c <= b * c && b <= b * c)
        by (nonlinear_arith)
        requires
            0 <= a,
            a + nw <= b,
            0 < nw <= b,
            1 <= c,
    ;
}

fn whole_image(image: &FilmImage) -> (r: FilmImage)
    requires
        image.wf(),
    ensures
        r.wf(),
        r.width == image.width,
        r.height == image.height,
        r.channels == image.channels,
        r.samples@ == image.samples@,
{
    let mut out: Vec<Single> = Vec::new();
    let mut i: usize = 0;
    while i < image.samples.len()
        invariant
            i <= image.samples.len(),
            out@ == image.samples@.take(i as int),
        decreases image.samples.len() - i,
    {
        out.push(image.samples[i]);
        assert(image.samples@.take(i + 1) =~= image.samples@.take(i as int).push(
            image.samples@[i as int],
        ));
        i = i + 1;
    }
    assert(image.samples@.take(image.samples.len() as int) =~= image.samples@);
    FilmImage {
        width: image.width,
        height: image.height,
        channels: image.channels,
        samples: out,
    }
}

/// Why no grade is searched.
#[derive(Debug, Clone, Copy, PartialEq, Eq, Structural)]
pub enum AutoError {
    TooSmall,
}

impl AutoError {
    /// The error in words.
    pub fn message(&self) -> (r: &'static str)
        ensures
            r@ == "Auto: image is too small to analyse"@,
    {
        "Auto: image is too small to analyse"
    }
}

/// Images of the same size with the same samples.
pub open spec fn same_image(p: FilmImage, q: FilmImage) -> bool {
    p.width == q.width && p.height == q.height && p.channels == q.channels && p.samples@
        == q.samples@
}

/// `r` is `image` brought down to the size of a proxy.
pub open spec fn is_proxy(r: FilmImage, image: FilmImage) -> bool {
    if crate::film::reduced(image, PROXY_MAX_SIDE as int) {
        let long = crate::film::longer_side(image);
        &&& r.channels == 3
        &&& r.width == crate::film::proxy_side(image.width as int, long, PROXY_MAX_SIDE as int)
        &&& r.height == crate::film::proxy_side(image.height as int, long, PROXY_MAX_SIDE as int)
        &&& r.samples@ == crate::film::proxy_samples(image, PROXY_MAX_SIDE as int)
    } else {
        same_image(r, image)
    }
}

/// `cut` is what the crop leaves of `image`: all of it without a crop, or where the crop is not
/// [`worth_cutting`].
pub open spec fn is_cut_of(cut: FilmImage, image: FilmImage, crop: Option<Rect>) -> bool {
    &&& cut.channels == image.channels
    &&& match crop {
        Some(rect) if worth_cutting(kept(rect, image.width, image.height)) => {
            let k = kept(rect, image.width, image.height);
            &&& cut.width == k.x1 - k.x0
            &&& cut.height == k.y1 - k.y0
            &&& is_cut(cut.samples@, image, k)
        },
        _ => cut.width == image.width && cut.height == image.height && cut.samples@
            == image.samples@,
    }
}

/// `proxy` is what a grade is searched on: the crop of `image`, brought down in size.
pub open spec fn is_analysed(proxy: FilmImage, image: FilmImage, crop: Option<Rect>) -> bool {
    exists|cut: FilmImage| #[trigger] is_proxy(proxy, cut) && is_cut_of(cut, image, crop)
}

/// A proxy can be analysed: it is large enough, and has three channels.
pub open spec fn large_enough(proxy: FilmImage) -> bool {
    proxy.width >= PROXY_MIN_SIDE && proxy.height >= PROXY_MIN_SIDE && proxy.channels == 3
}

/// What is analysed of an image of `w` by `h` pixels: its crop, where one is applied.
pub open spec fn crop_in(options: PipelineOptions, w: u32, h: u32) -> Option<Rect> {
    match options.crop_rect {
        Some(rect) if options.apply_crop => Some(
            crate::geometry::scaled_rect(rect, options.crop_rect_reference_size, w, h),
        ),
        _ => None,
    }
}

/// The crop that is analysed of an image, in its own pixels.
pub fn analysed_crop(options: &PipelineOptions, w: u32, h: u32) -> (r: Option<Rect>)
    ensures
        r == crop_in(*options, w, h),
{
    match options.crop_rect {
        Some(rect) => if options.apply_crop {
            Some(scale_rect_to_size(rect, options.crop_rect_reference_size, w, h))
        } else {
            None
        },
        None => None,
    }
}

/// The proxy on which a grade is searched: the crop of a transmittance image, brought down in
/// size. An error where that is too small or has not three channels; an image with fewer never
/// makes a proxy.
pub fn analysis_proxy(image: &FilmImage, crop: Option<Rect>) -> (r: Result<FilmImage, AutoError>)
    requires
        image.wf(),
        image.width * PROXY_MAX_SIDE <= usize::MAX,
        image.height * PROXY_MAX_SIDE <= usize::MAX,
    ensures
        image.channels < 3 ==> r == Err::<FilmImage, AutoError>(AutoError::TooSmall),
        image.channels >= 3 ==> exists|proxy: FilmImage| #[trigger]
            is_analysed(proxy, *image, crop) && match r {
                Ok(p) => p == proxy && large_enough(proxy) && proxy.wf(),
                Err(e) => e == AutoError::TooSmall && !large_enough(proxy),
            },
{
    if image.channels < 3 {
        return Err(AutoError::TooSmall);
    }
    let cut: FilmImage = crop_to_rect(image, crop);
    proof {
        if let Some(rect) = crop {
            let k = kept(rect, image.width, image.height);
            assert(cut.width <= image.width || !worth_cutting(k));
        }
        assert(cut.width * PROXY_MAX_SIDE <= image.width * PROXY_MAX_SIDE) by (nonlinear_arith)
            requires
                cut.width <= image.width,
        ;
        assert(cut.height * PROXY_MAX_SIDE <= image.height * PROXY_MAX_SIDE) by (nonlinear_arith)
            requires
                cut.height <= image.height,
        ;
    }
    let proxy: FilmImage = downsample_to_max_side(&cut, PROXY_MAX_SIDE);
    assert(is_proxy(proxy, cut) && is_cut_of(cut, *image, crop));
    assert(is_analysed(proxy, *image, crop));
    if proxy.width < PROXY_MIN_SIDE || proxy.height < PROXY_MIN_SIDE || proxy.channels != 3 {
        return Err(AutoError::TooSmall);
    }
    Ok(proxy)
}

/// A power of two as a number.
proof fn lemma_power(field: nat)
    requires
        1 <= field < 255,
    ensures
        ({
            let a = Single { bits: (field * 0x80_0000) as u32 };
            &&& a.finite() && !a.negative() && a.mag() == field * 0x80_0000
            &&& a.units() == vstd::arithmetic::power2::pow2(field + 22)
        }),
{
    let a = Single { bits: (field * 0x80_0000) as u32 };
    assert(a.mag() == field * 0x80_0000);
    assert(a.exp() == field - 1 && a.mant() == 0x80_0000);
    vstd::arithmetic::power2::lemma2_to64();
    vstd::arithmetic::power2::lemma_pow2_adds(23, (field - 1) as nat);
}

proof fn lemma_highest()
    ensures
        Single::ratio(135, 100).finite(),
        !Single::ratio(135, 100).negative(),
        0x3f80_0000 <= Single::ratio(135, 100).mag() <= 0x3fff_ffff,
{
    let one = Single { bits: 0x3f80_0000 };
    let under = Single { bits: 0x3fff_ffff };
    lemma_power(127);
    assert(under.mag() == 0x3fff_ffff);
    assert(under.exp() == 126 && under.mant() == 0xff_ffff);
    vstd::arithmetic::power2::lemma2_to64();
    vstd::arithmetic::power2::lemma_pow2_pos(126);
    vstd::arithmetic::power2::lemma_pow2_adds(23, 126);
    let p = vstd::arithmetic::power2::pow2(126);
    let q = vstd::arithmetic::power2::pow2(149);
    assert(q == 0x80_0000 * p);
    assert(q * 100 <= 135 * q <= (0xff_ffff * p) * 100) by (nonlinear_arith)
        requires
            p > 0,
            q == 0x80_0000 * p,
    ;
    crate::single::lemma_ratio_bounds(135, 100, one, under);
}

proof fn lemma_lowest()
    ensures
        Single::ratio(90, 100).finite(),
        !Single::ratio(90, 100).negative(),
        0x3f00_0000 <= Single::ratio(90, 100).mag() <= 0x3f80_0000,
        !sat_floor().not_a_number(),
        !sat_floor().negative(),
        sat_floor().mag() >= Single::ratio(90, 100).mag(),
{
    reveal(Single::plus_spec);
    let half = Single { bits: 0x3f00_0000 };
    let one = Single { bits: 0x3f80_0000 };
    let none = Single { bits: 0 };
    lemma_power(126);
    lemma_power(127);
    vstd::arithmetic::power2::lemma2_to64();
    vstd::arithmetic::power2::lemma_pow2_adds(1, 148);
    vstd::arithmetic::power2::lemma_pow2_pos(148);
    let q = vstd::arithmetic::power2::pow2(149);
    assert(none.units() == 0) by {
        assert(none.mant() == 0);
        assert(0 * vstd::arithmetic::power2::pow2(none.exp()) == 0);
    }
    crate::single::lemma_ratio_bounds(90, 100, half, one);
    crate::single::lemma_ratio_bounds(2, 100, none, one);
    let low = Single::ratio(90, 100);
    let bit = Single::ratio(2, 100);
    crate::single::lemma_units_monotone(half, low);
    let sum = low.units() + bit.units();
    assert(low.signed() + bit.signed() == sum);
    assert(sat_floor() == crate::single::round_units(false, sum, 1));
    crate::single::lemma_round_self(low);
    crate::single::lemma_round_monotone(low.units(), 1, sum, 1);
    crate::single::lemma_round_is_a_number(false, sum, 1);
}

proof fn lemma_step()
    ensures
        Single::ratio(5, 100).finite(),
        !Single::ratio(5, 100).negative(),
        Single::ratio(5, 100).units() >= vstd::arithmetic::power2::pow2(126),
        Single::ratio(5, 100).mag() <= 0x3e00_0000,
{
    let small = Single { bits: 0x3d00_0000 };
    let eighth = Single { bits: 0x3e00_0000 };
    lemma_power(122);
    lemma_power(124);
    vstd::arithmetic::power2::lemma2_to64();
    vstd::arithmetic::power2::lemma_pow2_adds(3, 146);
    vstd::arithmetic::power2::lemma_pow2_adds(5, 144);
    vstd::arithmetic::power2::lemma_pow2_pos(144);
    crate::single::lemma_ratio_bounds(5, 100, small, eighth);
    crate::single::lemma_units_monotone(small, Single::ratio(5, 100));
    vstd::arithmetic::power2::lemma_pow2_strictly_increases(126, 144);
}

/// Easing lowers the saturation, and keeps it in its range: since there are only so many
/// numbers, the search comes to an end.
pub proof fn easing_lowers_the_saturation(t: AutoTuner, m: HistMetrics)
    requires
        t.phase is ClipSat,
        t.clips(m),
        t.sat.at_most(Single::ratio(135, 100)),
    ensures
        t.measured(m).sat.bits < t.sat.bits,
        t.measured(m).sat.at_most(Single::ratio(135, 100)),
        Single::ratio(90, 100).at_most(t.measured(m).sat),
{
    reveal(Single::less_spec);
    reveal(Single::at_most_spec);
    reveal(Single::larger_spec);
    lemma_highest();
    lemma_lowest();
    lemma_step();
    let sat = t.sat;
    let step = Single::ratio(5, 100);
    assert(sat.finite() && !sat.negative());
    assert(sat_floor().mag() < sat.mag() <= 0x3fff_ffff);
    assert(sat.exp() <= 126);
    if sat.exp() < 126 {
        vstd::arithmetic::power2::lemma_pow2_strictly_increases(sat.exp(), 126);
    }
    crate::single::lemma_units_monotone(step, sat);
    crate::single::lemma_minus_lowers(sat, step);
}

/// The grade that is found touches only the knobs that the search owns.
pub proof fn grade_leaves_the_rest(result: AutoTuneResult, src: PipelineOptions)
    ensures
        result.written(house_grade().written(src)) == result.written(src),
{
}

/// The settings with the knobs of a search set on them.
pub open spec fn knobs_on(opts: PipelineOptions, k: AutoKnobs) -> PipelineOptions {
    PipelineOptions {
        film_gamma: k.film_gamma,
        curve_offset: k.curve_offset,
        curve_gamma: k.curve_gamma,
        toe_strength: k.toe_strength,
        lut_in_mid: k.lut_in_mid,
        saturation: k.saturation,
        ..opts
    }
}

/// The mean chroma of the midtones of a density image.
pub open spec fn chroma_of(image: FilmImage, offset: Single, zone: ZoneRange) -> Single {
    let n = (image.width * image.height) as nat;
    let (sum, count) = crate::metrics::chroma_total(
        image,
        offset,
        zone,
        crate::metrics::stride(n),
        crate::metrics::looked_at(n),
    );
    if count > 0 {
        sum.over(Single::whole(count as u64))
    } else {
        Single::whole(0)
    }
}

impl AutoTuner {
    /// The search after the chroma of the midtones was measured.
    pub open spec fn with_chroma(self, chroma: Single) -> AutoTuner {
        AutoTuner {
            phase: AutoPhase::ClipBase,
            sat: crate::metrics::saturation_for(chroma, Single::ratio(10, 100)),
            ..self
        }
    }

    /// The grade with the knobs where they are.
    pub open spec fn grade(self) -> AutoTuneResult {
        AutoTuneResult {
            film_gamma: self.knobs.film_gamma,
            curve_offset: self.knobs.curve_offset,
            curve_gamma: self.knobs.curve_gamma,
            toe_strength: self.knobs.toe_strength,
            lut_in_mid: self.knobs.lut_in_mid,
            saturation: self.knobs.saturation,
            ..house_grade()
        }
    }
}

/// The search goes from `t` to `u` by what is measured on the proxy with these settings: the
/// chroma of its density where that is to be measured, else the picture that is rendered.
pub open spec fn goes_by<
    D: Fn(&FilmImage, &PipelineOptions) -> Vec<u8>,
    N: Fn(&FilmImage, &PipelineOptions) -> (FilmImage, ZoneRange),
>(
    t: AutoTuner,
    u: AutoTuner,
    proxy: FilmImage,
    opts: PipelineOptions,
    render: D,
    density: N,
) -> bool {
    if t.phase is Chroma {
        exists|image: FilmImage, zone: ZoneRange| #[trigger]
            density.ensures((&proxy, &opts), (image, zone)) && u == t.with_chroma(
                chroma_of(image, opts.curve_offset, zone),
            )
    } else {
        exists|rgb: Vec<u8>| #[trigger]
            render.ensures((&proxy, &opts), rgb) && u == t.measured(crate::metrics::measured(rgb@))
    }
}

/// The search goes from `t` to `u` by what is measured with the knobs of `t`.
pub open spec fn goes_to<
    D: Fn(&FilmImage, &PipelineOptions) -> Vec<u8>,
    N: Fn(&FilmImage, &PipelineOptions) -> (FilmImage, ZoneRange),
>(
    t: AutoTuner,
    u: AutoTuner,
    proxy: FilmImage,
    base: PipelineOptions,
    render: D,
    density: N,
) -> bool {
    goes_by(t, u, proxy, knobs_on(base, t.knobs), render, density)
}

/// The states of a search, each reached from the one before. Only the last may be done.
pub open spec fn is_search<
    D: Fn(&FilmImage, &PipelineOptions) -> Vec<u8>,
    N: Fn(&FilmImage, &PipelineOptions) -> (FilmImage, ZoneRange),
>(
    states: Seq<AutoTuner>,
    proxy: FilmImage,
    base: PipelineOptions,
    render: D,
    density: N,
) -> bool {
    &&& states.len() > 0
    &&& states.first() == AutoTuner::start()
    &&& forall|i: int, j: int|
        0 <= i && j == i + 1 && j < states.len() ==> #[trigger] goes_to(
            states[i],
            states[j],
            proxy,
            base,
            render,
            density,
        )
    &&& forall|i: int| 0 <= i < states.len() - 1 ==> !((#[trigger] states[i]).phase is Done)
}

/// How many phases are still to come.
pub open spec fn phases_left(phase: AutoPhase) -> nat {
    match phase {
        AutoPhase::Gamma => 10,
        AutoPhase::Density => 9,
        AutoPhase::Grade => 8,
        AutoPhase::Exposure => 7,
        AutoPhase::Midtones => 6,
        AutoPhase::Shadows => 5,
        AutoPhase::DensityAgain => 4,
        AutoPhase::Chroma => 3,
        AutoPhase::ClipBase => 2,
        AutoPhase::ClipSat => 1,
        AutoPhase::Done => 0,
    }
}

/// A bound on what is left of a phase.
spec fn left_in_phase(t: AutoTuner) -> nat {
    if t.phase.searches() {
        (COARSE + REFINE - t.search.done) as nat
    } else if t.phase is ClipSat {
        t.sat.bits as nat
    } else {
        0
    }
}

/// A saturation from which easing comes to an end.
spec fn can_be_eased(sat: Single) -> bool {
    sat_floor().less(sat) ==> sat.at_most(Single::ratio(135, 100))
}

proof fn lemma_solved(chroma: Single)
    ensures
        can_be_eased(crate::metrics::saturation_for(chroma, Single::ratio(10, 100))),
{
    reveal(Single::less_spec);
    reveal(Single::at_most_spec);
    lemma_highest();
    lemma_lowest();
    let one = Single { bits: 0x3f80_0000 };
    let high = Single::ratio(135, 100);
    lemma_power(127);
    crate::single::lemma_whole_exact(1);
    crate::single::lemma_units_monotone(one, high);
    assert(Single::whole(1).units() == 1 * one.units());
    crate::single::order_is_by_value(Single::whole(1), high);
}

/// Sets the knobs of a search.
fn set_knobs(opts: PipelineOptions, k: AutoKnobs) -> (r: PipelineOptions)
    ensures
        r == knobs_on(opts, k),
{
    let mut r: PipelineOptions = opts;
    k.set_on(&mut r);
    r
}

proof fn lemma_last_knobs_stay(opts: PipelineOptions, a: AutoKnobs, b: AutoKnobs)
    ensures
        knobs_on(knobs_on(opts, a), b) == knobs_on(opts, b),
{
}

/// The search has come nearer to its end.
spec fn nearer(t: AutoTuner, u: AutoTuner) -> bool {
    ||| phases_left(u.phase) < phases_left(t.phase)
    ||| phases_left(u.phase) == phases_left(t.phase) && left_in_phase(u) < left_in_phase(t)
}

/// The search goes on, and comes to an end.
spec fn under_way(t: AutoTuner) -> bool {
    &&& t.wf()
    &&& t.phase is ClipBase || t.phase is ClipSat ==> can_be_eased(t.sat)
}

proof fn lemma_measured_is_nearer(t: AutoTuner, m: HistMetrics)
    requires
        under_way(t),
        t.measured(m).wf(),
        !(t.phase is Chroma || t.phase is Done),
    ensures
        under_way(t.measured(m)),
        nearer(t, t.measured(m)),
{
    if t.phase is ClipSat && t.clips(m) {
        easing_lowers_the_saturation(t, m);
    }
}

/// Measures the proxy, and takes the search one step on.
fn advance<
    D: Fn(&FilmImage, &PipelineOptions) -> Vec<u8>,
    N: Fn(&FilmImage, &PipelineOptions) -> (FilmImage, ZoneRange),
>(t: AutoTuner, proxy: &FilmImage, opts: &PipelineOptions, render: &D, density: &N) -> (u: AutoTuner)
    requires
        under_way(t),
        !(t.phase is Done),
        render.requires((proxy, opts)),
        forall|rgb: Vec<u8>| #[trigger]
            render.ensures((proxy, opts), rgb) ==> rgb.len() / 3 <= u32::MAX,
        density.requires((proxy, opts)),
        forall|d: (FilmImage, ZoneRange)| #[trigger]
            density.ensures((proxy, opts), d) ==> d.0.wf() && d.0.channels == 3,
    ensures
        goes_by(t, u, *proxy, *opts, *render, *density),
        under_way(u),
        nearer(t, u),
{
    let mut u: AutoTuner = t;
    if t.phase == AutoPhase::Chroma {
        let (d, zone) = density(proxy, opts);
        assert(density.ensures((proxy, opts), (d, zone)));
        let chroma: Single = midtone_chroma(&d, opts.curve_offset, zone);
        u.take_chroma(chroma);
        proof {
            lemma_solved(chroma);
        }
    } else {
        let rgb: Vec<u8> = render(proxy, opts);
        assert(render.ensures((proxy, opts), rgb));
        u.take_metrics(metrics_from_rgb(rgb.as_slice()));
        proof {
            lemma_measured_is_nearer(t, crate::metrics::measured(rgb@));
        }
    }
    u
}

/// The crop of an image that is analysed.
pub open spec fn crop_of(image: FilmImage, options: PipelineOptions) -> Option<Rect> {
    crop_in(options, image.width as u32, image.height as u32)
}

/// `r` is the outcome of a search for a grade, and `told` is what is reported of it. The search
/// begins with the knobs that it owns where the house has them, whatever the settings say.
pub open spec fn graded<
    D: Fn(&FilmImage, &PipelineOptions) -> Vec<u8>,
    N: Fn(&FilmImage, &PipelineOptions) -> (FilmImage, ZoneRange),
>(
    image: FilmImage,
    options: PipelineOptions,
    render: D,
    density: N,
    r: Result<AutoTuneResult, AutoError>,
    told: Seq<crate::auto_report::AutoReport>,
) -> bool {
    if image.channels < 3 {
        r == Err::<AutoTuneResult, AutoError>(AutoError::TooSmall) && told == crate::auto_report::opening()
    } else {
        exists|proxy: FilmImage| #[trigger]
            is_analysed(proxy, image, crop_of(image, options)) && graded_on(
                proxy,
                house_grade().written(options),
                render,
                density,
                r,
                told,
            )
    }
}

/// `r` is the outcome of a search on a proxy, with these settings beside the knobs.
pub open spec fn graded_on<
    D: Fn(&FilmImage, &PipelineOptions) -> Vec<u8>,
    N: Fn(&FilmImage, &PipelineOptions) -> (FilmImage, ZoneRange),
>(
    proxy: FilmImage,
    base: PipelineOptions,
    render: D,
    density: N,
    r: Result<AutoTuneResult, AutoError>,
    told: Seq<crate::auto_report::AutoReport>,
) -> bool {
    match r {
        Err(e) => e == AutoError::TooSmall && !large_enough(proxy) && told == crate::auto_report::opening(),
        Ok(grade) => large_enough(proxy) && exists|states: Seq<AutoTuner>| #[trigger]
            is_search(states, proxy, base, render, density)
                && states.last().phase is Done && grade == states.last().grade() && told
                == crate::auto_report::reports_of(states),
    }
}

/// Tells of a state of the search.
fn tell_of<R: AutoProgressCb>(report: &mut R, t: &AutoTuner, new: bool)
    ensures
        final(report).told() == old(report).told().push(crate::auto_report::told_of(*t, new)),
{
    let title: &'static str = t.title();
    let log: Option<&'static str> = if new {
        Some(title)
    } else {
        None
    };
    report.tell(title, t.progress(), log);
}

/// Searches a grade on a transmittance image. `render` gives the picture of a proxy with some
/// settings, three bytes to a pixel; `density` its density before the print, and the middle
/// zone of that; `report` is told how the search goes.
pub fn auto_tune<
    D: Fn(&FilmImage, &PipelineOptions) -> Vec<u8>,
    N: Fn(&FilmImage, &PipelineOptions) -> (FilmImage, ZoneRange),
    R: AutoProgressCb,
>(
    image: &FilmImage,
    options: PipelineOptions,
    render: &D,
    density: &N,
    report: &mut R,
) -> (r: Result<AutoTuneResult, AutoError>)
    requires
        image.wf(),
        image.width * PROXY_MAX_SIDE <= usize::MAX,
        image.height * PROXY_MAX_SIDE <= usize::MAX,
        forall|p: &FilmImage, o: &PipelineOptions| #[trigger] render.requires((p, o)),
        forall|p: &FilmImage, o: &PipelineOptions, rgb: Vec<u8>| #[trigger]
            render.ensures((p, o), rgb) ==> rgb.len() / 3 <= u32::MAX,
        forall|p: &FilmImage, o: &PipelineOptions| #[trigger] density.requires((p, o)),
        forall|p: &FilmImage, o: &PipelineOptions, d: (FilmImage, ZoneRange)| #[trigger]
            density.ensures((p, o), d) ==> d.0.wf() && d.0.channels == 3,
    ensures
        exists|told: Seq<crate::auto_report::AutoReport>|
            final(report).told() == old(report).told() + told && #[trigger] graded(
                *image,
                options,
                *render,
                *density,
                r,
                told,
            ),
{
    let ghost start = report.told();
    report.tell("Preparing analysis…", Single::ratio(2, 100), Some("Preparing analysis…"));
    assert(report.told() =~= start + crate::auto_report::opening());
    let crop: Option<Rect> = analysed_crop(&options, image.width as u32, image.height as u32);
    let proxy: FilmImage = match analysis_proxy(image, crop) {
        Ok(proxy) => proxy,
        Err(e) => {
            assert(graded(
                *image,
                options,
                *render,
                *density,
                Err::<AutoTuneResult, AutoError>(e),
                crate::auto_report::opening(),
            ));
            return Err(e);
        },
    };
    let mut opts: PipelineOptions = prepare_search_options(options);
    let ghost base = opts;
    let ghost mut last: AutoKnobs = AutoTuner::start().knobs;
    report.tell("Preparing analysis…", Single::ratio(8, 100), None);
    let mut t: AutoTuner = AutoTuner::start();
    let ghost mut states: Seq<AutoTuner> = seq![t];
    tell_of(report, &t, true);
    assert(report.told() =~= start + crate::auto_report::reports_of(states));
    while t.phase != AutoPhase::Done
        invariant
            under_way(t),
            t == states.last(),
            is_search(states, proxy, base, *render, *density),
            report.told() == start + crate::auto_report::reports_of(states),
            opts == base || opts == knobs_on(base, last),
            forall|p: &FilmImage, o: &PipelineOptions| #[trigger] render.requires((p, o)),
            forall|p: &FilmImage, o: &PipelineOptions, rgb: Vec<u8>| #[trigger]
                render.ensures((p, o), rgb) ==> rgb.len() / 3 <= u32::MAX,
            forall|p: &FilmImage, o: &PipelineOptions| #[trigger] density.requires((p, o)),
            forall|p: &FilmImage, o: &PipelineOptions, d: (FilmImage, ZoneRange)| #[trigger]
                density.ensures((p, o), d) ==> d.0.wf() && d.0.channels == 3,
        decreases phases_left(t.phase), left_in_phase(t),
    {
        let ghost before = t;
        let ghost earlier = report.told();
        if t.phase.searches() {
            tell_of(report, &t, false);
        }
        proof {
            lemma_last_knobs_stay(base, last, t.knobs);
            last = t.knobs;
        }
        opts = set_knobs(opts, t.knobs);
        t = advance(t, &proxy, &opts, render, density);
        proof {
            assert(goes_to(before, t, proxy, base, *render, *density));
            let next = states.push(t);
            assert forall|i: int, j: int|
                0 <= i && j == i + 1 && j < next.len() implies #[trigger] goes_to(
                next[i],
                next[j],
                proxy,
                base,
                *render,
                *density,
            ) by {
                if j < states.len() {
                    assert(goes_to(states[i], states[j], proxy, base, *render, *density));
                }
            }
            assert forall|i: int| 0 <= i < next.len() - 1 implies !((
            #[trigger] next[i]).phase is Done) by {
                if i < states.len() - 1 {
                    assert(next[i] == states[i]);
                }
            }
            crate::auto_report::lemma_told_step(states, t);
            states = next;
        }
        if t.phase != AutoPhase::ClipBase && t.phase != AutoPhase::ClipSat && (
        !t.phase.searches() || t.search.done == 0) {
            tell_of(report, &t, true);
        }
        assert(report.told() =~= earlier + crate::auto_report::told_between(before, t));
        assert(report.told() =~= start + crate::auto_report::reports_of(states));
    }
    proof {
        let grade = Ok::<AutoTuneResult, AutoError>(t.grade());
        assert(graded_on(proxy, base, *render, *density, grade, crate::auto_report::reports_of(states)));
        assert(graded(*image, options, *render, *density, grade, crate::auto_report::reports_of(states)));
    }
    Ok(t.result())
}

/// The states of a search are those that reports are made of, and the reports come in order.
pub proof fn searches_report_in_order<
    D: Fn(&FilmImage, &PipelineOptions) -> Vec<u8>,
    N: Fn(&FilmImage, &PipelineOptions) -> (FilmImage, ZoneRange),
>(
    image: FilmImage,
    options: PipelineOptions,
    render: D,
    density: N,
    grade: AutoTuneResult,
    told: Seq<crate::auto_report::AutoReport>,
)
    requires
        graded(image, options, render, density, Ok(grade), told),
    ensures
        crate::auto_report::in_order(told),
        told.first() == crate::auto_report::said(crate::auto_report::preparing(), Single::ratio(2, 100), true),
        told.last() == crate::auto_report::said("Applying settings…"@, Single::ratio(97, 100), true),
{
    let proxy = choose|proxy: FilmImage| #[trigger]
        is_analysed(proxy, image, crop_of(image, options)) && graded_on(
            proxy,
            house_grade().written(options),
            render,
            density,
            Ok(grade),
            told,
        );
    let base = house_grade().written(options);
    let states = choose|states: Seq<AutoTuner>| #[trigger]
        is_search(states, proxy, base, render, density) && states.last().phase is Done && grade
            == states.last().grade() && told == crate::auto_report::reports_of(states);
    assert forall|i: int, j: int| 0 <= i && j == i + 1 && j < states.len() implies #[trigger] crate::auto_report::steps(
        states[i],
        states[j],
    ) by {
        assert(goes_to(states[i], states[j], proxy, base, render, density));
    }
    crate::auto_report::reports_come_in_order(states);
}

proof fn lemma_house_forgets(knobs: AutoTuneResult, b: PipelineOptions)
    ensures
        house_grade().written(knobs.written(b)) == house_grade().written(b),
{
}

/// Settings that differ only in the knobs which the search owns have the same grades: whatever
/// can come of the search with the one can come of it with the other.
pub proof fn owned_knobs_do_not_matter<
    D: Fn(&FilmImage, &PipelineOptions) -> Vec<u8>,
    N: Fn(&FilmImage, &PipelineOptions) -> (FilmImage, ZoneRange),
>(
    image: FilmImage,
    a: PipelineOptions,
    b: PipelineOptions,
    knobs: AutoTuneResult,
    render: D,
    density: N,
    r: Result<AutoTuneResult, AutoError>,
    told: Seq<crate::auto_report::AutoReport>,
)
    requires
        a == knobs.written(b),
    ensures
        graded(image, a, render, density, r, told) == graded(
            image,
            b,
            render,
            density,
            r,
            told,
        ),
{
    lemma_house_forgets(knobs, b);
}

/// A renderer that gives the same for the same.
pub open spec fn is_steady<
    D: Fn(&FilmImage, &PipelineOptions) -> Vec<u8>,
    N: Fn(&FilmImage, &PipelineOptions) -> (FilmImage, ZoneRange),
>(render: D, density: N) -> bool {
    &&& forall|p: &FilmImage, q: &FilmImage, o: &PipelineOptions, x: Vec<u8>, y: Vec<u8>|
        #[trigger] render.ensures((p, o), x) && #[trigger] render.ensures((q, o), y) && same_image(
            *p,
            *q,
        ) ==> x@ == y@
    &&& forall|
        p: &FilmImage,
        q: &FilmImage,
        o: &PipelineOptions,
        x: (FilmImage, ZoneRange),
        y: (FilmImage, ZoneRange),
    |
        #[trigger] density.ensures((p, o), x) && #[trigger] density.ensures((q, o), y)
            && same_image(*p, *q) ==> x == y
}

proof fn lemma_cuts_agree(c: FilmImage, d: FilmImage, image: FilmImage, crop: Option<Rect>)
    requires
        image.channels >= 3,
        is_cut_of(c, image, crop),
        is_cut_of(d, image, crop),
    ensures
        same_image(c, d),
{
    if let Some(rect) = crop {
        let k = kept(rect, image.width, image.height);
        if worth_cutting(k) {
            let len = (k.x1 - k.x0) * image.channels;
            assert forall|i: int| 0 <= i < c.samples@.len() implies c.samples@[i] == d.samples@[i]
                by {
                let y = i / len;
                let j = i % len;
                vstd::arithmetic::div_mod::lemma_fundamental_div_mod(i, len);
                vstd::arithmetic::div_mod::lemma_mod_bound(i, len);
                vstd::arithmetic::div_mod::lemma_div_pos_is_pos(i, len);
                vstd::arithmetic::div_mod::lemma_multiply_divide_lt(i, len, k.y1 - k.y0);
                assert(y * len + j == i) by (nonlinear_arith)
                    requires
                        i == len * y + j,
                ;
                assert(c.samples@[y * len + j] == image.samples@[((k.y0 + y) * image.width + k.x0)
                    * image.channels + j]);
                assert(d.samples@[y * len + j] == image.samples@[((k.y0 + y) * image.width + k.x0)
                    * image.channels + j]);
            }
            assert(c.samples@ =~= d.samples@);
        }
    }
}

proof fn lemma_proxies_agree(p: FilmImage, q: FilmImage, image: FilmImage, crop: Option<Rect>)
    requires
        image.channels >= 3,
        is_analysed(p, image, crop),
        is_analysed(q, image, crop),
    ensures
        same_image(p, q),
{
    let c = choose|cut: FilmImage| #[trigger] is_proxy(p, cut) && is_cut_of(cut, image, crop);
    let d = choose|cut: FilmImage| #[trigger] is_proxy(q, cut) && is_cut_of(cut, image, crop);
    lemma_cuts_agree(c, d, image, crop);
    let max = PROXY_MAX_SIDE as int;
    assert(crate::film::proxy_samples(c, max) =~= crate::film::proxy_samples(d, max));
}

proof fn lemma_same_states<
    D: Fn(&FilmImage, &PipelineOptions) -> Vec<u8>,
    N: Fn(&FilmImage, &PipelineOptions) -> (FilmImage, ZoneRange),
>(
    s: Seq<AutoTuner>,
    u: Seq<AutoTuner>,
    p: FilmImage,
    q: FilmImage,
    base: PipelineOptions,
    render: D,
    density: N,
    i: int,
)
    requires
        is_steady(render, density),
        same_image(p, q),
        is_search(s, p, base, render, density),
        is_search(u, q, base, render, density),
        0 <= i < s.len(),
        i < u.len(),
    ensures
        s[i] == u[i],
    decreases i,
{
    if i > 0 {
        lemma_same_states(s, u, p, q, base, render, density, i - 1);
        assert(goes_to(s[i - 1], s[i], p, base, render, density));
        assert(goes_to(u[i - 1], u[i], q, base, render, density));
    }
}

proof fn lemma_same_search<
    D: Fn(&FilmImage, &PipelineOptions) -> Vec<u8>,
    N: Fn(&FilmImage, &PipelineOptions) -> (FilmImage, ZoneRange),
>(
    s: Seq<AutoTuner>,
    u: Seq<AutoTuner>,
    p: FilmImage,
    q: FilmImage,
    base: PipelineOptions,
    render: D,
    density: N,
)
    requires
        is_steady(render, density),
        same_image(p, q),
        is_search(s, p, base, render, density),
        is_search(u, q, base, render, density),
        s.last().phase is Done,
        u.last().phase is Done,
    ensures
        s == u,
{
    let n = if s.len() < u.len() {
        s.len()
    } else {
        u.len()
    };
    lemma_same_states(s, u, p, q, base, render, density, n - 1);
    assert(s[n - 1].phase is Done || u[n - 1].phase is Done);
    assert(s.len() == u.len());
    assert forall|i: int| 0 <= i < n implies s[i] == u[i] by {
        lemma_same_states(s, u, p, q, base, render, density, i);
    }
    assert(s =~= u);
}

proof fn lemma_one_grade<
    D: Fn(&FilmImage, &PipelineOptions) -> Vec<u8>,
    N: Fn(&FilmImage, &PipelineOptions) -> (FilmImage, ZoneRange),
>(
    p: FilmImage,
    q: FilmImage,
    base: PipelineOptions,
    render: D,
    density: N,
    one: (Result<AutoTuneResult, AutoError>, Seq<crate::auto_report::AutoReport>),
    two: (Result<AutoTuneResult, AutoError>, Seq<crate::auto_report::AutoReport>),
)
    requires
        is_steady(render, density),
        same_image(p, q),
        graded_on(p, base, render, density, one.0, one.1),
        graded_on(q, base, render, density, two.0, two.1),
    ensures
        one == two,
{
    if large_enough(p) {
        let s = choose|s: Seq<AutoTuner>| #[trigger]
            is_search(s, p, base, render, density) && s.last().phase is Done && one.0->Ok_0
                == s.last().grade() && one.1 == crate::auto_report::reports_of(s);
        let u = choose|u: Seq<AutoTuner>| #[trigger]
            is_search(u, q, base, render, density) && u.last().phase is Done && two.0->Ok_0
                == u.last().grade() && two.1 == crate::auto_report::reports_of(u);
        lemma_same_search(s, u, p, q, base, render, density);
    }
}

/// With a renderer that gives the same for the same, an image has one grade and one row of
/// reports, whatever the knobs that the search owns were set to before.
pub proof fn an_image_has_one_grade<
    D: Fn(&FilmImage, &PipelineOptions) -> Vec<u8>,
    N: Fn(&FilmImage, &PipelineOptions) -> (FilmImage, ZoneRange),
>(
    image: FilmImage,
    a: PipelineOptions,
    b: PipelineOptions,
    knobs: AutoTuneResult,
    render: D,
    density: N,
    one: (Result<AutoTuneResult, AutoError>, Seq<crate::auto_report::AutoReport>),
    two: (Result<AutoTuneResult, AutoError>, Seq<crate::auto_report::AutoReport>),
)
    requires
        a == knobs.written(b),
        is_steady(render, density),
        graded(image, a, render, density, one.0, one.1),
        graded(image, b, render, density, two.0, two.1),
    ensures
        one == two,
{
    lemma_house_forgets(knobs, b);
    let base = house_grade().written(b);
    let crop = crop_of(image, b);
    if image.channels >= 3 {
        let p = choose|p: FilmImage| #[trigger]
            is_analysed(p, image, crop) && graded_on(p, base, render, density, one.0, one.1);
        let q = choose|q: FilmImage| #[trigger]
            is_analysed(q, image, crop) && graded_on(q, base, render, density, two.0, two.1);
        lemma_proxies_agree(p, q, image, crop);
        lemma_one_grade(p, q, base, render, density, one, two);
    }
}

} // verus!
