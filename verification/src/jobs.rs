//! Long jobs: automatic development and cropping of one picture or of all, and exports.
//!
//! The work itself runs elsewhere. Here stands who may start, which file is next, what the
//! progress window shows and what an outcome leads to.

use vstd::prelude::*;
use crate::single::Single;
use crate::text::append_decimal;

verus! {

/// An automatic job that is under way.
#[derive(Debug, Clone, Copy, PartialEq, Eq)]
pub struct AutoJobState {
    /// Whether it goes over all pictures.
    pub batch: bool,
    /// The picture whose preview it waits for.
    pub applying_preview: Option<usize>,
}

pub open spec fn heavy(exporting: bool, auto_job: Option<AutoJobState>) -> bool {
    ||| exporting
    ||| auto_job matches Some(j) && (j.batch || j.applying_preview is Some)
}

/// Whether a job keeps the machine busy: an export, a batch, or a result that is being applied.
pub fn heavy_job_running(exporting: bool, auto_job: Option<AutoJobState>) -> (r: bool)
    ensures
        r == heavy(exporting, auto_job),
{
    exporting || match auto_job {
        Some(j) => j.batch || j.applying_preview.is_some(),
        None => false,
    }
}

/// The picture that an automatic job waits for.
pub fn auto_waiting_preview(auto_job: Option<AutoJobState>) -> (r: Option<usize>)
    ensures
        r == match auto_job {
            Some(j) => j.applying_preview,
            None => None,
        },
{
    match auto_job {
        Some(j) => j.applying_preview,
        None => None,
    }
}

/// Why a picture could not be developed automatically.
#[derive(Debug)]
pub enum AutoFailure {
    /// The preview holds no picture with its film base taken out.
    NoBase,
    /// The preview could not be made, for this reason.
    NotLoaded(String),
    /// The analysis failed, for this reason.
    NotAnalysed(String),
}

/// What the user reads of a failure.
pub fn auto_failure_text(failure: &AutoFailure) -> (r: String)
    ensures
        match failure {
            AutoFailure::NoBase => r@ == "Auto: no D-min buffer to analyse."@,
            AutoFailure::NotLoaded(why) => r@ == "Auto: failed to load preview ("@ + why@ + ")"@,
            AutoFailure::NotAnalysed(why) => r@ == "Auto: "@ + why@,
        },
{
    match failure {
        AutoFailure::NoBase => "Auto: no D-min buffer to analyse.".to_owned(),
        AutoFailure::NotLoaded(why) => {
            let mut out: String = "Auto: failed to load preview (".to_owned();
            out.append(why.as_str());
            out.append(")");
            out
        },
        AutoFailure::NotAnalysed(why) => {
            let mut out: String = "Auto: ".to_owned();
            out.append(why.as_str());
            out
        },
    }
}

/// What becomes of the wish to develop the selected picture automatically.
#[derive(Debug, Clone, Copy, PartialEq, Eq)]
pub enum AutoStart {
    /// Nothing happens.
    Refused,
    /// The user is asked to select a picture.
    SelectFirst,
    Start(usize),
}

/// Whether the selected picture can be developed automatically now.
pub fn auto_start(
    exporting: bool,
    auto_job: Option<AutoJobState>,
    selected: Option<usize>,
    images: usize,
) -> (r: AutoStart)
    ensures
        r == if exporting || auto_job is Some {
            AutoStart::Refused
        } else {
            match selected {
                None => AutoStart::SelectFirst,
                Some(i) => if i < images {
                    AutoStart::Start(i)
                } else {
                    AutoStart::Refused
                },
            }
        },
{
    if heavy_job_running(exporting, auto_job) || auto_job.is_some() {
        return AutoStart::Refused;
    }
    match selected {
        None => AutoStart::SelectFirst,
        Some(i) => if i < images {
            AutoStart::Start(i)
        } else {
            AutoStart::Refused
        },
    }
}

/// What becomes of the wish to go over all pictures.
#[derive(Debug, Clone, Copy, PartialEq, Eq)]
pub enum BatchStart {
    Refused,
    /// The user is asked to add pictures.
    AddFirst,
    /// That many workers take the pictures.
    Start(usize),
}

/// Whether all pictures can be gone over now: two workers share them, one takes a single one.
pub fn batch_start(exporting: bool, auto_job: Option<AutoJobState>, images: usize) -> (r:
    BatchStart)
    ensures
        r == if exporting || auto_job is Some {
            BatchStart::Refused
        } else if images == 0 {
            BatchStart::AddFirst
        } else if images > 1 {
            BatchStart::Start(2)
        } else {
            BatchStart::Start(1)
        },
{
    if heavy_job_running(exporting, auto_job) || auto_job.is_some() {
        return BatchStart::Refused;
    }
    if images == 0 {
        return BatchStart::AddFirst;
    }
    BatchStart::Start(
        if images > 1 {
            2
        } else {
            1
        },
    )
}

/// What the user reads where there is nothing to go over.
pub fn add_first_text(title: &str) -> (r: String)
    ensures
        r@ == title@ + ": add images first."@,
{
    let mut out: String = title.to_owned();
    out.append(": add images first.");
    out
}

/// What the user reads when a batch has begun.
pub fn batch_started_text(title: &str, images: usize) -> (r: String)
    ensures
        r@ == title@ + ": "@ + crate::text::decimal(images as nat) + " images…"@,
{
    let mut out: String = title.to_owned();
    out.append(": ");
    append_decimal(&mut out, images as u64);
    out.append(" images…");
    out
}

/// A preview buffer that a picture may hold, from the finest to the coarsest.
#[derive(Debug, Clone, Copy, PartialEq, Eq, Structural)]
pub enum StepCache {
    Preview,
    Screen,
    Draft,
}

pub open spec fn finest(preview: bool, screen: bool, draft: bool) -> Option<StepCache> {
    if preview {
        Some(StepCache::Preview)
    } else if screen {
        Some(StepCache::Screen)
    } else if draft {
        Some(StepCache::Draft)
    } else {
        None
    }
}

/// The finest of the buffers that are there.
pub fn finest_cache(preview: bool, screen: bool, draft: bool) -> (r: Option<StepCache>)
    ensures
        r == finest(preview, screen, draft),
{
    if preview {
        Some(StepCache::Preview)
    } else if screen {
        Some(StepCache::Screen)
    } else if draft {
        Some(StepCache::Draft)
    } else {
        None
    }
}

/// How a batch stands. Files are handed out in order; those that were finished were handed out
/// before, and those that failed were finished.
#[derive(Debug, Clone, Copy, PartialEq, Eq)]
pub struct BatchRun {
    pub total: usize,
    pub taken: usize,
    pub completed: usize,
    pub errors: usize,
    pub cancelled: bool,
}

/// How a batch ended.
#[derive(Debug, Clone, Copy, PartialEq, Eq)]
pub enum BatchOutcome {
    Done { completed: usize, errors: usize },
    Cancelled { completed: usize },
}

impl BatchRun {
    pub open spec fn wf(self) -> bool {
        self.errors <= self.completed <= self.taken <= self.total
    }

    pub fn start(total: usize) -> (r: BatchRun)
        ensures
            r.wf(),
            r == (BatchRun { total, taken: 0, completed: 0, errors: 0, cancelled: false }),
    {
        BatchRun { total, taken: 0, completed: 0, errors: 0, cancelled: false }
    }

    /// The file that a worker takes next: none after a cancel, and none when all are taken.
    pub fn take_next(&mut self) -> (r: Option<usize>)
        requires
            old(self).wf(),
        ensures
            final(self).wf(),
            if old(self).cancelled || old(self).taken == old(self).total {
                r is None && *final(self) == *old(self)
            } else {
                r == Some(old(self).taken) && *final(self) == (BatchRun {
                    taken: (old(self).taken + 1) as usize,
                    ..*old(self)
                })
            },
    {
        if self.cancelled || self.taken == self.total {
            return None;
        }
        let next: usize = self.taken;
        self.taken = next + 1;
        Some(next)
    }

    /// A file that was taken is finished, well or not.
    pub fn finish_file(&mut self, failed: bool)
        requires
            old(self).wf(),
            old(self).completed < old(self).taken,
        ensures
            final(self).wf(),
            *final(self) == (BatchRun {
                completed: (old(self).completed + 1) as usize,
                errors: if failed {
                    (old(self).errors + 1) as usize
                } else {
                    old(self).errors
                },
                ..*old(self)
            }),
    {
        if failed {
            self.errors = self.errors + 1;
        }
        self.completed = self.completed + 1;
    }

    /// The user wants no more files to be taken.
    pub fn cancel(&mut self)
        requires
            old(self).wf(),
        ensures
            final(self).wf(),
            *final(self) == (BatchRun { cancelled: true, ..*old(self) }),
    {
        self.cancelled = true;
    }

    pub open spec fn outcome_spec(self) -> BatchOutcome {
        if self.cancelled {
            BatchOutcome::Cancelled { completed: self.completed }
        } else {
            BatchOutcome::Done {
                completed: (self.completed - self.errors) as usize,
                errors: self.errors,
            }
        }
    }

    /// What is reported once the workers have stopped.
    pub fn outcome(&self) -> (r: BatchOutcome)
        requires
            self.wf(),
        ensures
            r == self.outcome_spec(),
    {
        if self.cancelled {
            BatchOutcome::Cancelled { completed: self.completed }
        } else {
            BatchOutcome::Done { completed: self.completed - self.errors, errors: self.errors }
        }
    }

    /// The share of the batch that is done.
    pub fn fraction(&self) -> (r: Single)
        ensures
            r == Single::whole(self.completed as u64).over(
                Single::whole(at_least_one(self.total) as u64),
            ),
    {
        let n: usize = if self.total == 0 {
            1
        } else {
            self.total
        };
        Single::whole(self.completed as u64).over(Single::whole(n as u64))
    }
}

/// Every picture of a batch that ran to its end is reported, either as finished or as failed.
pub proof fn batch_accounts_for_every_file(run: BatchRun)
    requires
        run.wf(),
        !run.cancelled,
        run.completed == run.total,
    ensures
        run.outcome_spec() matches BatchOutcome::Done { completed, errors } && completed + errors
            == run.total,
{
}

pub open spec fn at_least_one(n: usize) -> usize {
    if n == 0 {
        1
    } else {
        n
    }
}

/// Files done and the part of the file under way, over all files.
pub open spec fn share(done: usize, part: Single, total: usize) -> Single {
    Single::whole(done as u64).plus(part.clamp(Single::whole(0), Single::whole(1))).over(
        Single::whole(at_least_one(total) as u64),
    )
}

/// How far a batch is: `done` files, and `part` of the one under way.
pub fn batch_fraction(done: usize, part: Single, total: usize) -> (r: Single)
    ensures
        r == share(done, part, total),
{
    let n: usize = if total == 0 {
        1
    } else {
        total
    };
    Single::whole(done as u64).plus(part.clamp(Single::whole(0), Single::whole(1))).over(
        Single::whole(n as u64),
    )
}

/// What the progress window knows.
#[derive(Debug, Clone)]
pub struct AutoProgress {
    pub fraction: Single,
    pub message: String,
    pub log: Vec<String>,
    pub file_name: String,
    pub completed: usize,
    pub total: usize,
}

/// The texts of a log.
pub open spec fn lines(log: Seq<String>) -> Seq<Seq<char>> {
    log.map_values(|line: String| line@)
}

/// A log with one more line, unless that line is the last one already.
pub open spec fn logged(log: Seq<Seq<char>>, line: Seq<char>) -> Seq<Seq<char>> {
    if log.len() > 0 && log.last() == line {
        log
    } else {
        log.push(line)
    }
}

impl AutoProgress {
    /// Progress of a single picture, before its analysis.
    pub fn single() -> (r: AutoProgress)
        ensures
            r.fraction == Single::whole(0),
            r.message@ == "Preparing analysis…"@,
            lines(r.log@) == seq!["Preparing analysis…"@],
            r.file_name@.len() == 0,
            r.completed == 0,
            r.total == 1,
    {
        let mut log: Vec<String> = Vec::new();
        log.push("Preparing analysis…".to_owned());
        proof {
            assert(lines(log@) =~= seq!["Preparing analysis…"@]);
        }
        AutoProgress {
            fraction: Single::whole(0),
            message: "Preparing analysis…".to_owned(),
            log,
            file_name: String::new(),
            completed: 0,
            total: 1,
        }
    }

    /// Progress of a batch, before its first file.
    pub fn batch(total: usize) -> (r: AutoProgress)
        ensures
            r.fraction == Single::whole(0),
            r.message@ == "Starting…"@,
            r.log@.len() == 0,
            r.file_name@.len() == 0,
            r.completed == 0,
            r.total == total,
    {
        AutoProgress {
            fraction: Single::whole(0),
            message: "Starting…".to_owned(),
            log: Vec::new(),
            file_name: String::new(),
            completed: 0,
            total,
        }
    }

    /// Takes what a worker on a single picture reports. A line that is repeated is logged once.
    pub fn report(&mut self, message: &str, fraction: Single, line: Option<&str>)
        ensures
            final(self).fraction == fraction.clamp(Single::whole(0), Single::whole(1)),
            final(self).message@ == message@,
            lines(final(self).log@) == match line {
                Some(l) => logged(lines(old(self).log@), l@),
                None => lines(old(self).log@),
            },
            final(self).file_name == old(self).file_name,
            final(self).completed == old(self).completed,
            final(self).total == old(self).total,
    {
        self.fraction = fraction.clamp(Single::whole(0), Single::whole(1));
        self.message = message.to_owned();
        if let Some(l) = line {
            let known: bool = self.log.len() > 0 && self.log[self.log.len() - 1] == l.to_owned();
            let ghost before = self.log@;
            if !known {
                self.log.push(l.to_owned());
                proof {
                    assert(lines(self.log@) =~= lines(before).push(l@));
                }
            }
            proof {
                assert(before.len() > 0 ==> lines(before).last() == before.last()@);
            }
        }
    }

    /// A worker of a batch has taken a file.
    pub fn load_file(&mut self, name: &str)
        ensures
            final(self).file_name@ == name@,
            final(self).message@ == "Loading…"@,
            final(self).fraction == old(self).fraction,
            final(self).log == old(self).log,
            final(self).completed == old(self).completed,
            final(self).total == old(self).total,
    {
        self.file_name = name.to_owned();
        self.message = "Loading…".to_owned();
    }

    /// A worker of a batch reports from a file that it began with `done` files behind it.
    pub fn report_file(&mut self, name: &str, message: &str, part: Single, done: usize)
        ensures
            final(self).file_name@ == name@,
            final(self).message@ == message@,
            final(self).completed == done,
            final(self).fraction == share(done, part, old(self).total),
            final(self).log == old(self).log,
            final(self).total == old(self).total,
    {
        self.message = message.to_owned();
        self.file_name = name.to_owned();
        self.completed = done;
        self.fraction = batch_fraction(done, part, self.total);
    }

    /// A file of a batch is finished; a failed one is named as skipped.
    pub fn close_file(&mut self, name: &str, run: &BatchRun, failed: bool)
        requires
            run.total == old(self).total,
        ensures
            final(self).completed == run.completed,
            final(self).fraction == Single::whole(run.completed as u64).over(
                Single::whole(at_least_one(run.total) as u64),
            ),
            final(self).message@ == if failed {
                "Skipped "@ + name@
            } else {
                old(self).message@
            },
            final(self).file_name == old(self).file_name,
            final(self).log == old(self).log,
            final(self).total == old(self).total,
    {
        self.completed = run.completed;
        self.fraction = run.fraction();
        if failed {
            let mut text: String = "Skipped ".to_owned();
            text.append(name);
            self.message = text;
        }
    }
}

/// The number of the file that is shown as under way.
pub open spec fn shown(completed: usize, total: usize, named: bool) -> usize {
    if completed < total && named {
        (completed + 1) as usize
    } else if completed < total {
        completed
    } else {
        total
    }
}

/// The file that is under way, counted from one, or how many are done where none is named.
pub fn shown_count(completed: usize, total: usize, named: bool) -> (r: usize)
    ensures
        r == shown(completed, total, named),
        r <= total,
{
    if completed < total && named {
        completed + 1
    } else if completed < total {
        completed
    } else {
        total
    }
}

/// Which file of how many.
pub open spec fn file_of(name: Seq<char>, completed: usize, total: usize) -> Seq<char> {
    name + "  ("@ + crate::text::decimal(shown(completed, total, name.len() > 0) as nat) + "/"@
        + crate::text::decimal(total as nat) + ")"@
}

fn file_of_text(name: &String, completed: usize, total: usize) -> (r: String)
    ensures
        r@ == file_of(name@, completed, total),
{
    let n: usize = shown_count(completed, total, !name.as_str().is_empty());
    let mut out: String = name.clone();
    out.append("  (");
    append_decimal(&mut out, n as u64);
    out.append("/");
    append_decimal(&mut out, total as u64);
    out.append(")");
    out
}

/// Heading of the window of an automatic job: the file of a batch, else the last message.
pub fn auto_heading(progress: &AutoProgress, batch: bool) -> (r: String)
    ensures
        r@ == if batch && progress.total > 1 {
            file_of(progress.file_name@, progress.completed, progress.total)
        } else if batch && progress.file_name@.len() > 0 {
            progress.file_name@
        } else {
            progress.message@
        },
{
    if batch && progress.total > 1 {
        file_of_text(&progress.file_name, progress.completed, progress.total)
    } else if batch && !progress.file_name.as_str().is_empty() {
        progress.file_name.clone()
    } else {
        progress.message.clone()
    }
}

/// Second line of the window of an automatic job.
pub fn auto_stage(progress: &AutoProgress, batch: bool, cancelling: bool) -> (r: String)
    ensures
        r@ == if cancelling {
            "Cancelling…"@
        } else if batch {
            progress.message@
        } else {
            Seq::empty()
        },
{
    if cancelling {
        "Cancelling…".to_owned()
    } else if batch {
        progress.message.clone()
    } else {
        String::new()
    }
}

/// Heading of the export window.
pub fn export_heading(file_name: &String, completed: usize, total: usize) -> (r: String)
    ensures
        r@ == if total > 1 {
            file_of(file_name@, completed, total)
        } else if file_name@.len() > 0 {
            file_name@
        } else {
            "Exporting…"@
        },
{
    if total > 1 {
        file_of_text(file_name, completed, total)
    } else if !file_name.as_str().is_empty() {
        file_name.clone()
    } else {
        "Exporting…".to_owned()
    }
}

/// Second line of the export window.
pub fn export_stage(stage: &str, cancelling: bool) -> (r: String)
    ensures
        r@ == if cancelling {
            "Cancelling…"@
        } else {
            stage@
        },
{
    if cancelling {
        "Cancelling…".to_owned()
    } else {
        stage.to_owned()
    }
}

/// A share in per cent.
pub open spec fn percent_spec(fraction: Single) -> u64 {
    fraction.clamp(Single::whole(0), Single::whole(1)).times(
        Single::whole(100),
    ).rounded().to_int(0x7fff_ffff)
}

/// A share in per cent, as the progress bar shows it.
pub fn percent_text(fraction: Single) -> (r: String)
    ensures
        r@ == crate::text::decimal(percent_spec(fraction) as nat) + "%"@,
{
    let p: u64 = fraction.clamp(Single::whole(0), Single::whole(1)).times(
        Single::whole(100),
    ).rounded().to_int(0x7fff_ffff);
    let mut out: String = String::new();
    append_decimal(&mut out, p);
    out.append("%");
    proof {
        assert(out@ =~= crate::text::decimal(p as nat) + "%"@);
    }
    out
}

/// What comes from the workers of an automatic job.
pub enum AutoEvent {
    /// Nothing yet.
    Nothing,
    /// The workers are gone.
    Lost,
    /// The result for the picture at that place.
    Done(usize),
    /// The development of one file of a batch.
    FileDone,
    /// The crop of one file of a batch.
    CropFileDone,
    Batch(BatchOutcome),
    Failed(String),
}

/// What an event leads to.
pub enum AutoStep {
    /// See whether the preview that is waited for is there, and poll again later.
    CheckPreview,
    /// Apply the result to the picture at that place, and wait for its preview.
    Apply(usize),
    /// Apply a development to the file it is for, and poll on.
    ApplyFile,
    /// Apply a crop to the file it is for, and poll on.
    ApplyCrop,
    /// The job is over.
    End {
        /// What the user reads, where that changes.
        status: Option<String>,
        /// Whether all previews under way are out of date.
        previews_stale: bool,
    },
}

/// How a batch ended, in words.
pub open spec fn outcome_words(title: Seq<char>, outcome: BatchOutcome) -> Seq<char> {
    match outcome {
        BatchOutcome::Done { completed, errors } => if errors == 0 {
            title + ": finished "@ + crate::text::decimal(completed as nat) + " image(s)."@
        } else {
            title + ": finished "@ + crate::text::decimal(completed as nat) + " image(s), "@
                + crate::text::decimal(errors as nat) + " failed."@
        },
        BatchOutcome::Cancelled { completed } => if completed == 0 {
            title + " cancelled."@
        } else {
            title + " cancelled after "@ + crate::text::decimal(completed as nat) + " image(s)."@
        },
    }
}

/// How a batch ended, in words for the user.
pub fn batch_outcome_text(title: &str, outcome: BatchOutcome) -> (r: String)
    ensures
        r@ == outcome_words(title@, outcome),
{
    let mut out: String = title.to_owned();
    match outcome {
        BatchOutcome::Done { completed, errors } => {
            out.append(": finished ");
            append_decimal(&mut out, completed as u64);
            if errors == 0 {
                out.append(" image(s).");
            } else {
                out.append(" image(s), ");
                append_decimal(&mut out, errors as u64);
                out.append(" failed.");
            }
        },
        BatchOutcome::Cancelled { completed } => {
            if completed == 0 {
                out.append(" cancelled.");
            } else {
                out.append(" cancelled after ");
                append_decimal(&mut out, completed as u64);
                out.append(" image(s).");
            }
        },
    }
    out
}

/// What an event of an automatic job leads to. A job whose workers are gone is over, unless it
/// only waits for a preview.
pub fn poll_auto(event: AutoEvent, job: AutoJobState, title: &str, images: usize) -> (r: AutoStep)
    ensures
        match event {
            AutoEvent::Nothing => r is CheckPreview,
            AutoEvent::Lost => if job.applying_preview is Some {
                r is CheckPreview
            } else {
                r matches AutoStep::End { status: Some(s), previews_stale } && s@
                    == "Auto stopped unexpectedly."@ && !previews_stale
            },
            AutoEvent::Done(index) => if index < images {
                r == AutoStep::Apply(index)
            } else {
                r == (AutoStep::End { status: None, previews_stale: false })
            },
            AutoEvent::FileDone => r is ApplyFile,
            AutoEvent::CropFileDone => r is ApplyCrop,
            AutoEvent::Batch(outcome) => r matches AutoStep::End {
                status: Some(s),
                previews_stale,
            } && s@ == outcome_words(title@, outcome) && previews_stale,
            AutoEvent::Failed(message) => r == (AutoStep::End {
                status: Some(message),
                previews_stale: false,
            }),
        },
{
    match event {
        AutoEvent::Nothing => AutoStep::CheckPreview,
        AutoEvent::Lost => if job.applying_preview.is_some() {
            AutoStep::CheckPreview
        } else {
            AutoStep::End {
                status: Some("Auto stopped unexpectedly.".to_owned()),
                previews_stale: false,
            }
        },
        AutoEvent::Done(index) => if index < images {
            AutoStep::Apply(index)
        } else {
            AutoStep::End { status: None, previews_stale: false }
        },
        AutoEvent::FileDone => AutoStep::ApplyFile,
        AutoEvent::CropFileDone => AutoStep::ApplyCrop,
        AutoEvent::Batch(outcome) => AutoStep::End {
            status: Some(batch_outcome_text(title, outcome)),
            previews_stale: true,
        },
        AutoEvent::Failed(message) => AutoStep::End {
            status: Some(message),
            previews_stale: false,
        },
    }
}

/// How the wait for the preview of a result stands.
#[derive(Debug, Clone, Copy, PartialEq, Eq, Structural)]
pub enum PreviewWait {
    /// The job does not wait for a preview.
    NotWaiting,
    /// The picture is gone, and the job with it.
    PictureGone,
    /// The preview is there, and the job is done.
    Ready,
    Waiting,
}

/// What is known of the preview that a job waits for.
#[derive(Debug, Clone, Copy, PartialEq, Eq)]
pub struct PreviewSight {
    /// Whether a preview is being made.
    pub in_flight: bool,
    /// Whether the picture has a preview to show.
    pub shown: bool,
    /// Whether the preview that is shown is of the present options.
    pub current: bool,
    /// How far the job says it is.
    pub fraction: Single,
}

pub open spec fn preview_wait(job: AutoJobState, images: usize, sight: PreviewSight) -> PreviewWait {
    match job.applying_preview {
        None => PreviewWait::NotWaiting,
        Some(i) => if i >= images {
            PreviewWait::PictureGone
        } else if !sight.in_flight && sight.shown && (sight.current || Single::whole(1).at_most(
            sight.fraction,
        )) {
            PreviewWait::Ready
        } else {
            PreviewWait::Waiting
        },
    }
}

/// Whether the preview that a job waits for is there: none is being made, one is shown, and it
/// is current or the job says that all is done.
pub fn finish_auto_if_preview_ready(job: AutoJobState, images: usize, sight: PreviewSight) -> (r:
    PreviewWait)
    ensures
        r == preview_wait(job, images, sight),
{
    match job.applying_preview {
        None => PreviewWait::NotWaiting,
        Some(i) => if i >= images {
            PreviewWait::PictureGone
        } else if !sight.in_flight && sight.shown && (sight.current || Single::whole(1).at_most(
            sight.fraction,
        )) {
            PreviewWait::Ready
        } else {
            PreviewWait::Waiting
        },
    }
}

/// What comes from the exporter.
pub enum ExportEvent {
    Nothing,
    Lost,
    Done(usize),
    Cancelled(usize),
    Failed(String),
}

/// What the user reads when an export is over.
pub open spec fn export_words(event: ExportEvent) -> Option<Seq<char>> {
    match event {
        ExportEvent::Nothing => None,
        ExportEvent::Lost => Some("Export stopped unexpectedly."@),
        ExportEvent::Done(count) => Some(
            if count == 1 {
                "Exported 1 image."@
            } else {
                "Exported "@ + crate::text::decimal(count as nat) + " images."@
            },
        ),
        ExportEvent::Cancelled(completed) => Some(
            if completed == 0 {
                "Export cancelled."@
            } else {
                "Export cancelled after "@ + crate::text::decimal(completed as nat) + " image(s)."@
            },
        ),
        ExportEvent::Failed(e) => Some("Error: "@ + e@),
    }
}

/// The status that ends an export, or none while it goes on.
pub fn poll_export(event: &ExportEvent) -> (r: Option<String>)
    ensures
        match r {
            Some(s) => export_words(*event) == Some(s@),
            None => export_words(*event) is None,
        },
{
    match event {
        ExportEvent::Nothing => None,
        ExportEvent::Lost => Some("Export stopped unexpectedly.".to_owned()),
        ExportEvent::Done(count) => {
            if *count == 1 {
                return Some("Exported 1 image.".to_owned());
            }
            let mut out: String = "Exported ".to_owned();
            append_decimal(&mut out, *count as u64);
            out.append(" images.");
            Some(out)
        },
        ExportEvent::Cancelled(completed) => {
            if *completed == 0 {
                return Some("Export cancelled.".to_owned());
            }
            let mut out: String = "Export cancelled after ".to_owned();
            append_decimal(&mut out, *completed as u64);
            out.append(" image(s).");
            Some(out)
        },
        ExportEvent::Failed(e) => {
            let mut out: String = "Error: ".to_owned();
            out.append(e.as_str());
            Some(out)
        },
    }
}

/// How long an export runs before its window is shown, in milliseconds.
pub const EXPORT_PROGRESS_DELAY_MS: u64 = 400;

/// How many milliseconds are left before the export window is shown; none when it is time.
pub fn export_window_delay(elapsed_ms: u64) -> (r: Option<u64>)
    ensures
        r == if elapsed_ms < EXPORT_PROGRESS_DELAY_MS {
            Some((EXPORT_PROGRESS_DELAY_MS - elapsed_ms) as u64)
        } else {
            None
        },
{
    if elapsed_ms < EXPORT_PROGRESS_DELAY_MS {
        Some(EXPORT_PROGRESS_DELAY_MS - elapsed_ms)
    } else {
        None
    }
}

/// Figures of an automatic development that the user is shown.
#[derive(Debug, Clone, Copy, PartialEq, Eq)]
pub struct AutoFigures {
    pub density: Single,
    pub grade: Single,
    pub hardness: Single,
}

/// The figures for a result: density and hardness as offsets from one, and the print grade as
/// a multiple of the normal contrast of 2.5.
pub fn auto_figures(result: &crate::auto::AutoTuneResult) -> (r: AutoFigures)
    ensures
        r.hardness == result.lut_in_mid.minus(Single::whole(1)),
        r.density == Single::whole(1).plus(result.curve_offset),
        r.grade == if Single::whole(0).less(result.curve_gamma) {
            result.curve_gamma.over(Single::ratio(5, 2))
        } else {
            Single::whole(1)
        },
{
    AutoFigures {
        density: Single::whole(1).plus(result.curve_offset),
        grade: if Single::whole(0).less(result.curve_gamma) {
            result.curve_gamma.over(Single::ratio(5, 2))
        } else {
            Single::whole(1)
        },
        hardness: result.lut_in_mid.minus(Single::whole(1)),
    }
}

} // verus!
