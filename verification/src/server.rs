//! The steps that make a tile, what a request is answered, and what is counted.

use crate::text::{joined, slice_views};
use vstd::prelude::*;

verus! {

/// The steps in which a tile is made.
#[derive(Debug, Clone, Copy, PartialEq, Eq, Structural)]
pub enum Stage {
    /// Go to the start of the file.
    Seek,
    /// Open the first image directory.
    Open,
    /// Read the metadata of the first image directory and keep it.
    Metadata,
    /// Go back to the start after the metadata.
    MetadataRewind,
    /// Open the first image directory again after the metadata.
    MetadataReopen,
    /// Plan what is read of the image.
    Plan,
    /// Find the parts of the file that the plan needs.
    Locate,
    /// Fetch those parts.
    Prefetch,
    /// Go back to the start after fetching.
    Rewind,
    /// Open the first image directory again after fetching.
    Reopen,
    /// Go on to the next image directory.
    NextDirectory,
    /// Read and resample the planned chunks.
    Extract,
    /// Encode the tile.
    Encode,
    /// The tile is made.
    Finished,
}

/// What came of a step.
pub enum StepOutcome {
    Done,
    /// The plan was made, for the image directory with this number.
    Planned(u32),
    Failed(String),
}

/// What the message for a failed step begins with. Metadata that cannot be read is no failure.
pub open spec fn failure_prefix(stage: Stage) -> Option<Seq<char>> {
    match stage {
        Stage::Seek => Some("Reader seek error: "@),
        Stage::Open => Some("TIFF decoder init error: "@),
        Stage::MetadataRewind | Stage::Rewind => Some("Reader re-seek error: "@),
        Stage::MetadataReopen | Stage::Reopen => Some("TIFF decoder re-init error: "@),
        Stage::Plan => Some("Planning error: "@),
        Stage::Locate => Some("Prefetch calculation error: "@),
        Stage::Prefetch => Some("Prefetch error: "@),
        Stage::NextDirectory => Some("IFD traversal error: "@),
        Stage::Extract => Some(Seq::empty()),
        Stage::Encode => Some("PNG encode error: "@),
        Stage::Metadata | Stage::Finished => None,
    }
}

/// The making of a tile: the step to perform next, whether the file's metadata has yet to be read,
/// and how many image directories lie before the planned one.
#[derive(Debug, Clone, Copy)]
pub struct TileJob {
    pub stage: Stage,
    pub needs_metadata: bool,
    pub directories: u32,
}

impl TileJob {
    /// The making of a tile from its first step.
    pub fn new(needs_metadata: bool) -> (job: TileJob)
        ensures
            job == (TileJob { stage: Stage::Seek, needs_metadata, directories: 0 }),
    {
        TileJob { stage: Stage::Seek, needs_metadata, directories: 0 }
    }

    /// The job after its step was performed, the planning of a directory being a step of its own.
    pub open spec fn advanced(self, planned: Option<u32>) -> TileJob {
        let directories = match (self.stage, planned) {
            (Stage::Plan, Some(number)) => number,
            (Stage::NextDirectory, _) => (self.directories - 1) as u32,
            _ => self.directories,
        };
        let stage = match self.stage {
            Stage::Seek => Stage::Open,
            Stage::Open => if self.needs_metadata {
                Stage::Metadata
            } else {
                Stage::Plan
            },
            Stage::Metadata => Stage::MetadataRewind,
            Stage::MetadataRewind => Stage::MetadataReopen,
            Stage::MetadataReopen => Stage::Plan,
            Stage::Plan => Stage::Locate,
            Stage::Locate => Stage::Prefetch,
            Stage::Prefetch => Stage::Rewind,
            Stage::Rewind => Stage::Reopen,
            Stage::Reopen | Stage::NextDirectory => if directories > 0 {
                Stage::NextDirectory
            } else {
                Stage::Extract
            },
            Stage::Extract => Stage::Encode,
            Stage::Encode | Stage::Finished => Stage::Finished,
        };
        TileJob { stage, needs_metadata: self.needs_metadata, directories }
    }

    /// A step that goes on to the next directory has a directory to go on to.
    pub open spec fn wf(self) -> bool {
        self.stage == Stage::NextDirectory ==> self.directories > 0
    }

    /// Goes on to the next step, or gives the message with which the job ends.
    pub fn step(&mut self, outcome: StepOutcome) -> (result: Result<Stage, String>)
        requires
            old(self).wf(),
        ensures
            final(self).wf(),
            match outcome {
                StepOutcome::Done => {
                    &&& *final(self) == old(self).advanced(None)
                    &&& result == Ok::<Stage, String>(final(self).stage)
                },
                StepOutcome::Planned(number) => {
                    &&& *final(self) == old(self).advanced(Some(number))
                    &&& result == Ok::<Stage, String>(final(self).stage)
                },
                StepOutcome::Failed(text) => match failure_prefix(old(self).stage) {
                    Some(prefix) => {
                        &&& *final(self) == *old(self)
                        &&& result matches Err(message) && message@ == prefix + text@
                    },
                    None => {
                        &&& *final(self) == old(self).advanced(None)
                        &&& result == Ok::<Stage, String>(final(self).stage)
                    },
                },
            },
    {
        if let StepOutcome::Failed(text) = &outcome {
            let prefix: &str = match self.stage {
                Stage::Seek => "Reader seek error: ",
                Stage::Open => "TIFF decoder init error: ",
                Stage::MetadataRewind | Stage::Rewind => "Reader re-seek error: ",
                Stage::MetadataReopen | Stage::Reopen => "TIFF decoder re-init error: ",
                Stage::Plan => "Planning error: ",
                Stage::Locate => "Prefetch calculation error: ",
                Stage::Prefetch => "Prefetch error: ",
                Stage::NextDirectory => "IFD traversal error: ",
                Stage::Extract => "",
                Stage::Encode => "PNG encode error: ",
                Stage::Metadata | Stage::Finished => "",
            };
            proof {
                reveal_strlit("");
                assert(""@ =~= Seq::<char>::empty());
            }
            if self.stage != Stage::Metadata && self.stage != Stage::Finished {
                return Err(joined(prefix, text.as_str()));
            }
        }
        if self.stage == Stage::NextDirectory {
            self.directories = self.directories - 1;
        } else if self.stage == Stage::Plan {
            if let StepOutcome::Planned(number) = outcome {
                self.directories = number;
            }
        }
        self.stage = match self.stage {
            Stage::Seek => Stage::Open,
            Stage::Open => if self.needs_metadata {
                Stage::Metadata
            } else {
                Stage::Plan
            },
            Stage::Metadata => Stage::MetadataRewind,
            Stage::MetadataRewind => Stage::MetadataReopen,
            Stage::MetadataReopen => Stage::Plan,
            Stage::Plan => Stage::Locate,
            Stage::Locate => Stage::Prefetch,
            Stage::Prefetch => Stage::Rewind,
            Stage::Rewind => Stage::Reopen,
            Stage::Reopen | Stage::NextDirectory => if self.directories > 0 {
                Stage::NextDirectory
            } else {
                Stage::Extract
            },
            Stage::Extract => Stage::Encode,
            Stage::Encode | Stage::Finished => Stage::Finished,
        };
        Ok(self.stage)
    }
}

/// A job after a number of steps, none of which failed, with a plan for directory `number`.
pub open spec fn after_steps(job: TileJob, number: u32, steps: nat) -> TileJob
    decreases steps,
{
    if steps == 0 {
        job
    } else {
        after_steps(job, number, (steps - 1) as nat).advanced(Some(number))
    }
}

/// The number of steps before the planned directory is sought.
pub open spec fn steps_to_reopen(needs_metadata: bool) -> nat {
    if needs_metadata {
        9
    } else {
        6
    }
}

proof fn lemma_reaches_reopen(needs_metadata: bool, number: u32)
    ensures
        after_steps(
            TileJob { stage: Stage::Seek, needs_metadata, directories: 0 },
            number,
            steps_to_reopen(needs_metadata),
        ) == (TileJob { stage: Stage::Reopen, needs_metadata, directories: number }),
{
    reveal_with_fuel(after_steps, 10);
}

proof fn lemma_reaches_directory(needs_metadata: bool, number: u32, visited: nat)
    requires
        visited <= number,
    ensures
        after_steps(
            TileJob { stage: Stage::Seek, needs_metadata, directories: 0 },
            number,
            steps_to_reopen(needs_metadata) + 1 + visited,
        ) == (TileJob {
            stage: if visited < number {
                Stage::NextDirectory
            } else {
                Stage::Extract
            },
            needs_metadata,
            directories: (number - visited) as u32,
        }),
    decreases visited,
{
    if visited == 0 {
        lemma_reaches_reopen(needs_metadata, number);
    } else {
        lemma_reaches_directory(needs_metadata, number, (visited - 1) as nat);
    }
}

/// A job that meets no failure reads the metadata if the file's metadata has yet to be read, and
/// only then.
pub proof fn law_metadata_is_read_when_needed(needs_metadata: bool, number: u32)
    ensures
        after_steps(
            TileJob { stage: Stage::Seek, needs_metadata, directories: 0 },
            number,
            2,
        ).stage == if needs_metadata {
            Stage::Metadata
        } else {
            Stage::Plan
        },
{
    reveal_with_fuel(after_steps, 3);
}

/// A job that meets no failure goes on to the next directory exactly as often as the planned
/// directory's number says before it extracts the tile.
pub proof fn law_planned_directory_is_reached(needs_metadata: bool, number: u32, visited: nat)
    requires
        visited <= number,
    ensures
        after_steps(
            TileJob { stage: Stage::Seek, needs_metadata, directories: 0 },
            number,
            steps_to_reopen(needs_metadata) + 1 + visited,
        ).stage == if visited < number {
            Stage::NextDirectory
        } else {
            Stage::Extract
        },
{
    lemma_reaches_directory(needs_metadata, number, visited);
}

/// A job that meets no failure finishes.
pub proof fn law_job_finishes(needs_metadata: bool, number: u32)
    ensures
        after_steps(
            TileJob { stage: Stage::Seek, needs_metadata, directories: 0 },
            number,
            steps_to_reopen(needs_metadata) + 3 + number as nat,
        ).stage == Stage::Finished,
{
    lemma_reaches_directory(needs_metadata, number, number as nat);
    reveal_with_fuel(after_steps, 3);
}

/// Totals over all requests.
#[derive(Debug, Clone, Copy)]
pub struct Metrics {
    pub total_requests: u64,
    pub total_errors: u64,
    pub cumulative_load_time_ms: u64,
    pub cumulative_resample_time_ms: u64,
    pub cumulative_encode_time_ms: u64,
}

impl Default for Metrics {
    fn default() -> (metrics: Metrics)
        ensures
            metrics == Metrics::zero(),
    {
        Metrics {
            total_requests: 0,
            total_errors: 0,
            cumulative_load_time_ms: 0,
            cumulative_resample_time_ms: 0,
            cumulative_encode_time_ms: 0,
        }
    }
}

/// What became of a request: the file could not be asked for its length, the worker was lost, the
/// tile could not be made, or it was, with the milliseconds that its steps took.
pub enum Outcome {
    HeadFailed(String),
    WorkerLost,
    Rejected(String),
    Rendered { png: Vec<u8>, load_ms: u64, resample_ms: u64, encode_ms: u64 },
}

/// The answer to a request: a PNG image, or the code of an HTTP status.
pub enum Reply {
    Image(Vec<u8>),
    Status(u16),
}

impl Metrics {
    /// The totals before the first request.
    pub open spec fn zero() -> Metrics {
        Metrics {
            total_requests: 0,
            total_errors: 0,
            cumulative_load_time_ms: 0,
            cumulative_resample_time_ms: 0,
            cumulative_encode_time_ms: 0,
        }
    }

    /// Whether the totals can take up a request.
    pub open spec fn has_room(self, outcome: Outcome) -> bool {
        match outcome {
            Outcome::HeadFailed(_) => true,
            Outcome::WorkerLost | Outcome::Rejected(_) => self.total_errors < u64::MAX,
            Outcome::Rendered { load_ms, resample_ms, encode_ms, .. } => {
                &&& self.total_requests < u64::MAX
                &&& self.cumulative_load_time_ms + load_ms <= u64::MAX
                &&& self.cumulative_resample_time_ms + resample_ms <= u64::MAX
                &&& self.cumulative_encode_time_ms + encode_ms <= u64::MAX
            },
        }
    }

    /// The totals with a request taken up.
    pub open spec fn counted(self, outcome: Outcome) -> Metrics {
        match outcome {
            Outcome::HeadFailed(_) => self,
            Outcome::WorkerLost | Outcome::Rejected(_) => Metrics {
                total_errors: (self.total_errors + 1) as u64,
                ..self
            },
            Outcome::Rendered { load_ms, resample_ms, encode_ms, .. } => Metrics {
                total_requests: (self.total_requests + 1) as u64,
                total_errors: self.total_errors,
                cumulative_load_time_ms: (self.cumulative_load_time_ms + load_ms) as u64,
                cumulative_resample_time_ms: (self.cumulative_resample_time_ms
                    + resample_ms) as u64,
                cumulative_encode_time_ms: (self.cumulative_encode_time_ms + encode_ms) as u64,
            },
        }
    }

    /// Tells whether the totals can take up a request.
    pub fn can_count(&self, outcome: &Outcome) -> (room: bool)
        ensures
            room == self.has_room(*outcome),
    {
        match outcome {
            Outcome::HeadFailed(_) => true,
            Outcome::WorkerLost | Outcome::Rejected(_) => self.total_errors < u64::MAX,
            Outcome::Rendered { load_ms, resample_ms, encode_ms, .. } => {
                self.total_requests < u64::MAX && self.cumulative_load_time_ms <= u64::MAX
                    - *load_ms && self.cumulative_resample_time_ms <= u64::MAX - *resample_ms
                    && self.cumulative_encode_time_ms <= u64::MAX - *encode_ms
            },
        }
    }

    /// Takes up a request.
    pub fn count(&mut self, outcome: &Outcome)
        requires
            old(self).has_room(*outcome),
        ensures
            *final(self) == old(self).counted(*outcome),
    {
        match outcome {
            Outcome::HeadFailed(_) => {},
            Outcome::WorkerLost | Outcome::Rejected(_) => {
                self.total_errors = self.total_errors + 1;
            },
            Outcome::Rendered { load_ms, resample_ms, encode_ms, .. } => {
                self.total_requests = self.total_requests + 1;
                self.cumulative_load_time_ms = self.cumulative_load_time_ms + *load_ms;
                self.cumulative_resample_time_ms = self.cumulative_resample_time_ms + *resample_ms;
                self.cumulative_encode_time_ms = self.cumulative_encode_time_ms + *encode_ms;
            },
        }
    }
}

/// The line that is printed for a request, if there is one.
pub open spec fn outcome_line(outcome: Outcome) -> Option<Seq<char>> {
    match outcome {
        Outcome::HeadFailed(text) => Some("HEAD error: "@ + text@),
        Outcome::Rejected(text) => Some("Error processing tile: "@ + text@),
        _ => None,
    }
}

/// Writes the line that is printed for a request.
pub fn report(outcome: &Outcome) -> (line: Option<String>)
    ensures
        match (line, outcome_line(*outcome)) {
            (Some(line), Some(text)) => line@ == text,
            (None, None) => true,
            _ => false,
        },
{
    match outcome {
        Outcome::HeadFailed(text) => Some(joined("HEAD error: ", text.as_str())),
        Outcome::Rejected(text) => Some(joined("Error processing tile: ", text.as_str())),
        Outcome::WorkerLost | Outcome::Rendered { .. } => None,
    }
}

/// Answers a request: a file or a tile that fails is the request's fault, a lost worker is not.
pub fn answer(outcome: Outcome) -> (reply: Reply)
    ensures
        match outcome {
            Outcome::HeadFailed(_) | Outcome::Rejected(_) => reply == Reply::Status(400),
            Outcome::WorkerLost => reply == Reply::Status(500),
            Outcome::Rendered { png, .. } => reply == Reply::Image(png),
        },
{
    match outcome {
        Outcome::HeadFailed(_) | Outcome::Rejected(_) => Reply::Status(400),
        Outcome::WorkerLost => Reply::Status(500),
        Outcome::Rendered { png, .. } => Reply::Image(png),
    }
}

/// The headers of an answer: a tile is a PNG image that pages of every origin may use.
pub open spec fn reply_headers(reply: Reply) -> Seq<(Seq<char>, Seq<char>)> {
    match reply {
        Reply::Image(_) => seq![
            ("content-type"@, "image/png"@),
            ("access-control-allow-origin"@, "*"@),
        ],
        Reply::Status(_) => Seq::empty(),
    }
}

impl Reply {
    /// The code of the HTTP status of an answer.
    pub fn status(&self) -> (code: u16)
        ensures
            code == match *self {
                Reply::Image(_) => 200u16,
                Reply::Status(code) => code,
            },
    {
        match self {
            Reply::Image(_) => 200,
            Reply::Status(code) => *code,
        }
    }

    /// Lists the headers of an answer.
    pub fn headers(&self) -> (headers: Vec<(&'static str, &'static str)>)
        ensures
            slice_views(headers@) == reply_headers(*self),
    {
        let mut headers: Vec<(&'static str, &'static str)> = Vec::new();
        match self {
            Reply::Image(_) => {
                headers.push(("content-type", "image/png"));
                headers.push(("access-control-allow-origin", "*"));
            },
            Reply::Status(_) => {},
        }
        assert(slice_views(headers@) =~= reply_headers(*self));
        headers
    }
}

/// The totals after a series of requests.
pub open spec fn after_requests(metrics: Metrics, outcomes: Seq<Outcome>) -> Metrics
    decreases outcomes.len(),
{
    if outcomes.len() == 0 {
        metrics
    } else {
        after_requests(metrics, outcomes.drop_last()).counted(outcomes.last())
    }
}

/// Whether the totals can take up each of a series of requests in turn.
pub open spec fn room_for_requests(metrics: Metrics, outcomes: Seq<Outcome>) -> bool {
    forall|i: int|
        0 <= i < outcomes.len() ==> #[trigger] after_requests(metrics, outcomes.take(i)).has_room(
            outcomes[i],
        )
}

/// The totals tell how many tiles were made and how many requests failed after their file was
/// found.
pub proof fn law_totals_count_the_requests(outcomes: Seq<Outcome>)
    requires
        room_for_requests(Metrics::zero(), outcomes),
    ensures
        after_requests(Metrics::zero(), outcomes).total_requests == outcomes.filter(
            |outcome: Outcome| outcome is Rendered,
        ).len(),
        after_requests(Metrics::zero(), outcomes).total_errors == outcomes.filter(
            |outcome: Outcome| outcome is WorkerLost || outcome is Rejected,
        ).len(),
    decreases outcomes.len(),
{
    reveal(Seq::filter);
    if outcomes.len() > 0 {
        let rest = outcomes.drop_last();
        let zero = Metrics::zero();
        assert forall|i: int| 0 <= i < rest.len() implies #[trigger] after_requests(
            zero,
            rest.take(i),
        ).has_room(rest[i]) by {
            assert(rest.take(i) =~= outcomes.take(i));
            assert(after_requests(zero, outcomes.take(i)).has_room(outcomes[i]));
        }
        law_totals_count_the_requests(rest);
        assert(outcomes.take(outcomes.len() - 1) =~= rest);
        assert(after_requests(zero, rest).has_room(outcomes.last()));
    }
}

/// The making of a tile goes on from step to step, past the metadata unless it has yet to be read,
/// and past the image directories that lie before the planned one. A step that fails ends it, with
/// a message that names the step, but for the reading of the metadata, which may fail.
pub proof fn law_steps_follow_each_other(
    job: &mut TileJob,
    outcome: StepOutcome,
    result: Result<Stage, String>,
)
    requires
        call_ensures(TileJob::step, (job, outcome), result),
        old(job).wf(),
    ensures
        final(job).needs_metadata == old(job).needs_metadata,
        final(job).directories == match (old(job).stage, outcome) {
            (Stage::Plan, StepOutcome::Planned(number)) => number as int,
            (Stage::NextDirectory, StepOutcome::Failed(_)) => old(job).directories as int,
            (Stage::NextDirectory, _) => old(job).directories - 1,
            _ => old(job).directories as int,
        },
        outcome is Failed && old(job).stage != Stage::Metadata && old(job).stage != Stage::Finished
            ==> final(job).stage == old(job).stage && result is Err,
        !(outcome is Failed) || old(job).stage == Stage::Metadata || old(job).stage
            == Stage::Finished ==> {
            &&& result == Ok::<Stage, String>(final(job).stage)
            &&& old(job).stage == Stage::Seek ==> final(job).stage == Stage::Open
            &&& old(job).stage == Stage::Open && old(job).needs_metadata ==> final(job).stage
                == Stage::Metadata
            &&& old(job).stage == Stage::Open && !old(job).needs_metadata ==> final(job).stage
                == Stage::Plan
            &&& old(job).stage == Stage::Metadata ==> final(job).stage == Stage::MetadataRewind
            &&& old(job).stage == Stage::MetadataRewind ==> final(job).stage
                == Stage::MetadataReopen
            &&& old(job).stage == Stage::MetadataReopen ==> final(job).stage == Stage::Plan
            &&& old(job).stage == Stage::Plan ==> final(job).stage == Stage::Locate
            &&& old(job).stage == Stage::Locate ==> final(job).stage == Stage::Prefetch
            &&& old(job).stage == Stage::Prefetch ==> final(job).stage == Stage::Rewind
            &&& old(job).stage == Stage::Rewind ==> final(job).stage == Stage::Reopen
            &&& old(job).stage == Stage::Reopen || old(job).stage == Stage::NextDirectory
                ==> final(job).stage == if final(job).directories == 0 {
                Stage::Extract
            } else {
                Stage::NextDirectory
            }
            &&& old(job).stage == Stage::Extract ==> final(job).stage == Stage::Encode
            &&& old(job).stage == Stage::Encode ==> final(job).stage == Stage::Finished
            &&& old(job).stage == Stage::Finished ==> final(job).stage == Stage::Finished
        },
{
}

/// The message for a step that failed begins with a text of its own and ends with the reason; that
/// of reading the chunks is the reason alone.
pub proof fn law_failed_steps_are_told_apart(
    job: &mut TileJob,
    text: String,
    result: Result<Stage, String>,
)
    requires
        call_ensures(TileJob::step, (job, StepOutcome::Failed(text)), result),
    ensures
        match old(job).stage {
            Stage::Seek => result matches Err(e) && e@ == "Reader seek error: "@ + text@,
            Stage::Open => result matches Err(e) && e@ == "TIFF decoder init error: "@ + text@,
            Stage::MetadataRewind => result matches Err(e) && e@ == "Reader re-seek error: "@
                + text@,
            Stage::Rewind => result matches Err(e) && e@ == "Reader re-seek error: "@ + text@,
            Stage::MetadataReopen => result matches Err(e) && e@ == "TIFF decoder re-init error: "@
                + text@,
            Stage::Reopen => result matches Err(e) && e@ == "TIFF decoder re-init error: "@ + text@,
            Stage::Plan => result matches Err(e) && e@ == "Planning error: "@ + text@,
            Stage::Locate => result matches Err(e) && e@ == "Prefetch calculation error: "@ + text@,
            Stage::Prefetch => result matches Err(e) && e@ == "Prefetch error: "@ + text@,
            Stage::NextDirectory => result matches Err(e) && e@ == "IFD traversal error: "@ + text@,
            Stage::Extract => result matches Err(e) && e@ == text@,
            Stage::Encode => result matches Err(e) && e@ == "PNG encode error: "@ + text@,
            Stage::Metadata => result is Ok,
            Stage::Finished => result is Ok,
        },
{
    assert(Seq::<char>::empty() + text@ =~= text@);
}

/// A tile is made from the first step on.
pub proof fn law_jobs_start_at_the_start_of_the_file(needs_metadata: bool, job: TileJob)
    requires
        call_ensures(TileJob::new, (needs_metadata,), job),
    ensures
        job.stage == Stage::Seek,
        job.needs_metadata == needs_metadata,
        job.directories == 0,
        job.wf(),
{
}

/// A tile that was made counts as a request, with the milliseconds of its steps; a tile that could
/// not be made, and a lost worker, count as an error; a file that could not be asked for its length
/// does not count. Nothing else changes.
pub proof fn law_requests_are_counted_once(metrics: &mut Metrics, outcome: Outcome)
    requires
        call_ensures(Metrics::count, (metrics, &outcome), ()),
        old(metrics).has_room(outcome),
    ensures
        final(metrics).total_requests - old(metrics).total_requests == if outcome is Rendered {
            1int
        } else {
            0
        },
        final(metrics).total_errors - old(metrics).total_errors == if outcome is WorkerLost
            || outcome is Rejected {
            1int
        } else {
            0
        },
        final(metrics).cumulative_load_time_ms - old(metrics).cumulative_load_time_ms
            == match outcome {
            Outcome::Rendered { load_ms, .. } => load_ms as int,
            _ => 0,
        },
        final(metrics).cumulative_resample_time_ms - old(metrics).cumulative_resample_time_ms
            == match outcome {
            Outcome::Rendered { resample_ms, .. } => resample_ms as int,
            _ => 0,
        },
        final(metrics).cumulative_encode_time_ms - old(metrics).cumulative_encode_time_ms
            == match outcome {
            Outcome::Rendered { encode_ms, .. } => encode_ms as int,
            _ => 0,
        },
{
}

/// There is room for a request if each total that it adds to stays a number of 64 bits.
pub proof fn law_totals_have_room_up_to_64_bits(metrics: Metrics, outcome: Outcome, room: bool)
    requires
        call_ensures(Metrics::can_count, (&metrics, &outcome), room),
    ensures
        room == metrics.has_room(outcome),
        room <==> match outcome {
            Outcome::HeadFailed(_) => true,
            Outcome::WorkerLost => metrics.total_errors + 1 < 0x1_0000_0000_0000_0000,
            Outcome::Rejected(_) => metrics.total_errors + 1 < 0x1_0000_0000_0000_0000,
            Outcome::Rendered { load_ms, resample_ms, encode_ms, .. } => {
                &&& metrics.total_requests + 1 < 0x1_0000_0000_0000_0000
                &&& metrics.cumulative_load_time_ms + load_ms < 0x1_0000_0000_0000_0000
                &&& metrics.cumulative_resample_time_ms + resample_ms < 0x1_0000_0000_0000_0000
                &&& metrics.cumulative_encode_time_ms + encode_ms < 0x1_0000_0000_0000_0000
            },
        },
{
}

/// The totals of all times are the sums of the times of the tiles that were made.
pub proof fn law_totals_sum_up_the_times(outcomes: Seq<Outcome>, last: Outcome)
    requires
        room_for_requests(Metrics::zero(), outcomes.push(last)),
    ensures
        Metrics::zero().total_requests == 0,
        Metrics::zero().total_errors == 0,
        after_requests(Metrics::zero(), Seq::empty()).cumulative_load_time_ms == 0,
        after_requests(Metrics::zero(), Seq::empty()).cumulative_resample_time_ms == 0,
        after_requests(Metrics::zero(), Seq::empty()).cumulative_encode_time_ms == 0,
        ({
            let before = after_requests(Metrics::zero(), outcomes);
            let after = after_requests(Metrics::zero(), outcomes.push(last));
            match last {
                Outcome::Rendered { load_ms, resample_ms, encode_ms, .. } => {
                    &&& after.cumulative_load_time_ms == before.cumulative_load_time_ms + load_ms
                    &&& after.cumulative_resample_time_ms == before.cumulative_resample_time_ms
                        + resample_ms
                    &&& after.cumulative_encode_time_ms == before.cumulative_encode_time_ms
                        + encode_ms
                },
                _ => {
                    &&& after.cumulative_load_time_ms == before.cumulative_load_time_ms
                    &&& after.cumulative_resample_time_ms == before.cumulative_resample_time_ms
                    &&& after.cumulative_encode_time_ms == before.cumulative_encode_time_ms
                },
            }
        }),
{
    let all = outcomes.push(last);
    let n = outcomes.len() as int;
    assert(all.drop_last() =~= outcomes);
    assert(all.take(n) =~= outcomes);
    assert(after_requests(Metrics::zero(), all.take(n)).has_room(all[n]));
}

/// A tile is answered with itself, as a PNG image that pages of every origin may use; a file or a
/// tile that fails is answered as a bad request, and a lost worker as an error of the server.
pub proof fn law_requests_are_answered(
    outcome: Outcome,
    reply: Reply,
    code: u16,
    headers: Vec<(&'static str, &'static str)>,
)
    requires
        call_ensures(answer, (outcome,), reply),
        call_ensures(Reply::status, (&reply,), code),
        call_ensures(Reply::headers, (&reply,), headers),
    ensures
        match outcome {
            Outcome::Rendered { png, .. } => {
                &&& reply == Reply::Image(png)
                &&& code == 200
                &&& headers@.len() == 2
                &&& headers@[0].0@ == "content-type"@ && headers@[0].1@ == "image/png"@
                &&& headers@[1].0@ == "access-control-allow-origin"@ && headers@[1].1@ == "*"@
            },
            Outcome::WorkerLost => reply is Status && code == 500 && headers@.len() == 0,
            Outcome::HeadFailed(_) => reply is Status && code == 400 && headers@.len() == 0,
            Outcome::Rejected(_) => reply is Status && code == 400 && headers@.len() == 0,
        },
{
    let views = slice_views(headers@);
    assert(views.len() == headers@.len());
    if outcome is Rendered {
        assert(views[0] == ("content-type"@, "image/png"@));
        assert(views[1] == ("access-control-allow-origin"@, "*"@));
    }
}

/// A line is printed for each request whose file or tile failed, with the reason, and for no other.
pub proof fn law_failures_are_printed(outcome: Outcome, line: Option<String>)
    requires
        call_ensures(report, (&outcome,), line),
    ensures
        match outcome {
            Outcome::HeadFailed(text) => line matches Some(line) && line@ == "HEAD error: "@
                + text@,
            Outcome::Rejected(text) => line matches Some(line) && line@
                == "Error processing tile: "@ + text@,
            Outcome::WorkerLost => line is None,
            Outcome::Rendered { .. } => line is None,
        },
{
}

/// Nothing is counted at first.
pub proof fn law_totals_start_at_zero(metrics: Metrics)
    requires
        call_ensures(<Metrics as Default>::default, (), metrics),
    ensures
        metrics.total_requests == 0,
        metrics.total_errors == 0,
        metrics.cumulative_load_time_ms == 0,
        metrics.cumulative_resample_time_ms == 0,
        metrics.cumulative_encode_time_ms == 0,
{
}

/// A status is answered as it is, without headers.
pub proof fn law_statuses_are_answered_as_they_are(
    code: u16,
    told: u16,
    headers: Vec<(&'static str, &'static str)>,
)
    requires
        call_ensures(Reply::status, (&Reply::Status(code),), told),
        call_ensures(Reply::headers, (&Reply::Status(code),), headers),
    ensures
        told == code,
        headers@.len() == 0,
{
    assert(slice_views(headers@).len() == headers@.len());
}

} // verus!
