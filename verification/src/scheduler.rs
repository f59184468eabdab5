//! The decisions of the download scheduler: how long to wait before a
//! segment is tried again, what follows each attempt, and what the run as a
//! whole comes to once every segment has been dealt with.
use crate::crypto::EncryptionView;
use crate::download::{response_concluded, verdict_view, DownloadResult, FetchFault, FetchVerdict};
use crate::manifest::{file_name, file_name_of, manifest_entry, manifest_line};
use crate::text::{append_chars, from_chars, to_chars};
use rand::rngs::{OsRng, SmallRng};
use rand::{Rng, SeedableRng};
use vstd::arithmetic::power2::{lemma2_to64, lemma_pow2_strictly_increases, pow2};
use vstd::prelude::*;

verus! {

/// The most attempts that are made at one segment. With waits of up to
/// eleven seconds between them, fifteen attempts keep at an address for
/// over two minutes before the download is given up.
pub const MAX_RETRIES: u32 = 15;

/// The longest wait between two attempts, in seconds, before the random
/// part is added.
pub const MAX_BACKOFF_SECS: u64 = 10;

/// The random part of a wait is below this many milliseconds.
pub const JITTER_MS: u64 = 1000;

/// The fixed part of the wait after the attempt with the given number,
/// counted from one, in seconds: one second after the first attempt, twice
/// as long after each further one, and never more than
/// [`MAX_BACKOFF_SECS`].
pub open spec fn backoff_base_secs(attempt: u32) -> nat {
    let doubled = pow2(
        if attempt >= 1 {
            (attempt - 1) as nat
        } else {
            0
        },
    );
    if doubled < MAX_BACKOFF_SECS {
        doubled
    } else {
        MAX_BACKOFF_SECS as nat
    }
}

/// The wait after the attempt with the given number, in milliseconds, with
/// the given random part.
pub open spec fn backoff_ms(attempt: u32, jitter_ms: u64) -> nat {
    backoff_base_secs(attempt) * 1000 + jitter_ms as nat
}

/// The fixed part of the wait after the attempt with the given number, in
/// seconds.
pub fn backoff_base(attempt: u32) -> (secs: u64)
    ensures
        secs == backoff_base_secs(attempt),
        1 <= secs <= MAX_BACKOFF_SECS,
{
    proof {
        lemma2_to64();
        if attempt > 5 {
            lemma_pow2_strictly_increases(4, (attempt - 1) as nat);
        }
    }
    if attempt <= 1 {
        1
    } else if attempt == 2 {
        2
    } else if attempt == 3 {
        4
    } else if attempt == 4 {
        8
    } else {
        10
    }
}

/// The wait after the attempt with the given number, in milliseconds: the
/// fixed part and the given random part.
pub fn backoff_delay(attempt: u32, jitter_ms: u64) -> (ms: u64)
    requires
        jitter_ms < JITTER_MS,
    ensures
        ms == backoff_ms(attempt, jitter_ms),
{
    backoff_base(attempt) * 1000 + jitter_ms
}

/// `rand::rngs::SmallRng`, a small and fast random number generator.
/// Nothing is known of what is inside.
#[verifier::external_type_specification]
#[verifier::external_body]
pub struct ExSmallRng(SmallRng);

/// Calls `SmallRng::from_rng` on `rand::rngs::OsRng`, which seeds a
/// generator from the operating system, and gives `None` where the
/// operating system has no entropy to give. Nothing is claimed of the
/// generator, nor of when there is one.
#[verifier::external_body]
fn seeded_generator() -> Option<SmallRng> {
    SmallRng::from_rng(OsRng).ok()
}

/// Calls `Rng::gen_range` on the range from zero up to and without `bound`.
/// The number that comes back lies in the range, whatever it is; the range
/// must not be empty.
#[verifier::external_body]
fn random_below(generator: &mut SmallRng, bound: u64) -> (r: u64)
    requires
        bound > 0,
    ensures
        r < bound,
{
    generator.gen_range(0..bound)
}

/// Draws the wait after the attempt with the given number, in milliseconds:
/// the fixed part, and a random part below [`JITTER_MS`]. Where the
/// operating system gives no seed for the draw, the random part is zero.
pub fn next_backoff(attempt: u32) -> (ms: u64)
    ensures
        backoff_base_secs(attempt) * 1000 <= ms < backoff_base_secs(attempt) * 1000 + JITTER_MS,
        exists|jitter: u64| jitter < JITTER_MS && ms == backoff_ms(attempt, jitter),
{
    let jitter: u64 = match seeded_generator() {
        Some(mut generator) => random_below(&mut generator, JITTER_MS),
        None => 0,
    };
    let ms: u64 = backoff_delay(attempt, jitter);
    assert(jitter < JITTER_MS && ms == backoff_ms(attempt, jitter));
    ms
}

/// What follows an attempt at a segment.
#[derive(Debug, Clone)]
pub enum RetryAction {
    /// The segment is there. `entry` is the line to append to the
    /// completion record, where the file has a name; then the segment is
    /// counted as complete and `path` is kept for the merge.
    Complete { entry: Option<String>, path: String },
    /// The attempt ended without a segment and without a fault: nothing is
    /// recorded and the segment is not tried again.
    Stop,
    /// The attempt failed: wait `base_secs` seconds and a random part, then
    /// make the attempt with number `next_attempt`.
    Retry { next_attempt: u32, base_secs: u64 },
    /// The last attempt failed: the download is cancelled, which ends the
    /// work on every other segment, and the failure is reported.
    GiveUp,
}

/// What a [`RetryAction`] holds, as sequences.
pub ghost enum RetryActionView {
    Complete { entry: Option<Seq<char>>, path: Seq<char> },
    Stop,
    Retry { next_attempt: u32, base_secs: u64 },
    GiveUp,
}

impl View for RetryAction {
    type V = RetryActionView;

    open spec fn view(&self) -> RetryActionView {
        match *self {
            RetryAction::Complete { entry, path } => RetryActionView::Complete {
                entry: match entry {
                    Some(e) => Some(e@),
                    None => None,
                },
                path: path@,
            },
            RetryAction::Stop => RetryActionView::Stop,
            RetryAction::Retry { next_attempt, base_secs } => RetryActionView::Retry {
                next_attempt,
                base_secs,
            },
            RetryAction::GiveUp => RetryActionView::GiveUp,
        }
    }
}

/// How an attempt ended, as sequences: `None` stands for a fault.
pub ghost enum OutcomeView {
    Success(Seq<char>),
    Skipped,
    Cancelled,
    Fault,
}

/// The view of the outcome of an attempt.
pub open spec fn outcome_view(outcome: Option<&DownloadResult>) -> OutcomeView {
    match outcome {
        Some(DownloadResult::Success(path)) => OutcomeView::Success(path@),
        Some(DownloadResult::Skipped(_)) => OutcomeView::Skipped,
        Some(DownloadResult::Cancelled(_)) => OutcomeView::Cancelled,
        None => OutcomeView::Fault,
    }
}

/// What follows the attempt with number `attempt`, counted from one, that
/// ended with `outcome`.
pub open spec fn action_after(attempt: u32, outcome: OutcomeView) -> RetryActionView {
    match outcome {
        OutcomeView::Success(path) => RetryActionView::Complete {
            entry: match file_name(path) {
                Some(name) => Some(manifest_entry(name)),
                None => None,
            },
            path,
        },
        OutcomeView::Skipped => RetryActionView::Stop,
        OutcomeView::Cancelled => RetryActionView::Stop,
        OutcomeView::Fault => if attempt < MAX_RETRIES {
            RetryActionView::Retry {
                next_attempt: (attempt + 1) as u32,
                base_secs: backoff_base_secs(attempt) as u64,
            }
        } else {
            RetryActionView::GiveUp
        },
    }
}

/// How an attempt ended whose response came to `response`, where bytes
/// that it came to were written to `path`: with that file, without one, or
/// in a fault.
pub open spec fn outcome_after(
    response: Result<Option<Seq<u8>>, FetchFault>,
    path: Seq<char>,
) -> OutcomeView {
    match response {
        Ok(Some(_)) => OutcomeView::Success(path),
        Ok(None) => OutcomeView::Skipped,
        Err(_) => OutcomeView::Fault,
    }
}

/// Says how an attempt ended whose response came to `verdict`. Where the
/// response came to the bytes of the segment, which the caller has stored
/// at `output_path` by then, the segment is there; where it was skipped,
/// the response at `url` was no segment.
pub fn attempt_result(verdict: &FetchVerdict, url: &str, output_path: &str) -> (r: DownloadResult)
    ensures
        match *verdict {
            FetchVerdict::Write(_) => r matches DownloadResult::Success(p) && p@
                == output_path@,
            FetchVerdict::Skip => r matches DownloadResult::Skipped(u) && u@ == url@,
        },
        outcome_view(Some(&r)) == outcome_after(
            Ok::<Option<Seq<u8>>, FetchFault>(verdict_view(*verdict)),
            output_path@,
        ),
{
    match verdict {
        FetchVerdict::Write(_) => DownloadResult::Success(output_path.to_owned()),
        FetchVerdict::Skip => DownloadResult::Skipped(url.to_owned()),
    }
}

/// A file is recorded as complete only after a response that came to bytes
/// to write, which are never none, and under the name of the file that they
/// were written to. A response that was skipped, and one that ended in a
/// fault, records nothing.
pub proof fn lemma_recorded_means_written(
    attempt: u32,
    status: u16,
    body: Seq<u8>,
    content_type: Seq<char>,
    encryption: Option<EncryptionView>,
    index: u64,
    path: Seq<char>,
)
    ensures
        ({
            let response = response_concluded(status, body, content_type, encryption, index);
            let action = action_after(attempt, outcome_after(response, path));
            &&& action is Complete <==> (response is Ok && response->Ok_0 is Some)
            &&& (response is Ok && response->Ok_0 is Some) ==> response->Ok_0->0.len() > 0
                && action == (RetryActionView::Complete {
                entry: match file_name(path) {
                    Some(name) => Some(manifest_entry(name)),
                    None => None,
                },
                path,
            })
            &&& (response is Ok && response->Ok_0 is None) ==> action == RetryActionView::Stop
            &&& response is Err ==> action is Retry || action is GiveUp
        }),
{
}

/// Whether another attempt at a segment is begun: not once the download is
/// cancelled.
pub fn may_attempt(cancelled: bool) -> (go: bool)
    ensures
        go == !cancelled,
{
    !cancelled
}

/// Decides what follows an attempt at a segment. `outcome` is how the
/// attempt ended, `None` where it ended in a fault of the network, of the
/// disk or of the decryption.
///
/// A success is recorded under the name of the file that was written. A
/// skipped or cancelled attempt ends the work on the segment. A fault is
/// followed by a wait and another attempt, until [`MAX_RETRIES`] attempts
/// were made; the fault of the last one gives the download up.
pub fn after_attempt(attempt: u32, outcome: Option<&DownloadResult>) -> (action: RetryAction)
    ensures
        action@ == action_after(attempt, outcome_view(outcome)),
{
    match outcome {
        Some(DownloadResult::Success(path)) => {
            let entry: Option<String> = match file_name_of(path.as_str()) {
                Some(name) => Some(manifest_line(name.as_str())),
                None => None,
            };
            RetryAction::Complete { entry, path: path.clone() }
        },
        Some(DownloadResult::Skipped(_)) => RetryAction::Stop,
        Some(DownloadResult::Cancelled(_)) => RetryAction::Stop,
        None => {
            if attempt < MAX_RETRIES {
                RetryAction::Retry { next_attempt: attempt + 1, base_secs: backoff_base(attempt) }
            } else {
                RetryAction::GiveUp
            }
        },
    }
}

/// What a run comes to once every segment has been dealt with.
#[derive(Debug, Clone, Copy, PartialEq, Eq, Structural)]
pub enum JoinVerdict {
    /// Every segment is there and nobody cancelled: the files are merged.
    Merge,
    /// The download was cancelled: nothing is merged, and what was fetched
    /// stays for a later run.
    Cancelled,
    /// Segments are missing though nobody cancelled: the download is
    /// cancelled now and reported as failed; what was fetched stays.
    Incomplete,
}

/// The verdict on a run with `ready` of `total` segments there.
pub open spec fn verdict_of(ready: usize, total: usize, cancelled: bool) -> JoinVerdict {
    if cancelled {
        JoinVerdict::Cancelled
    } else if ready == total {
        JoinVerdict::Merge
    } else {
        JoinVerdict::Incomplete
    }
}

/// Decides what a run comes to once every segment has been dealt with.
pub fn join_verdict(ready: usize, total: usize, cancelled: bool) -> (v: JoinVerdict)
    ensures
        v == verdict_of(ready, total, cancelled),
        v == JoinVerdict::Merge <==> ready == total && !cancelled,
{
    if cancelled {
        JoinVerdict::Cancelled
    } else if ready == total {
        JoinVerdict::Merge
    } else {
        JoinVerdict::Incomplete
    }
}

/// What the caller of a download is told once every segment has been dealt
/// with.
#[derive(Debug, Clone, Copy, PartialEq, Eq, Structural)]
pub enum RunOutcome {
    /// Every segment is there, nobody cancelled and nothing failed: the
    /// files are merged.
    Merge,
    /// The download was cancelled and nothing failed: the caller is told of
    /// no error and finds the cancel flag set.
    Cancelled,
    /// Segments are missing though nobody cancelled and nothing failed: the
    /// download is cancelled now and reported as incomplete.
    Incomplete,
    /// A segment failed for the last time, or a task of the download broke
    /// down: the failure is reported, which tells this end from one that
    /// the user asked for.
    Failed,
}

/// The outcome of a run with `ready` of `total` segments there, where
/// `failed` says whether a segment failed for the last time.
pub open spec fn outcome_of(
    ready: usize,
    total: usize,
    cancelled: bool,
    failed: bool,
) -> RunOutcome {
    if failed {
        RunOutcome::Failed
    } else {
        match verdict_of(ready, total, cancelled) {
            JoinVerdict::Merge => RunOutcome::Merge,
            JoinVerdict::Cancelled => RunOutcome::Cancelled,
            JoinVerdict::Incomplete => RunOutcome::Incomplete,
        }
    }
}

/// Decides what the caller of a download is told once every segment has
/// been dealt with. A failure comes first; without one the run is judged
/// as [`join_verdict`] judges it.
pub fn run_outcome(ready: usize, total: usize, cancelled: bool, failed: bool) -> (o: RunOutcome)
    ensures
        o == outcome_of(ready, total, cancelled, failed),
        o == RunOutcome::Failed <==> failed,
        !failed ==> (o == RunOutcome::Merge <==> ready == total && !cancelled),
        !failed && cancelled ==> o == RunOutcome::Cancelled,
        !failed && !cancelled && ready != total ==> o == RunOutcome::Incomplete,
{
    if failed {
        RunOutcome::Failed
    } else {
        match join_verdict(ready, total, cancelled) {
            JoinVerdict::Merge => RunOutcome::Merge,
            JoinVerdict::Cancelled => RunOutcome::Cancelled,
            JoinVerdict::Incomplete => RunOutcome::Incomplete,
        }
    }
}

/// What becomes of a task's directory of segments when the task leaves the
/// registry.
#[derive(Debug, Clone, Copy, PartialEq, Eq, Structural)]
pub enum Cleanup {
    /// The directory stays, so that a later run can go on from it.
    Retain,
    /// The directory is deleted.
    Purge,
}

/// Decides what becomes of a task's directory once its download has
/// returned. It is deleted after a download that ended well and was not
/// cancelled; after a failure or a cancellation it stays with everything in
/// it.
pub fn cleanup_after(failed: bool, cancelled: bool) -> (c: Cleanup)
    ensures
        c == Cleanup::Purge <==> !failed && !cancelled,
        failed || cancelled ==> c == Cleanup::Retain,
{
    if failed || cancelled {
        Cleanup::Retain
    } else {
        Cleanup::Purge
    }
}

/// The directory that the segments of task `id` are kept in, below
/// `output_dir`.
pub open spec fn temp_dir_path(output_dir: Seq<char>, id: Seq<char>) -> Seq<char> {
    output_dir + "/temp_"@ + id
}

/// Names the directory that the segments of a task are kept in.
pub fn temp_dir_for(output_dir: &str, id: &str) -> (dir: String)
    ensures
        dir@ == temp_dir_path(output_dir@, id@),
{
    let mut path: Vec<char> = to_chars(output_dir);
    let middle: Vec<char> = to_chars("/temp_");
    let tail: Vec<char> = to_chars(id);
    append_chars(&mut path, middle.as_slice());
    append_chars(&mut path, tail.as_slice());
    from_chars(path.as_slice())
}

} // verus!
