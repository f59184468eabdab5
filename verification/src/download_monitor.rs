//! What is measured of a running download, and what is reported of it: the
//! counters, the throughput over the last second, the percentage done, and
//! the snapshots that an observer is sent.
use crate::text::{append_chars, decimal, digit_char, from_chars, push_decimal, to_chars};
use std::collections::VecDeque;
use vstd::prelude::*;

verus! {

/// The most throughput samples that are kept; the oldest leaves first.
pub const MAX_SAMPLES: usize = 3200;

/// The length, in milliseconds, of the window that throughput is taken
/// over.
pub const WINDOW_MS: u64 = 1000;

/// The shortest window, in milliseconds, that a rate is computed over.
pub const MIN_WINDOW_MS: u64 = 500;

/// Status of a snapshot: the download was cancelled.
pub const STATUS_CANCELLED: u32 = 0;

/// Status of a snapshot: segments are being fetched.
pub const STATUS_DOWNLOADING: u32 = 2;

/// Status of a snapshot: every segment is there and awaits the merge.
pub const STATUS_DOWNLOADED: u32 = 3;

/// The counters of one download and its recent throughput samples, each a
/// time in milliseconds and a number of bytes.
pub struct DownloadMetrics {
    total_chunks: usize,
    total_bytes: usize,
    downloaded_bytes: usize,
    completed_chunks: usize,
    speed_samples: VecDeque<(u64, usize)>,
}

/// What a [`DownloadMetrics`] holds.
pub ghost struct MetricsView {
    pub total_chunks: usize,
    pub total_bytes: usize,
    pub downloaded_bytes: usize,
    pub completed_chunks: usize,
    pub samples: Seq<(u64, usize)>,
}

/// The unit that a rate is given in.
#[derive(Debug, Clone, Copy, PartialEq, Eq, Structural)]
pub enum SpeedUnit {
    /// Units of 1024 bytes a second.
    KiloBytes,
    /// Units of 1024 * 1024 bytes a second.
    MegaBytes,
}

/// A rate, in hundredths of its unit.
#[derive(Debug, Clone, Copy, PartialEq, Eq, Structural)]
pub struct Speed {
    pub hundredths: u128,
    pub unit: SpeedUnit,
}

/// The samples after one more was recorded: it is added at the back, and
/// where that makes more than [`MAX_SAMPLES`], the oldest is dropped.
pub open spec fn samples_with(s: Seq<(u64, usize)>, now_ms: u64, size: usize) -> Seq<
    (u64, usize),
> {
    if s.len() + 1 > MAX_SAMPLES {
        s.push((now_ms, size)).drop_first()
    } else {
        s.push((now_ms, size))
    }
}

/// The metrics after a segment that an earlier run left complete was
/// counted, with the size of its file: one more segment complete, and its
/// bytes both downloaded and part of the total.
pub open spec fn restored(m: MetricsView, size: usize) -> MetricsView {
    MetricsView {
        completed_chunks: m.completed_chunks.saturating_add(1),
        downloaded_bytes: m.downloaded_bytes.saturating_add(size),
        total_bytes: m.total_bytes.saturating_add(size),
        ..m
    }
}

/// The start of the window that ends at `now_ms`.
pub open spec fn window_start(now_ms: u64) -> u64 {
    if now_ms >= WINDOW_MS {
        (now_ms - WINDOW_MS) as u64
    } else {
        0
    }
}

/// The length of the window that a rate at `now_ms` is taken over: the time
/// since the window's start, and no less than [`MIN_WINDOW_MS`].
pub open spec fn window_length(now_ms: u64) -> nat {
    let actual = now_ms - window_start(now_ms);
    if actual < MIN_WINDOW_MS {
        MIN_WINDOW_MS as nat
    } else {
        actual as nat
    }
}

/// The bytes of the samples that were taken at or after the start of the
/// window that ends at `now_ms`.
pub open spec fn window_bytes(s: Seq<(u64, usize)>, now_ms: u64) -> nat
    decreases s.len(),
{
    if s.len() == 0 {
        0
    } else if s.last().0 >= window_start(now_ms) {
        window_bytes(s.drop_last(), now_ms) + s.last().1 as nat
    } else {
        window_bytes(s.drop_last(), now_ms)
    }
}

/// The whole number nearest to `num / den`; of two equally near ones, the
/// even one.
pub open spec fn rounded_half_even(num: nat, den: nat) -> nat {
    let q = num / den;
    let r = num % den;
    if 2 * r < den {
        q
    } else if 2 * r > den {
        q + 1
    } else if q % 2 == 0 {
        q
    } else {
        q + 1
    }
}

/// The rate of `bytes` bytes in `ms` milliseconds, to two decimal places:
/// in units of 1024 bytes a second while it is below 1024 of them, else in
/// units of 1024 * 1024 bytes a second.
pub open spec fn speed_of(bytes: nat, ms: nat) -> Speed {
    if bytes * 1000 >= ms * 1048576 {
        Speed {
            hundredths: rounded_half_even(bytes * 100000, ms * 1048576) as u128,
            unit: SpeedUnit::MegaBytes,
        }
    } else {
        Speed {
            hundredths: rounded_half_even(bytes * 100000, ms * 1024) as u128,
            unit: SpeedUnit::KiloBytes,
        }
    }
}

/// The text of a unit, with the space that parts it from the number.
pub open spec fn unit_text(unit: SpeedUnit) -> Seq<char> {
    match unit {
        SpeedUnit::KiloBytes => " KB/s"@,
        SpeedUnit::MegaBytes => " MB/s"@,
    }
}

/// The text of a rate: the whole part, a point, two decimal places, and the
/// unit.
pub open spec fn speed_text(speed: Speed) -> Seq<char> {
    let h = speed.hundredths as nat;
    decimal(h / 100) + seq!['.', digit_char((h % 100) / 10), digit_char(h % 10)] + unit_text(
        speed.unit,
    )
}

/// The percentage that `completed` is of `total`, rounded to the nearest
/// whole number and kept within 0 and 100; 0 where `total` is 0.
pub open spec fn progress_percent(completed: nat, total: nat) -> nat {
    if total == 0 {
        0
    } else {
        let p = (completed * 200 + total) / (2 * total);
        if p > 100 {
            100
        } else {
            p
        }
    }
}

/// Whether a download with these counts has every segment.
pub open spec fn all_downloaded(completed: usize, total: usize) -> bool {
    total > 0 && completed == total
}

/// The status of a download.
pub open spec fn status_code(cancelled: bool, completed: usize, total: usize) -> u32 {
    if cancelled {
        STATUS_CANCELLED
    } else if all_downloaded(completed, total) {
        STATUS_DOWNLOADED
    } else {
        STATUS_DOWNLOADING
    }
}

/// The message that goes with a status.
pub open spec fn status_text(status: u32) -> Seq<char> {
    if status == STATUS_CANCELLED {
        "已取消"@
    } else if status == STATUS_DOWNLOADED {
        "下载完成"@
    } else {
        "下载中"@
    }
}

fn round_half_even(num: u128, den: u128) -> (r: u128)
    requires
        den > 0,
        num / den < u128::MAX,
        den <= u128::MAX / 2,
    ensures
        r == rounded_half_even(num as nat, den as nat),
{
    let q: u128 = num / den;
    let r: u128 = num % den;
    if 2 * r < den {
        q
    } else if 2 * r > den {
        q + 1
    } else if q % 2 == 0 {
        q
    } else {
        q + 1
    }
}

impl View for DownloadMetrics {
    type V = MetricsView;

    closed spec fn view(&self) -> MetricsView {
        MetricsView {
            total_chunks: self.total_chunks,
            total_bytes: self.total_bytes,
            downloaded_bytes: self.downloaded_bytes,
            completed_chunks: self.completed_chunks,
            samples: self.speed_samples@,
        }
    }
}

impl DownloadMetrics {
    #[verifier::type_invariant]
    spec fn samples_bounded(self) -> bool {
        self.speed_samples@.len() <= MAX_SAMPLES
    }

    /// The metrics of a download of `total_chunks` segments that has not
    /// begun.
    pub fn new(total_chunks: usize) -> (m: Self)
        ensures
            m@ == (MetricsView {
                total_chunks,
                total_bytes: 0,
                downloaded_bytes: 0,
                completed_chunks: 0,
                samples: Seq::empty(),
            }),
    {
        DownloadMetrics {
            total_chunks,
            total_bytes: 0,
            downloaded_bytes: 0,
            completed_chunks: 0,
            speed_samples: VecDeque::new(),
        }
    }

    /// The number of samples that are kept: never more than
    /// [`MAX_SAMPLES`].
    pub fn sample_count(&self) -> (n: usize)
        ensures
            n == self@.samples.len(),
            n <= MAX_SAMPLES,
    {
        proof {
            use_type_invariant(self);
        }
        self.speed_samples.len()
    }

    /// The number of segments of the download.
    pub fn total_chunks(&self) -> (n: usize)
        ensures
            n == self@.total_chunks,
    {
        self.total_chunks
    }

    /// The bytes of the segments that are complete.
    pub fn total_bytes(&self) -> (n: usize)
        ensures
            n == self@.total_bytes,
    {
        self.total_bytes
    }

    /// The bytes that were downloaded.
    pub fn downloaded_bytes(&self) -> (n: usize)
        ensures
            n == self@.downloaded_bytes,
    {
        self.downloaded_bytes
    }

    /// The number of segments that are complete.
    pub fn completed_chunks(&self) -> (n: usize)
        ensures
            n == self@.completed_chunks,
    {
        self.completed_chunks
    }

    /// Adds `size` to the running total of bytes, which stops at the
    /// largest number it can hold.
    pub fn update_total_bytes(&mut self, size: usize)
        ensures
            final(self)@ == (MetricsView {
                total_bytes: old(self)@.total_bytes.saturating_add(size),
                ..old(self)@
            }),
            final(self)@.completed_chunks >= old(self)@.completed_chunks,
    {
        proof {
            use_type_invariant(&*self);
        }
        self.total_bytes = self.total_bytes.saturating_add(size);
    }

    /// Records a chunk of `size` bytes that arrived at `now_ms`: one more
    /// sample, and `size` more bytes downloaded.
    pub fn record_chunk(&mut self, now_ms: u64, size: usize)
        ensures
            final(self)@ == (MetricsView {
                downloaded_bytes: old(self)@.downloaded_bytes.saturating_add(size),
                samples: samples_with(old(self)@.samples, now_ms, size),
                ..old(self)@
            }),
            final(self)@.completed_chunks >= old(self)@.completed_chunks,
    {
        proof {
            use_type_invariant(&*self);
        }
        let mut samples: VecDeque<(u64, usize)> = VecDeque::new();
        core::mem::swap(&mut self.speed_samples, &mut samples);
        samples.push_back((now_ms, size));
        if samples.len() > MAX_SAMPLES {
            let ghost pushed = samples@;
            samples.pop_front();
            assert(samples@ =~= pushed.drop_first());
        }
        core::mem::swap(&mut self.speed_samples, &mut samples);
        self.downloaded_bytes = self.downloaded_bytes.saturating_add(size);
    }

    /// Counts one more segment as complete.
    pub fn complete_chunk(&mut self)
        ensures
            final(self)@ == (MetricsView {
                completed_chunks: old(self)@.completed_chunks.saturating_add(1),
                ..old(self)@
            }),
            final(self)@.completed_chunks >= old(self)@.completed_chunks,
    {
        proof {
            use_type_invariant(&*self);
        }
        self.completed_chunks = self.completed_chunks.saturating_add(1);
    }

    /// Counts a segment that an earlier run left complete on disk, with the
    /// size of its file: one more segment complete, and its bytes both
    /// downloaded and part of the total.
    pub fn restore_chunk(&mut self, size: usize)
        ensures
            final(self)@ == restored(old(self)@, size),
            final(self)@.completed_chunks >= old(self)@.completed_chunks,
    {
        proof {
            use_type_invariant(&*self);
        }
        self.completed_chunks = self.completed_chunks.saturating_add(1);
        self.downloaded_bytes = self.downloaded_bytes.saturating_add(size);
        self.total_bytes = self.total_bytes.saturating_add(size);
    }

    /// The rate over the window that ends at `now_ms`: the bytes of the
    /// samples taken in it, by the length of the window.
    pub fn get_windowed_speed(&self, now_ms: u64) -> (speed: Speed)
        ensures
            speed == speed_of(window_bytes(self@.samples, now_ms), window_length(now_ms)),
    {
        proof {
            use_type_invariant(self);
        }
        let start: u64 = if now_ms >= WINDOW_MS {
            now_ms - WINDOW_MS
        } else {
            0
        };
        let n: usize = self.speed_samples.len();
        let mut bytes: u128 = 0;
        let mut i: usize = 0;
        assert(self.speed_samples@.take(0) =~= Seq::<(u64, usize)>::empty());
        while i < n
            invariant
                i <= n,
                n == self.speed_samples@.len(),
                n <= MAX_SAMPLES,
                start == window_start(now_ms),
                bytes == window_bytes(self.speed_samples@.take(i as int), now_ms),
                bytes <= i * 0xFFFF_FFFF_FFFF_FFFF,
            decreases n - i,
        {
            let sample: (u64, usize) = self.speed_samples[i];
            proof {
                assert(self.speed_samples@.take(i + 1).drop_last() =~= self.speed_samples@.take(
                    i as int,
                ));
                assert(self.speed_samples@.take(i + 1).last() == sample);
            }
            if sample.0 >= start {
                bytes = bytes + sample.1 as u128;
            }
            i += 1;
        }
        assert(self.speed_samples@.take(n as int) =~= self.speed_samples@);
        let actual: u64 = now_ms - start;
        let ms: u128 = if actual < MIN_WINDOW_MS {
            MIN_WINDOW_MS as u128
        } else {
            actual as u128
        };
        assert(500 <= ms <= 1000);
        if bytes * 1000 >= ms * 1048576 {
            Speed {
                hundredths: round_half_even(bytes * 100000, ms * 1048576),
                unit: SpeedUnit::MegaBytes,
            }
        } else {
            Speed {
                hundredths: round_half_even(bytes * 100000, ms * 1024),
                unit: SpeedUnit::KiloBytes,
            }
        }
    }

    /// The percentage of the segments that are complete.
    pub fn get_progress(&self) -> (p: u32)
        ensures
            p == progress_percent(self@.completed_chunks as nat, self@.total_chunks as nat),
            p <= 100,
    {
        if self.total_chunks == 0 {
            0
        } else {
            let c: u128 = self.completed_chunks as u128;
            let t: u128 = self.total_chunks as u128;
            let p: u128 = (c * 200 + t) / (2 * t);
            if p > 100 {
                100
            } else {
                p as u32
            }
        }
    }
}

/// Writes a rate as text, such as `12.34 KB/s`.
pub fn format_speed(speed: Speed) -> (out: String)
    ensures
        out@ == speed_text(speed),
{
    let h: u128 = speed.hundredths;
    let mut text: Vec<char> = Vec::new();
    push_decimal(&mut text, h / 100);
    text.push('.');
    push_decimal(&mut text, (h % 100) / 10);
    push_decimal(&mut text, h % 10);
    let unit: Vec<char> = match speed.unit {
        SpeedUnit::KiloBytes => to_chars(" KB/s"),
        SpeedUnit::MegaBytes => to_chars(" MB/s"),
    };
    append_chars(&mut text, unit.as_slice());
    proof {
        let hn = h as nat;
        assert(decimal((hn % 100) / 10) =~= seq![digit_char((hn % 100) / 10)]);
        assert(decimal(hn % 10) =~= seq![digit_char(hn % 10)]);
        assert(text@ =~= speed_text(speed));
    }
    from_chars(text.as_slice())
}

/// What an observer is told of a download at one moment.
#[derive(Debug, Clone)]
pub struct ProgressSnapshot {
    pub id: String,
    pub progress: u32,
    pub speed: String,
    pub status: u32,
    pub message: String,
    pub chunks: usize,
    pub total_chunks: usize,
    pub downloaded: usize,
    pub total_bytes: usize,
}

/// What a [`ProgressSnapshot`] holds, as sequences.
pub ghost struct SnapshotView {
    pub id: Seq<char>,
    pub progress: u32,
    pub speed: Seq<char>,
    pub status: u32,
    pub message: Seq<char>,
    pub chunks: usize,
    pub total_chunks: usize,
    pub downloaded: usize,
    pub total_bytes: usize,
}

impl View for ProgressSnapshot {
    type V = SnapshotView;

    open spec fn view(&self) -> SnapshotView {
        SnapshotView {
            id: self.id@,
            progress: self.progress,
            speed: self.speed@,
            status: self.status,
            message: self.message@,
            chunks: self.chunks,
            total_chunks: self.total_chunks,
            downloaded: self.downloaded,
            total_bytes: self.total_bytes,
        }
    }
}

/// The snapshot of a download with the given metrics at `now_ms`.
pub open spec fn snapshot_of(
    id: Seq<char>,
    cancelled: bool,
    m: MetricsView,
    now_ms: u64,
) -> SnapshotView {
    let status = status_code(cancelled, m.completed_chunks, m.total_chunks);
    SnapshotView {
        id,
        progress: progress_percent(m.completed_chunks as nat, m.total_chunks as nat) as u32,
        speed: speed_text(speed_of(window_bytes(m.samples, now_ms), window_length(now_ms))),
        status,
        message: status_text(status),
        chunks: m.completed_chunks,
        total_chunks: m.total_chunks,
        downloaded: m.downloaded_bytes,
        total_bytes: m.total_bytes,
    }
}

/// Whether a status ends the reporting: the download was cancelled, or it
/// has every segment.
pub open spec fn is_final_status(status: u32) -> bool {
    status == STATUS_CANCELLED || status == STATUS_DOWNLOADED
}

impl ProgressSnapshot {
    /// Takes the snapshot of a download: its progress, its rate over the
    /// last second, its status with the message that goes with it, and its
    /// counters.
    pub fn take(id: &str, cancelled: bool, metrics: &DownloadMetrics, now_ms: u64) -> (s: Self)
        ensures
            s@ == snapshot_of(id@, cancelled, metrics@, now_ms),
            is_final_status(s.status) <==> cancelled || all_downloaded(
                metrics@.completed_chunks,
                metrics@.total_chunks,
            ),
    {
        let chunks: usize = metrics.completed_chunks();
        let total: usize = metrics.total_chunks();
        let status: u32 = if cancelled {
            STATUS_CANCELLED
        } else if total > 0 && chunks == total {
            STATUS_DOWNLOADED
        } else {
            STATUS_DOWNLOADING
        };
        let message: &str = if status == STATUS_CANCELLED {
            "已取消"
        } else if status == STATUS_DOWNLOADED {
            "下载完成"
        } else {
            "下载中"
        };
        let id_chars: Vec<char> = to_chars(id);
        let message_chars: Vec<char> = to_chars(message);
        ProgressSnapshot {
            id: from_chars(id_chars.as_slice()),
            progress: metrics.get_progress(),
            speed: format_speed(metrics.get_windowed_speed(now_ms)),
            status,
            message: from_chars(message_chars.as_slice()),
            chunks,
            total_chunks: total,
            downloaded: metrics.downloaded_bytes(),
            total_bytes: metrics.total_bytes(),
        }
    }

    /// Whether two snapshots say the same.
    pub fn same_as(&self, other: &ProgressSnapshot) -> (r: bool)
        ensures
            r == (self@ == other@),
    {
        self.id == other.id && self.progress == other.progress && self.speed == other.speed
            && self.status == other.status && self.message == other.message && self.chunks
            == other.chunks && self.total_chunks == other.total_chunks && self.downloaded
            == other.downloaded && self.total_bytes == other.total_bytes
    }
}

/// What is to be done with a snapshot: whether it is sent, and whether it
/// was the last.
#[derive(Debug, Clone, Copy, PartialEq, Eq, Structural)]
pub struct Tick {
    pub emit: bool,
    pub finished: bool,
}

/// The reporter of one download: it remembers the snapshot that was sent
/// last.
pub struct ProgressReporter {
    pub last: Option<ProgressSnapshot>,
}

/// The view of an optional snapshot.
pub open spec fn option_snapshot_view(o: Option<ProgressSnapshot>) -> Option<SnapshotView> {
    match o {
        Some(s) => Some(s@),
        None => None,
    }
}

impl ProgressReporter {
    /// A reporter that has sent nothing yet.
    pub fn new() -> (r: Self)
        ensures
            r.last.is_none(),
    {
        ProgressReporter { last: None }
    }

    /// Takes the snapshot of one tick. It is to be sent where it differs
    /// from the one sent last, and is then remembered; it is the last where
    /// its status is cancelled or downloaded.
    pub fn observe(&mut self, current: ProgressSnapshot) -> (t: Tick)
        ensures
            t.emit == (option_snapshot_view(old(self).last) != Some(current@)),
            option_snapshot_view(final(self).last) == Some(current@),
            t.finished == is_final_status(current.status),
    {
        let finished: bool = current.status == STATUS_CANCELLED || current.status
            == STATUS_DOWNLOADED;
        let same: bool = match &self.last {
            Some(previous) => previous.same_as(&current),
            None => false,
        };
        if !same {
            self.last = Some(current);
        }
        Tick { emit: !same, finished }
    }
}

} // verus!
