use m3u8_core::download_monitor::{
    format_speed, DownloadMetrics, ProgressReporter, ProgressSnapshot, Speed, SpeedUnit,
    MAX_SAMPLES, STATUS_CANCELLED, STATUS_DOWNLOADED, STATUS_DOWNLOADING,
};

#[test]
fn new_metrics_are_zero() {
    let m = DownloadMetrics::new(7);
    assert_eq!(m.total_chunks(), 7);
    assert_eq!(m.total_bytes(), 0);
    assert_eq!(m.downloaded_bytes(), 0);
    assert_eq!(m.completed_chunks(), 0);
    assert_eq!(m.sample_count(), 0);
}

#[test]
fn total_bytes_add_up_and_stop_at_the_top() {
    let mut m = DownloadMetrics::new(1);
    m.update_total_bytes(10);
    m.update_total_bytes(32);
    assert_eq!(m.total_bytes(), 42);
    m.update_total_bytes(usize::MAX);
    assert_eq!(m.total_bytes(), usize::MAX);
}

#[test]
fn recorded_chunks_add_to_downloaded_bytes() {
    let mut m = DownloadMetrics::new(1);
    m.record_chunk(10, 100);
    m.record_chunk(20, 50);
    assert_eq!(m.downloaded_bytes(), 150);
    assert_eq!(m.sample_count(), 2);
    assert_eq!(m.total_bytes(), 0);
    assert_eq!(m.completed_chunks(), 0);
}

#[test]
fn sample_buffer_is_bounded() {
    let mut m = DownloadMetrics::new(1);
    for i in 0..(MAX_SAMPLES as u64 + 10) {
        m.record_chunk(i, 1);
    }
    assert_eq!(m.sample_count(), MAX_SAMPLES);
    assert_eq!(m.downloaded_bytes(), MAX_SAMPLES + 10);
    // the oldest ten samples are gone: the window that holds them all sums the rest
    let speed = m.get_windowed_speed(500);
    assert_eq!(speed, Speed { hundredths: 625, unit: SpeedUnit::KiloBytes });
}

#[test]
fn completed_chunks_never_decrease() {
    let mut m = DownloadMetrics::new(3);
    let mut last = m.completed_chunks();
    m.record_chunk(1, 10);
    assert!(m.completed_chunks() >= last);
    m.update_total_bytes(10);
    assert!(m.completed_chunks() >= last);
    m.complete_chunk();
    assert!(m.completed_chunks() > last);
    last = m.completed_chunks();
    m.restore_chunk(5);
    assert!(m.completed_chunks() > last);
    assert_eq!(m.completed_chunks(), 2);
}

#[test]
fn empty_window_has_zero_speed() {
    let m = DownloadMetrics::new(1);
    let s = m.get_windowed_speed(5000);
    assert_eq!(s, Speed { hundredths: 0, unit: SpeedUnit::KiloBytes });
    assert_eq!(format_speed(s), "0.00 KB/s");
}

#[test]
fn samples_older_than_a_second_do_not_count() {
    let mut m = DownloadMetrics::new(1);
    m.record_chunk(1000, 4096);
    m.record_chunk(3999, 1024);
    m.record_chunk(4000, 2048);
    m.record_chunk(4500, 1024);
    let s = m.get_windowed_speed(5000);
    assert_eq!(format_speed(s), "3.00 KB/s");
}

#[test]
fn speed_turns_to_megabytes_at_1024_kilobytes() {
    let mut m = DownloadMetrics::new(1);
    m.record_chunk(4500, 1024 * 1024 - 1);
    assert_eq!(format_speed(m.get_windowed_speed(5000)), "1024.00 KB/s");
    let mut m = DownloadMetrics::new(1);
    m.record_chunk(4500, 1024 * 1024);
    assert_eq!(format_speed(m.get_windowed_speed(5000)), "1.00 MB/s");
    let mut m = DownloadMetrics::new(1);
    m.record_chunk(4500, 5 * 1024 * 1024 + 512 * 1024);
    assert_eq!(format_speed(m.get_windowed_speed(5000)), "5.50 MB/s");
}

#[test]
fn short_window_is_no_shorter_than_half_a_second() {
    let mut m = DownloadMetrics::new(1);
    m.record_chunk(0, 1024);
    assert_eq!(format_speed(m.get_windowed_speed(100)), "2.00 KB/s");
    assert_eq!(format_speed(m.get_windowed_speed(500)), "2.00 KB/s");
    assert_eq!(format_speed(m.get_windowed_speed(800)), "1.25 KB/s");
    assert_eq!(format_speed(m.get_windowed_speed(1000)), "1.00 KB/s");
}

#[test]
fn speed_text_agrees_with_floating_point_formatting() {
    let sizes: Vec<usize> = vec![
        0, 1, 5, 6, 10, 15, 16, 100, 128, 384, 640, 1000, 1023, 1024, 1025, 1536, 4096, 65535,
        99_999, 123_456, 1_048_575, 1_048_576, 1_050_000, 1_572_864, 5_000_000, 123_456_789,
    ];
    for size in sizes {
        let mut m = DownloadMetrics::new(1);
        m.record_chunk(9500, size);
        let kb = size as f64 / 1.0 / 1024.0;
        let expected = if kb >= 1024.0 {
            format!("{:.2} MB/s", kb / 1024.0)
        } else {
            format!("{:.2} KB/s", kb)
        };
        assert_eq!(format_speed(m.get_windowed_speed(10_000)), expected, "size {}", size);
    }
}

#[test]
fn speed_is_formatted_with_two_decimals() {
    assert_eq!(format_speed(Speed { hundredths: 0, unit: SpeedUnit::KiloBytes }), "0.00 KB/s");
    assert_eq!(format_speed(Speed { hundredths: 5, unit: SpeedUnit::KiloBytes }), "0.05 KB/s");
    assert_eq!(format_speed(Speed { hundredths: 1234, unit: SpeedUnit::MegaBytes }), "12.34 MB/s");
    assert_eq!(
        format_speed(Speed { hundredths: 102400, unit: SpeedUnit::KiloBytes }),
        "1024.00 KB/s"
    );
}

#[test]
fn progress_is_a_rounded_percentage() {
    let mut m = DownloadMetrics::new(8);
    assert_eq!(m.get_progress(), 0);
    m.complete_chunk();
    assert_eq!(m.get_progress(), 13);
    m.complete_chunk();
    assert_eq!(m.get_progress(), 25);
    for _ in 0..6 {
        m.complete_chunk();
    }
    assert_eq!(m.get_progress(), 100);
    m.complete_chunk();
    assert_eq!(m.get_progress(), 100);
    assert_eq!(DownloadMetrics::new(0).get_progress(), 0);
    let mut third = DownloadMetrics::new(3);
    third.complete_chunk();
    assert_eq!(third.get_progress(), 33);
    third.complete_chunk();
    assert_eq!(third.get_progress(), 67);
}

#[test]
fn snapshot_of_a_running_download() {
    let mut m = DownloadMetrics::new(4);
    m.restore_chunk(2048);
    m.record_chunk(900, 1024);
    let s = ProgressSnapshot::take("task-1", false, &m, 1000);
    assert_eq!(s.id, "task-1");
    assert_eq!(s.progress, 25);
    assert_eq!(s.speed, "1.00 KB/s");
    assert_eq!(s.status, STATUS_DOWNLOADING);
    assert_eq!(s.status, 2);
    assert_eq!(s.message, "下载中");
    assert_eq!(s.chunks, 1);
    assert_eq!(s.total_chunks, 4);
    assert_eq!(s.downloaded, 3072);
    assert_eq!(s.total_bytes, 2048);
}

#[test]
fn snapshot_of_a_cancelled_download() {
    let mut m = DownloadMetrics::new(1);
    m.complete_chunk();
    let s = ProgressSnapshot::take("t", true, &m, 0);
    assert_eq!(s.status, STATUS_CANCELLED);
    assert_eq!(s.status, 0);
    assert_eq!(s.message, "已取消");
}

#[test]
fn snapshot_of_a_finished_download() {
    let mut m = DownloadMetrics::new(3);
    for _ in 0..3 {
        m.complete_chunk();
    }
    let s = ProgressSnapshot::take("t", false, &m, 0);
    assert_eq!(s.status, STATUS_DOWNLOADED);
    assert_eq!(s.status, 3);
    assert_eq!(s.message, "下载完成");
    assert_eq!(s.progress, 100);
    assert_eq!((s.chunks, s.total_chunks), (3, 3));
}

#[test]
fn download_of_no_segments_is_never_finished() {
    let m = DownloadMetrics::new(0);
    let s = ProgressSnapshot::take("t", false, &m, 0);
    assert_eq!(s.status, STATUS_DOWNLOADING);
}

#[test]
fn reporter_sends_only_what_differs() {
    let mut m = DownloadMetrics::new(2);
    let mut reporter = ProgressReporter::new();
    let first = reporter.observe(ProgressSnapshot::take("t", false, &m, 5000));
    assert!(first.emit && !first.finished);
    let same = reporter.observe(ProgressSnapshot::take("t", false, &m, 6000));
    assert!(!same.emit && !same.finished);
    m.complete_chunk();
    let changed = reporter.observe(ProgressSnapshot::take("t", false, &m, 7000));
    assert!(changed.emit && !changed.finished);
    m.complete_chunk();
    let last = reporter.observe(ProgressSnapshot::take("t", false, &m, 8000));
    assert!(last.emit && last.finished);
}

#[test]
fn reporter_ends_on_cancellation() {
    let m = DownloadMetrics::new(2);
    let mut reporter = ProgressReporter::new();
    let t = reporter.observe(ProgressSnapshot::take("t", true, &m, 0));
    assert!(t.emit && t.finished);
    let again = reporter.observe(ProgressSnapshot::take("t", true, &m, 1));
    assert!(!again.emit && again.finished);
}

#[test]
fn snapshots_compare_by_what_they_say() {
    let m = DownloadMetrics::new(2);
    let a = ProgressSnapshot::take("a", false, &m, 0);
    let b = ProgressSnapshot::take("b", false, &m, 0);
    assert!(a.same_as(&a.clone()));
    assert!(!a.same_as(&b));
}
