use m3u8_core::download_monitor::DownloadMetrics;
use m3u8_core::manifest::{
    file_name_of, manifest_line, plan_resume, AdmitError, CompletionManifest,
};
use m3u8_core::segments::SegmentDescriptor;

fn segment(index: u64, dir: &str) -> SegmentDescriptor {
    SegmentDescriptor {
        index,
        url: format!("https://s/s{}.ts", index),
        local_path: format!("{}/part_{}.ts", dir, index),
        encryption: None,
    }
}

#[test]
fn manifest_lists_each_name_once() {
    let m = CompletionManifest::load("part_0.ts\npart_2.ts\npart_0.ts\n");
    assert!(m.contains("part_0.ts"));
    assert!(m.contains("part_2.ts"));
    assert!(!m.contains("part_1.ts"));
    assert_eq!(m.len(), 2);
}

#[test]
fn manifest_passes_over_blank_lines_and_line_ends() {
    let m = CompletionManifest::load("\n  \npart_7.ts\r\n\r\npart_8.ts");
    assert!(m.contains("part_7.ts"));
    assert!(m.contains("part_8.ts"));
    assert!(!m.contains(""));
    assert!(!m.contains("  "));
    assert_eq!(m.len(), 2);
}

#[test]
fn last_line_without_line_feed_is_taken_as_it_is() {
    let m = CompletionManifest::load("part_0.ts\r\npart_1.ts\r");
    assert!(m.contains("part_0.ts"));
    assert!(m.contains("part_1.ts\r"));
    assert!(!m.contains("part_1.ts"));
}

#[test]
fn empty_manifest_lists_nothing() {
    let m = CompletionManifest::load("");
    assert_eq!(m.len(), 0);
    assert!(!m.contains("part_0.ts"));
    assert_eq!(CompletionManifest::new().len(), 0);
}

#[test]
fn manifest_insert_is_idempotent() {
    let mut m = CompletionManifest::new();
    m.insert("part_1.ts");
    m.insert("part_1.ts");
    assert!(m.contains("part_1.ts"));
    assert_eq!(m.len(), 1);
}

#[test]
fn manifest_line_ends_with_a_newline() {
    assert_eq!(manifest_line("part_42.ts"), "part_42.ts\n");
}

#[test]
fn written_lines_read_back() {
    let mut text = String::new();
    text.push_str(&manifest_line("part_3.ts"));
    text.push_str(&manifest_line("part_1.ts"));
    let m = CompletionManifest::load(&text);
    assert!(m.contains("part_3.ts") && m.contains("part_1.ts"));
    assert_eq!(m.len(), 2);
}

#[test]
fn file_name_is_what_follows_the_last_slash() {
    assert_eq!(file_name_of("/out/temp_1/part_42.ts"), Some("part_42.ts".to_string()));
    assert_eq!(file_name_of("part_1.ts"), Some("part_1.ts".to_string()));
    assert_eq!(file_name_of("/out/temp_1/"), None);
    assert_eq!(file_name_of(""), None);
}

#[test]
fn resume_skips_what_is_recorded_and_on_disk() {
    let segments: Vec<SegmentDescriptor> = (0..3).map(|i| segment(i, "/t")).collect();
    let manifest = CompletionManifest::load("part_0.ts\n");
    let mut metrics = DownloadMetrics::new(3);
    let plan = plan_resume(&segments, &manifest, &vec![100, 0, 0], &mut metrics).unwrap();
    assert_eq!(plan.ready, vec!["/t/part_0.ts"]);
    let pending: Vec<u64> = plan.pending.iter().map(|s| s.index).collect();
    assert_eq!(pending, vec![1, 2]);
    assert_eq!(metrics.completed_chunks(), 1);
    assert_eq!(metrics.total_bytes(), 100);
    assert_eq!(metrics.downloaded_bytes(), 100);
    assert_eq!(metrics.total_chunks(), 3);
}

#[test]
fn recorded_segment_without_a_file_is_fetched_again() {
    let segments: Vec<SegmentDescriptor> = (0..2).map(|i| segment(i, "/t")).collect();
    let manifest = CompletionManifest::load("part_0.ts\npart_1.ts\n");
    let mut metrics = DownloadMetrics::new(2);
    let plan = plan_resume(&segments, &manifest, &vec![0, 55], &mut metrics).unwrap();
    assert_eq!(plan.ready, vec!["/t/part_1.ts"]);
    assert_eq!(plan.pending.len(), 1);
    assert_eq!(plan.pending[0].index, 0);
    assert_eq!(metrics.completed_chunks(), 1);
}

#[test]
fn file_that_is_not_recorded_is_fetched_again() {
    let segments: Vec<SegmentDescriptor> = (0..2).map(|i| segment(i, "/t")).collect();
    let manifest = CompletionManifest::new();
    let mut metrics = DownloadMetrics::new(2);
    let plan = plan_resume(&segments, &manifest, &vec![10, 10], &mut metrics).unwrap();
    assert!(plan.ready.is_empty());
    assert_eq!(plan.pending.len(), 2);
    assert_eq!(metrics.completed_chunks(), 0);
    assert_eq!(metrics.total_bytes(), 0);
}

#[test]
fn second_run_over_a_finished_run_fetches_nothing() {
    let segments: Vec<SegmentDescriptor> = (0..3).map(|i| segment(i, "/t")).collect();
    let manifest = CompletionManifest::load("part_2.ts\npart_0.ts\npart_1.ts\n");
    let mut metrics = DownloadMetrics::new(3);
    let plan = plan_resume(&segments, &manifest, &vec![100, 100, 100], &mut metrics).unwrap();
    assert!(plan.pending.is_empty());
    assert_eq!(plan.ready, vec!["/t/part_0.ts", "/t/part_1.ts", "/t/part_2.ts"]);
    assert_eq!(metrics.completed_chunks(), 3);
    assert_eq!(metrics.total_bytes(), 300);
}

#[test]
fn missing_sizes_count_as_no_file() {
    let segments: Vec<SegmentDescriptor> = (0..2).map(|i| segment(i, "/t")).collect();
    let manifest = CompletionManifest::load("part_0.ts\npart_1.ts\n");
    let mut metrics = DownloadMetrics::new(2);
    let plan = plan_resume(&segments, &manifest, &vec![5], &mut metrics).unwrap();
    assert_eq!(plan.ready, vec!["/t/part_0.ts"]);
    assert_eq!(plan.pending.len(), 1);
}

#[test]
fn empty_segment_list_is_refused() {
    let mut metrics = DownloadMetrics::new(0);
    let r = plan_resume(&vec![], &CompletionManifest::new(), &vec![], &mut metrics);
    assert_eq!(r.err(), Some(AdmitError::NoSegments));
    assert_eq!(metrics.completed_chunks(), 0);
}

#[test]
fn completed_count_stays_within_the_total() {
    let segments: Vec<SegmentDescriptor> = (0..5).map(|i| segment(i, "/t")).collect();
    let manifest = CompletionManifest::load("part_1.ts\npart_3.ts\npart_4.ts\n");
    let mut metrics = DownloadMetrics::new(segments.len());
    let plan = plan_resume(&segments, &manifest, &vec![10, 10, 0, 10, 10], &mut metrics).unwrap();
    assert_eq!(metrics.completed_chunks(), plan.ready.len());
    assert_eq!(plan.ready.len() + plan.pending.len(), segments.len());
    assert_eq!(metrics.total_chunks(), 5);
    for _ in &plan.pending {
        metrics.complete_chunk();
        assert!(metrics.completed_chunks() <= metrics.total_chunks());
    }
    assert_eq!(metrics.completed_chunks(), metrics.total_chunks());
}

#[test]
fn appended_line_adds_a_name_and_takes_none_away() {
    let mut text = String::from("part_4.ts\npart_0.ts\n");
    let before = CompletionManifest::load(&text);
    text.push_str(&manifest_line("part_2.ts"));
    let after = CompletionManifest::load(&text);
    for name in ["part_4.ts", "part_0.ts"] {
        assert!(before.contains(name) && after.contains(name));
    }
    assert!(!before.contains("part_2.ts"));
    assert!(after.contains("part_2.ts"));
    assert_eq!(after.len(), before.len() + 1);
}
