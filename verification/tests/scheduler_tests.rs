use m3u8_core::download::{DownloadResult, FetchVerdict};
use m3u8_core::scheduler::{
    after_attempt, attempt_result, backoff_base, backoff_delay, cleanup_after, join_verdict, may_attempt,
    next_backoff, run_outcome, temp_dir_for, Cleanup, JoinVerdict, RetryAction, RunOutcome,
    MAX_RETRIES,
};

#[test]
fn backoff_doubles_up_to_ten_seconds() {
    let expected = [1u64, 2, 4, 8, 10, 10, 10, 10, 10, 10];
    for attempt in 1..=10u32 {
        assert_eq!(backoff_base(attempt), expected[(attempt - 1) as usize]);
        let formula = (1u64 << (attempt - 1)).min(10);
        assert_eq!(backoff_base(attempt), formula);
    }
    assert_eq!(backoff_base(99), 10);
    assert_eq!(backoff_base(u32::MAX), 10);
}

#[test]
fn backoff_delay_adds_the_random_part() {
    assert_eq!(backoff_delay(1, 0), 1000);
    assert_eq!(backoff_delay(1, 999), 1999);
    assert_eq!(backoff_delay(3, 250), 4250);
    assert_eq!(backoff_delay(7, 1), 10001);
}

#[test]
fn drawn_backoff_lies_within_one_second_above_the_fixed_part() {
    for attempt in 1..=10u32 {
        for _ in 0..50 {
            let ms = next_backoff(attempt);
            let base = backoff_base(attempt) * 1000;
            assert!(base <= ms && ms < base + 1000);
        }
    }
}

#[test]
fn drawn_backoff_varies() {
    let first = next_backoff(1);
    let mut differs = false;
    for _ in 0..200 {
        if next_backoff(1) != first {
            differs = true;
        }
    }
    assert!(differs);
}

#[test]
fn no_attempt_is_begun_after_cancellation() {
    assert!(may_attempt(false));
    assert!(!may_attempt(true));
}

#[test]
fn success_is_recorded_under_the_file_name() {
    let outcome = DownloadResult::Success("/out/temp_1/part_42.ts".to_string());
    match after_attempt(1, Some(&outcome)) {
        RetryAction::Complete { entry, path } => {
            assert_eq!(entry, Some("part_42.ts\n".to_string()));
            assert_eq!(path, "/out/temp_1/part_42.ts");
        }
        other => panic!("unexpected action {:?}", other),
    }
}

#[test]
fn success_on_the_last_attempt_is_still_a_success() {
    let outcome = DownloadResult::Success("part_0.ts".to_string());
    assert!(matches!(
        after_attempt(MAX_RETRIES, Some(&outcome)),
        RetryAction::Complete { .. }
    ));
}

#[test]
fn skipped_and_cancelled_attempts_stop_without_record() {
    let skipped = DownloadResult::Skipped("https://s/a.ts".to_string());
    let cancelled = DownloadResult::Cancelled("https://s/a.ts".to_string());
    assert!(matches!(after_attempt(1, Some(&skipped)), RetryAction::Stop));
    assert!(matches!(after_attempt(1, Some(&cancelled)), RetryAction::Stop));
    assert!(matches!(after_attempt(MAX_RETRIES, Some(&skipped)), RetryAction::Stop));
}

#[test]
fn fault_is_followed_by_a_wait_and_another_attempt() {
    match after_attempt(1, None) {
        RetryAction::Retry { next_attempt, base_secs } => {
            assert_eq!(next_attempt, 2);
            assert_eq!(base_secs, 1);
        }
        other => panic!("unexpected action {:?}", other),
    }
    match after_attempt(2, None) {
        RetryAction::Retry { next_attempt, base_secs } => {
            assert_eq!(next_attempt, 3);
            assert_eq!(base_secs, 2);
        }
        other => panic!("unexpected action {:?}", other),
    }
    match after_attempt(MAX_RETRIES - 1, None) {
        RetryAction::Retry { next_attempt, base_secs } => {
            assert_eq!(next_attempt, MAX_RETRIES);
            assert_eq!(base_secs, 10);
        }
        other => panic!("unexpected action {:?}", other),
    }
}

#[test]
fn fault_of_the_last_attempt_gives_up() {
    assert!(matches!(after_attempt(MAX_RETRIES, None), RetryAction::GiveUp));
    assert!(matches!(after_attempt(MAX_RETRIES + 1, None), RetryAction::GiveUp));
}

#[test]
fn transient_failure_succeeds_on_the_third_attempt() {
    let mut waits = Vec::new();
    let mut attempt = 1u32;
    let outcomes: Vec<Option<DownloadResult>> =
        vec![None, None, Some(DownloadResult::Success("t/part_0.ts".to_string()))];
    let mut done = false;
    for outcome in &outcomes {
        match after_attempt(attempt, outcome.as_ref()) {
            RetryAction::Retry { next_attempt, base_secs } => {
                waits.push(base_secs);
                attempt = next_attempt;
            }
            RetryAction::Complete { entry, .. } => {
                assert_eq!(entry, Some("part_0.ts\n".to_string()));
                done = true;
            }
            other => panic!("unexpected action {:?}", other),
        }
    }
    assert!(done);
    assert_eq!(attempt, 3);
    assert_eq!(waits, vec![1, 2]);
}

#[test]
fn run_with_every_segment_is_merged() {
    assert_eq!(join_verdict(3, 3, false), JoinVerdict::Merge);
}

#[test]
fn cancelled_run_is_not_merged() {
    assert_eq!(join_verdict(1, 3, true), JoinVerdict::Cancelled);
    assert_eq!(join_verdict(3, 3, true), JoinVerdict::Cancelled);
}

#[test]
fn run_with_missing_segments_is_incomplete() {
    assert_eq!(join_verdict(2, 3, false), JoinVerdict::Incomplete);
    assert_eq!(join_verdict(0, 1, false), JoinVerdict::Incomplete);
}

#[test]
fn directory_is_deleted_only_after_an_uncancelled_success() {
    assert_eq!(cleanup_after(false, false), Cleanup::Purge);
    assert_eq!(cleanup_after(false, true), Cleanup::Retain);
    assert_eq!(cleanup_after(true, false), Cleanup::Retain);
    assert_eq!(cleanup_after(true, true), Cleanup::Retain);
}

#[test]
fn temp_dir_is_named_after_the_task() {
    assert_eq!(temp_dir_for("/videos", "abc123"), "/videos/temp_abc123");
}

#[test]
fn failure_is_told_apart_from_cancellation() {
    assert_eq!(run_outcome(6, 10, true, true), RunOutcome::Failed);
    assert_eq!(run_outcome(6, 10, true, false), RunOutcome::Cancelled);
    assert_eq!(run_outcome(10, 10, true, true), RunOutcome::Failed);
    assert_eq!(run_outcome(10, 10, false, true), RunOutcome::Failed);
    assert_eq!(run_outcome(3, 10, false, true), RunOutcome::Failed);
}

#[test]
fn run_without_failure_is_judged_by_what_is_there() {
    assert_eq!(run_outcome(3, 3, false, false), RunOutcome::Merge);
    assert_eq!(run_outcome(3, 3, true, false), RunOutcome::Cancelled);
    assert_eq!(run_outcome(2, 3, true, false), RunOutcome::Cancelled);
    assert_eq!(run_outcome(2, 3, false, false), RunOutcome::Incomplete);
    assert_eq!(run_outcome(0, 0, false, false), RunOutcome::Merge);
}

#[test]
fn written_segment_is_a_success_under_its_file() {
    let r = attempt_result(&FetchVerdict::Write(vec![1, 2, 3]), "https://s/a.ts", "/t/part_0.ts");
    assert!(matches!(&r, DownloadResult::Success(p) if p == "/t/part_0.ts"));
    assert!(matches!(
        after_attempt(1, Some(&r)),
        RetryAction::Complete { entry: Some(e), .. } if e == "part_0.ts\n"
    ));
}

#[test]
fn skipped_response_is_no_success_and_records_nothing() {
    let r = attempt_result(&FetchVerdict::Skip, "https://s/a.ts", "/t/part_0.ts");
    assert!(matches!(&r, DownloadResult::Skipped(u) if u == "https://s/a.ts"));
    assert!(matches!(after_attempt(1, Some(&r)), RetryAction::Stop));
}
