use m3u8_core::download_manager::{DownloadControl, DownloadManager, DownloadTask};
use std::sync::atomic::Ordering;

#[test]
fn fresh_control_is_neither_paused_nor_cancelled() {
    let c = DownloadControl::new();
    assert!(!c.is_paused());
    assert!(!c.is_cancelled());
}

#[test]
fn pause_and_resume_change_the_flag() {
    let c = DownloadControl::new();
    c.pause();
    assert!(c.is_paused());
    assert!(!c.is_cancelled());
    c.resume();
    assert!(!c.is_paused());
}

#[test]
fn cancel_sets_the_flag_for_every_holder() {
    let c = DownloadControl::new();
    let flag = c.get_cancel_flag();
    assert!(!flag.load(Ordering::SeqCst));
    c.cancel();
    assert!(c.is_cancelled());
    assert!(flag.load(Ordering::SeqCst));
    c.cancel();
    assert!(c.is_cancelled());
}

#[test]
fn notifier_is_shared() {
    let c = DownloadControl::new();
    let a = c.get_notify();
    let b = c.get_notify();
    assert!(std::sync::Arc::ptr_eq(&a, &b));
}

#[test]
fn added_task_exists() {
    let mut m = DownloadManager::new();
    assert!(!m.task_exists("a"));
    assert!(m.add_task("a".to_string(), DownloadTask::new("/out/temp_a".to_string())));
    assert!(m.task_exists("a"));
    assert!(!m.task_exists("b"));
}

#[test]
fn duplicate_id_is_rejected() {
    let mut m = DownloadManager::new();
    let first = DownloadTask::new("/out/first".to_string());
    let flag = first.get_cancel_flag();
    assert!(m.add_task("a".to_string(), first));
    assert!(!m.add_task("a".to_string(), DownloadTask::new("/out/second".to_string())));
    assert!(m.task_exists("a"));
    assert_eq!(m.delete_task("a"), Some("/out/first".to_string()));
    assert!(flag.load(Ordering::SeqCst));
}

#[test]
fn cancel_removes_the_task_and_sets_its_flag() {
    let mut m = DownloadManager::new();
    let task = DownloadTask::new("/out/temp_a".to_string());
    let flag = task.get_cancel_flag();
    m.add_task("a".to_string(), task);
    m.add_task("b".to_string(), DownloadTask::new("/out/temp_b".to_string()));
    assert!(m.cancel_task("a"));
    assert!(flag.load(Ordering::SeqCst));
    assert!(!m.task_exists("a"));
    assert!(m.task_exists("b"));
}

#[test]
fn cancel_is_idempotent() {
    let mut m = DownloadManager::new();
    m.add_task("a".to_string(), DownloadTask::new("/out/temp_a".to_string()));
    assert!(m.cancel_task("a"));
    assert!(!m.cancel_task("a"));
    assert!(!m.cancel_task("never"));
    assert!(!m.task_exists("a"));
}

#[test]
fn delete_hands_back_the_directory_to_purge() {
    let mut m = DownloadManager::new();
    let task = DownloadTask::new("/out/temp_a".to_string());
    let flag = task.get_cancel_flag();
    m.add_task("a".to_string(), task);
    assert_eq!(m.delete_task("a"), Some("/out/temp_a".to_string()));
    assert!(flag.load(Ordering::SeqCst));
    assert!(!m.task_exists("a"));
    assert_eq!(m.delete_task("a"), None);
}

#[test]
fn id_can_be_registered_again_after_cancel() {
    let mut m = DownloadManager::new();
    m.add_task("a".to_string(), DownloadTask::new("/out/temp_a".to_string()));
    m.cancel_task("a");
    assert!(m.add_task("a".to_string(), DownloadTask::new("/out/temp_a".to_string())));
}

#[test]
fn pause_and_resume_reach_the_registered_task() {
    let mut m = DownloadManager::new();
    let task = DownloadTask::new("/out/temp_a".to_string());
    let control = task.control.clone();
    m.add_task("a".to_string(), task);
    assert!(m.pause_task("a"));
    assert!(control.is_paused());
    assert!(m.resume_task("a"));
    assert!(!control.is_paused());
    assert!(!m.pause_task("b"));
    assert!(!m.resume_task("b"));
}
