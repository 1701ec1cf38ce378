use vibe_downloader::manager::{CancelOutcome, DownloadManager};
use vibe_downloader::record::DownloadRecord;
use vibe_downloader::resume::{pending_downloads, resume_incomplete_downloads, resume_pending};
use vibe_downloader::scheduler::{
    cancel, complete, start_waiting, submit, Cancellation, Started,
    Submission,
};
use vibe_downloader::status::DownloadStatus;
use vibe_downloader::transfer::{TransferError, TransferReport};

fn record(id: &str, created_at: i64) -> DownloadRecord {
    DownloadRecord::with_identity(
        id.to_string(),
        created_at,
        format!("https://example.com/{}.bin", id),
        format!("{}.bin", id),
        "general".to_string(),
        "/tmp/downloads".to_string(),
    )
}

fn stored(id: &str, created_at: i64, status: DownloadStatus) -> DownloadRecord {
    let mut r = record(id, created_at);
    r.status = status;
    r
}

fn started(submission: Submission) -> Started {
    match submission {
        Submission::Started(s) => s,
        Submission::Queued => panic!("expected a start"),
    }
}

fn success(downloaded: u64, total: Option<u64>) -> TransferReport {
    TransferReport { downloaded, total, error: None }
}

fn stats(manager: &DownloadManager) -> (usize, usize, usize) {
    let s = manager.stats();
    (s.active, s.queued, s.max_concurrent)
}

#[test]
fn four_submissions_under_a_limit_of_two() {
    let mut manager = DownloadManager::new(2);
    let a = started(submit(&mut manager, record("A", 1), 100));
    let b = started(submit(&mut manager, record("B", 2), 100));
    assert!(matches!(submit(&mut manager, record("C", 3), 100), Submission::Queued));
    assert!(matches!(submit(&mut manager, record("D", 4), 100), Submission::Queued));
    assert_eq!(a.record.status, DownloadStatus::Downloading);
    assert_eq!(b.record.status, DownloadStatus::Downloading);
    assert_eq!(stats(&manager), (2, 2, 2));
    assert!(manager.is_active("A") && manager.is_active("B"));
    assert!(manager.is_queued("C") && manager.is_queued("D"));

    match cancel(&mut manager, "C", 150) {
        Cancellation::Removed(gone, event) => {
            assert_eq!(gone.id, "C");
            assert_eq!(gone.status, DownloadStatus::Cancelled);
            assert_eq!(gone.completed_at, Some(150));
            assert_eq!(gone.error_message, None);
            assert_eq!(event.id, "C");
            assert_eq!(event.status, DownloadStatus::Cancelled);
        }
        _ => panic!("C waited and must be removed"),
    }
    assert_eq!(stats(&manager), (2, 1, 2));

    let done = complete(&mut manager, a.record, success(10, Some(10)), 200);
    assert_eq!(done.record.status, DownloadStatus::Completed);
    let next = done.next.expect("D takes the free place");
    assert_eq!(next.record.id, "D");
    assert_eq!(next.record.status, DownloadStatus::Downloading);
    assert_eq!(next.event.status, DownloadStatus::Downloading);
    assert_eq!(next.event.downloaded, 0);
    assert_eq!(stats(&manager), (2, 0, 2));
    assert!(manager.is_active("D") && !manager.is_active("A"));
}

#[test]
fn active_count_never_exceeds_the_limit() {
    for limit in 1..6usize {
        let mut manager = DownloadManager::new(limit);
        let mut running: Vec<DownloadRecord> = Vec::new();
        for n in 0..20 {
            let id = format!("r{}", n);
            if let Submission::Started(s) = submit(&mut manager, record(&id, n), 0) {
                running.push(s.record);
            }
            assert!(manager.active_count() <= limit);
            if n % 3 == 2 {
                let finished = running.remove(0);
                let out = complete(&mut manager, finished, success(1, None), 1);
                if let Some(s) = out.next {
                    running.push(s.record);
                }
                assert!(manager.active_count() <= limit);
            }
            if n % 5 == 4 {
                let target = format!("r{}", n - 1);
                let _ = cancel(&mut manager, &target, 2);
                assert!(manager.active_count() <= limit);
            }
        }
    }
}

#[test]
fn a_limit_of_zero_queues_everything() {
    let mut manager = DownloadManager::new(0);
    assert!(matches!(submit(&mut manager, record("A", 1), 0), Submission::Queued));
    assert_eq!(stats(&manager), (0, 1, 0));
}

#[test]
fn queue_is_first_in_first_out() {
    let mut manager = DownloadManager::new(1);
    let mut current = started(submit(&mut manager, record("first", 0), 0)).record;
    for n in 0..5 {
        assert!(matches!(
            submit(&mut manager, record(&format!("w{}", n), n), 0),
            Submission::Queued
        ));
    }
    for n in 0..5 {
        let out = complete(&mut manager, current, success(0, None), 1);
        let next = out.next.expect("one start for one ending");
        assert_eq!(next.record.id, format!("w{}", n));
        current = next.record;
    }
    let out = complete(&mut manager, current, success(0, None), 1);
    assert!(out.next.is_none());
    assert_eq!(stats(&manager), (0, 0, 1));
}

#[test]
fn enqueue_and_dequeue_keep_order() {
    let mut manager = DownloadManager::new(1);
    manager.enqueue(record("x", 3));
    manager.enqueue(record("y", 2));
    manager.enqueue(record("z", 1));
    assert_eq!(manager.queue_len(), 3);
    assert_eq!(manager.dequeue().map(|r| r.id), Some("x".to_string()));
    assert_eq!(manager.dequeue().map(|r| r.id), Some("y".to_string()));
    assert_eq!(manager.dequeue().map(|r| r.id), Some("z".to_string()));
    assert!(manager.dequeue().is_none());
}

#[test]
fn raising_the_limit_starts_waiting_downloads_at_once() {
    let mut manager = DownloadManager::new(1);
    let _a = started(submit(&mut manager, record("A", 1), 0));
    for id in ["B", "C", "D"] {
        assert!(matches!(submit(&mut manager, record(id, 2), 0), Submission::Queued));
    }
    let begun = manager.set_max_concurrent(3, 50);
    let ids: Vec<String> = begun.iter().map(|s| s.record.id.clone()).collect();
    assert_eq!(ids, vec!["B".to_string(), "C".to_string()]);
    for s in &begun {
        assert_eq!(s.record.status, DownloadStatus::Downloading);
        assert_eq!(s.record.started_at, Some(50));
    }
    assert_eq!(stats(&manager), (3, 1, 3));
    let begun = manager.set_max_concurrent(10, 60);
    assert_eq!(begun.len(), 1);
    assert_eq!(stats(&manager), (4, 0, 10));
}

#[test]
fn lowering_the_limit_interrupts_nothing() {
    let mut manager = DownloadManager::new(3);
    let a = started(submit(&mut manager, record("A", 1), 0));
    let _b = started(submit(&mut manager, record("B", 2), 0));
    let _c = started(submit(&mut manager, record("C", 3), 0));
    assert!(matches!(submit(&mut manager, record("D", 4), 0), Submission::Queued));
    let begun = manager.set_max_concurrent(1, 10);
    assert!(begun.is_empty());
    assert!(manager.is_active("A") && manager.is_active("B") && manager.is_active("C"));
    assert_eq!(stats(&manager), (3, 1, 1));
    let out = complete(&mut manager, a.record, success(0, None), 20);
    assert!(out.next.is_none());
    assert_eq!(stats(&manager), (2, 1, 1));
    let begun = manager.set_max_concurrent(5, 30);
    assert_eq!(begun.len(), 1);
    assert_eq!(begun[0].record.id, "D");
    assert_eq!(begun[0].record.status, DownloadStatus::Downloading);
    assert_eq!(stats(&manager), (3, 0, 5));
    assert!(start_waiting(&mut manager, 31).is_empty());
}

#[test]
fn cancelled_waiting_download_never_starts() {
    let mut manager = DownloadManager::new(1);
    let a = started(submit(&mut manager, record("A", 1), 0));
    assert!(matches!(submit(&mut manager, record("B", 2), 0), Submission::Queued));
    assert!(matches!(submit(&mut manager, record("C", 3), 0), Submission::Queued));
    assert!(matches!(cancel(&mut manager, "B", 5), Cancellation::Removed(..)));
    assert!(!manager.is_queued("B") && !manager.is_active("B"));
    let out = complete(&mut manager, a.record, success(0, None), 6);
    let next = out.next.expect("C starts");
    assert_eq!(next.record.id, "C");
    let out = complete(&mut manager, next.record, success(0, None), 7);
    assert!(out.next.is_none());
    assert!(!manager.is_active("B"));
    assert!(matches!(cancel(&mut manager, "B", 8), Cancellation::NotFound));
}

#[test]
fn cancelling_a_running_download_ends_it_as_cancelled() {
    let mut manager = DownloadManager::new(1);
    let a = started(submit(&mut manager, record("A", 1), 0));
    assert!(matches!(submit(&mut manager, record("B", 2), 0), Submission::Queued));
    assert!(matches!(cancel(&mut manager, "A", 5), Cancellation::Signalled));
    assert_eq!(stats(&manager), (1, 1, 1));
    let report = TransferReport { downloaded: 40, total: Some(100), error: Some(TransferError::Cancelled) };
    let out = complete(&mut manager, a.record, report, 6);
    assert_eq!(out.record.status, DownloadStatus::Cancelled);
    assert_eq!(out.record.error_message, None);
    assert_eq!(out.record.completed_at, Some(6));
    assert_eq!(out.event.status, DownloadStatus::Cancelled);
    assert_eq!(out.event.downloaded, 40);
    assert_eq!(out.next.expect("B starts").record.id, "B");
    assert!(!manager.is_active("A"));
    assert!(matches!(cancel(&mut manager, "A", 7), Cancellation::NotFound));
}

#[test]
fn cancel_of_an_unknown_id_is_not_found() {
    let mut manager = DownloadManager::new(2);
    assert!(matches!(cancel(&mut manager, "nobody", 0), Cancellation::NotFound));
    assert!(matches!(manager.cancel("nobody"), CancelOutcome::NotFound));
    assert_eq!(stats(&manager), (0, 0, 2));
}

#[test]
fn manager_cancel_tells_running_from_waiting() {
    let mut manager = DownloadManager::new(1);
    manager.add_active("A".to_string());
    manager.enqueue(record("B", 1));
    assert!(matches!(manager.cancel("A"), CancelOutcome::Signal));
    assert!(manager.is_active("A"));
    match manager.cancel("B") {
        CancelOutcome::Removed(r) => assert_eq!(r.id, "B"),
        _ => panic!("B waited"),
    }
    assert!(manager.remove_from_queue("B").is_none());
    manager.remove_active("A");
    assert!(!manager.is_active("A"));
    assert_eq!(manager.active_count(), 0);
}

#[test]
fn registering_an_id_twice_counts_once() {
    let mut manager = DownloadManager::new(4);
    manager.add_active("A".to_string());
    manager.add_active("A".to_string());
    assert_eq!(manager.active_count(), 1);
    assert!(manager.has_free_slot());
    assert_eq!(manager.max_concurrent(), 4);
    manager.remove_active("missing");
    assert_eq!(manager.active_count(), 1);
}

#[test]
fn one_ending_starts_exactly_one() {
    let mut manager = DownloadManager::new(2);
    let a = started(submit(&mut manager, record("A", 1), 0));
    let _b = started(submit(&mut manager, record("B", 2), 0));
    for id in ["C", "D", "E"] {
        assert!(matches!(submit(&mut manager, record(id, 3), 0), Submission::Queued));
    }
    let out = complete(&mut manager, a.record, success(0, None), 1);
    assert_eq!(out.next.map(|s| s.record.id), Some("C".to_string()));
    assert_eq!(stats(&manager), (2, 2, 2));
}

#[test]
fn failed_transfer_keeps_its_error_text() {
    let mut manager = DownloadManager::new(1);
    let a = started(submit(&mut manager, record("A", 1), 0));
    let report = TransferReport { downloaded: 0, total: None, error: Some(TransferError::Status(404)) };
    let out = complete(&mut manager, a.record, report, 9);
    assert_eq!(out.record.status, DownloadStatus::Failed);
    assert_eq!(out.record.error_message, Some("HTTP error: 404".to_string()));
    assert_eq!(out.event.error, Some("HTTP error: 404".to_string()));
    assert_eq!(out.event.status, DownloadStatus::Failed);
    assert!(out.next.is_none());
    assert_eq!(stats(&manager), (0, 0, 1));
}

#[test]
fn completed_report_shows_the_whole_size() {
    let mut manager = DownloadManager::new(1);
    let a = started(submit(&mut manager, record("A", 1), 0));
    let out = complete(&mut manager, a.record, success(90, Some(100)), 9);
    assert_eq!(out.record.status, DownloadStatus::Completed);
    assert_eq!(out.record.total_size, Some(100));
    assert_eq!(out.record.downloaded_size, 100);
    assert_eq!(out.event.downloaded, 100);
    assert_eq!(out.event.total, Some(100));
    assert!(out.record.is_consistent());

    let b = started(submit(&mut manager, record("B", 1), 0));
    let out = complete(&mut manager, b.record, success(77, None), 9);
    assert_eq!(out.event.downloaded, 77);
    assert_eq!(out.event.total, None);
}

#[test]
fn interrupted_download_restarts_from_byte_zero() {
    let mut manager = DownloadManager::new(2);
    let mut interrupted = stored("A", 1, DownloadStatus::Downloading);
    interrupted.downloaded_size = 500;
    interrupted.total_size = Some(1000);
    interrupted.started_at = Some(3);
    let begun = resume_incomplete_downloads(&mut manager, vec![interrupted], 10);
    assert_eq!(begun.len(), 1);
    assert_eq!(begun[0].record.id, "A");
    assert_eq!(begun[0].record.status, DownloadStatus::Downloading);
    assert_eq!(begun[0].record.downloaded_size, 0);
    assert_eq!(begun[0].record.started_at, Some(3));
    assert_eq!(begun[0].event.downloaded, 0);
    assert_eq!(begun[0].event.status, DownloadStatus::Downloading);
    assert!(manager.is_active("A"));
}

#[test]
fn resume_takes_unfinished_work_oldest_first() {
    let mut manager = DownloadManager::new(2);
    let loaded = vec![
        stored("e", 50, DownloadStatus::Queued),
        stored("d", 40, DownloadStatus::Completed),
        stored("c", 30, DownloadStatus::Pending),
        stored("b", 20, DownloadStatus::Failed),
        stored("a", 10, DownloadStatus::Downloading),
        stored("p", 5, DownloadStatus::Paused),
        stored("x", 1, DownloadStatus::Cancelled),
        stored("f", 60, DownloadStatus::Pending),
    ];
    let begun = resume_incomplete_downloads(&mut manager, loaded, 100);
    let ids: Vec<String> = begun.iter().map(|s| s.record.id.clone()).collect();
    assert_eq!(ids, vec!["a".to_string(), "c".to_string()]);
    assert_eq!(stats(&manager), (2, 2, 2));
    assert_eq!(manager.dequeue().map(|r| (r.id, r.status)), Some(("e".to_string(), DownloadStatus::Queued)));
    assert_eq!(manager.dequeue().map(|r| (r.id, r.status)), Some(("f".to_string(), DownloadStatus::Queued)));
    for gone in ["b", "d", "p", "x"] {
        assert!(!manager.is_active(gone) && !manager.is_queued(gone));
    }
}

#[test]
fn pending_downloads_are_sorted_and_stable() {
    let loaded = vec![
        stored("late", 9, DownloadStatus::Pending),
        stored("one", 5, DownloadStatus::Queued),
        stored("done", 1, DownloadStatus::Completed),
        stored("two", 5, DownloadStatus::Downloading),
        stored("early", 2, DownloadStatus::Pending),
    ];
    let ids: Vec<String> = pending_downloads(loaded).into_iter().map(|r| r.id).collect();
    assert_eq!(ids, vec!["early", "one", "two", "late"]);
    assert!(pending_downloads(Vec::new()).is_empty());
}

#[test]
fn resume_skips_what_is_already_known_or_ended() {
    let mut manager = DownloadManager::new(5);
    let _a = started(submit(&mut manager, record("A", 1), 0));
    let offered = vec![
        stored("A", 1, DownloadStatus::Downloading),
        stored("B", 2, DownloadStatus::Completed),
        stored("C", 3, DownloadStatus::Pending),
        stored("C", 4, DownloadStatus::Pending),
    ];
    let begun = resume_pending(&mut manager, offered, 10);
    assert_eq!(begun.len(), 1);
    assert_eq!(begun[0].record.id, "C");
    assert_eq!(stats(&manager), (2, 0, 5));
}
