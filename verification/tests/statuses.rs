use vibe_downloader::startup::{
    check_linger_status, check_linux_dependencies, contains_text, library_found,
};
use vibe_downloader::status::DownloadStatus;

fn all() -> Vec<DownloadStatus> {
    vec![
        DownloadStatus::Pending,
        DownloadStatus::Queued,
        DownloadStatus::Downloading,
        DownloadStatus::Paused,
        DownloadStatus::Completed,
        DownloadStatus::Failed,
        DownloadStatus::Cancelled,
    ]
}

#[test]
fn status_names() {
    assert_eq!(DownloadStatus::Pending.as_str(), "pending");
    assert_eq!(DownloadStatus::Queued.as_str(), "queued");
    assert_eq!(DownloadStatus::Downloading.as_str(), "downloading");
    assert_eq!(DownloadStatus::Paused.as_str(), "paused");
    assert_eq!(DownloadStatus::Completed.as_str(), "completed");
    assert_eq!(DownloadStatus::Failed.as_str(), "failed");
    assert_eq!(DownloadStatus::Cancelled.as_str(), "cancelled");
}

#[test]
fn status_names_read_back() {
    for status in all() {
        assert_eq!(DownloadStatus::from_str(status.as_str()), status);
    }
}

#[test]
fn unknown_status_name_reads_as_pending() {
    assert_eq!(DownloadStatus::from_str("nonsense"), DownloadStatus::Pending);
    assert_eq!(DownloadStatus::from_str(""), DownloadStatus::Pending);
    assert_eq!(DownloadStatus::from_str("Completed"), DownloadStatus::Pending);
}

#[test]
fn terminal_and_resumable_statuses() {
    for status in all() {
        let terminal = matches!(
            status,
            DownloadStatus::Completed | DownloadStatus::Failed | DownloadStatus::Cancelled
        );
        let resumable = matches!(
            status,
            DownloadStatus::Pending | DownloadStatus::Queued | DownloadStatus::Downloading
        );
        assert_eq!(status.is_terminal(), terminal);
        assert_eq!(status.is_resumable(), resumable);
    }
    assert!(!DownloadStatus::Paused.is_terminal());
    assert!(!DownloadStatus::Paused.is_resumable());
}

#[test]
fn missing_libraries_name_their_packages() {
    assert!(check_linux_dependencies(true, true, true).is_empty());
    assert_eq!(check_linux_dependencies(false, true, false), vec!["libgtk-3-0", "libxdo3"]);
    assert_eq!(
        check_linux_dependencies(false, false, false),
        vec!["libgtk-3-0", "libayatana-appindicator3-1", "libxdo3"]
    );
}

#[test]
fn library_is_looked_up_in_the_listing_or_on_disk() {
    let listing = "\tlibxdo.so.3 (libc6,x86-64) => /lib/x86_64-linux-gnu/libxdo.so.3\n";
    assert!(library_found(Some(listing), "libxdo.so.3", false));
    assert!(!library_found(Some(listing), "libgtk-3.so.0", true));
    assert!(library_found(None, "libgtk-3.so.0", true));
    assert!(!library_found(None, "libgtk-3.so.0", false));
    assert!(contains_text("abc", ""));
    assert!(contains_text("abc", "bc"));
    assert!(!contains_text("abc", "cb"));
    assert!(!contains_text("", "a"));
}

#[test]
fn linger_warning_is_due_only_when_boot_start_cannot_work() {
    assert!(!check_linger_status(false, false, None));
    assert!(!check_linger_status(true, true, None));
    assert!(!check_linger_status(true, false, Some("Linger=yes\n")));
    assert!(check_linger_status(true, false, Some("Linger=no\n")));
    assert!(check_linger_status(true, false, None));
}
