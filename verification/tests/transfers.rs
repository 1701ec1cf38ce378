use vibe_downloader::api::{
    asset_path, prepare_download, serves_index, submission_response, AddDownloadRequest,
    AddFileTypeRequest, AppError, UpdateFileTypeRequest, UpdateSettingsRequest,
};
use vibe_downloader::record::{cap, DownloadRecord, ProgressUpdate};
use vibe_downloader::scheduler::Submission;
use vibe_downloader::settings::{config_path, type_id_base, FileTypeConfig, ServerSettings, Settings};
use vibe_downloader::status::DownloadStatus;
use vibe_downloader::transfer::{
    arbitrate, speed, temp_name, StreamItem, Transfer, TransferAction, TransferError,
    TransferEvent, PROGRESS_INTERVAL_MS,
};

fn record(id: &str) -> DownloadRecord {
    DownloadRecord::with_identity(
        id.to_string(),
        7,
        "https://example.com/a.bin".to_string(),
        "a.bin".to_string(),
        "general".to_string(),
        "/tmp/d".to_string(),
    )
}

fn open(total: Option<u64>) -> Transfer {
    match Transfer::begin(&record("T"), 200, total) {
        Ok(t) => t,
        Err(_) => panic!("a 200 opens the transfer"),
    }
}

#[test]
fn new_record_is_pending_and_empty() {
    let r = record("A");
    assert_eq!(r.id, "A");
    assert_eq!(r.status, DownloadStatus::Pending);
    assert_eq!(r.downloaded_size, 0);
    assert_eq!(r.total_size, None);
    assert_eq!(r.error_message, None);
    assert_eq!(r.created_at, 7);
    assert_eq!(r.started_at, None);
    assert_eq!(r.completed_at, None);
    assert!(r.is_consistent());
}

#[test]
fn new_records_get_distinct_ids() {
    let a = DownloadRecord::new("u".into(), "f".into(), "general".into(), "/d".into(), 11);
    let b = DownloadRecord::new("u".into(), "f".into(), "general".into(), "/d".into(), 12);
    assert_ne!(a.id, b.id);
    assert_eq!(a.id.len(), 36);
    assert_eq!(a.url, "u");
    assert_eq!(a.filename, "f");
    assert_eq!(a.file_type, "general");
    assert_eq!(a.destination, "/d");
    assert_eq!(a.status, DownloadStatus::Pending);
    assert_eq!((a.created_at, b.created_at), (11, 12));
    for (at, c) in a.id.chars().enumerate() {
        if [8, 13, 18, 23].contains(&at) {
            assert_eq!(c, '-');
        } else {
            assert!(c.is_ascii_digit() || ('a'..='f').contains(&c));
        }
    }
}

#[test]
fn record_times_are_set_once() {
    let r = record("A").mark_started(10);
    assert_eq!(r.started_at, Some(10));
    let r = r.mark_queued().mark_started(20);
    assert_eq!(r.started_at, Some(10));
    assert_eq!(r.status, DownloadStatus::Downloading);
    let r = r.mark_finished(DownloadStatus::Failed, Some("boom".to_string()), 5, Some(9), 30);
    assert_eq!(r.status, DownloadStatus::Failed);
    assert_eq!(r.error_message, Some("boom".to_string()));
    assert_eq!(r.completed_at, Some(30));
    assert_eq!(r.downloaded_size, 5);
    assert_eq!(r.total_size, Some(9));
    assert!(r.is_consistent());
}

#[test]
fn error_text_is_kept_only_on_failure() {
    let r = record("A").mark_finished(DownloadStatus::Cancelled, Some("x".to_string()), 50, Some(9), 1);
    assert_eq!(r.error_message, None);
    assert_eq!(r.downloaded_size, 9);
    let mut broken = record("B");
    broken.error_message = Some("left over".to_string());
    assert!(!broken.is_consistent());
}

#[test]
fn byte_counts_are_capped_by_the_declared_size() {
    assert_eq!(cap(5, None), 5);
    assert_eq!(cap(5, Some(10)), 5);
    assert_eq!(cap(10, Some(10)), 10);
    assert_eq!(cap(11, Some(10)), 10);
}

#[test]
fn opening_and_closing_reports() {
    let r = record("A").mark_started(1);
    let first = ProgressUpdate::first(&r);
    assert_eq!((first.id.as_str(), first.downloaded, first.speed), ("A", 0, 0));
    assert_eq!(first.status, DownloadStatus::Downloading);
    let r = r.mark_finished(DownloadStatus::Completed, None, 3, Some(4), 2);
    let last = ProgressUpdate::last(&r);
    assert_eq!((last.downloaded, last.total, last.speed), (4, Some(4), 0));
    assert_eq!(last.status, DownloadStatus::Completed);
    assert_eq!(last.error, None);
}

#[test]
fn success_statuses_open_a_transfer() {
    for status in [200u16, 204, 299] {
        let t = Transfer::begin(&record("A"), status, Some(10)).expect("2xx");
        assert_eq!((t.id.as_str(), t.downloaded, t.total, t.last_report_ms), ("A", 0, Some(10), 0));
    }
    let mut known = record("A");
    known.total_size = Some(77);
    assert_eq!(Transfer::begin(&known, 200, Some(10)).expect("2xx").total, Some(77));
    assert_eq!(Transfer::begin(&record("A"), 200, None).expect("2xx").total, None);
}

#[test]
fn other_statuses_fail_with_the_status_in_the_text() {
    for status in [0u16, 199, 300, 404, 500] {
        match Transfer::begin(&record("A"), status, None) {
            Err(TransferError::Status(code)) => assert_eq!(code, status),
            _ => panic!("{} is no success", status),
        }
    }
    assert_eq!(TransferError::Status(404).message(), "HTTP error: 404");
    assert_eq!(TransferError::Status(404).status(), DownloadStatus::Failed);
}

#[test]
fn error_texts_and_final_statuses() {
    assert_eq!(TransferError::Transport("reset".into()).message(), "Download error: reset");
    assert_eq!(TransferError::Io("disk full".into()).message(), "disk full");
    assert_eq!(TransferError::Cancelled.message(), "Download cancelled");
    assert_eq!(TransferError::Transport("x".into()).status(), DownloadStatus::Failed);
    assert_eq!(TransferError::Io("x".into()).status(), DownloadStatus::Failed);
    assert_eq!(TransferError::Cancelled.status(), DownloadStatus::Cancelled);
}

#[test]
fn average_speed_is_bytes_per_second() {
    assert_eq!(speed(1000, 500), 2000);
    assert_eq!(speed(1, 3), 333);
    assert_eq!(speed(0, 10), 0);
    assert_eq!(speed(12345, 0), 0);
    assert_eq!(speed(u64::MAX, 1), u64::MAX);
    assert_eq!(speed(u64::MAX, 1000), u64::MAX);
}

#[test]
fn temporary_name_has_the_part_suffix() {
    assert_eq!(temp_name("a.bin"), "a.bin.part");
    assert_eq!(temp_name(""), ".part");
}

#[test]
fn a_stop_request_beats_incoming_data() {
    assert!(matches!(arbitrate(true, StreamItem::Chunk(5)), TransferEvent::Cancelled));
    assert!(matches!(arbitrate(true, StreamItem::End), TransferEvent::Cancelled));
    assert!(matches!(arbitrate(false, StreamItem::Chunk(5)), TransferEvent::Chunk(5)));
    assert!(matches!(arbitrate(false, StreamItem::End), TransferEvent::End));
    match arbitrate(false, StreamItem::Failed("x".into())) {
        TransferEvent::StreamFailed(text) => assert_eq!(text, "x"),
        _ => panic!("a failure stays a failure"),
    }
}

#[test]
fn reports_come_at_the_interval_and_never_fall() {
    assert_eq!(PROGRESS_INTERVAL_MS, 200);
    let mut t = open(Some(1000));
    let mut last_seen = 0u64;
    let mut reports = 0;
    for n in 1..=20u64 {
        let at = n * 50;
        match t.step(TransferEvent::Chunk(40), at) {
            TransferAction::Continue(Some(report)) => {
                assert_eq!(at % 200, 0);
                assert!(report.downloaded >= last_seen);
                assert_eq!(report.downloaded, n * 40);
                assert_eq!(report.total, Some(1000));
                assert_eq!(report.speed, n * 40 * 1000 / at);
                assert_eq!(report.status, DownloadStatus::Downloading);
                last_seen = report.downloaded;
                reports += 1;
            }
            TransferAction::Continue(None) => assert_ne!(at % 200, 0),
            _ => panic!("a chunk goes on"),
        }
        assert_eq!(t.downloaded, n * 40);
    }
    assert_eq!(reports, 5);
    assert!(matches!(t.step(TransferEvent::End, 1001), TransferAction::Finish));
    let report = t.report(None);
    assert_eq!((report.downloaded, report.total), (800, Some(1000)));
    assert!(report.error.is_none());
}

#[test]
fn reported_bytes_stay_within_the_declared_size() {
    let mut t = open(Some(100));
    match t.step(TransferEvent::Chunk(150), 300) {
        TransferAction::Continue(Some(report)) => assert_eq!(report.downloaded, 100),
        _ => panic!("a report is due"),
    }
    assert_eq!(t.downloaded, 150);
}

#[test]
fn failures_and_stops_abort_the_transfer() {
    let mut t = open(None);
    assert!(matches!(t.step(TransferEvent::Chunk(10), 10), TransferAction::Continue(None)));
    assert!(matches!(
        t.step(TransferEvent::Cancelled, 20),
        TransferAction::Abort(TransferError::Cancelled)
    ));
    match t.step(TransferEvent::StreamFailed("reset".into()), 30) {
        TransferAction::Abort(TransferError::Transport(text)) => assert_eq!(text, "reset"),
        _ => panic!("a network failure aborts"),
    }
    match t.step(TransferEvent::WriteFailed("full".into()), 40) {
        TransferAction::Abort(TransferError::Io(text)) => assert_eq!(text, "full"),
        _ => panic!("a disk failure aborts"),
    }
    assert_eq!(t.downloaded, 10);
    let report = t.report(Some(TransferError::Cancelled));
    assert!(matches!(report.error, Some(TransferError::Cancelled)));
}

#[test]
fn default_settings() {
    let s = Settings::with_downloads_dir("/home/u/Downloads");
    assert_eq!(s.server.host, "0.0.0.0");
    assert_eq!(s.server.port, 8787);
    assert_eq!(s.max_concurrent_downloads, 3);
    assert!(!s.start_on_login && !s.start_on_boot);
    let ids: Vec<&str> = s.file_types.iter().map(|e| e.id.as_str()).collect();
    assert_eq!(ids, vec!["general", "video", "audio", "documents", "images", "archives"]);
    assert_eq!(s.file_type("general").map(|c| c.destination.as_str()), Some("/home/u/Downloads"));
    assert_eq!(s.file_type("video").map(|c| c.destination.as_str()), Some("/home/u/Downloads/Videos"));
    assert_eq!(s.file_type("archives").map(|c| c.name.as_str()), Some("Archives"));
    assert_eq!(
        s.file_type("images").map(|c| c.extensions.clone()),
        Some(vec!["jpg".to_string(), "jpeg".into(), "png".into(), "gif".into(), "webp".into(), "svg".into()])
    );
    assert_eq!(s.file_type("general").map(|c| c.extensions.clone()), Some(vec!["*".to_string()]));
    let d = ServerSettings::default();
    assert_eq!((d.host.as_str(), d.port), ("0.0.0.0", 8787));
}

#[test]
fn unknown_kind_falls_back_to_general() {
    let s = Settings::with_downloads_dir("/d");
    assert_eq!(s.resolve_file_type("audio").map(|c| c.destination.as_str()), Some("/d/Audio"));
    assert_eq!(s.resolve_file_type("nonsense").map(|c| c.destination.as_str()), Some("/d"));
    assert_eq!(s.position("documents"), Some(3));
    assert_eq!(s.position("nonsense"), None);
}

#[test]
fn request_without_any_kind_is_refused() {
    let mut s = Settings::with_downloads_dir("/d");
    s.file_types.clear();
    let request = AddDownloadRequest { url: "https://e.com/a".into(), file_type: "video".into(), filename: None };
    match prepare_download(&s, request, 5) {
        Err(AppError::BadRequest(text)) => assert_eq!(text, "Unknown file type"),
        _ => panic!("no kind, no download"),
    }
}

#[test]
fn request_becomes_a_pending_record() {
    let s = Settings::with_downloads_dir("/d");
    let request = AddDownloadRequest {
        url: "https://example.com/files/archive.tar.gz?x=1".into(),
        file_type: "archives".into(),
        filename: None,
    };
    let r = prepare_download(&s, request, 77).expect("a record");
    assert_eq!(r.created_at, 77);
    assert_eq!(r.filename, "archive.tar.gz");
    assert_eq!(r.destination, "/d/Archives");
    assert_eq!(r.file_type, "archives");
    assert_eq!(r.status, DownloadStatus::Pending);
    let request = AddDownloadRequest { url: "https://example.com/x".into(), file_type: "odd".into(), filename: Some("n.bin".into()) };
    let r = prepare_download(&s, request, 78).expect("a record");
    assert_eq!((r.filename.as_str(), r.destination.as_str(), r.file_type.as_str()), ("n.bin", "/d", "odd"));
}

#[test]
fn response_says_whether_the_download_waits() {
    let out = submission_response("A".into(), &Submission::Queued);
    assert_eq!((out.id.as_str(), out.queued), ("A", true));
}

#[test]
fn app_errors_map_to_http_statuses() {
    assert_eq!(AppError::Internal("a".into()).status_code(), 500);
    assert_eq!(AppError::BadRequest("b".into()).status_code(), 400);
    assert_eq!(AppError::NotFound("c".into()).status_code(), 404);
    assert_eq!(AppError::NotFound("c".into()).message(), "c");
}

#[test]
fn settings_update_changes_only_what_is_given() {
    let mut s = Settings::with_downloads_dir("/d");
    let out = s.apply_update(UpdateSettingsRequest { max_concurrent_downloads: Some(7), start_on_login: None });
    assert_eq!((out.server_port, out.max_concurrent_downloads, out.start_on_login), (8787, 7, false));
    let out = s.apply_update(UpdateSettingsRequest { max_concurrent_downloads: None, start_on_login: Some(true) });
    assert_eq!((out.max_concurrent_downloads, out.start_on_login), (7, true));
    assert_eq!(s.response(), out);
}

#[test]
fn file_types_can_be_added_changed_and_removed() {
    let mut s = Settings::with_downloads_dir("/d");
    let config = FileTypeConfig { name: "Books".into(), extensions: vec!["epub".into()], destination: "/b".into() };
    assert!(s.insert_file_type("books".into(), config.clone()));
    assert!(!s.insert_file_type("books".into(), config));
    assert_eq!(s.file_types.len(), 7);
    let change = UpdateFileTypeRequest { name: None, extensions: None, destination: Some("/books".into()) };
    assert!(s.update_file_type("books", change).is_ok());
    let books = s.file_type("books").expect("listed");
    assert_eq!((books.name.as_str(), books.destination.as_str()), ("Books", "/books"));
    assert_eq!(books.extensions, vec!["epub".to_string()]);
    let change = UpdateFileTypeRequest { name: Some("x".into()), extensions: None, destination: None };
    match s.update_file_type("missing", change) {
        Err(AppError::NotFound(text)) => assert_eq!(text, "File type not found"),
        _ => panic!("not listed"),
    }
    match s.remove_file_type("general") {
        Err(AppError::BadRequest(text)) => assert_eq!(text, "Cannot remove default file type"),
        _ => panic!("the general kind stays"),
    }
    assert!(matches!(s.remove_file_type("missing"), Err(AppError::NotFound(_))));
    assert!(s.remove_file_type("books").is_ok());
    assert!(s.file_type("books").is_none());
    assert_eq!(s.file_types.len(), 6);
}

#[test]
fn settings_file_lies_in_the_configuration_folder() {
    assert_eq!(config_path("/home/u/.config/vibe-downloader"), "/home/u/.config/vibe-downloader/config.toml");
}

#[test]
fn kind_id_comes_from_the_name() {
    assert_eq!(type_id_base("My Books"), "my-books");
    assert_eq!(type_id_base("E-Books & More!"), "e-books---more-");
    assert_eq!(type_id_base("ÄRZTE 24"), "ärzte-24");
    assert_eq!(type_id_base(""), "");
}

#[test]
fn new_kinds_get_ids_that_are_free() {
    let mut s = Settings::with_downloads_dir("/d");
    let request = |name: &str| AddFileTypeRequest {
        name: name.to_string(),
        extensions: vec!["x".to_string()],
        destination: "/x".to_string(),
    };
    assert_eq!(s.add_file_type(request("Books")), "books");
    assert_eq!(s.add_file_type(request("Books")), "books-1");
    assert_eq!(s.add_file_type(request("books")), "books-2");
    assert_eq!(s.add_file_type(request("Video")), "video-1");
    assert_eq!(s.free_type_id("books"), "books-3");
    assert_eq!(s.free_type_id("fresh"), "fresh");
    assert_eq!(s.file_types.len(), 10);
    let last = s.file_types.last().expect("listed");
    assert_eq!((last.id.as_str(), last.config.name.as_str()), ("video-1", "Video"));
    assert_eq!(last.config.destination, "/x");
    for n in 3..12 {
        assert_eq!(s.add_file_type(request("Books")), format!("books-{}", n));
    }
}

#[test]
fn paths_without_a_dot_get_the_front_page() {
    assert!(serves_index(""));
    assert!(serves_index("downloads/active"));
    assert!(!serves_index("app.js"));
    assert!(!serves_index("assets/logo.v2.png"));
    assert_eq!(asset_path("/assets/app.js"), "assets/app.js");
    assert_eq!(asset_path("//x"), "x");
    assert_eq!(asset_path("/"), "");
    assert_eq!(asset_path("plain"), "plain");
}
