use geotagger::domain::{MatchStatus, TaskKind, TaskStatus, WriteItemStatus};
use geotagger::error::ErrorCode;
use geotagger::photo::{check_scan_directory, is_supported, normalized_extensions, photo_identity, path_order};
use geotagger::project::{
    check_project_json, create_snapshot, project_path_from_directory, validate_snapshot, PROJECT_SCHEMA_VERSION,
};
use geotagger::report::{build_record_links, check_report_target, diagnostic_summary, ExportReportRequest, ReportFormat};
use geotagger::tasks::TaskManager;
use geotagger::webview2::{ensure_available, runtime_in, webview2_available, webview2_runtime_exists};
use geotagger::workflow::select_metadata_photos;

#[test]
fn json_report_does_not_require_photo_paths_in_summary() {
    let snapshot = create_snapshot("Report".to_owned(), None);
    let summary = diagnostic_summary(snapshot.schema_version, 0, 0, &vec![], 0);
    assert_eq!(summary.photo_count, 0);
    assert!(summary.match_status_counts.is_empty());
}

#[test]
fn writes_empty_csv_report() {
    let request = ExportReportRequest { format: ReportFormat::Csv, target_path: "/tmp/report.csv".to_owned() };
    assert!(check_report_target(&request, false).is_ok());
    let links = build_record_links(&vec![], &vec![], &vec![]);
    assert_eq!(links.len(), 0);
}

#[test]
fn report_targets_need_matching_extension_and_absolute_path() {
    let wrong = ExportReportRequest { format: ReportFormat::Json, target_path: "/tmp/report.csv".to_owned() };
    let error = check_report_target(&wrong, false).expect_err("extension");
    assert_eq!(error.code, ErrorCode::InvalidRequest);
    assert_eq!(error.message, "报告文件扩展名必须为 .json。");
    let upper = ExportReportRequest { format: ReportFormat::Json, target_path: "/tmp/REPORT.JSON".to_owned() };
    assert!(check_report_target(&upper, false).is_ok());
    let relative = ExportReportRequest { format: ReportFormat::Csv, target_path: "report.csv".to_owned() };
    assert_eq!(check_report_target(&relative, false).expect_err("relative").message, "报告目标必须是非空绝对路径。");
}

#[test]
fn status_counts_are_grouped_by_name() {
    let statuses = vec![MatchStatus::OutOfRange, MatchStatus::MatchedHigh, MatchStatus::OutOfRange];
    let summary = diagnostic_summary(PROJECT_SCHEMA_VERSION, 2, 3, &statuses, 1);
    assert_eq!(
        summary.match_status_counts,
        vec![("MATCHED_HIGH".to_owned(), 1), ("OUT_OF_RANGE".to_owned(), 2)]
    );
    assert_eq!((summary.track_count, summary.photo_count, summary.write_job_count), (2, 3, 1));
}

#[test]
fn record_links_use_the_latest_match_and_write() {
    let photos = vec![20u128, 10];
    let matches = vec![10u128, 20, 10];
    let history = vec![vec![(20u128, WriteItemStatus::Failed)], vec![(20u128, WriteItemStatus::WrittenVerified)]];
    let links = build_record_links(&photos, &matches, &history);
    assert_eq!(links.len(), 2);
    assert_eq!((links[0].photo_id, links[0].photo_index, links[0].match_index), (10, 1, Some(2)));
    assert_eq!(links[0].latest_write_status, None);
    assert_eq!((links[1].photo_id, links[1].photo_index, links[1].match_index), (20, 0, Some(1)));
    assert_eq!(links[1].latest_write_status, Some(WriteItemStatus::WrittenVerified));
}

#[test]
fn schema_v1_round_trip() {
    let snapshot = create_snapshot("Test".to_owned(), None);
    let json = format!(r#"{{"schemaVersion":{},"project":{{"name":"Test"}}}}"#, snapshot.schema_version);
    assert!(check_project_json(json.as_bytes()).is_ok());
    assert!(validate_snapshot(snapshot.schema_version, &snapshot.project.name).is_ok());
    assert_eq!(snapshot.schema_version, PROJECT_SCHEMA_VERSION);
}

#[test]
fn rejects_future_schema() {
    let error = check_project_json(br#"{"schemaVersion":999,"project":{"name":"future"}}"#).expect_err("future");
    assert_eq!(error.code, ErrorCode::ProjectInvalid);
    assert_eq!(error.message, "项目版本 999 高于当前支持版本 1。");
}

#[test]
fn project_files_without_version_or_json_are_refused() {
    assert_eq!(check_project_json(br#"{"project":{}}"#).expect_err("missing").message, "项目缺少 schemaVersion。");
    assert!(check_project_json(b"{").expect_err("broken").message.starts_with("项目 JSON 损坏："));
    assert_eq!(check_project_json(br#"{"schemaVersion":0}"#).expect_err("old").message, "无法从项目版本 0 迁移。");
    assert!(check_project_json(br#"{"schema_version":1}"#).is_ok());
}

#[test]
fn new_project_has_default_settings() {
    let snapshot = create_snapshot("Trip".to_owned(), Some("/out".to_owned()));
    assert_eq!(snapshot.project.name, "Trip");
    assert_eq!(snapshot.project.created_at, snapshot.project.updated_at);
    assert_eq!(snapshot.settings.photo_timezone, "Asia/Shanghai");
    assert_eq!(snapshot.settings.default_output_directory.as_deref(), Some("/out"));
    assert_eq!(snapshot.calibration.timezone, "Asia/Shanghai");
    assert!(snapshot.calibration.sync_points.is_empty());
    let other = create_snapshot("Trip".to_owned(), None);
    assert_ne!(other.project.id, snapshot.project.id);
}

#[test]
fn blank_project_name_is_refused() {
    assert_eq!(validate_snapshot(1, "   ").expect_err("blank").message, "项目名称不能为空。");
    assert_eq!(validate_snapshot(2, "x").expect_err("version").message, "不支持的项目版本：2");
}

#[test]
fn project_file_lives_in_its_directory() {
    assert_eq!(project_path_from_directory("/data/trip/../trip2/.", false).expect("path"), "/data/trip2/project.json");
    assert!(project_path_from_directory("/..", false).is_err());
}

#[test]
fn cancellation_is_idempotently_reported() {
    let mut manager = TaskManager::default();
    let id = manager.start(TaskKind::PhotoScan, "scan".to_owned());
    assert!(manager.cancel(id));
    assert!(manager.is_cancel_requested(id));
    manager.finish(id, "cancelled".to_owned());
    assert_eq!(manager.get(id).expect("record").status, TaskStatus::Cancelled);
    assert!(!manager.cancel(id));
}

#[test]
fn finished_task_stays_finished() {
    let mut manager = TaskManager::new();
    manager.start_at(1, TaskKind::MatchCalculation, "match".to_owned(), 5);
    manager.update(1, "half".to_owned(), 1, 2, "working".to_owned());
    let running = manager.get(1).expect("record");
    assert_eq!((running.completed, running.total), (1, 2));
    manager.finish_at(1, "done".to_owned(), 9);
    let done = manager.get(1).expect("record");
    assert_eq!(done.status, TaskStatus::Completed);
    assert_eq!(done.finished_at, Some(9));
    assert!(!manager.cancel(1));
    manager.fail_at(1, geotagger::error::AppError::cancelled(), 10);
    assert_eq!(manager.get(1).expect("record").status, TaskStatus::Cancelled);
    assert!(!manager.cancel(1));
    assert!(manager.get(2).is_none());
    assert_eq!(manager.list().len(), 1);
}

#[test]
fn started_task_is_running_with_a_fresh_id() {
    let mut manager = TaskManager::new();
    let first = manager.start(TaskKind::WriteExif, "write".to_owned());
    let second = manager.start(TaskKind::WriteExif, "write".to_owned());
    assert_ne!(first, second);
    let record = manager.get(first).expect("record");
    assert_eq!(record.status, TaskStatus::Running);
    assert_eq!(record.message, "任务已开始。");
    assert_eq!((record.completed, record.total), (0, 0));
    manager.fail(second, geotagger::error::AppError::internal("boom".to_owned()));
    let failed = manager.get(second).expect("record");
    assert_eq!(failed.status, TaskStatus::Failed);
    assert_eq!(failed.message, "boom");
    assert!(failed.finished_at.is_some());
    assert_eq!(manager.list().iter().map(|r| r.id).collect::<Vec<_>>(), {
        let mut ids = vec![first, second];
        ids.sort();
        ids
    });
}

#[test]
fn recognizes_versioned_runtime_directory() {
    assert!(runtime_in(&vec![true]));
    assert!(!runtime_in(&vec![false, false]));
    assert!(webview2_runtime_exists(false, &vec![false, true]));
    assert!(webview2_runtime_exists(true, &vec![]));
    assert!(ensure_available(true));
    assert!(!webview2_available(false));
}

#[test]
fn scans_supported_extensions_case_insensitively() {
    let extensions = normalized_extensions(None);
    assert!(is_supported("/photos/one.JPG", &extensions, false));
    assert!(!is_supported("/photos/ignore.txt", &extensions, false));
    let identity = photo_identity("/photos/one.JPG", "/photos", "abc", 4, false).expect("identity");
    assert_eq!(identity.extension, "jpg");
    assert_eq!(identity.relative_path, "one.JPG");
}

#[test]
fn requested_extensions_are_lowered_and_deduplicated() {
    let requested = vec![".PNG".to_owned(), "png".to_owned(), "Jpg".to_owned()];
    assert_eq!(normalized_extensions(Some(&requested)), vec!["jpg".to_owned(), "png".to_owned()]);
}

#[test]
fn photo_outside_the_directory_has_no_identity() {
    assert!(photo_identity("/elsewhere/one.jpg", "/photos", "abc", 4, false).is_err());
    let a = photo_identity("/photos/a/one.jpg", "/photos", "abc", 4, false).expect("a");
    let b = photo_identity("/photos/a/one.jpg", "/photos", "abc", 4, false).expect("b");
    assert_eq!(a.id, b.id);
    let c = photo_identity("/photos/a/one.jpg", "/photos", "abd", 4, false).expect("c");
    assert_ne!(a.id, c.id);
}

#[test]
fn scan_directory_must_be_absolute() {
    assert!(check_scan_directory("/photos", false).is_ok());
    assert!(check_scan_directory("  ", false).is_err());
    assert!(check_scan_directory("photos", false).is_err());
}

#[test]
fn scanned_paths_are_ordered_by_text() {
    let paths = vec!["/p/b.jpg".to_owned(), "/p/a.jpg".to_owned(), "/p/B.jpg".to_owned()];
    assert_eq!(path_order(&paths), vec![2, 1, 0]);
}

#[test]
fn metadata_requests_select_known_photos_once() {
    let known = vec![10u128, 20, 30];
    assert_eq!(select_metadata_photos(&vec![], &known).expect("empty"), Vec::<usize>::new());
    assert_eq!(select_metadata_photos(&vec![30, 10, 30], &known).expect("known"), vec![0, 2]);
    let unknown = select_metadata_photos(&vec![10, 40], &known).expect_err("unknown");
    assert_eq!(unknown.code, ErrorCode::InvalidRequest);
    assert_eq!(unknown.message, "元数据请求包含未知照片 ID。");
}

#[test]
fn windows_project_and_report_paths() {
    assert_eq!(
        project_path_from_directory("C:\\data\\trip\\..\\trip2", true).expect("path"),
        "C:\\data\\trip2\\project.json"
    );
    assert!(project_path_from_directory("C:\\..", true).is_err());
    assert!(check_scan_directory("D:\\photos", true).is_ok());
    assert!(check_scan_directory("D:photos", true).is_err());
    let request = ExportReportRequest { format: ReportFormat::Csv, target_path: "C:\\reports\\out.CSV".to_owned() };
    assert!(check_report_target(&request, true).is_ok());
    assert!(check_report_target(&request, false).is_err());
    let identity = photo_identity("C:\\photos\\a\\one.JPG", "c:\\photos", "abc", 4, true).expect("identity");
    assert_eq!(identity.relative_path, "a\\one.JPG");
    assert_eq!(identity.file_name, "one.JPG");
    assert_eq!(identity.extension, "jpg");
}
