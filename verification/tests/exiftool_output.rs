use geotagger::capture::ProjectTimezone;
use geotagger::domain::TimezoneSource;
use geotagger::error::ErrorCode;
use geotagger::exiftool::local_capture;
use geotagger::exiftool::{
    check_write_output, exiftool_candidates, exiftool_status, metadata_batch_size, metadata_from_output,
    normalize_path_key, redacted_stderr, version_from_output, CandidateProbe, ExifTool, JsonField, PhotoRef,
};

fn instant(text: &str) -> i128 {
    chrono::DateTime::parse_from_rfc3339(text)
        .expect("time")
        .timestamp_nanos_opt()
        .expect("in range") as i128
}

#[test]
fn missing_resource_returns_business_error() {
    let probes = vec![CandidateProbe::Absent, CandidateProbe::Absent, CandidateProbe::Absent];
    let error = ExifTool::discover(&probes).expect_err("missing");
    assert_eq!(error.code, ErrorCode::ExiftoolNotAvailable);
}

#[test]
fn first_found_candidate_is_the_executable() {
    let probes = vec![
        CandidateProbe::Absent,
        CandidateProbe::Found("/opt/app/exiftool/exiftool".to_owned()),
        CandidateProbe::Found("/other/exiftool".to_owned()),
    ];
    let tool = ExifTool::discover(&probes).expect("found");
    assert_eq!(tool.executable(), "/opt/app/exiftool/exiftool");
}

#[test]
fn unresolvable_candidate_is_an_error() {
    let probes = vec![CandidateProbe::Unresolvable("permission denied".to_owned()), CandidateProbe::Found("/x".to_owned())];
    let error = ExifTool::discover(&probes).expect_err("unresolvable");
    assert_eq!(error.code, ErrorCode::ExiftoolNotAvailable);
}

#[test]
fn candidates_are_listed_in_search_order() {
    let candidates = exiftool_candidates("/res", Some("/prog"), false);
    assert_eq!(
        candidates,
        vec![
            "/res/resources/exiftool/exiftool".to_owned(),
            "/res/exiftool/exiftool".to_owned(),
            "/res/exiftool".to_owned(),
            "/prog/resources/exiftool/exiftool".to_owned(),
            "/prog/exiftool/exiftool".to_owned(),
        ]
    );
    assert_eq!(exiftool_candidates("/res", None, true).len(), 3);
    assert!(exiftool_candidates("/res", None, true)[2].ends_with("exiftool.exe"));
}

#[test]
fn error_output_is_reported_by_size_only() {
    assert_eq!(redacted_stderr(b""), "未提供错误详情");
    let text = redacted_stderr(b"/home/user/secret.jpg 31.2,121.5");
    assert_eq!(text, "ExifTool 返回了 32 字节错误信息（完整路径和坐标已隐藏）");
    assert!(!text.contains("secret"));
}

#[test]
fn failed_write_is_a_permission_error() {
    assert!(check_write_output(true, b"warning").is_ok());
    let error = check_write_output(false, b"oops").expect_err("failed");
    assert_eq!(error.code, ErrorCode::WritePermissionDenied);
    assert_eq!(error.message, "ExifTool 写入失败：ExifTool 返回了 4 字节错误信息（完整路径和坐标已隐藏）");
}

#[test]
fn version_is_trimmed_output() {
    assert_eq!(version_from_output(true, b"13.10\n", b"").expect("version"), "13.10");
    let empty = version_from_output(true, b"  \n", b"").expect_err("empty");
    assert_eq!(empty.message, "ExifTool 没有返回版本号。");
    let failed = version_from_output(false, b"13.10", b"").expect_err("failed");
    assert_eq!(failed.message, "ExifTool 版本检查失败：未提供错误详情");
}

#[test]
fn status_reports_version_and_path() {
    let tool = ExifTool::discover(&vec![CandidateProbe::Found("/e".to_owned())]).expect("tool");
    let status = exiftool_status(Ok((tool, "13.10".to_owned())));
    assert!(status.available);
    assert_eq!(status.version.as_deref(), Some("13.10"));
    assert_eq!(status.executable_path.as_deref(), Some("/e"));
    let missing = exiftool_status(Err(geotagger::exiftool::missing_exiftool()));
    assert!(!missing.available);
    assert!(missing.error.is_some());
}

#[test]
fn batch_size_is_smaller_on_windows() {
    assert_eq!(metadata_batch_size(true), 16);
    assert_eq!(metadata_batch_size(false), 128);
}

#[test]
fn path_keys_fold_separators_and_case_on_windows() {
    assert_eq!(normalize_path_key("C:\\Photos\\IMG.JPG", true), "c:/photos/img.jpg");
    assert_eq!(normalize_path_key("/Photos/IMG.JPG", false), "/Photos/IMG.JPG");
}

fn photos() -> Vec<PhotoRef> {
    vec![
        PhotoRef { id: 20, path: "/p/b.jpg".to_owned() },
        PhotoRef { id: 10, path: "/p/a.jpg".to_owned() },
        PhotoRef { id: 30, path: "/p/c.jpg".to_owned() },
    ]
}

#[test]
fn metadata_records_follow_source_files_and_photo_ids() {
    let timezone = ProjectTimezone::parse("Asia/Shanghai").expect("timezone");
    let stdout = br#"[
        {"SourceFile":"/p/a.jpg","DateTimeOriginal":"2024:10:03 09:12:45","GPSLatitude":31.5,"GPSLongitude":121.25},
        {"SourceFile":"/p/b.jpg","SubSecDateTimeOriginal":"2024:10:03 09:12:45.500+02:00","DateTimeOriginal":"2024:10:03 09:12:45"}
    ]"#;
    let records = metadata_from_output(&photos(), stdout, b"", &timezone, false).expect("records");
    assert_eq!(records.len(), 3);
    assert_eq!(records.iter().map(|r| r.photo_id).collect::<Vec<_>>(), vec![10, 20, 30]);

    let a = &records[0];
    assert_eq!(a.source_file, "/p/a.jpg");
    assert_eq!(a.capture_utc, Some(instant("2024-10-03T01:12:45Z")));
    assert_eq!(a.timezone_source, TimezoneSource::ProjectDefault);
    assert!(matches!(&a.gps_latitude, JsonField::Number(n) if n == "31.5"));
    assert!(matches!(&a.gps_altitude, JsonField::Absent));
    assert!(a.error.is_none());

    let b = &records[1];
    assert_eq!(b.capture_utc, Some(instant("2024-10-03T07:12:45.5Z")));
    assert_eq!(b.timezone_source, TimezoneSource::MetadataOffset);

    let c = &records[2];
    assert_eq!(c.source_file, "/p/c.jpg");
    assert_eq!(c.capture_utc, None);
    assert_eq!(c.timezone_source, TimezoneSource::Unknown);
    assert_eq!(c.error.as_deref(), Some("ExifTool 没有返回此文件的元数据。"));
}

#[test]
fn entry_without_known_source_file_takes_its_position() {
    let timezone = ProjectTimezone::parse("Asia/Shanghai").expect("timezone");
    let stdout = br#"[{"SourceFile":"/elsewhere.jpg","Error":"File not found"}]"#;
    let records = metadata_from_output(&photos(), stdout, b"", &timezone, false).expect("records");
    let b = records.iter().find(|r| r.photo_id == 20).expect("photo 20");
    assert_eq!(b.error.as_deref(), Some("File not found"));
}

#[test]
fn unreadable_capture_time_becomes_the_record_error() {
    let timezone = ProjectTimezone::parse("Asia/Shanghai").expect("timezone");
    let stdout = br#"[{"SourceFile":"/p/a.jpg","CreateDate":"garbage"}]"#;
    let records = metadata_from_output(&photos(), stdout, b"", &timezone, false).expect("records");
    assert_eq!(records[0].error.as_deref(), Some("无法解析拍摄时间：garbage"));
    assert_eq!(records[0].capture_utc, None);
}

#[test]
fn refused_outputs_give_metadata_errors() {
    let timezone = ProjectTimezone::parse("Asia/Shanghai").expect("timezone");
    let empty = metadata_from_output(&photos(), b"", b"abc", &timezone, false).expect_err("empty");
    assert_eq!(empty.code, ErrorCode::PhotoMetadataFailed);
    assert_eq!(empty.message, "ExifTool 未返回 JSON：ExifTool 返回了 3 字节错误信息（完整路径和坐标已隐藏）");
    let bad = metadata_from_output(&photos(), b"{", b"", &timezone, false).expect_err("bad json");
    assert!(bad.message.starts_with("ExifTool JSON 解析失败："));
    let not_object = metadata_from_output(&photos(), b"[1]", b"", &timezone, false).expect_err("not object");
    assert_eq!(not_object.message, "ExifTool JSON 条目不是对象。");
    let four = br#"[{},{},{},{}]"#;
    let unmatched = metadata_from_output(&photos(), four, b"", &timezone, false).expect_err("unmatched");
    assert_eq!(unmatched.message, "ExifTool 返回了无法对应到照片的条目。");
}

#[test]
fn local_capture_prefers_sub_second_time() {
    let sub = Some("2024:01:01 10:00:00.25".to_owned());
    let original = Some("2024:01:01 10:00:00".to_owned());
    let created = Some("2024:01:02 00:00:00".to_owned());
    assert_eq!(local_capture(&sub, &original, &created), sub);
    assert_eq!(local_capture(&None, &original, &created), original);
    assert_eq!(local_capture(&None, &None, &created), created);
    assert_eq!(local_capture(&None, &None, &None), None);
}

#[test]
fn exiftool_candidates_use_windows_separators() {
    let candidates = exiftool_candidates("C:\\app", Some("C:\\bin"), true);
    assert_eq!(candidates[0], "C:\\app\\resources\\exiftool\\exiftool.exe");
    assert_eq!(candidates[2], "C:\\app\\exiftool.exe");
    assert_eq!(candidates[4], "C:\\bin\\exiftool\\exiftool.exe");
}
