use geotagger::capture::{parse_capture_time, ProjectTimezone};
use geotagger::domain::TimezoneSource;
use geotagger::error::ErrorCode;

fn instant(text: &str) -> i128 {
    chrono::DateTime::parse_from_rfc3339(text)
        .expect("time")
        .timestamp_nanos_opt()
        .expect("in range") as i128
}

fn shanghai() -> ProjectTimezone {
    ProjectTimezone::parse("Asia/Shanghai").expect("timezone")
}

#[test]
fn parses_offset_time_before_project_timezone() {
    let timezone = shanghai();
    let (parsed, source) =
        parse_capture_time("2024:10:03 09:12:45.123", Some("+08:00"), &timezone).expect("parse");
    assert_eq!(parsed, instant("2024-10-03T01:12:45.123+00:00"));
    assert_eq!(source, TimezoneSource::MetadataOffset);
}

#[test]
fn parses_local_time_with_project_timezone() {
    let timezone = shanghai();
    let (parsed, source) = parse_capture_time("2024:10:03 09:12:45", None, &timezone).expect("parse");
    assert_eq!(parsed, instant("2024-10-03T01:12:45+00:00"));
    assert_eq!(source, TimezoneSource::ProjectDefault);
}

#[test]
fn embedded_offset_wins_over_separate_offset() {
    let timezone = shanghai();
    let (parsed, source) =
        parse_capture_time("2024:10:03 09:12:45+02:00", Some("+08:00"), &timezone).expect("parse");
    assert_eq!(parsed, instant("2024-10-03T07:12:45+00:00"));
    assert_eq!(source, TimezoneSource::MetadataOffset);
}

#[test]
fn unreadable_capture_time_is_refused() {
    let timezone = shanghai();
    let message = parse_capture_time("not a time", None, &timezone).expect_err("unreadable");
    assert_eq!(message, "无法解析拍摄时间：not a time");
}

#[test]
fn unknown_project_timezone_is_refused() {
    let error = ProjectTimezone::parse("Mars/Olympus").expect_err("unknown");
    assert_eq!(error.code, ErrorCode::PhotoTimeAmbiguous);
    assert_eq!(error.message, "无效时区：Mars/Olympus");
}

#[test]
fn project_timezone_keeps_its_name() {
    assert_eq!(shanghai().name(), "Asia/Shanghai");
}

#[test]
fn skipped_local_time_is_refused() {
    let timezone = ProjectTimezone::parse("America/New_York").expect("timezone");
    let message = parse_capture_time("2024:03:10 02:30:00", None, &timezone).expect_err("gap");
    assert_eq!(message, "拍摄时间 2024:03:10 02:30:00 在时区 America/New_York 中不存在（夏令时跳变）。");
}

#[test]
fn repeated_local_time_is_refused() {
    let timezone = ProjectTimezone::parse("America/New_York").expect("timezone");
    let message = parse_capture_time("2024:11:03 01:30:00", None, &timezone).expect_err("fold");
    assert_eq!(message, "拍摄时间 2024:11:03 01:30:00 在时区 America/New_York 的夏令时切换中有两个可能值。");
}
