use geotagger::domain::{ExistingGpsPolicy, FileFingerprint, MatchStatus, WriteItemStatus, WriteJobStatus, WriteOptions, WritePlanItemAction};
use geotagger::error::ErrorCode;
use geotagger::state::AppState;
use geotagger::workflow::{merge_by_id, merge_scanned_photos, MergeSource, MergedPhoto, PhotoKey, PhotoOrigin};
use geotagger::write_job::{
    check_execution_target, check_preserved_copy, item_result, job_status, skipped_result, temporary_copy_name, WriteRun, WriteStep,
};
use geotagger::write_plan::{build_write_plan, OutputDirectoryFacts, PlanMatch, PlanPhoto, TargetFacts, WritePlan};

fn fingerprint() -> FileFingerprint {
    FileFingerprint { sha256: "hash".to_owned(), size_bytes: 7, modified_unix_ms: 0 }
}

fn photo(id: u128, path: &str, relative_path: &str, file_name: &str) -> PlanPhoto {
    PlanPhoto {
        id,
        path: path.to_owned(),
        relative_path: relative_path.to_owned(),
        file_name: file_name.to_owned(),
        extension: "jpg".to_owned(),
        fingerprint: fingerprint(),
        has_existing_gps: false,
    }
}

fn matched(photo_id: u128) -> PlanMatch {
    PlanMatch {
        photo_id,
        status: MatchStatus::MatchedHigh,
        quality_status: Some(MatchStatus::MatchedHigh),
        has_coordinates: true,
        coordinate_error: None,
    }
}

fn directory(resolved: &str) -> OutputDirectoryFacts {
    OutputDirectoryFacts { exists: true, is_dir: true, resolved: Ok(resolved.to_owned()) }
}

fn target(output: &str, source: &str, exists: bool) -> TargetFacts {
    TargetFacts { resolved_output: Ok(output.to_owned()), resolved_source: Ok(source.to_owned()), output_exists: exists }
}

fn plan(photo: PlanPhoto, dir: &str, options: WriteOptions, facts: TargetFacts) -> Result<WritePlan, geotagger::error::AppError> {
    let id = photo.id;
    build_write_plan(&vec![photo], &vec![matched(id)], &vec![id], dir, options, &directory(dir), &vec![facts], 99, 0, false)
}

#[test]
fn plan_never_targets_source_file() {
    let source = "/tmp/d/photo.jpg";
    let result = plan(photo(1, source, "photo.jpg", "photo.jpg"), "/tmp/d", WriteOptions::default(), target(source, source, true))
        .expect("plan");
    assert_eq!(result.items[0].action, WritePlanItemAction::Conflict);
    assert_eq!(result.conflict_count, 1);
}

#[test]
fn rejects_untrusted_file_name_traversal_without_relative_paths() {
    let options = WriteOptions { preserve_relative_paths: false, ..WriteOptions::default() };
    let result = plan(
        photo(1, "/src/photo.jpg", "photo.jpg", "../escape.jpg"),
        "/out",
        options,
        target("/escape.jpg", "/src/photo.jpg", false),
    );
    assert_eq!(result.expect_err("escape").code, ErrorCode::PathOutsideScope);
}

#[test]
fn rejects_symlink_escape_from_output_root() {
    let result = plan(
        photo(1, "/src/photo.jpg", "escape/photo.jpg", "photo.jpg"),
        "/out",
        WriteOptions::default(),
        target("/outside/photo.jpg", "/src/photo.jpg", false),
    );
    assert_eq!(result.expect_err("outside").code, ErrorCode::PathOutsideScope);
}

#[test]
fn plan_copies_matched_photo_into_the_output_directory() {
    let result = plan(
        photo(1, "/src/a/photo.jpg", "a/photo.jpg", "photo.jpg"),
        "/out",
        WriteOptions::default(),
        target("/out/a/photo.jpg", "/src/a/photo.jpg", false),
    )
    .expect("plan");
    assert_eq!(result.items.len(), 1);
    assert_eq!(result.items[0].action, WritePlanItemAction::WriteGps);
    assert_eq!(result.items[0].output_path, "/out/a/photo.jpg");
    assert_eq!(result.writable_count, 1);
    assert_eq!(result.id, 99);
}

#[test]
fn existing_output_is_a_conflict_unless_overwriting() {
    let facts = || target("/out/photo.jpg", "/src/photo.jpg", true);
    let kept = plan(photo(1, "/src/photo.jpg", "photo.jpg", "photo.jpg"), "/out", WriteOptions::default(), facts()).expect("plan");
    assert_eq!(kept.items[0].action, WritePlanItemAction::Conflict);
    let options = WriteOptions { overwrite_output: true, ..WriteOptions::default() };
    let replaced = plan(photo(1, "/src/photo.jpg", "photo.jpg", "photo.jpg"), "/out", options, facts()).expect("plan");
    assert_eq!(replaced.items[0].action, WritePlanItemAction::WriteGps);
}

#[test]
fn plan_requests_are_checked_before_photos() {
    let empty = build_write_plan(&vec![], &vec![], &vec![], "/out", WriteOptions::default(), &directory("/out"), &vec![], 1, 0, false);
    assert_eq!(empty.expect_err("empty").code, ErrorCode::InvalidRequest);
    let relative = plan(photo(1, "/src/p.jpg", "p.jpg", "p.jpg"), "out", WriteOptions::default(), target("/out/p.jpg", "/src/p.jpg", false));
    assert!(relative.is_err());
    let unknown = build_write_plan(
        &vec![photo(1, "/src/p.jpg", "p.jpg", "p.jpg")],
        &vec![],
        &vec![2],
        "/out",
        WriteOptions::default(),
        &directory("/out"),
        &vec![target("/out/p.jpg", "/src/p.jpg", false)],
        1,
        0,
        false,
    );
    assert!(unknown.is_err());
}

#[test]
fn existing_gps_is_skipped_by_default() {
    let mut p = photo(1, "/src/p.jpg", "p.jpg", "p.jpg");
    p.has_existing_gps = true;
    let result = plan(p, "/out", WriteOptions::default(), target("/out/p.jpg", "/src/p.jpg", false)).expect("plan");
    assert_eq!(result.items[0].action, WritePlanItemAction::SkipExistingGps);
    assert_eq!(result.skipped_count, 1);
    assert_eq!(WriteOptions::default().existing_gps_policy, ExistingGpsPolicy::Skip);
}

#[test]
fn write_results_follow_the_plan() {
    let source = "/tmp/d/photo.jpg";
    let result = plan(photo(1, source, "photo.jpg", "photo.jpg"), "/tmp/d", WriteOptions::default(), target(source, source, true))
        .expect("plan");
    let conflict = skipped_result(&result.items[0]).expect("written nothing");
    assert_eq!(conflict.status, WriteItemStatus::Failed);
    assert_eq!(conflict.error.expect("error").code, ErrorCode::OutputConflict);
    let ok = item_result(&result.items[0], Ok("done".to_owned()));
    assert_eq!(ok.status, WriteItemStatus::WrittenVerified);
    assert_eq!(job_status(false, &vec![ok]), WriteJobStatus::Completed);
    assert_eq!(job_status(true, &vec![]), WriteJobStatus::Cancelled);
    let failed = item_result(&result.items[0], Err(geotagger::error::AppError::internal("x".to_owned())));
    assert_eq!(job_status(false, &vec![failed]), WriteJobStatus::CompletedWithErrors);
}

#[test]
fn execution_targets_are_checked_again() {
    assert!(check_execution_target("/out", "/out/a.jpg", "/src/a.jpg", false).is_ok());
    assert_eq!(check_execution_target("/out", "/elsewhere/a.jpg", "/src/a.jpg", false).expect_err("outside").code, ErrorCode::PathOutsideScope);
    assert_eq!(check_execution_target("/out", "/out/a.jpg", "/out/a.jpg", false).expect_err("source").code, ErrorCode::OutputConflict);
    assert!(check_preserved_copy("abc", "abc").is_ok());
    assert!(check_preserved_copy("abc", "abd").is_err());
    assert_eq!(
        temporary_copy_name("/out/a.jpg", 0x0123456789abcdef0123456789abcdef, false),
        ".geotagger-01234567-89ab-cdef-0123-456789abcdef-a.jpg"
    );
}

#[test]
fn stale_tokens_are_refused_after_a_change() {
    let mut state: AppState<&str, u32> = AppState::new(Ok("/res".to_owned()));
    assert_eq!(state.project_token().expect_err("no project").code, ErrorCode::ProjectInvalid);
    state.replace_project("/p/project.json".to_owned(), 5, "v1", false);
    let token = state.project_token().expect("token");
    state.insert_write_plan_if_current(token, 42, 7).expect("plan stored");
    assert_eq!(*state.write_plan_with_token(42).expect("plan").0, 7);
    assert!(state.mutate_project_if_current(token, 5, "v2").is_ok());
    assert!(state.is_dirty());
    let stale = state.mutate_project_if_current(token, 5, "v3").expect_err("stale");
    assert_eq!(stale.message, "项目在任务执行期间已切换或发生变化，结果未写入当前项目。");
    assert_eq!(*state.snapshot().expect("snapshot"), "v2");
    assert!(state.write_plan_with_token(42).is_err());
    let fresh = state.project_token().expect("token");
    assert!(state.commit_saved_if_current(fresh, "/p/project.json".to_owned(), 5, "v2").is_ok());
    assert!(!state.is_dirty());
}

#[test]
fn merge_replaces_entries_with_the_same_id() {
    let merged = merge_by_id(&vec![3, 1, 2], &vec![2, 4]);
    assert_eq!(
        merged,
        vec![MergeSource::Existing(1), MergeSource::Incoming(0), MergeSource::Existing(0), MergeSource::Incoming(1)]
    );
}

#[test]
fn rescan_keeps_metadata_of_the_same_photo() {
    let existing = vec![PhotoKey { path: "/p/a.jpg".to_owned(), id: 1 }, PhotoKey { path: "/p/b.jpg".to_owned(), id: 2 }];
    let scanned = vec![PhotoKey { path: "/p/a.jpg".to_owned(), id: 1 }, PhotoKey { path: "/p/b.jpg".to_owned(), id: 9 }];
    let merged = merge_scanned_photos(&existing, &scanned);
    assert_eq!(
        merged,
        vec![
            MergedPhoto { photo: PhotoOrigin::Scanned(0), metadata: PhotoOrigin::Existing(0) },
            MergedPhoto { photo: PhotoOrigin::Scanned(1), metadata: PhotoOrigin::Scanned(1) },
        ]
    );
}

#[test]
fn new_plans_get_fresh_ids() {
    let make = || {
        let p = photo(1, "/src/a.jpg", "a.jpg", "a.jpg");
        geotagger::write_plan::new_write_plan(
            &vec![p],
            &vec![matched(1)],
            &vec![1],
            "/out",
            WriteOptions::default(),
            &directory("/out"),
            &vec![target("/out/a.jpg", "/src/a.jpg", false)],
            false,
        )
        .expect("plan")
    };
    let first = make();
    let second = make();
    assert_ne!(first.id, second.id);
    assert_eq!(first.items.len(), 1);
    assert_eq!(first.items[0].output_path, second.items[0].output_path);
}

#[test]
fn windows_output_directories_are_planned_into() {
    let p = photo(1, "D:\\photos\\a\\one.jpg", "a\\one.jpg", "one.jpg");
    let facts = target("C:\\out\\a\\one.jpg", "D:\\photos\\a\\one.jpg", false);
    let result = build_write_plan(
        &vec![p],
        &vec![matched(1)],
        &vec![1],
        "C:\\out\\.\\trip\\..",
        WriteOptions::default(),
        &directory("C:\\out"),
        &vec![facts],
        7,
        0,
        true,
    )
    .expect("drive output directory");
    assert_eq!(result.output_directory, "C:\\out");
    assert_eq!(result.items[0].output_path, "C:\\out\\a\\one.jpg");
    assert_eq!(result.items[0].action, WritePlanItemAction::WriteGps);
}

#[test]
fn windows_names_cannot_leave_the_output_directory() {
    let options = WriteOptions { preserve_relative_paths: false, ..WriteOptions::default() };
    let p = photo(1, "D:\\photos\\one.jpg", "one.jpg", "..\\escape.jpg");
    let facts = target("C:\\escape.jpg", "D:\\photos\\one.jpg", false);
    let result = build_write_plan(
        &vec![p],
        &vec![matched(1)],
        &vec![1],
        "C:\\out",
        options,
        &directory("C:\\out"),
        &vec![facts],
        7,
        0,
        true,
    );
    assert_eq!(result.expect_err("escape").code, ErrorCode::PathOutsideScope);
    let relative = build_write_plan(
        &vec![photo(1, "D:\\p.jpg", "p.jpg", "p.jpg")],
        &vec![matched(1)],
        &vec![1],
        "C:out",
        WriteOptions::default(),
        &directory("C:out"),
        &vec![target("C:out\\p.jpg", "D:\\p.jpg", false)],
        7,
        0,
        true,
    );
    assert_eq!(relative.expect_err("drive-relative").message, "输出目录必须是非空绝对路径。");
}

fn two_item_plan() -> WritePlan {
    let mut skipped = photo(2, "/src/b.jpg", "b.jpg", "b.jpg");
    skipped.has_existing_gps = true;
    build_write_plan(
        &vec![photo(1, "/src/a.jpg", "a.jpg", "a.jpg"), skipped],
        &vec![matched(1), matched(2)],
        &vec![2, 1],
        "/out",
        WriteOptions::default(),
        &directory("/out"),
        &vec![target("/out/a.jpg", "/src/a.jpg", false), target("/out/b.jpg", "/src/b.jpg", false)],
        5,
        0,
        false,
    )
    .expect("plan")
}

#[test]
fn write_run_processes_items_in_plan_order() {
    let plan = two_item_plan();
    let mut run = WriteRun::new();
    assert_eq!(run.next_step(&plan.items, false), WriteStep::Write(0));
    run.record_written(&plan.items, Err(geotagger::error::AppError::internal("copy failed".to_owned())));
    assert_eq!(run.next_step(&plan.items, false), WriteStep::Recorded(1));
    assert_eq!(run.next_step(&plan.items, true), WriteStep::Finished(WriteJobStatus::CompletedWithErrors));
    assert_eq!(run.results.len(), 2);
    assert_eq!(run.results[0].photo_id, 1);
    assert_eq!(run.results[0].status, WriteItemStatus::Failed);
    assert_eq!(run.results[0].message, "copy failed");
    assert_eq!(run.results[1].photo_id, 2);
    assert_eq!(run.results[1].status, WriteItemStatus::Skipped);
    assert_eq!(run.cancelled_from, None);
}

#[test]
fn cancelled_write_run_marks_the_rest_cancelled() {
    let plan = two_item_plan();
    let mut run = WriteRun::new();
    assert_eq!(run.next_step(&plan.items, false), WriteStep::Write(0));
    run.record_written(&plan.items, Ok("GPS 已写入副本并重新读取验证。".to_owned()));
    assert_eq!(run.next_step(&plan.items, true), WriteStep::Finished(WriteJobStatus::Cancelled));
    assert_eq!(run.cancelled_from, Some(1));
    assert_eq!(run.results[0].status, WriteItemStatus::WrittenVerified);
    assert_eq!(run.results[1].status, WriteItemStatus::Cancelled);
    assert_eq!(run.results[1].error.as_ref().map(|e| e.code), Some(ErrorCode::TaskCancelled));
    assert_eq!(run.next_step(&plan.items, false), WriteStep::Finished(WriteJobStatus::Cancelled));
    assert_eq!(run.results.len(), 2);
}

#[test]
fn fingerprints_record_milliseconds_since_the_epoch() {
    assert_eq!(geotagger::files::unix_millis_of(1, 999_999_999), 1999);
    assert_eq!(geotagger::files::unix_millis_of(-1, 500_000_000), -500);
    assert_eq!(geotagger::files::unix_millis_of(1_700_000_000, 123_456_789), 1_700_000_000_123);
    let f = geotagger::files::file_fingerprint("ab".to_owned(), 42, Some((2, 5_000_000)));
    assert_eq!((f.sha256.as_str(), f.size_bytes, f.modified_unix_ms), ("ab", 42, 2005));
    assert_eq!(geotagger::files::file_fingerprint("ab".to_owned(), 42, None).modified_unix_ms, 0);
}
