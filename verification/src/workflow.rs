use vstd::prelude::*;
use crate::capture::tz_known;
use crate::collections::{id_order, is_id_order};
use crate::domain::{CoordinateSystem, MatchStatus, PhotoMetadataStatus, WriteItemStatus, WriteJobStatus};
use crate::error::{AppError, ErrorCode, error_is, error_of, is_invalid_error};
use crate::paths::{file_name, file_name_in, is_absolute, is_absolute_path};
use crate::project::project_file_name;
use crate::text::{chars_of, push_str, str_equal, trim_spaces, trimmed};
use crate::photo::{text_less, text_less_exec, lemma_text_less_trichotomy, lemma_text_less_transitive};
use crate::paths::chars_equal;

verus! {

// ---------------------------------------------------------------------------------------------
// Checks of requests
// ---------------------------------------------------------------------------------------------

/// A path the user gives must be non-blank and absolute on the platform.
pub open spec fn is_absolute_input(value: Seq<char>, windows: bool) -> bool {
    trimmed(value).len() > 0 && is_absolute_path(value, windows)
}

/// Checks that a path the user gave is non-blank and absolute; the error names what the path
/// is for.
pub fn require_absolute_path(value: &str, label: &str, windows: bool) -> (result: Result<(), AppError>)
    ensures
        is_absolute_input(value@, windows) <==> result is Ok,
        result is Err ==> is_invalid_error(result->Err_0, label@ + "必须是非空绝对路径。"@),
{
    let t = trim_spaces(value);
    if t.as_str().is_empty() || !is_absolute(value, windows) {
        let mut message = label.to_owned();
        push_str(&mut message, "必须是非空绝对路径。");
        return Err(AppError::invalid(message));
    }
    Ok(())
}

/// How many points a conversion preview samples unless asked otherwise.
pub fn default_preview_limit() -> (n: usize)
    ensures
        n == 1000,
{
    1000
}

/// How many points a conversion preview samples: the requested number kept between 2 and 5000,
/// and no more than the track has.
pub fn preview_sample_count(limit: usize, total: usize) -> (n: usize)
    ensures
        n == {
            let clamped: int = if limit < 2 { 2 } else if limit > 5000 { 5000 } else { limit as int };
            if clamped < total { clamped } else { total as int }
        },
{
    let clamped = if limit < 2 { 2 } else if limit > 5000 { 5000 } else { limit };
    if clamped < total { clamped } else { total }
}

/// A track without points cannot be previewed.
pub fn check_preview_points(total: usize) -> (result: Result<(), AppError>)
    ensures
        total > 0 <==> result is Ok,
        result is Err ==> error_is(result->Err_0, ErrorCode::TrackParseFailed, "轨迹没有可预览的点。"@, "请重新导入有效 GPX。"@, true),
{
    if total == 0 {
        return Err(error_of(ErrorCode::TrackParseFailed, "轨迹没有可预览的点。", "请重新导入有效 GPX。", true));
    }
    Ok(())
}

/// A request to create a project in a directory.
#[derive(Debug)]
pub struct CreateProjectRequest {
    pub name: String,
    pub project_directory: String,
    pub default_output_directory: Option<String>,
}

/// Why a project creation request is refused, if it is: a blank name, then a project
/// directory or default output directory that is not a non-blank absolute path.
pub open spec fn create_refusal(request: CreateProjectRequest, windows: bool) -> Option<Seq<char>> {
    if trimmed(request.name@).len() == 0 {
        Some("项目名称不能为空。"@)
    } else if !is_absolute_input(request.project_directory@, windows) {
        Some("项目目录"@ + "必须是非空绝对路径。"@)
    } else if request.default_output_directory is Some && !is_absolute_input(request.default_output_directory->Some_0@, windows) {
        Some("默认输出目录"@ + "必须是非空绝对路径。"@)
    } else {
        None
    }
}

/// Checks a project creation request; the project is named by the trimmed name.
pub fn validate_create_request(request: &CreateProjectRequest, windows: bool) -> (result: Result<String, AppError>)
    ensures
        match create_refusal(*request, windows) {
            None => result is Ok && result->Ok_0@ == trimmed(request.name@),
            Some(m) => result is Err && is_invalid_error(result->Err_0, m),
        },
{
    let name = trim_spaces(request.name.as_str());
    if name.as_str().is_empty() {
        return Err(AppError::invalid("项目名称不能为空。".to_owned()));
    }
    match require_absolute_path(request.project_directory.as_str(), "项目目录", windows) {
        Err(e) => {
            return Err(e);
        },
        Ok(()) => {},
    }
    match &request.default_output_directory {
        Some(d) => match require_absolute_path(d.as_str(), "默认输出目录", windows) {
            Err(e) => {
                return Err(e);
            },
            Ok(()) => {},
        },
        None => {},
    }
    Ok(name)
}

/// The error when the chosen directory already holds a project.
pub fn project_exists_error() -> (e: AppError)
    ensures
        error_is(e, ErrorCode::OutputConflict, "所选目录已经包含 project.json。"@, "请打开现有项目或选择新的项目目录。"@, true),
{
    error_of(ErrorCode::OutputConflict, "所选目录已经包含 project.json。", "请打开现有项目或选择新的项目目录。", true)
}

/// A request to import GPX files recorded in a coordinate system.
#[derive(Debug)]
pub struct ImportTracksRequest {
    pub paths: Vec<String>,
    pub source_crs: CoordinateSystem,
}

/// The first path (from position `i` on) that is not a non-blank absolute path.
pub open spec fn first_relative(paths: Seq<String>, i: int, windows: bool) -> Option<int>
    decreases paths.len() - i,
{
    if i < 0 || i >= paths.len() {
        None
    } else if !is_absolute_input(paths[i]@, windows) {
        Some(i)
    } else {
        first_relative(paths, i + 1, windows)
    }
}

/// Checks an import request: some file, every path absolute, a confirmed coordinate system.
pub fn validate_import_request(request: &ImportTracksRequest, windows: bool) -> (result: Result<(), AppError>)
    ensures
        request.paths@.len() == 0 ==> result is Err && is_invalid_error(result->Err_0, "至少选择一个 GPX 文件。"@),
        request.paths@.len() > 0 && first_relative(request.paths@, 0, windows) is Some ==> result is Err
            && is_invalid_error(result->Err_0, "GPX 文件"@ + "必须是非空绝对路径。"@),
        request.paths@.len() > 0 && first_relative(request.paths@, 0, windows) is None && request.source_crs == CoordinateSystem::Unknown
            ==> result is Err && error_is(result->Err_0, ErrorCode::CrsUnconfirmed, "轨迹坐标系尚未确认。"@, "请选择原始坐标系并检查转换预览。"@, true),
        request.paths@.len() > 0 && first_relative(request.paths@, 0, windows) is None && request.source_crs != CoordinateSystem::Unknown
            ==> result is Ok,
{
    if request.paths.len() == 0 {
        return Err(AppError::invalid("至少选择一个 GPX 文件。".to_owned()));
    }
    let mut i: usize = 0;
    while i < request.paths.len()
        invariant
            i <= request.paths.len(),
            first_relative(request.paths@, 0, windows) == first_relative(request.paths@, i as int, windows),
        decreases request.paths.len() - i,
    {
        match require_absolute_path(request.paths[i].as_str(), "GPX 文件", windows) {
            Err(e) => {
                return Err(e);
            },
            Ok(()) => {},
        }
        i = i + 1;
    }
    if request.source_crs == CoordinateSystem::Unknown {
        return Err(error_of(ErrorCode::CrsUnconfirmed, "轨迹坐标系尚未确认。", "请选择原始坐标系并检查转换预览。", true));
    }
    Ok(())
}

/// Checks a calibration for matching: its time zone must be known, and only a fixed offset is
/// supported (no sync points, no drift model).
pub fn check_calibration(timezone: &str, sync_point_count: usize, has_drift_model: bool) -> (result: Result<(), AppError>)
    ensures
        !tz_known(timezone@) ==> result is Err && error_is(
            result->Err_0,
            ErrorCode::PhotoTimeAmbiguous,
            "无效时区："@ + timezone@,
            "请选择 IANA 时区，例如 Asia/Shanghai。"@,
            true,
        ),
        tz_known(timezone@) && (sync_point_count > 0 || has_drift_model) ==> result is Err && is_invalid_error(
            result->Err_0,
            "MVP-1 仅支持固定时间偏差；同步点和漂移模型将在后续版本启用。"@,
        ),
        tz_known(timezone@) && sync_point_count == 0 && !has_drift_model ==> result is Ok,
{
    match crate::capture::ProjectTimezone::parse(timezone) {
        Err(e) => {
            return Err(e);
        },
        Ok(_) => {},
    }
    if sync_point_count > 0 || has_drift_model {
        return Err(AppError::invalid("MVP-1 仅支持固定时间偏差；同步点和漂移模型将在后续版本启用。".to_owned()));
    }
    Ok(())
}

/// Checks a snapshot sent to be saved against the current one: the same project, and not
/// older than what background tasks have since stored.
pub fn check_incoming_snapshot(current_id: u128, current_updated_at: i128, incoming_id: u128, incoming_updated_at: i128) -> (result: Result<(), AppError>)
    ensures
        current_id != incoming_id ==> result is Err && error_is(
            result->Err_0,
            ErrorCode::ProjectInvalid,
            "保存快照与当前项目 ID 不一致。"@,
            "请选择有效的 GeoTagger 项目文件，或从备份恢复。"@,
            true,
        ),
        current_id == incoming_id && current_updated_at != incoming_updated_at ==> result is Err && error_is(
            result->Err_0,
            ErrorCode::OutputConflict,
            "当前项目已被后台任务更新，拒绝用旧快照覆盖。"@,
            "请刷新当前项目状态后重新应用设置并保存。"@,
            true,
        ),
        current_id == incoming_id && current_updated_at == incoming_updated_at ==> result is Ok,
{
    if current_id != incoming_id {
        return Err(AppError::project_invalid("保存快照与当前项目 ID 不一致。".to_owned()));
    }
    if current_updated_at != incoming_updated_at {
        return Err(error_of(
            ErrorCode::OutputConflict,
            "当前项目已被后台任务更新，拒绝用旧快照覆盖。",
            "请刷新当前项目状态后重新应用设置并保存。",
            true,
        ));
    }
    Ok(())
}

/// The positions (among the first `n` photos, in project order) of the photos whose id was
/// asked for.
pub open spec fn requested_positions(photo_ids: Seq<u128>, requested: Seq<u128>, n: int) -> Seq<usize>
    decreases n,
{
    if n <= 0 {
        Seq::empty()
    } else {
        let rest = requested_positions(photo_ids, requested, n - 1);
        if requested.contains(photo_ids[n - 1]) {
            rest.push((n - 1) as usize)
        } else {
            rest
        }
    }
}

/// A metadata request can be served when the photos it names are as many as the distinct ids
/// it asks for (so every id names a photo).
pub open spec fn metadata_request_known(photo_ids: Seq<u128>, requested: Seq<u128>) -> bool {
    requested_positions(photo_ids, requested, photo_ids.len() as int).len() == requested.to_set().len()
}

/// The photos whose metadata a request asks for, by position in project order; an id asked
/// for more than once counts once, and a request naming an unknown photo is refused. An empty
/// request selects nothing.
pub fn select_metadata_photos(requested: &Vec<u128>, photo_ids: &Vec<u128>) -> (result: Result<Vec<usize>, AppError>)
    ensures
        match result {
            Ok(p) => metadata_request_known(photo_ids@, requested@)
                && p@ == requested_positions(photo_ids@, requested@, photo_ids@.len() as int),
            Err(e) => !metadata_request_known(photo_ids@, requested@)
                && is_invalid_error(e, "元数据请求包含未知照片 ID。"@),
        },
{
    let order = crate::collections::sorted_unique(requested);
    let mut positions: Vec<usize> = Vec::new();
    let mut i: usize = 0;
    while i < photo_ids.len()
        invariant
            i <= photo_ids.len(),
            forall|x: u128| #[trigger] order@.contains(x) <==> requested@.contains(x),
            positions@ == requested_positions(photo_ids@, requested@, i as int),
        decreases photo_ids.len() - i,
    {
        let id = photo_ids[i];
        let mut found = false;
        let mut j: usize = 0;
        while j < order.len()
            invariant
                j <= order.len(),
                found <==> exists|k: int| 0 <= k < j && order@[k] == id,
            decreases order.len() - j,
        {
            if order[j] == id {
                found = true;
            }
            j = j + 1;
        }
        proof {
            if found {
                let k = choose|k: int| 0 <= k < j && order@[k] == id;
                assert(order@.contains(id));
            } else {
                assert(!order@.contains(id));
            }
            assert(found <==> requested@.contains(photo_ids@[i as int]));
        }
        if found {
            positions.push(i);
        }
        i = i + 1;
    }
    proof {
        assert(order@.no_duplicates()) by {
            assert forall|a: int, b: int| 0 <= a < order@.len() && 0 <= b < order@.len() && a != b implies order@[a] != order@[b] by {
                if a < b {
                    assert(order@[a] < order@[b]);
                } else {
                    assert(order@[b] < order@[a]);
                }
            }
        }
        order@.unique_seq_to_set();
        assert(order@.to_set() =~= requested@.to_set());
    }
    if positions.len() != order.len() {
        return Err(AppError::invalid("元数据请求包含未知照片 ID。".to_owned()));
    }
    Ok(positions)
}

/// A project is only ever saved to a file named `project.json`.
pub fn check_project_file_name(path: &str, windows: bool) -> (result: Result<(), AppError>)
    ensures
        (file_name_in(path@, windows) == Some(project_file_name())) <==> result is Ok,
        result is Err ==> is_invalid_error(result->Err_0, "项目文件名必须为 project.json，以避免覆盖其他文件。"@),
{
    let ok = match file_name(path, windows) {
        Some(n) => str_equal(n.as_str(), "project.json"),
        None => false,
    };
    if !ok {
        return Err(AppError::invalid("项目文件名必须为 project.json，以避免覆盖其他文件。".to_owned()));
    }
    Ok(())
}

// ---------------------------------------------------------------------------------------------
// Outcomes of tasks
// ---------------------------------------------------------------------------------------------

/// The status of a photo after its metadata was read: failed or ambiguous when there was an
/// error (ambiguous when a capture time was found but could not be placed in time), else ready.
pub open spec fn metadata_status_spec(has_error: bool, has_capture_utc: bool, has_capture_local: bool) -> PhotoMetadataStatus {
    if has_error {
        if !has_capture_utc && has_capture_local {
            PhotoMetadataStatus::AmbiguousTime
        } else {
            PhotoMetadataStatus::Failed
        }
    } else {
        PhotoMetadataStatus::Ready
    }
}

pub fn metadata_status(has_error: bool, has_capture_utc: bool, has_capture_local: bool) -> (s: PhotoMetadataStatus)
    ensures
        s == metadata_status_spec(has_error, has_capture_utc, has_capture_local),
{
    if has_error {
        if !has_capture_utc && has_capture_local {
            PhotoMetadataStatus::AmbiguousTime
        } else {
            PhotoMetadataStatus::Failed
        }
    } else {
        PhotoMetadataStatus::Ready
    }
}

/// The status a match counts by: its quality status if it has one.
pub open spec fn effective_match_status(status: MatchStatus, quality_status: Option<MatchStatus>) -> MatchStatus {
    match quality_status {
        Some(q) => q,
        None => status,
    }
}

/// Number of high-confidence matches among the first `n`.
pub open spec fn count_high(statuses: Seq<(MatchStatus, Option<MatchStatus>)>, n: int) -> nat
    decreases n,
{
    if n <= 0 || n > statuses.len() {
        0
    } else {
        count_high(statuses, n - 1) + if effective_match_status(statuses[n - 1].0, statuses[n - 1].1) == MatchStatus::MatchedHigh {
            1nat
        } else {
            0nat
        }
    }
}

/// How many matches are of high confidence.
pub fn high_confidence_count(statuses: &Vec<(MatchStatus, Option<MatchStatus>)>) -> (n: usize)
    ensures
        n == count_high(statuses@, statuses@.len() as int),
{
    let mut n: usize = 0;
    let mut i: usize = 0;
    while i < statuses.len()
        invariant
            i <= statuses.len(),
            n == count_high(statuses@, i as int),
            n <= i,
        decreases statuses.len() - i,
    {
        let (status, quality) = statuses[i];
        let effective = match quality {
            Some(q) => q,
            None => status,
        };
        if effective == MatchStatus::MatchedHigh {
            n = n + 1;
        }
        i = i + 1;
    }
    n
}

/// Number of results with this status among the first `n`.
pub open spec fn count_results(statuses: Seq<WriteItemStatus>, status: WriteItemStatus, n: int) -> nat
    decreases n,
{
    if n <= 0 || n > statuses.len() {
        0
    } else {
        count_results(statuses, status, n - 1) + if statuses[n - 1] == status { 1nat } else { 0nat }
    }
}

/// How many results have this status.
pub fn count_with_status(statuses: &Vec<WriteItemStatus>, status: WriteItemStatus) -> (n: usize)
    ensures
        n == count_results(statuses@, status, statuses@.len() as int),
{
    let mut n: usize = 0;
    let mut i: usize = 0;
    while i < statuses.len()
        invariant
            i <= statuses.len(),
            n == count_results(statuses@, status, i as int),
            n <= i,
        decreases statuses.len() - i,
    {
        if statuses[i] == status {
            n = n + 1;
        }
        i = i + 1;
    }
    n
}

/// How an error code is named in warnings and reports.
pub open spec fn error_code_name(code: ErrorCode) -> Seq<char> {
    match code {
        ErrorCode::ProjectInvalid => "PROJECT_INVALID"@,
        ErrorCode::TrackParseFailed => "TRACK_PARSE_FAILED"@,
        ErrorCode::TrackNoTime => "TRACK_NO_TIME"@,
        ErrorCode::CrsUnconfirmed => "CRS_UNCONFIRMED"@,
        ErrorCode::PhotoMetadataFailed => "PHOTO_METADATA_FAILED"@,
        ErrorCode::PhotoTimeAmbiguous => "PHOTO_TIME_AMBIGUOUS"@,
        ErrorCode::MatchNotFound => "MATCH_NOT_FOUND"@,
        ErrorCode::ExiftoolNotAvailable => "EXIFTOOL_NOT_AVAILABLE"@,
        ErrorCode::WritePermissionDenied => "WRITE_PERMISSION_DENIED"@,
        ErrorCode::WriteVerifyFailed => "WRITE_VERIFY_FAILED"@,
        ErrorCode::TaskCancelled => "TASK_CANCELLED"@,
        ErrorCode::InvalidRequest => "INVALID_REQUEST"@,
        ErrorCode::PathOutsideScope => "PATH_OUTSIDE_SCOPE"@,
        ErrorCode::OutputConflict => "OUTPUT_CONFLICT"@,
        ErrorCode::IoError => "IO_ERROR"@,
        ErrorCode::InternalError => "INTERNAL_ERROR"@,
    }
}

pub fn error_code_text(code: ErrorCode) -> (name: &'static str)
    ensures
        name@ == error_code_name(code),
{
    match code {
        ErrorCode::ProjectInvalid => "PROJECT_INVALID",
        ErrorCode::TrackParseFailed => "TRACK_PARSE_FAILED",
        ErrorCode::TrackNoTime => "TRACK_NO_TIME",
        ErrorCode::CrsUnconfirmed => "CRS_UNCONFIRMED",
        ErrorCode::PhotoMetadataFailed => "PHOTO_METADATA_FAILED",
        ErrorCode::PhotoTimeAmbiguous => "PHOTO_TIME_AMBIGUOUS",
        ErrorCode::MatchNotFound => "MATCH_NOT_FOUND",
        ErrorCode::ExiftoolNotAvailable => "EXIFTOOL_NOT_AVAILABLE",
        ErrorCode::WritePermissionDenied => "WRITE_PERMISSION_DENIED",
        ErrorCode::WriteVerifyFailed => "WRITE_VERIFY_FAILED",
        ErrorCode::TaskCancelled => "TASK_CANCELLED",
        ErrorCode::InvalidRequest => "INVALID_REQUEST",
        ErrorCode::PathOutsideScope => "PATH_OUTSIDE_SCOPE",
        ErrorCode::OutputConflict => "OUTPUT_CONFLICT",
        ErrorCode::IoError => "IO_ERROR",
        ErrorCode::InternalError => "INTERNAL_ERROR",
    }
}

/// The warning code of a failed write: its error's code name, or a generic one.
pub fn write_failure_code(error: &Option<AppError>) -> (code: String)
    ensures
        code@ == match error {
            Some(e) => error_code_name(e.code),
            None => "WRITE_FAILED"@,
        },
{
    match error {
        Some(e) => error_code_text(e.code).to_owned(),
        None => "WRITE_FAILED".to_owned(),
    }
}

/// How a write task ends: a cancelled job fails the task with the cancellation error, any
/// other job finishes it.
pub fn write_task_fails(job_status: WriteJobStatus) -> (fails: bool)
    ensures
        fails == (job_status == WriteJobStatus::Cancelled),
{
    job_status == WriteJobStatus::Cancelled
}


// ---------------------------------------------------------------------------------------------
// Replacing records by identity
// ---------------------------------------------------------------------------------------------

/// Where an entry of a merged list comes from.
#[derive(Debug, Clone, Copy, PartialEq, Eq, Structural)]
pub enum MergeSource {
    Existing(usize),
    Incoming(usize),
}

/// The existing entries (among the first `n`) whose id no incoming entry has, in order.
pub open spec fn kept_existing(existing: Seq<u128>, incoming: Seq<u128>, n: int) -> Seq<MergeSource>
    decreases n,
{
    if n <= 0 || n > existing.len() {
        Seq::empty()
    } else {
        let rest = kept_existing(existing, incoming, n - 1);
        if incoming.contains(existing[n - 1]) {
            rest
        } else {
            rest.push(MergeSource::Existing((n - 1) as usize))
        }
    }
}

/// The entries of a merge before ordering: the kept existing ones, then all incoming ones.
pub open spec fn merge_sources(existing: Seq<u128>, incoming: Seq<u128>) -> Seq<MergeSource> {
    kept_existing(existing, incoming, existing.len() as int) + Seq::new(incoming.len(), |j: int| MergeSource::Incoming(j as usize))
}

pub open spec fn merge_source_id(existing: Seq<u128>, incoming: Seq<u128>, src: MergeSource) -> u128 {
    match src {
        MergeSource::Existing(i) => existing[i as int],
        MergeSource::Incoming(j) => incoming[j as int],
    }
}

pub open spec fn merge_ids(existing: Seq<u128>, incoming: Seq<u128>, sources: Seq<MergeSource>) -> Seq<u128> {
    sources.map_values(|src: MergeSource| merge_source_id(existing, incoming, src))
}

/// The merged list: existing entries replaced by incoming ones with the same id, ordered by id
/// (entries with equal ids in the order they were listed).
pub open spec fn merged_by_id(existing: Seq<u128>, incoming: Seq<u128>, out: Seq<MergeSource>) -> bool {
    let sources = merge_sources(existing, incoming);
    exists|order: Seq<usize>| {
        &&& #[trigger] is_id_order(merge_ids(existing, incoming, sources), order)
        &&& out.len() == sources.len()
        &&& forall|p: int| 0 <= p < out.len() ==> #[trigger] out[p] == sources[order[p] as int]
    }
}

fn contains_id(ids: &Vec<u128>, id: u128) -> (b: bool)
    ensures
        b == ids@.contains(id),
{
    let mut i: usize = 0;
    while i < ids.len()
        invariant
            i <= ids.len(),
            forall|j: int| 0 <= j < i ==> ids@[j] != id,
        decreases ids.len() - i,
    {
        if ids[i] == id {
            assert(ids@[i as int] == id);
            return true;
        }
        i = i + 1;
    }
    false
}

/// Replaces entries by incoming ones with the same id and orders the result by id (what
/// importing tracks and recording match results do).
pub fn merge_by_id(existing: &Vec<u128>, incoming: &Vec<u128>) -> (out: Vec<MergeSource>)
    ensures
        merged_by_id(existing@, incoming@, out@),
{
    let mut sources: Vec<MergeSource> = Vec::new();
    let mut i: usize = 0;
    while i < existing.len()
        invariant
            i <= existing.len(),
            sources@ == kept_existing(existing@, incoming@, i as int),
        decreases existing.len() - i,
    {
        if !contains_id(incoming, existing[i]) {
            sources.push(MergeSource::Existing(i));
        }
        i = i + 1;
    }
    let ghost kept = sources@;
    let mut j: usize = 0;
    while j < incoming.len()
        invariant
            j <= incoming.len(),
            kept == kept_existing(existing@, incoming@, existing@.len() as int),
            sources@ == kept + Seq::new(j as nat, |k: int| MergeSource::Incoming(k as usize)),
        decreases incoming.len() - j,
    {
        sources.push(MergeSource::Incoming(j));
        assert(sources@ =~= kept + Seq::new((j + 1) as nat, |k: int| MergeSource::Incoming(k as usize)));
        j = j + 1;
    }
    let ghost all = merge_sources(existing@, incoming@);
    assert(sources@ =~= all);
    proof { lemma_kept_existing_bounds(existing@, incoming@, existing@.len() as int); }
    let mut ids: Vec<u128> = Vec::new();
    let mut p: usize = 0;
    while p < sources.len()
        invariant
            p <= sources.len(),
            sources@ == all,
            all == merge_sources(existing@, incoming@),
            forall|q: int| 0 <= q < sources.len() ==> match #[trigger] sources@[q] {
                MergeSource::Existing(x) => x < existing.len(),
                MergeSource::Incoming(y) => y < incoming.len(),
            },
            ids@ == merge_ids(existing@, incoming@, all).take(p as int),
        decreases sources.len() - p,
    {
        let id = match sources[p] {
            MergeSource::Existing(x) => existing[x],
            MergeSource::Incoming(y) => incoming[y],
        };
        ids.push(id);
        assert(merge_ids(existing@, incoming@, all).take(p + 1) =~= merge_ids(existing@, incoming@, all).take(p as int).push(id));
        p = p + 1;
    }
    assert(ids@ =~= merge_ids(existing@, incoming@, all));
    let order = id_order(&ids);
    let mut out: Vec<MergeSource> = Vec::new();
    let mut q: usize = 0;
    while q < order.len()
        invariant
            q <= order.len() == sources.len(),
            sources@ == all,
            is_id_order(merge_ids(existing@, incoming@, all), order@),
            out@.len() == q,
            forall|r: int| 0 <= r < q ==> #[trigger] out@[r] == all[order@[r] as int],
        decreases order.len() - q,
    {
        out.push(sources[order[q]]);
        q = q + 1;
    }
    assert(merged_by_id(existing@, incoming@, out@));
    out
}

proof fn lemma_kept_existing_bounds(existing: Seq<u128>, incoming: Seq<u128>, n: int)
    requires
        0 <= n <= existing.len(),
    ensures
        forall|q: int| 0 <= q < kept_existing(existing, incoming, n).len() ==> match #[trigger] kept_existing(existing, incoming, n)[q] {
            MergeSource::Existing(x) => x < n,
            MergeSource::Incoming(_) => false,
        },
    decreases n,
{
    if n > 0 {
        lemma_kept_existing_bounds(existing, incoming, n - 1);
    }
}

/// The match results kept after a scan: those whose photo is still in the project.
pub fn kept_matches(match_photo_ids: &Vec<u128>, photo_ids: &Vec<u128>) -> (kept: Vec<usize>)
    ensures
        forall|k: int| 0 <= k < kept@.len() ==> (#[trigger] kept@[k]) < match_photo_ids@.len(),
        forall|k: int, l: int| 0 <= k < l < kept@.len() ==> #[trigger] kept@[k] < #[trigger] kept@[l],
        forall|m: int| 0 <= m < match_photo_ids@.len() ==> (kept@.contains(m as usize) <==> photo_ids@.contains(#[trigger] match_photo_ids@[m])),
{
    let mut kept: Vec<usize> = Vec::new();
    let mut m: usize = 0;
    while m < match_photo_ids.len()
        invariant
            m <= match_photo_ids.len(),
            forall|k: int| 0 <= k < kept@.len() ==> (#[trigger] kept@[k]) < m,
            forall|k: int, l: int| 0 <= k < l < kept@.len() ==> #[trigger] kept@[k] < #[trigger] kept@[l],
            forall|x: int| 0 <= x < m ==> (kept@.contains(x as usize) <==> photo_ids@.contains(#[trigger] match_photo_ids@[x])),
        decreases match_photo_ids.len() - m,
    {
        let ghost before = kept@;
        if contains_id(photo_ids, match_photo_ids[m]) {
            kept.push(m);
            assert forall|x: int| 0 <= x < m + 1 implies (kept@.contains(x as usize) <==> photo_ids@.contains(#[trigger] match_photo_ids@[x])) by {
                if x < m {
                    if kept@.contains(x as usize) {
                        let k = choose|k: int| 0 <= k < kept@.len() && kept@[k] == x as usize;
                        if k < before.len() {
                            assert(before[k] == x as usize);
                        }
                    }
                    if before.contains(x as usize) {
                        let k = choose|k: int| 0 <= k < before.len() && before[k] == x as usize;
                        assert(kept@[k] == x as usize);
                    }
                } else {
                    assert(kept@[before.len() as int] == m);
                }
            }
        } else {
            assert forall|x: int| 0 <= x < m + 1 implies (kept@.contains(x as usize) <==> photo_ids@.contains(#[trigger] match_photo_ids@[x])) by {
                if x == m {
                    assert(!before.contains(m as usize));
                }
            }
        }
        m = m + 1;
    }
    kept
}


// ---------------------------------------------------------------------------------------------
// Recording a photo scan
// ---------------------------------------------------------------------------------------------

/// A photo by its path and identity.
#[derive(Debug)]
pub struct PhotoKey {
    pub path: String,
    pub id: u128,
}

/// A photo already in the project, or one the scan found.
#[derive(Debug, Clone, Copy, PartialEq, Eq, Structural)]
pub enum PhotoOrigin {
    Existing(usize),
    Scanned(usize),
}

/// A photo of the project after a scan: the photo itself, and the photo whose capture time,
/// GPS data and metadata status it keeps.
#[derive(Debug, Clone, Copy, PartialEq, Eq, Structural)]
pub struct MergedPhoto {
    pub photo: PhotoOrigin,
    pub metadata: PhotoOrigin,
}

pub open spec fn origin_key(existing: Seq<PhotoKey>, scanned: Seq<PhotoKey>, o: PhotoOrigin) -> PhotoKey {
    match o {
        PhotoOrigin::Existing(i) => existing[i as int],
        PhotoOrigin::Scanned(j) => scanned[j as int],
    }
}

/// The last existing photo (among the first `n`) at this path.
pub open spec fn last_at_path(existing: Seq<PhotoKey>, p: Seq<char>, n: int) -> Option<int>
    decreases n,
{
    if n <= 0 || n > existing.len() {
        None
    } else if existing[n - 1].path@ == p {
        Some(n - 1)
    } else {
        last_at_path(existing, p, n - 1)
    }
}

/// The project's photo at path `p` once the first `j` scanned photos are recorded: a scanned
/// photo replaces the one at its path, keeping that one's metadata when it is the same photo
/// (the same identity); the last existing photo at a path stands until then.
pub open spec fn photo_at_path(existing: Seq<PhotoKey>, scanned: Seq<PhotoKey>, p: Seq<char>, j: int) -> Option<MergedPhoto>
    decreases j,
{
    if j <= 0 || j > scanned.len() {
        match last_at_path(existing, p, existing.len() as int) {
            Some(i) => Some(MergedPhoto { photo: PhotoOrigin::Existing(i as usize), metadata: PhotoOrigin::Existing(i as usize) }),
            None => None,
        }
    } else if scanned[j - 1].path@ == p {
        let prev = photo_at_path(existing, scanned, p, j - 1);
        let metadata = match prev {
            Some(e) => if origin_key(existing, scanned, e.photo).id == scanned[j - 1].id {
                e.metadata
            } else {
                PhotoOrigin::Scanned((j - 1) as usize)
            },
            None => PhotoOrigin::Scanned((j - 1) as usize),
        };
        Some(MergedPhoto { photo: PhotoOrigin::Scanned((j - 1) as usize), metadata })
    } else {
        photo_at_path(existing, scanned, p, j - 1)
    }
}

pub open spec fn merged_path(existing: Seq<PhotoKey>, scanned: Seq<PhotoKey>, m: MergedPhoto) -> Seq<char> {
    origin_key(existing, scanned, m.photo).path@
}

pub open spec fn merged_id(existing: Seq<PhotoKey>, scanned: Seq<PhotoKey>, m: MergedPhoto) -> u128 {
    origin_key(existing, scanned, m.photo).id
}

/// `a` comes before `b` when ordered by identity, then by path.
pub open spec fn merged_before(existing: Seq<PhotoKey>, scanned: Seq<PhotoKey>, a: MergedPhoto, b: MergedPhoto) -> bool {
    merged_id(existing, scanned, a) < merged_id(existing, scanned, b) || (merged_id(existing, scanned, a) == merged_id(existing, scanned, b)
        && text_less(merged_path(existing, scanned, a), merged_path(existing, scanned, b)))
}

/// The project's photos after a scan: one per path that an existing or scanned photo has (the
/// one `photo_at_path` gives), ordered by identity, then path.
pub open spec fn photos_after_scan(existing: Seq<PhotoKey>, scanned: Seq<PhotoKey>, out: Seq<MergedPhoto>) -> bool {
    &&& forall|q: int| 0 <= q < out.len() ==> photo_at_path(existing, scanned, merged_path(existing, scanned, #[trigger] out[q]), scanned.len() as int) == Some(out[q])
    &&& forall|p: Seq<char>| #[trigger] photo_at_path(existing, scanned, p, scanned.len() as int) is Some ==> exists|q: int| 0 <= q < out.len() && merged_path(existing, scanned, #[trigger] out[q]) == p
    &&& forall|q: int, r: int| 0 <= q < r < out.len() ==> merged_before(existing, scanned, #[trigger] out[q], #[trigger] out[r])
}

/// The entry for path `p` in a list of (path, photo) entries.
pub open spec fn entry_for(entries: Seq<(Seq<char>, MergedPhoto)>, p: Seq<char>) -> Option<MergedPhoto>
    decreases entries.len(),
{
    if entries.len() == 0 {
        None
    } else if entries.last().0 == p {
        Some(entries.last().1)
    } else {
        entry_for(entries.drop_last(), p)
    }
}

pub open spec fn distinct_paths(entries: Seq<(Seq<char>, MergedPhoto)>) -> bool {
    forall|a: int, b: int| 0 <= a < b < entries.len() ==> (#[trigger] entries[a]).0 != (#[trigger] entries[b]).0
}

proof fn lemma_entry_for_index(entries: Seq<(Seq<char>, MergedPhoto)>, k: int)
    requires
        distinct_paths(entries),
        0 <= k < entries.len(),
    ensures
        entry_for(entries, entries[k].0) == Some(entries[k].1),
    decreases entries.len(),
{
    if k < entries.len() - 1 {
        assert(entries.last().0 != entries[k].0);
        assert(entries.drop_last()[k] == entries[k]);
        lemma_entry_for_index(entries.drop_last(), k);
    }
}

proof fn lemma_entry_for_absent(entries: Seq<(Seq<char>, MergedPhoto)>, p: Seq<char>)
    requires
        forall|k: int| 0 <= k < entries.len() ==> (#[trigger] entries[k]).0 != p,
    ensures
        entry_for(entries, p) is None,
    decreases entries.len(),
{
    if entries.len() > 0 {
        lemma_entry_for_absent(entries.drop_last(), p);
    }
}

proof fn lemma_entry_for_found(entries: Seq<(Seq<char>, MergedPhoto)>, p: Seq<char>)
    requires
        entry_for(entries, p) is Some,
    ensures
        exists|k: int| 0 <= k < entries.len() && (#[trigger] entries[k]).0 == p && entries[k].1 == entry_for(entries, p)->Some_0,
    decreases entries.len(),
{
    if entries.last().0 != p {
        lemma_entry_for_found(entries.drop_last(), p);
        let k = choose|k: int| 0 <= k < entries.drop_last().len() && (#[trigger] entries.drop_last()[k]).0 == p && entries.drop_last()[k].1 == entry_for(entries.drop_last(), p)->Some_0;
        assert(entries[k] == entries.drop_last()[k]);
    } else {
        assert(entries[entries.len() - 1] == entries.last());
    }
}

/// Sets the entry for a path: replaces the one with that path, or adds one.
fn upsert(entries: &mut Vec<(Vec<char>, MergedPhoto)>, path: Vec<char>, m: MergedPhoto)
    requires
        distinct_paths(entries_view(old(entries)@)),
    ensures
        distinct_paths(entries_view(final(entries)@)),
        forall|q: Seq<char>| #[trigger] entry_for(entries_view(final(entries)@), q) == if q == path@ {
            Some(m)
        } else {
            entry_for(entries_view(old(entries)@), q)
        },
{
    let ghost before = entries_view(entries@);
    let mut k: usize = 0;
    while k < entries.len() && !chars_equal(&entries[k].0, &path)
        invariant
            k <= entries.len(),
            before == entries_view(entries@),
            forall|x: int| 0 <= x < k ==> (#[trigger] before[x]).0 != path@,
        decreases entries.len() - k,
    {
        k = k + 1;
    }
    let ghost pv = path@;
    if k < entries.len() {
        entries.set(k, (path, m));
        proof {
            let after = entries_view(entries@);
            assert(after =~= before.update(k as int, (pv, m)));
            assert forall|a: int, b: int| 0 <= a < b < after.len() implies (#[trigger] after[a]).0 != (#[trigger] after[b]).0 by {
                if a == k { assert(before[k as int].0 == pv); }
                if b == k { assert(before[k as int].0 == pv); }
            }
            assert forall|q: Seq<char>| #[trigger] entry_for(after, q) == if q == pv { Some(m) } else { entry_for(before, q) } by {
                if q == pv {
                    lemma_entry_for_index(after, k as int);
                } else if entry_for(before, q) is Some {
                    lemma_entry_for_found(before, q);
                    let x = choose|x: int| 0 <= x < before.len() && (#[trigger] before[x]).0 == q && before[x].1 == entry_for(before, q)->Some_0;
                    assert(after[x] == before[x]);
                    lemma_entry_for_index(after, x);
                } else {
                    assert forall|x: int| 0 <= x < after.len() implies (#[trigger] after[x]).0 != q by {
                        if after[x].0 == q {
                            assert(x != k);
                            assert(before[x] == after[x]);
                            lemma_entry_for_index(before, x);
                        }
                    }
                    lemma_entry_for_absent(after, q);
                }
            }
        }
    } else {
        entries.push((path, m));
        proof {
            let after = entries_view(entries@);
            assert(after =~= before.push((pv, m)));
            assert(after.drop_last() =~= before);
        }
    }
}

pub open spec fn entries_view(entries: Seq<(Vec<char>, MergedPhoto)>) -> Seq<(Seq<char>, MergedPhoto)> {
    entries.map_values(|e: (Vec<char>, MergedPhoto)| (e.0@, e.1))
}


/// The photo at path `p` before any scanned photo is recorded, from the first `n` existing
/// photos.
pub open spec fn existing_at_path(existing: Seq<PhotoKey>, p: Seq<char>, n: int) -> Option<MergedPhoto> {
    match last_at_path(existing, p, n) {
        Some(i) => Some(MergedPhoto { photo: PhotoOrigin::Existing(i as usize), metadata: PhotoOrigin::Existing(i as usize) }),
        None => None,
    }
}

pub open spec fn origin_in_range(existing: Seq<PhotoKey>, scanned: Seq<PhotoKey>, o: PhotoOrigin) -> bool {
    match o {
        PhotoOrigin::Existing(i) => i < existing.len(),
        PhotoOrigin::Scanned(j) => j < scanned.len(),
    }
}

/// Entries keyed by their photo's path, with origins in range.
pub open spec fn entries_ok(existing: Seq<PhotoKey>, scanned: Seq<PhotoKey>, es: Seq<(Seq<char>, MergedPhoto)>) -> bool {
    &&& distinct_paths(es)
    &&& forall|k: int| 0 <= k < es.len() ==> {
        &&& origin_in_range(existing, scanned, (#[trigger] es[k]).1.photo)
        &&& origin_in_range(existing, scanned, es[k].1.metadata)
        &&& es[k].0 == merged_path(existing, scanned, es[k].1)
    }
}

fn lookup_entry(entries: &Vec<(Vec<char>, MergedPhoto)>, path: &Vec<char>) -> (found: Option<MergedPhoto>)
    ensures
        found == entry_for(entries_view(entries@), path@),
{
    let ghost ev = entries_view(entries@);
    let mut k: usize = entries.len();
    assert(ev.take(k as int) =~= ev);
    while k > 0
        invariant
            k <= entries.len(),
            ev == entries_view(entries@),
            entry_for(ev, path@) == entry_for(ev.take(k as int), path@),
        decreases k,
    {
        assert(ev.take(k as int).drop_last() =~= ev.take(k - 1));
        assert(ev.take(k as int).last() == ev[k - 1]);
        if chars_equal(&entries[k - 1].0, path) {
            return Some(entries[k - 1].1);
        }
        k = k - 1;
    }
    None
}

fn key_of<'a>(existing: &'a Vec<PhotoKey>, scanned: &'a Vec<PhotoKey>, o: PhotoOrigin) -> (r: (u128, &'a String))
    requires
        origin_in_range(existing@, scanned@, o),
    ensures
        r.0 == origin_key(existing@, scanned@, o).id,
        r.1@ == origin_key(existing@, scanned@, o).path@,
{
    match o {
        PhotoOrigin::Existing(i) => (existing[i].id, &existing[i].path),
        PhotoOrigin::Scanned(j) => (scanned[j].id, &scanned[j].path),
    }
}

proof fn lemma_merged_before_total(existing: Seq<PhotoKey>, scanned: Seq<PhotoKey>, a: MergedPhoto, b: MergedPhoto)
    requires
        merged_path(existing, scanned, a) != merged_path(existing, scanned, b),
    ensures
        merged_before(existing, scanned, a, b) || merged_before(existing, scanned, b, a),
        !(merged_before(existing, scanned, a, b) && merged_before(existing, scanned, b, a)),
{
    lemma_text_less_trichotomy(merged_path(existing, scanned, a), merged_path(existing, scanned, b));
}

proof fn lemma_merged_before_transitive(existing: Seq<PhotoKey>, scanned: Seq<PhotoKey>, a: MergedPhoto, b: MergedPhoto, c: MergedPhoto)
    requires
        merged_before(existing, scanned, a, b),
        merged_before(existing, scanned, b, c),
    ensures
        merged_before(existing, scanned, a, c),
{
    if merged_id(existing, scanned, a) == merged_id(existing, scanned, b) && merged_id(existing, scanned, b) == merged_id(existing, scanned, c) {
        lemma_text_less_transitive(merged_path(existing, scanned, a), merged_path(existing, scanned, b), merged_path(existing, scanned, c));
    }
}

/// The photos of the project after recording a scan (see `photos_after_scan`): what finishing
/// a photo scan stores, before the match results of vanished photos are dropped.
pub fn merge_scanned_photos(existing: &Vec<PhotoKey>, scanned: &Vec<PhotoKey>) -> (out: Vec<MergedPhoto>)
    ensures
        photos_after_scan(existing@, scanned@, out@),
        forall|q: int| 0 <= q < out@.len() ==> origin_in_range(existing@, scanned@, (#[trigger] out@[q]).photo)
            && origin_in_range(existing@, scanned@, out@[q].metadata),
{
    let ghost ex = existing@;
    let ghost sc = scanned@;
    let mut entries: Vec<(Vec<char>, MergedPhoto)> = Vec::new();
    let mut i: usize = 0;
    while i < existing.len()
        invariant
            i <= existing.len(),
            ex == existing@,
            sc == scanned@,
            entries_ok(ex, sc, entries_view(entries@)),
            forall|q: Seq<char>| #[trigger] entry_for(entries_view(entries@), q) == existing_at_path(ex, q, i as int),
        decreases existing.len() - i,
    {
        let m = MergedPhoto { photo: PhotoOrigin::Existing(i), metadata: PhotoOrigin::Existing(i) };
        let ghost before = entries_view(entries@);
        let path = chars_of(existing[i].path.as_str());
        upsert(&mut entries, path, m);
        proof {
            let after = entries_view(entries@);
            assert forall|k: int| 0 <= k < after.len() implies {
                &&& origin_in_range(ex, sc, (#[trigger] after[k]).1.photo)
                &&& origin_in_range(ex, sc, after[k].1.metadata)
                &&& after[k].0 == merged_path(ex, sc, after[k].1)
            } by {
                lemma_entry_for_index(after, k);
                if after[k].0 != existing@[i as int].path@ {
                    lemma_entry_for_found(before, after[k].0);
                    let x = choose|x: int| 0 <= x < before.len() && (#[trigger] before[x]).0 == after[k].0 && before[x].1 == entry_for(before, after[k].0)->Some_0;
                }
            }
        }
        i = i + 1;
    }
    let mut j: usize = 0;
    while j < scanned.len()
        invariant
            j <= scanned.len(),
            ex == existing@,
            sc == scanned@,
            entries_ok(ex, sc, entries_view(entries@)),
            forall|q: Seq<char>| #[trigger] entry_for(entries_view(entries@), q) == photo_at_path(ex, sc, q, j as int),
        decreases scanned.len() - j,
    {
        let path = chars_of(scanned[j].path.as_str());
        let prev = lookup_entry(&entries, &path);
        proof {
            if prev is Some {
                lemma_entry_for_found(entries_view(entries@), path@);
            }
        }
        let metadata = match prev {
            Some(e) => {
                let (prev_id, _) = key_of(existing, scanned, e.photo);
                if prev_id == scanned[j].id { e.metadata } else { PhotoOrigin::Scanned(j) }
            },
            None => PhotoOrigin::Scanned(j),
        };
        let m = MergedPhoto { photo: PhotoOrigin::Scanned(j), metadata };
        let ghost before = entries_view(entries@);
        upsert(&mut entries, path, m);
        proof {
            let after = entries_view(entries@);
            assert forall|q: Seq<char>| #[trigger] entry_for(after, q) == photo_at_path(ex, sc, q, j + 1) by {}
            assert forall|k: int| 0 <= k < after.len() implies {
                &&& origin_in_range(ex, sc, (#[trigger] after[k]).1.photo)
                &&& origin_in_range(ex, sc, after[k].1.metadata)
                &&& after[k].0 == merged_path(ex, sc, after[k].1)
            } by {
                lemma_entry_for_index(after, k);
                if after[k].0 != scanned@[j as int].path@ {
                    lemma_entry_for_found(before, after[k].0);
                    let x = choose|x: int| 0 <= x < before.len() && (#[trigger] before[x]).0 == after[k].0 && before[x].1 == entry_for(before, after[k].0)->Some_0;
                }
            }
        }
        j = j + 1;
    }
    let ghost es = entries_view(entries@);
    let mut out: Vec<MergedPhoto> = Vec::new();
    let mut t: usize = 0;
    while t < entries.len()
        invariant
            t <= entries.len(),
            ex == existing@,
            sc == scanned@,
            es == entries_view(entries@),
            entries_ok(ex, sc, es),
            forall|a: int, b: int| 0 <= a < b < out@.len() ==> merged_before(ex, sc, #[trigger] out@[a], #[trigger] out@[b]),
            forall|x: MergedPhoto| #[trigger] out@.contains(x) <==> exists|k: int| 0 <= k < t && (#[trigger] es[k]).1 == x,
        decreases entries.len() - t,
    {
        let m = entries[t].1;
        let (m_id, m_path) = key_of(existing, scanned, m.photo);
        let m_chars = chars_of(m_path.as_str());
        let mut p: usize = 0;
        let mut done = false;
        while p < out.len() && !done
            invariant
                p <= out.len(),
                done ==> p < out.len() && !merged_before(ex, sc, out@[p as int], m),
                t < entries.len(),
                ex == existing@,
                sc == scanned@,
                es == entries_view(entries@),
                entries_ok(ex, sc, es),
                m == es[t as int].1,
                m_id == merged_id(ex, sc, m),
                m_chars@ == merged_path(ex, sc, m),
                forall|a: int, b: int| 0 <= a < b < out@.len() ==> merged_before(ex, sc, #[trigger] out@[a], #[trigger] out@[b]),
                forall|x: MergedPhoto| #[trigger] out@.contains(x) <==> exists|k: int| 0 <= k < t && (#[trigger] es[k]).1 == x,
                forall|a: int| 0 <= a < p ==> merged_before(ex, sc, #[trigger] out@[a], m),
            decreases out.len() - p + (if done { 0int } else { 1int }),
        {
            let o = out[p];
            let ghost k = choose|k: int| 0 <= k < t && (#[trigger] es[k]).1 == o;
            proof {
                assert(out@.contains(o));
                assert(es[k].0 == merged_path(ex, sc, o));
                assert(es[t as int].0 == merged_path(ex, sc, m));
                assert(es[k].0 != es[t as int].0);
            }
            let (o_id, o_path) = key_of(existing, scanned, o.photo);
            let o_chars = chars_of(o_path.as_str());
            let o_first = o_id < m_id || (o_id == m_id && text_less_exec(&o_chars, &m_chars));
            if !o_first {
                done = true;
            } else {
                p = p + 1;
            }
        }
        let ghost before = out@;
        proof {
            if p < before.len() {
                let k = choose|k: int| 0 <= k < t && (#[trigger] es[k]).1 == before[p as int];
                assert(before.contains(before[p as int]));
                lemma_merged_before_total(ex, sc, before[p as int], m);
            }
            assert forall|a: int| p <= a < before.len() implies merged_before(ex, sc, m, #[trigger] before[a]) by {
                if a > p {
                    lemma_merged_before_transitive(ex, sc, m, before[p as int], before[a]);
                }
            }
            assert forall|a: int| 0 <= a < before.len() implies before[a] != m by {
                assert(before.contains(before[a]));
                let k = choose|k: int| 0 <= k < t && (#[trigger] es[k]).1 == before[a];
                assert(es[k].0 != es[t as int].0);
            }
        }
        out.insert(p, m);
        proof {
            let after = out@;
            assert forall|a: int, b: int| 0 <= a < b < after.len() implies merged_before(ex, sc, #[trigger] after[a], #[trigger] after[b]) by {
                if b < p {
                    assert(after[a] == before[a] && after[b] == before[b]);
                } else if b == p {
                    assert(after[a] == before[a]);
                } else if a == p {
                    assert(after[b] == before[b - 1]);
                } else if a < p {
                    assert(after[a] == before[a] && after[b] == before[b - 1]);
                    lemma_merged_before_transitive(ex, sc, before[a], m, before[b - 1]);
                } else {
                    assert(after[a] == before[a - 1] && after[b] == before[b - 1]);
                }
            }
            assert forall|x: MergedPhoto| #[trigger] after.contains(x) <==> exists|k: int| 0 <= k < t + 1 && (#[trigger] es[k]).1 == x by {
                if after.contains(x) {
                    let c = choose|c: int| 0 <= c < after.len() && after[c] == x;
                    if c < p {
                        assert(before[c] == x);
                        assert(before.contains(x));
                    } else if c > p {
                        assert(before[c - 1] == x);
                        assert(before.contains(x));
                    } else {
                        assert(es[t as int].1 == x);
                    }
                }
                if exists|k: int| 0 <= k < t + 1 && (#[trigger] es[k]).1 == x {
                    let k = choose|k: int| 0 <= k < t + 1 && (#[trigger] es[k]).1 == x;
                    if k < t {
                        assert(before.contains(x));
                        let c = choose|c: int| 0 <= c < before.len() && before[c] == x;
                        if c < p {
                            assert(after[c] == x);
                        } else {
                            assert(after[c + 1] == x);
                        }
                    } else {
                        assert(after[p as int] == x);
                    }
                }
            }
        }
        t = t + 1;
    }
    proof {
        let n = scanned@.len() as int;
        assert forall|q: int| 0 <= q < out@.len() implies photo_at_path(ex, sc, merged_path(ex, sc, #[trigger] out@[q]), n) == Some(out@[q])
            && origin_in_range(ex, sc, out@[q].photo) && origin_in_range(ex, sc, out@[q].metadata) by {
            assert(out@.contains(out@[q]));
            let k = choose|k: int| 0 <= k < es.len() && (#[trigger] es[k]).1 == out@[q];
            lemma_entry_for_index(es, k);
        }
        assert forall|p: Seq<char>| #[trigger] photo_at_path(ex, sc, p, n) is Some implies exists|q: int| 0 <= q < out@.len() && merged_path(ex, sc, #[trigger] out@[q]) == p by {
            lemma_entry_for_found(es, p);
            let k = choose|k: int| 0 <= k < es.len() && (#[trigger] es[k]).0 == p && es[k].1 == entry_for(es, p)->Some_0;
            assert(out@.contains(es[k].1));
            let q = choose|q: int| 0 <= q < out@.len() && out@[q] == es[k].1;
            assert(merged_path(ex, sc, out@[q]) == p);
        }
    }
    out
}


// ---------------------------------------------------------------------------------------------
// Laws
// ---------------------------------------------------------------------------------------------

/// Importing records again replaces the earlier ones: no kept existing record shares its id
/// with an incoming one, and every incoming record is kept.
pub proof fn law_merge_replaces_by_id(existing: Seq<u128>, incoming: Seq<u128>)
    requires
        existing.len() <= usize::MAX,
        incoming.len() <= usize::MAX,
    ensures
        forall|q: int| 0 <= q < merge_sources(existing, incoming).len() ==> match #[trigger] merge_sources(existing, incoming)[q] {
            MergeSource::Existing(i) => 0 <= i < existing.len() && !incoming.contains(existing[i as int]),
            MergeSource::Incoming(j) => j < incoming.len(),
        },
        forall|j: int| 0 <= j < incoming.len() ==> #[trigger] merge_sources(existing, incoming).contains(MergeSource::Incoming(j as usize)),
{
    lemma_kept_existing_replaced(existing, incoming, existing.len() as int);
    let kept = kept_existing(existing, incoming, existing.len() as int);
    let all = merge_sources(existing, incoming);
    assert forall|j: int| 0 <= j < incoming.len() implies #[trigger] all.contains(MergeSource::Incoming(j as usize)) by {
        assert(all[kept.len() + j] == MergeSource::Incoming(j as usize));
    }
}

proof fn lemma_kept_existing_replaced(existing: Seq<u128>, incoming: Seq<u128>, n: int)
    requires
        0 <= n <= existing.len(),
        existing.len() <= usize::MAX,
    ensures
        forall|q: int| 0 <= q < kept_existing(existing, incoming, n).len() ==> match #[trigger] kept_existing(existing, incoming, n)[q] {
            MergeSource::Existing(i) => 0 <= i < n && !incoming.contains(existing[i as int]),
            MergeSource::Incoming(_) => false,
        },
    decreases n,
{
    if n > 0 {
        lemma_kept_existing_replaced(existing, incoming, n - 1);
    }
}

/// Scanning a photo again at the same path, unchanged (the same identity), keeps what was read
/// of its metadata.
pub proof fn law_rescan_keeps_metadata(existing: Seq<PhotoKey>, scanned: Seq<PhotoKey>, j: int)
    requires
        0 <= j < scanned.len(),
        existing_at_path(existing, scanned[j].path@, existing.len() as int) is Some,
        origin_key(existing, scanned, existing_at_path(existing, scanned[j].path@, existing.len() as int)->Some_0.photo).id == scanned[j].id,
        forall|k: int| 0 <= k < scanned.len() && k != j ==> (#[trigger] scanned[k]).path@ != scanned[j].path@,
    ensures
        photo_at_path(existing, scanned, scanned[j].path@, scanned.len() as int) == Some(MergedPhoto {
            photo: PhotoOrigin::Scanned(j as usize),
            metadata: existing_at_path(existing, scanned[j].path@, existing.len() as int)->Some_0.metadata,
        }),
{
    let p = scanned[j].path@;
    lemma_untouched_path(existing, scanned, p, 0, j);
    lemma_untouched_path(existing, scanned, p, j + 1, scanned.len() as int);
}

/// Scanned photos at other paths leave the photo at path `p` as it is.
proof fn lemma_untouched_path(existing: Seq<PhotoKey>, scanned: Seq<PhotoKey>, p: Seq<char>, from: int, to: int)
    requires
        0 <= from <= to <= scanned.len(),
        forall|k: int| from <= k < to ==> (#[trigger] scanned[k]).path@ != p,
    ensures
        photo_at_path(existing, scanned, p, to) == photo_at_path(existing, scanned, p, from),
    decreases to - from,
{
    if from < to {
        lemma_untouched_path(existing, scanned, p, from, to - 1);
        if from == 0 && to - 1 == 0 {
        }
        assert(scanned[to - 1].path@ != p);
        if to - 1 == 0 {
            assert(photo_at_path(existing, scanned, p, 1) == photo_at_path(existing, scanned, p, 0));
        }
    }
}

} // verus!
