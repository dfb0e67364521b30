use vstd::prelude::*;
use crate::domain::{Calibration, ProjectInfo, ProjectSettings};
use crate::error::{AppError, ErrorCode, error_is};
use crate::paths::{join_path, joined_in, normalize_absolute, normalized_in, is_climb_error};
use crate::text::{decimal, decimal_text, push_str, trim_spaces, trimmed};
use crate::timeline::{instant_from_parts, is_plausible_instant};

verus! {

/// The schema version of project files this version reads and writes.
pub const PROJECT_SCHEMA_VERSION: u32 = 1;

/// The name of a project file inside its directory.
pub open spec fn project_file_name() -> Seq<char> {
    "project.json"@
}

pub fn project_file_name_text() -> (name: &'static str)
    ensures
        name@ == project_file_name(),
{
    "project.json"
}

/// The project file of a project directory: the normalized directory joined with
/// `project.json`.
pub fn project_path_from_directory(directory: &str, windows: bool) -> (result: Result<String, AppError>)
    ensures
        match normalized_in(directory@, windows) {
            None => result is Err && is_climb_error(result->Err_0),
            Some(n) => result is Ok && result->Ok_0@ == joined_in(n, project_file_name(), windows),
        },
{
    let normalized = normalize_absolute(directory, windows)?;
    Ok(join_path(normalized.as_str(), project_file_name_text(), windows))
}

/// Why a project snapshot is refused, if it is: an unsupported schema version, then a blank
/// name.
pub open spec fn snapshot_refusal(schema_version: u32, name: Seq<char>) -> Option<Seq<char>> {
    if schema_version != PROJECT_SCHEMA_VERSION {
        Some("不支持的项目版本："@ + decimal(schema_version as nat))
    } else if trimmed(name).len() == 0 {
        Some("项目名称不能为空。"@)
    } else {
        None
    }
}

pub open spec fn is_project_error(e: AppError, message: Seq<char>) -> bool {
    error_is(e, ErrorCode::ProjectInvalid, message, "请选择有效的 GeoTagger 项目文件，或从备份恢复。"@, true)
}

/// Checks a snapshot's schema version and project name.
pub fn validate_snapshot(schema_version: u32, name: &str) -> (result: Result<(), AppError>)
    ensures
        match snapshot_refusal(schema_version, name@) {
            None => result is Ok,
            Some(m) => result is Err && is_project_error(result->Err_0, m),
        },
{
    if schema_version != PROJECT_SCHEMA_VERSION {
        let mut message = "不支持的项目版本：".to_owned();
        push_str(&mut message, decimal_text(schema_version as u64).as_str());
        return Err(AppError::project_invalid(message));
    }
    let trimmed_name = trim_spaces(name);
    if trimmed_name.as_str().is_empty() {
        return Err(AppError::project_invalid("项目名称不能为空。".to_owned()));
    }
    Ok(())
}

/// What a project file says its schema version is, field by field.
#[derive(Debug, Clone, Copy, PartialEq, Eq, Structural)]
pub enum VersionField {
    Absent,
    Unsigned(u64),
    Other,
}

/// What serde_json reads from a project file: the values of its `schemaVersion` and
/// `schema_version` fields, or the parser's message.
pub uninterp spec fn project_version_fields(bytes: Seq<u8>) -> Result<(VersionField, VersionField), Seq<char>>;

/// `serde_json::from_slice::<Value>`, read at the keys `schemaVersion` and `schema_version`
/// (`Value::get`, `as_u64`); claimed to give the named fields.
#[verifier::external_body]
fn version_fields_of(bytes: &[u8]) -> (fields: Result<(VersionField, VersionField), String>)
    ensures
        match project_version_fields(bytes@) {
            Ok(f) => fields == Ok::<(VersionField, VersionField), String>(f),
            Err(m) => fields is Err && fields->Err_0@ == m,
        },
{
    let value: serde_json::Value = serde_json::from_slice(bytes).map_err(|e| e.to_string())?;
    let field = |key: &str| match value.get(key) {
        None => VersionField::Absent,
        Some(v) => v.as_u64().map_or(VersionField::Other, VersionField::Unsigned),
    };
    Ok((field("schemaVersion"), field("schema_version")))
}

/// The version a project file declares: `schemaVersion` if present, else `schema_version`, as
/// an unsigned integer.
pub open spec fn declared_version(fields: (VersionField, VersionField)) -> Option<u64> {
    let chosen = if fields.0 is Absent { fields.1 } else { fields.0 };
    match chosen {
        VersionField::Unsigned(v) => Some(v),
        _ => None,
    }
}

/// Why a project file cannot be brought to the current schema, if it cannot.
pub open spec fn migration_refusal(bytes: Seq<u8>) -> Option<Seq<char>> {
    match project_version_fields(bytes) {
        Err(m) => Some("项目 JSON 损坏："@ + m),
        Ok(fields) => match declared_version(fields) {
            None => Some("项目缺少 schemaVersion。"@),
            Some(v) => if v > PROJECT_SCHEMA_VERSION {
                Some("项目版本 "@ + decimal(v as nat) + " 高于当前支持版本 "@ + decimal(PROJECT_SCHEMA_VERSION as nat) + "。"@)
            } else if v < PROJECT_SCHEMA_VERSION {
                Some("无法从项目版本 "@ + decimal(v as nat) + " 迁移。"@)
            } else {
                None
            },
        },
    }
}

/// Checks that a project file is JSON that declares the current schema version (no older
/// version can be migrated, no newer one is understood).
pub fn check_project_json(bytes: &[u8]) -> (result: Result<(), AppError>)
    ensures
        match migration_refusal(bytes@) {
            None => result is Ok,
            Some(m) => result is Err && is_project_error(result->Err_0, m),
        },
{
    let fields = match version_fields_of(bytes) {
        Err(m) => {
            let mut message = "项目 JSON 损坏：".to_owned();
            push_str(&mut message, m.as_str());
            return Err(AppError::project_invalid(message));
        },
        Ok(f) => f,
    };
    let chosen = match fields.0 {
        VersionField::Absent => fields.1,
        other => other,
    };
    let version = match chosen {
        VersionField::Unsigned(v) => v,
        _ => {
            return Err(AppError::project_invalid("项目缺少 schemaVersion。".to_owned()));
        },
    };
    if version > PROJECT_SCHEMA_VERSION as u64 {
        let mut message = "项目版本 ".to_owned();
        push_str(&mut message, decimal_text(version).as_str());
        push_str(&mut message, " 高于当前支持版本 ");
        push_str(&mut message, decimal_text(PROJECT_SCHEMA_VERSION as u64).as_str());
        push_str(&mut message, "。");
        return Err(AppError::project_invalid(message));
    }
    if version < PROJECT_SCHEMA_VERSION as u64 {
        let mut message = "无法从项目版本 ".to_owned();
        push_str(&mut message, decimal_text(version).as_str());
        push_str(&mut message, " 迁移。");
        return Err(AppError::project_invalid(message));
    }
    Ok(())
}

/// A random (version 4) UUID from the `uuid` crate, as a 128-bit value. Nothing is claimed
/// of it.
#[verifier::external_body]
pub(crate) fn random_id() -> (id: u128) {
    uuid::Uuid::new_v4().as_u128()
}

/// The current time from chrono's `Utc::now`, as seconds since the epoch and nanoseconds
/// within the second. Nothing is claimed of it.
#[verifier::external_body]
pub(crate) fn clock_now() -> (now: (i64, u32)) {
    let t = chrono::Utc::now();
    (t.timestamp(), t.timestamp_subsec_nanos())
}

/// The current instant, in nanoseconds since the epoch.
pub fn now_instant() -> (t: i128)
    ensures
        is_plausible_instant(t as int),
{
    let (s, n) = clock_now();
    instant_from_parts(s, n)
}

/// The parts of a new project that carry information: schema version, identity and
/// timestamps, settings and calibration (it has no tracks, photos, matches or writes yet).
#[derive(Debug)]
pub struct NewProject {
    pub schema_version: u32,
    pub project: ProjectInfo,
    pub settings: ProjectSettings,
    pub calibration: Calibration,
}

/// A new project with the given name and default output directory, the default settings,
/// and a calibration that follows the settings' time zone and offset.
pub open spec fn new_project_is(name: Seq<char>, default_output_directory: Option<Seq<char>>, p: NewProject) -> bool {
    &&& p.schema_version == PROJECT_SCHEMA_VERSION
    &&& p.project.name@ == name
    &&& p.project.created_at == p.project.updated_at
    &&& p.settings.photo_timezone@ == "Asia/Shanghai"@
    &&& p.settings.fixed_offset_ms == 0
    &&& p.settings.map_provider == crate::domain::MapProvider::Maplibre
    &&& p.settings.output_mode == crate::domain::OutputMode::CopyToDirectory
    &&& match (p.settings.default_output_directory, default_output_directory) {
        (Some(a), Some(b)) => a@ == b,
        (None, None) => true,
        _ => false,
    }
    &&& p.calibration.timezone@ == p.settings.photo_timezone@
    &&& p.calibration.fixed_offset_ms == p.settings.fixed_offset_ms
    &&& p.calibration.sync_points.len() == 0
    &&& p.calibration.drift_model is None
}

/// Creates a new project (with a fresh random identity, created now).
pub fn create_snapshot(name: String, default_output_directory: Option<String>) -> (p: NewProject)
    ensures
        new_project_is(
            name@,
            match default_output_directory { Some(d) => Some(d@), None => None },
            p,
        ),
{
    let now = now_instant();
    let id = random_id();
    let mut settings = ProjectSettings::default();
    settings.default_output_directory = default_output_directory;
    let mut calibration = Calibration::default();
    calibration.timezone = settings.photo_timezone.clone();
    calibration.fixed_offset_ms = settings.fixed_offset_ms;
    NewProject {
        schema_version: PROJECT_SCHEMA_VERSION,
        project: ProjectInfo { id, name, created_at: now, updated_at: now },
        settings,
        calibration,
    }
}

/// A project's file, identity and counts, as shown in lists.
#[derive(Debug)]
pub struct ProjectSummary {
    pub project_path: String,
    pub project: ProjectInfo,
    pub track_count: usize,
    pub photo_count: usize,
    pub match_count: usize,
}

pub fn summary(project_path: String, project: ProjectInfo, track_count: usize, photo_count: usize, match_count: usize) -> (s: ProjectSummary)
    ensures
        s.project_path@ == project_path@,
        s.project == project,
        s.track_count == track_count,
        s.photo_count == photo_count,
        s.match_count == match_count,
{
    ProjectSummary { project_path, project, track_count, photo_count, match_count }
}

} // verus!
