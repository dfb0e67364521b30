use vstd::prelude::*;

verus! {

/// Coordinate reference system of a track as recorded by the device.
#[derive(Debug, Clone, Copy, PartialEq, Eq, Structural)]
pub enum CoordinateSystem {
    Wgs84,
    Gcj02,
    Bd09,
    Unknown,
}

/// Where the time zone used to interpret a capture time came from.
#[derive(Debug, Clone, Copy, PartialEq, Eq, Structural)]
pub enum TimezoneSource {
    MetadataOffset,
    ProjectDefault,
    UserOverride,
    Unknown,
}

/// Progress of metadata reading for one photo.
#[derive(Debug, Clone, Copy, PartialEq, Eq, Structural)]
pub enum PhotoMetadataStatus {
    Pending,
    Ready,
    AmbiguousTime,
    Failed,
}

/// Outcome of matching one photo against the tracks.
#[derive(Debug, Clone, Copy, PartialEq, Eq, Structural)]
pub enum MatchStatus {
    MatchedHigh,
    MatchedMedium,
    MatchedLow,
    OutOfRange,
    NoCaptureTime,
    SegmentGap,
    AlreadyHasGps,
}

/// Map renderer chosen for a project.
#[derive(Debug, Clone, Copy, PartialEq, Eq, Structural)]
pub enum MapProvider {
    Maplibre,
    Amap,
}

/// How written photos are produced.
#[derive(Debug, Clone, Copy, PartialEq, Eq, Structural)]
pub enum OutputMode {
    CopyToDirectory,
}

/// What to do with photos that already carry GPS data.
#[derive(Debug, Clone, Copy, PartialEq, Eq, Structural)]
pub enum ExistingGpsPolicy {
    Skip,
    Overwrite,
    Preserve,
}

/// Planned action for one photo of a write plan.
#[derive(Debug, Clone, Copy, PartialEq, Eq, Structural)]
pub enum WritePlanItemAction {
    WriteGps,
    SkipExistingGps,
    PreserveExistingGps,
    SkipNoMatch,
    SkipUnsupportedFormat,
    Conflict,
}

/// Result of executing one write-plan item.
#[derive(Debug, Clone, Copy, PartialEq, Eq, Structural)]
pub enum WriteItemStatus {
    WrittenVerified,
    Skipped,
    Failed,
    Cancelled,
}

/// Overall state of a write job.
#[derive(Debug, Clone, Copy, PartialEq, Eq, Structural)]
pub enum WriteJobStatus {
    Running,
    Completed,
    CompletedWithErrors,
    Cancelled,
    Failed,
}

/// Kind of long-running background task.
#[derive(Debug, Clone, Copy, PartialEq, Eq, Structural)]
pub enum TaskKind {
    PhotoScan,
    MatchCalculation,
    WriteExif,
}

/// Life-cycle state of a background task.
#[derive(Debug, Clone, Copy, PartialEq, Eq, Structural)]
pub enum TaskStatus {
    Pending,
    Running,
    Completed,
    Failed,
    Cancelled,
}

/// Identity of a file's contents and attributes at one moment.
#[derive(Debug)]
pub struct FileFingerprint {
    pub sha256: String,
    pub size_bytes: u64,
    pub modified_unix_ms: i64,
}

impl Clone for FileFingerprint {
    fn clone(&self) -> (out: Self)
        ensures
            out == *self,
    {
        FileFingerprint {
            sha256: self.sha256.clone(),
            size_bytes: self.size_bytes,
            modified_unix_ms: self.modified_unix_ms,
        }
    }
}

/// A non-fatal finding about an imported track.
#[derive(Debug)]
pub struct TrackWarning {
    pub code: String,
    pub message: String,
    pub segment_index: Option<usize>,
    pub point_index: Option<usize>,
}

impl Clone for TrackWarning {
    fn clone(&self) -> (out: Self)
        ensures
            out == *self,
    {
        TrackWarning {
            code: self.code.clone(),
            message: self.message.clone(),
            segment_index: self.segment_index,
            point_index: self.point_index,
        }
    }
}

/// How a write plan treats photos, existing GPS data and existing outputs.
#[derive(Debug, Clone, Copy, PartialEq, Eq, Structural)]
pub struct WriteOptions {
    pub existing_gps_policy: ExistingGpsPolicy,
    pub include_altitude: bool,
    pub preserve_relative_paths: bool,
    pub overwrite_output: bool,
}

impl Default for WriteOptions {
    fn default() -> (options: Self)
        ensures
            options.existing_gps_policy == ExistingGpsPolicy::Skip,
            options.include_altitude,
            options.preserve_relative_paths,
            !options.overwrite_output,
    {
        WriteOptions {
            existing_gps_policy: ExistingGpsPolicy::Skip,
            include_altitude: true,
            preserve_relative_paths: true,
            overwrite_output: false,
        }
    }
}

/// Per-project preferences.
#[derive(Debug)]
pub struct ProjectSettings {
    pub photo_timezone: String,
    pub fixed_offset_ms: i64,
    pub map_provider: MapProvider,
    pub output_mode: OutputMode,
    pub default_output_directory: Option<String>,
}

impl Default for ProjectSettings {
    fn default() -> (settings: Self)
        ensures
            settings.photo_timezone@ == "Asia/Shanghai"@,
            settings.fixed_offset_ms == 0,
            settings.map_provider == MapProvider::Maplibre,
            settings.output_mode == OutputMode::CopyToDirectory,
            settings.default_output_directory is None,
    {
        ProjectSettings {
            photo_timezone: "Asia/Shanghai".to_owned(),
            fixed_offset_ms: 0,
            map_provider: MapProvider::Maplibre,
            output_mode: OutputMode::CopyToDirectory,
            default_output_directory: None,
        }
    }
}

/// A manual correspondence between a camera-local time and the true UTC instant.
#[derive(Debug)]
pub struct SyncPoint {
    pub capture_local: String,
    /// Nanoseconds since the Unix epoch.
    pub actual_utc: i128,
}

/// How camera clock times are corrected before matching.
#[derive(Debug)]
pub struct Calibration {
    pub timezone: String,
    pub fixed_offset_ms: i64,
    pub sync_points: Vec<SyncPoint>,
    pub drift_model: Option<String>,
}

impl Default for Calibration {
    fn default() -> (calibration: Self)
        ensures
            calibration.timezone@ == "Asia/Shanghai"@,
            calibration.fixed_offset_ms == 0,
            calibration.sync_points.len() == 0,
            calibration.drift_model is None,
    {
        Calibration {
            timezone: "Asia/Shanghai".to_owned(),
            fixed_offset_ms: 0,
            sync_points: Vec::new(),
            drift_model: None,
        }
    }
}

/// Identity and timestamps of a project.
#[derive(Debug)]
pub struct ProjectInfo {
    pub id: u128,
    pub name: String,
    /// Nanoseconds since the Unix epoch.
    pub created_at: i128,
    /// Nanoseconds since the Unix epoch.
    pub updated_at: i128,
}

/// Notification that the open project gained or lost unsaved changes.
#[derive(Debug, Clone, Copy, PartialEq, Eq, Structural)]
pub struct ProjectDirtyEvent {
    pub changed: bool,
}

} // verus!
