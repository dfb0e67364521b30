use vstd::prelude::*;
use crate::timeline::is_plausible_instant;
use crate::collections::{sorted_unique, strictly_increasing};
use crate::domain::{
    ExistingGpsPolicy, FileFingerprint, MatchStatus, WriteOptions, WritePlanItemAction,
};
use crate::error::{AppError, ErrorCode, error_is, error_of, is_invalid_error};
use crate::paths::{escapes_in, is_absolute, is_absolute_path, is_empty_path_error, is_escape_error, joined_in, join_path, normalize_absolute, normalized_in, path_starts_with, paths_equal, relative_in, safe_relative_path, same_in, starts_with_in, is_climb_error};
use crate::text::{ascii_lower_seq, push_str, str_equal, to_ascii_lowercase};

verus! {

/// What a write plan needs to know about one photo of the project.
#[derive(Debug)]
pub struct PlanPhoto {
    pub id: u128,
    pub path: String,
    pub relative_path: String,
    pub file_name: String,
    pub extension: String,
    pub fingerprint: FileFingerprint,
    pub has_existing_gps: bool,
}

/// What a write plan needs to know about one match result.
#[derive(Debug)]
pub struct PlanMatch {
    pub photo_id: u128,
    pub status: MatchStatus,
    pub quality_status: Option<MatchStatus>,
    /// Both latitude and longitude are present.
    pub has_coordinates: bool,
    /// Why the matched coordinates cannot be written (not a valid WGS84 point, or a
    /// non-finite altitude), when that is so.
    pub coordinate_error: Option<AppError>,
}

/// File-system facts about the chosen output directory.
#[derive(Debug)]
pub struct OutputDirectoryFacts {
    pub exists: bool,
    pub is_dir: bool,
    /// The directory with symbolic links resolved.
    pub resolved: Result<String, AppError>,
}

/// File-system facts about one photo and its planned output file.
#[derive(Debug)]
pub struct TargetFacts {
    /// The planned output path with symbolic links resolved.
    pub resolved_output: Result<String, AppError>,
    /// The photo's own path with symbolic links resolved.
    pub resolved_source: Result<String, AppError>,
    pub output_exists: bool,
}

/// One photo of a write plan.
#[derive(Debug)]
pub struct WritePlanItem {
    pub photo_id: u128,
    /// Position of the photo in the project's photo list.
    pub photo_index: usize,
    /// Position of the photo's match result in the project's match list, if it has one.
    pub match_index: Option<usize>,
    /// The match result carries coordinates that will be written.
    pub has_new_gps: bool,
    pub source_path: String,
    pub output_path: String,
    pub source_fingerprint: FileFingerprint,
    pub action: WritePlanItemAction,
    pub warnings: Vec<String>,
}

/// A reviewed list of copies to produce, one per selected photo, in photo-id order.
#[derive(Debug)]
pub struct WritePlan {
    pub id: u128,
    /// Nanoseconds since the Unix epoch.
    pub created_at: i128,
    pub output_directory: String,
    pub options: WriteOptions,
    pub items: Vec<WritePlanItem>,
    pub writable_count: usize,
    pub skipped_count: usize,
    pub conflict_count: usize,
}

/// Only JPEG and TIFF copies are written in this version.
pub open spec fn is_writable_format_spec(extension: Seq<char>) -> bool {
    let e = ascii_lower_seq(extension);
    e == "jpg"@ || e == "jpeg"@ || e == "tif"@ || e == "tiff"@
}

/// Whether GPS can be written into a file with this extension (case-insensitive).
pub fn is_mvp_writable_format(extension: &str) -> (b: bool)
    ensures
        b == is_writable_format_spec(extension@),
{
    let lowered = to_ascii_lowercase(extension);
    str_equal(lowered.as_str(), "jpg") || str_equal(lowered.as_str(), "jpeg")
        || str_equal(lowered.as_str(), "tif") || str_equal(lowered.as_str(), "tiff")
}

/// The status that decides writability: the quality grade when there is one.
pub open spec fn effective_status(m: PlanMatch) -> MatchStatus {
    match m.quality_status {
        Some(q) => q,
        None => m.status,
    }
}

/// A match yields coordinates to write when its grade is a match and both coordinates exist.
pub open spec fn match_gives_gps(m: PlanMatch) -> bool {
    let s = effective_status(m);
    (s == MatchStatus::MatchedHigh || s == MatchStatus::MatchedMedium || s == MatchStatus::MatchedLow)
        && m.has_coordinates
}

/// Whether a match result yields coordinates that may be written.
pub fn gives_gps(m: &PlanMatch) -> (b: bool)
    ensures
        b == match_gives_gps(*m),
{
    let s = match m.quality_status {
        Some(q) => q,
        None => m.status,
    };
    let matched = match s {
        MatchStatus::MatchedHigh | MatchStatus::MatchedMedium | MatchStatus::MatchedLow => true,
        _ => false,
    };
    matched && m.has_coordinates
}

/// Index of the last photo with this id (later photos replace earlier ones).
pub open spec fn last_photo_index(photos: Seq<PlanPhoto>, id: u128) -> Option<int>
    decreases photos.len(),
{
    if photos.len() == 0 {
        None
    } else if photos.last().id == id {
        Some(photos.len() - 1)
    } else {
        last_photo_index(photos.drop_last(), id)
    }
}

/// Index of the last match for this photo id.
pub open spec fn last_match_index(matches: Seq<PlanMatch>, id: u128) -> Option<int>
    decreases matches.len(),
{
    if matches.len() == 0 {
        None
    } else if matches.last().photo_id == id {
        Some(matches.len() - 1)
    } else {
        last_match_index(matches.drop_last(), id)
    }
}

pub proof fn lemma_last_photo_index(photos: Seq<PlanPhoto>, id: u128)
    ensures
        match last_photo_index(photos, id) {
            Some(i) => 0 <= i < photos.len() && photos[i].id == id,
            None => forall|i: int| 0 <= i < photos.len() ==> #[trigger] photos[i].id != id,
        },
    decreases photos.len(),
{
    if photos.len() > 0 && photos.last().id != id {
        lemma_last_photo_index(photos.drop_last(), id);
        if last_photo_index(photos, id) is None {
            assert forall|i: int| 0 <= i < photos.len() implies #[trigger] photos[i].id != id by {
                if i < photos.len() - 1 {
                    assert(photos[i] == photos.drop_last()[i]);
                }
            }
        }
    }
}

pub proof fn lemma_last_match_index(matches: Seq<PlanMatch>, id: u128)
    ensures
        match last_match_index(matches, id) {
            Some(i) => 0 <= i < matches.len() && matches[i].photo_id == id,
            None => true,
        },
    decreases matches.len(),
{
    if matches.len() > 0 && matches.last().photo_id != id {
        lemma_last_match_index(matches.drop_last(), id);
    }
}

fn find_last_photo(photos: &Vec<PlanPhoto>, id: u128) -> (found: Option<usize>)
    ensures
        match found {
            Some(i) => last_photo_index(photos@, id) == Some(i as int),
            None => last_photo_index(photos@, id) is None,
        },
{
    let mut i: usize = photos.len();
    assert(photos@.take(i as int) =~= photos@);
    while i > 0
        invariant
            i <= photos.len(),
            last_photo_index(photos@, id) == last_photo_index(photos@.take(i as int), id),
        decreases i,
    {
        assert(photos@.take(i as int).drop_last() =~= photos@.take(i - 1));
        if photos[i - 1].id == id {
            return Some(i - 1);
        }
        i = i - 1;
    }
    None
}

fn find_last_match(matches: &Vec<PlanMatch>, id: u128) -> (found: Option<usize>)
    ensures
        match found {
            Some(i) => last_match_index(matches@, id) == Some(i as int),
            None => last_match_index(matches@, id) is None,
        },
{
    let mut i: usize = matches.len();
    assert(matches@.take(i as int) =~= matches@);
    while i > 0
        invariant
            i <= matches.len(),
            last_match_index(matches@, id) == last_match_index(matches@.take(i as int), id),
        decreases i,
    {
        assert(matches@.take(i as int).drop_last() =~= matches@.take(i - 1));
        if matches[i - 1].photo_id == id {
            return Some(i - 1);
        }
        i = i - 1;
    }
    None
}

/// The name a photo's copy gets below the output directory.
pub open spec fn source_name(photo: PlanPhoto, options: WriteOptions) -> Seq<char> {
    if options.preserve_relative_paths {
        photo.relative_path@
    } else {
        photo.file_name@
    }
}

/// The planned output path of a photo (meaningful when its name is safe).
pub open spec fn output_path_of(dir: Seq<char>, photo: PlanPhoto, options: WriteOptions, windows: bool) -> Seq<char> {
    joined_in(dir, relative_in(source_name(photo, options), windows)->Ok_0, windows)
}

/// The error for an output that resolves outside the output directory.
pub open spec fn is_outside_error(e: AppError) -> bool {
    error_is(
        e,
        ErrorCode::PathOutsideScope,
        "照片输出路径离开了所选输出目录。"@,
        "请重新扫描照片并重新生成写入计划。"@,
        true,
    )
}

/// The first check a selected photo must pass: a safe name whose resolved output lies
/// inside the resolved output directory.
pub enum TargetCheck {
    Passed,
    UnsafeName,
    Unresolved(AppError),
    Outside,
}

pub open spec fn target_check(photo: PlanPhoto, facts: TargetFacts, options: WriteOptions, root: Seq<char>, windows: bool) -> TargetCheck {
    if relative_in(source_name(photo, options), windows) is Err {
        TargetCheck::UnsafeName
    } else {
        match facts.resolved_output {
            Err(e) => TargetCheck::Unresolved(e),
            Ok(r) => if starts_with_in(r@, root, windows) {
                TargetCheck::Passed
            } else {
                TargetCheck::Outside
            },
        }
    }
}

/// Whether `e` is the error reported for a failed target check.
pub open spec fn target_error_is(check: TargetCheck, name: Seq<char>, e: AppError, windows: bool) -> bool {
    match check {
        TargetCheck::Passed => false,
        TargetCheck::UnsafeName => (escapes_in(name, windows) ==> is_escape_error(e)) && (!escapes_in(name, windows) ==> is_empty_path_error(e)),
        TargetCheck::Unresolved(e0) => e == e0,
        TargetCheck::Outside => is_outside_error(e),
    }
}

/// The second check: writable coordinates must be valid, and the source must resolve.
pub open spec fn item_failure(matches: Seq<PlanMatch>, id: u128, facts: TargetFacts) -> Option<AppError> {
    let gps_error = match last_match_index(matches, id) {
        Some(mi) => if match_gives_gps(matches[mi]) { matches[mi].coordinate_error } else { None },
        None => None,
    };
    match gps_error {
        Some(e) => Some(e),
        None => match facts.resolved_source {
            Err(e) => Some(e),
            Ok(_) => None,
        },
    }
}

/// The planned action for one photo.
pub open spec fn planned_action(
    duplicate: bool,
    same_as_source: bool,
    output_exists: bool,
    has_gps: bool,
    has_existing_gps: bool,
    writable: bool,
    options: WriteOptions,
) -> WritePlanItemAction {
    if duplicate || same_as_source || (output_exists && !options.overwrite_output) {
        WritePlanItemAction::Conflict
    } else if !has_gps {
        WritePlanItemAction::SkipNoMatch
    } else if has_existing_gps {
        match options.existing_gps_policy {
            ExistingGpsPolicy::Skip => WritePlanItemAction::SkipExistingGps,
            ExistingGpsPolicy::Preserve => WritePlanItemAction::PreserveExistingGps,
            ExistingGpsPolicy::Overwrite => if writable {
                WritePlanItemAction::WriteGps
            } else {
                WritePlanItemAction::SkipUnsupportedFormat
            },
        }
    } else if !writable {
        WritePlanItemAction::SkipUnsupportedFormat
    } else {
        WritePlanItemAction::WriteGps
    }
}

/// The warning attached to one photo, if any.
pub open spec fn planned_warning(
    duplicate: bool,
    same_as_source: bool,
    output_exists: bool,
    has_gps: bool,
    has_existing_gps: bool,
    writable: bool,
    options: WriteOptions,
    extension: Seq<char>,
) -> Option<Seq<char>> {
    if duplicate {
        Some("多个源文件映射到同一输出路径。"@)
    } else if same_as_source {
        Some("输出路径与源照片相同，禁止修改原件。"@)
    } else if output_exists && !options.overwrite_output {
        Some("输出文件已存在且未启用明确覆盖。"@)
    } else if !has_gps {
        Some("照片没有可写入的匹配坐标。"@)
    } else if has_existing_gps {
        if options.existing_gps_policy == ExistingGpsPolicy::Overwrite && !writable {
            Some("MVP-1 不写入 ."@ + extension + "；HEIC 需平台回归，RAW 将使用后续 XMP 流程。"@)
        } else {
            None
        }
    } else if !writable {
        Some("MVP-1 不写入 ."@ + extension + "；仅 JPEG/TIFF 支持复制后写入。"@)
    } else {
        None
    }
}

/// Items that will produce a file.
pub open spec fn is_writing(a: WritePlanItemAction) -> bool {
    a == WritePlanItemAction::WriteGps || a == WritePlanItemAction::PreserveExistingGps
}

pub open spec fn count_writing(items: Seq<WritePlanItem>) -> nat
    decreases items.len(),
{
    if items.len() == 0 {
        0
    } else {
        count_writing(items.drop_last()) + if is_writing(items.last().action) { 1nat } else { 0nat }
    }
}

pub open spec fn count_conflicts(items: Seq<WritePlanItem>) -> nat
    decreases items.len(),
{
    if items.len() == 0 {
        0
    } else {
        count_conflicts(items.drop_last()) + if items.last().action == WritePlanItemAction::Conflict { 1nat } else { 0nat }
    }
}

/// Decides the action and warning for one photo from the facts that govern it.
pub fn decide_item(
    duplicate: bool,
    same_as_source: bool,
    output_exists: bool,
    has_gps: bool,
    has_existing_gps: bool,
    extension: &str,
    options: WriteOptions,
) -> (decision: (WritePlanItemAction, Vec<String>))
    ensures
        decision.0 == planned_action(duplicate, same_as_source, output_exists, has_gps, has_existing_gps, is_writable_format_spec(extension@), options),
        match planned_warning(duplicate, same_as_source, output_exists, has_gps, has_existing_gps, is_writable_format_spec(extension@), options, extension@) {
            Some(w) => decision.1.len() == 1 && decision.1[0]@ == w,
            None => decision.1.len() == 0,
        },
{
    let writable = is_mvp_writable_format(extension);
    let mut warnings: Vec<String> = Vec::new();
    let action = if duplicate {
        warnings.push("多个源文件映射到同一输出路径。".to_owned());
        WritePlanItemAction::Conflict
    } else if same_as_source {
        warnings.push("输出路径与源照片相同，禁止修改原件。".to_owned());
        WritePlanItemAction::Conflict
    } else if output_exists && !options.overwrite_output {
        warnings.push("输出文件已存在且未启用明确覆盖。".to_owned());
        WritePlanItemAction::Conflict
    } else if !has_gps {
        warnings.push("照片没有可写入的匹配坐标。".to_owned());
        WritePlanItemAction::SkipNoMatch
    } else if has_existing_gps {
        match options.existing_gps_policy {
            ExistingGpsPolicy::Skip => WritePlanItemAction::SkipExistingGps,
            ExistingGpsPolicy::Preserve => WritePlanItemAction::PreserveExistingGps,
            ExistingGpsPolicy::Overwrite => {
                if writable {
                    WritePlanItemAction::WriteGps
                } else {
                    let mut w = "MVP-1 不写入 .".to_owned();
                    push_str(&mut w, extension);
                    push_str(&mut w, "；HEIC 需平台回归，RAW 将使用后续 XMP 流程。");
                    warnings.push(w);
                    WritePlanItemAction::SkipUnsupportedFormat
                }
            },
        }
    } else if !writable {
        let mut w = "MVP-1 不写入 .".to_owned();
        push_str(&mut w, extension);
        push_str(&mut w, "；仅 JPEG/TIFF 支持复制后写入。");
        warnings.push(w);
        WritePlanItemAction::SkipUnsupportedFormat
    } else {
        WritePlanItemAction::WriteGps
    };
    (action, warnings)
}

/// The photo ids of the items, in order.
pub open spec fn item_ids(items: Seq<WritePlanItem>) -> Seq<u128> {
    items.map_values(|it: WritePlanItem| it.photo_id)
}

/// Reasons to refuse a write-plan request before looking at individual photos.
pub enum PlanRejection {
    NoSelection,
    RelativeDirectory,
    DirectoryClimbs,
    NotADirectory,
    DirectoryUnresolved(AppError),
    UnknownPhoto,
}

pub open spec fn plan_rejection(
    photos: Seq<PlanPhoto>,
    selected: Seq<u128>,
    dir: Seq<char>,
    facts: OutputDirectoryFacts,
    windows: bool,
) -> Option<PlanRejection> {
    if selected.len() == 0 {
        Some(PlanRejection::NoSelection)
    } else if !is_absolute_path(dir, windows) {
        Some(PlanRejection::RelativeDirectory)
    } else if normalized_in(dir, windows) is None {
        Some(PlanRejection::DirectoryClimbs)
    } else if facts.exists && !facts.is_dir {
        Some(PlanRejection::NotADirectory)
    } else if facts.resolved is Err {
        Some(PlanRejection::DirectoryUnresolved(facts.resolved->Err_0))
    } else if exists|id: u128| #[trigger] selected.contains(id) && last_photo_index(photos, id) is None {
        Some(PlanRejection::UnknownPhoto)
    } else {
        None
    }
}

pub open spec fn rejection_error_is(r: PlanRejection, e: AppError) -> bool {
    match r {
        PlanRejection::NoSelection => is_invalid_error(e, "至少选择一张照片后才能生成写入计划。"@),
        PlanRejection::RelativeDirectory => is_invalid_error(e, "输出目录必须是非空绝对路径。"@),
        PlanRejection::DirectoryClimbs => is_climb_error(e),
        PlanRejection::NotADirectory => is_invalid_error(e, "所选输出路径不是目录。"@),
        PlanRejection::DirectoryUnresolved(e0) => e == e0,
        PlanRejection::UnknownPhoto => is_invalid_error(e, "写入选择中包含未在当前项目找到的照片。"@),
    }
}

/// The normalized output directory of an accepted request.
pub open spec fn plan_directory(dir: Seq<char>, windows: bool) -> Seq<char> {
    normalized_in(dir, windows)->Some_0
}

pub open spec fn chosen(photos: Seq<PlanPhoto>, id: u128) -> int {
    last_photo_index(photos, id)->Some_0
}

pub open spec fn target_fails(
    photos: Seq<PlanPhoto>,
    facts: Seq<TargetFacts>,
    options: WriteOptions,
    root: Seq<char>,
    id: u128,
    windows: bool,
) -> bool {
    !(target_check(photos[chosen(photos, id)], facts[chosen(photos, id)], options, root, windows) is Passed)
}

pub open spec fn item_fails(
    photos: Seq<PlanPhoto>,
    matches: Seq<PlanMatch>,
    facts: Seq<TargetFacts>,
    id: u128,
) -> bool {
    item_failure(matches, id, facts[chosen(photos, id)]) is Some
}

/// Whether item `k` of `items` is what the plan prescribes for its photo.
pub open spec fn item_is_planned(
    items: Seq<WritePlanItem>,
    k: int,
    photos: Seq<PlanPhoto>,
    matches: Seq<PlanMatch>,
    facts: Seq<TargetFacts>,
    dir: Seq<char>,
    options: WriteOptions,
    windows: bool,
) -> bool {
    let it = items[k];
    let p = chosen(photos, it.photo_id);
    let photo = photos[p];
    let f = facts[p];
    let duplicate = exists|j: int| 0 <= j < items.len() && j != k && same_in(#[trigger] items[j].output_path@, it.output_path@, windows);
    let same = same_in(f.resolved_source->Ok_0@, f.resolved_output->Ok_0@, windows);
    let writable = is_writable_format_spec(photo.extension@);
    &&& it.photo_index == p
    &&& it.source_path@ == photo.path@
    &&& it.output_path@ == output_path_of(dir, photo, options, windows)
    &&& it.source_fingerprint == photo.fingerprint
    &&& match it.match_index {
        Some(mi) => last_match_index(matches, it.photo_id) == Some(mi as int),
        None => last_match_index(matches, it.photo_id) is None,
    }
    &&& it.has_new_gps == (it.match_index is Some && match_gives_gps(matches[it.match_index->Some_0 as int]))
    &&& it.action == planned_action(duplicate, same, f.output_exists, it.has_new_gps, photo.has_existing_gps, writable, options)
    &&& match planned_warning(duplicate, same, f.output_exists, it.has_new_gps, photo.has_existing_gps, writable, options, photo.extension@) {
        Some(w) => it.warnings.len() == 1 && it.warnings[0]@ == w,
        None => it.warnings.len() == 0,
    }
}

/// What planning gives for a request, a plan id and a creation time (see `build_write_plan`).
pub open spec fn write_plan_outcome(
    photos: Seq<PlanPhoto>,
    matches: Seq<PlanMatch>,
    selected: Seq<u128>,
    output_directory: Seq<char>,
    options: WriteOptions,
    directory_facts: OutputDirectoryFacts,
    target_facts: Seq<TargetFacts>,
    plan_id: u128,
    created_at: i128,
    windows: bool,
    result: Result<WritePlan, AppError>,
) -> bool {
    match plan_rejection(photos, selected, output_directory, directory_facts, windows) {
        Some(r) => result is Err && rejection_error_is(r, result->Err_0),
        None => {
            let root = directory_facts.resolved->Ok_0@;
            let dir = plan_directory(output_directory, windows);
            if exists|id: u128| #[trigger] selected.contains(id) && target_fails(photos, target_facts, options, root, id, windows) {
                &&& result is Err
                &&& exists|id: u128| #[trigger] selected.contains(id)
                    && target_fails(photos, target_facts, options, root, id, windows)
                    && (forall|j: u128| #[trigger] selected.contains(j) && j < id ==> !target_fails(photos, target_facts, options, root, j, windows))
                    && target_error_is(
                        target_check(photos[chosen(photos, id)], target_facts[chosen(photos, id)], options, root, windows),
                        source_name(photos[chosen(photos, id)], options),
                        result->Err_0,
                        windows,
                    )
            } else if exists|id: u128| #[trigger] selected.contains(id) && item_fails(photos, matches, target_facts, id) {
                &&& result is Err
                &&& exists|id: u128| #[trigger] selected.contains(id)
                    && item_fails(photos, matches, target_facts, id)
                    && (forall|j: u128| #[trigger] selected.contains(j) && j < id ==> !item_fails(photos, matches, target_facts, j))
                    && result->Err_0 == item_failure(matches, id, target_facts[chosen(photos, id)])->Some_0
            } else {
                &&& result is Ok
                &&& result->Ok_0.id == plan_id
                &&& result->Ok_0.created_at == created_at
                &&& result->Ok_0.options == options
                &&& result->Ok_0.output_directory@ == dir
                &&& strictly_increasing(item_ids(result->Ok_0.items@))
                &&& forall|id: u128| #[trigger] item_ids(result->Ok_0.items@).contains(id)
                    <==> selected.contains(id)
                &&& forall|k: int| 0 <= k < result->Ok_0.items.len()
                    ==> #[trigger] item_is_planned(result->Ok_0.items@, k, photos, matches, target_facts, dir, options, windows)
                &&& result->Ok_0.writable_count == count_writing(result->Ok_0.items@)
                &&& result->Ok_0.conflict_count == count_conflicts(result->Ok_0.items@)
                &&& result->Ok_0.skipped_count + result->Ok_0.writable_count + result->Ok_0.conflict_count == result->Ok_0.items.len()
            }
        },
    }
}

/// Plans one copy per selected photo into `output_directory`, given what the file system
/// says about the directory (`directory_facts`) and about each photo's source and planned
/// output (`target_facts[i]` for `photos[i]`).
///
/// Requests are refused, in this order, for: an empty selection; a directory that is not
/// absolute; a directory whose `..` climbs above the root; an existing non-directory; a
/// directory that cannot be resolved; a selected id with no photo. Then, in id order, each
/// photo needs a safe name whose output stays inside the resolved directory; then, in id
/// order, writable coordinates must be valid and the source must resolve. Otherwise each
/// photo gets an action: a conflict when two photos share an output, when the output is the
/// source itself, or when it exists and overwriting is off.
#[verifier::loop_isolation(false)]
pub fn build_write_plan(
    photos: &Vec<PlanPhoto>,
    matches: &Vec<PlanMatch>,
    selected_photo_ids: &Vec<u128>,
    output_directory: &str,
    options: WriteOptions,
    directory_facts: &OutputDirectoryFacts,
    target_facts: &Vec<TargetFacts>,
    plan_id: u128,
    created_at: i128,
    windows: bool,
) -> (result: Result<WritePlan, AppError>)
    requires
        target_facts.len() == photos.len(),
    ensures
        write_plan_outcome(photos@, matches@, selected_photo_ids@, output_directory@, options, *directory_facts, target_facts@, plan_id, created_at, windows, result),
{
    if selected_photo_ids.len() == 0 {
        return Err(AppError::invalid("至少选择一张照片后才能生成写入计划。".to_owned()));
    }
    if !is_absolute(output_directory, windows) {
        return Err(AppError::invalid("输出目录必须是非空绝对路径。".to_owned()));
    }
    let dir = match normalize_absolute(output_directory, windows) {
        Err(e) => return Err(e),
        Ok(d) => d,
    };
    if directory_facts.exists && !directory_facts.is_dir {
        return Err(AppError::invalid("所选输出路径不是目录。".to_owned()));
    }
    let root = match &directory_facts.resolved {
        Err(e) => return Err(e.clone()),
        Ok(r) => r,
    };
    let order = sorted_unique(selected_photo_ids);
    let mut picked: Vec<usize> = Vec::new();
    let mut k: usize = 0;
    while k < order.len()
        invariant
            k <= order.len(),
            picked.len() == k,
            forall|j: int| 0 <= j < k ==> last_photo_index(photos@, order@[j]) == Some(#[trigger] picked@[j] as int),
            forall|j: int| 0 <= j < k ==> (#[trigger] picked@[j]) < photos.len(),
        decreases order.len() - k,
    {
        match find_last_photo(photos, order[k]) {
            None => {
                assert(order@.contains(order@[k as int]));
                assert(selected_photo_ids@.contains(order@[k as int]) && last_photo_index(photos@, order@[k as int]) is None);
                return Err(AppError::invalid("写入选择中包含未在当前项目找到的照片。".to_owned()));
            },
            Some(p) => {
                proof { lemma_last_photo_index(photos@, order@[k as int]); }
                picked.push(p);
            },
        }
        k = k + 1;
    }
    assert forall|id: u128| #[trigger] selected_photo_ids@.contains(id) implies last_photo_index(photos@, id) is Some by {
        assert(order@.contains(id));
        let j = choose|j: int| 0 <= j < order.len() && order@[j] == id;
        assert(last_photo_index(photos@, order@[j]) == Some(picked@[j] as int));
    }

    let ghost rootv = root@;
    let ghost dirv = plan_directory(output_directory@, windows);
    let outputs = match check_targets(photos, target_facts, options, &dir, root, &order, &picked, Ghost(selected_photo_ids@), windows) {
        Err(e) => return Err(e),
        Ok(o) => o,
    };
    let items = match plan_items(photos, matches, target_facts, options, &outputs, &order, &picked, Ghost(selected_photo_ids@), Ghost(dirv), Ghost(rootv), windows) {
        Err(e) => return Err(e),
        Ok(items) => items,
    };
    let (writable, conflicts) = count_actions(&items);
    proof { lemma_items_planned(items@, outputs@, order@, selected_photo_ids@, photos@, matches@, target_facts@, dirv, options, windows); }
    let skipped = items.len() - writable - conflicts;
    Ok(WritePlan {
        id: plan_id,
        created_at,
        output_directory: dir,
        options,
        items,
        writable_count: writable,
        skipped_count: skipped,
        conflict_count: conflicts,
    })
}

/// Every selected photo (in id order) has a safe name and an output inside the root; the
/// outputs are returned, or the error of the first photo that fails.
#[verifier::loop_isolation(false)]
fn check_targets(
    photos: &Vec<PlanPhoto>,
    target_facts: &Vec<TargetFacts>,
    options: WriteOptions,
    dir: &String,
    root: &String,
    order: &Vec<u128>,
    picked: &Vec<usize>,
    selected: Ghost<Seq<u128>>,
    windows: bool,
) -> (result: Result<Vec<String>, AppError>)
    requires
        target_facts.len() == photos.len(),
        strictly_increasing(order@),
        forall|x: u128| #[trigger] order@.contains(x) <==> selected@.contains(x),
        picked.len() == order.len(),
        forall|j: int| 0 <= j < order.len() ==> last_photo_index(photos@, order@[j]) == Some(#[trigger] picked@[j] as int),
        forall|j: int| 0 <= j < order.len() ==> (#[trigger] picked@[j]) < photos.len(),
    ensures
        match result {
            Err(e) => exists|id: u128| #[trigger] selected@.contains(id)
                && target_fails(photos@, target_facts@, options, root@, id, windows)
                && (forall|j: u128| #[trigger] selected@.contains(j) && j < id ==> !target_fails(photos@, target_facts@, options, root@, j, windows))
                && target_error_is(
                    target_check(photos@[chosen(photos@, id)], target_facts@[chosen(photos@, id)], options, root@, windows),
                    source_name(photos@[chosen(photos@, id)], options),
                    e,
                    windows,
                ),
            Ok(outputs) => {
                &&& outputs.len() == order.len()
                &&& forall|id: u128| #[trigger] selected@.contains(id) ==> !target_fails(photos@, target_facts@, options, root@, id, windows)
                &&& forall|j: int| 0 <= j < order.len() ==> (#[trigger] outputs@[j])@ == joined_in(dir@, relative_in(source_name(photos@[picked@[j] as int], options), windows)->Ok_0, windows)
            },
        },
{
    let ghost rootv = root@;
    let mut outputs: Vec<String> = Vec::new();
    let mut k: usize = 0;
    while k < order.len()
        invariant
            k <= order.len(),
            outputs.len() == k,
            forall|j: int| 0 <= j < k ==> !target_fails(photos@, target_facts@, options, rootv, #[trigger] order@[j], windows),
            forall|j: int| 0 <= j < k ==> (#[trigger] outputs@[j])@ == joined_in(dir@, relative_in(source_name(photos@[picked@[j] as int], options), windows)->Ok_0, windows),
        decreases order.len() - k,
    {
        let p = picked[k];
        let photo = &photos[p];
        let name = if options.preserve_relative_paths { &photo.relative_path } else { &photo.file_name };
        let rel = match safe_relative_path(name.as_str(), windows) {
            Err(e) => {
                proof { lemma_first_in_order(order@, selected@, k as int, |id: u128| target_fails(photos@, target_facts@, options, rootv, id, windows)); }
                return Err(e);
            },
            Ok(r) => r,
        };
        let out = join_path(dir.as_str(), rel.as_str(), windows);
        let facts = &target_facts[p];
        match &facts.resolved_output {
            Err(e) => {
                proof { lemma_first_in_order(order@, selected@, k as int, |id: u128| target_fails(photos@, target_facts@, options, rootv, id, windows)); }
                return Err(e.clone());
            },
            Ok(r) => {
                if !path_starts_with(r.as_str(), root.as_str(), windows) {
                    proof { lemma_first_in_order(order@, selected@, k as int, |id: u128| target_fails(photos@, target_facts@, options, rootv, id, windows)); }
                    return Err(error_of(
                        ErrorCode::PathOutsideScope,
                        "照片输出路径离开了所选输出目录。",
                        "请重新扫描照片并重新生成写入计划。",
                        true,
                    ));
                }
            },
        }
        outputs.push(out);
        k = k + 1;
    }
    assert forall|id: u128| #[trigger] selected@.contains(id) implies !target_fails(photos@, target_facts@, options, rootv, id, windows) by {
        assert(order@.contains(id));
        let j = choose|j: int| 0 <= j < order.len() && order@[j] == id;
        assert(!target_fails(photos@, target_facts@, options, rootv, order@[j], windows));
    }
    Ok(outputs)
}

/// Decides each selected photo's item (in id order), or returns the error of the first
/// photo whose coordinates are invalid or whose source does not resolve.
#[verifier::loop_isolation(false)]
fn plan_items(
    photos: &Vec<PlanPhoto>,
    matches: &Vec<PlanMatch>,
    target_facts: &Vec<TargetFacts>,
    options: WriteOptions,
    outputs: &Vec<String>,
    order: &Vec<u128>,
    picked: &Vec<usize>,
    selected: Ghost<Seq<u128>>,
    dirv: Ghost<Seq<char>>,
    rootv: Ghost<Seq<char>>,
    windows: bool,
) -> (result: Result<Vec<WritePlanItem>, AppError>)
    requires
        target_facts.len() == photos.len(),
        strictly_increasing(order@),
        forall|x: u128| #[trigger] order@.contains(x) <==> selected@.contains(x),
        picked.len() == order.len(),
        outputs.len() == order.len(),
        forall|j: int| 0 <= j < order.len() ==> last_photo_index(photos@, order@[j]) == Some(#[trigger] picked@[j] as int),
        forall|j: int| 0 <= j < order.len() ==> (#[trigger] picked@[j]) < photos.len(),
        forall|id: u128| #[trigger] selected@.contains(id) ==> !target_fails(photos@, target_facts@, options, rootv@, id, windows),
        forall|j: int| 0 <= j < order.len() ==> (#[trigger] outputs@[j])@ == output_path_of(dirv@, photos@[picked@[j] as int], options, windows),
    ensures
        match result {
            Err(e) => exists|id: u128| #[trigger] selected@.contains(id)
                && item_fails(photos@, matches@, target_facts@, id)
                && (forall|j: u128| #[trigger] selected@.contains(j) && j < id ==> !item_fails(photos@, matches@, target_facts@, j))
                && e == item_failure(matches@, id, target_facts@[chosen(photos@, id)])->Some_0,
            Ok(items) => items_decided(items@, outputs@, order@, selected@, photos@, matches@, target_facts@, dirv@, options, windows),
        },
{
    let mut items: Vec<WritePlanItem> = Vec::new();
    let mut k: usize = 0;
    while k < order.len()
        invariant
            k <= order.len(),
            items.len() == k,
            forall|j: int| 0 <= j < k ==> !item_fails(photos@, matches@, target_facts@, #[trigger] order@[j]),
            forall|j: int| 0 <= j < k ==> #[trigger] items@[j].photo_id == order@[j]
                && items@[j].output_path == outputs@[j]
                && item_matches_outputs(items@[j], outputs@, j, photos@, matches@, target_facts@, dirv@, options, windows),
        decreases order.len() - k,
    {
        let id = order[k];
        let p = picked[k];
        let photo = &photos[p];
        let facts = &target_facts[p];
        assert(order@.contains(id));
        assert(!target_fails(photos@, target_facts@, options, rootv@, id, windows));
        assert(chosen(photos@, id) == p as int);
        let mi = find_last_match(matches, id);
        proof { lemma_last_match_index(matches@, id); }
        let has_gps = match mi {
            Some(i) => gives_gps(&matches[i]),
            None => false,
        };
        if has_gps {
            let m = &matches[mi.unwrap()];
            match &m.coordinate_error {
                Some(e) => {
                    proof { lemma_first_in_order(order@, selected@, k as int, |x: u128| item_fails(photos@, matches@, target_facts@, x)); }
                    assert(item_failure(matches@, id, target_facts@[p as int]) == Some(*e));
                    return Err(e.clone());
                },
                None => {},
            }
        }
        let source_resolved = match &facts.resolved_source {
            Err(e) => {
                proof { lemma_first_in_order(order@, selected@, k as int, |x: u128| item_fails(photos@, matches@, target_facts@, x)); }
                assert(item_failure(matches@, id, target_facts@[p as int]) == Some(*e));
                return Err(e.clone());
            },
            Ok(r) => r,
        };
        let output_resolved = match &facts.resolved_output {
            Err(e) => {
                assert(false);
                return Err(e.clone());
            },
            Ok(r) => r,
        };
        let duplicate = has_duplicate(outputs, k, windows);
        let same = paths_equal(source_resolved.as_str(), output_resolved.as_str(), windows);
        let decision = decide_item(
            duplicate,
            same,
            facts.output_exists,
            has_gps,
            photo.has_existing_gps,
            photo.extension.as_str(),
            options,
        );
        let item = WritePlanItem {
            photo_id: id,
            photo_index: p,
            match_index: mi,
            has_new_gps: has_gps,
            source_path: photo.path.clone(),
            output_path: outputs[k].clone(),
            source_fingerprint: photo.fingerprint.clone(),
            action: decision.0,
            warnings: decision.1,
        };
        assert(item_matches_outputs(item, outputs@, k as int, photos@, matches@, target_facts@, dirv@, options, windows));
        let ghost before = items@;
        let ghost this = item;
        items.push(item);
        k = k + 1;
        assert forall|j: int| 0 <= j < k implies #[trigger] items@[j].photo_id == order@[j]
            && items@[j].output_path == outputs@[j]
            && item_matches_outputs(items@[j], outputs@, j, photos@, matches@, target_facts@, dirv@, options, windows) by {
            if j < k - 1 {
                assert(items@[j] == before[j]);
                assert(before[j].photo_id == order@[j]);
                assert(item_matches_outputs(before[j], outputs@, j, photos@, matches@, target_facts@, dirv@, options, windows));
            } else {
                assert(items@[j] == this);
                assert(item_matches_outputs(this, outputs@, j, photos@, matches@, target_facts@, dirv@, options, windows));
            }
        }
    }
    assert forall|id: u128| #[trigger] selected@.contains(id) implies !item_fails(photos@, matches@, target_facts@, id) by {
        assert(order@.contains(id));
        let j = choose|j: int| 0 <= j < order.len() && order@[j] == id;
        assert(!item_fails(photos@, matches@, target_facts@, order@[j]));
    }
    assert(items.len() == order.len());
    assert(forall|j: int| 0 <= j < order.len() ==> #[trigger] items@[j].photo_id == order@[j]
                    && items@[j].output_path == outputs@[j]
                    && item_matches_outputs(items@[j], outputs@, j, photos@, matches@, target_facts@, dirv@, options, windows));
    Ok(items)
}

/// The items are decided, in id order, for photos that all pass both checks.
pub open spec fn items_decided(
    items: Seq<WritePlanItem>,
    outputs: Seq<String>,
    order: Seq<u128>,
    selected: Seq<u128>,
    photos: Seq<PlanPhoto>,
    matches: Seq<PlanMatch>,
    facts: Seq<TargetFacts>,
    dir: Seq<char>,
    options: WriteOptions,
    windows: bool,
) -> bool {
    &&& items.len() == order.len()
    &&& forall|id: u128| #[trigger] selected.contains(id) ==> !item_fails(photos, matches, facts, id)
    &&& forall|j: int| 0 <= j < order.len() ==> #[trigger] items[j].photo_id == order[j]
        && items[j].output_path == outputs[j]
        && item_matches_outputs(items[j], outputs, j, photos, matches, facts, dir, options, windows)
}

/// The numbers of writing items and of conflicts.
fn count_actions(items: &Vec<WritePlanItem>) -> (counts: (usize, usize))
    ensures
        counts.0 == count_writing(items@),
        counts.1 == count_conflicts(items@),
        counts.0 + counts.1 <= items.len(),
{
    let mut writable: usize = 0;
    let mut conflicts: usize = 0;
    let mut i: usize = 0;
    while i < items.len()
        invariant
            i <= items.len(),
            writable == count_writing(items@.take(i as int)),
            conflicts == count_conflicts(items@.take(i as int)),
            writable + conflicts <= i,
        decreases items.len() - i,
    {
        assert(items@.take(i + 1).drop_last() =~= items@.take(i as int));
        match items[i].action {
            WritePlanItemAction::WriteGps | WritePlanItemAction::PreserveExistingGps => {
                writable = writable + 1;
            },
            WritePlanItemAction::Conflict => {
                conflicts = conflicts + 1;
            },
            _ => {},
        }
        i = i + 1;
    }
    assert(items@.take(items.len() as int) =~= items@);
    (writable, conflicts)
}

/// Items decided against their outputs are the planned items.
proof fn lemma_items_planned(
    items: Seq<WritePlanItem>,
    outputs: Seq<String>,
    order: Seq<u128>,
    selected: Seq<u128>,
    photos: Seq<PlanPhoto>,
    matches: Seq<PlanMatch>,
    facts: Seq<TargetFacts>,
    dir: Seq<char>,
    options: WriteOptions,
    windows: bool,
)
    requires
        outputs.len() == order.len(),
        items_decided(items, outputs, order, selected, photos, matches, facts, dir, options, windows),
    ensures
        item_ids(items) =~= order,
        forall|k: int| 0 <= k < items.len() ==> #[trigger] item_is_planned(items, k, photos, matches, facts, dir, options, windows),
{
    assert forall|j: int| 0 <= j < items.len() implies #[trigger] items[j].output_path@ == outputs[j]@ by {
        assert(items[j].photo_id == order[j]);
    }
    assert forall|j: int| 0 <= j < items.len() implies #[trigger] item_ids(items)[j] == order[j] by {
        assert(items[j].photo_id == order[j]);
    }
    assert forall|k: int| 0 <= k < items.len() implies #[trigger] item_is_planned(items, k, photos, matches, facts, dir, options, windows) by {
        assert(items[k].photo_id == order[k]);
        let d1 = duplicate_at(outputs, k, windows);
        let d2 = exists|j: int| 0 <= j < items.len() && j != k && same_in(#[trigger] items[j].output_path@, items[k].output_path@, windows);
        if d1 {
            let j = choose|j: int| 0 <= j < outputs.len() && j != k && same_in(#[trigger] outputs[j]@, outputs[k]@, windows);
            assert(items[j].output_path@ == outputs[j]@);
        }
        if d2 {
            let j = choose|j: int| 0 <= j < items.len() && j != k && same_in(#[trigger] items[j].output_path@, items[k].output_path@, windows);
            assert(items[j].output_path@ == outputs[j]@);
            assert(same_in(outputs[j]@, outputs[k]@, windows));
        }
        assert(d1 == d2);
    }
}

/// Whether another output in `outputs` names the same path as `outputs[k]`.
pub open spec fn duplicate_at(outputs: Seq<String>, k: int, windows: bool) -> bool {
    exists|j: int| 0 <= j < outputs.len() && j != k && same_in(#[trigger] outputs[j]@, outputs[k]@, windows)
}

fn has_duplicate(outputs: &Vec<String>, k: usize, windows: bool) -> (b: bool)
    requires
        k < outputs.len(),
    ensures
        b == duplicate_at(outputs@, k as int, windows),
{
    let mut j: usize = 0;
    while j < outputs.len()
        invariant
            j <= outputs.len(),
            k < outputs.len(),
            forall|i: int| 0 <= i < j && i != k ==> !same_in(#[trigger] outputs@[i]@, outputs@[k as int]@, windows),
        decreases outputs.len() - j,
    {
        if j != k && paths_equal(outputs[j].as_str(), outputs[k].as_str(), windows) {
            return true;
        }
        j = j + 1;
    }
    false
}

/// [`item_is_planned`] with duplicates judged among the given outputs.
pub open spec fn item_matches_outputs(
    it: WritePlanItem,
    outputs: Seq<String>,
    k: int,
    photos: Seq<PlanPhoto>,
    matches: Seq<PlanMatch>,
    facts: Seq<TargetFacts>,
    dir: Seq<char>,
    options: WriteOptions,
    windows: bool,
) -> bool {
    let p = chosen(photos, it.photo_id);
    let photo = photos[p];
    let f = facts[p];
    let duplicate = duplicate_at(outputs, k, windows);
    let same = same_in(f.resolved_source->Ok_0@, f.resolved_output->Ok_0@, windows);
    let writable = is_writable_format_spec(photo.extension@);
    &&& it.photo_index == p
    &&& it.source_path@ == photo.path@
    &&& it.output_path@ == output_path_of(dir, photo, options, windows)
    &&& it.source_fingerprint == photo.fingerprint
    &&& match it.match_index {
        Some(mi) => last_match_index(matches, it.photo_id) == Some(mi as int),
        None => last_match_index(matches, it.photo_id) is None,
    }
    &&& it.has_new_gps == (it.match_index is Some && match_gives_gps(matches[it.match_index->Some_0 as int]))
    &&& it.action == planned_action(duplicate, same, f.output_exists, it.has_new_gps, photo.has_existing_gps, writable, options)
    &&& match planned_warning(duplicate, same, f.output_exists, it.has_new_gps, photo.has_existing_gps, writable, options, photo.extension@) {
        Some(w) => it.warnings.len() == 1 && it.warnings[0]@ == w,
        None => it.warnings.len() == 0,
    }
}

/// In a strictly increasing enumeration of a selection, the first position satisfying a
/// property holds the smallest selected value satisfying it.
pub proof fn lemma_first_in_order(order: Seq<u128>, selected: Seq<u128>, k: int, bad: spec_fn(u128) -> bool)
    requires
        strictly_increasing(order),
        forall|x: u128| #[trigger] order.contains(x) <==> selected.contains(x),
        0 <= k < order.len(),
        forall|j: int| 0 <= j < k ==> !bad(#[trigger] order[j]),
    ensures
        selected.contains(order[k]),
        forall|x: u128| #[trigger] selected.contains(x) && x < order[k] ==> !bad(x),
{
    assert(order.contains(order[k]));
    assert forall|x: u128| #[trigger] selected.contains(x) && x < order[k] implies !bad(x) by {
        assert(order.contains(x));
        let j = choose|j: int| 0 <= j < order.len() && order[j] == x;
        if j >= k {
            if j > k {
                assert(order[k] < order[j]);
            }
        }
    }
}

/// Plans under a fresh random id, created now (see `build_write_plan`).
pub fn new_write_plan(
    photos: &Vec<PlanPhoto>,
    matches: &Vec<PlanMatch>,
    selected_photo_ids: &Vec<u128>,
    output_directory: &str,
    options: WriteOptions,
    directory_facts: &OutputDirectoryFacts,
    target_facts: &Vec<TargetFacts>,
    windows: bool,
) -> (result: Result<WritePlan, AppError>)
    requires
        target_facts.len() == photos.len(),
    ensures
        exists|plan_id: u128, created_at: i128| #![trigger write_plan_outcome(photos@, matches@, selected_photo_ids@, output_directory@, options, *directory_facts, target_facts@, plan_id, created_at, windows, result)]
            is_plausible_instant(created_at as int)
            && write_plan_outcome(photos@, matches@, selected_photo_ids@, output_directory@, options, *directory_facts, target_facts@, plan_id, created_at, windows, result),
{
    let plan_id = crate::project::random_id();
    let created_at = crate::project::now_instant();
    let result = build_write_plan(photos, matches, selected_photo_ids, output_directory, options, directory_facts, target_facts, plan_id, created_at, windows);
    assert(write_plan_outcome(photos@, matches@, selected_photo_ids@, output_directory@, options, *directory_facts, target_facts@, plan_id, created_at, windows, result));
    result
}

/// A planned item that is not a conflict never writes over its own source, and no other item
/// of the plan writes to the same output.
pub proof fn law_planned_output_is_never_a_source(
    items: Seq<WritePlanItem>,
    k: int,
    photos: Seq<PlanPhoto>,
    matches: Seq<PlanMatch>,
    facts: Seq<TargetFacts>,
    dir: Seq<char>,
    options: WriteOptions,
    windows: bool,
)
    requires
        0 <= k < items.len(),
        item_is_planned(items, k, photos, matches, facts, dir, options, windows),
        items[k].action != WritePlanItemAction::Conflict,
    ensures
        !same_in(
            facts[chosen(photos, items[k].photo_id)].resolved_source->Ok_0@,
            facts[chosen(photos, items[k].photo_id)].resolved_output->Ok_0@,
            windows,
        ),
        forall|j: int| 0 <= j < items.len() && j != k ==> !same_in(#[trigger] items[j].output_path@, items[k].output_path@, windows),
{
}

/// With the overwrite policy, a photo that has GPS to write, a writable format and no conflict
/// gets its matched GPS written, whether or not it already has GPS; keeping the old GPS only
/// ever comes from the preserve policy, for a photo that has GPS of its own.
pub proof fn law_overwrite_policy_writes_matched_gps(
    duplicate: bool,
    same_as_source: bool,
    output_exists: bool,
    has_gps: bool,
    has_existing_gps: bool,
    writable: bool,
    options: WriteOptions,
)
    ensures
        options.existing_gps_policy == ExistingGpsPolicy::Overwrite && !duplicate && !same_as_source
            && (!output_exists || options.overwrite_output) && has_gps && writable
            ==> planned_action(duplicate, same_as_source, output_exists, has_gps, has_existing_gps, writable, options)
                == WritePlanItemAction::WriteGps,
        planned_action(duplicate, same_as_source, output_exists, has_gps, has_existing_gps, writable, options)
            == WritePlanItemAction::PreserveExistingGps
            ==> options.existing_gps_policy == ExistingGpsPolicy::Preserve && has_existing_gps,
{
}

/// The existing-GPS policy concerns only photos that already have GPS: for any other photo
/// the action is the same under every policy.
pub proof fn law_policy_matters_only_for_existing_gps(
    duplicate: bool,
    same_as_source: bool,
    output_exists: bool,
    has_gps: bool,
    writable: bool,
    a: WriteOptions,
    b: WriteOptions,
)
    requires
        a.overwrite_output == b.overwrite_output,
    ensures
        planned_action(duplicate, same_as_source, output_exists, has_gps, false, writable, a)
            == planned_action(duplicate, same_as_source, output_exists, has_gps, false, writable, b),
{
}

/// What each combination of facts gives: any conflict (a shared output, the source itself,
/// an existing output without overwriting) wins; then a photo without GPS to write is skipped;
/// then a photo with GPS of its own follows the policy (skip, keep, or overwrite when the
/// format is writable); any other photo is written when its format is writable.
pub proof fn law_action_follows_conflicts_then_policy(
    duplicate: bool,
    same_as_source: bool,
    output_exists: bool,
    has_gps: bool,
    has_existing_gps: bool,
    writable: bool,
    options: WriteOptions,
)
    ensures
        ({
            let a = planned_action(duplicate, same_as_source, output_exists, has_gps, has_existing_gps, writable, options);
            let conflict = duplicate || same_as_source || (output_exists && !options.overwrite_output);
            &&& conflict <==> a == WritePlanItemAction::Conflict
            &&& !conflict && !has_gps ==> a == WritePlanItemAction::SkipNoMatch
            &&& !conflict && has_gps && has_existing_gps && options.existing_gps_policy == ExistingGpsPolicy::Skip
                ==> a == WritePlanItemAction::SkipExistingGps
            &&& !conflict && has_gps && has_existing_gps && options.existing_gps_policy == ExistingGpsPolicy::Preserve
                ==> a == WritePlanItemAction::PreserveExistingGps
            &&& !conflict && has_gps && !writable && (!has_existing_gps || options.existing_gps_policy == ExistingGpsPolicy::Overwrite)
                ==> a == WritePlanItemAction::SkipUnsupportedFormat
            &&& !conflict && has_gps && !has_existing_gps && writable ==> a == WritePlanItemAction::WriteGps
            &&& !conflict && has_gps && has_existing_gps && writable && options.existing_gps_policy == ExistingGpsPolicy::Overwrite
                ==> a == WritePlanItemAction::WriteGps
        }),
{
}

} // verus!
