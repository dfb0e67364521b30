use vstd::prelude::*;
use crate::collections::{id_order, is_id_order};
use crate::domain::{MatchStatus, WriteItemStatus};
use crate::error::{AppError, is_invalid_error};
use crate::paths::{extension, extension_of_name, file_name_in, is_absolute, is_absolute_path};
use crate::text::{ascii_lower_seq, push_str, str_equal, to_ascii_lowercase, trim_spaces, trimmed};

verus! {

/// The file format of an exported report.
#[derive(Debug, Clone, Copy, PartialEq, Eq, Structural)]
pub enum ReportFormat {
    Csv,
    Json,
}

/// Where and in which format to export the report.
#[derive(Debug)]
pub struct ExportReportRequest {
    pub format: ReportFormat,
    pub target_path: String,
}

/// An exported report: its format, where it was written and how many photo records it holds.
#[derive(Debug)]
pub struct ExportResult {
    pub format: ReportFormat,
    pub target_path: String,
    pub record_count: usize,
}

/// The extension a report file of this format must have.
pub open spec fn format_extension(format: ReportFormat) -> Seq<char> {
    match format {
        ReportFormat::Csv => "csv"@,
        ReportFormat::Json => "json"@,
    }
}

pub fn report_extension(format: ReportFormat) -> (ext: &'static str)
    ensures
        ext@ == format_extension(format),
{
    match format {
        ReportFormat::Csv => "csv",
        ReportFormat::Json => "json",
    }
}

/// The extension of the target's file name, in ASCII lower case.
pub open spec fn target_extension(target: Seq<char>, windows: bool) -> Option<Seq<char>> {
    match file_name_in(target, windows) {
        None => None,
        Some(name) => match extension_of_name(name) {
            None => None,
            Some(e) => Some(ascii_lower_seq(e)),
        },
    }
}

/// Why a report target is refused, if it is: a wrong extension first, then a blank or
/// relative path.
pub open spec fn target_refusal(request: ExportReportRequest, windows: bool) -> Option<Seq<char>> {
    let expected = format_extension(request.format);
    if target_extension(request.target_path@, windows) != Some(expected) {
        Some("报告文件扩展名必须为 ."@ + expected + "。"@)
    } else if trimmed(request.target_path@).len() == 0 || !is_absolute_path(request.target_path@, windows) {
        Some("报告目标必须是非空绝对路径。"@)
    } else {
        None
    }
}

/// Checks a report target: its extension must match the format (in any case), and it must be
/// a non-blank absolute path.
pub fn check_report_target(request: &ExportReportRequest, windows: bool) -> (result: Result<(), AppError>)
    ensures
        match target_refusal(*request, windows) {
            None => result is Ok,
            Some(m) => result is Err && is_invalid_error(result->Err_0, m),
        },
{
    let expected = report_extension(request.format);
    let actual = match extension(request.target_path.as_str(), windows) {
        None => None,
        Some(e) => Some(to_ascii_lowercase(e.as_str())),
    };
    let matches = match &actual {
        None => false,
        Some(a) => str_equal(a.as_str(), expected),
    };
    if !matches {
        let mut message = "报告文件扩展名必须为 .".to_owned();
        push_str(&mut message, expected);
        push_str(&mut message, "。");
        return Err(AppError::invalid(message));
    }
    let trimmed_target = trim_spaces(request.target_path.as_str());
    if trimmed_target.as_str().is_empty() || !is_absolute(request.target_path.as_str(), windows) {
        return Err(AppError::invalid("报告目标必须是非空绝对路径。".to_owned()));
    }
    Ok(())
}

// ---------------------------------------------------------------------------------------------
// Report records
// ---------------------------------------------------------------------------------------------

/// What a photo's report record is drawn from: the photo, its match (the last one recorded for
/// it) and the status of the last write result recorded for it.
#[derive(Debug, Clone, Copy, PartialEq, Eq, Structural)]
pub struct RecordLinks {
    pub photo_id: u128,
    pub photo_index: usize,
    pub match_index: Option<usize>,
    pub latest_write_status: Option<WriteItemStatus>,
}

/// The last position holding `id`.
pub open spec fn last_position(ids: Seq<u128>, id: u128) -> Option<int>
    decreases ids.len(),
{
    if ids.len() == 0 {
        None
    } else if ids.last() == id {
        Some(ids.len() - 1)
    } else {
        last_position(ids.drop_last(), id)
    }
}

/// The status of the last write result for `id` in a write job's results.
pub open spec fn last_status_in(results: Seq<(u128, WriteItemStatus)>, id: u128) -> Option<WriteItemStatus>
    decreases results.len(),
{
    if results.len() == 0 {
        None
    } else if results.last().0 == id {
        Some(results.last().1)
    } else {
        last_status_in(results.drop_last(), id)
    }
}

/// The status of the last write result for `id` over the write history (jobs in order).
pub open spec fn latest_status(history: Seq<Seq<(u128, WriteItemStatus)>>, id: u128) -> Option<WriteItemStatus>
    decreases history.len(),
{
    if history.len() == 0 {
        None
    } else {
        match last_status_in(history.last(), id) {
            Some(s) => Some(s),
            None => latest_status(history.drop_last(), id),
        }
    }
}

pub open spec fn history_view(history: Seq<Vec<(u128, WriteItemStatus)>>) -> Seq<Seq<(u128, WriteItemStatus)>> {
    history.map_values(|v: Vec<(u128, WriteItemStatus)>| v@)
}

/// The links of the photo at position `k`.
pub open spec fn links_of(photo_ids: Seq<u128>, match_ids: Seq<u128>, history: Seq<Seq<(u128, WriteItemStatus)>>, k: int) -> RecordLinks {
    RecordLinks {
        photo_id: photo_ids[k],
        photo_index: k as usize,
        match_index: match last_position(match_ids, photo_ids[k]) {
            Some(m) => Some(m as usize),
            None => None,
        },
        latest_write_status: latest_status(history, photo_ids[k]),
    }
}

fn last_position_exec(ids: &Vec<u128>, id: u128) -> (found: Option<usize>)
    ensures
        match found {
            Some(m) => last_position(ids@, id) == Some(m as int),
            None => last_position(ids@, id) is None,
        },
{
    let mut i: usize = ids.len();
    assert(ids@.take(i as int) =~= ids@);
    while i > 0
        invariant
            i <= ids.len(),
            last_position(ids@, id) == last_position(ids@.take(i as int), id),
        decreases i,
    {
        assert(ids@.take(i as int).drop_last() =~= ids@.take(i - 1));
        if ids[i - 1] == id {
            return Some(i - 1);
        }
        i = i - 1;
    }
    None
}

fn latest_status_exec(history: &Vec<Vec<(u128, WriteItemStatus)>>, id: u128) -> (status: Option<WriteItemStatus>)
    ensures
        status == latest_status(history_view(history@), id),
{
    let ghost hv = history_view(history@);
    let mut j: usize = history.len();
    assert(hv.take(j as int) =~= hv);
    while j > 0
        invariant
            j <= history.len(),
            hv == history_view(history@),
            latest_status(hv, id) == latest_status(hv.take(j as int), id),
        decreases j,
    {
        assert(hv.take(j as int).drop_last() =~= hv.take(j - 1));
        let results = &history[j - 1];
        assert(hv.take(j as int).last() == results@);
        let mut i: usize = results.len();
        assert(results@.take(i as int) =~= results@);
        while i > 0
            invariant
                i <= results.len(),
                0 < j <= history.len(),
                hv == history_view(history@),
                latest_status(hv, id) == latest_status(hv.take(j as int), id),
                hv.take(j as int).last() == results@,
                hv.take(j as int).drop_last() == hv.take(j - 1),
                last_status_in(results@, id) == last_status_in(results@.take(i as int), id),
            decreases i,
        {
            assert(results@.take(i as int).drop_last() =~= results@.take(i - 1));
            if results[i - 1].0 == id {
                return Some(results[i - 1].1);
            }
            i = i - 1;
        }
        j = j - 1;
    }
    None
}

/// One record's links per photo, ordered by photo id (photos with the same id in their order
/// in the project).
pub open spec fn links_are(photo_ids: Seq<u128>, match_ids: Seq<u128>, history: Seq<Seq<(u128, WriteItemStatus)>>, links: Seq<RecordLinks>) -> bool {
    exists|order: Seq<usize>| {
        &&& #[trigger] is_id_order(photo_ids, order)
        &&& links.len() == photo_ids.len()
        &&& forall|p: int| 0 <= p < links.len() ==> #[trigger] links[p] == links_of(photo_ids, match_ids, history, order[p] as int)
    }
}

/// The links of every photo's report record, ordered by photo id (photos with the same id in
/// their order in the project).
pub fn build_record_links(
    photo_ids: &Vec<u128>,
    match_ids: &Vec<u128>,
    write_history: &Vec<Vec<(u128, WriteItemStatus)>>,
) -> (links: Vec<RecordLinks>)
    ensures
        links_are(photo_ids@, match_ids@, history_view(write_history@), links@),
{
    let order = id_order(photo_ids);
    let mut links: Vec<RecordLinks> = Vec::new();
    let mut p: usize = 0;
    while p < order.len()
        invariant
            p <= order.len() == photo_ids.len(),
            is_id_order(photo_ids@, order@),
            links.len() == p,
            forall|q: int| 0 <= q < p ==> #[trigger] links@[q] == links_of(photo_ids@, match_ids@, history_view(write_history@), order@[q] as int),
        decreases order.len() - p,
    {
        let k = order[p];
        let id = photo_ids[k];
        let match_index = last_position_exec(match_ids, id);
        let latest_write_status = latest_status_exec(write_history, id);
        links.push(RecordLinks { photo_id: id, photo_index: k, match_index, latest_write_status });
        p = p + 1;
    }
    assert(links_are(photo_ids@, match_ids@, history_view(write_history@), links@));
    links
}

// ---------------------------------------------------------------------------------------------
// Diagnostic summary
// ---------------------------------------------------------------------------------------------

/// Counts that describe a project without naming any photo.
#[derive(Debug)]
pub struct DiagnosticSummary {
    pub schema_version: u32,
    pub track_count: usize,
    pub photo_count: usize,
    /// Number of matches per status name, by name in increasing order; statuses without
    /// matches are left out.
    pub match_status_counts: Vec<(String, usize)>,
    pub write_job_count: usize,
}

/// How a match status is named in reports.
pub open spec fn status_name(status: MatchStatus) -> Seq<char> {
    match status {
        MatchStatus::MatchedHigh => "MATCHED_HIGH"@,
        MatchStatus::MatchedMedium => "MATCHED_MEDIUM"@,
        MatchStatus::MatchedLow => "MATCHED_LOW"@,
        MatchStatus::OutOfRange => "OUT_OF_RANGE"@,
        MatchStatus::NoCaptureTime => "NO_CAPTURE_TIME"@,
        MatchStatus::SegmentGap => "SEGMENT_GAP"@,
        MatchStatus::AlreadyHasGps => "ALREADY_HAS_GPS"@,
    }
}

pub fn status_name_text(status: MatchStatus) -> (name: &'static str)
    ensures
        name@ == status_name(status),
{
    match status {
        MatchStatus::MatchedHigh => "MATCHED_HIGH",
        MatchStatus::MatchedMedium => "MATCHED_MEDIUM",
        MatchStatus::MatchedLow => "MATCHED_LOW",
        MatchStatus::OutOfRange => "OUT_OF_RANGE",
        MatchStatus::NoCaptureTime => "NO_CAPTURE_TIME",
        MatchStatus::SegmentGap => "SEGMENT_GAP",
        MatchStatus::AlreadyHasGps => "ALREADY_HAS_GPS",
    }
}

/// The statuses by name in increasing order.
pub open spec fn statuses_by_name() -> Seq<MatchStatus> {
    seq![
        MatchStatus::AlreadyHasGps,
        MatchStatus::MatchedHigh,
        MatchStatus::MatchedLow,
        MatchStatus::MatchedMedium,
        MatchStatus::NoCaptureTime,
        MatchStatus::OutOfRange,
        MatchStatus::SegmentGap,
    ]
}

/// How many matches have this status.
pub open spec fn count_status(statuses: Seq<MatchStatus>, status: MatchStatus) -> nat
    decreases statuses.len(),
{
    if statuses.len() == 0 {
        0
    } else {
        count_status(statuses.drop_last(), status) + if statuses.last() == status { 1nat } else { 0nat }
    }
}

/// The (name, count) pairs of the statuses in `order` that some match has.
pub open spec fn status_counts(statuses: Seq<MatchStatus>, order: Seq<MatchStatus>) -> Seq<(Seq<char>, nat)>
    decreases order.len(),
{
    if order.len() == 0 {
        Seq::empty()
    } else {
        let rest = status_counts(statuses, order.drop_last());
        let st = order.last();
        if count_status(statuses, st) > 0 {
            rest.push((status_name(st), count_status(statuses, st)))
        } else {
            rest
        }
    }
}

pub open spec fn counts_view(counts: Seq<(String, usize)>) -> Seq<(Seq<char>, nat)> {
    counts.map_values(|c: (String, usize)| (c.0@, c.1 as nat))
}

fn count_of(statuses: &Vec<MatchStatus>, status: MatchStatus) -> (n: usize)
    ensures
        n == count_status(statuses@, status),
{
    let mut n: usize = 0;
    let mut i: usize = 0;
    while i < statuses.len()
        invariant
            i <= statuses.len(),
            n == count_status(statuses@.take(i as int), status),
            n <= i,
        decreases statuses.len() - i,
    {
        assert(statuses@.take(i + 1).drop_last() =~= statuses@.take(i as int));
        if statuses[i] == status {
            n = n + 1;
        }
        i = i + 1;
    }
    assert(statuses@.take(i as int) =~= statuses@);
    n
}

/// The summary of a project's counts, with its matches counted per status.
pub fn diagnostic_summary(
    schema_version: u32,
    track_count: usize,
    photo_count: usize,
    match_statuses: &Vec<MatchStatus>,
    write_job_count: usize,
) -> (summary: DiagnosticSummary)
    ensures
        summary.schema_version == schema_version,
        summary.track_count == track_count,
        summary.photo_count == photo_count,
        summary.write_job_count == write_job_count,
        counts_view(summary.match_status_counts@) == status_counts(match_statuses@, statuses_by_name()),
{
    let order = vec![
        MatchStatus::AlreadyHasGps,
        MatchStatus::MatchedHigh,
        MatchStatus::MatchedLow,
        MatchStatus::MatchedMedium,
        MatchStatus::NoCaptureTime,
        MatchStatus::OutOfRange,
        MatchStatus::SegmentGap,
    ];
    assert(order@ =~= statuses_by_name());
    let mut counts: Vec<(String, usize)> = Vec::new();
    let mut k: usize = 0;
    while k < order.len()
        invariant
            k <= order.len(),
            order@ == statuses_by_name(),
            counts_view(counts@) == status_counts(match_statuses@, order@.take(k as int)),
        decreases order.len() - k,
    {
        let st = order[k];
        let n = count_of(match_statuses, st);
        assert(order@.take(k + 1).drop_last() =~= order@.take(k as int));
        if n > 0 {
            let ghost before = counts@;
            counts.push((status_name_text(st).to_owned(), n));
            assert(counts_view(counts@) =~= counts_view(before).push((status_name(st), n as nat)));
        }
        k = k + 1;
    }
    assert(order@.take(k as int) =~= order@);
    DiagnosticSummary { schema_version, track_count, photo_count, match_status_counts: counts, write_job_count }
}

} // verus!
