use vstd::prelude::*;
use crate::domain::{WriteItemStatus, WriteJobStatus, WritePlanItemAction};
use crate::error::{AppError, ErrorCode, error_is, error_of};
use crate::paths::{file_name, file_name_in, path_starts_with, paths_equal, same_in, starts_with_in};
use crate::text::push_str;
use crate::write_plan::{is_writing, WritePlanItem};

verus! {

/// The outcome of one item of a write job.
#[derive(Debug)]
pub struct WriteItemResult {
    pub photo_id: u128,
    pub output_path: String,
    pub status: WriteItemStatus,
    pub message: String,
    pub error: Option<AppError>,
}

/// Why an item is not written, for the actions that write nothing.
pub open spec fn skip_message(action: WritePlanItemAction) -> Option<Seq<char>> {
    match action {
        WritePlanItemAction::SkipExistingGps => Some("按策略跳过已有 GPS 的照片。"@),
        WritePlanItemAction::SkipNoMatch => Some("照片没有可写入的匹配结果。"@),
        WritePlanItemAction::SkipUnsupportedFormat => Some("MVP-1 不写入此照片格式。"@),
        WritePlanItemAction::Conflict => Some("写入计划存在输出冲突。"@),
        _ => None,
    }
}

/// The error of an item whose output conflict was never resolved.
pub open spec fn is_unresolved_conflict_error(e: AppError) -> bool {
    error_is(e, ErrorCode::OutputConflict, "写入计划中的输出冲突尚未解决。"@, "返回确认页更改输出目录或覆盖策略。"@, true)
}

/// The result of an item whose action writes nothing: conflicts fail, the others are
/// skipped. Items that write (or copy) get none.
pub fn skipped_result(item: &WritePlanItem) -> (result: Option<WriteItemResult>)
    ensures
        match skip_message(item.action) {
            None => result is None,
            Some(m) => result is Some && {
                let r = result->Some_0;
                &&& r.photo_id == item.photo_id
                &&& r.output_path@ == item.output_path@
                &&& r.message@ == m
                &&& if item.action == WritePlanItemAction::Conflict {
                    r.status == WriteItemStatus::Failed && r.error is Some && is_unresolved_conflict_error(r.error->Some_0)
                } else {
                    r.status == WriteItemStatus::Skipped && r.error is None
                }
            },
        },
{
    let message = match item.action {
        WritePlanItemAction::SkipExistingGps => "按策略跳过已有 GPS 的照片。",
        WritePlanItemAction::SkipNoMatch => "照片没有可写入的匹配结果。",
        WritePlanItemAction::SkipUnsupportedFormat => "MVP-1 不写入此照片格式。",
        WritePlanItemAction::Conflict => "写入计划存在输出冲突。",
        _ => {
            return None;
        },
    };
    let conflict = item.action == WritePlanItemAction::Conflict;
    Some(WriteItemResult {
        photo_id: item.photo_id,
        output_path: item.output_path.clone(),
        status: if conflict { WriteItemStatus::Failed } else { WriteItemStatus::Skipped },
        message: message.to_owned(),
        error: if conflict {
            Some(error_of(ErrorCode::OutputConflict, "写入计划中的输出冲突尚未解决。", "返回确认页更改输出目录或覆盖策略。", true))
        } else {
            None
        },
    })
}

/// The result of an item that was written (or copied): verified with its message, or failed
/// with its error.
pub fn item_result(item: &WritePlanItem, outcome: Result<String, AppError>) -> (r: WriteItemResult)
    ensures
        r.photo_id == item.photo_id,
        r.output_path@ == item.output_path@,
        match outcome {
            Ok(m) => r.status == WriteItemStatus::WrittenVerified && r.message@ == m@ && r.error is None,
            Err(e) => r.status == WriteItemStatus::Failed && r.message@ == e.message@ && r.error == Some(e),
        },
{
    match outcome {
        Ok(message) => WriteItemResult {
            photo_id: item.photo_id,
            output_path: item.output_path.clone(),
            status: WriteItemStatus::WrittenVerified,
            message,
            error: None,
        },
        Err(e) => WriteItemResult {
            photo_id: item.photo_id,
            output_path: item.output_path.clone(),
            status: WriteItemStatus::Failed,
            message: e.message.clone(),
            error: Some(e),
        },
    }
}

/// The result of an item left unprocessed because the job was cancelled.
pub open spec fn is_cancelled_result(item: WritePlanItem, r: WriteItemResult) -> bool {
    &&& r.photo_id == item.photo_id
    &&& r.output_path@ == item.output_path@
    &&& r.status == WriteItemStatus::Cancelled
    &&& r.message@ == "任务取消，未处理此文件。"@
    &&& r.error is Some
    &&& error_is(r.error->Some_0, ErrorCode::TaskCancelled, "任务已取消。"@, "可以在确认输入文件未变化后安全重试。"@, true)
}

/// The results of the items from position `from` on, when the job is cancelled before them.
pub fn cancelled_results(items: &Vec<WritePlanItem>, from: usize) -> (results: Vec<WriteItemResult>)
    requires
        from <= items.len(),
    ensures
        results@.len() == items.len() - from,
        forall|k: int| 0 <= k < results@.len() ==> is_cancelled_result(items@[from + k], #[trigger] results@[k]),
{
    let mut results: Vec<WriteItemResult> = Vec::new();
    let mut i: usize = from;
    while i < items.len()
        invariant
            from <= i <= items.len(),
            results@.len() == i - from,
            forall|k: int| 0 <= k < results@.len() ==> is_cancelled_result(items@[from + k], #[trigger] results@[k]),
        decreases items.len() - i,
    {
        results.push(WriteItemResult {
            photo_id: items[i].photo_id,
            output_path: items[i].output_path.clone(),
            status: WriteItemStatus::Cancelled,
            message: "任务取消，未处理此文件。".to_owned(),
            error: Some(AppError::cancelled()),
        });
        i = i + 1;
    }
    results
}

/// Some item failed.
pub open spec fn any_failed(results: Seq<WriteItemResult>) -> bool {
    exists|k: int| 0 <= k < results.len() && (#[trigger] results[k]).status == WriteItemStatus::Failed
}

/// The status of a finished job: cancelled, else completed with errors when an item failed,
/// else completed.
pub fn job_status(was_cancelled: bool, results: &Vec<WriteItemResult>) -> (status: WriteJobStatus)
    ensures
        status == if was_cancelled {
            WriteJobStatus::Cancelled
        } else if any_failed(results@) {
            WriteJobStatus::CompletedWithErrors
        } else {
            WriteJobStatus::Completed
        },
{
    if was_cancelled {
        return WriteJobStatus::Cancelled;
    }
    let mut i: usize = 0;
    while i < results.len()
        invariant
            i <= results.len(),
            !was_cancelled,
            forall|k: int| 0 <= k < i ==> (#[trigger] results@[k]).status != WriteItemStatus::Failed,
        decreases results.len() - i,
    {
        if results[i].status == WriteItemStatus::Failed {
            assert(results@[i as int].status == WriteItemStatus::Failed);
            return WriteJobStatus::CompletedWithErrors;
        }
        i = i + 1;
    }
    WriteJobStatus::Completed
}

/// The photos of a plan's items, in order.
pub fn item_photo_ids(items: &Vec<WritePlanItem>) -> (ids: Vec<u128>)
    ensures
        ids@.len() == items@.len(),
        forall|k: int| 0 <= k < ids@.len() ==> #[trigger] ids@[k] == items@[k].photo_id,
{
    let mut ids: Vec<u128> = Vec::new();
    let mut i: usize = 0;
    while i < items.len()
        invariant
            i <= items.len(),
            ids@.len() == i,
            forall|k: int| 0 <= k < i ==> #[trigger] ids@[k] == items@[k].photo_id,
        decreases items.len() - i,
    {
        ids.push(items[i].photo_id);
        i = i + 1;
    }
    ids
}

// ---------------------------------------------------------------------------------------------
// Running a job item by item
// ---------------------------------------------------------------------------------------------

/// A result fits an item that was processed: it names the item; an item whose action writes
/// nothing gets its skip result, any other is written and verified or has failed with an error.
pub open spec fn result_fits(item: WritePlanItem, r: WriteItemResult) -> bool {
    &&& r.photo_id == item.photo_id
    &&& r.output_path@ == item.output_path@
    &&& match skip_message(item.action) {
        Some(m) => r.message@ == m && if item.action == WritePlanItemAction::Conflict {
            r.status == WriteItemStatus::Failed && r.error is Some && is_unresolved_conflict_error(r.error->Some_0)
        } else {
            r.status == WriteItemStatus::Skipped && r.error is None
        },
        None => (r.status == WriteItemStatus::WrittenVerified && r.error is None)
            || (r.status == WriteItemStatus::Failed && r.error is Some && r.message@ == r.error->Some_0.message@),
    }
}

/// The progress of a write job: the results recorded so far, one per item in plan order, and
/// where the job was cancelled, if it was (every item from there on has a cancelled result).
#[derive(Debug)]
pub struct WriteRun {
    pub results: Vec<WriteItemResult>,
    pub cancelled_from: Option<usize>,
}

/// A run over `items` is consistent: the first results fit their items, and after a
/// cancellation every remaining item has its cancelled result.
pub open spec fn run_consistent(run: WriteRun, items: Seq<WritePlanItem>) -> bool {
    let rs = run.results@;
    &&& rs.len() <= items.len()
    &&& match run.cancelled_from {
        None => forall|k: int| 0 <= k < rs.len() ==> result_fits(items[k], #[trigger] rs[k]),
        Some(c) => {
            &&& c <= items.len()
            &&& rs.len() == items.len()
            &&& forall|k: int| 0 <= k < c ==> result_fits(items[k], #[trigger] rs[k])
            &&& forall|k: int| c <= k < rs.len() ==> is_cancelled_result(items[k], #[trigger] rs[k])
        },
    }
}

/// The run has nothing left to do: it was cancelled or every item has a result.
pub open spec fn run_finished(run: WriteRun, items: Seq<WritePlanItem>) -> bool {
    run.cancelled_from is Some || run.results@.len() == items.len()
}

/// The status of a finished run (see `job_status`).
pub open spec fn run_status(run: WriteRun) -> WriteJobStatus {
    if run.cancelled_from is Some {
        WriteJobStatus::Cancelled
    } else if any_failed(run.results@) {
        WriteJobStatus::CompletedWithErrors
    } else {
        WriteJobStatus::Completed
    }
}

/// What the job does next.
#[derive(Debug, Clone, Copy, PartialEq, Eq, Structural)]
pub enum WriteStep {
    /// Copy, write and verify the item at this position, then record its outcome.
    Write(usize),
    /// The item at this position writes nothing; its result is recorded.
    Recorded(usize),
    /// The job is over, with this status.
    Finished(WriteJobStatus),
}

impl WriteRun {
    /// A run with no result yet.
    pub fn new() -> (run: WriteRun)
        ensures
            run.results@.len() == 0,
            run.cancelled_from is None,
    {
        WriteRun { results: Vec::new(), cancelled_from: None }
    }

    /// Decides the next step. A finished run stays as it is. Otherwise, when cancellation was
    /// requested every remaining item gets its cancelled result; an item that writes nothing
    /// gets its skip result; any other item is to be written.
    pub fn next_step(&mut self, items: &Vec<WritePlanItem>, cancel_requested: bool) -> (step: WriteStep)
        requires
            run_consistent(*old(self), items@),
        ensures
            run_consistent(*final(self), items@),
            ({
                let n = old(self).results@.len();
                if run_finished(*old(self), items@) {
                    *final(self) == *old(self) && step == WriteStep::Finished(run_status(*old(self)))
                } else if cancel_requested {
                    &&& final(self).cancelled_from == Some(n as usize)
                    &&& final(self).results@.take(n as int) == old(self).results@
                    &&& step == WriteStep::Finished(WriteJobStatus::Cancelled)
                } else if skip_message(items@[n as int].action) is Some {
                    &&& final(self).cancelled_from is None
                    &&& final(self).results@.len() == n + 1
                    &&& final(self).results@.take(n as int) == old(self).results@
                    &&& step == WriteStep::Recorded(n as usize)
                } else {
                    *final(self) == *old(self) && step == WriteStep::Write(n as usize)
                }
            }),
            step matches WriteStep::Write(i) ==> i < items@.len() && is_writing(items@[i as int].action),
            step matches WriteStep::Recorded(i) ==> i < items@.len() && !is_writing(items@[i as int].action)
                && final(self).results@[i as int].status != WriteItemStatus::WrittenVerified,
    {
        let n = self.results.len();
        if self.cancelled_from.is_some() || n == items.len() {
            let status = job_status(self.cancelled_from.is_some(), &self.results);
            return WriteStep::Finished(status);
        }
        if cancel_requested {
            let mut rest = cancelled_results(items, n);
            let ghost before = self.results@;
            let ghost added = rest@;
            self.results.append(&mut rest);
            assert(self.results@.take(n as int) =~= before);
            assert forall|j: int| n <= j < self.results@.len() implies is_cancelled_result(items@[j], #[trigger] self.results@[j]) by {
                assert(self.results@[j] == added[j - n]);
                assert(is_cancelled_result(items@[n + (j - n)], added[j - n]));
            }
            self.cancelled_from = Some(n);
            return WriteStep::Finished(WriteJobStatus::Cancelled);
        }
        match skipped_result(&items[n]) {
            Some(r) => {
                let ghost before = self.results@;
                self.results.push(r);
                assert(self.results@.take(n as int) =~= before);
                WriteStep::Recorded(n)
            },
            None => WriteStep::Write(n),
        }
    }

    /// Records the outcome of writing the next item (one that `next_step` asked to write).
    pub fn record_written(&mut self, items: &Vec<WritePlanItem>, outcome: Result<String, AppError>)
        requires
            run_consistent(*old(self), items@),
            !run_finished(*old(self), items@),
            skip_message(items@[old(self).results@.len() as int].action) is None,
        ensures
            run_consistent(*final(self), items@),
            final(self).cancelled_from is None,
            final(self).results@.len() == old(self).results@.len() + 1,
            final(self).results@.take(old(self).results@.len() as int) == old(self).results@,
            ({
                let r = final(self).results@.last();
                match outcome {
                    Ok(m) => r.status == WriteItemStatus::WrittenVerified && r.message@ == m@ && r.error is None,
                    Err(e) => r.status == WriteItemStatus::Failed && r.message@ == e.message@ && r.error == Some(e),
                }
            }),
    {
        let n = self.results.len();
        let r = item_result(&items[n], outcome);
        let ghost before = self.results@;
        self.results.push(r);
        assert(self.results@.take(n as int) =~= before);
    }
}

/// The results are cancelled exactly from position `c` on.
pub open spec fn cancelled_exactly_from(results: Seq<WriteItemResult>, c: int) -> bool {
    &&& 0 <= c <= results.len()
    &&& forall|k: int| 0 <= k < c ==> (#[trigger] results[k]).status != WriteItemStatus::Cancelled
    &&& forall|k: int| c <= k < results.len() ==> (#[trigger] results[k]).status == WriteItemStatus::Cancelled
}

/// A finished write job has one result per item of its plan, in plan order and naming the
/// item; the cancelled results, if any, are exactly those from some position to the end, and
/// every earlier item was processed (written, failed or skipped).
pub proof fn law_write_job_reports_every_item(run: WriteRun, items: Seq<WritePlanItem>)
    requires
        run_consistent(run, items),
        run_finished(run, items),
    ensures
        run.results@.len() == items.len(),
        forall|k: int| 0 <= k < items.len() ==> (#[trigger] run.results@[k]).photo_id == items[k].photo_id
            && run.results@[k].output_path@ == items[k].output_path@,
        exists|c: int| #[trigger] cancelled_exactly_from(run.results@, c),
{
    let c: int = match run.cancelled_from {
        Some(c) => c as int,
        None => items.len() as int,
    };
    assert forall|k: int| 0 <= k < items.len() implies (#[trigger] run.results@[k]).photo_id == items[k].photo_id
        && run.results@[k].output_path@ == items[k].output_path@ by {
        if k < c {
            assert(result_fits(items[k], run.results@[k]));
        } else {
            assert(is_cancelled_result(items[k], run.results@[k]));
        }
    }
    assert forall|k: int| 0 <= k < c implies (#[trigger] run.results@[k]).status != WriteItemStatus::Cancelled by {
        assert(result_fits(items[k], run.results@[k]));
    }
    assert forall|k: int| c <= k < items.len() implies (#[trigger] run.results@[k]).status == WriteItemStatus::Cancelled by {
        assert(is_cancelled_result(items[k], run.results@[k]));
    }
    assert(cancelled_exactly_from(run.results@, c));
}

/// The progress message after processing an item.
pub fn processed_message(source_path: &str, windows: bool) -> (m: String)
    ensures
        m@ == "已处理 "@ + match file_name_in(source_path@, windows) {
            Some(n) => n,
            None => "照片"@,
        },
{
    let mut m = "已处理 ".to_owned();
    match file_name(source_path, windows) {
        Some(n) => push_str(&mut m, n.as_str()),
        None => push_str(&mut m, "照片"),
    }
    m
}

// ---------------------------------------------------------------------------------------------
// Checks while writing one item
// ---------------------------------------------------------------------------------------------

/// Why an item may not be written at execution time, if it may not: its output (symbolic
/// links resolved) has left the output directory, or it is the source file itself.
pub open spec fn execution_refusal(resolved_root: Seq<char>, resolved_output: Seq<char>, resolved_source: Seq<char>, windows: bool) -> Option<ErrorCode> {
    if !starts_with_in(resolved_output, resolved_root, windows) {
        Some(ErrorCode::PathOutsideScope)
    } else if same_in(resolved_source, resolved_output, windows) {
        Some(ErrorCode::OutputConflict)
    } else {
        None
    }
}

/// Checks, just before writing, that the output stays inside the output directory and is not
/// the source file.
pub fn check_execution_target(resolved_root: &str, resolved_output: &str, resolved_source: &str, windows: bool) -> (result: Result<(), AppError>)
    ensures
        match execution_refusal(resolved_root@, resolved_output@, resolved_source@, windows) {
            None => result is Ok,
            Some(ErrorCode::PathOutsideScope) => result is Err && error_is(
                result->Err_0,
                ErrorCode::PathOutsideScope,
                "执行时检测到输出路径已经离开所选输出目录。"@,
                "请检查输出目录中的符号链接，重新生成写入计划后重试。"@,
                true,
            ),
            Some(_) => result is Err && error_is(
                result->Err_0,
                ErrorCode::OutputConflict,
                "输出路径与源文件相同。"@,
                "请选择独立输出目录；应用不会修改源照片。"@,
                true,
            ),
        },
{
    if !path_starts_with(resolved_output, resolved_root, windows) {
        return Err(error_of(
            ErrorCode::PathOutsideScope,
            "执行时检测到输出路径已经离开所选输出目录。",
            "请检查输出目录中的符号链接，重新生成写入计划后重试。",
            true,
        ));
    }
    if paths_equal(resolved_source, resolved_output, windows) {
        return Err(error_of(ErrorCode::OutputConflict, "输出路径与源文件相同。", "请选择独立输出目录；应用不会修改源照片。", true));
    }
    Ok(())
}

/// The error when the source photo changed after the plan was built.
pub fn source_changed_error() -> (e: AppError)
    ensures
        error_is(e, ErrorCode::OutputConflict, "源照片在生成写入计划后发生变化。"@, "请重新扫描照片并重新生成写入计划。"@, true),
{
    error_of(ErrorCode::OutputConflict, "源照片在生成写入计划后发生变化。", "请重新扫描照片并重新生成写入计划。", true)
}

/// The error when a writing item has no target coordinates.
pub fn missing_target_gps_error() -> (e: AppError)
    ensures
        error_is(e, ErrorCode::MatchNotFound, "写入项缺少目标 GPS。"@, "请重新执行匹配并生成写入计划。"@, true),
{
    error_of(ErrorCode::MatchNotFound, "写入项缺少目标 GPS。", "请重新执行匹配并生成写入计划。", true)
}

/// A copy that keeps the existing GPS must have the source's content.
pub fn check_preserved_copy(source_sha256: &str, copy_sha256: &str) -> (result: Result<(), AppError>)
    ensures
        (source_sha256@ == copy_sha256@) <==> result is Ok,
        result is Err ==> error_is(
            result->Err_0,
            ErrorCode::WriteVerifyFailed,
            "保留 GPS 的输出副本与源文件内容不一致。"@,
            "请删除该输出文件并单独重试。"@,
            true,
        ),
{
    if crate::text::str_equal(source_sha256, copy_sha256) {
        Ok(())
    } else {
        Err(error_of(ErrorCode::WriteVerifyFailed, "保留 GPS 的输出副本与源文件内容不一致。", "请删除该输出文件并单独重试。", true))
    }
}

/// The message of a verified item.
pub fn written_message(action: WritePlanItemAction) -> (m: String)
    ensures
        m@ == if action == WritePlanItemAction::WriteGps {
            "GPS 已写入副本并重新读取验证。"@
        } else {
            "已复制照片并保留原有 GPS。"@
        },
{
    if action == WritePlanItemAction::WriteGps {
        "GPS 已写入副本并重新读取验证。".to_owned()
    } else {
        "已复制照片并保留原有 GPS。".to_owned()
    }
}

/// The name of the temporary copy made beside an output file.
pub fn temporary_copy_name(output_path: &str, id: u128, windows: bool) -> (name: String)
    ensures
        name@ == ".geotagger-"@ + crate::text::uuid_hyphenated(id) + "-"@ + match file_name_in(output_path@, windows) {
            Some(n) => n,
            None => "photo.jpg"@,
        },
{
    let mut name = ".geotagger-".to_owned();
    push_str(&mut name, crate::text::uuid_text(id).as_str());
    push_str(&mut name, "-");
    match file_name(output_path, windows) {
        Some(n) => push_str(&mut name, n.as_str()),
        None => push_str(&mut name, "photo.jpg"),
    }
    name
}

/// The error when GPS could not be read back after writing.
pub fn unread_gps_error() -> (e: AppError)
    ensures
        error_is(e, ErrorCode::WriteVerifyFailed, "写入后未读取到 GPS。"@, "请保留任务日志并单独重试该文件。"@, true),
{
    error_of(ErrorCode::WriteVerifyFailed, "写入后未读取到 GPS。", "请保留任务日志并单独重试该文件。", true)
}

/// Only the actions that produce a file (writing GPS or keeping the existing GPS) are
/// written; every other action has a skip result.
pub proof fn law_only_writing_actions_are_written(action: WritePlanItemAction)
    ensures
        skip_message(action) is None <==> is_writing(action),
{
}

/// An item whose action skips it (no match, existing GPS kept by policy, unsupported format)
/// always ends skipped without an error, never written; a conflict always ends failed.
pub proof fn law_skipped_items_end_skipped(item: WritePlanItem, r: WriteItemResult)
    requires
        result_fits(item, r),
    ensures
        item.action == WritePlanItemAction::SkipNoMatch || item.action == WritePlanItemAction::SkipExistingGps
            || item.action == WritePlanItemAction::SkipUnsupportedFormat
            ==> r.status == WriteItemStatus::Skipped && r.error is None,
        item.action == WritePlanItemAction::Conflict ==> r.status == WriteItemStatus::Failed,
        r.status == WriteItemStatus::WrittenVerified ==> is_writing(item.action),
{
}

} // verus!
