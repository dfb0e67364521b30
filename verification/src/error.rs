use vstd::prelude::*;

verus! {

/// Machine-readable category of an application error.
#[derive(Debug, Clone, Copy, PartialEq, Eq, Structural)]
pub enum ErrorCode {
    ProjectInvalid,
    TrackParseFailed,
    TrackNoTime,
    CrsUnconfirmed,
    PhotoMetadataFailed,
    PhotoTimeAmbiguous,
    MatchNotFound,
    ExiftoolNotAvailable,
    WritePermissionDenied,
    WriteVerifyFailed,
    TaskCancelled,
    InvalidRequest,
    PathOutsideScope,
    OutputConflict,
    IoError,
    InternalError,
}

/// A structured, user-facing error: what went wrong and what to do about it.
#[derive(Debug)]
pub struct AppError {
    pub code: ErrorCode,
    pub message: String,
    pub suggestion: String,
    pub recoverable: bool,
}

impl Clone for AppError {
    fn clone(&self) -> (out: Self)
        ensures
            out == *self,
    {
        AppError {
            code: self.code,
            message: self.message.clone(),
            suggestion: self.suggestion.clone(),
            recoverable: self.recoverable,
        }
    }
}

/// Whether `e` has exactly the given code, texts and recoverability.
pub open spec fn error_is(e: AppError, code: ErrorCode, message: Seq<char>, suggestion: Seq<char>, recoverable: bool) -> bool {
    &&& e.code == code
    &&& e.message@ == message
    &&& e.suggestion@ == suggestion
    &&& e.recoverable == recoverable
}

/// Whether `e` is an invalid-request error with the given message.
pub open spec fn is_invalid_error(e: AppError, message: Seq<char>) -> bool {
    error_is(e, ErrorCode::InvalidRequest, message, "请检查输入后重试。"@, true)
}

impl AppError {
    pub fn new(code: ErrorCode, message: String, suggestion: String, recoverable: bool) -> (error: Self)
        ensures
            error.code == code,
            error.message@ == message@,
            error.suggestion@ == suggestion@,
            error.recoverable == recoverable,
    {
        AppError { code, message, suggestion, recoverable }
    }

    /// A rejected request: the caller should correct the input and retry.
    pub fn invalid(message: String) -> (error: Self)
        ensures
            error.code == ErrorCode::InvalidRequest,
            error.message@ == message@,
            error.suggestion@ == "请检查输入后重试。"@,
            error.recoverable,
    {
        Self::new(ErrorCode::InvalidRequest, message, "请检查输入后重试。".to_owned(), true)
    }

    /// A project file or snapshot that cannot be used.
    pub fn project_invalid(message: String) -> (error: Self)
        ensures
            error.code == ErrorCode::ProjectInvalid,
            error.message@ == message@,
            error.suggestion@ == "请选择有效的 GeoTagger 项目文件，或从备份恢复。"@,
            error.recoverable,
    {
        Self::new(
            ErrorCode::ProjectInvalid,
            message,
            "请选择有效的 GeoTagger 项目文件，或从备份恢复。".to_owned(),
            true,
        )
    }

    /// A file-system failure; the message is the context, a full-width colon and the cause.
    pub fn io(context: &str, cause: &str) -> (error: Self)
        ensures
            error.code == ErrorCode::IoError,
            error.message@ == context@ + "："@ + cause@,
            error.suggestion@ == "请确认文件仍存在且当前用户具有所需权限。"@,
            error.recoverable,
    {
        let mut message = context.to_owned();
        crate::text::push_str(&mut message, "：");
        crate::text::push_str(&mut message, cause);
        Self::new(
            ErrorCode::IoError,
            message,
            "请确认文件仍存在且当前用户具有所需权限。".to_owned(),
            true,
        )
    }

    /// An unexpected internal failure; not recoverable by the user.
    pub fn internal(message: String) -> (error: Self)
        ensures
            error.code == ErrorCode::InternalError,
            error.message@ == message@,
            error.suggestion@ == "请导出诊断信息并重试。"@,
            !error.recoverable,
    {
        Self::new(ErrorCode::InternalError, message, "请导出诊断信息并重试。".to_owned(), false)
    }

    /// The task was cancelled by the user.
    pub fn cancelled() -> (error: Self)
        ensures
            error.code == ErrorCode::TaskCancelled,
            error.message@ == "任务已取消。"@,
            error.suggestion@ == "可以在确认输入文件未变化后安全重试。"@,
            error.recoverable,
    {
        Self::new(
            ErrorCode::TaskCancelled,
            "任务已取消。".to_owned(),
            "可以在确认输入文件未变化后安全重试。".to_owned(),
            true,
        )
    }
}

/// Builds an error whose message and suggestion are literals.
pub fn error_of(code: ErrorCode, message: &str, suggestion: &str, recoverable: bool) -> (error: AppError)
    ensures
        error.code == code,
        error.message@ == message@,
        error.suggestion@ == suggestion@,
        error.recoverable == recoverable,
{
    AppError::new(code, message.to_owned(), suggestion.to_owned(), recoverable)
}

} // verus!
