use vstd::prelude::*;
use crate::capture::{CaptureReading, ProjectTimezone, capture_failure_message, capture_reading, parse_capture_time};
use crate::collections::{id_order, is_id_order};
use crate::domain::TimezoneSource;
use crate::error::{AppError, ErrorCode, error_is};
use crate::paths::{join_path, joined_in};
use crate::text::{ascii_lower_seq, decimal, decimal_text, push_str, to_ascii_lowercase, trim_spaces, trimmed};

verus! {

// ---------------------------------------------------------------------------------------------
// Messages about the bundled ExifTool
// ---------------------------------------------------------------------------------------------

/// What is said of ExifTool's error output: only its size, never its text (it can hold full
/// paths and coordinates).
pub open spec fn redacted(len: nat) -> Seq<char> {
    if len == 0 {
        "未提供错误详情"@
    } else {
        "ExifTool 返回了 "@ + decimal(len) + " 字节错误信息（完整路径和坐标已隐藏）"@
    }
}

/// Describes ExifTool's error output without revealing it.
pub fn redacted_stderr(bytes: &[u8]) -> (text: String)
    ensures
        text@ == redacted(bytes@.len()),
{
    if bytes.len() == 0 {
        "未提供错误详情".to_owned()
    } else {
        let mut text = "ExifTool 返回了 ".to_owned();
        push_str(&mut text, decimal_text(bytes.len() as u64).as_str());
        push_str(&mut text, " 字节错误信息（完整路径和坐标已隐藏）");
        text
    }
}

pub open spec fn reinstall_suggestion() -> Seq<char> {
    "请重新安装由官方发布流程生成的应用包。"@
}

/// The error when no bundled ExifTool is found.
pub open spec fn is_missing_exiftool_error(e: AppError) -> bool {
    error_is(
        e,
        ErrorCode::ExiftoolNotAvailable,
        "应用资源目录中没有可用的 ExifTool。"@,
        "请使用 GitHub Actions 发布的完整安装包；应用不会在本机自动安装 ExifTool。"@,
        true,
    )
}

pub fn missing_exiftool() -> (e: AppError)
    ensures
        is_missing_exiftool_error(e),
{
    AppError::new(
        ErrorCode::ExiftoolNotAvailable,
        "应用资源目录中没有可用的 ExifTool。".to_owned(),
        "请使用 GitHub Actions 发布的完整安装包；应用不会在本机自动安装 ExifTool。".to_owned(),
        true,
    )
}

/// The error when the bundled ExifTool cannot be started, with the system's reason.
pub fn unavailable_to_start(cause: &str) -> (e: AppError)
    ensures
        error_is(
            e,
            ErrorCode::ExiftoolNotAvailable,
            "无法启动内置 ExifTool："@ + cause@,
            "请使用 GitHub Actions 发布的完整安装包，或重新安装应用。"@,
            true,
        ),
{
    let mut message = "无法启动内置 ExifTool：".to_owned();
    push_str(&mut message, cause);
    AppError::new(
        ErrorCode::ExiftoolNotAvailable,
        message,
        "请使用 GitHub Actions 发布的完整安装包，或重新安装应用。".to_owned(),
        true,
    )
}

/// The outcome of writing GPS data with ExifTool, from its exit status and error output.
pub fn check_write_output(success: bool, stderr: &[u8]) -> (result: Result<(), AppError>)
    ensures
        success <==> result is Ok,
        !success ==> error_is(
            result->Err_0,
            ErrorCode::WritePermissionDenied,
            "ExifTool 写入失败："@ + redacted(stderr@.len()),
            "请确认输出文件可写、格式受支持，并重新生成写入计划。"@,
            true,
        ),
{
    if success {
        Ok(())
    } else {
        let mut message = "ExifTool 写入失败：".to_owned();
        push_str(&mut message, redacted_stderr(stderr).as_str());
        Err(AppError::new(
            ErrorCode::WritePermissionDenied,
            message,
            "请确认输出文件可写、格式受支持，并重新生成写入计划。".to_owned(),
            true,
        ))
    }
}

// ---------------------------------------------------------------------------------------------
// Finding and asking the bundled ExifTool
// ---------------------------------------------------------------------------------------------

/// The bundled ExifTool, by the canonical path of its executable.
#[derive(Debug, Clone)]
pub struct ExifTool {
    executable: String,
}

pub open spec fn executable_name(windows: bool) -> Seq<char> {
    if windows { "exiftool.exe"@ } else { "exiftool"@ }
}

/// Where the executable is looked for, in order: under the resource directory (in
/// `resources/exiftool`, `exiftool`, then directly), then beside the running program (in
/// `resources/exiftool`, then `exiftool`).
pub open spec fn discovery_candidates(resource_dir: Seq<char>, program_dir: Option<Seq<char>>, windows: bool) -> Seq<Seq<char>> {
    let name = executable_name(windows);
    let own = seq![
        joined_in(joined_in(joined_in(resource_dir, "resources"@, windows), "exiftool"@, windows), name, windows),
        joined_in(joined_in(resource_dir, "exiftool"@, windows), name, windows),
        joined_in(resource_dir, name, windows),
    ];
    match program_dir {
        None => own,
        Some(d) => own + seq![
            joined_in(joined_in(joined_in(d, "resources"@, windows), "exiftool"@, windows), name, windows),
            joined_in(joined_in(d, "exiftool"@, windows), name, windows),
        ],
    }
}

fn join3(a: &str, b: &str, c: &str, windows: bool) -> (out: String)
    ensures
        out@ == joined_in(joined_in(a@, b@, windows), c@, windows),
{
    let ab = join_path(a, b, windows);
    join_path(ab.as_str(), c, windows)
}

/// The places the executable is looked for (see `discovery_candidates`).
pub fn exiftool_candidates(resource_dir: &str, program_dir: Option<&str>, windows: bool) -> (candidates: Vec<String>)
    ensures
        candidates@.map_values(|c: String| c@) == discovery_candidates(resource_dir@, match program_dir { Some(d) => Some(d@), None => None }, windows),
{
    let name = if windows { "exiftool.exe" } else { "exiftool" };
    let mut candidates: Vec<String> = Vec::new();
    let r = join_path(resource_dir, "resources", windows);
    candidates.push(join3(r.as_str(), "exiftool", name, windows));
    candidates.push(join3(resource_dir, "exiftool", name, windows));
    candidates.push(join_path(resource_dir, name, windows));
    match program_dir {
        Some(d) => {
            let rd = join_path(d, "resources", windows);
            candidates.push(join3(rd.as_str(), "exiftool", name, windows));
            candidates.push(join3(d, "exiftool", name, windows));
        },
        None => {},
    }
    assert(candidates@.map_values(|c: String| c@) =~= discovery_candidates(
        resource_dir@,
        match program_dir { Some(d) => Some(d@), None => None },
        windows,
    ));
    candidates
}

/// What was found at one candidate place.
#[derive(Debug)]
pub enum CandidateProbe {
    /// No file there.
    Absent,
    /// A file, with its canonical path.
    Found(String),
    /// A file whose canonical path could not be had, with the system's reason.
    Unresolvable(String),
}

/// The first candidate that is a file decides.
pub open spec fn first_found(probes: Seq<CandidateProbe>, i: int) -> Option<int>
    decreases probes.len() - i,
{
    if i < 0 || i >= probes.len() {
        None
    } else if probes[i] is Absent {
        first_found(probes, i + 1)
    } else {
        Some(i)
    }
}

impl ExifTool {
    pub closed spec fn executable_spec(&self) -> Seq<char> {
        self.executable@
    }

    /// The canonical path of the executable.
    pub fn executable(&self) -> (path: &str)
        ensures
            path@ == self.executable_spec(),
    {
        self.executable.as_str()
    }

    /// The bundled ExifTool, from what was found at the candidate places (in order): the first
    /// file decides; if its canonical path cannot be had, that is the error; if there is no
    /// file, ExifTool is missing.
    pub fn discover(probes: &Vec<CandidateProbe>) -> (result: Result<ExifTool, AppError>)
        ensures
            match first_found(probes@, 0) {
                None => result is Err && is_missing_exiftool_error(result->Err_0),
                Some(i) => match probes@[i] {
                    CandidateProbe::Found(p) => result is Ok && result->Ok_0.executable_spec() == p@,
                    CandidateProbe::Unresolvable(m) => result is Err && error_is(
                        result->Err_0,
                        ErrorCode::ExiftoolNotAvailable,
                        "无法解析 ExifTool 资源路径："@ + m@,
                        reinstall_suggestion(),
                        true,
                    ),
                    CandidateProbe::Absent => false,
                },
            },
    {
        let mut i: usize = 0;
        while i < probes.len()
            invariant
                i <= probes.len(),
                first_found(probes@, 0) == first_found(probes@, i as int),
            decreases probes.len() - i,
        {
            match &probes[i] {
                CandidateProbe::Absent => {},
                CandidateProbe::Found(p) => {
                    return Ok(ExifTool { executable: p.clone() });
                },
                CandidateProbe::Unresolvable(m) => {
                    let mut message = "无法解析 ExifTool 资源路径：".to_owned();
                    push_str(&mut message, m.as_str());
                    return Err(AppError::new(
                        ErrorCode::ExiftoolNotAvailable,
                        message,
                        "请重新安装由官方发布流程生成的应用包。".to_owned(),
                        true,
                    ));
                },
            }
            i = i + 1;
        }
        Err(missing_exiftool())
    }
}

/// The text of bytes read as UTF-8, with invalid sequences replaced (what
/// `String::from_utf8_lossy` gives).
pub uninterp spec fn utf8_lossy(bytes: Seq<u8>) -> Seq<char>;

/// `String::from_utf8_lossy`; claimed to give the named text.
#[verifier::external_body]
pub(crate) fn text_from_utf8_lossy(bytes: &[u8]) -> (text: String)
    ensures
        text@ == utf8_lossy(bytes@),
{
    String::from_utf8_lossy(bytes).into_owned()
}

/// The version ExifTool reports for `-ver`, from its exit status and output.
pub fn version_from_output(success: bool, stdout: &[u8], stderr: &[u8]) -> (result: Result<String, AppError>)
    ensures
        !success ==> result is Err && error_is(
            result->Err_0,
            ErrorCode::ExiftoolNotAvailable,
            "ExifTool 版本检查失败："@ + redacted(stderr@.len()),
            reinstall_suggestion(),
            true,
        ),
        success && trimmed(utf8_lossy(stdout@)).len() == 0 ==> result is Err && error_is(
            result->Err_0,
            ErrorCode::ExiftoolNotAvailable,
            "ExifTool 没有返回版本号。"@,
            reinstall_suggestion(),
            true,
        ),
        success && trimmed(utf8_lossy(stdout@)).len() > 0 ==> result is Ok && result->Ok_0@ == trimmed(utf8_lossy(stdout@)),
{
    if !success {
        let mut message = "ExifTool 版本检查失败：".to_owned();
        push_str(&mut message, redacted_stderr(stderr).as_str());
        return Err(AppError::new(ErrorCode::ExiftoolNotAvailable, message, "请重新安装由官方发布流程生成的应用包。".to_owned(), true));
    }
    let raw = text_from_utf8_lossy(stdout);
    let version = trim_spaces(raw.as_str());
    if version.as_str().is_empty() {
        return Err(AppError::new(
            ErrorCode::ExiftoolNotAvailable,
            "ExifTool 没有返回版本号。".to_owned(),
            "请重新安装由官方发布流程生成的应用包。".to_owned(),
            true,
        ));
    }
    Ok(version)
}

/// Whether ExifTool is usable: its version and executable, or why not.
#[derive(Debug)]
pub struct ExifToolStatus {
    pub available: bool,
    pub version: Option<String>,
    pub executable_path: Option<String>,
    pub error: Option<AppError>,
}

/// The status for the outcome of finding ExifTool and asking its version.
pub fn exiftool_status(outcome: Result<(ExifTool, String), AppError>) -> (status: ExifToolStatus)
    ensures
        match outcome {
            Ok((tool, version)) => status.available && status.version == Some(version)
                && status.executable_path is Some && status.executable_path->Some_0@ == tool.executable_spec()
                && status.error is None,
            Err(e) => !status.available && status.version is None && status.executable_path is None && status.error == Some(e),
        },
{
    match outcome {
        Ok((tool, version)) => ExifToolStatus {
            available: true,
            version: Some(version),
            executable_path: Some(tool.executable),
            error: None,
        },
        Err(e) => ExifToolStatus { available: false, version: None, executable_path: None, error: Some(e) },
    }
}

/// How many photos are read per ExifTool run (fewer on Windows, where command lines are
/// shorter).
pub fn metadata_batch_size(windows: bool) -> (n: usize)
    ensures
        n == (if windows { 16usize } else { 128usize }),
{
    if windows { 16 } else { 128 }
}

/// How a path is compared with the paths ExifTool reports: on Windows with `/` for `\` and in
/// ASCII lower case, elsewhere as it is.
pub open spec fn path_key(value: Seq<char>, windows: bool) -> Seq<char> {
    if windows {
        ascii_lower_seq(value.map_values(|c: char| if c == '\\' { '/' } else { c }))
    } else {
        value
    }
}

/// The key a path is compared by (see `path_key`).
pub fn normalize_path_key(value: &str, windows: bool) -> (key: String)
    ensures
        key@ == path_key(value@, windows),
{
    if !windows {
        return value.to_owned();
    }
    let chars = crate::text::chars_of(value);
    let mut out: Vec<char> = Vec::new();
    let mut i: usize = 0;
    while i < chars.len()
        invariant
            i <= chars.len(),
            chars@ == value@,
            out@ == value@.map_values(|c: char| if c == '\\' { '/' } else { c }).take(i as int),
        decreases chars.len() - i,
    {
        let c = chars[i];
        out.push(if c == '\\' { '/' } else { c });
        assert(value@.map_values(|c: char| if c == '\\' { '/' } else { c }).take(i + 1)
            =~= value@.map_values(|c: char| if c == '\\' { '/' } else { c }).take(i as int).push(if c == '\\' { '/' } else { c }));
        i = i + 1;
    }
    assert(out@ =~= value@.map_values(|c: char| if c == '\\' { '/' } else { c }));
    let replaced = crate::text::string_from_chars(&out);
    to_ascii_lowercase(replaced.as_str())
}


// ---------------------------------------------------------------------------------------------
// Metadata read by ExifTool
// ---------------------------------------------------------------------------------------------

/// A field of a JSON object: absent, a string, a number (in its JSON notation), or another
/// kind of value.
#[derive(Debug)]
pub enum JsonField {
    Absent,
    Text(String),
    Number(String),
    Other,
}

impl Clone for JsonField {
    fn clone(&self) -> (out: Self)
        ensures
            out == *self,
    {
        match self {
            JsonField::Absent => JsonField::Absent,
            JsonField::Text(s) => JsonField::Text(s.clone()),
            JsonField::Number(s) => JsonField::Number(s.clone()),
            JsonField::Other => JsonField::Other,
        }
    }
}

/// What serde_json reads from bytes holding a JSON array: for each element, the fields of the
/// given keys if it is an object; or the parser's message.
pub uninterp spec fn json_object_fields(bytes: Seq<u8>, keys: Seq<Seq<char>>) -> Result<Seq<Option<Seq<JsonField>>>, Seq<char>>;

pub open spec fn keys_view(keys: Seq<&str>) -> Seq<Seq<char>> {
    keys.map_values(|k: &str| k@)
}

pub open spec fn entries_view(entries: Seq<Option<Vec<JsonField>>>) -> Seq<Option<Seq<JsonField>>> {
    entries.map_values(|e: Option<Vec<JsonField>>| match e {
        Some(v) => Some(v@),
        None => None,
    })
}

/// `serde_json::from_slice::<Vec<Value>>`, with each element described by the fields of the
/// keys (strings as they are, numbers by their `Display`), or the parser's message. The result
/// is claimed to be the named one; an object has one field per key.
#[verifier::external_body]
fn json_array_fields(bytes: &[u8], keys: &Vec<&str>) -> (r: Result<Vec<Option<Vec<JsonField>>>, String>)
    ensures
        match json_object_fields(bytes@, keys_view(keys@)) {
            Ok(es) => r is Ok && entries_view(r->Ok_0@) == es,
            Err(m) => r is Err && r->Err_0@ == m,
        },
        r is Ok ==> forall|j: int| 0 <= j < r->Ok_0@.len() && (#[trigger] r->Ok_0@[j]) is Some ==> r->Ok_0@[j]->Some_0@.len() == keys@.len(),
{
    let values: Vec<serde_json::Value> = serde_json::from_slice(bytes).map_err(|e| e.to_string())?;
    let mut entries = Vec::new();
    for v in values.iter() {
        entries.push(v.as_object().map(|o| keys.iter().map(|k| match o.get(*k) {
            Some(serde_json::Value::String(s)) => JsonField::Text(s.clone()),
            Some(serde_json::Value::Number(n)) => JsonField::Number(n.to_string()),
            Some(_) => JsonField::Other,
            None => JsonField::Absent,
        }).collect()));
    }
    Ok(entries)
}

/// The fields asked of ExifTool, in this order.
pub open spec fn metadata_keys() -> Seq<Seq<char>> {
    seq![
        "SourceFile"@, "DateTimeOriginal"@, "SubSecDateTimeOriginal"@, "OffsetTimeOriginal"@, "CreateDate"@,
        "GPSLatitude"@, "GPSLongitude"@, "GPSAltitude"@, "GPSAltitudeRef"@, "Error"@,
    ]
}

/// The text of a string or number field.
pub open spec fn field_text(f: JsonField) -> Option<Seq<char>> {
    match f {
        JsonField::Text(s) => Some(s@),
        JsonField::Number(t) => Some(t@),
        _ => None,
    }
}

fn field_string(f: &JsonField) -> (out: Option<String>)
    ensures
        opt_string(out) == field_text(*f),
{
    match f {
        JsonField::Text(s) => Some(s.clone()),
        JsonField::Number(t) => Some(t.clone()),
        _ => None,
    }
}

pub open spec fn opt_string(o: Option<String>) -> Option<Seq<char>> {
    match o {
        Some(s) => Some(s@),
        None => None,
    }
}

/// A photo whose metadata is read: its identity and path.
#[derive(Debug)]
pub struct PhotoRef {
    pub id: u128,
    pub path: String,
}

/// The metadata of one photo: the capture-time fields ExifTool reported, the capture instant
/// read from them and where its offset came from, ExifTool's GPS fields (interpreted outside
/// the library), and an error if ExifTool or the capture time gave one.
#[derive(Debug)]
pub struct MetadataRecord {
    pub photo_id: u128,
    pub source_file: String,
    pub date_time_original: Option<String>,
    pub sub_sec_date_time_original: Option<String>,
    pub offset_time_original: Option<String>,
    pub create_date: Option<String>,
    pub capture_utc: Option<i128>,
    pub timezone_source: TimezoneSource,
    pub gps_latitude: JsonField,
    pub gps_longitude: JsonField,
    pub gps_altitude: JsonField,
    pub gps_altitude_ref: JsonField,
    pub error: Option<String>,
}

impl Clone for MetadataRecord {
    fn clone(&self) -> (out: Self)
        ensures
            out == *self,
    {
        MetadataRecord {
            photo_id: self.photo_id,
            source_file: self.source_file.clone(),
            date_time_original: clone_string(&self.date_time_original),
            sub_sec_date_time_original: clone_string(&self.sub_sec_date_time_original),
            offset_time_original: clone_string(&self.offset_time_original),
            create_date: clone_string(&self.create_date),
            capture_utc: self.capture_utc,
            timezone_source: self.timezone_source,
            gps_latitude: self.gps_latitude.clone(),
            gps_longitude: self.gps_longitude.clone(),
            gps_altitude: self.gps_altitude.clone(),
            gps_altitude_ref: self.gps_altitude_ref.clone(),
            error: clone_string(&self.error),
        }
    }
}

/// The local capture time a photo's metadata gives: the original time with sub-seconds, else
/// the original time, else the creation date.
pub open spec fn local_capture_of(
    sub_sec_date_time_original: Option<String>,
    date_time_original: Option<String>,
    create_date: Option<String>,
) -> Option<Seq<char>> {
    match sub_sec_date_time_original {
        Some(t) => Some(t@),
        None => match date_time_original {
            Some(t) => Some(t@),
            None => opt_string(create_date),
        },
    }
}

/// The local capture time a photo's metadata gives (see `local_capture_of`).
pub fn local_capture(
    sub_sec_date_time_original: &Option<String>,
    date_time_original: &Option<String>,
    create_date: &Option<String>,
) -> (t: Option<String>)
    ensures
        opt_string(t) == local_capture_of(*sub_sec_date_time_original, *date_time_original, *create_date),
{
    match sub_sec_date_time_original {
        Some(t) => Some(t.clone()),
        None => match date_time_original {
            Some(t) => Some(t.clone()),
            None => clone_string(create_date),
        },
    }
}

fn clone_string(o: &Option<String>) -> (out: Option<String>)
    ensures
        out == *o,
{
    match o {
        Some(s) => Some(s.clone()),
        None => None,
    }
}

/// The last photo whose path key is `key` (a later photo with the same key replaces an
/// earlier one).
pub open spec fn photo_for_key(photos: Seq<PhotoRef>, key: Seq<char>, windows: bool) -> Option<int>
    decreases photos.len(),
{
    if photos.len() == 0 {
        None
    } else if path_key(photos.last().path@, windows) == key {
        Some(photos.len() - 1)
    } else {
        photo_for_key(photos.drop_last(), key, windows)
    }
}

/// The photo an ExifTool entry describes: the one with the entry's `SourceFile`, else the
/// photo at the entry's position.
pub open spec fn entry_photo(photos: Seq<PhotoRef>, fields: Seq<JsonField>, j: int, windows: bool) -> Option<int> {
    let source = match field_text(fields[0]) {
        Some(t) => t,
        None => Seq::empty(),
    };
    match photo_for_key(photos, path_key(source, windows), windows) {
        Some(i) => Some(i),
        None => if j < photos.len() { Some(j) } else { None },
    }
}

/// Why ExifTool's output is refused.
pub enum OutputFailure {
    NoJson,
    BadJson(Seq<char>),
    NotAnObject,
    Unmatched,
}

/// The first entry (from `j` on) that is not an object or describes no photo.
pub open spec fn first_bad_entry(photos: Seq<PhotoRef>, entries: Seq<Option<Seq<JsonField>>>, j: int, windows: bool) -> Option<OutputFailure>
    decreases entries.len() - j,
{
    if j < 0 || j >= entries.len() {
        None
    } else {
        match entries[j] {
            None => Some(OutputFailure::NotAnObject),
            Some(fields) => if entry_photo(photos, fields, j, windows) is None {
                Some(OutputFailure::Unmatched)
            } else {
                first_bad_entry(photos, entries, j + 1, windows)
            },
        }
    }
}

/// Why ExifTool's output for a batch is refused, if it is.
pub open spec fn output_failure(stdout: Seq<u8>, photos: Seq<PhotoRef>, windows: bool) -> Option<OutputFailure> {
    if stdout.len() == 0 {
        Some(OutputFailure::NoJson)
    } else {
        match json_object_fields(stdout, metadata_keys()) {
            Err(m) => Some(OutputFailure::BadJson(m)),
            Ok(entries) => first_bad_entry(photos, entries, 0, windows),
        }
    }
}

pub open spec fn output_error_is(f: OutputFailure, stderr_len: nat, e: AppError) -> bool {
    match f {
        OutputFailure::NoJson => error_is(e, ErrorCode::PhotoMetadataFailed, "ExifTool 未返回 JSON："@ + redacted(stderr_len), "请确认照片格式受支持且文件可读。"@, true),
        OutputFailure::BadJson(m) => error_is(e, ErrorCode::PhotoMetadataFailed, "ExifTool JSON 解析失败："@ + m, "请确认应用内置的 ExifTool 版本与当前平台匹配。"@, true),
        OutputFailure::NotAnObject => error_is(e, ErrorCode::PhotoMetadataFailed, "ExifTool JSON 条目不是对象。"@, "请重新读取元数据；若持续失败请导出诊断信息。"@, true),
        OutputFailure::Unmatched => error_is(e, ErrorCode::PhotoMetadataFailed, "ExifTool 返回了无法对应到照片的条目。"@, "请重新扫描照片目录后重试。"@, true),
    }
}

/// The capture time a photo is dated by: the sub-second original time, else the original
/// time, else the creation time.
pub open spec fn capture_text(fields: Seq<JsonField>) -> Option<Seq<char>> {
    match field_text(fields[2]) {
        Some(t) => Some(t),
        None => match field_text(fields[1]) {
            Some(t) => Some(t),
            None => field_text(fields[4]),
        },
    }
}

/// The record ExifTool's entry gives for a photo.
pub open spec fn entry_record_is(photo: PhotoRef, fields: Seq<JsonField>, zone: Seq<char>, r: MetadataRecord) -> bool {
    let (capture, source, time_error) = match capture_text(fields) {
        None => (None, TimezoneSource::Unknown, None),
        Some(v) => {
            let reading = capture_reading(v, field_text(fields[3]), zone);
            match reading {
                CaptureReading::Read(t, src) => (Some(t), src, None),
                _ => (None, TimezoneSource::Unknown, Some(capture_failure_message(reading, v, zone))),
            }
        },
    };
    &&& r.photo_id == photo.id
    &&& r.source_file@ == photo.path@
    &&& opt_string(r.date_time_original) == field_text(fields[1])
    &&& opt_string(r.sub_sec_date_time_original) == field_text(fields[2])
    &&& opt_string(r.offset_time_original) == field_text(fields[3])
    &&& opt_string(r.create_date) == field_text(fields[4])
    &&& match r.capture_utc {
        Some(t) => capture == Some(t as int),
        None => capture is None,
    }
    &&& r.timezone_source == source
    &&& r.gps_latitude == fields[5]
    &&& r.gps_longitude == fields[6]
    &&& r.gps_altitude == fields[7]
    &&& r.gps_altitude_ref == fields[8]
    &&& opt_string(r.error) == match field_text(fields[9]) {
        Some(e) => Some(e),
        None => time_error,
    }
}

/// The record of a photo ExifTool said nothing about.
pub open spec fn missing_record_is(photo: PhotoRef, r: MetadataRecord) -> bool {
    &&& r.photo_id == photo.id
    &&& r.source_file@ == photo.path@
    &&& r.date_time_original is None && r.sub_sec_date_time_original is None
    &&& r.offset_time_original is None && r.create_date is None
    &&& r.capture_utc is None
    &&& r.timezone_source == TimezoneSource::Unknown
    &&& r.gps_latitude is Absent && r.gps_longitude is Absent && r.gps_altitude is Absent && r.gps_altitude_ref is Absent
    &&& opt_string(r.error) == Some("ExifTool 没有返回此文件的元数据。"@)
}

/// Where a record of the batch comes from, before the records are ordered by photo.
pub enum RecordSource {
    /// ExifTool's entry at this position, describing the photo at that position.
    Entry(int, int),
    /// The photo at this position, which no entry described.
    Missing(int),
}

/// The entry at position `j` describes a photo with this id.
pub open spec fn entry_describes(photos: Seq<PhotoRef>, fields: Seq<JsonField>, j: int, windows: bool, id: u128) -> bool {
    match entry_photo(photos, fields, j, windows) {
        Some(i) => photos[i].id == id,
        None => false,
    }
}

/// Some entry describes a photo with this id.
pub open spec fn described(photos: Seq<PhotoRef>, entries: Seq<Option<Seq<JsonField>>>, id: u128, windows: bool) -> bool {
    exists|j: int| 0 <= j < entries.len() && #[trigger] entries[j] is Some
        && entry_describes(photos, entries[j]->Some_0, j, windows, id)
}

/// The sources of the batch's records in the order they are produced: the entries in order,
/// then the photos no entry described, in order.
pub open spec fn record_sources(photos: Seq<PhotoRef>, entries: Seq<Option<Seq<JsonField>>>, windows: bool) -> Seq<RecordSource> {
    Seq::new(entries.len(), |j: int| RecordSource::Entry(j, entry_photo(photos, entries[j]->Some_0, j, windows)->Some_0))
        + missing_sources(photos, entries, windows, photos.len() as int)
}

/// The photos among the first `n` that no entry described.
pub open spec fn missing_sources(photos: Seq<PhotoRef>, entries: Seq<Option<Seq<JsonField>>>, windows: bool, n: int) -> Seq<RecordSource>
    decreases n,
{
    if n <= 0 {
        Seq::empty()
    } else {
        let rest = missing_sources(photos, entries, windows, n - 1);
        if described(photos, entries, photos[n - 1].id, windows) {
            rest
        } else {
            rest.push(RecordSource::Missing(n - 1))
        }
    }
}

pub open spec fn source_photo(src: RecordSource) -> int {
    match src {
        RecordSource::Entry(_, i) => i,
        RecordSource::Missing(i) => i,
    }
}

/// The photo ids of the records' sources.
pub open spec fn source_ids(photos: Seq<PhotoRef>, sources: Seq<RecordSource>) -> Seq<u128> {
    sources.map_values(|src: RecordSource| photos[source_photo(src)].id)
}

/// The record produced from its source.
pub open spec fn record_from(photos: Seq<PhotoRef>, entries: Seq<Option<Seq<JsonField>>>, zone: Seq<char>, src: RecordSource, r: MetadataRecord) -> bool {
    match src {
        RecordSource::Entry(j, i) => entry_record_is(photos[i], entries[j]->Some_0, zone, r),
        RecordSource::Missing(i) => missing_record_is(photos[i], r),
    }
}

/// The records of the batch, one per source, ordered by photo id (records of the same photo in
/// the order they were produced).
pub open spec fn records_are(photos: Seq<PhotoRef>, entries: Seq<Option<Seq<JsonField>>>, zone: Seq<char>, windows: bool, out: Seq<MetadataRecord>) -> bool {
    let sources = record_sources(photos, entries, windows);
    exists|order: Seq<usize>| {
        &&& #[trigger] is_id_order(source_ids(photos, sources), order)
        &&& out.len() == sources.len()
        &&& forall|p: int| 0 <= p < out.len() ==> record_from(photos, entries, zone, sources[order[p] as int], #[trigger] out[p])
    }
}


fn find_photo_for_key(photos: &Vec<PhotoRef>, key: &String, windows: bool) -> (found: Option<usize>)
    ensures
        match found {
            Some(i) => photo_for_key(photos@, key@, windows) == Some(i as int),
            None => photo_for_key(photos@, key@, windows) is None,
        },
{
    let mut i: usize = photos.len();
    assert(photos@.take(i as int) =~= photos@);
    while i > 0
        invariant
            i <= photos.len(),
            photo_for_key(photos@, key@, windows) == photo_for_key(photos@.take(i as int), key@, windows),
        decreases i,
    {
        assert(photos@.take(i as int).drop_last() =~= photos@.take(i - 1));
        assert(photos@.take(i as int).last() == photos@[i - 1]);
        let k = normalize_path_key(photos[i - 1].path.as_str(), windows);
        if crate::text::str_equal(k.as_str(), key.as_str()) {
            return Some(i - 1);
        }
        i = i - 1;
    }
    None
}

fn missing_record(photo: &PhotoRef) -> (r: MetadataRecord)
    ensures
        missing_record_is(*photo, r),
{
    MetadataRecord {
        photo_id: photo.id,
        source_file: photo.path.clone(),
        date_time_original: None,
        sub_sec_date_time_original: None,
        offset_time_original: None,
        create_date: None,
        capture_utc: None,
        timezone_source: TimezoneSource::Unknown,
        gps_latitude: JsonField::Absent,
        gps_longitude: JsonField::Absent,
        gps_altitude: JsonField::Absent,
        gps_altitude_ref: JsonField::Absent,
        error: Some("ExifTool 没有返回此文件的元数据。".to_owned()),
    }
}

fn entry_record(photo: &PhotoRef, fields: &Vec<JsonField>, timezone: &ProjectTimezone) -> (r: MetadataRecord)
    requires
        fields.len() == 10,
    ensures
        entry_record_is(*photo, fields@, timezone.name_spec(), r),
{
    let date_time_original = field_string(&fields[1]);
    let sub_sec_date_time_original = field_string(&fields[2]);
    let offset_time_original = field_string(&fields[3]);
    let create_date = field_string(&fields[4]);
    let capture_local = match &sub_sec_date_time_original {
        Some(t) => Some(t.as_str()),
        None => match &date_time_original {
            Some(t) => Some(t.as_str()),
            None => match &create_date {
                Some(t) => Some(t.as_str()),
                None => None,
            },
        },
    };
    let offset = match &offset_time_original {
        Some(o) => Some(o.as_str()),
        None => None,
    };
    let (capture_utc, timezone_source, time_error) = match capture_local {
        None => (None, TimezoneSource::Unknown, None),
        Some(local) => match parse_capture_time(local, offset, timezone) {
            Ok((t, source)) => (Some(t), source, None),
            Err(message) => (None, TimezoneSource::Unknown, Some(message)),
        },
    };
    let error = match field_string(&fields[9]) {
        Some(e) => Some(e),
        None => time_error,
    };
    MetadataRecord {
        photo_id: photo.id,
        source_file: photo.path.clone(),
        date_time_original,
        sub_sec_date_time_original,
        offset_time_original,
        create_date,
        capture_utc,
        timezone_source,
        gps_latitude: fields[5].clone(),
        gps_longitude: fields[6].clone(),
        gps_altitude: fields[7].clone(),
        gps_altitude_ref: fields[8].clone(),
        error,
    }
}

fn metadata_error(message: String, suggestion: &str) -> (e: AppError)
    ensures
        e.code == ErrorCode::PhotoMetadataFailed,
        e.message@ == message@,
        e.suggestion@ == suggestion@,
        e.recoverable,
{
    AppError::new(ErrorCode::PhotoMetadataFailed, message, suggestion.to_owned(), true)
}


pub open spec fn entry_sources(photos: Seq<PhotoRef>, entries: Seq<Option<Seq<JsonField>>>, windows: bool) -> Seq<RecordSource> {
    Seq::new(entries.len(), |j: int| RecordSource::Entry(j, entry_photo(photos, entries[j]->Some_0, j, windows)->Some_0))
}

/// Turns ExifTool's output for a batch of photos into their metadata records. The output must
/// be a JSON array of objects; each object is matched to the photo with its `SourceFile` (by
/// path key), else to the photo at its position. Photos no object describes get a record that
/// says so. The records are ordered by photo id.
pub fn metadata_from_output(
    photos: &Vec<PhotoRef>,
    stdout: &[u8],
    stderr: &[u8],
    timezone: &ProjectTimezone,
    windows: bool,
) -> (result: Result<Vec<MetadataRecord>, AppError>)
    ensures
        match output_failure(stdout@, photos@, windows) {
            Some(f) => result is Err && output_error_is(f, stderr@.len(), result->Err_0),
            None => result is Ok && json_object_fields(stdout@, metadata_keys()) is Ok && records_are(
                photos@,
                json_object_fields(stdout@, metadata_keys())->Ok_0,
                timezone.name_spec(),
                windows,
                result->Ok_0@,
            ),
        },
{
    if stdout.len() == 0 {
        let mut message = "ExifTool 未返回 JSON：".to_owned();
        push_str(&mut message, redacted_stderr(stderr).as_str());
        return Err(metadata_error(message, "请确认照片格式受支持且文件可读。"));
    }
    let keys: Vec<&str> = vec![
        "SourceFile", "DateTimeOriginal", "SubSecDateTimeOriginal", "OffsetTimeOriginal", "CreateDate",
        "GPSLatitude", "GPSLongitude", "GPSAltitude", "GPSAltitudeRef", "Error",
    ];
    assert(keys_view(keys@) =~= metadata_keys());
    let entries = match json_array_fields(stdout, &keys) {
        Err(m) => {
            let mut message = "ExifTool JSON 解析失败：".to_owned();
            push_str(&mut message, m.as_str());
            return Err(metadata_error(message, "请确认应用内置的 ExifTool 版本与当前平台匹配。"));
        },
        Ok(e) => e,
    };
    let ghost ev = entries_view(entries@);
    let ghost zone = timezone.name_spec();
    let mut records: Vec<MetadataRecord> = Vec::new();
    let mut photo_of: Vec<usize> = Vec::new();
    let mut j: usize = 0;
    while j < entries.len()
        invariant
            j <= entries.len(),
            ev == entries_view(entries@),
            ev == json_object_fields(stdout@, metadata_keys())->Ok_0,
            json_object_fields(stdout@, metadata_keys()) is Ok,
            stdout@.len() > 0,
            zone == timezone.name_spec(),
            forall|k: int| 0 <= k < entries@.len() && (#[trigger] entries@[k]) is Some ==> entries@[k]->Some_0@.len() == 10,
            first_bad_entry(photos@, ev, 0, windows) == first_bad_entry(photos@, ev, j as int, windows),
            records.len() == j,
            photo_of.len() == j,
            forall|k: int| 0 <= k < j ==> {
                &&& (#[trigger] ev[k]) is Some
                &&& entry_photo(photos@, ev[k]->Some_0, k, windows) == Some(photo_of@[k] as int)
                &&& photo_of@[k] < photos.len()
                &&& entry_record_is(photos@[photo_of@[k] as int], ev[k]->Some_0, zone, records@[k])
            },
        decreases entries.len() - j,
    {
        match &entries[j] {
            None => {
                return Err(metadata_error("ExifTool JSON 条目不是对象。".to_owned(), "请重新读取元数据；若持续失败请导出诊断信息。"));
            },
            Some(fields) => {
                assert(ev[j as int] == Some(fields@));
                let source = match field_string(&fields[0]) {
                    Some(t) => t,
                    None => String::new(),
                };
                let key = normalize_path_key(source.as_str(), windows);
                let i = match find_photo_for_key(photos, &key, windows) {
                    Some(i) => i,
                    None => {
                        if j < photos.len() {
                            j
                        } else {
                            return Err(metadata_error("ExifTool 返回了无法对应到照片的条目。".to_owned(), "请重新扫描照片目录后重试。"));
                        }
                    },
                };
                proof {
                    if photo_for_key(photos@, key@, windows) is Some {
                        lemma_photo_for_key_bounds(photos@, key@, windows);
                    }
                }
                records.push(entry_record(&photos[i], fields, timezone));
                photo_of.push(i);
            },
        }
        j = j + 1;
    }
    let n = entries.len();
    let mut i: usize = 0;
    assert(entry_sources(photos@, ev, windows) + missing_sources(photos@, ev, windows, 0) =~= entry_sources(photos@, ev, windows));
    while i < photos.len()
        invariant
            i <= photos.len(),
            n == entries.len(),
            ev == entries_view(entries@),
            zone == timezone.name_spec(),
            photo_of.len() == n,
            forall|k: int| 0 <= k < n ==> {
                &&& (#[trigger] ev[k]) is Some
                &&& entry_photo(photos@, ev[k]->Some_0, k, windows) == Some(photo_of@[k] as int)
                &&& photo_of@[k] < photos.len()
            },
            records.len() == n + missing_sources(photos@, ev, windows, i as int).len(),
            forall|p: int| 0 <= p < records.len() ==> record_from(photos@, ev, zone,
                (entry_sources(photos@, ev, windows) + missing_sources(photos@, ev, windows, i as int))[p], #[trigger] records@[p]),
        decreases photos.len() - i,
    {
        let id = photos[i].id;
        let mut described_here = false;
        let mut k: usize = 0;
        while k < n
            invariant
                k <= n == photo_of.len() == entries.len(),
                ev == entries_view(entries@),
                i < photos.len(),
                id == photos@[i as int].id,
                forall|q: int| 0 <= q < n ==> {
                    &&& (#[trigger] ev[q]) is Some
                    &&& entry_photo(photos@, ev[q]->Some_0, q, windows) == Some(photo_of@[q] as int)
                    &&& photo_of@[q] < photos.len()
                },
                described_here == exists|q: int| 0 <= q < k && #[trigger] ev[q] is Some && entry_describes(photos@, ev[q]->Some_0, q, windows, id),
            decreases n - k,
        {
            if photos[photo_of[k]].id == id {
                described_here = true;
            }
            assert(entry_describes(photos@, ev[k as int]->Some_0, k as int, windows, id) == (photos@[photo_of@[k as int] as int].id == id));
            k = k + 1;
        }
        assert(described_here == described(photos@, ev, id, windows));
        let ghost before = records@;
        let ghost srcs = entry_sources(photos@, ev, windows) + missing_sources(photos@, ev, windows, i as int);
        if !described_here {
            records.push(missing_record(&photos[i]));
            assert(entry_sources(photos@, ev, windows) + missing_sources(photos@, ev, windows, i + 1) =~= srcs.push(RecordSource::Missing(i as int)));
        } else {
            assert(entry_sources(photos@, ev, windows) + missing_sources(photos@, ev, windows, i + 1) =~= srcs);
        }
        i = i + 1;
    }
    let ghost sources = record_sources(photos@, ev, windows);
    assert(sources =~= entry_sources(photos@, ev, windows) + missing_sources(photos@, ev, windows, photos.len() as int));
    let mut ids: Vec<u128> = Vec::new();
    let mut p: usize = 0;
    while p < records.len()
        invariant
            p <= records.len() == sources.len(),
            sources == record_sources(photos@, ev, windows),
            forall|q: int| 0 <= q < records.len() ==> record_from(photos@, ev, zone, sources[q], #[trigger] records@[q]),
            ids@ == source_ids(photos@, sources).take(p as int),
        decreases records.len() - p,
    {
        assert(record_from(photos@, ev, zone, sources[p as int], records@[p as int]));
        ids.push(records[p].photo_id);
        assert(source_ids(photos@, sources).take(p + 1) =~= source_ids(photos@, sources).take(p as int).push(records@[p as int].photo_id));
        p = p + 1;
    }
    assert(ids@ =~= source_ids(photos@, sources));
    let order = id_order(&ids);
    let mut out: Vec<MetadataRecord> = Vec::new();
    let mut q: usize = 0;
    while q < order.len()
        invariant
            q <= order.len() == records.len(),
            is_id_order(source_ids(photos@, sources), order@),
            forall|r: int| 0 <= r < records.len() ==> record_from(photos@, ev, zone, sources[r], #[trigger] records@[r]),
            out.len() == q,
            forall|r: int| 0 <= r < q ==> record_from(photos@, ev, zone, sources[order@[r] as int], #[trigger] out@[r]),
        decreases order.len() - q,
    {
        let k = order[q];
        out.push(records[k].clone());
        q = q + 1;
    }
    assert(records_are(photos@, ev, zone, windows, out@));
    Ok(out)
}

proof fn lemma_photo_for_key_bounds(photos: Seq<PhotoRef>, key: Seq<char>, windows: bool)
    ensures
        match photo_for_key(photos, key, windows) {
            Some(i) => 0 <= i < photos.len(),
            None => true,
        },
    decreases photos.len(),
{
    if photos.len() > 0 && path_key(photos.last().path@, windows) != key {
        lemma_photo_for_key_bounds(photos.drop_last(), key, windows);
    }
}


/// ExifTool's error output is only ever described by its size: two outputs of the same size
/// are reported alike, whatever paths or coordinates they hold.
pub proof fn law_error_output_reported_by_size_only(a: Seq<u8>, b: Seq<u8>)
    requires
        a.len() == b.len(),
    ensures
        redacted(a.len()) == redacted(b.len()),
        a.len() > 0 ==> redacted(a.len()) == "ExifTool 返回了 "@ + decimal(a.len()) + " 字节错误信息（完整路径和坐标已隐藏）"@,
{
}

} // verus!
