use vstd::prelude::*;
use crate::domain::FileFingerprint;
use crate::error::{AppError, ErrorCode, error_is, is_invalid_error};
use crate::paths::{components, file_name, file_name_in, join_path, joined_in, native_string, native_text, path_body, path_components, path_prefix, root_part, split_path};
use crate::text::{chars_of, join_chars, join_with, push_str, str_equal, string_from_chars, uuid_hyphenated, uuid_text};

verus! {

// ---------------------------------------------------------------------------------------------
// Fingerprints
// ---------------------------------------------------------------------------------------------

/// Milliseconds since the Unix epoch of an instant given as whole seconds and the nanoseconds
/// into the second (`DateTime::timestamp_millis`): the seconds in milliseconds plus the whole
/// milliseconds of the fraction.
pub open spec fn unix_millis(secs: i64, subsec_nanos: u32) -> int {
    secs * 1000 + subsec_nanos / 1_000_000
}

/// The modification time of a fingerprint, in milliseconds since the epoch: the epoch itself
/// when the file system cannot tell.
pub open spec fn modified_millis(modified: Option<(i64, u32)>) -> int {
    match modified {
        Some((secs, nanos)) => unix_millis(secs, nanos),
        None => 0,
    }
}

/// Milliseconds since the epoch (see `unix_millis`).
pub fn unix_millis_of(secs: i64, subsec_nanos: u32) -> (ms: i64)
    requires
        i64::MIN <= unix_millis(secs, subsec_nanos) <= i64::MAX,
    ensures
        ms == unix_millis(secs, subsec_nanos),
{
    let wide: i128 = secs as i128 * 1000 + (subsec_nanos / 1_000_000) as i128;
    wide as i64
}

/// A file's fingerprint: its content hash, its size and its modification time (see
/// `modified_millis`), given as whole seconds and nanoseconds since the epoch.
pub fn file_fingerprint(sha256: String, size_bytes: u64, modified: Option<(i64, u32)>) -> (f: FileFingerprint)
    requires
        i64::MIN <= modified_millis(modified) <= i64::MAX,
    ensures
        f.sha256@ == sha256@,
        f.size_bytes == size_bytes,
        f.modified_unix_ms == modified_millis(modified),
{
    let modified_unix_ms = match modified {
        Some((secs, nanos)) => unix_millis_of(secs, nanos),
        None => 0,
    };
    FileFingerprint { sha256, size_bytes, modified_unix_ms }
}

/// A file's size and modification time agree with a fingerprint (its content still has to be
/// compared).
pub open spec fn metadata_agrees(size_bytes: u64, modified_unix_ms: i64, expected: FileFingerprint) -> bool {
    size_bytes == expected.size_bytes && modified_unix_ms == expected.modified_unix_ms
}

/// Whether the size and modification time agree with a fingerprint; when they do not, the
/// file has changed and its content need not be read.
pub fn metadata_matches(size_bytes: u64, modified_unix_ms: i64, expected: &FileFingerprint) -> (agrees: bool)
    ensures
        agrees == metadata_agrees(size_bytes, modified_unix_ms, *expected),
{
    size_bytes == expected.size_bytes && modified_unix_ms == expected.modified_unix_ms
}

/// Whether a file still has a fingerprint: the same size, modification time and content hash.
pub fn fingerprint_matches(size_bytes: u64, modified_unix_ms: i64, sha256: &str, expected: &FileFingerprint) -> (matches: bool)
    ensures
        matches == (metadata_agrees(size_bytes, modified_unix_ms, *expected) && sha256@ == expected.sha256@),
{
    metadata_matches(size_bytes, modified_unix_ms, expected) && str_equal(sha256, expected.sha256.as_str())
}

// ---------------------------------------------------------------------------------------------
// Checks on chosen paths
// ---------------------------------------------------------------------------------------------

/// A path chosen as a file must be one.
pub fn require_file(is_file: bool) -> (result: Result<(), AppError>)
    ensures
        is_file <==> result is Ok,
        !is_file ==> is_invalid_error(result->Err_0, "所选路径不是文件。"@),
{
    if is_file { Ok(()) } else { Err(AppError::invalid("所选路径不是文件。".to_owned())) }
}

/// A path chosen as a directory must be one.
pub fn require_directory(is_dir: bool) -> (result: Result<(), AppError>)
    ensures
        is_dir <==> result is Ok,
        !is_dir ==> is_invalid_error(result->Err_0, "所选路径不是目录。"@),
{
    if is_dir { Ok(()) } else { Err(AppError::invalid("所选路径不是目录。".to_owned())) }
}

// ---------------------------------------------------------------------------------------------
// Atomic replacement
// ---------------------------------------------------------------------------------------------

/// The name of a file written beside `target` before it replaces it: hidden, unique, and
/// marked with a suffix (`tmp` or `backup`).
pub open spec fn side_file_name(target: Seq<char>, fallback: Seq<char>, id: u128, suffix: Seq<char>, windows: bool) -> Seq<char> {
    "."@ + match file_name_in(target, windows) {
        Some(n) => n,
        None => fallback,
    } + "."@ + uuid_hyphenated(id) + "."@ + suffix
}

/// The side file name (see `side_file_name`).
pub fn side_file(target: &str, fallback: &str, id: u128, suffix: &str, windows: bool) -> (name: String)
    ensures
        name@ == side_file_name(target@, fallback@, id, suffix@, windows),
{
    let mut name = ".".to_owned();
    match file_name(target, windows) {
        Some(n) => push_str(&mut name, n.as_str()),
        None => push_str(&mut name, fallback),
    }
    push_str(&mut name, ".");
    push_str(&mut name, uuid_text(id).as_str());
    push_str(&mut name, ".");
    push_str(&mut name, suffix);
    name
}

/// An existing output is only replaced when overwriting was asked for.
pub fn check_replace(target: &str, target_exists: bool, overwrite: bool) -> (result: Result<(), AppError>)
    ensures
        (!target_exists || overwrite) <==> result is Ok,
        result is Err ==> error_is(
            result->Err_0,
            ErrorCode::OutputConflict,
            "输出文件已存在："@ + target@,
            "请更改输出目录、启用明确覆盖，或从写入计划中移除冲突项。"@,
            true,
        ),
{
    if target_exists && !overwrite {
        let mut message = "输出文件已存在：".to_owned();
        push_str(&mut message, target);
        return Err(AppError::new(
            ErrorCode::OutputConflict,
            message,
            "请更改输出目录、启用明确覆盖，或从写入计划中移除冲突项。".to_owned(),
            true,
        ));
    }
    Ok(())
}

// ---------------------------------------------------------------------------------------------
// Resolving paths that may not exist yet
// ---------------------------------------------------------------------------------------------

/// A path rebuilt from components: `/` and the names for a rooted one, the names otherwise.
pub open spec fn rebuilt(cs: Seq<Seq<char>>) -> Seq<char> {
    if cs.len() > 0 && cs[0] == root_part() {
        seq!['/'] + join_with(cs.skip(1), '/')
    } else {
        join_with(cs, '/')
    }
}

/// The parent of a path (`Path::parent`): the path without its last component; the root and
/// the empty path have none.
pub open spec fn parent_of(s: Seq<char>) -> Option<Seq<char>> {
    let c = components(s);
    if c.len() == 0 || (c.len() == 1 && c[0] == root_part()) {
        None
    } else {
        Some(rebuilt(c.drop_last()))
    }
}

fn parent_generic(path: &str) -> (parent: Option<String>)
    ensures
        match parent {
            Some(p) => parent_of(path@) == Some(p@),
            None => parent_of(path@) is None,
        },
{
    let comps = path_components(&chars_of(path));
    let ghost c = components(path@);
    let n = comps.len();
    if n == 0 || (n == 1 && comps[0].len() == 1 && comps[0][0] == '/') {
        proof {
            if n == 1 && comps[0]@.len() == 1 && comps[0]@[0] == '/' {
                assert(c[0] =~= root_part());
            }
        }
        return None;
    }
    proof {
        if n == 1 {
            assert(c[0] != root_part());
        }
    }
    let rooted = comps[0].len() == 1 && comps[0][0] == '/';
    proof {
        if rooted {
            assert(c[0] =~= root_part());
        } else {
            assert(c[0] != root_part());
        }
    }
    let start: usize = if rooted { 1 } else { 0 };
    let mut names: Vec<Vec<char>> = Vec::new();
    let mut i: usize = start;
    while i < n - 1
        invariant
            start <= i <= n - 1,
            n == comps.len() == c.len(),
            c == components(path@),
            forall|j: int| 0 <= j < n ==> #[trigger] comps[j]@ == c[j],
            names@.len() == i - start,
            forall|j: int| 0 <= j < names@.len() ==> #[trigger] names@[j]@ == c[start + j],
        decreases n - 1 - i,
    {
        let mut piece: Vec<char> = Vec::new();
        let mut k: usize = 0;
        while k < comps[i].len()
            invariant
                i < n == comps.len(),
                k <= comps[i as int].len(),
                piece@ == comps[i as int]@.take(k as int),
            decreases comps[i as int].len() - k,
        {
            piece.push(comps[i][k]);
            assert(comps[i as int]@.take(k + 1) =~= comps[i as int]@.take(k as int).push(comps[i as int]@[k as int]));
            k = k + 1;
        }
        assert(comps[i as int]@.take(k as int) =~= comps[i as int]@);
        names.push(piece);
        i = i + 1;
    }
    let ghost parts = c.drop_last().skip(start as int);
    assert forall|j: int| 0 <= j < names.len() implies #[trigger] names[j]@ == parts[j] by {}
    let joined = join_chars(&names, '/', Ghost(parts));
    let mut out: Vec<char> = Vec::new();
    if rooted {
        out.push('/');
    }
    let mut k: usize = 0;
    let ghost head = out@;
    while k < joined.len()
        invariant
            k <= joined.len(),
            out@ == head + joined@.take(k as int),
        decreases joined.len() - k,
    {
        out.push(joined[k]);
        assert(joined@.take(k + 1) =~= joined@.take(k as int).push(joined@[k as int]));
        k = k + 1;
    }
    assert(joined@.take(k as int) =~= joined@);
    proof {
        let cs = c.drop_last();
        if rooted {
            assert(cs.skip(1) =~= parts);
            assert(out@ =~= seq!['/'] + join_with(cs.skip(1), '/'));
        } else {
            assert(cs =~= parts);
            assert(out@ =~= join_with(cs, '/'));
        }
    }
    Some(string_from_chars(&out))
}

/// The parent of a path on the platform: its prefix, then the parent of its body written with
/// the platform's separators; a path whose body has no parent has none.
pub open spec fn parent_in(s: Seq<char>, windows: bool) -> Option<Seq<char>> {
    match parent_of(path_body(s, windows)) {
        None => None,
        Some(p) => Some(path_prefix(s, windows) + native_text(p, windows)),
    }
}

/// The parent of a path (see `parent_in`).
pub fn parent_path(path: &str, windows: bool) -> (parent: Option<String>)
    ensures
        match parent {
            Some(p) => parent_in(path@, windows) == Some(p@),
            None => parent_in(path@, windows) is None,
        },
{
    let (prefix, body) = split_path(path, windows);
    match parent_generic(body.as_str()) {
        None => None,
        Some(p) => {
            let mut out = prefix;
            push_str(&mut out, native_string(p.as_str(), windows).as_str());
            Some(out)
        },
    }
}

/// One step of resolving a path that may not exist yet: an existing path is resolved as it
/// is; otherwise its last name is set aside and its parent is tried.
#[derive(Debug)]
pub enum ResolveStep {
    /// Resolve this existing path (with symbolic links followed).
    Resolve(String),
    /// Set this name aside and go on with the parent.
    Climb(String, String),
}

pub open spec fn resolve_step_is(current: Seq<char>, exists: bool, r: Result<ResolveStep, AppError>, windows: bool) -> bool {
    if exists {
        r matches Ok(ResolveStep::Resolve(p)) && p@ == current
    } else {
        match file_name_in(current, windows) {
            None => r is Err && is_invalid_error(r->Err_0, "无法解析目标路径。"@),
            Some(name) => match parent_in(current, windows) {
                None => r is Err && is_invalid_error(r->Err_0, "目标路径缺少可访问的上级目录。"@),
                Some(parent) => r matches Ok(ResolveStep::Climb(n, p)) && n@ == name && p@ == parent,
            },
        }
    }
}

/// The next step of resolving `current` (see `resolve_step_is`).
pub fn resolve_step(current: &str, exists: bool, windows: bool) -> (r: Result<ResolveStep, AppError>)
    ensures
        resolve_step_is(current@, exists, r, windows),
{
    if exists {
        return Ok(ResolveStep::Resolve(current.to_owned()));
    }
    let name = match file_name(current, windows) {
        None => {
            return Err(AppError::invalid("无法解析目标路径。".to_owned()));
        },
        Some(n) => n,
    };
    match parent_path(current, windows) {
        None => Err(AppError::invalid("目标路径缺少可访问的上级目录。".to_owned())),
        Some(parent) => Ok(ResolveStep::Climb(name, parent)),
    }
}

/// `base` with the names set aside put back, the last one set aside first.
pub open spec fn appended_names(base: Seq<char>, set_aside: Seq<Seq<char>>, windows: bool) -> Seq<char>
    decreases set_aside.len(),
{
    if set_aside.len() == 0 {
        base
    } else {
        joined_in(appended_names(base, set_aside.drop_first(), windows), set_aside[0], windows)
    }
}

/// Puts the names set aside back onto the resolved ancestor.
pub fn append_names(base: &str, set_aside: &Vec<String>, windows: bool) -> (out: String)
    ensures
        out@ == appended_names(base@, set_aside@.map_values(|s: String| s@), windows),
{
    let ghost v = set_aside@.map_values(|s: String| s@);
    let mut out = base.to_owned();
    let mut k: usize = set_aside.len();
    assert(v.skip(k as int) =~= Seq::<Seq<char>>::empty());
    while k > 0
        invariant
            k <= set_aside.len(),
            v == set_aside@.map_values(|s: String| s@),
            out@ == appended_names(base@, v.skip(k as int), windows),
        decreases k,
    {
        let ghost before = out@;
        out = join_path(out.as_str(), set_aside[k - 1].as_str(), windows);
        assert(v.skip(k - 1).drop_first() =~= v.skip(k as int));
        assert(v.skip(k - 1)[0] == set_aside@[k - 1]@);
        k = k - 1;
    }
    assert(v.skip(0) =~= v);
    out
}

} // verus!
