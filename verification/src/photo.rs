use vstd::prelude::*;
use crate::error::{AppError, is_invalid_error};
use crate::gpx::{uuid_v5_of, uuid_v5_url};
use crate::paths::{extension, extension_of_name, file_name, file_name_in, is_absolute, is_absolute_path, strip_path_prefix, stripped_in};
use crate::text::{ascii_lower_seq, chars_of, decimal, decimal_text, push_str, string_from_chars, str_equal, to_ascii_lowercase, trim_spaces, trimmed};

verus! {

/// Which photos to scan: a directory, whether to descend into subdirectories, and the
/// extensions to accept (the default set when none are given).
#[derive(Debug)]
pub struct ScanPhotosRequest {
    pub directory: String,
    pub recursive: bool,
    pub extensions: Option<Vec<String>>,
}

/// A file that could not be scanned, and why.
#[derive(Debug)]
pub struct PhotoScanWarning {
    pub path: String,
    pub message: String,
}

/// Scans descend into subdirectories unless told otherwise.
pub fn default_recursive() -> (b: bool)
    ensures
        b,
{
    true
}

/// The extensions scanned when the request names none.
pub open spec fn default_extensions() -> Seq<Seq<char>> {
    seq![
        "arw"@, "cr2"@, "cr3"@, "dng"@, "heic"@, "heif"@, "jpeg"@, "jpg"@, "nef"@, "orf"@, "png"@, "raf"@,
        "rw2"@, "tif"@, "tiff"@, "webp"@,
    ]
}

/// `a` comes before `b` in the order of their characters (the order of `str`'s `Ord`).
pub open spec fn text_less(a: Seq<char>, b: Seq<char>) -> bool
    decreases a.len(),
{
    if b.len() == 0 {
        false
    } else if a.len() == 0 {
        true
    } else if a[0] != b[0] {
        a[0] < b[0]
    } else {
        text_less(a.drop_first(), b.drop_first())
    }
}

/// Distinct texts in increasing order.
pub open spec fn texts_increasing(s: Seq<Seq<char>>) -> bool {
    forall|i: int, j: int| 0 <= i < j < s.len() ==> text_less(#[trigger] s[i], #[trigger] s[j])
}

/// An extension as given: without leading dots, in ASCII lower case.
pub open spec fn extension_key(value: Seq<char>) -> Seq<char> {
    ascii_lower_seq(value.skip(leading_dots(value)))
}

/// Number of leading `.` characters.
pub open spec fn leading_dots(value: Seq<char>) -> int
    decreases value.len(),
{
    if value.len() > 0 && value[0] == '.' {
        1 + leading_dots(value.drop_first())
    } else {
        0
    }
}

pub open spec fn strings_view(v: Seq<String>) -> Seq<Seq<char>> {
    v.map_values(|s: String| s@)
}

/// Whether a scan accepts an extension: one of the given ones (normalized), or one of the
/// default set when none are given.
pub open spec fn accepted(values: Option<Seq<Seq<char>>>, e: Seq<char>) -> bool {
    match values {
        Some(v) if v.len() > 0 => exists|k: int| 0 <= k < v.len() && extension_key(#[trigger] v[k]) == e,
        _ => default_extensions().contains(e),
    }
}

pub fn text_less_exec(a: &Vec<char>, b: &Vec<char>) -> (less: bool)
    ensures
        less == text_less(a@, b@),
{
    let mut i: usize = 0;
    assert(a@.skip(0) =~= a@);
    assert(b@.skip(0) =~= b@);
    while i < a.len() && i < b.len() && a[i] == b[i]
        invariant
            i <= a.len(),
            i <= b.len(),
            text_less(a@, b@) == text_less(a@.skip(i as int), b@.skip(i as int)),
        decreases a.len() - i,
    {
        assert(a@.skip(i as int).drop_first() =~= a@.skip(i + 1));
        assert(b@.skip(i as int).drop_first() =~= b@.skip(i + 1));
        i = i + 1;
    }
    if i == b.len() {
        false
    } else if i == a.len() {
        true
    } else {
        a[i] < b[i]
    }
}

pub proof fn lemma_text_less_irreflexive(a: Seq<char>)
    ensures
        !text_less(a, a),
    decreases a.len(),
{
    if a.len() > 0 {
        lemma_text_less_irreflexive(a.drop_first());
    }
}

pub proof fn lemma_text_less_trichotomy(a: Seq<char>, b: Seq<char>)
    ensures
        a != b ==> text_less(a, b) || text_less(b, a),
        !(text_less(a, b) && text_less(b, a)),
    decreases a.len(),
{
    if a.len() == 0 && b.len() == 0 {
        assert(a =~= b);
    } else if a.len() > 0 && b.len() > 0 && a[0] == b[0] {
        lemma_text_less_trichotomy(a.drop_first(), b.drop_first());
        if a.drop_first() =~= b.drop_first() {
            assert forall|i: int| 0 <= i < a.len() implies a[i] == b[i] by {
                if i > 0 {
                    assert(a[i] == a.drop_first()[i - 1]);
                    assert(b[i] == b.drop_first()[i - 1]);
                }
            }
            assert(a =~= b);
        }
    }
}

pub proof fn lemma_text_less_transitive(a: Seq<char>, b: Seq<char>, c: Seq<char>)
    requires
        text_less(a, b),
        text_less(b, c),
    ensures
        text_less(a, c),
    decreases a.len(),
{
    if a.len() > 0 && b.len() > 0 && c.len() > 0 && a[0] == b[0] && b[0] == c[0] {
        lemma_text_less_transitive(a.drop_first(), b.drop_first(), c.drop_first());
    }
}

fn strip_leading_dots(value: &str) -> (out: Vec<char>)
    ensures
        out@ == value@.skip(leading_dots(value@)),
{
    let chars = chars_of(value);
    let mut i: usize = 0;
    assert(value@.skip(0) =~= value@);
    while i < chars.len() && chars[i] == '.'
        invariant
            i <= chars.len(),
            chars@ == value@,
            leading_dots(value@) == i + leading_dots(value@.skip(i as int)),
        decreases chars.len() - i,
    {
        assert(value@.skip(i as int).drop_first() =~= value@.skip(i + 1));
        i = i + 1;
    }
    let mut out: Vec<char> = Vec::new();
    let mut k: usize = i;
    while k < chars.len()
        invariant
            i <= k <= chars.len(),
            chars@ == value@,
            out@ == value@.subrange(i as int, k as int),
        decreases chars.len() - k,
    {
        out.push(chars[k]);
        assert(value@.subrange(i as int, k + 1) =~= value@.subrange(i as int, k as int).push(value@[k as int]));
        k = k + 1;
    }
    assert(value@.skip(i as int) =~= value@.subrange(i as int, chars.len() as int));
    out
}

/// Inserts `e` into an increasing list of distinct texts, unless it is already there.
fn insert_sorted(list: &mut Vec<Vec<char>>, e: Vec<char>)
    requires
        texts_increasing(chars_view(old(list)@)),
    ensures
        texts_increasing(chars_view(final(list)@)),
        forall|x: Seq<char>| #[trigger] chars_view(final(list)@).contains(x) <==> (chars_view(old(list)@).contains(x) || x == e@),
{
    let ghost before = chars_view(list@);
    let mut p: usize = 0;
    while p < list.len() && text_less_exec(&list[p], &e)
        invariant
            p <= list.len(),
            before == chars_view(list@),
            texts_increasing(before),
            forall|i: int| 0 <= i < p ==> text_less(#[trigger] before[i], e@),
        decreases list.len() - p,
    {
        p = p + 1;
    }
    proof {
        assert forall|i: int| p <= i < before.len() implies !text_less(#[trigger] before[i], e@) by {
            if p < before.len() && i > p {
                if text_less(before[i], e@) {
                    lemma_text_less_transitive(before[p as int], before[i], e@);
                }
            }
        }
    }
    if p < list.len() && str_equal_chars(&list[p], &e) {
        assert(before[p as int] == e@);
        return;
    }
    proof {
        if p < before.len() {
            lemma_text_less_trichotomy(before[p as int], e@);
            assert(before[p as int] != e@);
            assert(text_less(e@, before[p as int]));
            assert forall|q: int| p <= q < before.len() implies text_less(e@, #[trigger] before[q]) by {
                if q > p {
                    lemma_text_less_transitive(e@, before[p as int], before[q]);
                }
            }
        }
    }
    let ghost ev = e@;
    list.insert(p, e);
    proof {
        let after = chars_view(list@);
        assert(after =~= before.insert(p as int, ev));
        assert forall|i: int, j: int| 0 <= i < j < after.len() implies text_less(#[trigger] after[i], #[trigger] after[j]) by {
            if j < p {
            } else if j == p {
            } else if i == p {
                assert(text_less(ev, before[j - 1]));
            } else if i < p {
                assert(text_less(ev, before[j - 1]));
                lemma_text_less_transitive(before[i], ev, before[j - 1]);
            } else {
            }
        }
        assert forall|x: Seq<char>| #[trigger] after.contains(x) <==> (before.contains(x) || x == ev) by {
            if after.contains(x) {
                let j = choose|j: int| 0 <= j < after.len() && after[j] == x;
                if j < p {
                    assert(before[j] == x);
                } else if j > p {
                    assert(before[j - 1] == x);
                }
            }
            if before.contains(x) {
                let j = choose|j: int| 0 <= j < before.len() && before[j] == x;
                if j < p {
                    assert(after[j] == x);
                } else {
                    assert(after[j + 1] == x);
                }
            }
            if x == ev {
                assert(after[p as int] == x);
            }
        }
    }
}

fn str_equal_chars(a: &Vec<char>, b: &Vec<char>) -> (eq: bool)
    ensures
        eq == (a@ == b@),
{
    crate::paths::chars_equal(a, b)
}

pub open spec fn chars_view(v: Seq<Vec<char>>) -> Seq<Seq<char>> {
    v.map_values(|c: Vec<char>| c@)
}

/// The extensions a scan accepts, in increasing order without repetitions (what the set of
/// them iterates).
pub fn normalized_extensions(values: Option<&Vec<String>>) -> (exts: Vec<String>)
    ensures
        texts_increasing(strings_view(exts@)),
        forall|e: Seq<char>| #[trigger] strings_view(exts@).contains(e) <==> accepted(match values { Some(v) => Some(strings_view(v@)), None => None }, e),
{
    let mut list: Vec<Vec<char>> = Vec::new();
    let use_given = match values {
        Some(v) => v.len() > 0,
        None => false,
    };
    if use_given {
        let v = values.unwrap();
        let ghost vs = strings_view(v@);
        let mut i: usize = 0;
        while i < v.len()
            invariant
                i <= v.len(),
                vs == strings_view(v@),
                texts_increasing(chars_view(list@)),
                forall|e: Seq<char>| #[trigger] chars_view(list@).contains(e) <==> exists|k: int| 0 <= k < i && extension_key(#[trigger] vs[k]) == e,
            decreases v.len() - i,
        {
            let stripped = strip_leading_dots(v[i].as_str());
            let lowered_text = to_ascii_lowercase(string_from_chars(&stripped).as_str());
            let lowered = chars_of(lowered_text.as_str());
            assert(lowered@ =~= extension_key(vs[i as int]));
            let ghost before = chars_view(list@);
            insert_sorted(&mut list, lowered);
            assert forall|e: Seq<char>| #[trigger] chars_view(list@).contains(e) <==> exists|k: int| 0 <= k < i + 1 && extension_key(#[trigger] vs[k]) == e by {
                if chars_view(list@).contains(e) {
                    if e != extension_key(vs[i as int]) {
                        assert(before.contains(e));
                        let k = choose|k: int| 0 <= k < i && extension_key(#[trigger] vs[k]) == e;
                        assert(0 <= k < i + 1 && extension_key(vs[k]) == e);
                    } else {
                        assert(extension_key(vs[i as int]) == e);
                    }
                }
                if exists|k: int| 0 <= k < i + 1 && extension_key(#[trigger] vs[k]) == e {
                    let k = choose|k: int| 0 <= k < i + 1 && extension_key(#[trigger] vs[k]) == e;
                    if k < i {
                        assert(before.contains(e));
                    }
                }
            }
            i = i + 1;
        }
    } else {
        let defaults = vec![
            "arw", "cr2", "cr3", "dng", "heic", "heif", "jpeg", "jpg", "nef", "orf", "png", "raf", "rw2", "tif",
            "tiff", "webp",
        ];
        let ghost ds = defaults@.map_values(|d: &str| d@);
        assert(ds =~= default_extensions());
        let mut i: usize = 0;
        while i < defaults.len()
            invariant
                i <= defaults.len(),
                ds == defaults@.map_values(|d: &str| d@),
                texts_increasing(chars_view(list@)),
                forall|e: Seq<char>| #[trigger] chars_view(list@).contains(e) <==> ds.take(i as int).contains(e),
            decreases defaults.len() - i,
        {
            let ghost before = chars_view(list@);
            insert_sorted(&mut list, chars_of(defaults[i]));
            assert(ds.take(i + 1) =~= ds.take(i as int).push(ds[i as int]));
            assert forall|e: Seq<char>| #[trigger] chars_view(list@).contains(e) <==> ds.take(i + 1).contains(e) by {
                if ds.take(i + 1).contains(e) {
                    let k = choose|k: int| 0 <= k < i + 1 && #[trigger] ds.take(i + 1)[k] == e;
                    if k < i {
                        assert(ds.take(i as int)[k] == e);
                    }
                }
                if ds.take(i as int).contains(e) {
                    let k = choose|k: int| 0 <= k < i && #[trigger] ds.take(i as int)[k] == e;
                    assert(ds.take(i + 1)[k] == e);
                }
                if e == ds[i as int] {
                    assert(ds.take(i + 1)[i as int] == e);
                }
            }
            i = i + 1;
        }
        assert(ds.take(i as int) =~= default_extensions());
    }
    let mut exts: Vec<String> = Vec::new();
    let mut k: usize = 0;
    while k < list.len()
        invariant
            k <= list.len(),
            exts@.len() == k,
            forall|j: int| 0 <= j < k ==> (#[trigger] exts@[j])@ == list@[j]@,
        decreases list.len() - k,
    {
        exts.push(string_from_chars(&list[k]));
        k = k + 1;
    }
    assert(strings_view(exts@) =~= chars_view(list@));
    exts
}

/// A path is scanned when its extension, in ASCII lower case, is accepted.
pub open spec fn supported(path: Seq<char>, extensions: Seq<Seq<char>>, windows: bool) -> bool {
    match file_name_in(path, windows) {
        None => false,
        Some(name) => match extension_of_name(name) {
            None => false,
            Some(e) => extensions.contains(ascii_lower_seq(e)),
        },
    }
}

/// Whether the path has an accepted extension.
#[verifier::loop_isolation(false)]
pub fn is_supported(path: &str, extensions: &Vec<String>, windows: bool) -> (b: bool)
    ensures
        b == supported(path@, strings_view(extensions@), windows),
{
    match extension(path, windows) {
        None => false,
        Some(e) => {
            let lowered = to_ascii_lowercase(e.as_str());
            let ghost xs = strings_view(extensions@);
            let mut i: usize = 0;
            while i < extensions.len()
                invariant
                    i <= extensions.len(),
                    xs == strings_view(extensions@),
                    forall|j: int| 0 <= j < i ==> xs[j] != lowered@,
                decreases extensions.len() - i,
            {
                if str_equal(extensions[i].as_str(), lowered.as_str()) {
                    assert(xs[i as int] == lowered@);
                    assert(xs.contains(lowered@));
                    return true;
                }
                i = i + 1;
            }
            assert(!xs.contains(lowered@));
            false
        },
    }
}

/// Checks that a scan directory is a non-blank absolute path on the platform.
pub fn check_scan_directory(directory: &str, windows: bool) -> (result: Result<(), AppError>)
    ensures
        (trimmed(directory@).len() == 0 || !is_absolute_path(directory@, windows)) <==> result is Err,
        result is Err ==> is_invalid_error(result->Err_0, "照片目录必须是非空绝对路径。"@),
{
    let t = trim_spaces(directory);
    if t.as_str().is_empty() || !is_absolute(directory, windows) {
        return Err(AppError::invalid("照片目录必须是非空绝对路径。".to_owned()));
    }
    Ok(())
}


/// What identifies a scanned photo: its identity (derived from its canonical path, content hash
/// and size), its canonical path, its path relative to the scanned directory, its file name
/// and its extension in ASCII lower case.
#[derive(Debug)]
pub struct PhotoIdentity {
    pub id: u128,
    pub path: String,
    pub relative_path: String,
    pub file_name: String,
    pub extension: String,
}

/// The key a photo's identity is derived from.
pub open spec fn photo_key(path: Seq<char>, sha256: Seq<char>, size_bytes: u64) -> Seq<char> {
    path + "|"@ + sha256 + "|"@ + decimal(size_bytes as nat)
}

/// The identity of a photo at a canonical path inside the scanned directory, or why it has
/// none: a photo outside the directory, then a path without a file name.
pub open spec fn photo_identity_is(canonical: Seq<char>, root: Seq<char>, sha256: Seq<char>, size_bytes: u64, windows: bool, r: Result<PhotoIdentity, AppError>) -> bool {
    match stripped_in(canonical, root, windows) {
        None => r is Err && is_invalid_error(r->Err_0, "照片不在所选扫描目录内。"@),
        Some(rel) => match file_name_in(canonical, windows) {
            None => r is Err && is_invalid_error(r->Err_0, "照片文件名不是有效 Unicode。"@),
            Some(name) => r is Ok && {
                let p = r->Ok_0;
                &&& p.id == uuid_v5_url(photo_key(canonical, sha256, size_bytes))
                &&& p.path@ == canonical
                &&& p.relative_path@ == rel
                &&& p.file_name@ == name
                &&& p.extension@ == match extension_of_name(name) {
                    Some(e) => ascii_lower_seq(e),
                    None => Seq::<char>::empty(),
                }
            },
        },
    }
}

/// Identifies a scanned photo (see `photo_identity_is`).
pub fn photo_identity(canonical: &str, root: &str, sha256: &str, size_bytes: u64, windows: bool) -> (r: Result<PhotoIdentity, AppError>)
    ensures
        photo_identity_is(canonical@, root@, sha256@, size_bytes, windows, r),
{
    let relative_path = match strip_path_prefix(canonical, root, windows) {
        None => {
            return Err(AppError::invalid("照片不在所选扫描目录内。".to_owned()));
        },
        Some(r) => r,
    };
    let file_name = match file_name(canonical, windows) {
        None => {
            return Err(AppError::invalid("照片文件名不是有效 Unicode。".to_owned()));
        },
        Some(n) => n,
    };
    let extension = match extension(canonical, windows) {
        None => String::new(),
        Some(e) => to_ascii_lowercase(e.as_str()),
    };
    let mut key = canonical.to_owned();
    push_str(&mut key, "|");
    push_str(&mut key, sha256);
    push_str(&mut key, "|");
    push_str(&mut key, decimal_text(size_bytes).as_str());
    let id = uuid_v5_of(key.as_str());
    Ok(PhotoIdentity { id, path: canonical.to_owned(), relative_path, file_name, extension })
}

/// The progress message while scanning a file.
pub fn scan_progress_message(path: &str, windows: bool) -> (m: String)
    ensures
        m@ == "正在扫描 "@ + match file_name_in(path@, windows) {
            Some(n) => n,
            None => "照片"@,
        },
{
    let mut m = "正在扫描 ".to_owned();
    match file_name(path, windows) {
        Some(n) => push_str(&mut m, n.as_str()),
        None => push_str(&mut m, "照片"),
    }
    m
}


/// `a` comes before `b` when ordered by text, and by position among equal texts.
pub open spec fn text_before(texts: Seq<Seq<char>>, a: int, b: int) -> bool {
    text_less(texts[a], texts[b]) || (texts[a] == texts[b] && a < b)
}

/// `order` lists every position of `texts` once, in text order (equal texts keep their order).
pub open spec fn is_text_order(texts: Seq<Seq<char>>, order: Seq<usize>) -> bool {
    &&& order.len() == texts.len()
    &&& forall|i: int| 0 <= i < order.len() ==> #[trigger] order[i] < texts.len()
    &&& forall|i: int, j: int| 0 <= i < j < order.len() ==> text_before(texts, #[trigger] order[i] as int, #[trigger] order[j] as int)
}

proof fn lemma_text_before_total(texts: Seq<Seq<char>>, a: int, b: int)
    requires
        a != b,
    ensures
        text_before(texts, a, b) || text_before(texts, b, a),
        !(text_before(texts, a, b) && text_before(texts, b, a)),
{
    lemma_text_less_trichotomy(texts[a], texts[b]);
    lemma_text_less_irreflexive(texts[a]);
}

proof fn lemma_text_before_transitive(texts: Seq<Seq<char>>, a: int, b: int, c: int)
    requires
        text_before(texts, a, b),
        text_before(texts, b, c),
    ensures
        text_before(texts, a, c),
{
    if text_less(texts[a], texts[b]) && text_less(texts[b], texts[c]) {
        lemma_text_less_transitive(texts[a], texts[b], texts[c]);
    }
}

/// The order in which scanned files are processed: by path text.
pub fn path_order(paths: &Vec<String>) -> (order: Vec<usize>)
    ensures
        is_text_order(strings_view(paths@), order@),
{
    let ghost texts = strings_view(paths@);
    let mut chars: Vec<Vec<char>> = Vec::new();
    let mut m: usize = 0;
    while m < paths.len()
        invariant
            m <= paths.len(),
            texts == strings_view(paths@),
            chars@.len() == m,
            forall|j: int| 0 <= j < m ==> (#[trigger] chars@[j])@ == texts[j],
        decreases paths.len() - m,
    {
        chars.push(chars_of(paths[m].as_str()));
        m = m + 1;
    }
    let mut order: Vec<usize> = Vec::new();
    let mut k: usize = 0;
    while k < paths.len()
        invariant
            k <= paths.len() == chars.len(),
            texts == strings_view(paths@),
            forall|j: int| 0 <= j < chars.len() ==> (#[trigger] chars@[j])@ == texts[j],
            order.len() == k,
            forall|i: int| 0 <= i < order.len() ==> #[trigger] order@[i] < k,
            forall|i: int, j: int| 0 <= i < j < order.len() ==> text_before(texts, #[trigger] order@[i] as int, #[trigger] order@[j] as int),
        decreases paths.len() - k,
    {
        let mut p: usize = 0;
        while p < order.len() && !text_less_exec(&chars[k], &chars[order[p]])
            invariant
                p <= order.len() == k < chars.len(),
                forall|j: int| 0 <= j < chars.len() ==> (#[trigger] chars@[j])@ == texts[j],
                forall|i: int| 0 <= i < order.len() ==> #[trigger] order@[i] < k,
                forall|i: int| 0 <= i < p ==> text_before(texts, #[trigger] order@[i] as int, k as int),
            decreases order.len() - p,
        {
            proof { lemma_text_before_total(texts, order@[p as int] as int, k as int); }
            p = p + 1;
        }
        let ghost before = order@;
        proof {
            if p < before.len() {
                assert(text_before(texts, k as int, before[p as int] as int));
            }
            assert forall|i: int| p <= i < before.len() implies text_before(texts, k as int, #[trigger] before[i] as int) by {
                if i > p {
                    lemma_text_before_transitive(texts, k as int, before[p as int] as int, before[i] as int);
                }
            }
        }
        order.insert(p, k);
        assert forall|i: int, j: int| 0 <= i < j < order.len() implies text_before(texts, #[trigger] order@[i] as int, #[trigger] order@[j] as int) by {
            if j < p {
                assert(order@[i] == before[i] && order@[j] == before[j]);
            } else if j == p {
                assert(order@[i] == before[i]);
            } else if i == p {
                assert(order@[j] == before[j - 1]);
            } else if i < p {
                assert(order@[i] == before[i] && order@[j] == before[j - 1]);
                lemma_text_before_transitive(texts, before[i] as int, k as int, before[j - 1] as int);
            } else {
                assert(order@[i] == before[i - 1] && order@[j] == before[j - 1]);
            }
        }
        k = k + 1;
    }
    order
}


/// A photo keeps its identity as long as its canonical path, content hash and size stay the
/// same, wherever the scan started.
pub proof fn law_photo_identity_is_stable(canonical: Seq<char>, root_a: Seq<char>, root_b: Seq<char>, sha256: Seq<char>, size_bytes: u64, windows: bool, a: PhotoIdentity, b: PhotoIdentity)
    requires
        photo_identity_is(canonical, root_a, sha256, size_bytes, windows, Ok(a)),
        photo_identity_is(canonical, root_b, sha256, size_bytes, windows, Ok(b)),
    ensures
        a.id == b.id,
        a.path@ == b.path@,
        a.file_name@ == b.file_name@,
        a.extension@ == b.extension@,
{
}

} // verus!
