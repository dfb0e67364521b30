use vstd::prelude::*;
use vstd::utf8::{decode_utf8, valid_utf8};
use crate::error::{AppError, ErrorCode, error_is};
use crate::paths::{keep_pieces, kept_pieces, split_on, split_pieces, cur_part, parent_part};
use crate::text::{chars_of, digit_char, push_str, str_equal};
use sha2::Digest;

verus! {

// ---------------------------------------------------------------------------------------------
// Hashing
// ---------------------------------------------------------------------------------------------

/// The SHA-256 digest of the bytes (32 bytes), as the `sha2` crate computes it.
pub uninterp spec fn sha256_of(bytes: Seq<u8>) -> Seq<u8>;

/// `sha2::Sha256::digest`; claimed to give the named digest, which has 32 bytes.
#[verifier::external_body]
pub(crate) fn sha256_digest(bytes: &[u8]) -> (digest: Vec<u8>)
    ensures
        digest@ == sha256_of(bytes@),
        digest@.len() == 32,
{
    sha2::Sha256::digest(bytes).to_vec()
}

/// A running SHA-256 computation over bytes fed in pieces (a file read chunk by chunk).
#[verifier::external_body]
pub struct ContentHasher {
    state: sha2::Sha256,
}

/// The bytes a running computation has been fed so far, in order.
pub uninterp spec fn hashed_bytes(hasher: ContentHasher) -> Seq<u8>;

/// `sha2::Sha256::new`: a computation that has been fed nothing.
#[verifier::external_body]
fn hasher_start() -> (hasher: ContentHasher)
    ensures
        hashed_bytes(hasher) == Seq::<u8>::empty(),
{
    ContentHasher { state: sha2::Sha256::new() }
}

/// `Digest::update`: the chunk is appended to what the computation has been fed.
#[verifier::external_body]
fn hasher_feed(hasher: &mut ContentHasher, chunk: &[u8])
    ensures
        hashed_bytes(*final(hasher)) == hashed_bytes(*old(hasher)) + chunk@,
{
    hasher.state.update(chunk);
}

/// `Digest::finalize`: the digest of everything fed, the same (32 bytes) as `Sha256::digest`
/// gives for those bytes taken whole.
#[verifier::external_body]
fn hasher_digest(hasher: ContentHasher) -> (digest: Vec<u8>)
    ensures
        digest@ == sha256_of(hashed_bytes(hasher)),
        digest@.len() == 32,
{
    hasher.state.finalize().to_vec()
}

impl ContentHasher {
    /// A computation that has been fed nothing.
    pub fn new() -> (hasher: ContentHasher)
        ensures
            hashed_bytes(hasher) == Seq::<u8>::empty(),
    {
        hasher_start()
    }

    /// Feeds the next chunk.
    pub fn update(&mut self, chunk: &[u8])
        ensures
            hashed_bytes(*final(self)) == hashed_bytes(*old(self)) + chunk@,
    {
        hasher_feed(self, chunk)
    }

    /// The SHA-256 of everything fed, in lower-case hexadecimal: the same text `sha256_hex`
    /// gives for those bytes taken whole.
    pub fn finish_hex(self) -> (text: String)
        ensures
            text@ == hex_lower(sha256_of(hashed_bytes(self))),
    {
        let digest = hasher_digest(self);
        hex_text(&digest)
    }
}

/// Lower-case hexadecimal notation of bytes, two digits per byte (what `{:x}` prints for a
/// digest).
pub open spec fn hex_lower(bytes: Seq<u8>) -> Seq<char>
    decreases bytes.len(),
{
    if bytes.len() == 0 {
        Seq::empty()
    } else {
        hex_lower(bytes.drop_last()) + seq![digit_char((bytes.last() / 16) as int), digit_char((bytes.last() % 16) as int)]
    }
}

fn hex_digit(d: u8) -> (c: char)
    requires
        d < 16,
    ensures
        c == digit_char(d as int),
{
    if d < 10 {
        (d + 48) as char
    } else {
        (d + 87) as char
    }
}

/// The hexadecimal notation of bytes (see `hex_lower`).
pub fn hex_text(bytes: &Vec<u8>) -> (text: String)
    ensures
        text@ == hex_lower(bytes@),
{
    let mut out: Vec<char> = Vec::new();
    let mut i: usize = 0;
    while i < bytes.len()
        invariant
            i <= bytes.len(),
            out@ == hex_lower(bytes@.take(i as int)),
        decreases bytes.len() - i,
    {
        let b = bytes[i];
        out.push(hex_digit(b / 16));
        out.push(hex_digit(b % 16));
        assert(bytes@.take(i + 1).drop_last() =~= bytes@.take(i as int));
        assert(out@ =~= hex_lower(bytes@.take(i + 1)));
        i = i + 1;
    }
    assert(bytes@.take(i as int) =~= bytes@);
    crate::text::string_from_chars(&out)
}

/// The SHA-256 of bytes in lower-case hexadecimal (what file fingerprints record).
pub fn sha256_hex(bytes: &[u8]) -> (text: String)
    ensures
        text@ == hex_lower(sha256_of(bytes@)),
{
    let digest = sha256_digest(bytes);
    hex_text(&digest)
}

// ---------------------------------------------------------------------------------------------
// The embedded ExifTool archive
// ---------------------------------------------------------------------------------------------

/// `std::str::from_utf8`, as an owned string: the decoded text exactly when the bytes are
/// valid UTF-8.
#[verifier::external_body]
pub(crate) fn utf8_text(bytes: &[u8]) -> (text: Option<String>)
    ensures
        valid_utf8(bytes@) <==> text is Some,
        text is Some ==> text->Some_0@ == decode_utf8(bytes@),
{
    std::str::from_utf8(bytes).ok().map(String::from)
}

/// The archive starts with `GTEXIF01`.
pub open spec fn archive_magic() -> Seq<u8> {
    seq![71u8, 84u8, 69u8, 88u8, 73u8, 70u8, 48u8, 49u8]
}

pub open spec fn le_u16(b: Seq<u8>, at: int) -> int {
    b[at] + b[at + 1] * 256
}

pub open spec fn le_u32(b: Seq<u8>, at: int) -> int {
    b[at] + b[at + 1] * 0x100 + b[at + 2] * 0x10000 + b[at + 3] * 0x1000000
}

pub open spec fn le_u64(b: Seq<u8>, at: int) -> int {
    b[at] + b[at + 1] * 0x100 + b[at + 2] * 0x10000 + b[at + 3] * 0x1000000 + b[at + 4] * 0x100000000
        + b[at + 5] * 0x10000000000 + b[at + 6] * 0x1000000000000 + b[at + 7] * 0x100000000000000
}

/// One file of the archive: its relative path, its expected SHA-256, and where its contents
/// lie in the archive.
#[derive(Debug)]
pub struct PayloadEntry {
    pub path: String,
    pub expected_sha256: Vec<u8>,
    pub start: usize,
    pub length: usize,
}

pub struct EntryText {
    pub path: Seq<char>,
    pub expected_sha256: Seq<u8>,
    pub start: int,
    pub length: int,
}

pub open spec fn entry_text(e: PayloadEntry) -> EntryText {
    EntryText { path: e.path@, expected_sha256: e.expected_sha256@, start: e.start as int, length: e.length as int }
}

/// Why the archive is refused.
#[derive(Debug, Clone, Copy, PartialEq, Eq, Structural)]
pub enum PayloadFailure {
    Truncated,
    BadMagic,
    BadPath,
    TooLarge,
    BadContents,
    UnsafePath,
    TrailingData,
}

// ---------------------------------------------------------------------------------------------
// Archive paths (the archive is unpacked on Windows, so paths are read the Windows way)
// ---------------------------------------------------------------------------------------------

pub open spec fn is_separator(c: char) -> bool {
    c == '/' || c == '\\'
}

/// The path with every backslash written as a forward slash.
pub open spec fn unified(s: Seq<char>) -> Seq<char> {
    s.map_values(|c: char| if c == '\\' { '/' } else { c })
}

/// A drive prefix such as `C:`.
pub open spec fn has_drive_prefix(s: Seq<char>) -> bool {
    s.len() >= 2 && s[1] == ':' && (('a' <= s[0] && s[0] <= 'z') || ('A' <= s[0] && s[0] <= 'Z'))
}

/// A relative path made of names only: not empty, no root, no drive, no leading `.` and no
/// `..` anywhere (a `.` inside the path is dropped when it is read, as are empty pieces).
pub open spec fn archive_path_safe(s: Seq<char>) -> bool {
    let pieces = split_on(unified(s), '/');
    &&& s.len() > 0
    &&& !is_separator(s[0])
    &&& !has_drive_prefix(s)
    &&& pieces[0] != cur_part()
    &&& forall|i: int| 0 <= i < pieces.len() ==> #[trigger] pieces[i] != parent_part()
}

fn unified_chars(value: &str) -> (u: Vec<char>)
    ensures
        u@ == unified(value@),
{
    let chars = chars_of(value);
    let n = chars.len();
    let mut u: Vec<char> = Vec::new();
    let mut i: usize = 0;
    while i < n
        invariant
            i <= n == chars@.len(),
            chars@ == value@,
            u@ == unified(value@).take(i as int),
        decreases n - i,
    {
        let c = chars[i];
        if c == '\\' {
            u.push('/');
        } else {
            u.push(c);
        }
        assert(u@ =~= unified(value@).take(i + 1));
        i = i + 1;
    }
    assert(u@ =~= unified(value@));
    u
}

/// The names an archive path is unpacked under, in order: its pieces between separators of
/// either kind, without empty pieces and `.`.
pub open spec fn archive_names(s: Seq<char>) -> Seq<Seq<char>> {
    kept_pieces(split_on(unified(s), '/'))
}

/// The names an archive path is unpacked under (see `archive_names`).
pub fn entry_names(path: &str) -> (names: Vec<String>)
    ensures
        names@.len() == archive_names(path@).len(),
        forall|i: int| 0 <= i < names@.len() ==> #[trigger] names@[i]@ == archive_names(path@)[i],
{
    let u = unified_chars(path);
    let pieces = split_pieces(&u);
    let ghost gp = split_on(unified(path@), '/');
    assert forall|i: int| 0 <= i < gp.len() implies #[trigger] gp[i] == pieces[0 + i]@ by {}
    let kept = keep_pieces(&pieces, 0, Ghost(gp));
    let mut names: Vec<String> = Vec::new();
    let mut k: usize = 0;
    while k < kept.len()
        invariant
            k <= kept.len(),
            kept.len() == archive_names(path@).len(),
            forall|i: int| 0 <= i < kept.len() ==> #[trigger] kept[i]@ == archive_names(path@)[i],
            names@.len() == k,
            forall|i: int| 0 <= i < k ==> #[trigger] names@[i]@ == archive_names(path@)[i],
        decreases kept.len() - k,
    {
        names.push(crate::text::string_from_chars(&kept[k]));
        k = k + 1;
    }
    names
}

/// Whether an archive path is a safe relative path (see `archive_path_safe`).
pub fn is_archive_path_safe(value: &str) -> (safe: bool)
    ensures
        safe == archive_path_safe(value@),
{
    let chars = chars_of(value);
    let n = chars.len();
    if n == 0 {
        return false;
    }
    let c0 = chars[0];
    if c0 == '/' || c0 == '\\' {
        return false;
    }
    if n >= 2 && chars[1] == ':' && ((c0 >= 'a' && c0 <= 'z') || (c0 >= 'A' && c0 <= 'Z')) {
        return false;
    }
    let u = unified_chars(value);
    let pieces = split_pieces(&u);
    let ghost gp = split_on(unified(value@), '/');
    proof { crate::paths::lemma_split_on_nonempty(unified(value@), '/'); }
    let first = &pieces[0];
    if first.len() == 1 && first[0] == '.' {
        assert(first@ =~= cur_part());
        return false;
    }
    assert(gp[0] != cur_part()) by {
        if gp[0] == cur_part() {
            assert(first@[0] == '.');
        }
    }
    let mut k: usize = 0;
    while k < pieces.len()
        invariant
            k <= pieces.len() == gp.len(),
            gp == split_on(unified(value@), '/'),
            value@.len() > 0,
            !is_separator(value@[0]),
            !has_drive_prefix(value@),
            gp[0] != cur_part(),
            forall|j: int| 0 <= j < pieces.len() ==> #[trigger] pieces[j]@ == gp[j],
            forall|j: int| 0 <= j < k ==> #[trigger] gp[j] != parent_part(),
        decreases pieces.len() - k,
    {
        let p = &pieces[k];
        if p.len() == 2 && p[0] == '.' && p[1] == '.' {
            assert(p@ =~= parent_part());
            assert(pieces[k as int]@ == gp[k as int]);
            assert(gp[k as int] == parent_part());
            return false;
        }
        assert(gp[k as int] != parent_part()) by {
            if gp[k as int] == parent_part() {
                assert(p@[0] == '.' && p@[1] == '.');
            }
        }
        k = k + 1;
    }
    true
}

/// The path of an archive entry, refused unless it is a safe relative path.
pub fn safe_relative_path(value: &str) -> (result: Result<String, AppError>)
    ensures
        archive_path_safe(value@) <==> result is Ok,
        result matches Ok(p) ==> p@ == value@,
        result is Err ==> error_is(result->Err_0, ErrorCode::ExiftoolNotAvailable, payload_message(PayloadFailure::UnsafePath), payload_suggestion(), true),
{
    if is_archive_path_safe(value) {
        Ok(value.to_string())
    } else {
        Err(payload_error(PayloadFailure::UnsafePath))
    }
}

/// The entries read from `offset` on while `remaining` are announced, and the failure that
/// stops the reading, if any. With `check_contents`, each file's contents must have its
/// expected hash.
pub open spec fn entries_from(payload: Seq<u8>, offset: int, remaining: nat, check_contents: bool) -> (Seq<EntryText>, Option<PayloadFailure>)
    decreases remaining,
{
    let len = payload.len() as int;
    if remaining == 0 {
        (Seq::empty(), if offset != len { Some(PayloadFailure::TrailingData) } else { None })
    } else if offset + 2 > len {
        (Seq::empty(), Some(PayloadFailure::Truncated))
    } else {
        let p0 = offset + 2;
        let plen = le_u16(payload, offset);
        if p0 + plen > len {
            (Seq::empty(), Some(PayloadFailure::Truncated))
        } else {
            let path_bytes = payload.subrange(p0, p0 + plen);
            let p1 = p0 + plen;
            if !valid_utf8(path_bytes) {
                (Seq::empty(), Some(PayloadFailure::BadPath))
            } else if p1 + 8 > len {
                (Seq::empty(), Some(PayloadFailure::Truncated))
            } else {
                let length = le_u64(payload, p1);
                let p2 = p1 + 8;
                if length > usize::MAX {
                    (Seq::empty(), Some(PayloadFailure::TooLarge))
                } else if p2 + 32 > len {
                    (Seq::empty(), Some(PayloadFailure::Truncated))
                } else {
                    let hash = payload.subrange(p2, p2 + 32);
                    let p3 = p2 + 32;
                    if p3 + length > len {
                        (Seq::empty(), Some(PayloadFailure::Truncated))
                    } else if check_contents && sha256_of(payload.subrange(p3, p3 + length)) != hash {
                        (Seq::empty(), Some(PayloadFailure::BadContents))
                    } else if !archive_path_safe(decode_utf8(path_bytes)) {
                        (Seq::empty(), Some(PayloadFailure::UnsafePath))
                    } else {
                        let entry = EntryText { path: decode_utf8(path_bytes), expected_sha256: hash, start: p3, length };
                        let rest = entries_from(payload, p3 + length, (remaining - 1) as nat, check_contents);
                        (seq![entry] + rest.0, rest.1)
                    }
                }
            }
        }
    }
}

/// The files of the archive, in order, up to the first failure, and that failure.
pub open spec fn payload_contents(payload: Seq<u8>, check_contents: bool) -> (Seq<EntryText>, Option<PayloadFailure>) {
    if payload.len() < 8 {
        (Seq::empty(), Some(PayloadFailure::Truncated))
    } else if payload.subrange(0, 8) != archive_magic() {
        (Seq::empty(), Some(PayloadFailure::BadMagic))
    } else if payload.len() < 12 {
        (Seq::empty(), Some(PayloadFailure::Truncated))
    } else {
        entries_from(payload, 12, le_u32(payload, 8) as nat, check_contents)
    }
}

pub open spec fn payload_message(f: PayloadFailure) -> Seq<char> {
    match f {
        PayloadFailure::Truncated => "内嵌 ExifTool 载荷意外结束。"@,
        PayloadFailure::BadMagic => "内嵌 ExifTool 载荷格式无效。"@,
        PayloadFailure::BadPath => "内嵌 ExifTool 载荷包含无效路径。"@,
        PayloadFailure::TooLarge => "内嵌 ExifTool 文件过大。"@,
        PayloadFailure::BadContents => "内嵌 ExifTool 文件校验失败。"@,
        PayloadFailure::UnsafePath => "内嵌 ExifTool 载荷包含不安全路径。"@,
        PayloadFailure::TrailingData => "内嵌 ExifTool 载荷包含多余数据。"@,
    }
}

pub open spec fn payload_suggestion() -> Seq<char> {
    "请重新下载完整的 Windows 便携版 EXE。"@
}

pub fn payload_error(f: PayloadFailure) -> (e: AppError)
    ensures
        error_is(e, ErrorCode::ExiftoolNotAvailable, payload_message(f), payload_suggestion(), true),
{
    let message = match f {
        PayloadFailure::Truncated => "内嵌 ExifTool 载荷意外结束。",
        PayloadFailure::BadMagic => "内嵌 ExifTool 载荷格式无效。",
        PayloadFailure::BadPath => "内嵌 ExifTool 载荷包含无效路径。",
        PayloadFailure::TooLarge => "内嵌 ExifTool 文件过大。",
        PayloadFailure::BadContents => "内嵌 ExifTool 文件校验失败。",
        PayloadFailure::UnsafePath => "内嵌 ExifTool 载荷包含不安全路径。",
        PayloadFailure::TrailingData => "内嵌 ExifTool 载荷包含多余数据。",
    };
    AppError::new(ErrorCode::ExiftoolNotAvailable, message.to_owned(), "请重新下载完整的 Windows 便携版 EXE。".to_owned(), true)
}

fn read_le(payload: &[u8], at: usize, width: usize) -> (v: u64)
    requires
        width == 2 || width == 4 || width == 8,
        at + width <= payload@.len(),
    ensures
        width == 2 ==> v == le_u16(payload@, at as int),
        width == 4 ==> v == le_u32(payload@, at as int),
        width == 8 ==> v == le_u64(payload@, at as int),
{
    let b = payload;
    let mut v: u128 = b[at] as u128 + (b[at + 1] as u128) * 0x100;
    if width >= 4 {
        v = v + (b[at + 2] as u128) * 0x10000 + (b[at + 3] as u128) * 0x1000000;
    }
    if width == 8 {
        v = v + (b[at + 4] as u128) * 0x100000000 + (b[at + 5] as u128) * 0x10000000000
            + (b[at + 6] as u128) * 0x1000000000000 + (b[at + 7] as u128) * 0x100000000000000;
    }
    v as u64
}

fn copy_range(payload: &[u8], from: usize, to: usize) -> (out: Vec<u8>)
    requires
        from <= to <= payload@.len(),
    ensures
        out@ == payload@.subrange(from as int, to as int),
{
    let mut out: Vec<u8> = Vec::new();
    let mut k: usize = from;
    while k < to
        invariant
            from <= k <= to <= payload@.len(),
            out@ == payload@.subrange(from as int, k as int),
        decreases to - k,
    {
        out.push(payload[k]);
        assert(payload@.subrange(from as int, k + 1) =~= payload@.subrange(from as int, k as int).push(payload@[k as int]));
        k = k + 1;
    }
    out
}

fn bytes_equal(a: &Vec<u8>, b: &Vec<u8>) -> (eq: bool)
    ensures
        eq == (a@ == b@),
{
    if a.len() != b.len() {
        return false;
    }
    let mut i: usize = 0;
    while i < a.len()
        invariant
            i <= a.len() == b.len(),
            forall|j: int| 0 <= j < i ==> a@[j] == b@[j],
        decreases a.len() - i,
    {
        if a[i] != b[i] {
            return false;
        }
        i = i + 1;
    }
    assert(a@ =~= b@);
    true
}

pub open spec fn entries_text(es: Seq<PayloadEntry>) -> Seq<EntryText> {
    es.map_values(|e: PayloadEntry| entry_text(e))
}

/// Reads the archive: its files in order up to the first failure, and that failure (see
/// `payload_contents`). The files before a failure are the ones extraction writes before it
/// stops.
pub fn read_payload(payload: &[u8], check_contents: bool) -> (result: (Vec<PayloadEntry>, Option<PayloadFailure>))
    ensures
        entries_text(result.0@) == payload_contents(payload@, check_contents).0,
        result.1 == payload_contents(payload@, check_contents).1,
{
    let len = payload.len();
    let mut entries: Vec<PayloadEntry> = Vec::new();
    if len < 8 {
        assert(entries_text(entries@) =~= Seq::<EntryText>::empty());
        return (entries, Some(PayloadFailure::Truncated));
    }
    let magic = copy_range(payload, 0, 8);
    let expected: Vec<u8> = vec![71u8, 84u8, 69u8, 88u8, 73u8, 70u8, 48u8, 49u8];
    assert(expected@ =~= archive_magic());
    if !bytes_equal(&magic, &expected) {
        assert(entries_text(entries@) =~= Seq::<EntryText>::empty());
        return (entries, Some(PayloadFailure::BadMagic));
    }
    if len < 12 {
        assert(entries_text(entries@) =~= Seq::<EntryText>::empty());
        return (entries, Some(PayloadFailure::Truncated));
    }
    let count = read_le(payload, 8, 4);
    let mut offset: usize = 12;
    let mut remaining: u64 = count;
    let ghost total = payload_contents(payload@, check_contents);
    assert(entries_text(entries@) =~= Seq::<EntryText>::empty());
    loop
        invariant
            len == payload@.len(),
            offset <= len,
            total == payload_contents(payload@, check_contents),
            total.0 == entries_text(entries@) + entries_from(payload@, offset as int, remaining as nat, check_contents).0,
            total.1 == entries_from(payload@, offset as int, remaining as nat, check_contents).1,
        decreases remaining,
    {
        let ghost here = entries_from(payload@, offset as int, remaining as nat, check_contents);
        let ghost before = entries_text(entries@);
        if remaining == 0 {
            let failure = if offset != len { Some(PayloadFailure::TrailingData) } else { None };
            assert(total.0 =~= entries_text(entries@));
            return (entries, failure);
        }
        if len - offset < 2 {
            assert(total.0 =~= entries_text(entries@));
            return (entries, Some(PayloadFailure::Truncated));
        }
        let plen = read_le(payload, offset, 2) as usize;
        let p0 = offset + 2;
        if len - p0 < plen {
            assert(total.0 =~= entries_text(entries@));
            return (entries, Some(PayloadFailure::Truncated));
        }
        let path_bytes = copy_range(payload, p0, p0 + plen);
        let p1 = p0 + plen;
        let path = match utf8_text(path_bytes.as_slice()) {
            None => {
                assert(total.0 =~= entries_text(entries@));
                return (entries, Some(PayloadFailure::BadPath));
            },
            Some(p) => p,
        };
        if len - p1 < 8 {
            assert(total.0 =~= entries_text(entries@));
            return (entries, Some(PayloadFailure::Truncated));
        }
        let length64 = read_le(payload, p1, 8);
        let p2 = p1 + 8;
        if length64 > usize::MAX as u64 {
            assert(total.0 =~= entries_text(entries@));
            return (entries, Some(PayloadFailure::TooLarge));
        }
        let length = length64 as usize;
        if len - p2 < 32 {
            assert(total.0 =~= entries_text(entries@));
            return (entries, Some(PayloadFailure::Truncated));
        }
        let hash = copy_range(payload, p2, p2 + 32);
        let p3 = p2 + 32;
        if len - p3 < length {
            assert(total.0 =~= entries_text(entries@));
            return (entries, Some(PayloadFailure::Truncated));
        }
        if check_contents {
            let digest = sha256_digest(&payload[p3..p3 + length]);
            if !bytes_equal(&digest, &hash) {
                assert(total.0 =~= entries_text(entries@));
                return (entries, Some(PayloadFailure::BadContents));
            }
        }
        if !is_archive_path_safe(path.as_str()) {
            assert(total.0 =~= entries_text(entries@));
            return (entries, Some(PayloadFailure::UnsafePath));
        }
        let entry = PayloadEntry { path, expected_sha256: hash, start: p3, length };
        let ghost et = entry_text(entry);
        entries.push(entry);
        assert(entries_text(entries@) =~= before.push(et));
        offset = p3 + length;
        remaining = remaining - 1;
        assert(total.0 =~= entries_text(entries@) + entries_from(payload@, offset as int, remaining as nat, check_contents).0);
    }
}

/// Checks the embedded archive against its recorded SHA-256 (in hexadecimal).
pub fn verify_payload(payload: &[u8], expected_sha256_hex: &str) -> (result: Result<(), AppError>)
    ensures
        (hex_lower(sha256_of(payload@)) == expected_sha256_hex@) <==> result is Ok,
        result is Err ==> error_is(result->Err_0, ErrorCode::ExiftoolNotAvailable, "内嵌 ExifTool 载荷校验失败。"@, payload_suggestion(), true),
{
    let actual = sha256_hex(payload);
    if str_equal(actual.as_str(), expected_sha256_hex) {
        Ok(())
    } else {
        Err(AppError::new(
            ErrorCode::ExiftoolNotAvailable,
            "内嵌 ExifTool 载荷校验失败。".to_owned(),
            "请重新下载完整的 Windows 便携版 EXE。".to_owned(),
            true,
        ))
    }
}

/// Whether an installed file has the contents its archive entry expects.
pub fn installed_file_matches(entry: &PayloadEntry, contents: &[u8]) -> (matches: bool)
    ensures
        matches == (sha256_of(contents@) == entry.expected_sha256@),
{
    let digest = sha256_digest(contents);
    bytes_equal(&digest, &entry.expected_sha256)
}

/// The marker written once an extraction is complete.
pub fn installation_marker(version: &str, payload_sha256: &str) -> (marker: String)
    ensures
        marker@ == "version="@ + version@ + "\npayload="@ + payload_sha256@ + "\n"@,
{
    let mut marker = "version=".to_owned();
    push_str(&mut marker, version);
    push_str(&mut marker, "\npayload=");
    push_str(&mut marker, payload_sha256);
    push_str(&mut marker, "\n");
    marker
}


/// The name of the cache directory for a payload: the ExifTool version and the first 16
/// characters of the payload's SHA-256.
pub fn payload_id(version: &str, payload_sha256: &str) -> (id: String)
    requires
        payload_sha256@.len() >= 16,
    ensures
        id@ == version@ + "-"@ + payload_sha256@.subrange(0, 16),
{
    let chars = crate::text::chars_of(payload_sha256);
    let mut head: Vec<char> = Vec::new();
    let mut i: usize = 0;
    while i < 16
        invariant
            i <= 16 <= chars@.len(),
            chars@ == payload_sha256@,
            head@ == payload_sha256@.subrange(0, i as int),
        decreases 16 - i,
    {
        head.push(chars[i]);
        assert(payload_sha256@.subrange(0, i + 1) =~= payload_sha256@.subrange(0, i as int).push(payload_sha256@[i as int]));
        i = i + 1;
    }
    let mut id = version.to_owned();
    push_str(&mut id, "-");
    push_str(&mut id, crate::text::string_from_chars(&head).as_str());
    id
}

proof fn lemma_entries_from_safe(payload: Seq<u8>, offset: int, remaining: nat, check_contents: bool)
    ensures
        forall|i: int| 0 <= i < entries_from(payload, offset, remaining, check_contents).0.len()
            ==> archive_path_safe(#[trigger] entries_from(payload, offset, remaining, check_contents).0[i].path),
    decreases remaining,
{
    if remaining > 0 {
        let len = payload.len() as int;
        let p0 = offset + 2;
        let plen = le_u16(payload, offset);
        let p1 = p0 + plen;
        let length = le_u64(payload, p1);
        let p3 = p1 + 8 + 32;
        lemma_entries_from_safe(payload, p3 + length, (remaining - 1) as nat, check_contents);
        let all = entries_from(payload, offset, remaining, check_contents).0;
        let rest = entries_from(payload, p3 + length, (remaining - 1) as nat, check_contents).0;
        assert forall|i: int| 0 <= i < all.len() implies archive_path_safe(#[trigger] all[i].path) by {
            if i > 0 {
                assert(all[i] == rest[i - 1]);
            }
        }
    }
}

/// Every file read from the archive has a safe relative path, so extraction never writes
/// outside its destination.
pub proof fn law_archive_entries_stay_inside(payload: Seq<u8>, check_contents: bool)
    ensures
        forall|i: int| 0 <= i < payload_contents(payload, check_contents).0.len()
            ==> archive_path_safe(#[trigger] payload_contents(payload, check_contents).0[i].path),
{
    if payload.len() >= 12 && payload.subrange(0, 8) == archive_magic() {
        lemma_entries_from_safe(payload, 12, le_u32(payload, 8) as nat, check_contents);
    }
}

} // verus!
