use geotagger::error::ErrorCode;
use geotagger::paths::{
    file_name, is_absolute, join_path, normalize_absolute, path_starts_with, paths_equal, safe_relative_path as safe_photo_path,
    strip_path_prefix,
};
use geotagger::payload::{
    installation_marker, installed_file_matches, payload_id, read_payload, safe_relative_path, sha256_hex,
    verify_payload, PayloadFailure,
};
use sha2::Digest;

#[test]
fn normalize_rejects_parent_escape() {
    assert!(normalize_absolute("/../escape", false).is_err());
    assert_eq!(normalize_absolute("C:\\..\\escape", true).expect_err("drive root").code, ErrorCode::PathOutsideScope);
}

#[test]
fn normalize_resolves_dots_inside_the_root() {
    assert_eq!(normalize_absolute("/a/./b/../c", false).expect("normalized"), "/a/c");
    assert_eq!(normalize_absolute("/a/b/../../..", false).expect_err("climb").code, ErrorCode::PathOutsideScope);
}

#[test]
fn normalize_reads_windows_drive_paths() {
    assert_eq!(normalize_absolute("C:\\a\\.\\b\\..\\c", true).expect("normalized"), "C:\\a\\c");
    assert_eq!(normalize_absolute("D:/photos/./out", true).expect("forward slashes"), "D:\\photos\\out");
    assert_eq!(normalize_absolute("C:\\", true).expect("drive root"), "C:\\");
    assert_eq!(normalize_absolute("C:\\a\\..\\..", true).expect_err("climb").code, ErrorCode::PathOutsideScope);
    // On Unix a backslash is part of a name, so nothing climbs here.
    assert_eq!(normalize_absolute("/C:\\..\\escape", false).expect("one name"), "/C:\\..\\escape");
}

#[test]
fn windows_path_syntax_is_recognised() {
    assert!(is_absolute("C:\\photos", true));
    assert!(is_absolute("c:/photos", true));
    assert!(is_absolute("\\\\server\\share", true));
    assert!(!is_absolute("C:photos", true));
    assert!(!is_absolute("\\photos", true));
    assert!(!is_absolute("C:\\photos", false));
    assert!(is_absolute("/photos", false));
    assert_eq!(join_path("C:\\out", "a.jpg", true), "C:\\out\\a.jpg");
    assert_eq!(join_path("C:", "a.jpg", true), "C:a.jpg");
    assert_eq!(join_path("/out", "a.jpg", false), "/out/a.jpg");
    assert_eq!(file_name("C:\\out\\a.jpg", true).as_deref(), Some("a.jpg"));
    assert_eq!(file_name("C:\\out\\a.jpg", false).as_deref(), Some("C:\\out\\a.jpg"));
    assert!(path_starts_with("C:\\out\\a.jpg", "C:/out", true));
    assert!(!path_starts_with("D:\\out\\a.jpg", "C:\\out", true));
    assert!(paths_equal("C:\\out\\a.jpg", "C:/out/a.jpg", true));
    assert!(paths_equal("c:\\out", "C:\\out", true));
    assert!(!paths_equal("C:\\Out", "C:\\out", true));
    assert_eq!(strip_path_prefix("C:\\photos\\a\\one.jpg", "C:\\photos", true).as_deref(), Some("a\\one.jpg"));
}

#[test]
fn rejects_relative_path_escape() {
    assert!(safe_photo_path("../outside.jpg", false).is_err());
    assert!(safe_photo_path("nested/photo.jpg", false).is_ok());
}

#[test]
fn rejects_relative_path_escape_on_windows() {
    assert_eq!(safe_photo_path("..\\x.jpg", true).expect_err("escape").code, ErrorCode::PathOutsideScope);
    assert_eq!(safe_photo_path("C:\\x.jpg", true).expect_err("drive").code, ErrorCode::PathOutsideScope);
    assert_eq!(safe_photo_path("C:x.jpg", true).expect_err("drive relative").code, ErrorCode::PathOutsideScope);
    assert_eq!(safe_photo_path("\\x.jpg", true).expect_err("rooted").code, ErrorCode::PathOutsideScope);
    assert_eq!(safe_photo_path("nested/photo.jpg", true).expect("ok"), "nested\\photo.jpg");
    assert_eq!(safe_photo_path("nested\\photo.jpg", true).expect("ok"), "nested\\photo.jpg");
    // On Unix the same text is one harmless name.
    assert_eq!(safe_photo_path("..\\x.jpg", false).expect("one name"), "..\\x.jpg");
}

#[test]
fn photo_relative_path_errors_name_their_reason() {
    let escape = safe_photo_path("a/../../b.jpg", false).expect_err("escape");
    assert_eq!(escape.code, ErrorCode::PathOutsideScope);
    let empty = safe_photo_path("./", false).expect_err("empty");
    assert_eq!(empty.code, ErrorCode::InvalidRequest);
    assert_eq!(safe_photo_path("./nested//photo.jpg", false).expect("ok"), "nested/photo.jpg");
}

#[test]
fn rejects_unsafe_payload_paths() {
    assert!(safe_relative_path("../exiftool.exe").is_err());
    assert!(safe_relative_path("C:\\exiftool.exe").is_err());
    assert!(safe_relative_path("exiftool_files/config").is_ok());
}

#[test]
fn payload_paths_are_read_with_windows_separators() {
    assert!(safe_relative_path("exiftool_files\\..\\x").is_err());
    assert!(safe_relative_path("\\exiftool.exe").is_err());
    assert!(safe_relative_path(".\\exiftool.exe").is_err());
    assert!(safe_relative_path("").is_err());
    assert!(safe_relative_path("exiftool_files\\lib\\perl.dll").is_ok());
    let error = safe_relative_path("/abs").expect_err("rooted");
    assert_eq!(error.code, ErrorCode::ExiftoolNotAvailable);
    assert_eq!(error.message, "内嵌 ExifTool 载荷包含不安全路径。");
}

fn archive(files: &[(&str, &[u8])]) -> Vec<u8> {
    let mut out = b"GTEXIF01".to_vec();
    out.extend_from_slice(&(files.len() as u32).to_le_bytes());
    for (path, contents) in files {
        out.extend_from_slice(&(path.len() as u16).to_le_bytes());
        out.extend_from_slice(path.as_bytes());
        out.extend_from_slice(&(contents.len() as u64).to_le_bytes());
        out.extend_from_slice(sha2::Sha256::digest(contents).as_slice());
        out.extend_from_slice(contents);
    }
    out
}

#[test]
fn reads_every_file_of_a_well_formed_archive() {
    let bytes = archive(&[("exiftool.exe", b"binary"), ("exiftool_files/config", b"cfg")]);
    let (entries, failure) = read_payload(&bytes, true);
    assert_eq!(failure, None);
    assert_eq!(entries.len(), 2);
    assert_eq!(entries[0].path, "exiftool.exe");
    assert_eq!(&bytes[entries[0].start..entries[0].start + entries[0].length], b"binary");
    assert_eq!(entries[1].path, "exiftool_files/config");
    assert_eq!(&bytes[entries[1].start..entries[1].start + entries[1].length], b"cfg");
    assert!(installed_file_matches(&entries[1], b"cfg"));
    assert!(!installed_file_matches(&entries[1], b"cfg2"));
}

#[test]
fn refuses_damaged_archives() {
    assert_eq!(read_payload(b"GTEX", false).1, Some(PayloadFailure::Truncated));
    assert_eq!(read_payload(b"NOTMAGIC0000", false).1, Some(PayloadFailure::BadMagic));

    let mut trailing = archive(&[("a.txt", b"a")]);
    trailing.push(0);
    let (entries, failure) = read_payload(&trailing, false);
    assert_eq!(entries.len(), 1);
    assert_eq!(failure, Some(PayloadFailure::TrailingData));

    let unsafe_path = archive(&[("ok.txt", b"x"), ("../evil.txt", b"y")]);
    let (entries, failure) = read_payload(&unsafe_path, false);
    assert_eq!(entries.len(), 1);
    assert_eq!(failure, Some(PayloadFailure::UnsafePath));

    let mut tampered = archive(&[("a.txt", b"abc")]);
    let last = tampered.len() - 1;
    tampered[last] = b'x';
    assert_eq!(read_payload(&tampered, false).1, None);
    assert_eq!(read_payload(&tampered, true).1, Some(PayloadFailure::BadContents));

    let short = archive(&[("a.txt", b"abc")]);
    assert_eq!(read_payload(&short[..short.len() - 1], false).1, Some(PayloadFailure::Truncated));
}

#[test]
fn payload_digest_is_checked_in_hex() {
    let bytes = archive(&[("a.txt", b"abc")]);
    let hex = sha256_hex(&bytes);
    assert_eq!(hex.len(), 64);
    assert_eq!(sha256_hex(b"abc"), "ba7816bf8f01cfea414140de5dae2223b00361a396177a9cb410ff61f20015ad");
    assert!(verify_payload(&bytes, &hex).is_ok());
    let error = verify_payload(&bytes, "00").expect_err("mismatch");
    assert_eq!(error.message, "内嵌 ExifTool 载荷校验失败。");
}

#[test]
fn installation_is_named_by_version_and_digest() {
    let digest = "ba7816bf8f01cfea414140de5dae2223b00361a396177a9cb410ff61f20015ad";
    assert_eq!(payload_id("13.10", digest), "13.10-ba7816bf8f01cfea");
    assert_eq!(installation_marker("13.10", digest), format!("version=13.10\npayload={digest}\n"));
}

#[test]
fn unc_and_verbatim_prefixes_cannot_be_climbed() {
    assert_eq!(normalize_absolute("\\\\server\\share\\..", true).expect_err("share root").code, ErrorCode::PathOutsideScope);
    assert_eq!(normalize_absolute("\\\\server\\share\\a\\..\\b", true).expect("inside"), "\\\\server\\share\\b");
    assert_eq!(normalize_absolute("\\\\?\\C:\\out\\..\\..", true).expect_err("verbatim root").code, ErrorCode::PathOutsideScope);
    assert_eq!(normalize_absolute("\\\\?\\UNC\\server\\share\\x", true).expect("verbatim unc"), "\\\\?\\UNC\\server\\share\\x");
    assert!(!is_absolute("\\\\server", true));
    assert!(is_absolute("\\\\?\\C:\\out", true));
    assert!(is_absolute("\\\\.\\COM1", true));
    assert!(path_starts_with("\\\\?\\C:\\out\\a.jpg", "\\\\?\\c:\\out", true));
    assert!(!path_starts_with("\\\\server\\other\\a.jpg", "\\\\server\\share", true));
    assert_eq!(file_name("\\\\server\\share", true), None);
}

#[test]
fn streamed_hash_equals_the_whole_hash() {
    let mut hasher = geotagger::payload::ContentHasher::new();
    hasher.update(b"a");
    hasher.update(b"");
    hasher.update(b"bc");
    let streamed = hasher.finish_hex();
    assert_eq!(streamed, "ba7816bf8f01cfea414140de5dae2223b00361a396177a9cb410ff61f20015ad");
    assert_eq!(streamed, sha256_hex(b"abc"));
    assert_eq!(geotagger::payload::ContentHasher::new().finish_hex(), sha256_hex(b""));
}

#[test]
fn archive_entries_unpack_under_their_names() {
    assert_eq!(
        geotagger::payload::entry_names("exiftool_files\\lib/./perl.dll"),
        vec!["exiftool_files".to_owned(), "lib".to_owned(), "perl.dll".to_owned()]
    );
    assert_eq!(geotagger::payload::entry_names("exiftool.exe"), vec!["exiftool.exe".to_owned()]);
}
