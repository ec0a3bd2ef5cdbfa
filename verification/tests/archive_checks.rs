use std::io::Write;

use luna_installer::paths::AppPath;
use luna_installer::zipcheck::{
    ZipFlaw, has_zip_end_of_central_directory, has_zip_signature, safe_zip_join,
    validate_zip_bytes,
};

fn path(parts: &[&str]) -> AppPath {
    AppPath::from_parts(parts.iter().map(|s| s.to_string()).collect())
}

fn zip_with(entries: &[(&str, &[u8])]) -> Vec<u8> {
    let cursor = std::io::Cursor::new(Vec::new());
    let mut writer = zip::ZipWriter::new(cursor);
    let options = zip::write::SimpleFileOptions::default();
    for (name, data) in entries {
        if name.ends_with('/') {
            writer.add_directory(name.to_string(), options).unwrap();
        } else {
            writer.start_file(name.to_string(), options).unwrap();
            writer.write_all(data).unwrap();
        }
    }
    writer.finish().unwrap().into_inner()
}

#[test]
fn real_zip_passes_all_checks() {
    let bytes = zip_with(&[("hello.txt", b"hi"), ("dir/", b""), ("dir/a.bin", b"abc")]);
    assert!(has_zip_signature(&bytes));
    assert!(has_zip_end_of_central_directory(&bytes));
    assert!(validate_zip_bytes(&bytes).is_ok());
}

#[test]
fn empty_archive_signature_is_accepted() {
    let bytes = zip_with(&[]);
    assert!(has_zip_signature(&bytes));
    assert!(validate_zip_bytes(&bytes).is_ok());
}

#[test]
fn html_page_fails_with_missing_signature() {
    let bytes = b"<html><body>404 not found</body></html>".to_vec();
    assert!(!has_zip_signature(&bytes));
    assert!(matches!(validate_zip_bytes(&bytes), Err(ZipFlaw::MissingSignature)));
}

#[test]
fn signature_without_directory_fails() {
    let mut bytes = vec![0x50, 0x4b, 0x03, 0x04];
    bytes.extend(std::iter::repeat(0u8).take(40));
    assert!(has_zip_signature(&bytes));
    assert!(!has_zip_end_of_central_directory(&bytes));
    assert!(matches!(validate_zip_bytes(&bytes), Err(ZipFlaw::MissingCentralDirectory)));
}

#[test]
fn forged_directory_marker_fails_parse() {
    let mut bytes = vec![0x50, 0x4b, 0x03, 0x04];
    bytes.extend(std::iter::repeat(0u8).take(20));
    bytes.extend(&[0x50, 0x4b, 0x05, 0x06]);
    bytes.extend(&[0, 0, 0, 0, 1, 0, 1, 0, 100, 0, 0, 0, 0, 0, 0, 0, 0, 0]);
    assert!(has_zip_signature(&bytes));
    assert!(has_zip_end_of_central_directory(&bytes));
    assert!(matches!(validate_zip_bytes(&bytes), Err(ZipFlaw::ParseFailed)));
}

#[test]
fn short_payload_fails_directory_check() {
    let bytes = vec![0x50, 0x4b, 0x05, 0x06];
    assert!(has_zip_signature(&bytes));
    assert!(!has_zip_end_of_central_directory(&bytes));
}

#[test]
fn safe_zip_join_accepts_plain_relative_names() {
    let base = path(&["out"]);
    let joined = safe_zip_join(&base, &"a/b/c.txt".chars().collect()).unwrap();
    assert_eq!(joined.parts, vec!["out", "a", "b", "c.txt"]);
}

#[test]
fn safe_zip_join_drops_empty_and_current_segments() {
    let base = path(&["out"]);
    let joined = safe_zip_join(&base, &"./a//b/./c".chars().collect()).unwrap();
    assert_eq!(joined.parts, vec!["out", "a", "b", "c"]);
}

#[test]
fn safe_zip_join_rejects_parent_traversal() {
    let base = path(&["out"]);
    assert!(safe_zip_join(&base, &"../../evil".chars().collect::<Vec<char>>()).is_none());
    assert!(safe_zip_join(&base, &"a/../evil".chars().collect::<Vec<char>>()).is_none());
}

#[test]
fn safe_zip_join_rejects_absolute_and_drive_names() {
    let base = path(&["out"]);
    assert!(safe_zip_join(&base, &"/etc/passwd".chars().collect::<Vec<char>>()).is_none());
    assert!(safe_zip_join(&base, &"\\windows\\sys".chars().collect::<Vec<char>>()).is_none());
    assert!(safe_zip_join(&base, &"C:\\boot.ini".chars().collect::<Vec<char>>()).is_none());
}

#[test]
fn backslash_separated_names_split_like_slashes() {
    let base = path(&["out"]);
    let joined = safe_zip_join(&base, &"a\\b\\c.txt".chars().collect()).unwrap();
    assert_eq!(joined.parts, vec!["out", "a", "b", "c.txt"]);
}
