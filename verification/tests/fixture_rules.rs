//! Tests for the fixture bookkeeping rules.

use restack::fixscript::archive_is_current;
use restack::fixscript::archive_path;
use restack::fixscript::bytes_eq;
use restack::fixscript::fixture_path;
use restack::fixscript::hash_matches;
use restack::fixscript::may_generate_archive;

const EMPTY_SHA256: [u8; 32] = [
    0xe3, 0xb0, 0xc4, 0x42, 0x98, 0xfc, 0x1c, 0x14, 0x9a, 0xfb, 0xf4, 0xc8, 0x99, 0x6f, 0xb9,
    0x24, 0x27, 0xae, 0x41, 0xe4, 0x64, 0x9b, 0x93, 0x4c, 0xa4, 0x95, 0x99, 0x1b, 0x78, 0x52,
    0xb8, 0x55,
];

const ABC_SHA256: [u8; 32] = [
    0xba, 0x78, 0x16, 0xbf, 0x8f, 0x01, 0xcf, 0xea, 0x41, 0x41, 0x40, 0xde, 0x5d, 0xae, 0x22,
    0x23, 0xb0, 0x03, 0x61, 0xa3, 0x96, 0x17, 0x7a, 0x9c, 0xb4, 0x10, 0xff, 0x61, 0xf2, 0x00,
    0x15, 0xad,
];

#[test]
fn hash_of_empty_input() {
    assert!(hash_matches(&Vec::new(), &EMPTY_SHA256.to_vec()));
}

#[test]
fn hash_of_known_input() {
    assert!(hash_matches(&b"abc".to_vec(), &ABC_SHA256.to_vec()));
}

#[test]
fn hash_is_not_the_input() {
    // The digest of a short input is 32 bytes and differs from the input.
    let data = b"abc".to_vec();
    assert!(!hash_matches(&data, &data));
}

#[test]
fn bytes_eq_basics() {
    assert!(bytes_eq(&vec![1, 2, 3], &vec![1, 2, 3]));
    assert!(!bytes_eq(&vec![1, 2, 3], &vec![1, 2]));
    assert!(!bytes_eq(&vec![1, 2, 3], &vec![1, 2, 4]));
}

#[test]
fn archive_current_when_hash_and_version_match() {
    assert!(archive_is_current(
        &b"abc".to_vec(),
        &ABC_SHA256.to_vec(),
        "1",
        "1"
    ));
}

#[test]
fn archive_outdated_on_version_mismatch() {
    assert!(!archive_is_current(
        &b"abc".to_vec(),
        &ABC_SHA256.to_vec(),
        "1",
        "2"
    ));
}

#[test]
fn archive_outdated_on_script_change() {
    assert!(!archive_is_current(
        &b"echo foo > bar".to_vec(),
        &ABC_SHA256.to_vec(),
        "1",
        "1"
    ));
}

#[test]
fn new_archives_not_allowed_in_ci() {
    assert!(!may_generate_archive(Some("true")));
    assert!(may_generate_archive(Some("false")));
    assert!(may_generate_archive(None));
}

#[test]
fn fixture_path_layout() {
    assert_eq!(
        "/project/fixtures/empty_commit.sh",
        fixture_path("/project", "empty_commit.sh")
    );
}

#[test]
fn archive_path_replaces_extension() {
    assert_eq!("test.tar.xz", archive_path("test.sh"));
    assert_eq!("dir/test.tar.xz", archive_path("dir/test.sh"));
}

#[test]
fn archive_path_appends_when_no_extension() {
    assert_eq!("test.tar.xz", archive_path("test"));
    assert_eq!("dir.x/test.tar.xz", archive_path("dir.x/test"));
    assert_eq!(".bashrc.tar.xz", archive_path(".bashrc"));
}
