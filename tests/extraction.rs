use std::io::{Cursor, Write};

use dog_zip::error::ExtractionError;
use dog_zip::plan::{plan_extraction, ArchiveEntry, EntryAction, ExtractionPlan};
use dog_zip::zip_archive::{is_dir_name, unzip_file};
use zip::write::SimpleFileOptions;
use zip::{CompressionMethod, ZipWriter};

fn build_zip(entries: &[(&str, Option<&[u8]>)], method: CompressionMethod) -> Vec<u8> {
    let mut w = ZipWriter::new(Cursor::new(Vec::new()));
    let opts = SimpleFileOptions::default().compression_method(method);
    for (name, data) in entries {
        match data {
            None => w.add_directory(*name, opts).unwrap(),
            Some(bytes) => {
                w.start_file(*name, opts).unwrap();
                w.write_all(bytes).unwrap();
            }
        }
    }
    w.finish().unwrap().into_inner()
}

fn sample_zip(method: CompressionMethod) -> Vec<u8> {
    build_zip(
        &[
            ("a.txt", Some(b"hello".as_slice())),
            ("sub/", None),
            ("sub/b.txt", Some(b"world".as_slice())),
        ],
        method,
    )
}

fn expected_plan(root: &str) -> ExtractionPlan {
    ExtractionPlan {
        root: root.to_string(),
        actions: vec![
            EntryAction::WriteFile { path: format!("{}/a.txt", root), data: b"hello".to_vec() },
            EntryAction::CreateDir { path: format!("{}/sub/", root) },
            EntryAction::WriteFile { path: format!("{}/sub/b.txt", root), data: b"world".to_vec() },
        ],
    }
}

fn entry(name: &str, is_dir: bool, data: &[u8]) -> ArchiveEntry {
    ArchiveEntry { name: name.to_string(), is_dir, data: data.to_vec() }
}

#[test]
fn zip_extraction_plans_files_and_directories() {
    let plan = unzip_file("out/arch.zip", sample_zip(CompressionMethod::Deflated)).unwrap();
    assert_eq!(plan, expected_plan("out/arch"));
}

#[test]
fn stored_zip_extraction_matches_deflated() {
    let plan = unzip_file("out/arch.zip", sample_zip(CompressionMethod::Stored)).unwrap();
    assert_eq!(plan, expected_plan("out/arch"));
}

#[test]
fn rar_entries_plan_the_same_tree() {
    let entries = vec![
        entry("a.txt", false, b"hello"),
        entry("sub/", true, b""),
        entry("sub/b.txt", false, b"world"),
    ];
    let plan = plan_extraction("out/arch.rar", &entries).unwrap();
    assert_eq!(plan, expected_plan("out/arch"));
}

#[test]
fn extracting_twice_gives_the_same_plan() {
    let bytes = sample_zip(CompressionMethod::Deflated);
    let first = unzip_file("arch.zip", bytes.clone()).unwrap();
    let second = unzip_file("arch.zip", bytes).unwrap();
    assert_eq!(first, second);
}

#[test]
fn empty_zip_plans_only_the_root() {
    let plan = unzip_file("e.zip", build_zip(&[], CompressionMethod::Stored)).unwrap();
    assert_eq!(plan, ExtractionPlan { root: "e".to_string(), actions: vec![] });
}

#[test]
fn corrupt_archive_fails_to_open() {
    assert_eq!(unzip_file("x.zip", b"not a zip archive".to_vec()), Err(ExtractionError::ArchiveOpen));
    assert_eq!(unzip_file("x.zip", Vec::new()), Err(ExtractionError::ArchiveOpen));
    let mut bytes = sample_zip(CompressionMethod::Deflated);
    bytes.truncate(bytes.len() / 2);
    assert_eq!(unzip_file("x.zip", bytes), Err(ExtractionError::ArchiveOpen));
}

#[test]
fn corrupt_entry_fails_to_read() {
    let mut bytes = sample_zip(CompressionMethod::Stored);
    let at = bytes.windows(5).position(|w| w == b"hello").unwrap();
    bytes[at] = b'j';
    assert_eq!(unzip_file("x.zip", bytes), Err(ExtractionError::EntryRead));
}

#[test]
fn traversal_entry_is_refused() {
    let bytes = build_zip(
        &[("ok.txt", Some(b"fine".as_slice())), ("../../evil", Some(b"bad".as_slice()))],
        CompressionMethod::Stored,
    );
    assert_eq!(unzip_file("x.zip", bytes), Err(ExtractionError::UnsafeEntryPath));
    let entries = vec![entry("ok.txt", false, b"fine"), entry("/etc/passwd", false, b"bad")];
    assert_eq!(plan_extraction("x.rar", &entries), Err(ExtractionError::UnsafeEntryPath));
}

#[test]
fn path_without_output_dir_is_refused_first() {
    assert_eq!(unzip_file("dir/", b"junk".to_vec()), Err(ExtractionError::DirectoryCreation));
    let entries = vec![entry("a", false, b"")];
    assert_eq!(plan_extraction("..", &entries), Err(ExtractionError::DirectoryCreation));
}

#[test]
fn directory_names_end_in_a_separator() {
    assert!(is_dir_name("sub/"));
    assert!(is_dir_name("sub\\"));
    assert!(!is_dir_name("sub"));
    assert!(!is_dir_name(""));
}

#[test]
fn unreadable_entry_is_reported_before_unsafe_name() {
    let mut bytes = build_zip(
        &[("a.txt", Some(b"hello".as_slice())), ("../evil", Some(b"bad".as_slice()))],
        CompressionMethod::Stored,
    );
    let at = bytes.windows(5).position(|w| w == b"hello").unwrap();
    bytes[at] = b'j';
    assert_eq!(unzip_file("x.zip", bytes), Err(ExtractionError::EntryRead));
}
