use dog_zip::error::ExtractionError;
use dog_zip::format::{archive_format, ends_with, exit_code, parse_args, ArchiveFormat};

#[test]
fn suffix_selects_format() {
    assert_eq!(archive_format("a/x.zip"), Ok(ArchiveFormat::Zip));
    assert_eq!(archive_format("x.rar"), Ok(ArchiveFormat::Rar));
}

#[test]
fn unsupported_suffix_is_refused() {
    assert_eq!(archive_format("archive.7z"), Err(ExtractionError::UnsupportedFormat));
    assert_eq!(archive_format("X.ZIP"), Err(ExtractionError::UnsupportedFormat));
    assert_eq!(archive_format("zip"), Err(ExtractionError::UnsupportedFormat));
    assert_eq!(archive_format("x.zip.bak"), Err(ExtractionError::UnsupportedFormat));
}

#[test]
fn ends_with_matches_exact_suffix() {
    assert!(ends_with("abc.zip", ".zip"));
    assert!(ends_with("abc", ""));
    assert!(!ends_with("ip", ".zip"));
    assert!(!ends_with("abc.zap", ".zip"));
}

#[test]
fn missing_argument_is_reported() {
    let args = vec!["prog".to_string()];
    assert_eq!(parse_args(&args), Err(ExtractionError::MissingArgument));
    let none: Vec<String> = Vec::new();
    assert_eq!(parse_args(&none), Err(ExtractionError::MissingArgument));
    assert_eq!(exit_code(&Err(ExtractionError::MissingArgument)), 1);
}

#[test]
fn arguments_select_path_and_format() {
    let args = vec!["prog".to_string(), "in/a.rar".to_string(), "extra".to_string()];
    let inv = parse_args(&args).unwrap();
    assert_eq!(inv.path, "in/a.rar");
    assert_eq!(inv.format, ArchiveFormat::Rar);
    let bad = vec!["prog".to_string(), "archive.7z".to_string()];
    assert_eq!(parse_args(&bad), Err(ExtractionError::UnsupportedFormat));
}

#[test]
fn exit_code_is_nonzero_on_every_failure() {
    assert_eq!(exit_code(&Ok(())), 0);
    let all = [
        ExtractionError::DirectoryCreation,
        ExtractionError::ArchiveOpen,
        ExtractionError::EntryRead,
        ExtractionError::EntryWrite,
        ExtractionError::UnsafeEntryPath,
        ExtractionError::UnsupportedFormat,
        ExtractionError::MissingArgument,
    ];
    for e in all {
        assert_eq!(exit_code(&Err(e)), 1);
    }
}
