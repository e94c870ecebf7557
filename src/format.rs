//! Choosing how an archive is read, from the command line and the archive's name.
use vstd::prelude::*;

use crate::error::ExtractionError;

verus! {

/// The container formats that can be extracted.
#[derive(Debug, Clone, Copy, PartialEq, Eq, Structural)]
pub enum ArchiveFormat {
    Zip,
    Rar,
}

/// `s` ends with `suffix`.
pub open spec fn has_suffix(s: Seq<char>, suffix: Seq<char>) -> bool {
    s.len() >= suffix.len() && s.subrange(s.len() - suffix.len(), s.len() as int) == suffix
}

/// The format that an archive's name selects: `.zip` and `.rar`, matched
/// exactly and with case.
pub open spec fn format_of(path: Seq<char>) -> Option<ArchiveFormat> {
    if has_suffix(path, seq!['.', 'z', 'i', 'p']) {
        Some(ArchiveFormat::Zip)
    } else if has_suffix(path, seq!['.', 'r', 'a', 'r']) {
        Some(ArchiveFormat::Rar)
    } else {
        None
    }
}

/// Whether `s` ends with `suffix`.
pub fn ends_with(s: &str, suffix: &str) -> (r: bool)
    ensures
        r == has_suffix(s@, suffix@),
{
    let n = s.unicode_len();
    let m = suffix.unicode_len();
    if n < m {
        return false;
    }
    let mut k: usize = 0;
    while k < m
        invariant
            m <= n,
            n == s@.len(),
            m == suffix@.len(),
            k <= m,
            forall|j: int| 0 <= j < k ==> s@[n - m + j] == suffix@[j],
        decreases m - k,
    {
        if s.get_char(n - m + k) != suffix.get_char(k) {
            assert(s@.subrange(n - m, n as int)[k as int] != suffix@[k as int]);
            return false;
        }
        k = k + 1;
    }
    assert(s@.subrange(n - m, n as int) =~= suffix@);
    true
}

/// The format of the archive at `path`, chosen by its suffix alone; any other
/// suffix is `UnsupportedFormat`.
pub fn archive_format(path: &str) -> (r: Result<ArchiveFormat, ExtractionError>)
    ensures
        match format_of(path@) {
            Some(f) => r == Ok::<ArchiveFormat, ExtractionError>(f),
            None => r == Err::<ArchiveFormat, ExtractionError>(
                ExtractionError::UnsupportedFormat,
            ),
        },
{
    proof {
        reveal_strlit(".zip");
        reveal_strlit(".rar");
    }
    assert(".zip"@ =~= seq!['.', 'z', 'i', 'p']);
    assert(".rar"@ =~= seq!['.', 'r', 'a', 'r']);
    if ends_with(path, ".zip") {
        Ok(ArchiveFormat::Zip)
    } else if ends_with(path, ".rar") {
        Ok(ArchiveFormat::Rar)
    } else {
        Err(ExtractionError::UnsupportedFormat)
    }
}

/// What a run was asked to do: extract the archive at `path`, read as `format`.
#[derive(Debug, PartialEq, Eq)]
pub struct Invocation {
    pub path: String,
    pub format: ArchiveFormat,
}

/// Reads the command line, program name first. Without an archive path it
/// fails with `MissingArgument`; an archive path of an unknown format fails
/// with `UnsupportedFormat`. Arguments after the archive path are ignored.
pub fn parse_args(args: &Vec<String>) -> (r: Result<Invocation, ExtractionError>)
    ensures
        args@.len() < 2 ==> r is Err && r->Err_0 == ExtractionError::MissingArgument,
        args@.len() >= 2 ==> match format_of(args@[1]@) {
            Some(f) => r is Ok && r->Ok_0.path@ == args@[1]@ && r->Ok_0.format == f,
            None => r is Err && r->Err_0 == ExtractionError::UnsupportedFormat,
        },
{
    if args.len() < 2 {
        return Err(ExtractionError::MissingArgument);
    }
    let path = args[1].clone();
    let format = archive_format(path.as_str())?;
    Ok(Invocation { path, format })
}

/// The process's exit status after a run: zero on success, one on any failure.
pub fn exit_code(outcome: &Result<(), ExtractionError>) -> (c: i32)
    ensures
        outcome is Ok ==> c == 0,
        outcome is Err ==> c == 1,
{
    match outcome {
        Ok(()) => 0,
        Err(_) => 1,
    }
}

} // verus!
