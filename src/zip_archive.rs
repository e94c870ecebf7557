//! Reading ZIP archives, through the `zip` crate, into a plan of extraction.
use vstd::prelude::*;

use std::io::Cursor;
use std::io::Read;
use zip::result::ZipError;
use zip::ZipArchive;

use crate::error::ExtractionError;
use crate::paths::output_dir_of;
use crate::paths::is_safe_entry_name;
use crate::plan::{
    action_for, action_matches, all_entries_safe, plan_extraction, stays_below_root, ArchiveEntry,
    ExtractionPlan,
};

verus! {

/// A reader over bytes held in memory, as the `zip` crate reads them.
#[verifier::external_type_specification]
#[verifier::external_body]
#[verifier::reject_recursive_types(T)]
pub struct ExCursor<T>(Cursor<T>);

/// An opened ZIP archive.
#[verifier::external_type_specification]
#[verifier::external_body]
#[verifier::reject_recursive_types(R)]
pub struct ExZipArchive<R>(ZipArchive<R>);

/// A failure reported by the `zip` crate.
#[verifier::external_type_specification]
#[verifier::external_body]
pub struct ExZipError(ZipError);

/// What an opened archive holds, in the order of the entries' indices: each
/// entry's name, and its decompressed bytes, or `None` where they cannot be
/// read.
pub uninterp spec fn zip_entries(a: ZipArchive<Cursor<Vec<u8>>>) -> Seq<
    (Seq<char>, Option<Seq<u8>>),
>;

/// What the archive held in `bytes` holds, as `zip_entries` gives it, or
/// `None` where the bytes cannot be opened as a ZIP archive.
pub uninterp spec fn zip_archive_of(bytes: Seq<u8>) -> Option<Seq<(Seq<char>, Option<Seq<u8>>)>>;

/// Relies on `zip::ZipArchive::new`: reads the central directory of the
/// archive held in `bytes`; whether it succeeds, and what the archive then
/// holds, depends on the bytes alone.
#[verifier::external_body]
fn open_zip(bytes: Vec<u8>) -> (r: Result<ZipArchive<Cursor<Vec<u8>>>, ZipError>)
    ensures
        r is Ok <==> zip_archive_of(bytes@) is Some,
        r is Ok ==> zip_entries(r->Ok_0) == zip_archive_of(bytes@)->0,
{
    ZipArchive::new(Cursor::new(bytes))
}

/// Relies on `zip::ZipArchive::len`: the number of entries.
#[verifier::external_body]
fn zip_len(a: &ZipArchive<Cursor<Vec<u8>>>) -> (r: usize)
    ensures
        r == zip_entries(*a).len(),
{
    a.len()
}

/// Relies on `zip::ZipArchive::name_for_index`: the name of entry `i`,
/// present for every index below `len`.
#[verifier::external_body]
fn zip_name(a: &ZipArchive<Cursor<Vec<u8>>>, i: usize) -> (r: Option<String>)
    ensures
        i < zip_entries(*a).len() ==> r is Some && r->0@ == zip_entries(*a)[i as int].0,
{
    a.name_for_index(i).map(|s| s.to_string())
}

/// Relies on `zip::ZipArchive::by_index`, read to its end: the decompressed
/// bytes of entry `i`. Reading moves the archive's reader and leaves its
/// entries as they were.
#[verifier::external_body]
fn zip_read(a: &mut ZipArchive<Cursor<Vec<u8>>>, i: usize) -> (r: Result<Vec<u8>, ZipError>)
    requires
        i < zip_entries(*old(a)).len(),
    ensures
        zip_entries(*final(a)) == zip_entries(*old(a)),
        r is Ok <==> zip_entries(*old(a))[i as int].1 is Some,
        r is Ok ==> r->Ok_0@ == zip_entries(*old(a))[i as int].1->0,
{
    let mut file = a.by_index(i)?;
    let mut buf: Vec<u8> = Vec::new();
    file.read_to_end(&mut buf)?;
    Ok(buf)
}

/// A ZIP entry whose name ends in a separator is a directory.
pub open spec fn names_directory(n: Seq<char>) -> bool {
    n.len() > 0 && (n.last() == '/' || n.last() == '\\')
}

/// Whether a ZIP entry name marks a directory.
pub fn is_dir_name(name: &str) -> (r: bool)
    ensures
        r == names_directory(name@),
{
    let n = name.unicode_len();
    if n == 0 {
        return false;
    }
    let c = name.get_char(n - 1);
    c == '/' || c == '\\'
}

/// An entry of a ZIP archive can be extracted: it is a directory, or its bytes
/// can be read.
pub open spec fn zip_entry_readable(z: (Seq<char>, Option<Seq<u8>>)) -> bool {
    names_directory(z.0) || z.1 is Some
}

/// Every entry of `zs` can be extracted.
pub open spec fn all_zip_entries_readable(zs: Seq<(Seq<char>, Option<Seq<u8>>)>) -> bool {
    forall|i: int| 0 <= i < zs.len() ==> #[trigger] zip_entry_readable(zs[i])
}

/// Every entry name of `zs` stays below the directory it is extracted into.
pub open spec fn all_zip_names_safe(zs: Seq<(Seq<char>, Option<Seq<u8>>)>) -> bool {
    forall|i: int| 0 <= i < zs.len() ==> is_safe_entry_name(#[trigger] zs[i].0)
}

/// The bytes written for ZIP entry `z`: none for a directory.
pub open spec fn zip_entry_bytes(z: (Seq<char>, Option<Seq<u8>>)) -> Seq<u8> {
    if names_directory(z.0) {
        Seq::empty()
    } else {
        z.1->0
    }
}

/// `e` is ZIP entry `z`, read.
pub open spec fn zip_entry_matches(e: ArchiveEntry, z: (Seq<char>, Option<Seq<u8>>)) -> bool {
    &&& e.name@ == z.0
    &&& e.is_dir == names_directory(z.0)
    &&& e.data@ == zip_entry_bytes(z)
}

/// `p` extracts the ZIP entries `zs` into `root`, one action per entry, in
/// order.
pub open spec fn zip_plan_for(
    root: Seq<char>,
    zs: Seq<(Seq<char>, Option<Seq<u8>>)>,
    p: ExtractionPlan,
) -> bool {
    &&& p.root@ == root
    &&& p.actions@.len() == zs.len()
    &&& forall|i: int|
        0 <= i < zs.len() ==> action_matches(
            root,
            zs[i].0,
            names_directory(zs[i].0),
            zip_entry_bytes(zs[i]),
            #[trigger] p.actions@[i],
        )
}

/// Reads every entry of an opened archive, in the order of their indices:
/// its name, whether it is a directory, and for a file its bytes. It succeeds
/// exactly when every file's bytes can be read, and fails with `EntryRead`
/// otherwise.
pub fn read_zip_entries(archive: &mut ZipArchive<Cursor<Vec<u8>>>) -> (r: Result<
    Vec<ArchiveEntry>,
    ExtractionError,
>)
    ensures
        zip_entries(*final(archive)) == zip_entries(*old(archive)),
        r is Ok <==> all_zip_entries_readable(zip_entries(*old(archive))),
        r is Err ==> r->Err_0 == ExtractionError::EntryRead,
        r is Ok ==> r->Ok_0@.len() == zip_entries(*old(archive)).len(),
        r is Ok ==> forall|i: int|
            0 <= i < r->Ok_0@.len() ==> zip_entry_matches(
                #[trigger] r->Ok_0@[i],
                zip_entries(*old(archive))[i],
            ),
{
    let ghost zs = zip_entries(*archive);
    let n = zip_len(archive);
    let mut entries: Vec<ArchiveEntry> = Vec::new();
    let mut i: usize = 0;
    while i < n
        invariant
            n == zs.len(),
            i <= n,
            zs == zip_entries(*old(archive)),
            zip_entries(*archive) == zs,
            entries@.len() == i,
            forall|j: int| 0 <= j < i ==> #[trigger] zip_entry_readable(zs[j]),
            forall|j: int| 0 <= j < i ==> zip_entry_matches(#[trigger] entries@[j], zs[j]),
        decreases n - i,
    {
        let name = match zip_name(archive, i) {
            Some(s) => s,
            None => return Err(ExtractionError::EntryRead),
        };
        let is_dir = is_dir_name(name.as_str());
        let data = if is_dir {
            let d: Vec<u8> = Vec::new();
            assert(d@ =~= Seq::<u8>::empty());
            d
        } else {
            match zip_read(archive, i) {
                Ok(d) => d,
                Err(_) => {
                    assert(!zip_entry_readable(zs[i as int]));
                    return Err(ExtractionError::EntryRead);
                },
            }
        };
        assert(zip_entry_readable(zs[i as int]));
        entries.push(ArchiveEntry { name, is_dir, data });
        i = i + 1;
    }
    Ok(entries)
}

/// Plans the extraction of the ZIP archive at `zip_path`, whose bytes are
/// `contents`. A path without an output directory fails with
/// `DirectoryCreation` before the archive is looked at; bytes that are not a
/// ZIP archive fail with `ArchiveOpen`; a file entry whose bytes cannot be
/// read fails with `EntryRead`; an entry whose name would leave the output
/// directory fails with `UnsafeEntryPath`. Otherwise the plan extracts every
/// entry, in order, below the output directory.
pub fn unzip_file(zip_path: &str, contents: Vec<u8>) -> (r: Result<ExtractionPlan, ExtractionError>)
    ensures
        output_dir_of(zip_path@) is None <==> r == Err::<ExtractionPlan, ExtractionError>(
            ExtractionError::DirectoryCreation,
        ),
        output_dir_of(zip_path@) is Some && zip_archive_of(contents@) is None ==> r == Err::<
            ExtractionPlan,
            ExtractionError,
        >(ExtractionError::ArchiveOpen),
        output_dir_of(zip_path@) is Some && zip_archive_of(contents@) is Some
            && !all_zip_entries_readable(zip_archive_of(contents@)->0) ==> r == Err::<
            ExtractionPlan,
            ExtractionError,
        >(ExtractionError::EntryRead),
        output_dir_of(zip_path@) is Some && zip_archive_of(contents@) is Some
            && all_zip_entries_readable(zip_archive_of(contents@)->0) && !all_zip_names_safe(
            zip_archive_of(contents@)->0,
        ) ==> r == Err::<ExtractionPlan, ExtractionError>(ExtractionError::UnsafeEntryPath),
        output_dir_of(zip_path@) is Some && zip_archive_of(contents@) is Some
            && all_zip_entries_readable(zip_archive_of(contents@)->0) && all_zip_names_safe(
            zip_archive_of(contents@)->0,
        ) ==> r is Ok,
        r is Ok ==> zip_archive_of(contents@) is Some && zip_plan_for(
            output_dir_of(zip_path@)->0,
            zip_archive_of(contents@)->0,
            r->Ok_0,
        ),
        r is Ok ==> stays_below_root(r->Ok_0),
{
    if crate::paths::get_output_dir(zip_path).is_none() {
        return Err(ExtractionError::DirectoryCreation);
    }
    let ghost zs = zip_archive_of(contents@)->0;
    let mut archive = match open_zip(contents) {
        Ok(a) => a,
        Err(_) => return Err(ExtractionError::ArchiveOpen),
    };
    let entries = match read_zip_entries(&mut archive) {
        Ok(v) => v,
        Err(e) => return Err(e),
    };
    assert(all_entries_safe(entries@) <==> all_zip_names_safe(zs)) by {
        if all_zip_names_safe(zs) {
            assert forall|i: int| 0 <= i < entries@.len() implies is_safe_entry_name(
                #[trigger] entries@[i].name@,
            ) by {
                assert(zip_entry_matches(entries@[i], zs[i]));
            }
        }
        if all_entries_safe(entries@) {
            assert forall|i: int| 0 <= i < zs.len() implies is_safe_entry_name(
                #[trigger] zs[i].0,
            ) by {
                assert(zip_entry_matches(entries@[i], zs[i]));
                assert(is_safe_entry_name(entries@[i].name@));
            }
        }
    }
    let r = plan_extraction(zip_path, &entries);
    assert(r is Ok ==> zip_plan_for(output_dir_of(zip_path@)->0, zs, r->Ok_0)) by {
        if r is Ok {
            let p = r->Ok_0;
            let root = output_dir_of(zip_path@)->0;
            assert forall|i: int| 0 <= i < zs.len() implies action_matches(
                root,
                zs[i].0,
                names_directory(zs[i].0),
                zip_entry_bytes(zs[i]),
                #[trigger] p.actions@[i],
            ) by {
                assert(zip_entry_matches(entries@[i], zs[i]));
                assert(action_for(root, entries@[i], p.actions@[i]));
            }
        }
    }
    r
}

} // verus!
