//! The extraction plan: what is made on disk for each entry of an archive.
use vstd::prelude::*;

use crate::error::ExtractionError;
use crate::paths::{
    entry_target, get_output_dir, is_safe_entry_name, join, lemma_output_dir_strips_extension,
    output_dir_of,
};

verus! {

/// One entry read from an archive: its name as recorded in the archive,
/// whether it is a directory, and, for a file, its decompressed bytes.
#[derive(Debug, PartialEq, Eq)]
pub struct ArchiveEntry {
    pub name: String,
    pub is_dir: bool,
    pub data: Vec<u8>,
}

/// One step of an extraction.
#[derive(Debug, PartialEq, Eq)]
pub enum EntryAction {
    /// Make this directory and any missing ancestors.
    CreateDir { path: String },
    /// Make the directory that holds `path`, then create or overwrite the
    /// file at `path` with `data`.
    WriteFile { path: String, data: Vec<u8> },
}

/// Everything an extraction writes: the output directory, made first, and one
/// action per entry, in the archive's order.
#[derive(Debug, PartialEq, Eq)]
pub struct ExtractionPlan {
    pub root: String,
    pub actions: Vec<EntryAction>,
}

/// `a` is the action that extracts, below `root`, an entry named `name` that
/// is a directory when `is_dir` holds and otherwise a file holding `data`.
pub open spec fn action_matches(
    root: Seq<char>,
    name: Seq<char>,
    is_dir: bool,
    data: Seq<u8>,
    a: EntryAction,
) -> bool {
    match a {
        EntryAction::CreateDir { path } => is_dir && path@ == join(root, name),
        EntryAction::WriteFile { path, data: d } => {
            &&& !is_dir
            &&& path@ == join(root, name)
            &&& d@ == data
        },
    }
}

/// `a` is the action that extracts entry `e` below `root`.
pub open spec fn action_for(root: Seq<char>, e: ArchiveEntry, a: EntryAction) -> bool {
    action_matches(root, e.name@, e.is_dir, e.data@, a)
}

/// Every entry's name stays below the directory it is extracted into.
pub open spec fn all_entries_safe(entries: Seq<ArchiveEntry>) -> bool {
    forall|i: int| 0 <= i < entries.len() ==> is_safe_entry_name(#[trigger] entries[i].name@)
}

/// `p` extracts `entries` into `root`, one action per entry, in order.
pub open spec fn plan_for(root: Seq<char>, entries: Seq<ArchiveEntry>, p: ExtractionPlan) -> bool {
    &&& p.root@ == root
    &&& p.actions@.len() == entries.len()
    &&& forall|i: int|
        0 <= i < entries.len() ==> action_for(root, entries[i], #[trigger] p.actions@[i])
}

/// The path that an action writes to.
pub open spec fn action_path(a: EntryAction) -> Seq<char> {
    match a {
        EntryAction::CreateDir { path } => path@,
        EntryAction::WriteFile { path, .. } => path@,
    }
}

/// `path` is `root/rel` for a relative name `rel` that cannot leave `root`.
pub open spec fn below_root(root: Seq<char>, path: Seq<char>) -> bool {
    exists|rel: Seq<char>| is_safe_entry_name(rel) && path == #[trigger] join(root, rel)
}

/// Every action of `p` writes below the plan's root.
pub open spec fn stays_below_root(p: ExtractionPlan) -> bool {
    forall|i: int| 0 <= i < p.actions@.len() ==> below_root(p.root@, action_path(#[trigger] p.actions@[i]))
}

/// Actions `a` and `b` make the same thing at the same path.
pub open spec fn same_action(a: EntryAction, b: EntryAction) -> bool {
    match (a, b) {
        (EntryAction::CreateDir { path: p }, EntryAction::CreateDir { path: q }) => p@ == q@,
        (
            EntryAction::WriteFile { path: p, data: d },
            EntryAction::WriteFile { path: q, data: e },
        ) => p@ == q@ && d@ == e@,
        _ => false,
    }
}

/// Plans `p` and `q` write the same tree: the same root, and the same actions
/// in the same order.
pub open spec fn same_plan(p: ExtractionPlan, q: ExtractionPlan) -> bool {
    &&& p.root@ == q.root@
    &&& p.actions@.len() == q.actions@.len()
    &&& forall|i: int|
        0 <= i < p.actions@.len() ==> same_action(#[trigger] p.actions@[i], q.actions@[i])
}

/// Extracting the same entries into the same directory twice writes the same
/// tree both times: the second run overwrites each path with what the first
/// wrote there.
pub proof fn lemma_extraction_repeats(
    root: Seq<char>,
    entries: Seq<ArchiveEntry>,
    first: ExtractionPlan,
    second: ExtractionPlan,
)
    requires
        plan_for(root, entries, first),
        plan_for(root, entries, second),
    ensures
        same_plan(first, second),
{
    assert forall|i: int| 0 <= i < first.actions@.len() implies same_action(
        #[trigger] first.actions@[i],
        second.actions@[i],
    ) by {
        assert(action_for(root, entries[i], first.actions@[i]));
        assert(action_for(root, entries[i], second.actions@[i]));
    }
}

/// A ZIP archive and a RAR archive that sit in the same directory under the
/// same stem and hold the same entries extract to the same tree.
pub proof fn lemma_formats_extract_alike(
    dir: Seq<char>,
    stem: Seq<char>,
    entries: Seq<ArchiveEntry>,
    from_zip: ExtractionPlan,
    from_rar: ExtractionPlan,
)
    requires
        dir.len() == 0 || dir.last() == '/',
        stem.len() > 0,
        !stem.contains('/'),
        plan_for(output_dir_of(dir + stem + seq!['.', 'z', 'i', 'p'])->0, entries, from_zip),
        plan_for(output_dir_of(dir + stem + seq!['.', 'r', 'a', 'r'])->0, entries, from_rar),
    ensures
        same_plan(from_zip, from_rar),
{
    let zip_ext = seq!['z', 'i', 'p'];
    let rar_ext = seq!['r', 'a', 'r'];
    assert(!zip_ext.contains('/') && !zip_ext.contains('.')) by {
        assert forall|i: int| 0 <= i < 3 implies zip_ext[i] != '/' && zip_ext[i] != '.' by {}
    }
    assert(!rar_ext.contains('/') && !rar_ext.contains('.')) by {
        assert forall|i: int| 0 <= i < 3 implies rar_ext[i] != '/' && rar_ext[i] != '.' by {}
    }
    lemma_output_dir_strips_extension(dir, stem, zip_ext);
    lemma_output_dir_strips_extension(dir, stem, rar_ext);
    assert(dir + stem + seq!['.'] + zip_ext =~= dir + stem + seq!['.', 'z', 'i', 'p']);
    assert(dir + stem + seq!['.'] + rar_ext =~= dir + stem + seq!['.', 'r', 'a', 'r']);
    lemma_extraction_repeats(dir + stem, entries, from_zip, from_rar);
}

/// Plans the extraction of `entries`, read from the archive at
/// `archive_path`, into the directory that `get_output_dir` names. A path
/// without an output directory fails with `DirectoryCreation`; an entry whose
/// name would leave that directory fails the whole plan with `UnsafeEntryPath`,
/// before anything is written.
pub fn plan_extraction(archive_path: &str, entries: &Vec<ArchiveEntry>) -> (r: Result<
    ExtractionPlan,
    ExtractionError,
>)
    ensures
        output_dir_of(archive_path@) is None ==> r == Err::<ExtractionPlan, ExtractionError>(
            ExtractionError::DirectoryCreation,
        ),
        output_dir_of(archive_path@) is Some && !all_entries_safe(entries@) ==> r == Err::<
            ExtractionPlan,
            ExtractionError,
        >(ExtractionError::UnsafeEntryPath),
        output_dir_of(archive_path@) is Some && all_entries_safe(entries@) ==> r is Ok,
        r is Ok ==> plan_for(output_dir_of(archive_path@)->0, entries@, r->Ok_0),
        r is Ok ==> stays_below_root(r->Ok_0),
{
    let root = match get_output_dir(archive_path) {
        Some(d) => d,
        None => return Err(ExtractionError::DirectoryCreation),
    };
    let mut actions: Vec<EntryAction> = Vec::new();
    let mut i: usize = 0;
    while i < entries.len()
        invariant
            i <= entries@.len(),
            output_dir_of(archive_path@) == Some(root@),
            actions@.len() == i,
            forall|j: int| 0 <= j < i ==> is_safe_entry_name(#[trigger] entries@[j].name@),
            forall|j: int| 0 <= j < i ==> action_for(root@, entries@[j], #[trigger] actions@[j]),
        decreases entries@.len() - i,
    {
        let e = &entries[i];
        let path = match entry_target(root.as_str(), e.name.as_str()) {
            Ok(t) => t,
            Err(err) => {
                assert(!all_entries_safe(entries@)) by {
                    assert(!is_safe_entry_name(entries@[i as int].name@));
                }
                return Err(err);
            },
        };
        if e.is_dir {
            actions.push(EntryAction::CreateDir { path });
        } else {
            let data = e.data.clone();
            assert(data@ =~= e.data@);
            actions.push(EntryAction::WriteFile { path, data });
        }
        i = i + 1;
    }
    let plan = ExtractionPlan { root, actions };
    assert forall|j: int| 0 <= j < plan.actions@.len() implies below_root(
        plan.root@,
        action_path(#[trigger] plan.actions@[j]),
    ) by {
        assert(action_for(root@, entries@[j], plan.actions@[j]));
        let rel = entries@[j].name@;
        assert(is_safe_entry_name(rel));
        assert(action_path(plan.actions@[j]) == join(plan.root@, rel));
    }
    assert(stays_below_root(plan));
    Ok(plan)
}

} // verus!
