//! Paths: the output directory of an archive, and where an entry may be written.
use vstd::prelude::*;

use crate::error::ExtractionError;

verus! {

/// Index of the last occurrence of `c` in `s`, or -1 when there is none.
pub open spec fn last_index_of(s: Seq<char>, c: char) -> int
    decreases s.len(),
{
    if s.len() == 0 {
        -1
    } else if s.last() == c {
        s.len() - 1
    } else {
        last_index_of(s.drop_last(), c)
    }
}

/// The directory part of a path, its final `/` included (empty when there is none).
pub open spec fn parent_part(p: Seq<char>) -> Seq<char> {
    p.subrange(0, last_index_of(p, '/') + 1)
}

/// The last component of a path: what follows its final `/`.
pub open spec fn file_name_part(p: Seq<char>) -> Seq<char> {
    p.subrange(last_index_of(p, '/') + 1, p.len() as int)
}

/// A file name that names something: not empty, `.` or `..`.
pub open spec fn names_file(n: Seq<char>) -> bool {
    n.len() != 0 && n != seq!['.'] && n != seq!['.', '.']
}

/// A file name without its extension. A leading dot starts no extension.
pub open spec fn stem_of(n: Seq<char>) -> Seq<char> {
    let d = last_index_of(n, '.');
    if d > 0 {
        n.subrange(0, d)
    } else {
        n
    }
}

/// The directory that an archive at path `p` is extracted into: beside the
/// archive, named by the archive's stem. `None` when the path has no file name.
pub open spec fn output_dir_of(p: Seq<char>) -> Option<Seq<char>> {
    if names_file(file_name_part(p)) {
        Some(parent_part(p) + stem_of(file_name_part(p)))
    } else {
        None
    }
}

proof fn lemma_last_index_bounds(s: Seq<char>, c: char)
    ensures
        -1 <= last_index_of(s, c) < s.len(),
        last_index_of(s, c) >= 0 ==> s[last_index_of(s, c)] == c,
        forall|j: int| last_index_of(s, c) < j < s.len() ==> s[j] != c,
    decreases s.len(),
{
    if s.len() > 0 && s.last() != c {
        lemma_last_index_bounds(s.drop_last(), c);
        assert forall|j: int| last_index_of(s, c) < j < s.len() implies s[j] != c by {
            if j < s.len() - 1 {
                assert(s[j] == s.drop_last()[j]);
            }
        }
    }
}

/// Finds the last occurrence of `c` in `s` by scanning from the end.
fn find_last(s: &str, c: char) -> (r: Option<usize>)
    ensures
        match r {
            Some(i) => i as int == last_index_of(s@, c),
            None => last_index_of(s@, c) == -1,
        },
{
    let n = s.unicode_len();
    let mut k: usize = n;
    proof {
        lemma_last_index_bounds(s@, c);
    }
    while k > 0
        invariant
            k <= n == s@.len(),
            forall|j: int| k <= j < n ==> s@[j] != c,
        decreases k,
    {
        if s.get_char(k - 1) == c {
            proof {
                lemma_last_index_found(s@, c, k - 1);
            }
            return Some(k - 1);
        }
        k = k - 1;
    }
    proof {
        lemma_last_index_found(s@, c, -1);
    }
    None
}

proof fn lemma_last_index_found(s: Seq<char>, c: char, i: int)
    requires
        -1 <= i < s.len(),
        i >= 0 ==> s[i] == c,
        forall|j: int| i < j < s.len() ==> s[j] != c,
    ensures
        last_index_of(s, c) == i,
    decreases s.len(),
{
    if s.len() > 0 && s.last() != c {
        lemma_last_index_found(s.drop_last(), c, i);
    }
}

/// The directory that the archive at `file_path` is extracted into: the
/// archive's own directory joined with the archive's file name less its last
/// extension (`dir/data.tar.gz` gives `dir/data.tar`). A path whose last
/// component is empty, `.` or `..` has no such directory and gives `None`.
pub fn get_output_dir(file_path: &str) -> (r: Option<String>)
    ensures
        match r {
            Some(d) => output_dir_of(file_path@) == Some(d@),
            None => output_dir_of(file_path@) is None,
        },
{
    let n = file_path.unicode_len();
    proof {
        lemma_last_index_bounds(file_path@, '/');
    }
    let start: usize = match find_last(file_path, '/') {
        Some(i) => i + 1,
        None => 0,
    };
    let parent = file_path.substring_char(0, start);
    let name = file_path.substring_char(start, n);
    assert(parent@ == parent_part(file_path@));
    assert(name@ == file_name_part(file_path@));
    let len = n - start;
    if len == 0 {
        return None;
    }
    if name.get_char(0) == '.' && (len == 1 || (len == 2 && name.get_char(1) == '.')) {
        assert(len == 1 ==> name@ =~= seq!['.']);
        assert(len == 2 ==> name@ =~= seq!['.', '.']);
        return None;
    }
    assert(names_file(name@)) by {
        if name@ == seq!['.'] {
            assert(name@[0] == '.');
        }
        if name@ == seq!['.', '.'] {
            assert(name@[0] == '.' && name@[1] == '.');
        }
    }
    proof {
        lemma_last_index_bounds(name@, '.');
    }
    let stem = match find_last(name, '.') {
        Some(d) => if d > 0 {
            name.substring_char(0, d)
        } else {
            name
        },
        None => name,
    };
    let out = String::from_str(parent).concat(stem);
    Some(out)
}

/// Resolving an archive path that ends in `.ext` gives the archive's directory
/// joined with the archive's file name less that final `.ext`.
pub proof fn lemma_output_dir_strips_extension(dir: Seq<char>, stem: Seq<char>, ext: Seq<char>)
    requires
        dir.len() == 0 || dir.last() == '/',
        stem.len() > 0,
        !stem.contains('/'),
        ext.len() > 0,
        !ext.contains('/'),
        !ext.contains('.'),
    ensures
        output_dir_of(dir + stem + seq!['.'] + ext) == Some(dir + stem),
{
    let name = stem + seq!['.'] + ext;
    let p = dir + stem + seq!['.'] + ext;
    assert(p =~= dir + name);
    assert forall|j: int| dir.len() - 1 < j < p.len() implies p[j] != '/' by {
        assert(p[j] == name[j - dir.len()]);
        if j - dir.len() < stem.len() {
            assert(name[j - dir.len()] == stem[j - dir.len()]);
        } else if j - dir.len() > stem.len() {
            assert(name[j - dir.len()] == ext[j - dir.len() - stem.len() - 1]);
        }
    }
    if dir.len() > 0 {
        assert(p[dir.len() - 1] == dir.last());
    }
    lemma_last_index_found(p, '/', dir.len() - 1);
    assert(parent_part(p) =~= dir);
    assert(file_name_part(p) =~= name);
    assert forall|j: int| stem.len() < j < name.len() implies name[j] != '.' by {
        assert(name[j] == ext[j - stem.len() - 1]);
    }
    lemma_last_index_found(name, '.', stem.len() as int);
    assert(stem_of(name) =~= stem);
    assert(name.len() >= 3);
}

/// A separator between the components of an entry name. Archives written on
/// Windows may use a backslash.
pub open spec fn is_entry_sep(c: char) -> bool {
    c == '/' || c == '\\'
}

/// Entry name `n` holds a `..` component that starts at index `i`.
pub open spec fn parent_segment_at(n: Seq<char>, i: int) -> bool {
    &&& 0 <= i
    &&& i + 2 <= n.len()
    &&& n[i] == '.'
    &&& n[i + 1] == '.'
    &&& (i == 0 || is_entry_sep(n[i - 1]))
    &&& (i + 2 == n.len() || is_entry_sep(n[i + 2]))
}

/// An entry name that stays below the directory it is joined to: it is not
/// empty, not absolute, holds no NUL and has no `..` component.
pub open spec fn is_safe_entry_name(n: Seq<char>) -> bool {
    &&& n.len() > 0
    &&& !is_entry_sep(n[0])
    &&& !n.contains('\0')
    &&& forall|i: int| !#[trigger] parent_segment_at(n, i)
}

/// Path `root` joined with the relative path `rel`.
pub open spec fn join(root: Seq<char>, rel: Seq<char>) -> Seq<char> {
    root + seq!['/'] + rel
}

fn is_sep_char(c: char) -> (r: bool)
    ensures
        r == is_entry_sep(c),
{
    c == '/' || c == '\\'
}

/// Whether an entry name may be written below the output directory.
pub fn entry_name_is_safe(name: &str) -> (r: bool)
    ensures
        r == is_safe_entry_name(name@),
{
    let n = name.unicode_len();
    if n == 0 {
        return false;
    }
    if is_sep_char(name.get_char(0)) {
        return false;
    }
    let mut i: usize = 0;
    while i < n
        invariant
            i <= n == name@.len(),
            n > 0,
            !is_entry_sep(name@[0]),
            forall|j: int| 0 <= j < i ==> name@[j] != '\0',
            forall|j: int| 0 <= j < i ==> !#[trigger] parent_segment_at(name@, j),
        decreases n - i,
    {
        let c = name.get_char(i);
        if c == '\0' {
            assert(name@.contains('\0')) by {
                assert(name@[i as int] == '\0');
            }
            return false;
        }
        if c == '.' && i + 1 < n && name.get_char(i + 1) == '.' {
            let before = i == 0 || is_sep_char(name.get_char(i - 1));
            let after = i + 2 == n || is_sep_char(name.get_char(i + 2));
            if before && after {
                assert(parent_segment_at(name@, i as int));
                return false;
            }
        }
        assert(!parent_segment_at(name@, i as int));
        i = i + 1;
    }
    assert(!name@.contains('\0'));
    assert forall|j: int| !#[trigger] parent_segment_at(name@, j) by {
        if 0 <= j < n {
        }
    }
    true
}

/// Where the entry `name` is written below `root`: `root/name`. A name that
/// would leave `root` is refused with `UnsafeEntryPath`.
pub fn entry_target(root: &str, name: &str) -> (r: Result<String, ExtractionError>)
    ensures
        match r {
            Ok(t) => is_safe_entry_name(name@) && t@ == join(root@, name@),
            Err(e) => !is_safe_entry_name(name@) && e == ExtractionError::UnsafeEntryPath,
        },
{
    if !entry_name_is_safe(name) {
        return Err(ExtractionError::UnsafeEntryPath);
    }
    let t = String::from_str(root).concat("/").concat(name);
    proof {
        reveal_strlit("/");
    }
    Ok(t)
}

} // verus!
