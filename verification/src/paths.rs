//! Deciding what a path argument stands for.
//!
//! An argument names a file, a link, a directory or a pattern. What the file
//! system says of it comes in as plain values; what to do with it goes out as
//! a `PathAction`.

use crate::split::texts;
use crate::text::{chars_of, has_char};
use vstd::prelude::*;

verus! {

/// What stands at a path that exists.
#[derive(Debug, Clone, Copy, PartialEq, Eq, Structural)]
pub enum PathType {
    File,
    Directory,
    Symlink,
}

/// What to do with one path argument.
#[derive(Debug, Clone, Copy, PartialEq, Eq, Structural)]
pub enum PathAction {
    /// Take the argument itself as a file.
    AddFile,
    /// Take the target of the link.
    FollowLink,
    /// Take every `*.sql` file below the directory.
    ExpandDirectory,
    /// Take every file that the pattern matches.
    ExpandGlob,
    /// Report that nothing was found.
    NotFound,
}

/// The type of a path from what the file system says of it: nothing where it
/// does not exist, else a file, else a directory, else a link.
pub open spec fn path_type_of(exists: bool, is_file: bool, is_dir: bool) -> Option<PathType> {
    if !exists {
        None
    } else if is_file {
        Some(PathType::File)
    } else if is_dir {
        Some(PathType::Directory)
    } else {
        Some(PathType::Symlink)
    }
}

/// The action for an argument of the given type. An argument that does not
/// exist is a pattern where it holds `*`.
pub open spec fn action_for(path_type: Option<PathType>, argument: Seq<char>) -> PathAction {
    match path_type {
        Some(PathType::File) => PathAction::AddFile,
        Some(PathType::Symlink) => PathAction::FollowLink,
        Some(PathType::Directory) => PathAction::ExpandDirectory,
        None => if argument.contains('*') {
            PathAction::ExpandGlob
        } else {
            PathAction::NotFound
        },
    }
}

/// The pattern for every `*.sql` file at any depth below a directory: the
/// directory, a slash unless the directory is empty or ends with one, and
/// `**/*.sql`.
pub open spec fn directory_pattern_of(directory: Seq<char>) -> Seq<char> {
    if directory.len() == 0 || directory.last() == '/' {
        directory + "**/*.sql"@
    } else {
        directory.push('/') + "**/*.sql"@
    }
}

/// The distinct elements of `paths`, each at the place of its first
/// occurrence.
pub open spec fn distinct(paths: Seq<Seq<char>>) -> Seq<Seq<char>>
    decreases paths.len(),
{
    if paths.len() == 0 {
        Seq::empty()
    } else {
        let before = distinct(paths.drop_last());
        if before.contains(paths.last()) {
            before
        } else {
            before.push(paths.last())
        }
    }
}

/// `distinct` holds nothing twice and holds exactly what `paths` holds.
pub proof fn lemma_distinct(paths: Seq<Seq<char>>)
    ensures
        distinct(paths).no_duplicates(),
        forall|p: Seq<char>| #[trigger] distinct(paths).contains(p) <==> paths.contains(p),
        distinct(paths).len() <= paths.len(),
    decreases paths.len(),
{
    if paths.len() > 0 {
        let head = paths.drop_last();
        let before = distinct(head);
        lemma_distinct(head);
        assert forall|p: Seq<char>| #[trigger] distinct(paths).contains(p) <==> paths.contains(
            p,
        ) by {
            if distinct(paths).contains(p) {
                let j = choose|j: int| 0 <= j < distinct(paths).len() && distinct(paths)[j] == p;
                if j < before.len() {
                    assert(before[j] == p);
                    assert(before.contains(p));
                    let i = choose|i: int| 0 <= i < head.len() && head[i] == p;
                    assert(paths[i] == p);
                } else {
                    assert(paths[paths.len() - 1] == p);
                }
            }
            if paths.contains(p) {
                let i = choose|i: int| 0 <= i < paths.len() && paths[i] == p;
                if i < head.len() {
                    assert(head[i] == p);
                    assert(before.contains(p));
                    let j = choose|j: int| 0 <= j < before.len() && before[j] == p;
                    assert(distinct(paths)[j] == p);
                } else if before.contains(p) {
                } else {
                    assert(distinct(paths)[before.len() as int] == p);
                }
            }
        }
    }
}

/// Tells the type of a path from what the file system says of it.
pub fn get_path_type(exists: bool, is_file: bool, is_dir: bool) -> (path_type: Option<PathType>)
    ensures
        path_type == path_type_of(exists, is_file, is_dir),
{
    if !exists {
        return None;
    }
    match is_file {
        true => Some(PathType::File),
        false => match is_dir {
            true => Some(PathType::Directory),
            false => Some(PathType::Symlink),
        },
    }
}

/// Decides what to do with one path argument of the given type.
pub fn plan_path(path_type: Option<PathType>, argument: &str) -> (action: PathAction)
    ensures
        action == action_for(path_type, argument@),
{
    match path_type {
        Some(PathType::File) => PathAction::AddFile,
        Some(PathType::Symlink) => PathAction::FollowLink,
        Some(PathType::Directory) => PathAction::ExpandDirectory,
        None => {
            let chars = chars_of(argument);
            if has_char(chars.as_slice(), '*') {
                PathAction::ExpandGlob
            } else {
                PathAction::NotFound
            }
        },
    }
}

/// The pattern that finds every `*.sql` file at any depth below `directory`.
pub fn directory_pattern(directory: &str) -> (pattern: String)
    ensures
        pattern@ == directory_pattern_of(directory@),
{
    let chars = chars_of(directory);
    let mut pattern = String::from_str(directory);
    if chars.len() > 0 && chars[chars.len() - 1] != '/' {
        pattern.push('/');
    }
    pattern.append("**/*.sql");
    pattern
}

/// Whether `paths` holds `path`.
pub fn has_path(paths: &Vec<String>, path: &String) -> (found: bool)
    ensures
        found == texts(paths@).contains(path@),
{
    let mut i: usize = 0;
    while i < paths.len()
        invariant
            i <= paths@.len(),
            forall|j: int| 0 <= j < i ==> texts(paths@)[j] != path@,
        decreases paths@.len() - i,
    {
        if paths[i] == *path {
            assert(texts(paths@)[i as int] == path@);
            return true;
        }
        i += 1;
    }
    false
}

/// The set of files to search, from the paths found for all arguments: each
/// path once, at the place of its first occurrence.
pub fn get_file_paths(found: Vec<String>) -> (paths: Vec<String>)
    ensures
        texts(paths@) == distinct(texts(found@)),
        texts(paths@).no_duplicates(),
        forall|p: Seq<char>| #[trigger] texts(paths@).contains(p) <==> texts(found@).contains(p),
{
    let mut paths: Vec<String> = Vec::new();
    let mut i: usize = 0;
    assert(texts(paths@) =~= Seq::empty());
    while i < found.len()
        invariant
            i <= found@.len(),
            texts(paths@) == distinct(texts(found@).take(i as int)),
        decreases found@.len() - i,
    {
        proof {
            assert(texts(found@).take(i + 1).drop_last() =~= texts(found@).take(i as int));
            assert(texts(found@).take(i + 1).last() == found@[i as int]@);
        }
        if !has_path(&paths, &found[i]) {
            let ghost before = paths@;
            let path = found[i].clone();
            paths.push(path);
            assert(texts(paths@) =~= texts(before).push(found@[i as int]@));
        }
        i += 1;
    }
    proof {
        assert(texts(found@).take(found@.len() as int) =~= texts(found@));
        lemma_distinct(texts(found@));
    }
    paths
}

} // verus!
