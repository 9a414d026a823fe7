//! A local, content-addressed file tagging store.
//!
//! Files on disk are identified by a fingerprint derived from their content
//! and path, associated with user-defined string tags, and the association is
//! persisted in a relational store backed by SQLite.  The store answers
//! intersection queries ("which files carry all of these tags?") and keeps
//! itself consistent when tags or associations are removed: a file record
//! exists exactly while it holds at least one tag.
use vstd::prelude::*;

pub mod commands;
pub mod db;
pub mod laws;

verus! {

use crate::db::DatabaseError;

/// Errors surfaced to the command-line collaborator.  Each operation either
/// succeeds or returns one of these; the caller maps them to exit codes and
/// messages.
#[derive(Debug)]
pub enum AppError {
    /// The caller asked to open an existing store that does not exist.
    DatabaseNotFound,
    /// The file name component could not be derived from the given path.
    CantGetFileNameFromPath,
    /// The caller supplied an empty tag list where one was required.
    NoTagsSpecified,
    /// The target file lies outside the store's directory subtree.
    FileOutsideStructure,
    /// An error reported by the relational store.
    Database(DatabaseError),
    /// Any other error of the surrounding process, carried as text.
    Unhandled(String),
}

/// Command-line arguments, already parsed and validated by the caller.
pub struct Args {
    /// Path to the database file; `None` means "search for it".
    pub database_path: Option<String>,
    pub command: Command,
}

/// The operations the store offers.
pub enum Command {
    /// Tag a file, creating the store, the file record and the tags as needed.
    Tag { file_path: String, tags: Vec<String> },
    /// Remove tags from a file; does not delete the tags themselves.
    Untag { file_path: String, tags: Vec<String> },
    /// Delete tags from the store, unlinking them from every file.
    RmTags { tags: Vec<String> },
    /// List the tags of one file, or all tags when no file is given.
    Tags { file_path: Option<String> },
    /// List the files that carry all the given tags, or all files.
    Files { tags: Option<Vec<String>> },
}

/// Holds when `parent` is a component-wise prefix of `child`, i.e. the path
/// assembled from `child`'s components lies in the directory subtree named by
/// `parent`'s components.
pub open spec fn is_path_prefix(parent: Seq<Seq<char>>, child: Seq<Seq<char>>) -> bool {
    &&& parent.len() <= child.len()
    &&& forall|i: int| 0 <= i < parent.len() ==> parent[i] == #[trigger] child[i]
}

/// Decides whether the file at `child` may be touched by a store rooted in
/// the directory `parent_dir`: the file must lie inside that directory's
/// subtree.  Both arguments are canonical paths split into their components,
/// as the surrounding process produces them.
pub fn check_file_paths_for_subdirectory(parent_dir: &Vec<String>, child: &Vec<String>) -> (r: bool)
    ensures
        r == is_path_prefix(
            parent_dir@.map_values(|s: String| s@),
            child@.map_values(|s: String| s@),
        ),
{
    if parent_dir.len() > child.len() {
        return false;
    }
    let ghost p = parent_dir@.map_values(|s: String| s@);
    let ghost c = child@.map_values(|s: String| s@);
    let mut i: usize = 0;
    while i < parent_dir.len()
        invariant
            0 <= i <= parent_dir.len() <= child.len(),
            p == parent_dir@.map_values(|s: String| s@),
            c == child@.map_values(|s: String| s@),
            forall|j: int| 0 <= j < i ==> p[j] == #[trigger] c[j],
        decreases parent_dir.len() - i,
    {
        assert(p[i as int] == parent_dir@[i as int]@);
        assert(c[i as int] == child@[i as int]@);
        if !(parent_dir[i] == child[i]) {
            assert(!is_path_prefix(p, c));
            return false;
        }
        i += 1;
    }
    true
}

} // verus!
