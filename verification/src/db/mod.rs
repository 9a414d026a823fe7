//! The relational store: three entity collections (files, tags, and the
//! file-tag association) persisted in a SQLite database, together with the
//! mathematical model that the operations' contracts speak of.
//!
//! The model views the store as three collections:
//! - `files`: a map from a surrogate id to a file record
//!   `(path, name, contents_hash, fingerprint_hash)`,
//! - `tags`: a map from a surrogate id to a tag name,
//! - `links`: the set of `(file id, tag id)` associations.
//!
//! Two snapshots are tracked: the *current* contents as seen by this
//! connection (including changes staged inside an open transaction) and the
//! *committed* contents, durable on disk.  Outside a transaction the two
//! coincide; `commit` promotes the current contents, a rollback discards
//! them.  Every multi-step mutation of the store runs inside exactly one
//! transaction, so a failure mid-operation leaves the committed state as it
//! was.
use vstd::prelude::*;

pub mod tables;

use rusqlite::Connection;

verus! {

/// A file record as the store keeps it:
/// `(path, name, contents_hash, fingerprint_hash)`.
pub type FileRow = (Seq<char>, Seq<char>, Seq<char>, Seq<char>);

/// Errors of the relational store.
#[derive(Debug)]
pub enum DatabaseError {
    /// The caller asked to open an existing store file that does not exist.
    StoreNotFound,
    /// An untag operation targeted a fingerprint with no file record.
    NoSuchFile,
    /// The operation referenced a tag name absent from the store.
    NoSuchTag(String),
    /// The tag exists in the store but is not associated with this file.
    NoSuchTagOnFile(String),
    /// A lower-level storage-engine failure, carried as text.
    DatabaseInternal(String),
}

/// A file handed to the store for creation: the last-known path, the base
/// file name, the digest of the file's bytes, and the fingerprint that
/// identifies the file record across renames of other files.
#[derive(Debug, Clone)]
pub struct File {
    pub path: String,
    pub name: String,
    pub contents_hash: String,
    pub fingerprint_hash: String,
}

impl File {
    /// The record this file occupies in the store's model.
    pub open spec fn row(self) -> FileRow {
        (self.path@, self.name@, self.contents_hash@, self.fingerprint_hash@)
    }
}

/// How to open the backing database file.
pub enum DatabaseMode {
    /// Create the file if absent, apply migrations, allow reads and writes.
    ReadWriteCreate,
    /// Open an existing file for reads and writes, applying migrations.
    ReadWrite,
    /// Open an existing file for reads only; no migrations are applied.
    Read,
}

/// One snapshot of the store's three collections.
#[verifier::ext_equal]
pub ghost struct StoreState {
    pub files: Map<int, FileRow>,
    pub tags: Map<int, Seq<char>>,
    pub links: Set<(int, int)>,
}

impl StoreState {
    /// Does some file record carry this fingerprint?
    pub open spec fn has_fp(self, fp: Seq<char>) -> bool {
        exists|fid: int| #[trigger] self.files.dom().contains(fid) && self.files[fid].3 == fp
    }

    /// The id of the file record carrying this fingerprint (meaningful only
    /// when `has_fp` holds and fingerprints are unique, as `wf` demands).
    pub open spec fn fid_of(self, fp: Seq<char>) -> int {
        choose|fid: int| #[trigger] self.files.dom().contains(fid) && self.files[fid].3 == fp
    }

    /// The set of fingerprints present in the store.
    pub open spec fn fps(self) -> Set<Seq<char>> {
        Set::new(|fp: Seq<char>| self.has_fp(fp))
    }

    /// The record carrying this fingerprint.
    pub open spec fn row_of(self, fp: Seq<char>) -> FileRow {
        self.files[self.fid_of(fp)]
    }

    /// Is this name a tag of the store?
    pub open spec fn has_tag(self, n: Seq<char>) -> bool {
        exists|tid: int| #[trigger] self.tags.dom().contains(tid) && self.tags[tid] == n
    }

    /// The id of the tag with this name (meaningful only when `has_tag`
    /// holds and names are unique, as `wf` demands).
    pub open spec fn tid_of(self, n: Seq<char>) -> int {
        choose|tid: int| #[trigger] self.tags.dom().contains(tid) && self.tags[tid] == n
    }

    /// The set of tag names present in the store.
    pub open spec fn tagnames(self) -> Set<Seq<char>> {
        Set::new(|n: Seq<char>| self.has_tag(n))
    }

    /// The names of the tags associated with the file record `fid`.
    pub open spec fn fid_tagnames(self, fid: int) -> Set<Seq<char>> {
        Set::new(
            |n: Seq<char>|
                exists|tid: int|
                    #[trigger] self.links.contains((fid, tid)) && self.tags.dom().contains(tid)
                        && self.tags[tid] == n,
        )
    }

    /// The names of the tags associated with the file carrying fingerprint
    /// `fp`; empty when no record carries it (an untracked file is a valid
    /// state to query, not an error).
    pub open spec fn file_tagnames(self, fp: Seq<char>) -> Set<Seq<char>> {
        if self.has_fp(fp) {
            self.fid_tagnames(self.fid_of(fp))
        } else {
            Set::empty()
        }
    }

    /// Consistency of a snapshot: the collections are finite, a fingerprint
    /// names at most one file record, a name at most one tag, and every
    /// association references existing records.  This part of
    /// well-formedness holds even inside a transaction.
    pub open spec fn consistent(self) -> bool {
        &&& self.files.dom().finite()
        &&& self.tags.dom().finite()
        &&& self.links.finite()
        &&& forall|f1: int, f2: int|
            #![trigger self.files[f1], self.files[f2]]
            self.files.dom().contains(f1) && self.files.dom().contains(f2) && self.files[f1].3
                == self.files[f2].3 ==> f1 == f2
        &&& forall|t1: int, t2: int|
            #![trigger self.tags[t1], self.tags[t2]]
            self.tags.dom().contains(t1) && self.tags.dom().contains(t2) && self.tags[t1]
                == self.tags[t2] ==> t1 == t2
        &&& forall|l: (int, int)| #[trigger]
            self.links.contains(l) ==> self.files.dom().contains(l.0) && self.tags.dom().contains(
                l.1,
            )
    }

    /// Well-formedness of a snapshot: it is consistent and every file record
    /// holds at least one tag.  The store satisfies this between operations;
    /// inside a transaction the coverage clause may be temporarily broken.
    pub open spec fn wf(self) -> bool {
        &&& self.consistent()
        &&& forall|fid: int| #[trigger]
            self.files.dom().contains(fid) ==> exists|tid: int| #[trigger]
                self.links.contains((fid, tid))
    }
}

/// The views of the given names.
pub open spec fn names_of(names: Seq<String>) -> Seq<Seq<char>> {
    names.map_values(|s: String| s@)
}

/// The set of the names in the sequence.
pub open spec fn set_of(names: Seq<Seq<char>>) -> Set<Seq<char>> {
    Set::new(|n: Seq<char>| names.contains(n))
}

/// How a successful untag transforms the store: every association between
/// the file carrying `fp` and a tag named in `names` is removed, and the
/// file record itself is removed when no association is left.  Tags are
/// never deleted by an untag, only by an explicit tag removal.
pub open spec fn untag_post(
    pre: StoreState,
    fp: Seq<char>,
    names: Seq<Seq<char>>,
    post: StoreState,
) -> bool {
    &&& pre.has_fp(fp)
    &&& forall|n: Seq<char>| #[trigger] names.contains(n) ==> pre.file_tagnames(fp).contains(n)
    &&& post.tags == pre.tags
    &&& forall|l: (int, int)|
        #[trigger] post.links.contains(l) <==> pre.links.contains(l) && !(l.0 == pre.fid_of(fp)
            && pre.tags.dom().contains(l.1) && names.contains(pre.tags[l.1]))
    &&& if pre.file_tagnames(fp).subset_of(set_of(names)) {
        post.files == pre.files.remove(pre.fid_of(fp))
    } else {
        post.files == pre.files
    }
    &&& post.tagnames() == pre.tagnames()
    &&& post.file_tagnames(fp) == pre.file_tagnames(fp).difference(set_of(names))
    &&& forall|fp2: Seq<char>|
        fp2 != fp ==> #[trigger] post.file_tagnames(fp2) == pre.file_tagnames(fp2)
    &&& post.fps() == (if pre.file_tagnames(fp).subset_of(set_of(names)) {
        pre.fps().remove(fp)
    } else {
        pre.fps()
    })
    &&& forall|fp2: Seq<char>| #[trigger]
        post.has_fp(fp2) ==> pre.has_fp(fp2) && post.row_of(fp2) == pre.row_of(fp2)
}

/// Does the file record `fid` hold at least one association?
pub open spec fn has_link(s: StoreState, fid: int) -> bool {
    exists|tid: int| #[trigger] s.links.contains((fid, tid))
}

/// How a successful tag removal transforms the store: every named tag is
/// deleted, every association referencing one of them is deleted with it,
/// and every file record left without a single tag disappears.
pub open spec fn remove_tags_post(
    pre: StoreState,
    names: Seq<Seq<char>>,
    post: StoreState,
) -> bool {
    &&& forall|n: Seq<char>| #[trigger] names.contains(n) ==> pre.has_tag(n)
    &&& forall|tid: int| #[trigger]
        post.tags.dom().contains(tid) ==> pre.tags.dom().contains(tid) && post.tags[tid]
            == pre.tags[tid] && !names.contains(pre.tags[tid])
    &&& forall|tid: int|
        pre.tags.dom().contains(tid) && !names.contains(#[trigger] pre.tags[tid])
            ==> post.tags.dom().contains(tid)
    &&& forall|l: (int, int)|
        #[trigger] post.links.contains(l) <==> pre.links.contains(l)
            && pre.tags.dom().contains(l.1) && !names.contains(pre.tags[l.1])
    &&& forall|fid: int| #[trigger]
        post.files.dom().contains(fid) ==> pre.files.dom().contains(fid) && post.files[fid]
            == pre.files[fid]
    &&& forall|fid: int| #[trigger]
        pre.files.dom().contains(fid) ==> (post.files.dom().contains(fid) <==> has_link(
            post,
            fid,
        ))
    &&& post.tagnames() == pre.tagnames().difference(set_of(names))
    &&& forall|fp: Seq<char>|
        #[trigger] post.has_fp(fp) <==> pre.has_fp(fp) && !pre.file_tagnames(fp).subset_of(
            set_of(names),
        )
    &&& forall|fp: Seq<char>| #[trigger]
        post.has_fp(fp) ==> post.row_of(fp) == pre.row_of(fp) && post.file_tagnames(fp)
            == pre.file_tagnames(fp).difference(set_of(names))
}

/// `names` lists exactly the tags on the file carrying `fp`: each listed
/// name is on the file, each of the file's tags is listed, and nothing is
/// listed twice.
pub open spec fn tags_answer(s: StoreState, fp: Seq<char>, names: Seq<Seq<char>>) -> bool {
    &&& forall|k: int|
        0 <= k < names.len() ==> s.file_tagnames(fp).contains(#[trigger] names[k])
    &&& forall|n: Seq<char>| #[trigger] s.file_tagnames(fp).contains(n) ==> names.contains(n)
    &&& forall|k1: int, k2: int|
        0 <= k1 < k2 < names.len() ==> #[trigger] names[k1] != #[trigger] names[k2]
}

/// Does the file record `fid` carry every one of the given tag names?
pub open spec fn matches_all(s: StoreState, fid: int, names: Seq<Seq<char>>) -> bool {
    forall|n: Seq<char>| #[trigger] names.contains(n) ==> s.fid_tagnames(fid).contains(n)
}

/// An exact answer to the tag-intersection query: `ids` enumerates, in
/// strictly ascending order, exactly the file records that carry every one
/// of the given tag names, and `paths` holds their paths.  A name unknown
/// to the store makes the answer empty, never an error.
pub open spec fn and_query_listing(
    s: StoreState,
    names: Seq<Seq<char>>,
    ids: Seq<int>,
    paths: Seq<Seq<char>>,
) -> bool {
    &&& ids.len() == paths.len()
    &&& forall|k1: int, k2: int|
        0 <= k1 < k2 < ids.len() ==> #[trigger] ids[k1] < #[trigger] ids[k2]
    &&& forall|k: int|
        0 <= k < ids.len() ==> s.files.dom().contains(#[trigger] ids[k]) && s.files[ids[k]].0
            == paths[k] && matches_all(s, ids[k], names)
    &&& forall|fid: int|
        s.files.dom().contains(fid) && #[trigger] matches_all(s, fid, names) ==> ids.contains(fid)
}

/// Some ascending-id enumeration answers the tag-intersection query with
/// exactly these paths.
pub open spec fn some_and_query_listing(
    s: StoreState,
    names: Seq<Seq<char>>,
    paths: Seq<Seq<char>>,
) -> bool {
    exists|ids: Seq<int>| and_query_listing(s, names, ids, paths)
}

/// An exact listing of the file records: `ids` enumerates the record ids in
/// strictly ascending order, completely, and `paths` holds their paths.
pub open spec fn paths_listing(s: StoreState, ids: Seq<int>, paths: Seq<Seq<char>>) -> bool {
    &&& ids.len() == paths.len()
    &&& forall|k1: int, k2: int|
        0 <= k1 < k2 < ids.len() ==> #[trigger] ids[k1] < #[trigger] ids[k2]
    &&& forall|k: int|
        0 <= k < ids.len() ==> s.files.dom().contains(#[trigger] ids[k]) && s.files[ids[k]].0
            == paths[k]
    &&& forall|fid: int| #[trigger] s.files.dom().contains(fid) ==> ids.contains(fid)
}

/// Some ascending-id enumeration of the file records yields exactly these
/// paths.
pub open spec fn some_paths_listing(s: StoreState, paths: Seq<Seq<char>>) -> bool {
    exists|ids: Seq<int>| paths_listing(s, ids, paths)
}

/// Some ascending-id enumeration of the tags yields exactly these names.
pub open spec fn some_names_listing(s: StoreState, names: Seq<Seq<char>>) -> bool {
    exists|ids: Seq<int>| names_listing(s, ids, names)
}

/// An exact listing of the tags: `ids` enumerates the tag ids in strictly
/// ascending order, completely, and `names` holds their names.
pub open spec fn names_listing(s: StoreState, ids: Seq<int>, names: Seq<Seq<char>>) -> bool {
    &&& ids.len() == names.len()
    &&& forall|k1: int, k2: int|
        0 <= k1 < k2 < ids.len() ==> #[trigger] ids[k1] < #[trigger] ids[k2]
    &&& forall|k: int|
        0 <= k < ids.len() ==> s.tags.dom().contains(#[trigger] ids[k]) && s.tags[ids[k]]
            == names[k]
    &&& forall|tid: int| #[trigger] s.tags.dom().contains(tid) ==> ids.contains(tid)
}

/// Membership in a prefix one longer: the last element joins the prefix.
pub proof fn lemma_take_succ_contains(s: Seq<Seq<char>>, i: int, n: Seq<char>)
    requires
        0 <= i < s.len(),
    ensures
        s.take(i + 1).contains(n) <==> (s.take(i).contains(n) || n == s[i]),
{
    if s.take(i + 1).contains(n) {
        let j = choose|j: int| 0 <= j < s.take(i + 1).len() && #[trigger] s.take(i + 1)[j] == n;
        if j < i {
            assert(s.take(i)[j] == n);
        } else {
            assert(n == s[i]);
        }
    }
    if s.take(i).contains(n) {
        let j = choose|j: int| 0 <= j < s.take(i).len() && #[trigger] s.take(i)[j] == n;
        assert(s.take(i + 1)[j] == n);
    }
    if n == s[i] {
        assert(s.take(i + 1)[i] == n);
    }
}

/// In a snapshot with unique fingerprints, a record carrying `fp` is the
/// record `fid_of(fp)` picks.
pub proof fn lemma_fid_unique(s: StoreState, fid: int, fp: Seq<char>)
    requires
        s.consistent(),
        s.files.dom().contains(fid),
        s.files[fid].3 == fp,
    ensures
        s.has_fp(fp),
        s.fid_of(fp) == fid,
{
    assert(s.has_fp(fp));
}

/// In a snapshot with unique tag names, a tag carrying name `n` is the tag
/// `tid_of(n)` picks.
pub proof fn lemma_tid_unique(s: StoreState, tid: int, n: Seq<char>)
    requires
        s.consistent(),
        s.tags.dom().contains(tid),
        s.tags[tid] == n,
    ensures
        s.has_tag(n),
        s.tid_of(n) == tid,
{
    assert(s.has_tag(n));
}

/// How a tagging operation transforms the store: the file record carrying
/// `file`'s fingerprint is created from `file` when absent, each name in
/// `names` is created as a tag when absent, and the file becomes associated
/// with each of those tags; nothing else changes.  Re-tagging with a tag the
/// file already holds is absorbed without effect.
pub open spec fn tag_post(
    pre: StoreState,
    file: FileRow,
    names: Seq<Seq<char>>,
    post: StoreState,
) -> bool {
    &&& if pre.has_fp(file.3) {
        post.files == pre.files
    } else {
        exists|fid: int|
            !pre.files.dom().contains(fid) && post.files == #[trigger] pre.files.insert(fid, file)
    }
    &&& pre.tags.submap_of(post.tags)
    &&& forall|tid: int|
        post.tags.dom().contains(tid) && !pre.tags.dom().contains(tid) ==> names.contains(
            #[trigger] post.tags[tid],
        )
    &&& forall|n: Seq<char>| #[trigger] names.contains(n) ==> post.has_tag(n)
    &&& forall|l: (int, int)|
        #[trigger] post.links.contains(l) <==> pre.links.contains(l) || (post.files.dom().contains(
            l.0,
        ) && post.files[l.0].3 == file.3 && post.tags.dom().contains(l.1) && names.contains(
            post.tags[l.1],
        ))
    &&& post.tagnames() == pre.tagnames().union(set_of(names))
    &&& post.fps() == pre.fps().insert(file.3)
    &&& post.file_tagnames(file.3) == pre.file_tagnames(file.3).union(set_of(names))
    &&& forall|fp: Seq<char>|
        fp != file.3 ==> #[trigger] post.file_tagnames(fp) == pre.file_tagnames(fp)
    &&& forall|fp: Seq<char>| #[trigger] pre.has_fp(fp) ==> post.row_of(fp) == pre.row_of(fp)
    &&& !pre.has_fp(file.3) ==> post.row_of(file.3) == file
}

/// A handle on one SQLite database holding the store.
pub struct Database {
    pub(crate) connection: Connection,
}

#[verifier::external_type_specification]
#[verifier::external_body]
pub struct ExConnection(Connection);

/// The store's current contents as seen by this handle, including changes
/// staged inside an open transaction.
pub uninterp spec fn db_state(db: Database) -> StoreState;

/// The store's committed contents, durable on disk.
pub uninterp spec fn db_committed(db: Database) -> StoreState;

/// Does this handle have a transaction open?  Outside one, a mutating
/// statement would autocommit and change the durable contents at once, so
/// every mutating primitive demands an open transaction.
pub uninterp spec fn in_transaction(db: Database) -> bool;

impl Database {
    /// The store's current contents as seen by this handle.
    pub open spec fn state(self) -> StoreState {
        db_state(self)
    }

    /// The store's committed, durable contents.
    pub open spec fn committed(self) -> StoreState {
        db_committed(self)
    }

    /// A handle at rest: no transaction is open, and the contents are
    /// well-formed.
    pub open spec fn wf(self) -> bool {
        self.state().wf() && self.state() == self.committed() && !in_transaction(self)
    }

    /// Relies on `rusqlite::Connection::open`: opens the database file,
    /// creating it when absent.  A fresh database holds empty collections;
    /// an existing store file is only ever produced by this library's
    /// migrations and operations, which keep its contents well-formed, and a
    /// fresh connection has no open transaction.
    #[verifier::external_body]
    fn open_create(database_path: &str) -> (r: Result<Database, DatabaseError>)
        ensures
            r matches Ok(db) ==> db.wf(),
            r matches Err(e) ==> e is DatabaseInternal,
    {
        match Connection::open(database_path) {
            Ok(connection) => Ok(Database { connection }),
            Err(e) => Err(DatabaseError::DatabaseInternal(format!("{e}"))),
        }
    }

    /// Relies on `rusqlite::Connection::open_with_flags` without the CREATE
    /// flag: opens an existing database file for reading and writing and
    /// fails when it is absent, which SQLite reports as `SQLITE_CANTOPEN`
    /// and this wrapper returns as `StoreNotFound`.  The well-formedness
    /// assumption is as for `open_create`.
    #[verifier::external_body]
    fn open_existing(database_path: &str) -> (r: Result<Database, DatabaseError>)
        ensures
            r matches Ok(db) ==> db.wf(),
            r matches Err(e) ==> e is StoreNotFound || e is DatabaseInternal,
    {
        let flags = rusqlite::OpenFlags::SQLITE_OPEN_READ_WRITE
            | rusqlite::OpenFlags::SQLITE_OPEN_NO_MUTEX | rusqlite::OpenFlags::SQLITE_OPEN_URI;
        match Connection::open_with_flags(database_path, flags) {
            Ok(connection) => Ok(Database { connection }),
            Err(e) if e.sqlite_error_code() == Some(rusqlite::ErrorCode::CannotOpen) => {
                Err(DatabaseError::StoreNotFound)
            },
            Err(e) => Err(DatabaseError::DatabaseInternal(format!("{e}"))),
        }
    }

    /// Relies on `rusqlite::Connection::open_with_flags` with the READ_ONLY
    /// flag: opens an existing database file for reading only and fails
    /// when it is absent, which SQLite reports as `SQLITE_CANTOPEN` and
    /// this wrapper returns as `StoreNotFound`.  The well-formedness
    /// assumption is as for `open_create`.
    #[verifier::external_body]
    fn open_read_only(database_path: &str) -> (r: Result<Database, DatabaseError>)
        ensures
            r matches Ok(db) ==> db.wf(),
            r matches Err(e) ==> e is StoreNotFound || e is DatabaseInternal,
    {
        let flags = rusqlite::OpenFlags::SQLITE_OPEN_READ_ONLY
            | rusqlite::OpenFlags::SQLITE_OPEN_NO_MUTEX | rusqlite::OpenFlags::SQLITE_OPEN_URI;
        match Connection::open_with_flags(database_path, flags) {
            Ok(connection) => Ok(Database { connection }),
            Err(e) if e.sqlite_error_code() == Some(rusqlite::ErrorCode::CannotOpen) => {
                Err(DatabaseError::StoreNotFound)
            },
            Err(e) => Err(DatabaseError::DatabaseInternal(format!("{e}"))),
        }
    }

    /// Relies on `rusqlite_migration::Migrations::to_latest`: applies the
    /// ordered, idempotent schema migrations atomically, inside a
    /// transaction.  Creating the (empty) tables or re-applying an
    /// up-to-date schema leaves the modelled contents as they were, and a
    /// failed migration is rolled back.
    #[verifier::external_body]
    fn apply_migrations(&mut self) -> (r: Result<(), DatabaseError>)
        ensures
            db_state(*final(self)) == db_state(*old(self)),
            db_committed(*final(self)) == db_committed(*old(self)),
            in_transaction(*final(self)) == in_transaction(*old(self)),
            r matches Err(e) ==> e is DatabaseInternal,
    {
        let schema = "CREATE TABLE IF NOT EXISTS files (\
                id INTEGER PRIMARY KEY, path TEXT NOT NULL, name TEXT NOT NULL, \
                contents_hash TEXT NOT NULL, fingerprint_hash TEXT NOT NULL UNIQUE);\
            CREATE TABLE IF NOT EXISTS tags (\
                id INTEGER PRIMARY KEY, name TEXT NOT NULL UNIQUE);\
            CREATE TABLE IF NOT EXISTS file_tags (\
                file_id INTEGER NOT NULL REFERENCES files(id), \
                tag_id INTEGER NOT NULL REFERENCES tags(id), \
                UNIQUE(file_id, tag_id));";
        let migrations = rusqlite_migration::Migrations::new(Vec::from([
            rusqlite_migration::M::up(schema),
        ]));
        migrations.to_latest(&mut self.connection).map_err(
            |e| DatabaseError::DatabaseInternal(format!("{e}")),
        )
    }

    /// Relies on `rusqlite::Connection::execute_batch` running
    /// `PRAGMA journal_mode=WAL; PRAGMA foreign_keys=ON;`: enables
    /// write-ahead durability and foreign-key enforcement for this
    /// connection.  Pragmas change no table contents, whether they succeed
    /// or fail.
    #[verifier::external_body]
    fn configure_connection(&mut self) -> (r: Result<(), DatabaseError>)
        ensures
            db_state(*final(self)) == db_state(*old(self)),
            db_committed(*final(self)) == db_committed(*old(self)),
            in_transaction(*final(self)) == in_transaction(*old(self)),
            r matches Err(e) ==> e is DatabaseInternal,
    {
        self.connection.execute_batch("PRAGMA journal_mode=WAL; PRAGMA foreign_keys=ON;").map_err(
            |e| DatabaseError::DatabaseInternal(format!("{e}")),
        )
    }

    /// Relies on `rusqlite::Connection::execute_batch` running `BEGIN`:
    /// opens a transaction, changing no contents.  Fails when a transaction
    /// is already open, which changes nothing either.
    #[verifier::external_body]
    pub(crate) fn begin_transaction(&mut self) -> (r: Result<(), DatabaseError>)
        ensures
            db_state(*final(self)) == db_state(*old(self)),
            db_committed(*final(self)) == db_committed(*old(self)),
            r is Ok ==> in_transaction(*final(self)),
            r is Err ==> in_transaction(*final(self)) == in_transaction(*old(self)),
            r matches Err(e) ==> e is DatabaseInternal,
    {
        self.connection.execute_batch("BEGIN").map_err(
            |e| DatabaseError::DatabaseInternal(format!("{e}")),
        )
    }

    /// Relies on `rusqlite::Connection::execute_batch` running `COMMIT`:
    /// atomically makes the staged contents durable.  On failure the
    /// committed contents are untouched (the commit is all-or-nothing).
    #[verifier::external_body]
    pub(crate) fn commit_transaction(&mut self) -> (r: Result<(), DatabaseError>)
        ensures
            r is Ok ==> db_state(*final(self)) == db_state(*old(self)) && db_committed(*final(self))
                == db_state(*old(self)) && !in_transaction(*final(self)),
            r is Err ==> db_committed(*final(self)) == db_committed(*old(self)),
            r matches Err(e) ==> e is DatabaseInternal,
    {
        self.connection.execute_batch("COMMIT").map_err(
            |e| DatabaseError::DatabaseInternal(format!("{e}")),
        )
    }

    /// Relies on `rusqlite::Connection::execute_batch` running `ROLLBACK`:
    /// discards any staged contents, so the current contents equal the
    /// committed ones afterwards.  When no transaction is open (for
    /// instance because the storage engine already rolled it back on a
    /// failure) the statement fails, which is ignored: the contents already
    /// coincide then.
    #[verifier::external_body]
    pub(crate) fn rollback_transaction(&mut self)
        ensures
            db_state(*final(self)) == db_committed(*old(self)),
            db_committed(*final(self)) == db_committed(*old(self)),
            !in_transaction(*final(self)),
    {
        let _ = self.connection.execute_batch("ROLLBACK");
    }

    /// Opens the store at `database_path` in the given mode.
    ///
    /// `ReadWriteCreate` creates the backing file when absent and, like
    /// `ReadWrite`, applies the pending schema migrations and enables
    /// write-ahead durability and foreign-key enforcement; `Read` opens the
    /// file as it is, and both non-creating modes report an absent store
    /// file as `StoreNotFound`.  Any returned handle is at rest and
    /// well-formed.
    pub fn new(database_mode: &DatabaseMode, database_path: &str) -> (r: Result<
        Database,
        DatabaseError,
    >)
        ensures
            r matches Ok(db) ==> db.wf(),
            r matches Err(e) ==> match database_mode {
                DatabaseMode::ReadWriteCreate => e is DatabaseInternal,
                DatabaseMode::ReadWrite => e is StoreNotFound || e is DatabaseInternal,
                DatabaseMode::Read => e is StoreNotFound || e is DatabaseInternal,
            },
    {
        match database_mode {
            DatabaseMode::ReadWriteCreate => {
                let mut db = Self::open_create(database_path)?;
                db.apply_migrations()?;
                db.configure_connection()?;
                Ok(db)
            },
            DatabaseMode::ReadWrite => {
                let mut db = Self::open_existing(database_path)?;
                db.apply_migrations()?;
                db.configure_connection()?;
                Ok(db)
            },
            DatabaseMode::Read => Self::open_read_only(database_path),
        }
    }
}

} // verus!
