//! Primitives over the files collection, and the operations of the store
//! that mainly read or write it.
use vstd::prelude::*;

use crate::db::{in_transaction, db_committed, db_state, lemma_fid_unique, lemma_tid_unique, names_of, paths_listing, set_of, some_paths_listing, untag_post, Database, DatabaseError, File, StoreState};
use rusqlite::OptionalExtension;
use crate::db::tables::contains_id;
use crate::db::tables::file_tags::{get_file_tag_ids_by_id, unreference_file_tag};
use crate::db::tables::tags::get_tag_by_name;

verus! {

/// Relies on a SQL `INSERT ... RETURNING id` through
/// `rusqlite::Connection::query_one`: adds a file record with a fresh
/// surrogate id and returns that id.  A duplicate fingerprint violates the
/// schema's UNIQUE constraint and fails instead.  Nothing becomes durable
/// before a commit.
#[verifier::external_body]
pub fn create_file(db: &mut Database, file: &File) -> (r: Result<i64, DatabaseError>)
    requires
        in_transaction(*old(db)),
    ensures
        r is Ok ==> in_transaction(*final(db)),
        r matches Ok(id) ==> !db_state(*old(db)).files.dom().contains(id as int) && db_state(*final(db))
            == (StoreState {
            files: db_state(*old(db)).files.insert(id as int, file.row()),
            ..db_state(*old(db))
        }),
        db_committed(*final(db)) == db_committed(*old(db)),
        r is Err ==> db_state(*final(db)) == db_state(*old(db)) || db_state(*final(db))
            == db_committed(*old(db)),
        r matches Err(e) ==> e is DatabaseInternal,
{
    db.connection.query_one(
        "INSERT INTO files (path, name, contents_hash, fingerprint_hash) \
             VALUES (?1, ?2, ?3, ?4) RETURNING id",
        (&file.path, &file.name, &file.contents_hash, &file.fingerprint_hash),
        |row| row.get(0),
    ).map_err(|e| DatabaseError::DatabaseInternal(format!("{e}")))
}

/// Relies on a SQL `DELETE` through `rusqlite::Connection::execute`: removes
/// the file record with this id, if any.  Associations are not touched (the
/// operations only delete a file after clearing them; the schema's foreign
/// keys would refuse anything else).
#[verifier::external_body]
pub fn delete_file(db: &mut Database, id: i64) -> (r: Result<(), DatabaseError>)
    requires
        in_transaction(*old(db)),
    ensures
        r is Ok ==> in_transaction(*final(db)),
        r is Ok ==> db_state(*final(db)) == (StoreState {
            files: db_state(*old(db)).files.remove(id as int),
            ..db_state(*old(db))
        }),
        db_committed(*final(db)) == db_committed(*old(db)),
        r is Err ==> db_state(*final(db)) == db_state(*old(db)) || db_state(*final(db))
            == db_committed(*old(db)),
        r matches Err(e) ==> e is DatabaseInternal,
{
    match db.connection.execute("DELETE FROM files WHERE id = ?1", (id,)) {
        Ok(_) => Ok(()),
        Err(e) => Err(DatabaseError::DatabaseInternal(format!("{e}"))),
    }
}

/// Relies on a SQL `SELECT` through `rusqlite::Connection::query_one` and
/// `rusqlite::OptionalExtension::optional`: returns the id of the file
/// record carrying this fingerprint, or `None` when no record does.
#[verifier::external_body]
pub fn get_file_id(db: &Database, fingerprint_hash: &str) -> (r: Result<
    Option<i64>,
    DatabaseError,
>)
    ensures
        r matches Ok(Some(id)) ==> db_state(*db).files.dom().contains(id as int) && db_state(*db).files[
            id as int
        ].3 == fingerprint_hash@,
        r matches Ok(None) ==> !db_state(*db).has_fp(fingerprint_hash@),
        r matches Err(e) ==> e is DatabaseInternal,
{
    db.connection.query_one(
        "SELECT id FROM files WHERE fingerprint_hash = ?1",
        [&fingerprint_hash],
        |row| row.get(0),
    ).optional().map_err(|e| DatabaseError::DatabaseInternal(format!("{e}")))
}

/// Relies on a SQL `SELECT ... ORDER BY id` through
/// `rusqlite::Statement::query_map`: returns every file record's id and
/// path, in ascending id order, one pair per record.
#[verifier::external_body]
pub(crate) fn get_all_file_rows(db: &Database) -> (r: Result<Vec<(i64, String)>, DatabaseError>)
    ensures
        r matches Ok(v) ==> {
            &&& forall|k1: int, k2: int|
                0 <= k1 < k2 < v@.len() ==> #[trigger] v@[k1].0 < #[trigger] v@[k2].0
            &&& forall|k: int|
                0 <= k < v@.len() ==> db_state(*db).files.dom().contains(#[trigger] v@[k].0 as int)
                    && db_state(*db).files[v@[k].0 as int].0 == v@[k].1@
            &&& forall|fid: int| #[trigger]
                db_state(*db).files.dom().contains(fid) ==> exists|k: int|
                    0 <= k < v@.len() && #[trigger] v@[k].0 as int == fid
        },
        r matches Err(e) ==> e is DatabaseInternal,
{
    let mut statement = match db.connection.prepare("SELECT id, path FROM files ORDER BY id") {
        Ok(s) => s,
        Err(e) => return Err(DatabaseError::DatabaseInternal(format!("{e}"))),
    };
    statement.query_map([], |row| Ok((row.get(0)?, row.get(1)?)))
        .and_then(|rows| rows.collect::<Result<Vec<(i64, String)>, _>>())
        .map_err(|e| DatabaseError::DatabaseInternal(format!("{e}")))
}

impl Database {
    /// Removes the given tags from the file, inside one transaction.  The
    /// whole request is validated first: the operation fails with
    /// `NoSuchFile` when no record carries the file's fingerprint, with
    /// `NoSuchTag` when a name is unknown to the store at all, and with
    /// `NoSuchTagOnFile` when the tag exists but is not on this file; the
    /// first failure aborts everything, so an untag is all-or-nothing.  On
    /// success every requested association is removed, and the file record
    /// itself disappears when its tag set becomes empty.  Tags themselves
    /// are never deleted here.
    pub fn untag_file(&mut self, file: &File, tag_names: &Vec<String>) -> (r: Result<
        (),
        DatabaseError,
    >)
        requires
            old(self).wf(),
        ensures
            final(self).wf(),
            r is Ok ==> untag_post(
                old(self).state(),
                file.fingerprint_hash@,
                names_of(tag_names@),
                final(self).state(),
            ),
            r is Err ==> final(self).state() == old(self).state(),
            r matches Err(e) ==> match e {
                DatabaseError::StoreNotFound => false,
                DatabaseError::NoSuchFile => !old(self).state().has_fp(file.fingerprint_hash@),
                DatabaseError::NoSuchTag(n) => old(self).state().has_fp(file.fingerprint_hash@)
                    && names_of(tag_names@).contains(n@) && !old(self).state().has_tag(n@),
                DatabaseError::NoSuchTagOnFile(n) => old(self).state().has_fp(
                    file.fingerprint_hash@,
                ) && names_of(tag_names@).contains(n@) && old(self).state().has_tag(n@) && !old(
                    self,
                ).state().file_tagnames(file.fingerprint_hash@).contains(n@),
                DatabaseError::DatabaseInternal(_) => true,
            },
    {
        let ghost s0 = self.state();
        let ghost ns = names_of(tag_names@);
        let ghost fp = file.fingerprint_hash@;
        match self.begin_transaction() {
            Ok(()) => {},
            Err(e) => {
                self.rollback_transaction();
                return Err(e);
            },
        }
        let found = match get_file_id(self, file.fingerprint_hash.as_str()) {
            Ok(o) => o,
            Err(e) => {
                self.rollback_transaction();
                return Err(e);
            },
        };
        let file_id: i64 = match found {
            Some(id) => id,
            None => {
                self.rollback_transaction();
                return Err(DatabaseError::NoSuchFile);
            },
        };
        let ghost fid = file_id as int;
        let linked = match get_file_tag_ids_by_id(self, file_id) {
            Ok(v) => v,
            Err(e) => {
                self.rollback_transaction();
                return Err(e);
            },
        };
        let mut tag_ids: Vec<i64> = Vec::new();
        let mut i: usize = 0;
        while i < tag_names.len()
            invariant
                0 <= i <= tag_names@.len(),
                ns == names_of(tag_names@),
                ns.len() == tag_names@.len(),
                s0 == old(self).state(),
                s0.wf(),
                fid == file_id as int,
                self.state() == s0,
                self.committed() == s0,
                in_transaction(*self),
                s0.files.dom().contains(fid),
                s0.files[fid].3 == fp,
                fp == file.fingerprint_hash@,
                forall|k: int|
                    0 <= k < linked@.len() ==> s0.links.contains(
                        (fid, #[trigger] linked@[k] as int),
                    ),
                forall|t: int| #[trigger]
                    s0.links.contains((fid, t)) ==> exists|k: int|
                        0 <= k < linked@.len() && #[trigger] linked@[k] as int == t,
                tag_ids@.len() == i as int,
                forall|k: int|
                    0 <= k < i ==> s0.tags.dom().contains(#[trigger] tag_ids@[k] as int)
                        && s0.tags[tag_ids@[k] as int] == ns[k] && s0.links.contains(
                        (fid, tag_ids@[k] as int),
                    ),
            decreases tag_names@.len() - i,
        {
            let name = &tag_names[i];
            proof {
                assert(ns[i as int] == name@);
            }
            let tag = match get_tag_by_name(self, name.as_str()) {
                Ok(Some(t)) => t,
                Ok(None) => {
                    proof {
                        assert(ns.contains(ns[i as int]));
                        assert(s0.has_fp(fp));
                    }
                    self.rollback_transaction();
                    return Err(DatabaseError::NoSuchTag(name.clone()));
                },
                Err(e) => {
                    self.rollback_transaction();
                    return Err(e);
                },
            };
            if !contains_id(&linked, tag.id) {
                proof {
                    assert(ns.contains(ns[i as int]));
                    assert(s0.has_tag(name@));
                    lemma_tid_unique(s0, tag.id as int, name@);
                    if s0.links.contains((fid, tag.id as int)) {
                        let k = choose|k: int|
                            0 <= k < linked@.len() && #[trigger] linked@[k] as int
                                == tag.id as int;
                        assert(linked@[k] == tag.id);
                        assert(linked@.contains(tag.id));
                        assert(false);
                    }
                    lemma_fid_unique(s0, fid, fp);
                    assert(s0.has_fp(fp));
                    if s0.file_tagnames(fp).contains(name@) {
                        let t2 = choose|t2: int|
                            #[trigger] s0.links.contains((fid, t2)) && s0.tags.dom().contains(t2)
                                && s0.tags[t2] == name@;
                        assert(t2 == tag.id as int);
                        assert(false);
                    }
                }
                self.rollback_transaction();
                return Err(DatabaseError::NoSuchTagOnFile(tag.name));
            }
            proof {
                let k = choose|k: int| 0 <= k < linked@.len() && linked@[k] == tag.id;
                assert(s0.links.contains((fid, linked@[k] as int)));
                assert(s0.links.contains((fid, tag.id as int)));
            }
            tag_ids.push(tag.id);
            i += 1;
        }
        let ghost tids = tag_ids@.map_values(|x: i64| x as int);
        let mut j: usize = 0;
        while j < tag_ids.len()
            invariant
                0 <= j <= tag_ids@.len(),
                ns == names_of(tag_names@),
                ns.len() == tag_names@.len(),
                s0 == old(self).state(),
                s0.wf(),
                fid == file_id as int,
                fp == file.fingerprint_hash@,
                self.committed() == s0,
                in_transaction(*self),
                self.state().files == s0.files,
                self.state().tags == s0.tags,
                tids == tag_ids@.map_values(|x: i64| x as int),
                tids.len() == ns.len(),
                forall|k: int|
                    0 <= k < tids.len() ==> s0.tags.dom().contains(#[trigger] tids[k])
                        && s0.tags[tids[k]] == ns[k] && s0.links.contains((fid, tids[k])),
                s0.files.dom().contains(fid),
                s0.files[fid].3 == fp,
                forall|l: (int, int)|
                    #[trigger] self.state().links.contains(l) <==> s0.links.contains(l) && !(l.0
                        == fid && exists|k: int| 0 <= k < j && #[trigger] tids[k] == l.1),
            decreases tag_ids@.len() - j,
        {
            proof {
                assert(tids[j as int] == tag_ids@[j as int] as int);
            }
            match unreference_file_tag(self, file_id, tag_ids[j]) {
                Ok(()) => {},
                Err(e) => {
                    self.rollback_transaction();
                    return Err(e);
                },
            }
            proof {
                let prev = j as int;
                assert forall|l: (int, int)|
                    #[trigger] self.state().links.contains(l) <==> s0.links.contains(l) && !(l.0
                        == fid && exists|k: int| 0 <= k < prev + 1 && #[trigger] tids[k]
                        == l.1) by {
                    if l == (fid, tids[prev]) {
                        assert(tids[prev] == tids[prev]);
                        assert(exists|k: int| 0 <= k < prev + 1 && #[trigger] tids[k] == l.1);
                    }
                }
            }
            j += 1;
        }
        let remaining = match get_file_tag_ids_by_id(self, file_id) {
            Ok(v) => v,
            Err(e) => {
                self.rollback_transaction();
                return Err(e);
            },
        };
        let ghost mid = self.state();
        let deleted: bool;
        if remaining.len() == 0 {
            proof {
                assert forall|t: int| !(#[trigger] mid.links.contains((fid, t))) by {
                    if mid.links.contains((fid, t)) {
                        let k = choose|k: int|
                            0 <= k < remaining@.len() && #[trigger] remaining@[k] as int == t;
                        assert(false);
                    }
                }
            }
            match delete_file(self, file_id) {
                Ok(()) => {},
                Err(e) => {
                    self.rollback_transaction();
                    return Err(e);
                },
            }
            deleted = true;
        } else {
            proof {
                assert(mid.links.contains((fid, remaining@[0] as int)));
            }
            deleted = false;
        }
        match self.commit_transaction() {
            Ok(()) => {},
            Err(e) => {
                self.rollback_transaction();
                return Err(e);
            },
        }
        proof {
            lemma_untag_file_post(s0, fp, ns, tids, mid, self.state(), deleted, fid);
        }
        Ok(())
    }
}

/// The raw loop facts established by `untag_file` imply the full transition
/// relation `untag_post`, including its observer-level clauses, and
/// well-formedness of the final state.
proof fn lemma_untag_file_post(
    s0: StoreState,
    fp: Seq<char>,
    ns: Seq<Seq<char>>,
    tids: Seq<int>,
    mid: StoreState,
    post: StoreState,
    deleted: bool,
    fid: int,
)
    requires
        s0.wf(),
        s0.files.dom().contains(fid),
        s0.files[fid].3 == fp,
        tids.len() == ns.len(),
        forall|k: int|
            0 <= k < tids.len() ==> s0.tags.dom().contains(#[trigger] tids[k]) && s0.tags[tids[k]]
                == ns[k] && s0.links.contains((fid, tids[k])),
        mid.files == s0.files,
        mid.tags == s0.tags,
        forall|l: (int, int)|
            #[trigger] mid.links.contains(l) <==> s0.links.contains(l) && !(l.0 == fid && exists|
                k: int,
            | 0 <= k < tids.len() && #[trigger] tids[k] == l.1),
        deleted ==> (forall|t: int| !(#[trigger] mid.links.contains((fid, t)))) && post.files
            == mid.files.remove(fid) && post.tags == mid.tags && post.links == mid.links,
        !deleted ==> (exists|t: int| #[trigger] mid.links.contains((fid, t))) && post == mid,
    ensures
        post.wf(),
        untag_post(s0, fp, ns, post),
{
    lemma_fid_unique(s0, fid, fp);
    // the final snapshot is consistent: its collections shrink from `s0`'s
    assert forall|l: (int, int)| #[trigger] post.links.contains(l) implies s0.links.contains(
        l,
    ) by {
        assert(mid.links.contains(l));
    }
    assert(post.consistent()) by {
        assert(post.links.subset_of(s0.links));
        vstd::set_lib::lemma_set_subset_finite(s0.links, post.links);
        if deleted {
            assert(post.files.dom() =~= s0.files.dom().remove(fid));
        }
        assert forall|l: (int, int)| #[trigger] post.links.contains(l) implies
            post.files.dom().contains(l.0) && post.tags.dom().contains(l.1) by {
            assert(mid.links.contains(l));
            assert(s0.links.contains(l));
            if deleted && l.0 == fid {
                assert(!mid.links.contains((fid, l.1)));
            }
        }
        assert forall|f1: int, f2: int|
            post.files.dom().contains(f1) && post.files.dom().contains(f2)
                && #[trigger] post.files[f1].3 == #[trigger] post.files[f2].3 implies f1 == f2 by {
            assert(s0.files.dom().contains(f1) && s0.files.dom().contains(f2));
            assert(s0.files[f1] == post.files[f1] && s0.files[f2] == post.files[f2]);
        }
    }
    // a requested name is on the file
    assert forall|n: Seq<char>| #[trigger] ns.contains(n) implies s0.file_tagnames(fp).contains(
        n,
    ) by {
        let k = choose|k: int| 0 <= k < ns.len() && ns[k] == n;
        assert(s0.links.contains((fid, tids[k])) && s0.tags.dom().contains(tids[k])
            && s0.tags[tids[k]] == n);
        assert(s0.fid_tagnames(fid).contains(n));
    }
    // the association relation, restated over names
    assert forall|l: (int, int)|
        #[trigger] post.links.contains(l) <==> s0.links.contains(l) && !(l.0 == fid
            && s0.tags.dom().contains(l.1) && ns.contains(s0.tags[l.1])) by {
        if post.links.contains(l) {
            assert(mid.links.contains(l));
            if l.0 == fid && s0.tags.dom().contains(l.1) && ns.contains(s0.tags[l.1]) {
                let k = choose|k: int| 0 <= k < ns.len() && ns[k] == s0.tags[l.1];
                assert(s0.tags[tids[k]] == s0.tags[l.1]);
                assert(tids[k] == l.1);
                assert(false);
            }
        }
        if s0.links.contains(l) && !(l.0 == fid && s0.tags.dom().contains(l.1) && ns.contains(
            s0.tags[l.1],
        )) {
            if l.0 == fid {
                if exists|k: int| 0 <= k < tids.len() && #[trigger] tids[k] == l.1 {
                    let k = choose|k: int| 0 <= k < tids.len() && #[trigger] tids[k] == l.1;
                    assert(s0.tags.dom().contains(l.1) && s0.tags[l.1] == ns[k]);
                    assert(ns.contains(ns[k]));
                    assert(false);
                }
            }
            assert(mid.links.contains(l));
            assert(post.links.contains(l));
        }
    }
    // the file's tag set shrinks to the difference
    assert(s0.has_fp(fp));
    // whether the file was emptied is exactly the subset condition
    if deleted {
        assert(s0.file_tagnames(fp).subset_of(set_of(ns))) by {
            assert forall|n: Seq<char>| #[trigger] s0.fid_tagnames(fid).contains(n) implies
                set_of(ns).contains(n) by {
                let t = choose|t: int|
                    #[trigger] s0.links.contains((fid, t)) && s0.tags.dom().contains(t)
                        && s0.tags[t] == n;
                assert(!mid.links.contains((fid, t)));
                let k = choose|k: int| 0 <= k < tids.len() && #[trigger] tids[k] == t;
                assert(n == ns[k]);
                assert(ns.contains(ns[k]));
            }
        }
    } else {
        assert(!s0.file_tagnames(fp).subset_of(set_of(ns))) by {
            let t = choose|t: int| #[trigger] mid.links.contains((fid, t));
            assert(s0.links.contains((fid, t)));
            assert(s0.tags.dom().contains(t));
            let nt = s0.tags[t];
            assert(s0.fid_tagnames(fid).contains(nt));
            if ns.contains(nt) {
                let k = choose|k: int| 0 <= k < ns.len() && ns[k] == nt;
                assert(s0.tags[tids[k]] == nt);
                assert(tids[k] == t);
                assert(!mid.links.contains((fid, t)));
                assert(false);
            }
        }
    }
    // tag names are untouched
    assert(post.tagnames() =~= s0.tagnames()) by {
        assert forall|n: Seq<char>| post.has_tag(n) <==> s0.has_tag(n) by {
            if post.has_tag(n) {
                let t = choose|t: int| #[trigger] post.tags.dom().contains(t) && post.tags[t]
                    == n;
                assert(s0.tags.dom().contains(t) && s0.tags[t] == n);
            }
            if s0.has_tag(n) {
                let t = choose|t: int| #[trigger] s0.tags.dom().contains(t) && s0.tags[t] == n;
                assert(post.tags.dom().contains(t) && post.tags[t] == n);
            }
        }
    }
    // fingerprints
    assert(post.fps() =~= (if s0.file_tagnames(fp).subset_of(set_of(ns)) {
        s0.fps().remove(fp)
    } else {
        s0.fps()
    })) by {
        assert forall|fp2: Seq<char>|
            #[trigger] post.has_fp(fp2) <==> s0.has_fp(fp2) && !(deleted && fp2 == fp) by {
            if post.has_fp(fp2) {
                let w = choose|w: int| #[trigger] post.files.dom().contains(w) && post.files[w].3
                    == fp2;
                assert(s0.files.dom().contains(w) && s0.files[w].3 == fp2);
                if deleted && fp2 == fp {
                    assert(w == fid);
                    assert(!post.files.dom().contains(w));
                    assert(false);
                }
            }
            if s0.has_fp(fp2) && !(deleted && fp2 == fp) {
                let w = choose|w: int| #[trigger] s0.files.dom().contains(w) && s0.files[w].3
                    == fp2;
                if deleted {
                    assert(w != fid);
                    assert(post.files.dom().contains(w) && post.files[w].3 == fp2);
                } else {
                    assert(post.files.dom().contains(w) && post.files[w].3 == fp2);
                }
                assert(post.has_fp(fp2));
            }
        }
    }
    // the tagged file's names shrink to the difference
    if !deleted {
        lemma_fid_unique(post, fid, fp);
        assert(post.file_tagnames(fp) =~= s0.file_tagnames(fp).difference(set_of(ns))) by {
            assert forall|n: Seq<char>|
                #[trigger] post.fid_tagnames(fid).contains(n) <==> s0.fid_tagnames(fid).contains(
                    n,
                ) && !set_of(ns).contains(n) by {
                if post.fid_tagnames(fid).contains(n) {
                    let t = choose|t: int|
                        #[trigger] post.links.contains((fid, t)) && post.tags.dom().contains(t)
                            && post.tags[t] == n;
                    assert(s0.links.contains((fid, t)) && s0.tags.dom().contains(t) && s0.tags[t]
                        == n);
                    assert(!ns.contains(n));
                }
                if s0.fid_tagnames(fid).contains(n) && !set_of(ns).contains(n) {
                    let t = choose|t: int|
                        #[trigger] s0.links.contains((fid, t)) && s0.tags.dom().contains(t)
                            && s0.tags[t] == n;
                    assert(post.links.contains((fid, t)));
                    assert(post.fid_tagnames(fid).contains(n));
                }
            }
        }
    } else {
        assert(!post.has_fp(fp)) by {
            if post.has_fp(fp) {
                let w = choose|w: int| #[trigger] post.files.dom().contains(w) && post.files[w].3
                    == fp;
                assert(s0.files.dom().contains(w) && s0.files[w].3 == fp);
                assert(w == fid);
                assert(false);
            }
        }
        assert(post.file_tagnames(fp) =~= s0.file_tagnames(fp).difference(set_of(ns))) by {
            assert forall|n: Seq<char>| #[trigger] s0.fid_tagnames(fid).contains(n) implies
                set_of(ns).contains(n) by {
                assert(s0.file_tagnames(fp).subset_of(set_of(ns)));
                assert(s0.file_tagnames(fp).contains(n));
            }
        }
    }
    // every other file's names are untouched
    assert forall|fp2: Seq<char>| fp2 != fp implies #[trigger] post.file_tagnames(fp2)
        == s0.file_tagnames(fp2) by {
        if s0.has_fp(fp2) {
            let w = s0.fid_of(fp2);
            lemma_fid_unique(s0, w, fp2);
            assert(w != fid);
            assert(post.files.dom().contains(w) && post.files[w].3 == fp2);
            lemma_fid_unique(post, w, fp2);
            assert(post.file_tagnames(fp2) =~= s0.file_tagnames(fp2)) by {
                assert forall|n: Seq<char>|
                    #[trigger] post.fid_tagnames(w).contains(n) <==> s0.fid_tagnames(w).contains(
                        n,
                    ) by {
                    if post.fid_tagnames(w).contains(n) {
                        let t = choose|t: int|
                            #[trigger] post.links.contains((w, t)) && post.tags.dom().contains(t)
                                && post.tags[t] == n;
                        assert(s0.links.contains((w, t)) && s0.tags.dom().contains(t)
                            && s0.tags[t] == n);
                    }
                    if s0.fid_tagnames(w).contains(n) {
                        let t = choose|t: int|
                            #[trigger] s0.links.contains((w, t)) && s0.tags.dom().contains(t)
                                && s0.tags[t] == n;
                        assert(post.links.contains((w, t)));
                    }
                }
            }
        } else {
            assert(!post.has_fp(fp2)) by {
                if post.has_fp(fp2) {
                    let w = choose|w: int| #[trigger] post.files.dom().contains(w)
                        && post.files[w].3 == fp2;
                    assert(s0.files.dom().contains(w) && s0.files[w].3 == fp2);
                }
            }
        }
    }
    // surviving records are unchanged
    assert forall|fp2: Seq<char>| #[trigger] post.has_fp(fp2) implies s0.has_fp(fp2)
        && post.row_of(fp2) == s0.row_of(fp2) by {
        let w = choose|w: int| #[trigger] post.files.dom().contains(w) && post.files[w].3 == fp2;
        assert(s0.files.dom().contains(w) && s0.files[w].3 == fp2);
        lemma_fid_unique(post, w, fp2);
        lemma_fid_unique(s0, w, fp2);
    }
    // coverage of the final state
    assert forall|f2: int| #[trigger] post.files.dom().contains(f2) implies exists|t: int|
        #[trigger] post.links.contains((f2, t)) by {
        if f2 == fid {
            let t = choose|t: int| #[trigger] mid.links.contains((fid, t));
            assert(post.links.contains((f2, t)));
        } else {
            let t0 = choose|t0: int| #[trigger] s0.links.contains((f2, t0));
            assert(post.links.contains((f2, t0)));
        }
    }
}

impl Database {
    /// Lists the paths of every file record, in ascending record order.
    pub fn get_files(&self) -> (r: Result<Vec<String>, DatabaseError>)
        ensures
            r matches Ok(v) ==> some_paths_listing(self.state(), names_of(v@)),
            r matches Err(e) ==> e is DatabaseInternal,
    {
        let rows = get_all_file_rows(self)?;
        let mut out: Vec<String> = Vec::new();
        let mut i: usize = 0;
        while i < rows.len()
            invariant
                0 <= i <= rows@.len(),
                out@.len() == i as int,
                forall|k: int| 0 <= k < i ==> #[trigger] out@[k]@ == rows@[k].1@,
            decreases rows@.len() - i,
        {
            let p = rows[i].1.clone();
            proof {
                assert(p@ == rows@[i as int].1@);
            }
            out.push(p);
            i += 1;
        }
        proof {
            let ids = rows@.map_values(|row: (i64, String)| row.0 as int);
            let paths = names_of(out@);
            assert forall|k: int| 0 <= k < ids.len() implies self.state().files.dom().contains(
                #[trigger] ids[k],
            ) && self.state().files[ids[k]].0 == paths[k] by {
                assert(self.state().files.dom().contains(rows@[k].0 as int));
            }
            assert forall|fid: int| #[trigger]
                self.state().files.dom().contains(fid) implies ids.contains(fid) by {
                let k = choose|k: int|
                    0 <= k < rows@.len() && #[trigger] rows@[k].0 as int == fid;
                assert(ids[k] == fid);
            }
            assert(paths_listing(self.state(), ids, paths));
            assert(some_paths_listing(self.state(), names_of(out@)));
        }
        Ok(out)
    }
}

} // verus!
