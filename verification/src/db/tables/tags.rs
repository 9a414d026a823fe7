//! Primitives over the tags collection, and the operations of the store
//! that mainly read or write it.
use vstd::prelude::*;

use crate::db::{in_transaction, db_committed, db_state, has_link, lemma_fid_unique, lemma_take_succ_contains, names_listing, names_of, remove_tags_post, set_of, some_names_listing, tag_post, Database, DatabaseError, File, FileRow, StoreState};
use rusqlite::OptionalExtension;
use crate::db::tables::contains_id;
use crate::db::tables::file_tags::{delete_links_of_tag, get_file_tag_ids_by_id, reference_file_tag};
use crate::db::tables::files::get_all_file_rows;
use crate::db::tables::files::{create_file, delete_file, get_file_id};

verus! {

/// A tag record: its surrogate id and its name.
#[derive(Debug, Clone)]
pub struct Tag {
    pub id: i64,
    pub name: String,
}

/// Relies on a SQL `INSERT ... RETURNING id` through
/// `rusqlite::Connection::query_one`: adds a tag with a fresh surrogate id
/// and returns that id.  A duplicate name violates the schema's UNIQUE
/// constraint and fails instead.  Nothing becomes durable before a commit;
/// a failed statement leaves the staged contents unchanged unless the
/// engine answered it by rolling the whole transaction back.
#[verifier::external_body]
pub(crate) fn create_tag(db: &mut Database, name: &str) -> (r: Result<i64, DatabaseError>)
    requires
        in_transaction(*old(db)),
    ensures
        r is Ok ==> in_transaction(*final(db)),
        r matches Ok(id) ==> !db_state(*old(db)).tags.dom().contains(id as int) && db_state(*final(db))
            == (StoreState {
            tags: db_state(*old(db)).tags.insert(id as int, name@),
            ..db_state(*old(db))
        }),
        db_committed(*final(db)) == db_committed(*old(db)),
        r is Err ==> db_state(*final(db)) == db_state(*old(db)) || db_state(*final(db))
            == db_committed(*old(db)),
        r matches Err(e) ==> e is DatabaseInternal,
{
    db.connection.query_one(
        "INSERT INTO tags (name) VALUES (?1) RETURNING id",
        [&name],
        |row| row.get(0),
    ).map_err(|e| DatabaseError::DatabaseInternal(format!("{e}")))
}

/// Relies on a SQL `DELETE` through `rusqlite::Connection::execute`: removes
/// the tag with this id, if any.  Associations are not touched (the
/// operations only delete a tag after clearing them; the schema's foreign
/// keys would refuse anything else).
#[verifier::external_body]
pub(crate) fn delete_tag(db: &mut Database, id: i64) -> (r: Result<(), DatabaseError>)
    requires
        in_transaction(*old(db)),
    ensures
        r is Ok ==> in_transaction(*final(db)),
        r is Ok ==> db_state(*final(db)) == (StoreState {
            tags: db_state(*old(db)).tags.remove(id as int),
            ..db_state(*old(db))
        }),
        db_committed(*final(db)) == db_committed(*old(db)),
        r is Err ==> db_state(*final(db)) == db_state(*old(db)) || db_state(*final(db))
            == db_committed(*old(db)),
        r matches Err(e) ==> e is DatabaseInternal,
{
    match db.connection.execute("DELETE FROM tags WHERE id = ?1", (id,)) {
        Ok(_) => Ok(()),
        Err(e) => Err(DatabaseError::DatabaseInternal(format!("{e}"))),
    }
}

/// Relies on a SQL `SELECT` through `rusqlite::Connection::query_one` and
/// `rusqlite::OptionalExtension::optional`: returns the id and name of the
/// tag with this name, or `None` when the store has no such tag.
#[verifier::external_body]
pub fn get_tag_by_name(db: &Database, name: &str) -> (r: Result<Option<Tag>, DatabaseError>)
    ensures
        r matches Ok(Some(t)) ==> db_state(*db).tags.dom().contains(t.id as int) && db_state(*db).tags[
            t.id as int
        ] == name@ && t.name@ == name@,
        r matches Ok(None) ==> !db_state(*db).has_tag(name@),
        r matches Err(e) ==> e is DatabaseInternal,
{
    db.connection.query_one(
        "SELECT id, name FROM tags WHERE name = ?1",
        [&name],
        |row| Ok(Tag { id: row.get(0)?, name: row.get(1)? }),
    ).optional().map_err(|e| DatabaseError::DatabaseInternal(format!("{e}")))
}

/// Relies on a SQL `SELECT` through `rusqlite::Connection::query_one` and
/// `rusqlite::OptionalExtension::optional`: returns the name of the tag with
/// this id, or `None` when the store has no such tag.
#[verifier::external_body]
pub(crate) fn get_tag_name_by_id(db: &Database, id: i64) -> (r: Result<Option<String>, DatabaseError>)
    ensures
        r matches Ok(Some(n)) ==> db_state(*db).tags.dom().contains(id as int) && db_state(*db).tags[
            id as int
        ] == n@,
        r matches Ok(None) ==> !db_state(*db).tags.dom().contains(id as int),
        r matches Err(e) ==> e is DatabaseInternal,
{
    db.connection.query_one("SELECT name FROM tags WHERE id = ?1", [&id], |row| row.get(0))
        .optional().map_err(|e| DatabaseError::DatabaseInternal(format!("{e}")))
}

/// Relies on a SQL `SELECT ... ORDER BY id` through
/// `rusqlite::Statement::query_map`: returns every tag's id and name, in
/// ascending id order, one pair per tag.
#[verifier::external_body]
pub(crate) fn get_all_tag_rows(db: &Database) -> (r: Result<Vec<(i64, String)>, DatabaseError>)
    ensures
        r matches Ok(v) ==> {
            &&& forall|k1: int, k2: int|
                0 <= k1 < k2 < v@.len() ==> #[trigger] v@[k1].0 < #[trigger] v@[k2].0
            &&& forall|k: int|
                0 <= k < v@.len() ==> db_state(*db).tags.dom().contains(#[trigger] v@[k].0 as int)
                    && db_state(*db).tags[v@[k].0 as int] == v@[k].1@
            &&& forall|tid: int| #[trigger]
                db_state(*db).tags.dom().contains(tid) ==> exists|k: int|
                    0 <= k < v@.len() && #[trigger] v@[k].0 as int == tid
        },
        r matches Err(e) ==> e is DatabaseInternal,
{
    let mut statement = match db.connection.prepare("SELECT id, name FROM tags ORDER BY id") {
        Ok(s) => s,
        Err(e) => return Err(DatabaseError::DatabaseInternal(format!("{e}"))),
    };
    statement.query_map([], |row| Ok((row.get(0)?, row.get(1)?)))
        .and_then(|rows| rows.collect::<Result<Vec<(i64, String)>, _>>())
        .map_err(|e| DatabaseError::DatabaseInternal(format!("{e}")))
}

impl Database {
    /// Tags the file with each of the given names, inside one transaction:
    /// the file record is created when its fingerprint is new, each missing
    /// tag is created, and each association is added unless already present
    /// (re-tagging with a held tag is a no-op, not an error).  On any
    /// failure the transaction is rolled back and the store is left as it
    /// was.
    pub fn tag_file(&mut self, file: &File, tag_names: &Vec<String>) -> (r: Result<
        (),
        DatabaseError,
    >)
        requires
            old(self).wf(),
            tag_names@.len() > 0,
        ensures
            final(self).wf(),
            r is Ok ==> tag_post(
                old(self).state(),
                file.row(),
                names_of(tag_names@),
                final(self).state(),
            ),
            r is Err ==> final(self).state() == old(self).state(),
            r matches Err(e) ==> e is DatabaseInternal,
    {
        let ghost s0 = self.state();
        let ghost ns = names_of(tag_names@);
        match self.begin_transaction() {
            Ok(()) => {},
            Err(e) => {
                self.rollback_transaction();
                return Err(e);
            },
        }
        let found = match get_file_id(self, file.fingerprint_hash.as_str()) {
            Ok(o) => o,
            Err(e) => {
                self.rollback_transaction();
                return Err(e);
            },
        };
        let file_id: i64 = match found {
            Some(id) => id,
            None => match create_file(self, file) {
                Ok(id) => id,
                Err(e) => {
                    self.rollback_transaction();
                    return Err(e);
                },
            },
        };
        let ghost fid = file_id as int;
        let ghost base_files = self.state().files;
        proof {
            assert(self.state().files.dom().contains(fid));
            assert(self.state().files[fid].3 == file.fingerprint_hash@);
            assert(if s0.has_fp(file.row().3) {
                base_files == s0.files
            } else {
                exists|fr: int|
                    !s0.files.dom().contains(fr) && base_files == #[trigger] s0.files.insert(
                        fr,
                        file.row(),
                    )
            });
            assert(self.state().consistent());
        }
        let mut i: usize = 0;
        while i < tag_names.len()
            invariant
                0 <= i <= tag_names@.len(),
                ns == names_of(tag_names@),
                s0 == old(self).state(),
                ns.len() == tag_names@.len(),
                fid == file_id as int,
                s0.wf(),
                self.committed() == s0,
                in_transaction(*self),
                self.state().consistent(),
                self.state().files == base_files,
                base_files.dom().contains(fid),
                base_files[fid].3 == file.fingerprint_hash@,
                if s0.has_fp(file.row().3) {
                    base_files == s0.files
                } else {
                    exists|fr: int|
                        !s0.files.dom().contains(fr) && base_files == #[trigger] s0.files.insert(
                            fr,
                            file.row(),
                        )
                },
                s0.tags.submap_of(self.state().tags),
                forall|tid: int|
                    self.state().tags.dom().contains(tid) && !s0.tags.dom().contains(tid)
                        ==> ns.take(i as int).contains(#[trigger] self.state().tags[tid]),
                forall|n: Seq<char>| #[trigger]
                    ns.take(i as int).contains(n) ==> self.state().has_tag(n),
                forall|l: (int, int)|
                    #[trigger] self.state().links.contains(l) <==> s0.links.contains(l) || (l.0
                        == fid && self.state().tags.dom().contains(l.1) && ns.take(
                        i as int,
                    ).contains(self.state().tags[l.1])),
            decreases tag_names@.len() - i,
        {
            let ghost mid = self.state();
            let name = &tag_names[i];
            proof {
                assert(ns[i as int] == name@);
            }
            let tag_id: i64 = match get_tag_id_by_name(self, name.as_str()) {
                Ok(Some(id)) => id,
                Ok(None) => match create_tag(self, name.as_str()) {
                    Ok(id) => id,
                    Err(e) => {
                        self.rollback_transaction();
                        return Err(e);
                    },
                },
                Err(e) => {
                    self.rollback_transaction();
                    return Err(e);
                },
            };
            let ghost tid = tag_id as int;
            proof {
                assert(self.state().tags.dom().contains(tid));
                assert(self.state().tags[tid] == name@);
                assert(self.state().consistent());
                assert(mid.tags.submap_of(self.state().tags));
            }
            let linked = match get_file_tag_ids_by_id(self, file_id) {
                Ok(v) => v,
                Err(e) => {
                    self.rollback_transaction();
                    return Err(e);
                },
            };
            let is_linked = contains_id(&linked, tag_id);
            proof {
                if is_linked {
                    let k = choose|k: int| 0 <= k < linked@.len() && linked@[k] == tag_id;
                    assert(linked@[k] as int == tid);
                    assert(self.state().links.contains((file_id as int, linked@[k] as int)));
                    assert(self.state().links.contains((fid, tid)));
                } else {
                    if self.state().links.contains((file_id as int, tid)) {
                        assert(exists|k: int|
                            0 <= k < linked@.len() && #[trigger] linked@[k] as int == tid);
                        let k = choose|k: int|
                            0 <= k < linked@.len() && #[trigger] linked@[k] as int == tid;
                        assert(linked@[k] == tag_id);
                        assert(linked@.contains(tag_id));
                        assert(false);
                    }
                    assert(!self.state().links.contains((fid, tid)));
                }
            }
            if !is_linked {
                match reference_file_tag(self, file_id, tag_id) {
                    Ok(()) => {},
                    Err(e) => {
                        self.rollback_transaction();
                        return Err(e);
                    },
                }
            }
            proof {
                let post = self.state();
                assert forall|n: Seq<char>| #[trigger] ns.take(i + 1 as int).contains(n) implies
                    post.has_tag(n) by {
                    lemma_take_succ_contains(ns, i as int, n);
                    if ns.take(i as int).contains(n) {
                        let t0 = choose|t0: int| #[trigger]
                            mid.tags.dom().contains(t0) && mid.tags[t0] == n;
                        assert(post.tags.dom().contains(t0) && post.tags[t0] == n);
                    } else {
                        assert(post.tags.dom().contains(tid) && post.tags[tid] == n);
                    }
                }
                assert forall|t2: int|
                    post.tags.dom().contains(t2) && !s0.tags.dom().contains(t2) implies ns.take(
                    i + 1 as int,
                ).contains(#[trigger] post.tags[t2]) by {
                    lemma_take_succ_contains(ns, i as int, post.tags[t2]);
                    if mid.tags.dom().contains(t2) {
                        assert(mid.tags[t2] == post.tags[t2]);
                        assert(ns.take(i as int).contains(post.tags[t2]));
                    } else {
                        assert(t2 == tid);
                    }
                }
                assert forall|l: (int, int)| #[trigger]
                    post.links.contains(l) <==> s0.links.contains(l) || (l.0 == fid
                        && post.tags.dom().contains(l.1) && ns.take(i + 1 as int).contains(
                        post.tags[l.1],
                    )) by {
                    lemma_take_succ_contains(ns, i as int, post.tags[l.1]);
                    if post.links.contains(l) {
                        if mid.links.contains(l) {
                            if !s0.links.contains(l) {
                                assert(mid.tags.dom().contains(l.1) && ns.take(i as int).contains(
                                    mid.tags[l.1],
                                ));
                                assert(post.tags[l.1] == mid.tags[l.1]);
                            }
                        } else {
                            assert(l == (fid, tid));
                            assert(post.tags[l.1] == name@);
                            assert(ns[i as int] == name@);
                        }
                    } else {
                        assert(!s0.links.contains(l));
                        if l.0 == fid && post.tags.dom().contains(l.1) && ns.take(
                            i + 1 as int,
                        ).contains(post.tags[l.1]) {
                            if ns.take(i as int).contains(post.tags[l.1]) {
                                if mid.tags.dom().contains(l.1) {
                                    assert(mid.links.contains(l));
                                    assert(false);
                                } else {
                                    assert(l.1 == tid);
                                    assert(ns.take(i as int).contains(name@));
                                    let t0 = choose|t0: int| #[trigger]
                                        mid.tags.dom().contains(t0) && mid.tags[t0] == name@;
                                    assert(false);
                                }
                            } else {
                                assert(post.tags[l.1] == ns[i as int]);
                                assert(post.tags[l.1] == name@);
                                assert(post.tags[tid] == name@);
                                assert(l.1 == tid);
                                if is_linked {
                                    assert(mid.links.contains((fid, tid)));
                                    assert(post.links.contains(l));
                                    assert(false);
                                } else {
                                    assert(post.links.contains((fid, tid)));
                                    assert(false);
                                }
                            }
                        }
                    }
                }
            }
            i += 1;
        }
        proof {
            assert(ns.take(ns.len() as int) =~= ns);
        }
        match self.commit_transaction() {
            Ok(()) => {},
            Err(e) => {
                self.rollback_transaction();
                return Err(e);
            },
        }
        proof {
            lemma_tag_file_post(s0, file.row(), ns, self.state(), fid);
        }
        Ok(())
    }
}

/// The raw loop facts established by `tag_file` imply the full transition
/// relation `tag_post`, including its observer-level clauses, and
/// well-formedness of the final state.
proof fn lemma_tag_file_post(s0: StoreState, file: FileRow, ns: Seq<Seq<char>>, post: StoreState, fid: int)
    requires
        s0.wf(),
        ns.len() > 0,
        post.consistent(),
        post.files.dom().contains(fid),
        post.files[fid].3 == file.3,
        if s0.has_fp(file.3) {
            post.files == s0.files
        } else {
            exists|fr: int|
                !s0.files.dom().contains(fr) && post.files == #[trigger] s0.files.insert(fr, file)
        },
        s0.tags.submap_of(post.tags),
        forall|tid: int|
            post.tags.dom().contains(tid) && !s0.tags.dom().contains(tid) ==> ns.contains(
                #[trigger] post.tags[tid],
            ),
        forall|n: Seq<char>| #[trigger] ns.contains(n) ==> post.has_tag(n),
        forall|l: (int, int)|
            #[trigger] post.links.contains(l) <==> s0.links.contains(l) || (l.0 == fid
                && post.tags.dom().contains(l.1) && ns.contains(post.tags[l.1])),
    ensures
        post.wf(),
        tag_post(s0, file, ns, post),
{
    assert(post.files[fid].3 == file.3);
    lemma_fid_unique(post, fid, file.3);
    if s0.has_fp(file.3) {
        lemma_fid_unique(s0, s0.fid_of(file.3), file.3);
        assert(s0.fid_of(file.3) == fid) by {
            let w = s0.fid_of(file.3);
            assert(s0.files.dom().contains(w) && s0.files[w].3 == file.3);
        }
    }
    // links of the new file id are absent in s0 when the record is fresh
    if !s0.has_fp(file.3) {
        assert(!s0.files.dom().contains(fid)) by {
            if s0.files.dom().contains(fid) {
                assert(s0.files[fid] == post.files[fid]);
            }
        }
        assert forall|tid: int| !(#[trigger] s0.links.contains((fid, tid))) by {
            if s0.links.contains((fid, tid)) {
                assert(s0.files.dom().contains(fid));
            }
        }
    }
    // coverage: every file record of `post` holds a tag
    assert forall|f2: int| #[trigger] post.files.dom().contains(f2) implies exists|tid: int|
        #[trigger] post.links.contains((f2, tid)) by {
        if s0.files.dom().contains(f2) {
            let t0 = choose|t0: int| #[trigger] s0.links.contains((f2, t0));
            assert(post.links.contains((f2, t0)));
        } else {
            assert(f2 == fid);
            assert(ns.contains(ns[0]));
            let t0 = choose|t0: int| #[trigger] post.tags.dom().contains(t0) && post.tags[t0]
                == ns[0];
            assert(post.links.contains((fid, t0)));
        }
    }
    // tag names: the union of the old names and the requested ones
    assert(post.tagnames() =~= s0.tagnames().union(set_of(ns))) by {
        assert forall|n: Seq<char>|
            #[trigger] post.tagnames().contains(n) <==> s0.tagnames().contains(n)
                || set_of(ns).contains(n) by {
            if post.has_tag(n) {
                let t0 = choose|t0: int| #[trigger] post.tags.dom().contains(t0) && post.tags[t0]
                    == n;
                if s0.tags.dom().contains(t0) {
                    assert(s0.tags[t0] == n);
                    assert(s0.has_tag(n));
                } else {
                    assert(ns.contains(n));
                }
            }
            if s0.has_tag(n) {
                let t0 = choose|t0: int| #[trigger] s0.tags.dom().contains(t0) && s0.tags[t0] == n;
                assert(s0.tags.dom().contains(t0));
                assert(s0.tags.submap_of(post.tags));
                assert(post.tags.dom().contains(t0));
                assert(post.tags[t0] == s0.tags[t0]);
                assert(post.has_tag(n));
            }
        }
    }
    // fingerprints: the old ones plus the file's
    assert(post.fps() =~= s0.fps().insert(file.3)) by {
        assert forall|fp: Seq<char>|
            #[trigger] post.fps().contains(fp) <==> s0.fps().contains(fp) || fp == file.3 by {
            if post.has_fp(fp) && fp != file.3 {
                let w = choose|w: int| #[trigger] post.files.dom().contains(w) && post.files[w].3
                    == fp;
                assert(s0.files.dom().contains(w) && s0.files[w].3 == fp);
                assert(s0.has_fp(fp));
            }
            if s0.has_fp(fp) {
                let w = choose|w: int| #[trigger] s0.files.dom().contains(w) && s0.files[w].3
                    == fp;
                assert(post.files.dom().contains(w) && post.files[w].3 == fp);
                assert(post.has_fp(fp));
            }
            assert(fp == file.3 ==> post.has_fp(fp));
        }
    }
    // tag names of the tagged file: the old ones plus the requested ones
    assert(post.file_tagnames(file.3) =~= s0.file_tagnames(file.3).union(set_of(ns))) by {
        assert forall|n: Seq<char>|
            #[trigger] post.file_tagnames(file.3).contains(n) <==> s0.file_tagnames(
                file.3,
            ).contains(n) || set_of(ns).contains(n) by {
            assert(post.fid_of(file.3) == fid);
            if post.fid_tagnames(fid).contains(n) {
                let t0 = choose|t0: int|
                    #[trigger] post.links.contains((fid, t0)) && post.tags.dom().contains(t0)
                        && post.tags[t0] == n;
                if s0.links.contains((fid, t0)) {
                    assert(s0.tags.dom().contains(t0));
                    assert(s0.tags[t0] == n);
                    assert(s0.has_fp(file.3));
                    assert(s0.fid_of(file.3) == fid);
                    assert(s0.fid_tagnames(fid).contains(n));
                } else {
                    assert(ns.contains(post.tags[t0]));
                }
            }
            if s0.file_tagnames(file.3).contains(n) {
                assert(s0.has_fp(file.3));
                assert(s0.fid_of(file.3) == fid);
                let t0 = choose|t0: int|
                    #[trigger] s0.links.contains((fid, t0)) && s0.tags.dom().contains(t0)
                        && s0.tags[t0] == n;
                assert(post.links.contains((fid, t0)));
                assert(post.tags.dom().contains(t0) && post.tags[t0] == n);
                assert(post.fid_tagnames(fid).contains(n));
            }
            if ns.contains(n) {
                assert(post.has_tag(n));
                let t0 = choose|t0: int| #[trigger] post.tags.dom().contains(t0) && post.tags[t0]
                    == n;
                assert(post.links.contains((fid, t0)));
                assert(post.fid_tagnames(fid).contains(n));
            }
        }
    }
    // tag names of every other file: unchanged
    assert forall|fp: Seq<char>| fp != file.3 implies #[trigger] post.file_tagnames(fp)
        == s0.file_tagnames(fp) by {
        if s0.has_fp(fp) {
            let w = s0.fid_of(fp);
            lemma_fid_unique(s0, w, fp);
            assert(post.files.dom().contains(w) && post.files[w].3 == fp);
            lemma_fid_unique(post, w, fp);
            assert(w != fid);
            assert(post.file_tagnames(fp) =~= s0.file_tagnames(fp)) by {
                assert forall|n: Seq<char>|
                    #[trigger] post.fid_tagnames(w).contains(n) <==> s0.fid_tagnames(w).contains(
                        n,
                    ) by {
                    if post.fid_tagnames(w).contains(n) {
                        let t0 = choose|t0: int|
                            #[trigger] post.links.contains((w, t0)) && post.tags.dom().contains(t0)
                                && post.tags[t0] == n;
                        assert(s0.links.contains((w, t0)));
                        assert(s0.tags.dom().contains(t0));
                        assert(s0.tags[t0] == n);
                    }
                    if s0.fid_tagnames(w).contains(n) {
                        let t0 = choose|t0: int|
                            #[trigger] s0.links.contains((w, t0)) && s0.tags.dom().contains(t0)
                                && s0.tags[t0] == n;
                        assert(post.links.contains((w, t0)));
                        assert(post.tags.dom().contains(t0) && post.tags[t0] == n);
                    }
                }
            }
        } else {
            assert(!post.has_fp(fp)) by {
                if post.has_fp(fp) {
                    let w = choose|w: int| #[trigger] post.files.dom().contains(w)
                        && post.files[w].3 == fp;
                    assert(s0.files.dom().contains(w) && s0.files[w].3 == fp);
                }
            }
        }
    }
    // records of previously present files: unchanged
    assert forall|fp: Seq<char>| #[trigger] s0.has_fp(fp) implies post.row_of(fp) == s0.row_of(
        fp,
    ) by {
        let w = s0.fid_of(fp);
        lemma_fid_unique(s0, w, fp);
        assert(post.files.dom().contains(w) && post.files[w].3 == fp);
        lemma_fid_unique(post, w, fp);
    }
}

impl Database {
    /// Lists the names of every tag, in ascending tag order.
    pub fn get_all_tags(&self) -> (r: Result<Vec<String>, DatabaseError>)
        ensures
            r matches Ok(v) ==> some_names_listing(self.state(), names_of(v@)),
            r matches Err(e) ==> e is DatabaseInternal,
    {
        let rows = get_all_tag_rows(self)?;
        let mut out: Vec<String> = Vec::new();
        let mut i: usize = 0;
        while i < rows.len()
            invariant
                0 <= i <= rows@.len(),
                out@.len() == i as int,
                forall|k: int| 0 <= k < i ==> #[trigger] out@[k]@ == rows@[k].1@,
            decreases rows@.len() - i,
        {
            let n = rows[i].1.clone();
            proof {
                assert(n@ == rows@[i as int].1@);
            }
            out.push(n);
            i += 1;
        }
        proof {
            let ids = rows@.map_values(|row: (i64, String)| row.0 as int);
            let names = names_of(out@);
            assert forall|k: int| 0 <= k < ids.len() implies self.state().tags.dom().contains(
                #[trigger] ids[k],
            ) && self.state().tags[ids[k]] == names[k] by {
                assert(self.state().tags.dom().contains(rows@[k].0 as int));
            }
            assert forall|tid: int| #[trigger]
                self.state().tags.dom().contains(tid) implies ids.contains(tid) by {
                let k = choose|k: int|
                    0 <= k < rows@.len() && #[trigger] rows@[k].0 as int == tid;
                assert(ids[k] == tid);
            }
            assert(names_listing(self.state(), ids, names));
            assert(some_names_listing(self.state(), names_of(out@)));
        }
        Ok(out)
    }

    /// Deletes the named tags from the store, inside one transaction.  The
    /// whole request is validated first: an unknown name fails the
    /// operation with `NoSuchTag` and nothing is deleted.  On success every
    /// named tag disappears, every association referencing one of them is
    /// dissociated, and every file record left without a single tag is
    /// deleted too.
    pub fn delete_tags(&mut self, names: &Vec<String>) -> (r: Result<(), DatabaseError>)
        requires
            old(self).wf(),
        ensures
            final(self).wf(),
            r is Ok ==> remove_tags_post(old(self).state(), names_of(names@), final(self).state()),
            r is Err ==> final(self).state() == old(self).state(),
            r matches Err(e) ==> match e {
                DatabaseError::NoSuchTag(n) => names_of(names@).contains(n@) && !old(
                    self,
                ).state().has_tag(n@),
                DatabaseError::DatabaseInternal(_) => true,
                _ => false,
            },
    {
        let ghost s0 = self.state();
        let ghost ns = names_of(names@);
        match self.begin_transaction() {
            Ok(()) => {},
            Err(e) => {
                self.rollback_transaction();
                return Err(e);
            },
        }
        let mut tag_ids: Vec<i64> = Vec::new();
        let mut i: usize = 0;
        while i < names.len()
            invariant
                0 <= i <= names@.len(),
                ns == names_of(names@),
                ns.len() == names@.len(),
                s0 == old(self).state(),
                s0.wf(),
                self.state() == s0,
                self.committed() == s0,
                in_transaction(*self),
                tag_ids@.len() == i as int,
                forall|k: int|
                    0 <= k < i ==> s0.tags.dom().contains(#[trigger] tag_ids@[k] as int)
                        && s0.tags[tag_ids@[k] as int] == ns[k],
            decreases names@.len() - i,
        {
            let name = &names[i];
            proof {
                assert(ns[i as int] == name@);
            }
            match get_tag_id_by_name(self, name.as_str()) {
                Ok(Some(id)) => {
                    tag_ids.push(id);
                },
                Ok(None) => {
                    proof {
                        assert(ns.contains(ns[i as int]));
                    }
                    self.rollback_transaction();
                    return Err(DatabaseError::NoSuchTag(name.clone()));
                },
                Err(e) => {
                    self.rollback_transaction();
                    return Err(e);
                },
            }
            i += 1;
        }
        let ghost tids = tag_ids@.map_values(|x: i64| x as int);
        let mut j: usize = 0;
        while j < tag_ids.len()
            invariant
                0 <= j <= tag_ids@.len(),
                ns == names_of(names@),
                ns.len() == names@.len(),
                s0 == old(self).state(),
                s0.wf(),
                self.committed() == s0,
                in_transaction(*self),
                self.state().files == s0.files,
                tids == tag_ids@.map_values(|x: i64| x as int),
                tids.len() == ns.len(),
                forall|k: int|
                    0 <= k < tids.len() ==> s0.tags.dom().contains(#[trigger] tids[k])
                        && s0.tags[tids[k]] == ns[k],
                forall|tid: int| #[trigger]
                    self.state().tags.dom().contains(tid) <==> s0.tags.dom().contains(tid) && !(
                    exists|k: int| 0 <= k < j && #[trigger] tids[k] == tid),
                forall|tid: int|
                    self.state().tags.dom().contains(tid) ==> #[trigger] self.state().tags[tid]
                        == s0.tags[tid],
                forall|l: (int, int)|
                    #[trigger] self.state().links.contains(l) <==> s0.links.contains(l) && !(
                    exists|k: int| 0 <= k < j && #[trigger] tids[k] == l.1),
            decreases tag_ids@.len() - j,
        {
            let ghost prev = self.state();
            match delete_links_of_tag(self, tag_ids[j]) {
                Ok(()) => {},
                Err(e) => {
                    self.rollback_transaction();
                    return Err(e);
                },
            }
            match delete_tag(self, tag_ids[j]) {
                Ok(()) => {},
                Err(e) => {
                    self.rollback_transaction();
                    return Err(e);
                },
            }
            proof {
                let cur = j as int;
                assert(tids[cur] == tag_ids@[cur] as int);
                assert forall|tid: int| #[trigger]
                    self.state().tags.dom().contains(tid) <==> s0.tags.dom().contains(tid) && !(
                    exists|k: int| 0 <= k < cur + 1 && #[trigger] tids[k] == tid) by {
                    if s0.tags.dom().contains(tid) {
                        if exists|k: int| 0 <= k < cur + 1 && #[trigger] tids[k] == tid {
                            let k = choose|k: int| 0 <= k < cur + 1 && #[trigger] tids[k] == tid;
                            if k < cur {
                                assert(!prev.tags.dom().contains(tid));
                            }
                        }
                    }
                }
                assert forall|l: (int, int)|
                    #[trigger] self.state().links.contains(l) <==> s0.links.contains(l) && !(
                    exists|k: int| 0 <= k < cur + 1 && #[trigger] tids[k] == l.1) by {
                    if s0.links.contains(l) {
                        if exists|k: int| 0 <= k < cur + 1 && #[trigger] tids[k] == l.1 {
                            let k = choose|k: int| 0 <= k < cur + 1 && #[trigger] tids[k] == l.1;
                            if k < cur {
                                assert(!prev.links.contains(l));
                            }
                        }
                    }
                }
            }
            j += 1;
        }
        let ghost mid = self.state();
        let rows = match get_all_file_rows(self) {
            Ok(v) => v,
            Err(e) => {
                self.rollback_transaction();
                return Err(e);
            },
        };
        let mut k: usize = 0;
        while k < rows.len()
            invariant
                0 <= k <= rows@.len(),
                s0 == old(self).state(),
                s0.wf(),
                self.committed() == s0,
                in_transaction(*self),
                mid.files == s0.files,
                self.state().tags == mid.tags,
                self.state().links == mid.links,
                forall|k1: int, k2: int|
                    0 <= k1 < k2 < rows@.len() ==> #[trigger] rows@[k1].0 < #[trigger] rows@[k2].0,
                forall|q: int|
                    0 <= q < rows@.len() ==> mid.files.dom().contains(#[trigger] rows@[q].0 as int),
                forall|fid: int| #[trigger]
                    mid.files.dom().contains(fid) ==> exists|q: int|
                        0 <= q < rows@.len() && #[trigger] rows@[q].0 as int == fid,
                forall|fid: int| #[trigger]
                    self.state().files.dom().contains(fid) ==> mid.files.dom().contains(fid)
                        && self.state().files[fid] == mid.files[fid],
                forall|fid: int|
                    mid.files.dom().contains(fid) ==> (#[trigger] self.state().files.dom().contains(
                        fid,
                    ) <==> (has_link(self.state(), fid) || !(exists|q: int|
                        0 <= q < k && #[trigger] rows@[q].0 as int == fid))),
            decreases rows@.len() - k,
        {
            let file_id = rows[k].0;
            let ghost fid = file_id as int;
            let ghost prev = self.state();
            let linked = match get_file_tag_ids_by_id(self, file_id) {
                Ok(v) => v,
                Err(e) => {
                    self.rollback_transaction();
                    return Err(e);
                },
            };
            if linked.len() == 0 {
                proof {
                    assert forall|t: int| !(#[trigger] prev.links.contains((fid, t))) by {
                        if prev.links.contains((fid, t)) {
                            let q = choose|q: int|
                                0 <= q < linked@.len() && #[trigger] linked@[q] as int == t;
                            assert(false);
                        }
                    }
                    assert(!has_link(prev, fid));
                }
                match delete_file(self, file_id) {
                    Ok(()) => {},
                    Err(e) => {
                        self.rollback_transaction();
                        return Err(e);
                    },
                }
            } else {
                proof {
                    assert(prev.links.contains((fid, linked@[0] as int)));
                    assert(has_link(prev, fid));
                }
            }
            proof {
                let cur = k as int;
                assert forall|f2: int|
                    mid.files.dom().contains(f2) implies (
                #[trigger] self.state().files.dom().contains(f2) <==> (has_link(self.state(), f2)
                    || !(exists|q: int| 0 <= q < cur + 1 && #[trigger] rows@[q].0 as int
                    == f2))) by {
                    assert(has_link(self.state(), f2) == has_link(prev, f2)) by {
                        assert(self.state().links == prev.links);
                    }
                    if exists|q: int| 0 <= q < cur + 1 && #[trigger] rows@[q].0 as int == f2 {
                        let q = choose|q: int|
                            0 <= q < cur + 1 && #[trigger] rows@[q].0 as int == f2;
                        if q == cur {
                            assert(f2 == fid);
                        }
                    }
                }
            }
            k += 1;
        }
        match self.commit_transaction() {
            Ok(()) => {},
            Err(e) => {
                self.rollback_transaction();
                return Err(e);
            },
        }
        proof {
            assert forall|fid: int| #[trigger] self.state().files.dom().contains(fid) implies
                has_link(self.state(), fid) by {
                assert(mid.files.dom().contains(fid));
                let q = choose|q: int|
                    0 <= q < rows@.len() && #[trigger] rows@[q].0 as int == fid;
                assert(exists|q2: int| 0 <= q2 < rows@.len() && #[trigger] rows@[q2].0 as int
                    == fid);
            }
            lemma_delete_tags_post(s0, ns, tids, mid, self.state());
        }
        Ok(())
    }
}

/// The raw loop facts established by `delete_tags` imply the full
/// transition relation `remove_tags_post`, including its observer-level
/// clauses, and well-formedness of the final state.
proof fn lemma_delete_tags_post(
    s0: StoreState,
    ns: Seq<Seq<char>>,
    tids: Seq<int>,
    mid: StoreState,
    post: StoreState,
)
    requires
        s0.wf(),
        tids.len() == ns.len(),
        forall|k: int|
            0 <= k < tids.len() ==> s0.tags.dom().contains(#[trigger] tids[k]) && s0.tags[tids[k]]
                == ns[k],
        mid.files == s0.files,
        post.tags == mid.tags,
        post.links == mid.links,
        forall|tid: int| #[trigger]
            mid.tags.dom().contains(tid) <==> s0.tags.dom().contains(tid) && !(exists|k: int|
            0 <= k < tids.len() && #[trigger] tids[k] == tid),
        forall|tid: int|
            mid.tags.dom().contains(tid) ==> #[trigger] mid.tags[tid] == s0.tags[tid],
        forall|l: (int, int)|
            #[trigger] mid.links.contains(l) <==> s0.links.contains(l) && !(exists|k: int|
            0 <= k < tids.len() && #[trigger] tids[k] == l.1),
        forall|fid: int| #[trigger]
            post.files.dom().contains(fid) ==> mid.files.dom().contains(fid) && post.files[fid]
                == mid.files[fid],
        forall|fid: int|
            mid.files.dom().contains(fid) ==> (#[trigger] post.files.dom().contains(fid) <==> has_link(
                post,
                fid,
            )),
    ensures
        post.wf(),
        remove_tags_post(s0, ns, post),
{
    // a named tag exists beforehand
    assert forall|n: Seq<char>| #[trigger] ns.contains(n) implies s0.has_tag(n) by {
        let k = choose|k: int| 0 <= k < ns.len() && ns[k] == n;
        assert(s0.tags.dom().contains(tids[k]) && s0.tags[tids[k]] == n);
    }
    // an id is removed exactly when its name is requested
    assert forall|tid: int|
        s0.tags.dom().contains(tid) implies ((exists|k: int|
        0 <= k < tids.len() && #[trigger] tids[k] == tid) <==> ns.contains(
        #[trigger] s0.tags[tid])) by {
        if exists|k: int| 0 <= k < tids.len() && #[trigger] tids[k] == tid {
            let k = choose|k: int| 0 <= k < tids.len() && #[trigger] tids[k] == tid;
            assert(s0.tags[tid] == ns[k]);
            assert(ns.contains(ns[k]));
        }
        if ns.contains(s0.tags[tid]) {
            let k = choose|k: int| 0 <= k < ns.len() && ns[k] == s0.tags[tid];
            assert(s0.tags[tids[k]] == s0.tags[tid]);
            assert(tids[k] == tid);
        }
    }
    // consistency of the final state
    assert forall|l: (int, int)| #[trigger] post.links.contains(l) implies s0.links.contains(
        l,
    ) by {}
    assert(post.consistent()) by {
        assert(post.links.subset_of(s0.links));
        vstd::set_lib::lemma_set_subset_finite(s0.links, post.links);
        assert(post.files.dom().subset_of(s0.files.dom()));
        vstd::set_lib::lemma_set_subset_finite(s0.files.dom(), post.files.dom());
        assert(post.tags.dom().subset_of(s0.tags.dom()));
        vstd::set_lib::lemma_set_subset_finite(s0.tags.dom(), post.tags.dom());
        assert forall|l: (int, int)| #[trigger] post.links.contains(l) implies
            post.files.dom().contains(l.0) && post.tags.dom().contains(l.1) by {
            assert(s0.links.contains(l));
            assert(s0.tags.dom().contains(l.1));
            assert(mid.tags.dom().contains(l.1));
            assert(mid.files.dom().contains(l.0));
            assert(has_link(post, l.0));
        }
        assert forall|f1: int, f2: int|
            post.files.dom().contains(f1) && post.files.dom().contains(f2)
                && #[trigger] post.files[f1].3 == #[trigger] post.files[f2].3 implies f1 == f2 by {
            assert(s0.files.dom().contains(f1) && s0.files.dom().contains(f2));
            assert(s0.files[f1] == post.files[f1] && s0.files[f2] == post.files[f2]);
        }
        assert forall|t1: int, t2: int|
            post.tags.dom().contains(t1) && post.tags.dom().contains(t2)
                && #[trigger] post.tags[t1] == #[trigger] post.tags[t2] implies t1 == t2 by {
            assert(s0.tags.dom().contains(t1) && s0.tags.dom().contains(t2));
            assert(s0.tags[t1] == post.tags[t1] && s0.tags[t2] == post.tags[t2]);
        }
    }
    // coverage holds by construction
    assert forall|fid: int| #[trigger] post.files.dom().contains(fid) implies exists|tid: int|
        #[trigger] post.links.contains((fid, tid)) by {
        assert(mid.files.dom().contains(fid));
        assert(has_link(post, fid));
    }
    // tag names shrink to the difference
    assert(post.tagnames() =~= s0.tagnames().difference(set_of(ns))) by {
        assert forall|n: Seq<char>|
            #[trigger] post.tagnames().contains(n) <==> s0.tagnames().contains(n)
                && !set_of(ns).contains(n) by {
            if post.has_tag(n) {
                let t = choose|t: int| #[trigger] post.tags.dom().contains(t) && post.tags[t]
                    == n;
                assert(s0.tags.dom().contains(t) && s0.tags[t] == n);
                assert(!ns.contains(n));
            }
            if s0.has_tag(n) && !set_of(ns).contains(n) {
                let t = choose|t: int| #[trigger] s0.tags.dom().contains(t) && s0.tags[t] == n;
                assert(mid.tags.dom().contains(t));
                assert(post.tags.dom().contains(t) && post.tags[t] == n);
                assert(post.has_tag(n));
            }
        }
    }
    // a fingerprint survives exactly when one of its tags does
    assert forall|fp: Seq<char>|
        #[trigger] post.has_fp(fp) <==> s0.has_fp(fp) && !s0.file_tagnames(fp).subset_of(
            set_of(ns),
        ) by {
        if post.has_fp(fp) {
            let w = choose|w: int| #[trigger] post.files.dom().contains(w) && post.files[w].3
                == fp;
            assert(s0.files.dom().contains(w) && s0.files[w].3 == fp);
            assert(s0.has_fp(fp));
            lemma_fid_unique(s0, w, fp);
            assert(has_link(post, w));
            let t = choose|t: int| #[trigger] post.links.contains((w, t));
            assert(s0.links.contains((w, t)));
            assert(s0.tags.dom().contains(t));
            assert(s0.fid_tagnames(w).contains(s0.tags[t]));
            assert(!ns.contains(s0.tags[t]));
            assert(!s0.file_tagnames(fp).subset_of(set_of(ns)));
        }
        if s0.has_fp(fp) && !s0.file_tagnames(fp).subset_of(set_of(ns)) {
            let w = s0.fid_of(fp);
            lemma_fid_unique(s0, w, fp);
            let n = choose|n: Seq<char>|
                s0.file_tagnames(fp).contains(n) && !(#[trigger] set_of(ns).contains(n));
            let t = choose|t: int|
                #[trigger] s0.links.contains((w, t)) && s0.tags.dom().contains(t) && s0.tags[t]
                    == n;
            assert(post.links.contains((w, t))) by {
                if exists|k: int| 0 <= k < tids.len() && #[trigger] tids[k] == t {
                    let k = choose|k: int| 0 <= k < tids.len() && #[trigger] tids[k] == t;
                    assert(ns.contains(ns[k]));
                    assert(false);
                }
            }
            assert(has_link(post, w));
            assert(post.files.dom().contains(w) && post.files[w].3 == fp);
            assert(post.has_fp(fp));
        }
    }
    // surviving files keep their records and lose exactly the removed names
    assert forall|fp: Seq<char>| #[trigger] post.has_fp(fp) implies post.row_of(fp) == s0.row_of(
        fp,
    ) && post.file_tagnames(fp) == s0.file_tagnames(fp).difference(set_of(ns)) by {
        let w = choose|w: int| #[trigger] post.files.dom().contains(w) && post.files[w].3 == fp;
        assert(s0.files.dom().contains(w) && s0.files[w].3 == fp);
        lemma_fid_unique(post, w, fp);
        lemma_fid_unique(s0, w, fp);
        assert(post.file_tagnames(fp) =~= s0.file_tagnames(fp).difference(set_of(ns))) by {
            assert forall|n: Seq<char>|
                #[trigger] post.fid_tagnames(w).contains(n) <==> s0.fid_tagnames(w).contains(n)
                    && !set_of(ns).contains(n) by {
                if post.fid_tagnames(w).contains(n) {
                    let t = choose|t: int|
                        #[trigger] post.links.contains((w, t)) && post.tags.dom().contains(t)
                            && post.tags[t] == n;
                    assert(s0.links.contains((w, t)));
                    assert(s0.tags.dom().contains(t) && s0.tags[t] == n);
                    assert(!ns.contains(n));
                }
                if s0.fid_tagnames(w).contains(n) && !set_of(ns).contains(n) {
                    let t = choose|t: int|
                        #[trigger] s0.links.contains((w, t)) && s0.tags.dom().contains(t)
                            && s0.tags[t] == n;
                    assert(post.links.contains((w, t))) by {
                        if exists|k: int| 0 <= k < tids.len() && #[trigger] tids[k] == t {
                            let k = choose|k: int|
                                0 <= k < tids.len() && #[trigger] tids[k] == t;
                            assert(ns.contains(ns[k]));
                            assert(false);
                        }
                    }
                    assert(mid.tags.dom().contains(t));
                    assert(post.tags.dom().contains(t) && post.tags[t] == n);
                    assert(post.fid_tagnames(w).contains(n));
                }
            }
        }
    }
}

/// The id of the tag with this name, or `None` when the store has no such
/// tag.
pub(crate) fn get_tag_id_by_name(db: &Database, name: &str) -> (r: Result<
    Option<i64>,
    DatabaseError,
>)
    ensures
        r matches Ok(Some(id)) ==> db_state(*db).tags.dom().contains(id as int) && db_state(*db).tags[
            id as int
        ] == name@,
        r matches Ok(None) ==> !db_state(*db).has_tag(name@),
        r matches Err(e) ==> e is DatabaseInternal,
{
    match get_tag_by_name(db, name)? {
        Some(tag) => Ok(Some(tag.id)),
        None => Ok(None),
    }
}

} // verus!
