//! Primitives over the file-tag association collection, and the queries
//! built on it.
use vstd::prelude::*;
use crate::db::tables::contains_all;
use crate::db::tables::files::{get_all_file_rows, get_file_id};
use crate::db::tables::tags::{get_tag_id_by_name, get_tag_name_by_id};

use crate::db::{in_transaction, and_query_listing, db_committed, db_state, lemma_fid_unique, matches_all, names_of, some_and_query_listing, tags_answer, Database, DatabaseError, StoreState};

verus! {

/// Relies on a SQL `INSERT` through `rusqlite::Connection::execute`: adds
/// the association between this file record and this tag.  A duplicate pair
/// violates the schema's UNIQUE constraint and fails instead, as does a
/// reference to a missing record.  Nothing becomes durable before a commit.
#[verifier::external_body]
pub fn reference_file_tag(db: &mut Database, file_id: i64, tag_id: i64) -> (r: Result<
    (),
    DatabaseError,
>)
    requires
        in_transaction(*old(db)),
    ensures
        r is Ok ==> in_transaction(*final(db)),
        r is Ok ==> db_state(*final(db)) == (StoreState {
            links: db_state(*old(db)).links.insert((file_id as int, tag_id as int)),
            ..db_state(*old(db))
        }),
        db_committed(*final(db)) == db_committed(*old(db)),
        r is Err ==> db_state(*final(db)) == db_state(*old(db)) || db_state(*final(db))
            == db_committed(*old(db)),
        r matches Err(e) ==> e is DatabaseInternal,
{
    match db.connection.execute(
        "INSERT INTO file_tags (file_id, tag_id) VALUES (?1, ?2)",
        (file_id, tag_id),
    ) {
        Ok(_) => Ok(()),
        Err(e) => Err(DatabaseError::DatabaseInternal(format!("{e}"))),
    }
}

/// Relies on a SQL `DELETE` through `rusqlite::Connection::execute`: removes
/// the association between this file record and this tag, if present.
#[verifier::external_body]
pub(crate) fn unreference_file_tag(db: &mut Database, file_id: i64, tag_id: i64) -> (r: Result<
    (),
    DatabaseError,
>)
    requires
        in_transaction(*old(db)),
    ensures
        r is Ok ==> in_transaction(*final(db)),
        r is Ok ==> db_state(*final(db)) == (StoreState {
            links: db_state(*old(db)).links.remove((file_id as int, tag_id as int)),
            ..db_state(*old(db))
        }),
        db_committed(*final(db)) == db_committed(*old(db)),
        r is Err ==> db_state(*final(db)) == db_state(*old(db)) || db_state(*final(db))
            == db_committed(*old(db)),
        r matches Err(e) ==> e is DatabaseInternal,
{
    match db.connection.execute(
        "DELETE FROM file_tags WHERE file_id = ?1 AND tag_id = ?2",
        (file_id, tag_id),
    ) {
        Ok(_) => Ok(()),
        Err(e) => Err(DatabaseError::DatabaseInternal(format!("{e}"))),
    }
}

/// Relies on a SQL `DELETE` through `rusqlite::Connection::execute`: removes
/// every association that references this tag (the explicit dissociation
/// step of a tag deletion's cascade).
#[verifier::external_body]
pub(crate) fn delete_links_of_tag(db: &mut Database, tag_id: i64) -> (r: Result<
    (),
    DatabaseError,
>)
    requires
        in_transaction(*old(db)),
    ensures
        r is Ok ==> in_transaction(*final(db)),
        r is Ok ==> db_state(*final(db)) == (StoreState {
            links: db_state(*old(db)).links.filter(|l: (int, int)| l.1 != tag_id as int),
            ..db_state(*old(db))
        }),
        db_committed(*final(db)) == db_committed(*old(db)),
        r is Err ==> db_state(*final(db)) == db_state(*old(db)) || db_state(*final(db))
            == db_committed(*old(db)),
        r matches Err(e) ==> e is DatabaseInternal,
{
    match db.connection.execute("DELETE FROM file_tags WHERE tag_id = ?1", (tag_id,)) {
        Ok(_) => Ok(()),
        Err(e) => Err(DatabaseError::DatabaseInternal(format!("{e}"))),
    }
}

/// Relies on a SQL `SELECT ... ORDER BY tag_id` through
/// `rusqlite::Statement::query_map`: returns the ids of the tags associated
/// with this file record, in ascending order, one per association.
#[verifier::external_body]
pub fn get_file_tag_ids_by_id(db: &Database, file_id: i64) -> (r: Result<Vec<i64>, DatabaseError>)
    ensures
        r matches Ok(v) ==> {
            &&& forall|k1: int, k2: int|
                0 <= k1 < k2 < v@.len() ==> #[trigger] v@[k1] < #[trigger] v@[k2]
            &&& forall|k: int|
                0 <= k < v@.len() ==> db_state(*db).links.contains(
                    (file_id as int, #[trigger] v@[k] as int),
                )
            &&& forall|tid: int| #[trigger]
                db_state(*db).links.contains((file_id as int, tid)) ==> exists|k: int|
                    0 <= k < v@.len() && #[trigger] v@[k] as int == tid
        },
        r matches Err(e) ==> e is DatabaseInternal,
{
    let mut statement = match db.connection.prepare(
        "SELECT tag_id FROM file_tags WHERE file_id = ?1 ORDER BY tag_id",
    ) {
        Ok(s) => s,
        Err(e) => return Err(DatabaseError::DatabaseInternal(format!("{e}"))),
    };
    statement.query_map([&file_id], |row| row.get(0))
        .and_then(|rows| rows.collect::<Result<Vec<i64>, _>>())
        .map_err(|e| DatabaseError::DatabaseInternal(format!("{e}")))
}

/// Lists the names of the tags on the file carrying this fingerprint, in
/// ascending tag order; the list is empty when the store has no record of
/// the fingerprint (untracked is a valid state to query, not an error).
pub fn get_file_tags_by_hash(db: &Database, fingerprint_hash: &str) -> (r: Result<
    Vec<String>,
    DatabaseError,
>)
    requires
        db.wf(),
    ensures
        r matches Ok(v) ==> tags_answer(db.state(), fingerprint_hash@, names_of(v@)),
        r matches Err(e) ==> e is DatabaseInternal,
{
    let ghost s = db.state();
    let ghost fp = fingerprint_hash@;
    let found = get_file_id(db, fingerprint_hash)?;
    let file_id: i64 = match found {
        Some(id) => id,
        None => {
            let empty: Vec<String> = Vec::new();
            proof {
                assert(names_of(empty@) =~= Seq::<Seq<char>>::empty());
                assert(tags_answer(s, fp, names_of(empty@)));
            }
            return Ok(empty);
        },
    };
    let ghost fid = file_id as int;
    proof {
        lemma_fid_unique(s, fid, fp);
    }
    let tids = get_file_tag_ids_by_id(db, file_id)?;
    let mut out: Vec<String> = Vec::new();
    let mut i: usize = 0;
    while i < tids.len()
        invariant
            0 <= i <= tids@.len(),
            s == db.state(),
            s.wf(),
            fid == file_id as int,
            s.files.dom().contains(fid),
            s.fid_of(fp) == fid,
            s.has_fp(fp),
            forall|k1: int, k2: int| 0 <= k1 < k2 < tids@.len() ==> #[trigger] tids@[k1] < #[trigger] tids@[k2],
            forall|k: int|
                0 <= k < tids@.len() ==> s.links.contains((fid, #[trigger] tids@[k] as int)),
            forall|t: int| #[trigger]
                s.links.contains((fid, t)) ==> exists|k: int|
                    0 <= k < tids@.len() && #[trigger] tids@[k] as int == t,
            out@.len() == i as int,
            forall|k: int|
                0 <= k < i ==> #[trigger] out@[k]@ == s.tags[tids@[k] as int],
        decreases tids@.len() - i,
    {
        proof {
            assert(s.links.contains((fid, tids@[i as int] as int)));
        }
        match get_tag_name_by_id(db, tids[i]) {
            Ok(Some(n)) => {
                out.push(n);
            },
            Ok(None) => {
                // unreachable: the association references an existing tag
                proof {
                    assert(false);
                }
                return Ok(Vec::new());
            },
            Err(e) => {
                return Err(e);
            },
        }
        i += 1;
    }
    proof {
        let names = names_of(out@);
        assert forall|k: int| 0 <= k < names.len() implies s.file_tagnames(fp).contains(
            #[trigger] names[k],
        ) by {
            assert(names[k] == out@[k]@);
            assert(s.links.contains((fid, tids@[k] as int)));
            assert(s.fid_tagnames(fid).contains(s.tags[tids@[k] as int]));
        }
        assert forall|n: Seq<char>| #[trigger] s.file_tagnames(fp).contains(n) implies
            names.contains(n) by {
            let t = choose|t: int|
                #[trigger] s.links.contains((fid, t)) && s.tags.dom().contains(t) && s.tags[t]
                    == n;
            let k = choose|k: int| 0 <= k < tids@.len() && #[trigger] tids@[k] as int == t;
            assert(names[k] == n);
        }
        assert forall|k1: int, k2: int| 0 <= k1 < k2 < names.len() implies #[trigger] names[k1]
            != #[trigger] names[k2] by {
            assert(s.links.contains((fid, tids@[k1] as int)));
            assert(s.links.contains((fid, tids@[k2] as int)));
            assert(s.tags.dom().contains(tids@[k1] as int));
            assert(s.tags.dom().contains(tids@[k2] as int));
            assert(names[k1] == out@[k1]@ && names[k2] == out@[k2]@);
        }
        assert(tags_answer(s, fp, names_of(out@)));
    }
    Ok(out)
}

/// Answers the tag-intersection query: the paths of exactly those files
/// that carry every one of the given tag names, in ascending record order.
/// An empty request yields an empty answer, never "all files", and a name
/// unknown to the store yields an empty answer, never an error.
pub fn get_file_paths_by_tags_and_op(db: &Database, tag_names: &Vec<String>) -> (r: Result<
    Vec<String>,
    DatabaseError,
>)
    requires
        db.wf(),
    ensures
        r matches Ok(v) ==> if tag_names@.len() == 0 {
            v@.len() == 0
        } else {
            some_and_query_listing(db.state(), names_of(tag_names@), names_of(v@))
        },
        tag_names@.len() == 0 ==> r is Ok,
        r matches Err(e) ==> e is DatabaseInternal,
{
    let ghost s = db.state();
    let ghost ns = names_of(tag_names@);
    if tag_names.len() == 0 {
        return Ok(Vec::new());
    }
    let mut tids: Vec<i64> = Vec::new();
    let mut i: usize = 0;
    while i < tag_names.len()
        invariant
            0 <= i <= tag_names@.len(),
            s == db.state(),
            s.wf(),
            ns == names_of(tag_names@),
            ns.len() == tag_names@.len(),
            tag_names@.len() > 0,
            tids@.len() == i as int,
            forall|k: int|
                0 <= k < i ==> s.tags.dom().contains(#[trigger] tids@[k] as int)
                    && s.tags[tids@[k] as int] == ns[k],
        decreases tag_names@.len() - i,
    {
        let name = &tag_names[i];
        proof {
            assert(ns[i as int] == name@);
        }
        match get_tag_id_by_name(db, name.as_str()) {
            Ok(Some(id)) => {
                tids.push(id);
            },
            Ok(None) => {
                proof {
                    assert(ns.contains(ns[i as int]));
                    assert forall|fid: int|
                        s.files.dom().contains(fid) && #[trigger] matches_all(s, fid, ns) implies
                        Seq::<int>::empty().contains(fid) by {
                        assert(s.fid_tagnames(fid).contains(ns[i as int]));
                        let t = choose|t: int|
                            #[trigger] s.links.contains((fid, t)) && s.tags.dom().contains(t)
                                && s.tags[t] == ns[i as int];
                        assert(s.has_tag(ns[i as int]));
                        assert(false);
                    }
                    assert(and_query_listing(s, ns, Seq::<int>::empty(), Seq::<Seq<char>>::empty()));
                    assert(names_of(Seq::<String>::empty()) =~= Seq::<Seq<char>>::empty());
                }
                let empty: Vec<String> = Vec::new();
                proof {
                    assert(names_of(empty@) =~= Seq::<Seq<char>>::empty());
                    assert(some_and_query_listing(s, ns, names_of(empty@)));
                }
                return Ok(empty);
            },
            Err(e) => {
                return Err(e);
            },
        }
        i += 1;
    }
    let rows = get_all_file_rows(db)?;
    let mut out: Vec<String> = Vec::new();
    let ghost mut kept: Seq<int> = Seq::empty();
    let mut q: usize = 0;
    while q < rows.len()
        invariant
            0 <= q <= rows@.len(),
            s == db.state(),
            s.wf(),
            ns == names_of(tag_names@),
            ns.len() == tag_names@.len(),
            tag_names@.len() > 0,
            tids@.len() == ns.len(),
            forall|k: int|
                0 <= k < tids@.len() ==> s.tags.dom().contains(#[trigger] tids@[k] as int)
                    && s.tags[tids@[k] as int] == ns[k],
            forall|k1: int, k2: int|
                0 <= k1 < k2 < rows@.len() ==> #[trigger] rows@[k1].0 < #[trigger] rows@[k2].0,
            forall|k: int|
                0 <= k < rows@.len() ==> s.files.dom().contains(#[trigger] rows@[k].0 as int)
                    && s.files[rows@[k].0 as int].0 == rows@[k].1@,
            forall|fid: int| #[trigger]
                s.files.dom().contains(fid) ==> exists|k: int|
                    0 <= k < rows@.len() && #[trigger] rows@[k].0 as int == fid,
            kept.len() == out@.len(),
            forall|k1: int, k2: int|
                0 <= k1 < k2 < kept.len() ==> #[trigger] kept[k1] < #[trigger] kept[k2],
            forall|k: int|
                0 <= k < kept.len() ==> s.files.dom().contains(#[trigger] kept[k])
                    && s.files[kept[k]].0 == out@[k]@ && matches_all(s, kept[k], ns),
            forall|k: int|
                0 <= k < kept.len() ==> exists|q2: int|
                    0 <= q2 < q && #[trigger] kept[k] == rows@[q2].0 as int,
            forall|q2: int|
                0 <= q2 < q && matches_all(s, #[trigger] rows@[q2].0 as int, ns) ==> kept.contains(
                    rows@[q2].0 as int,
                ),
        decreases rows@.len() - q,
    {
        let file_id = rows[q].0;
        let ghost fid = file_id as int;
        let linked = match get_file_tag_ids_by_id(db, file_id) {
            Ok(v) => v,
            Err(e) => {
                return Err(e);
            },
        };
        let all = contains_all(&linked, &tids);
        proof {
            if all {
                assert forall|n: Seq<char>| #[trigger] ns.contains(n) implies s.fid_tagnames(
                    fid,
                ).contains(n) by {
                    let j = choose|j: int| 0 <= j < ns.len() && ns[j] == n;
                    assert(linked@.contains(tids@[j]));
                    let k = choose|k: int| 0 <= k < linked@.len() && linked@[k] == tids@[j];
                    assert(s.links.contains((fid, linked@[k] as int)));
                    assert(s.links.contains((fid, tids@[j] as int)));
                    assert(s.fid_tagnames(fid).contains(s.tags[tids@[j] as int]));
                }
                assert(matches_all(s, fid, ns));
            } else {
                let j = choose|j: int| 0 <= j < tids@.len() && !linked@.contains(#[trigger] tids@[j]);
                assert(!s.links.contains((fid, tids@[j] as int))) by {
                    if s.links.contains((fid, tids@[j] as int)) {
                        let k = choose|k: int|
                            0 <= k < linked@.len() && #[trigger] linked@[k] as int == tids@[j] as int;
                        assert(linked@[k] == tids@[j]);
                        assert(linked@.contains(tids@[j]));
                    }
                }
                assert(!matches_all(s, fid, ns)) by {
                    assert(ns.contains(ns[j]));
                    if s.fid_tagnames(fid).contains(ns[j]) {
                        let t = choose|t: int|
                            #[trigger] s.links.contains((fid, t)) && s.tags.dom().contains(t)
                                && s.tags[t] == ns[j];
                        assert(t == tids@[j] as int);
                        assert(false);
                    }
                }
            }
        }
        let ghost kept0 = kept;
        if all {
            let p = rows[q].1.clone();
            proof {
                assert(p@ == rows@[q as int].1@);
            }
            out.push(p);
            proof {
                kept = kept.push(fid);
                assert forall|k1: int, k2: int| 0 <= k1 < k2 < kept.len() implies #[trigger] kept[k1]
                    < #[trigger] kept[k2] by {
                    if k2 == kept.len() - 1 {
                        let q2 = choose|q2: int|
                            0 <= q2 < q && #[trigger] kept0[k1] == rows@[q2].0 as int;
                        assert(rows@[q2].0 < rows@[q as int].0);
                    }
                }
            }
        }
        proof {
            assert forall|q2: int|
                0 <= q2 < q + 1 && matches_all(s, #[trigger] rows@[q2].0 as int, ns) implies
                kept.contains(rows@[q2].0 as int) by {
                let f2 = rows@[q2].0 as int;
                if q2 == q as int {
                    assert(f2 == fid);
                    assert(all);
                    assert(kept[kept.len() - 1] == fid);
                } else {
                    assert(kept0.contains(f2));
                    let k = choose|k: int| 0 <= k < kept0.len() && kept0[k] == f2;
                    assert(kept[k] == f2);
                }
            }
        }
        q += 1;
    }
    proof {
        assert forall|fid: int|
            s.files.dom().contains(fid) && #[trigger] matches_all(s, fid, ns) implies
            kept.contains(fid) by {
            let q2 = choose|q2: int| 0 <= q2 < rows@.len() && #[trigger] rows@[q2].0 as int == fid;
            assert(matches_all(s, rows@[q2].0 as int, ns));
        }
        assert(and_query_listing(s, ns, kept, names_of(out@)));
        assert(some_and_query_listing(s, ns, names_of(out@)));
    }
    Ok(out)
}

} // verus!
