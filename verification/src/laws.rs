//! The laws of the store: properties that relate several operations,
//! stated over the transition relations and observers that the operations'
//! contracts use, and proved once and for all.
use vstd::prelude::*;

use crate::db::{
    and_query_listing, matches_all, remove_tags_post, set_of, tag_post, tags_answer, untag_post,
    FileRow, StoreState,
};

verus! {

/// Tagging is idempotent: tagging a file with names it already holds
/// changes nothing, so running the same tagging operation twice leaves the
/// store exactly as the first run left it, and re-tagging never errors on
/// a held tag (the relation absorbs it).
pub proof fn lemma_tag_idempotent(
    s0: StoreState,
    s1: StoreState,
    s2: StoreState,
    file: FileRow,
    names: Seq<Seq<char>>,
)
    requires
        s0.wf(),
        s1.wf(),
        s2.wf(),
        tag_post(s0, file, names, s1),
        tag_post(s1, file, names, s2),
    ensures
        s2 == s1,
{
    assert(s1.fps().contains(file.3));
    assert(s1.has_fp(file.3));
    assert(s2.files == s1.files);
    assert forall|tid: int| #[trigger] s2.tags.dom().contains(tid) implies
        s1.tags.dom().contains(tid) by {
        if !s1.tags.dom().contains(tid) {
            let n = s2.tags[tid];
            assert(names.contains(n));
            assert(s1.has_tag(n));
            let t1 = choose|t1: int| #[trigger] s1.tags.dom().contains(t1) && s1.tags[t1] == n;
            assert(s2.tags.dom().contains(t1) && s2.tags[t1] == n);
            assert(t1 == tid);
            assert(false);
        }
    }
    assert(s2.tags =~= s1.tags) by {
        assert forall|tid: int| #[trigger] s1.tags.dom().contains(tid) implies
            s2.tags.dom().contains(tid) && s2.tags[tid] == s1.tags[tid] by {
            assert(s1.tags.submap_of(s2.tags));
        }
    }
    assert forall|l: (int, int)| #[trigger] s2.links.contains(l) implies s1.links.contains(l) by {
        if !s1.links.contains(l) {
            assert(s2.files.dom().contains(l.0) && s2.files[l.0].3 == file.3
                && s2.tags.dom().contains(l.1) && names.contains(s2.tags[l.1]));
            assert(s1.files.dom().contains(l.0) && s1.files[l.0].3 == file.3
                && s1.tags.dom().contains(l.1) && names.contains(s1.tags[l.1]));
            assert(s1.links.contains(l));
        }
    }
    assert forall|l: (int, int)| #[trigger] s1.links.contains(l) implies s2.links.contains(l) by {}
    assert(s2.links =~= s1.links);
    assert(s2 =~= s1);
}

/// Round-trip: after tagging a previously untracked file with a set of
/// names, listing the file's tags returns exactly those names, as sets
/// (order-insensitive).
pub proof fn lemma_tag_round_trip(
    s0: StoreState,
    s1: StoreState,
    file: FileRow,
    names: Seq<Seq<char>>,
    listed: Seq<Seq<char>>,
)
    requires
        s0.wf(),
        !s0.has_fp(file.3),
        tag_post(s0, file, names, s1),
        tags_answer(s1, file.3, listed),
    ensures
        forall|n: Seq<char>| #[trigger] listed.contains(n) <==> names.contains(n),
{
    assert(s0.file_tagnames(file.3) =~= Set::<Seq<char>>::empty());
    assert(s1.file_tagnames(file.3) == s0.file_tagnames(file.3).union(set_of(names)));
    assert forall|n: Seq<char>| #[trigger] listed.contains(n) <==> names.contains(n) by {
        if listed.contains(n) {
            let k = choose|k: int| 0 <= k < listed.len() && listed[k] == n;
            assert(s1.file_tagnames(file.3).contains(listed[k]));
            assert(names.contains(n));
        }
        if names.contains(n) {
            assert(set_of(names).contains(n));
            assert(s1.file_tagnames(file.3).contains(n));
            assert(listed.contains(n));
        }
    }
}

/// Intersection semantics: a tracked file's path belongs to the answer of
/// the tag query exactly when the file carries every requested name.
pub proof fn lemma_and_query_membership(
    s: StoreState,
    names: Seq<Seq<char>>,
    ids: Seq<int>,
    paths: Seq<Seq<char>>,
    fp: Seq<char>,
)
    requires
        s.wf(),
        s.has_fp(fp),
        and_query_listing(s, names, ids, paths),
    ensures
        ids.contains(s.fid_of(fp)) <==> set_of(names).subset_of(s.file_tagnames(fp)),
{
    let fid = s.fid_of(fp);
    assert(s.files.dom().contains(fid) && s.files[fid].3 == fp);
    if ids.contains(fid) {
        let k = choose|k: int| 0 <= k < ids.len() && ids[k] == fid;
        assert(matches_all(s, ids[k], names));
        assert forall|n: Seq<char>| #[trigger] set_of(names).contains(n) implies s.file_tagnames(
            fp,
        ).contains(n) by {
            assert(s.fid_tagnames(fid).contains(n));
        }
    }
    if set_of(names).subset_of(s.file_tagnames(fp)) {
        assert forall|n: Seq<char>| #[trigger] names.contains(n) implies s.fid_tagnames(
            fid,
        ).contains(n) by {
            assert(set_of(names).contains(n));
            assert(s.file_tagnames(fp).contains(n));
        }
        assert(matches_all(s, fid, names));
        assert(ids.contains(fid));
    }
}

/// Orphan cleanup: untagging a file's last tags removes its record, so the
/// file no longer appears among the store's files and listing its tags
/// yields the empty set (not an error).
pub proof fn lemma_untag_orphan_cleanup(
    s0: StoreState,
    fp: Seq<char>,
    names: Seq<Seq<char>>,
    s1: StoreState,
)
    requires
        s0.wf(),
        untag_post(s0, fp, names, s1),
        s0.file_tagnames(fp).subset_of(set_of(names)),
    ensures
        !s1.has_fp(fp),
        s1.file_tagnames(fp) == Set::<Seq<char>>::empty(),
{
    assert(s1.fps() == s0.fps().remove(fp));
    assert(!s1.fps().contains(fp));
    assert(s1.file_tagnames(fp) =~= Set::<Seq<char>>::empty());
}

/// Deleting tags cascades: the named tags disappear from the store
/// entirely, every surviving file loses exactly those names, and a file
/// whose whole tag set was named disappears from the store's files.
pub proof fn lemma_remove_tags_cascade(
    s0: StoreState,
    names: Seq<Seq<char>>,
    s1: StoreState,
    fp: Seq<char>,
)
    requires
        s0.wf(),
        remove_tags_post(s0, names, s1),
    ensures
        forall|n: Seq<char>| #[trigger] names.contains(n) ==> !s1.tagnames().contains(n),
        s0.has_fp(fp) && s0.file_tagnames(fp).subset_of(set_of(names)) ==> !s1.has_fp(fp),
        s1.has_fp(fp) ==> s1.file_tagnames(fp) == s0.file_tagnames(fp).difference(set_of(names)),
{
    assert forall|n: Seq<char>| #[trigger] names.contains(n) implies !s1.tagnames().contains(
        n,
    ) by {
        assert(s1.tagnames() == s0.tagnames().difference(set_of(names)));
        assert(set_of(names).contains(n));
    }
}

/// Fingerprint identity: re-tagging a fingerprint already in the store
/// resolves to the existing record and creates nothing, while tagging a
/// fingerprint not yet present creates exactly one record holding the
/// given file.  Together with the fingerprint being a function of the
/// file's bytes and path alone, the same (bytes, path) pair always reaches
/// the same record.
pub proof fn lemma_fingerprint_identity(
    s0: StoreState,
    s1: StoreState,
    file: FileRow,
    names: Seq<Seq<char>>,
)
    requires
        s0.wf(),
        tag_post(s0, file, names, s1),
    ensures
        s0.has_fp(file.3) ==> s1.files == s0.files && s1.row_of(file.3) == s0.row_of(file.3),
        !s0.has_fp(file.3) ==> s1.has_fp(file.3) && s1.row_of(file.3) == file,
{
    assert(s1.fps().contains(file.3));
    assert(s1.has_fp(file.3));
    if s0.has_fp(file.3) {
        assert(s1.row_of(file.3) == s0.row_of(file.3));
    }
}

} // verus!
