//! The untagging operation of the service.
use vstd::prelude::*;

use crate::commands::{trim_names, trimmed};
use crate::db::{names_of, untag_post, Database, DatabaseError, File};
use crate::AppError;

verus! {

/// Removes the given tags, trimmed at this boundary, from the file.  An
/// explicitly empty tag list is a caller error; otherwise the store's
/// all-or-nothing untag transaction runs: it fails with `NoSuchFile` when
/// the file is untracked, with `NoSuchTag` when a name is unknown to the
/// store, and with `NoSuchTagOnFile` when the tag is not on this file, and
/// any failure leaves the store as it was.
pub fn untag_file(db: &mut Database, file: &File, tag_names: &Vec<String>) -> (r: Result<
    (),
    AppError,
>)
    requires
        old(db).wf(),
    ensures
        final(db).wf(),
        r is Ok ==> untag_post(
            old(db).state(),
            file.fingerprint_hash@,
            trimmed(names_of(tag_names@)),
            final(db).state(),
        ),
        r matches Err(e) ==> final(db).state() == old(db).state() && match e {
            AppError::NoTagsSpecified => tag_names@.len() == 0,
            AppError::Database(d) => match d {
                DatabaseError::StoreNotFound => false,
                DatabaseError::NoSuchFile => !old(db).state().has_fp(file.fingerprint_hash@),
                DatabaseError::NoSuchTag(n) => old(db).state().has_fp(file.fingerprint_hash@)
                    && trimmed(names_of(tag_names@)).contains(n@) && !old(db).state().has_tag(n@),
                DatabaseError::NoSuchTagOnFile(n) => old(db).state().has_fp(
                    file.fingerprint_hash@,
                ) && trimmed(names_of(tag_names@)).contains(n@) && old(db).state().has_tag(n@)
                    && !old(db).state().file_tagnames(file.fingerprint_hash@).contains(n@),
                DatabaseError::DatabaseInternal(_) => true,
            },
            _ => false,
        },
        tag_names@.len() == 0 ==> (r matches Err(e) && e is NoTagsSpecified),
{
    if tag_names.len() == 0 {
        return Err(AppError::NoTagsSpecified);
    }
    let trimmed_names = trim_names(tag_names);
    match db.untag_file(file, &trimmed_names) {
        Ok(()) => Ok(()),
        Err(e) => Err(AppError::Database(e)),
    }
}

} // verus!
