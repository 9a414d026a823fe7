//! The tag-deletion operation of the service.
use vstd::prelude::*;

use crate::commands::{trim_names, trimmed};
use crate::db::{names_of, remove_tags_post, Database, DatabaseError};
use crate::AppError;

verus! {

/// Deletes the named tags, trimmed at this boundary, from the store.  An
/// explicitly empty tag list is a caller error; otherwise the store's
/// all-or-nothing removal transaction runs: an unknown name fails it with
/// `NoSuchTag` and nothing is deleted, and on success the tags, their
/// associations and any file records left without tags are all gone.
pub fn rm_tags(db: &mut Database, tag_names: &Vec<String>) -> (r: Result<(), AppError>)
    requires
        old(db).wf(),
    ensures
        final(db).wf(),
        r is Ok ==> remove_tags_post(
            old(db).state(),
            trimmed(names_of(tag_names@)),
            final(db).state(),
        ),
        r matches Err(e) ==> final(db).state() == old(db).state() && match e {
            AppError::NoTagsSpecified => tag_names@.len() == 0,
            AppError::Database(d) => match d {
                DatabaseError::NoSuchTag(n) => trimmed(names_of(tag_names@)).contains(n@) && !old(
                    db,
                ).state().has_tag(n@),
                DatabaseError::DatabaseInternal(_) => true,
                _ => false,
            },
            _ => false,
        },
        tag_names@.len() == 0 ==> (r matches Err(e) && e is NoTagsSpecified),
{
    if tag_names.len() == 0 {
        return Err(AppError::NoTagsSpecified);
    }
    let trimmed_names = trim_names(tag_names);
    match db.delete_tags(&trimmed_names) {
        Ok(()) => Ok(()),
        Err(e) => Err(AppError::Database(e)),
    }
}

} // verus!
