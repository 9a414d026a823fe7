//! The tagging operation of the service.
use vstd::prelude::*;

use crate::commands::{trim_names, trimmed};
use crate::db::{names_of, tag_post, Database, File};
use crate::AppError;

verus! {

/// Tags the file with the given names, trimmed at this boundary.  An
/// explicitly empty tag list is a caller error; otherwise the store's
/// tagging transaction runs, and any store failure is passed up unchanged.
pub fn tag_file(db: &mut Database, file: &File, tag_names: &Vec<String>) -> (r: Result<
    (),
    AppError,
>)
    requires
        old(db).wf(),
    ensures
        final(db).wf(),
        r is Ok ==> tag_names@.len() > 0 && tag_post(
            old(db).state(),
            file.row(),
            trimmed(names_of(tag_names@)),
            final(db).state(),
        ),
        r matches Err(e) ==> final(db).state() == old(db).state() && match e {
            AppError::NoTagsSpecified => tag_names@.len() == 0,
            AppError::Database(d) => d is DatabaseInternal,
            _ => false,
        },
        tag_names@.len() == 0 ==> (r matches Err(e) && e is NoTagsSpecified),
{
    if tag_names.len() == 0 {
        return Err(AppError::NoTagsSpecified);
    }
    let trimmed_names = trim_names(tag_names);
    proof {
        assert(names_of(trimmed_names@).len() == trimmed_names@.len());
        assert(trimmed(names_of(tag_names@)).len() == tag_names@.len());
    }
    match db.tag_file(file, &trimmed_names) {
        Ok(()) => Ok(()),
        Err(e) => Err(AppError::Database(e)),
    }
}

} // verus!
