//! The file-listing operations of the service.
use vstd::prelude::*;

use crate::commands::{trim_names, trimmed};
use crate::db::tables::file_tags::get_file_paths_by_tags_and_op;
use crate::db::{names_of, some_and_query_listing, some_paths_listing, Database};
use crate::AppError;

verus! {

/// Lists the paths of exactly those files that carry every one of the
/// given tags, trimmed at this boundary, in ascending record order.  An
/// explicitly empty tag list is a caller error; a name unknown to the
/// store yields an empty answer, never an error.
pub fn get_file_paths(db: &Database, tag_names: &Vec<String>) -> (r: Result<Vec<String>, AppError>)
    requires
        db.wf(),
    ensures
        r matches Ok(v) ==> tag_names@.len() > 0 && some_and_query_listing(
            db.state(),
            trimmed(names_of(tag_names@)),
            names_of(v@),
        ),
        r matches Err(e) ==> match e {
            AppError::NoTagsSpecified => tag_names@.len() == 0,
            AppError::Database(d) => d is DatabaseInternal,
            _ => false,
        },
        tag_names@.len() == 0 ==> (r matches Err(e) && e is NoTagsSpecified),
{
    if tag_names.len() == 0 {
        return Err(AppError::NoTagsSpecified);
    }
    let trimmed_names = trim_names(tag_names);
    proof {
        assert(trimmed(names_of(tag_names@)).len() == tag_names@.len());
    }
    match get_file_paths_by_tags_and_op(db, &trimmed_names) {
        Ok(v) => Ok(v),
        Err(e) => Err(AppError::Database(e)),
    }
}

/// Lists the paths of every file of the store, in ascending record order.
pub fn get_files(db: &Database) -> (r: Result<Vec<String>, AppError>)
    ensures
        r matches Ok(v) ==> some_paths_listing(db.state(), names_of(v@)),
        r matches Err(e) ==> e matches AppError::Database(d) && d is DatabaseInternal,
{
    match db.get_files() {
        Ok(v) => Ok(v),
        Err(e) => Err(AppError::Database(e)),
    }
}

} // verus!
