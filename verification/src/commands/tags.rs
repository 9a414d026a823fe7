//! The tag-listing operations of the service.
use vstd::prelude::*;

use crate::db::tables::file_tags::get_file_tags_by_hash;
use crate::db::{names_of, some_names_listing, tags_answer, Database, File};
use crate::AppError;

verus! {

/// Lists the tags on the given file: exactly the names associated with its
/// fingerprint, each once, in ascending tag order.  An untracked file
/// yields an empty list, not an error.
pub fn get_file_tags(db: &Database, file: &File) -> (r: Result<Vec<String>, AppError>)
    requires
        db.wf(),
    ensures
        r matches Ok(v) ==> tags_answer(db.state(), file.fingerprint_hash@, names_of(v@)),
        r matches Err(e) ==> e matches AppError::Database(d) && d is DatabaseInternal,
{
    match get_file_tags_by_hash(db, file.fingerprint_hash.as_str()) {
        Ok(v) => Ok(v),
        Err(e) => Err(AppError::Database(e)),
    }
}

/// Lists every tag of the store, in ascending tag order.
pub fn get_all_tags(db: &Database) -> (r: Result<Vec<String>, AppError>)
    ensures
        r matches Ok(v) ==> some_names_listing(db.state(), names_of(v@)),
        r matches Err(e) ==> e matches AppError::Database(d) && d is DatabaseInternal,
{
    match db.get_all_tags() {
        Ok(v) => Ok(v),
        Err(e) => Err(AppError::Database(e)),
    }
}

} // verus!
