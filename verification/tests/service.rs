//! End-to-end tests of the tagging service against an in-memory store.
use anytaggy::commands::files::{get_file_paths, get_files};
use anytaggy::commands::rm_tags::rm_tags;
use anytaggy::commands::tag::tag_file;
use anytaggy::commands::tags::{get_all_tags, get_file_tags};
use anytaggy::commands::untag::untag_file;
use anytaggy::commands::prepare_file_arg;
use anytaggy::db::{Database, DatabaseError, DatabaseMode, File};
use anytaggy::AppError;

fn open_store() -> Database {
    Database::new(&DatabaseMode::ReadWriteCreate, ":memory:").unwrap()
}

fn make_file(path: &str, contents: &[u8]) -> File {
    let path_string = String::from(path);
    let name = String::from(path.rsplit('/').next().unwrap());
    let bytes: Vec<u8> = contents.to_vec();
    prepare_file_arg(&path_string, &name, &bytes)
}

fn strings(names: &[&str]) -> Vec<String> {
    names.iter().map(|n| String::from(*n)).collect()
}

#[test]
fn mod_blank_test() {
    let db = open_store();
    assert_eq!(get_all_tags(&db).unwrap(), Vec::<String>::new());
    assert_eq!(get_files(&db).unwrap(), Vec::<String>::new());
}

#[test]
fn tag_tag_file() {
    let mut db = open_store();
    let file = make_file("temp_tag_file", b"contents one");
    tag_file(&mut db, &file, &strings(&["test", "test2", "test3"])).unwrap();
    tag_file(&mut db, &file, &strings(&["test3", "test4", "test5"])).unwrap();
    assert_eq!(
        get_file_tags(&db, &file).unwrap(),
        strings(&["test", "test2", "test3", "test4", "test5"])
    );
}

#[test]
fn tag_no_tag_tags() {
    let mut db = open_store();
    let file = make_file("temp_tag_file", b"contents one");
    let out = tag_file(&mut db, &file, &Vec::new());
    assert!(matches!(out, Err(AppError::NoTagsSpecified)));
}

#[test]
fn tag_idempotent_single_association() {
    let mut db = open_store();
    let file = make_file("temp_tag_file", b"contents one");
    tag_file(&mut db, &file, &strings(&["t"])).unwrap();
    tag_file(&mut db, &file, &strings(&["t"])).unwrap();
    assert_eq!(get_file_tags(&db, &file).unwrap(), strings(&["t"]));
    assert_eq!(get_all_tags(&db).unwrap(), strings(&["t"]));
    assert_eq!(get_files(&db).unwrap(), vec![String::from("temp_tag_file")]);
}

#[test]
fn tags_get_tags() {
    let mut db = open_store();
    let file = make_file("temp_tag_file_1", b"first file");
    tag_file(&mut db, &file, &strings(&["test", "test2", "test3"])).unwrap();
    assert_eq!(get_file_tags(&db, &file).unwrap(), strings(&["test", "test2", "test3"]));
}

#[test]
fn tags_get_all_tags() {
    let mut db = open_store();
    let file = make_file("temp_tag_file_1", b"first file");
    tag_file(&mut db, &file, &strings(&["test", "test2", "test3"])).unwrap();
    assert_eq!(get_all_tags(&db).unwrap(), strings(&["test", "test2", "test3"]));
    rm_tags(&mut db, &strings(&["test", "test2", "test3"])).unwrap();
    assert_eq!(get_all_tags(&db).unwrap(), Vec::<String>::new());
}

#[test]
fn tags_absent_file_is_empty_not_error() {
    let mut db = open_store();
    let present = make_file("present", b"present bytes");
    let absent = make_file("absent", b"absent bytes");
    tag_file(&mut db, &present, &strings(&["test"])).unwrap();
    assert_eq!(get_file_tags(&db, &absent).unwrap(), Vec::<String>::new());
}

#[test]
fn files_files_joined_tag() {
    let mut db = open_store();
    let file_1 = make_file("temp_tag_file_1", b"first file");
    let file_2 = make_file("temp_tag_file_2", b"second file");
    tag_file(&mut db, &file_1, &strings(&["test", "test2", "test3"])).unwrap();
    tag_file(&mut db, &file_2, &strings(&["test3", "test4", "test5"])).unwrap();
    assert_eq!(
        get_file_paths(&db, &strings(&["test3"])).unwrap(),
        strings(&["temp_tag_file_1", "temp_tag_file_2"])
    );
}

#[test]
fn files_files_left_tag() {
    let mut db = open_store();
    let file_1 = make_file("temp_tag_file_1", b"first file");
    let file_2 = make_file("temp_tag_file_2", b"second file");
    tag_file(&mut db, &file_1, &strings(&["test", "test2", "test3"])).unwrap();
    tag_file(&mut db, &file_2, &strings(&["test3", "test4", "test5"])).unwrap();
    assert_eq!(
        get_file_paths(&db, &strings(&["test", "test2"])).unwrap(),
        strings(&["temp_tag_file_1"])
    );
}

#[test]
fn files_files_right_tag() {
    let mut db = open_store();
    let file_1 = make_file("temp_tag_file_1", b"first file");
    let file_2 = make_file("temp_tag_file_2", b"second file");
    tag_file(&mut db, &file_1, &strings(&["test", "test2", "test3"])).unwrap();
    tag_file(&mut db, &file_2, &strings(&["test3", "test4", "test5"])).unwrap();
    assert_eq!(get_file_paths(&db, &strings(&["test4"])).unwrap(), strings(&["temp_tag_file_2"]));
}

#[test]
fn files_files_neither_tag() {
    let mut db = open_store();
    let file_1 = make_file("temp_tag_file_1", b"first file");
    let file_2 = make_file("temp_tag_file_2", b"second file");
    tag_file(&mut db, &file_1, &strings(&["test", "test2", "test3"])).unwrap();
    tag_file(&mut db, &file_2, &strings(&["test3", "test4", "test5"])).unwrap();
    assert_eq!(
        get_file_paths(&db, &strings(&["test", "test2", "test3", "test3", "test4", "test5"]))
            .unwrap(),
        Vec::<String>::new()
    );
    assert_eq!(get_file_paths(&db, &strings(&["test", "test4"])).unwrap(), Vec::<String>::new());
}

#[test]
fn files_get_all_files() {
    let mut db = open_store();
    let file_1 = make_file("temp_tag_file_1", b"first file");
    let file_2 = make_file("temp_tag_file_2", b"second file");
    tag_file(&mut db, &file_1, &strings(&["test", "test2", "test3"])).unwrap();
    tag_file(&mut db, &file_2, &strings(&["test3", "test4", "test5"])).unwrap();
    assert_eq!(get_files(&db).unwrap(), strings(&["temp_tag_file_1", "temp_tag_file_2"]));
}

#[test]
fn files_no_tags_specified() {
    let mut db = open_store();
    let file_1 = make_file("temp_tag_file_1", b"first file");
    tag_file(&mut db, &file_1, &strings(&["test"])).unwrap();
    let out = get_file_paths(&db, &Vec::new());
    assert!(matches!(out, Err(AppError::NoTagsSpecified)));
}

#[test]
fn files_unknown_tag_yields_empty() {
    let mut db = open_store();
    let file_1 = make_file("temp_tag_file_1", b"first file");
    tag_file(&mut db, &file_1, &strings(&["test"])).unwrap();
    assert_eq!(get_file_paths(&db, &strings(&["absent"])).unwrap(), Vec::<String>::new());
    assert_eq!(get_file_paths(&db, &strings(&["test", "absent"])).unwrap(), Vec::<String>::new());
}

#[test]
fn untag_delete_file_tag() {
    let mut db = open_store();
    let file = make_file("temp_tag_file_1", b"first file");
    tag_file(&mut db, &file, &strings(&["test", "test2", "test3"])).unwrap();
    untag_file(&mut db, &file, &strings(&["test2"])).unwrap();
    assert_eq!(get_file_tags(&db, &file).unwrap(), strings(&["test", "test3"]));
    assert_eq!(get_all_tags(&db).unwrap(), strings(&["test", "test2", "test3"]));
}

#[test]
fn untag_files_clean_after_delete_untag() {
    let mut db = open_store();
    let file = make_file("temp_tag_file_1", b"first file");
    tag_file(&mut db, &file, &strings(&["test", "test2", "test3"])).unwrap();
    assert_eq!(get_file_tags(&db, &file).unwrap(), strings(&["test", "test2", "test3"]));
    untag_file(&mut db, &file, &strings(&["test", "test2", "test3"])).unwrap();
    assert_eq!(get_file_tags(&db, &file).unwrap(), Vec::<String>::new());
    assert_eq!(get_files(&db).unwrap(), Vec::<String>::new());
    assert_eq!(get_file_paths(&db, &strings(&["test"])).unwrap(), Vec::<String>::new());
}

#[test]
fn untag_no_tag_tags() {
    let mut db = open_store();
    let file = make_file("temp_tag_file_1", b"first file");
    tag_file(&mut db, &file, &strings(&["test"])).unwrap();
    let out = untag_file(&mut db, &file, &Vec::new());
    assert!(matches!(out, Err(AppError::NoTagsSpecified)));
}

#[test]
fn no_such_file() {
    let mut db = open_store();
    let present = make_file("temp_tag_file_1", b"first file");
    let other = make_file("temp_tag_file_2", b"second file");
    tag_file(&mut db, &present, &strings(&["test"])).unwrap();
    let out = untag_file(&mut db, &other, &strings(&["test"]));
    assert!(matches!(out, Err(AppError::Database(DatabaseError::NoSuchFile))));
}

#[test]
fn no_such_tag_on_file() {
    let mut db = open_store();
    let file_1 = make_file("temp_tag_file_1", b"first file");
    let file_2 = make_file("temp_tag_file_2", b"second file");
    tag_file(&mut db, &file_1, &strings(&["test", "test2", "test3"])).unwrap();
    tag_file(&mut db, &file_2, &strings(&["test3", "test4", "test5"])).unwrap();
    let out = untag_file(&mut db, &file_1, &strings(&["test4"]));
    match out {
        Err(AppError::Database(DatabaseError::NoSuchTagOnFile(name))) => {
            assert_eq!(name, "test4");
        }
        other => panic!("unexpected result: {other:?}"),
    }
}

#[test]
fn untag_atomic_failure_keeps_known_tag() {
    let mut db = open_store();
    let file = make_file("temp_tag_file_1", b"first file");
    tag_file(&mut db, &file, &strings(&["known_tag"])).unwrap();
    let out = untag_file(&mut db, &file, &strings(&["known_tag", "unknown_tag"]));
    match out {
        Err(AppError::Database(DatabaseError::NoSuchTag(name))) => {
            assert_eq!(name, "unknown_tag");
        }
        other => panic!("unexpected result: {other:?}"),
    }
    assert_eq!(get_file_tags(&db, &file).unwrap(), strings(&["known_tag"]));
    assert_eq!(get_files(&db).unwrap(), vec![String::from("temp_tag_file_1")]);
}

#[test]
fn rm_tags_rm_tags() {
    let mut db = open_store();
    let file = make_file("temp_tag_file_1", b"first file");
    tag_file(&mut db, &file, &strings(&["test", "test2", "test3"])).unwrap();
    assert_eq!(get_file_tags(&db, &file).unwrap(), strings(&["test", "test2", "test3"]));
    rm_tags(&mut db, &strings(&["test", "test2", "test3"])).unwrap();
    assert_eq!(get_file_tags(&db, &file).unwrap(), Vec::<String>::new());
    assert_eq!(get_file_paths(&db, &strings(&["test"])).unwrap(), Vec::<String>::new());
    assert_eq!(get_files(&db).unwrap(), Vec::<String>::new());
}

#[test]
fn rm_tags_no_rm_tags_tags() {
    let mut db = open_store();
    let file = make_file("temp_tag_file_1", b"first file");
    tag_file(&mut db, &file, &strings(&["test"])).unwrap();
    let out = rm_tags(&mut db, &Vec::new());
    assert!(matches!(out, Err(AppError::NoTagsSpecified)));
}

#[test]
fn no_such_tag() {
    let mut db = open_store();
    let file = make_file("temp_tag_file_1", b"first file");
    tag_file(&mut db, &file, &strings(&["test", "test2", "test3"])).unwrap();
    let out = rm_tags(&mut db, &strings(&["random-tag"]));
    assert!(matches!(out, Err(AppError::Database(DatabaseError::NoSuchTag(_)))));
    assert_eq!(get_all_tags(&db).unwrap(), strings(&["test", "test2", "test3"]));
}

#[test]
fn rm_tags_shared_tag_cascade() {
    let mut db = open_store();
    let file_1 = make_file("temp_tag_file_1", b"first file");
    let file_2 = make_file("temp_tag_file_2", b"second file");
    tag_file(&mut db, &file_1, &strings(&["shared_tag"])).unwrap();
    tag_file(&mut db, &file_2, &strings(&["shared_tag", "own_tag"])).unwrap();
    rm_tags(&mut db, &strings(&["shared_tag"])).unwrap();
    assert_eq!(get_all_tags(&db).unwrap(), strings(&["own_tag"]));
    assert_eq!(get_files(&db).unwrap(), strings(&["temp_tag_file_2"]));
    assert_eq!(get_file_tags(&db, &file_2).unwrap(), strings(&["own_tag"]));
    assert_eq!(get_file_tags(&db, &file_1).unwrap(), Vec::<String>::new());
}

#[test]
fn rm_tags_atomicity_on_unknown_tag() {
    let mut db = open_store();
    let file = make_file("temp_tag_file_1", b"first file");
    tag_file(&mut db, &file, &strings(&["test", "test2"])).unwrap();
    let out = rm_tags(&mut db, &strings(&["test", "missing"]));
    assert!(matches!(out, Err(AppError::Database(DatabaseError::NoSuchTag(_)))));
    assert_eq!(get_all_tags(&db).unwrap(), strings(&["test", "test2"]));
    assert_eq!(get_file_tags(&db, &file).unwrap(), strings(&["test", "test2"]));
}

#[test]
fn tag_names_are_trimmed_at_the_boundary() {
    let mut db = open_store();
    let file = make_file("temp_tag_file_1", b"first file");
    tag_file(&mut db, &file, &strings(&["  spaced  "])).unwrap();
    assert_eq!(get_all_tags(&db).unwrap(), strings(&["spaced"]));
    tag_file(&mut db, &file, &strings(&["spaced"])).unwrap();
    assert_eq!(get_file_tags(&db, &file).unwrap(), strings(&["spaced"]));
    untag_file(&mut db, &file, &strings(&[" spaced "])).unwrap();
    assert_eq!(get_file_tags(&db, &file).unwrap(), Vec::<String>::new());
}

#[test]
fn open_missing_store_read_write_fails() {
    let out = Database::new(&DatabaseMode::ReadWrite, "/nonexistent/never/here.db");
    assert!(matches!(out, Err(DatabaseError::StoreNotFound)));
}

#[test]
fn open_missing_store_read_only_fails() {
    let out = Database::new(&DatabaseMode::Read, "/nonexistent/never/here.db");
    assert!(matches!(out, Err(DatabaseError::StoreNotFound)));
}
