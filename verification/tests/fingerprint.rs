//! Tests of the fingerprinting primitives and the path-containment check.
use anytaggy::check_file_paths_for_subdirectory;
use anytaggy::commands::{get_file_contents_hash, get_fingerprint_hash, prepare_file_arg};
use sha2::{Digest, Sha256};

fn hex(bytes: &[u8]) -> String {
    let mut out = String::new();
    for b in bytes {
        out.push_str(&format!("{b:02x}"));
    }
    out
}

fn strings(names: &[&str]) -> Vec<String> {
    names.iter().map(|n| String::from(*n)).collect()
}

#[test]
fn contents_hash_of_empty_input() {
    let bytes: Vec<u8> = Vec::new();
    assert_eq!(
        get_file_contents_hash(&bytes),
        "e3b0c44298fc1c149afbf4c8996fb92427ae41e4649b934ca495991b7852b855"
    );
}

#[test]
fn contents_hash_matches_reference_digest() {
    let bytes: Vec<u8> = b"abc".to_vec();
    assert_eq!(
        get_file_contents_hash(&bytes),
        "ba7816bf8f01cfea414140de5dae2223b00361a396177a9cb410ff61f20015ad"
    );
    assert_eq!(get_file_contents_hash(&bytes), hex(&Sha256::digest(b"abc")));
}

#[test]
fn fingerprint_hash_digests_joined_string() {
    let got = get_fingerprint_hash("deadbeef", "some/path");
    assert_eq!(got, hex(&Sha256::digest(b"deadbeef_some/path")));
}

#[test]
fn fingerprint_stability() {
    let path = String::from("dir/file.txt");
    let name = String::from("file.txt");
    let contents: Vec<u8> = b"stable contents".to_vec();
    let first = prepare_file_arg(&path, &name, &contents);
    let second = prepare_file_arg(&path, &name, &contents);
    assert_eq!(first.fingerprint_hash, second.fingerprint_hash);
    assert_eq!(first.contents_hash, second.contents_hash);

    let other_contents: Vec<u8> = b"different contents".to_vec();
    let changed_bytes = prepare_file_arg(&path, &name, &other_contents);
    assert_ne!(first.fingerprint_hash, changed_bytes.fingerprint_hash);

    let other_path = String::from("dir/other.txt");
    let changed_path = prepare_file_arg(&other_path, &name, &contents);
    assert_ne!(first.fingerprint_hash, changed_path.fingerprint_hash);
}

#[test]
fn prepare_file_arg_fills_every_field() {
    let path = String::from("a/b/c.txt");
    let name = String::from("c.txt");
    let contents: Vec<u8> = b"xyz".to_vec();
    let file = prepare_file_arg(&path, &name, &contents);
    assert_eq!(file.path, "a/b/c.txt");
    assert_eq!(file.name, "c.txt");
    assert_eq!(file.contents_hash, hex(&Sha256::digest(b"xyz")));
    let joined = format!("{}_{}", file.contents_hash, file.path);
    assert_eq!(file.fingerprint_hash, hex(&Sha256::digest(joined.as_bytes())));
}

#[test]
fn subdirectory_check_accepts_children() {
    let parent = strings(&["home", "user", "store"]);
    let child = strings(&["home", "user", "store", "docs", "a.txt"]);
    assert!(check_file_paths_for_subdirectory(&parent, &child));
    assert!(check_file_paths_for_subdirectory(&parent, &parent.clone()));
}

#[test]
fn subdirectory_check_rejects_outsiders() {
    let parent = strings(&["home", "user", "store"]);
    let sibling = strings(&["home", "user", "other", "a.txt"]);
    let above = strings(&["home", "user"]);
    assert!(!check_file_paths_for_subdirectory(&parent, &sibling));
    assert!(!check_file_paths_for_subdirectory(&parent, &above));
}
