//! The tagging service: the operations offered to the outside caller, and
//! the fingerprinting that identifies a file across renames and moves.
//!
//! Tag names are trimmed here, once, at the service boundary, before any
//! store lookup or creation, so a name and its trimmed form always resolve
//! to the same tag.
use vstd::prelude::*;

pub mod files;
pub mod rm_tags;
pub mod tag;
pub mod tags;
pub mod untag;

use sha2::Digest;

use crate::db::File;

verus! {

/// What `sha2::Sha256::digest` returns for these bytes: a value of the
/// input alone, the same in every process and on every machine.
pub uninterp spec fn sha256_of(bytes: Seq<u8>) -> Seq<u8>;

/// What digesting `"{contents_hash}_{path}"` with `sha2::Sha256` returns:
/// a value of the two arguments alone, the same in every process and on
/// every machine.
pub uninterp spec fn fingerprint_digest_of(contents_hash: Seq<char>, path: Seq<char>) -> Seq<u8>;

/// What `str::trim` returns for this string: the string without leading
/// and trailing whitespace, a value of the input alone.
pub uninterp spec fn trim_of(s: Seq<char>) -> Seq<char>;

/// Relies on `sha2::Sha256::digest`: the SHA-256 digest of the input, 32
/// bytes, depending on the input bytes alone.
#[verifier::external_body]
fn sha256_digest(bytes: &Vec<u8>) -> (r: Vec<u8>)
    ensures
        r@ == sha256_of(bytes@),
        r@.len() == 32,
{
    sha2::Sha256::digest(bytes.as_slice()).as_slice().to_vec()
}

/// Relies on `sha2::Sha256::digest` applied to the UTF-8 bytes of
/// `"{contents_hash}_{file_path_string}"`: 32 bytes depending on the two
/// strings alone.
#[verifier::external_body]
fn fingerprint_digest(contents_hash: &str, file_path_string: &str) -> (r: Vec<u8>)
    ensures
        r@ == fingerprint_digest_of(contents_hash@, file_path_string@),
        r@.len() == 32,
{
    let joined = format!("{contents_hash}_{file_path_string}");
    sha2::Sha256::digest(joined.as_bytes()).as_slice().to_vec()
}

/// Relies on `str::trim`: removes leading and trailing whitespace; the
/// result depends on the input alone.
#[verifier::external_body]
pub fn trim_name(s: &str) -> (r: String)
    ensures
        r@ == trim_of(s@),
{
    s.trim().to_owned()
}

/// Relies on `String::push`: appends one character to the string.
#[verifier::external_body]
fn push_char(s: &mut String, c: char)
    ensures
        final(s)@ == old(s)@.push(c),
{
    s.push(c);
}

/// The sixteen lower-case hexadecimal digits.
pub open spec fn hex_digit_spec(n: u8) -> char {
    if n == 0 {
        '0'
    } else if n == 1 {
        '1'
    } else if n == 2 {
        '2'
    } else if n == 3 {
        '3'
    } else if n == 4 {
        '4'
    } else if n == 5 {
        '5'
    } else if n == 6 {
        '6'
    } else if n == 7 {
        '7'
    } else if n == 8 {
        '8'
    } else if n == 9 {
        '9'
    } else if n == 10 {
        'a'
    } else if n == 11 {
        'b'
    } else if n == 12 {
        'c'
    } else if n == 13 {
        'd'
    } else if n == 14 {
        'e'
    } else {
        'f'
    }
}

/// The lower-case hexadecimal rendering of a byte string: two digits per
/// byte, high nibble first.
pub open spec fn hex_of(bytes: Seq<u8>) -> Seq<char>
    decreases bytes.len(),
{
    if bytes.len() == 0 {
        Seq::empty()
    } else {
        seq![hex_digit_spec(bytes[0] / 16), hex_digit_spec(bytes[0] % 16)] + hex_of(bytes.skip(1))
    }
}

/// The fingerprint string of a file: the hexadecimal SHA-256 digest of
/// `"{contents_hash}_{path}"`.
pub open spec fn fingerprint_of(contents_hash: Seq<char>, path: Seq<char>) -> Seq<char> {
    hex_of(fingerprint_digest_of(contents_hash, path))
}

/// The fingerprint a file with these bytes at this path resolves to.  It
/// is a function of the bytes and the path alone, so re-tagging the same
/// pair always reaches the same file record.
pub open spec fn file_fingerprint(contents: Seq<u8>, path: Seq<char>) -> Seq<char> {
    fingerprint_of(hex_of(sha256_of(contents)), path)
}

/// Appending a byte appends its two digits.
proof fn lemma_hex_of_push(bytes: Seq<u8>, x: u8)
    ensures
        hex_of(bytes.push(x)) == hex_of(bytes) + seq![
            hex_digit_spec(x / 16),
            hex_digit_spec(x % 16),
        ],
    decreases bytes.len(),
{
    if bytes.len() == 0 {
        assert(bytes.push(x).skip(1) =~= Seq::<u8>::empty());
        assert(hex_of(bytes.push(x).skip(1)) == Seq::<char>::empty());
        assert(bytes.push(x)[0] == x);
        assert(hex_of(bytes) == Seq::<char>::empty());
        assert(hex_of(bytes.push(x)) =~= hex_of(bytes) + seq![
            hex_digit_spec(x / 16),
            hex_digit_spec(x % 16),
        ]);
    } else {
        assert(bytes.push(x).skip(1) =~= bytes.skip(1).push(x));
        lemma_hex_of_push(bytes.skip(1), x);
        assert(hex_of(bytes.push(x)) =~= hex_of(bytes) + seq![
            hex_digit_spec(x / 16),
            hex_digit_spec(x % 16),
        ]);
    }
}

/// The rendering is two digits per byte.
proof fn lemma_hex_of_len(bytes: Seq<u8>)
    ensures
        hex_of(bytes).len() == 2 * bytes.len(),
    decreases bytes.len(),
{
    if bytes.len() > 0 {
        lemma_hex_of_len(bytes.skip(1));
    }
}

/// One lower-case hexadecimal digit.
fn hex_digit(n: u8) -> (c: char)
    requires
        n < 16,
    ensures
        c == hex_digit_spec(n),
{
    match n {
        0 => '0',
        1 => '1',
        2 => '2',
        3 => '3',
        4 => '4',
        5 => '5',
        6 => '6',
        7 => '7',
        8 => '8',
        9 => '9',
        10 => 'a',
        11 => 'b',
        12 => 'c',
        13 => 'd',
        14 => 'e',
        _ => 'f',
    }
}

/// Renders a byte string in lower-case hexadecimal, two digits per byte.
fn to_hex(bytes: &Vec<u8>) -> (r: String)
    ensures
        r@ == hex_of(bytes@),
{
    let mut out = String::new();
    let mut i: usize = 0;
    while i < bytes.len()
        invariant
            0 <= i <= bytes@.len(),
            out@ == hex_of(bytes@.take(i as int)),
        decreases bytes@.len() - i,
    {
        let b = bytes[i];
        let hi = hex_digit(b / 16);
        let lo = hex_digit(b % 16);
        push_char(&mut out, hi);
        push_char(&mut out, lo);
        proof {
            assert(bytes@.take(i + 1 as int) =~= bytes@.take(i as int).push(bytes@[i as int]));
            lemma_hex_of_push(bytes@.take(i as int), bytes@[i as int]);
            assert(out@ =~= hex_of(bytes@.take(i + 1 as int)));
        }
        i += 1;
    }
    proof {
        assert(bytes@.take(bytes@.len() as int) =~= bytes@);
    }
    out
}

/// The hexadecimal SHA-256 digest of the file's bytes: 64 lower-case hex
/// characters.
pub fn get_file_contents_hash(contents: &Vec<u8>) -> (r: String)
    ensures
        r@ == hex_of(sha256_of(contents@)),
        r@.len() == 64,
{
    let digest = sha256_digest(contents);
    proof {
        lemma_hex_of_len(digest@);
    }
    to_hex(&digest)
}

/// The fingerprint string derived from a contents digest and a path: 64
/// lower-case hex characters.
pub fn get_fingerprint_hash(contents_hash: &str, file_path_string: &str) -> (r: String)
    ensures
        r@ == fingerprint_of(contents_hash@, file_path_string@),
        r@.len() == 64,
{
    let digest = fingerprint_digest(contents_hash, file_path_string);
    proof {
        lemma_hex_of_len(digest@);
    }
    to_hex(&digest)
}

/// Builds the file record for the file at `path` with base name `name` and
/// these bytes: the contents digest and the fingerprint are derived here,
/// so equal bytes at an equal path always yield an equal fingerprint.
pub fn prepare_file_arg(path: &String, name: &String, contents: &Vec<u8>) -> (f: File)
    ensures
        f.path@ == path@,
        f.name@ == name@,
        f.contents_hash@ == hex_of(sha256_of(contents@)),
        f.contents_hash@.len() == 64,
        f.fingerprint_hash@ == file_fingerprint(contents@, path@),
        f.fingerprint_hash@.len() == 64,
{
    let contents_hash = get_file_contents_hash(contents);
    let fingerprint_hash = get_fingerprint_hash(contents_hash.as_str(), path.as_str());
    File { path: path.clone(), name: name.clone(), contents_hash, fingerprint_hash }
}

/// The trimmed forms of the given names, in order.
pub open spec fn trimmed(names: Seq<Seq<char>>) -> Seq<Seq<char>> {
    names.map_values(|n: Seq<char>| trim_of(n))
}

/// Trims every name, at the service boundary, before any store operation.
pub fn trim_names(names: &Vec<String>) -> (r: Vec<String>)
    ensures
        crate::db::names_of(r@) == trimmed(crate::db::names_of(names@)),
{
    let mut out: Vec<String> = Vec::new();
    let mut i: usize = 0;
    while i < names.len()
        invariant
            0 <= i <= names@.len(),
            out@.len() == i as int,
            forall|k: int| 0 <= k < i ==> #[trigger] out@[k]@ == trim_of(names@[k]@),
        decreases names@.len() - i,
    {
        let t = trim_name(names[i].as_str());
        out.push(t);
        i += 1;
    }
    proof {
        assert(crate::db::names_of(out@) =~= trimmed(crate::db::names_of(names@)));
    }
    out
}

} // verus!
