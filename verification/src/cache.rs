//! The parse cache: its entries, and the key that names an entry.

use vstd::prelude::*;
use crate::ir::{Edge, Node};
use crate::text::{decimal, same_text, to_owned_string};
use vstd::string::StringSliceAdditionalSpecFns;

verus! {

/// One cached parse of a source file.
#[derive(Debug, Clone, PartialEq)]
pub struct CacheEntry {
    /// The key this entry is stored under.
    pub cache_key: String,
    /// The path of the source file.
    pub file_path: String,
    /// The version of the program that wrote the entry.
    pub codeviz_version: String,
    /// The nodes parsed from the file.
    pub nodes: Vec<Node>,
    /// The edges parsed from the file.
    pub edges: Vec<Edge>,
}

/// Where cache entries are kept, and for which version.
#[derive(Debug, Clone, PartialEq)]
pub struct CacheManager {
    /// The directory of the cache entries.
    pub cache_dir: String,
    /// The version of the running program.
    pub version: String,
}

/// The SHA-256 digest of the bytes.
pub uninterp spec fn sha256(data: Seq<u8>) -> Seq<u8>;

/// The SHA-256 digest of the bytes (`sha2::Sha256::digest`): 32 bytes, a function of the
/// bytes alone.
#[verifier::external_body]
fn sha256_digest(data: &[u8]) -> (r: Vec<u8>)
    ensures
        r@ == sha256(data@),
        r@.len() == 32,
{
    <sha2::Sha256 as sha2::Digest>::digest(data).to_vec()
}

/// The lower case hexadecimal digit of a number below sixteen.
pub open spec fn hex_digit(d: nat) -> char {
    if d < 10 { ((48 + d) as u32) as char } else { ((87 + d) as u32) as char }
}

/// The lower case hexadecimal text of the bytes, two digits a byte, high digit first.
pub open spec fn hex_text(b: Seq<u8>) -> Seq<char>
    decreases b.len(),
{
    if b.len() == 0 {
        seq![]
    } else {
        hex_text(b.drop_last()) + seq![hex_digit((b.last() / 16) as nat), hex_digit((b.last() % 16) as nat)]
    }
}

/// The bytes in lower case hexadecimal (`hex::encode`).
#[verifier::external_body]
fn hex_encode(data: &[u8]) -> (r: String)
    ensures
        r@ == hex_text(data@),
{
    hex::encode(data)
}

/// The decimal digits of a 128-bit number.
fn decimal_u128(n: u128) -> (r: Vec<u8>)
    ensures
        r@ == decimal(n as nat).map_values(|c: char| c as u8),
    decreases n,
{
    if n < 10 {
        let mut v: Vec<u8> = Vec::new();
        v.push(48 + (n as u8));
        proof {
            assert(decimal(n as nat) == seq![crate::text::digit_char(n as nat)]);
        }
        assert(v@ =~= decimal(n as nat).map_values(|c: char| c as u8));
        v
    } else {
        let mut v = decimal_u128(n / 10);
        let d = (n % 10) as u8;
        v.push(48 + d);
        let ghost prev = decimal((n / 10) as nat);
        assert(decimal(n as nat) == prev.push(crate::text::digit_char((n % 10) as nat)));
        assert(v@ =~= decimal(n as nat).map_values(|c: char| c as u8));
        v
    }
}

/// The bytes that the cache key hashes: the path, the modification time in nanoseconds
/// and the size in decimal, and the contents, separated by '|'.
pub open spec fn key_material(path_bytes: Seq<u8>, mtime_nanos: u128, size: u64, contents: Seq<u8>) -> Seq<u8> {
    path_bytes + seq![124u8] + decimal(mtime_nanos as nat).map_values(|c: char| c as u8) + seq![124u8]
        + decimal(size as nat).map_values(|c: char| c as u8) + seq![124u8] + contents
}

impl CacheManager {
    /// Whether a stored entry may stand for a file whose key is now `key`: this version
    /// wrote it, under that key.
    pub fn entry_is_current(&self, entry: &CacheEntry, key: &str) -> (r: bool)
        ensures
            r == (entry.codeviz_version@ == self.version@ && entry.cache_key@ == key@),
    {
        same_text(&entry.codeviz_version, &self.version) && same_text(&entry.cache_key, &to_owned_string(key))
    }

    /// Creates a manager for the directory and the program version.
    pub fn new(cache_dir: &str, version: &str) -> (r: Self)
        ensures
            r.cache_dir@ == cache_dir@,
            r.version@ == version@,
    {
        CacheManager { cache_dir: to_owned_string(cache_dir), version: to_owned_string(version) }
    }

    /// The key of a source file's entry: the SHA-256 digest, in hexadecimal, of its path
    /// (as UTF-8), its modification time, its size and its contents.
    pub fn cache_key_of(&self, path: &str, mtime_nanos: u128, size: u64, contents: &[u8]) -> (r: String)
        ensures
            r@ == hex_text(sha256(key_material(path.spec_bytes(), mtime_nanos, size, contents@))),
    {
        let mut material: Vec<u8> = Vec::new();
        let pb = path.as_bytes();
        let mut i: usize = 0;
        while i < pb.len()
            invariant
                i <= pb@.len(),
                material@ == pb@.take(i as int),
            decreases pb@.len() - i,
        {
            material.push(pb[i]);
            assert(pb@.take(i + 1) =~= pb@.take(i as int).push(pb@[i as int]));
            i = i + 1;
        }
        assert(pb@.take(pb@.len() as int) =~= pb@);
        material.push(124u8);
        let t = decimal_u128(mtime_nanos);
        let mut j: usize = 0;
        let ghost m0 = material@;
        while j < t.len()
            invariant
                j <= t@.len(),
                material@ == m0 + t@.take(j as int),
            decreases t@.len() - j,
        {
            material.push(t[j]);
            assert(t@.take(j + 1) =~= t@.take(j as int).push(t@[j as int]));
            j = j + 1;
        }
        assert(t@.take(t@.len() as int) =~= t@);
        material.push(124u8);
        let z = decimal_u128(size as u128);
        let mut j: usize = 0;
        let ghost m1 = material@;
        while j < z.len()
            invariant
                j <= z@.len(),
                material@ == m1 + z@.take(j as int),
            decreases z@.len() - j,
        {
            material.push(z[j]);
            assert(z@.take(j + 1) =~= z@.take(j as int).push(z@[j as int]));
            j = j + 1;
        }
        assert(z@.take(z@.len() as int) =~= z@);
        material.push(124u8);
        let mut j: usize = 0;
        let ghost m2 = material@;
        while j < contents.len()
            invariant
                j <= contents@.len(),
                material@ == m2 + contents@.take(j as int),
            decreases contents@.len() - j,
        {
            material.push(contents[j]);
            assert(contents@.take(j + 1) =~= contents@.take(j as int).push(contents@[j as int]));
            j = j + 1;
        }
        assert(contents@.take(contents@.len() as int) =~= contents@);
        assert(material@ =~= key_material(path.spec_bytes(), mtime_nanos, size, contents@));
        let digest = sha256_digest(material.as_slice());
        hex_encode(digest.as_slice())
    }
}

} // verus!
