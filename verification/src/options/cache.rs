//! The cache key of the option index: the SHA-256 digest of `flake.lock`,
//! and the cache file names derived from it.
use vstd::prelude::*;
use vstd::string::*;
use crate::text::{chars_of, push_all, string_from};
use crate::options::types::OptionIndex;

verus! {

/// Errors of cache reads and writes.
#[derive(Debug)]
pub enum CacheError {
    /// An I/O error, by its message.
    IoError(String),
    /// The hash stored in the cache file is not the expected one.
    HashMismatch,
}

/// The display text of a cache error.
pub open spec fn cache_error_text(e: CacheError) -> Seq<char> {
    match e {
        CacheError::IoError(m) => "cache I/O error: "@ + m@,
        CacheError::HashMismatch => "cache hash mismatch"@,
    }
}

impl CacheError {
    /// The error's display text.
    pub fn message(&self) -> (r: String)
        ensures
            r@ == cache_error_text(*self),
    {
        match self {
            CacheError::IoError(m) => {
                let mut r = String::from_str("cache I/O error: ");
                r.append(m.as_str());
                r
            },
            CacheError::HashMismatch => String::from_str("cache hash mismatch"),
        }
    }
}

/// The SHA-256 digest of `data`, as `sha2` computes it.
pub uninterp spec fn sha256(data: Seq<u8>) -> Seq<u8>;

/// `sha2::Sha256::digest`: the 32-byte SHA-256 digest of `data`.
#[verifier::external_body]
fn sha256_digest(data: &[u8]) -> (r: Vec<u8>)
    ensures
        r@ == sha256(data@),
        r@.len() == 32,
{
    <sha2::Sha256 as sha2::Digest>::digest(data).to_vec()
}

/// The lowercase hexadecimal digit of `d` (below 16).
pub open spec fn hex_digit(d: u8) -> char {
    if d < 10 {
        (48u8 + d) as char
    } else {
        (97u8 + d - 10) as char
    }
}

/// `bytes` in lowercase hexadecimal, two digits per byte.
pub open spec fn hex(bytes: Seq<u8>) -> Seq<char>
    decreases bytes.len(),
{
    if bytes.len() == 0 {
        Seq::<char>::empty()
    } else {
        hex(bytes.drop_last()) + seq![hex_digit(bytes.last() / 16), hex_digit(bytes.last() % 16)]
    }
}

fn hex_digit_exec(d: u8) -> (c: char)
    requires
        d < 16,
    ensures
        c == hex_digit(d),
{
    if d < 10 {
        (48u8 + d) as char
    } else {
        (97u8 + d - 10) as char
    }
}

/// The SHA-256 digest of the contents of `flake.lock`, in lowercase hex.
pub fn hash_flake_lock_bytes(contents: &[u8]) -> (r: String)
    ensures
        r@ == hex(sha256(contents@)),
{
    let digest = sha256_digest(contents);
    let mut out: Vec<char> = Vec::new();
    for i in 0..digest.len()
        invariant
            digest@ == sha256(contents@),
            out@ == hex(digest@.take(i as int)),
    {
        assert(digest@.take(i + 1).drop_last() =~= digest@.take(i as int));
        let b = digest[i];
        out.push(hex_digit_exec(b / 16));
        out.push(hex_digit_exec(b % 16));
        assert(out@ =~= hex(digest@.take(i as int)) + seq![hex_digit(b / 16), hex_digit(b % 16)]);
    }
    assert(digest@.take(digest@.len() as int) =~= digest@);
    string_from(&out)
}

/// The cache file name of the NixOS option index for a lock hash:
/// `options-<hash>.json`.
pub fn cache_file_name(hash: &str) -> (r: String)
    ensures
        r@ == "options-"@ + hash@ + ".json"@,
{
    let mut r = String::from_str("options-");
    r.append(hash);
    r.append(".json");
    r
}

/// The cache file name of the Home Manager option index for a lock hash:
/// `hm-options-<hash>.json`.
pub fn hm_cache_file_name(hash: &str) -> (r: String)
    ensures
        r@ == "hm-options-"@ + hash@ + ".json"@,
{
    let mut r = String::from_str("hm-options-");
    r.append(hash);
    r.append(".json");
    r
}

/// A cached index read back from disk, kept only if it was built from the
/// expected lock hash (guarding against a corrupted or recycled file).
pub fn accept_cached(index: OptionIndex, expected_hash: &str) -> (r: Option<OptionIndex>)
    ensures
        r is Some <==> index.flake_lock_hash@ == expected_hash@,
        r matches Some(i) ==> i == index,
{
    let e = String::from_str(expected_hash);
    if index.flake_lock_hash == e {
        Some(index)
    } else {
        None
    }
}

/// Whether a valid cached index exists for the current `flake.lock`: its
/// hash could be computed (`lock_hash`) and a cached index was read back
/// (`cached`) that was built from that hash.
pub fn is_valid(lock_hash: Option<&str>, cached: Option<OptionIndex>) -> (r: bool)
    ensures
        r == (lock_hash matches Some(h) && cached matches Some(i) && i.flake_lock_hash@ == h@),
{
    match lock_hash {
        None => false,
        Some(h) => match cached {
            None => false,
            Some(i) => accept_cached(i, h).is_some(),
        },
    }
}

} // verus!
