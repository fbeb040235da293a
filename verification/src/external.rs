//! The calls this library makes into std and outside crates that Verus has no
//! specification for, each with the contract that is trusted of it.
use std::hash::BuildHasher;
use vstd::prelude::*;
use crate::text::{ascii_lowercase, is_ascii_chars};

verus! {

/// `serde_json::Value`, carried opaquely as the payload type of simple responses.
#[verifier::external_type_specification]
#[verifier::external_body]
pub struct ExJsonValue(serde_json::Value);

/// What `str::to_lowercase` gives for the characters `s`: the Unicode
/// lower-case mapping, which depends on `s` alone.
pub uninterp spec fn unicode_lowercase(s: Seq<char>) -> Seq<char>;

/// Calls `str::to_lowercase`. Trusted: the result is `unicode_lowercase` of
/// the argument's characters, and for ASCII text it is that text with `A`-`Z`
/// turned to `a`-`z` (what std documents and does for ASCII); nothing more is
/// stated of the Unicode tables.
#[verifier::external_body]
pub fn to_lowercase(s: &str) -> (r: String)
    ensures
        r@ == unicode_lowercase(s@),
        is_ascii_chars(s@) ==> r@ == ascii_lowercase(s@),
{
    s.to_lowercase()
}

/// What a fresh `std::hash::DefaultHasher` (as `DefaultHasher::new` makes it,
/// with no random seed) finishes with after hashing the string `name` and then
/// the `u32` `index`. `DefaultHasher::new` takes no random seed, so this
/// depends on these values alone for a given build of the program on a given
/// target (std may change the algorithm between releases, and the `u32` is
/// hashed in native byte order); the algorithm itself is left unstated.
pub uninterp spec fn default_hash_of_name_and_index(name: Seq<char>, index: u32) -> u64;

/// Calls `BuildHasher::hash_one` of `BuildHasherDefault<DefaultHasher>` on
/// the pair `(name, index)`, which hashes `name` then `index` with a fresh
/// `DefaultHasher` and finishes. Trusted: the result is
/// `default_hash_of_name_and_index` of the arguments.
#[verifier::external_body]
pub fn hash_name_and_index(name: &str, index: u32) -> (r: u64)
    ensures
        r == default_hash_of_name_and_index(name@, index),
{
    std::hash::BuildHasherDefault::<std::hash::DefaultHasher>::default().hash_one((name, index))
}

/// The `key=value` pairs that `serde_urlencoded::from_bytes` decodes from a
/// form-encoded body, in order, or `None` where it refuses the body; a function
/// of the bytes alone.
pub uninterp spec fn form_pairs_of(body: Seq<u8>) -> Option<Seq<(Seq<char>, Seq<char>)>>;

/// Calls `serde_urlencoded::from_bytes` into a vector of string pairs, its
/// error mapped to `None`. Trusted: the result is `form_pairs_of` of the body;
/// the decoding itself (percent-escapes, `+` for space) is left unstated.
#[verifier::external_body]
pub fn decode_form(body: &[u8]) -> (r: Option<Vec<(String, String)>>)
    ensures
        r.deep_view() == form_pairs_of(body@),
{
    serde_urlencoded::from_bytes::<Vec<(String, String)>>(body).ok()
}

} // verus!
