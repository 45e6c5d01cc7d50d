//! Storage keys of the pallet's items and of its storage version.

use crate::scale::{decode_u16, encode_u16, le_u16_bytes, le_u16_value};
use vstd::prelude::*;
use vstd::string::StringSliceAdditionalSpecFns;

verus! {

/// Name of the 128-bit xxHash of `data` (the `twox_128` of
/// sp-crypto-hashing): a function of the bytes alone.
pub uninterp spec fn twox_128(data: Seq<u8>) -> Seq<u8>;

/// `sp_crypto_hashing::twox_128`. The contract names its result
/// `twox_128(data@)` and states that it is 16 bytes long, as its array type
/// shows; the hash itself is not described.
#[verifier::external_body]
fn hash_twox_128(data: &[u8]) -> (r: Vec<u8>)
    ensures
        r@ == twox_128(data@),
        r@.len() == 16,
{
    sp_crypto_hashing::twox_128(data).to_vec()
}

/// Name of the votes storage item, as it is hashed into its key prefix.
pub open spec fn votes_repository_name() -> Seq<u8> {
    "VotesRepository".spec_bytes()
}

/// Postfix under which a pallet keeps its storage version.
pub open spec fn storage_version_name() -> Seq<u8> {
    ":__STORAGE_VERSION__:".spec_bytes()
}

/// Key prefix of a pallet's storage item: the hashes of the pallet name and of
/// the item name, one after the other.
pub open spec fn item_prefix(pallet_name: Seq<u8>, item_name: Seq<u8>) -> Seq<u8> {
    twox_128(pallet_name) + twox_128(item_name)
}

/// Key prefix of a pallet's storage item (`storage_prefix` of the runtime's
/// storage layer).
pub fn storage_prefix(pallet_name: &[u8], item_name: &[u8]) -> (r: Vec<u8>)
    ensures
        r@ == item_prefix(pallet_name@, item_name@),
        r@.len() == 32,
{
    let mut out = hash_twox_128(pallet_name);
    let mut tail = hash_twox_128(item_name);
    out.append(&mut tail);
    out
}

/// Prefix of all keys of the pallet's `VotesRepository` map.
pub fn votes_repository_prefix(pallet_name: &[u8]) -> (r: Vec<u8>)
    ensures
        r@ == item_prefix(pallet_name@, votes_repository_name()),
        r@.len() == 32,
{
    storage_prefix(pallet_name, "VotesRepository".as_bytes())
}

/// Key of the pallet's storage version.
pub fn storage_version_key(pallet_name: &[u8]) -> (r: Vec<u8>)
    ensures
        r@ == item_prefix(pallet_name@, storage_version_name()),
        r@.len() == 32,
{
    storage_prefix(pallet_name, ":__STORAGE_VERSION__:".as_bytes())
}

/// `prefix` is where `key` starts.
pub open spec fn has_prefix(key: Seq<u8>, prefix: Seq<u8>) -> bool {
    prefix.len() <= key.len() && key.take(prefix.len() as int) == prefix
}

/// Whether `key` starts with `prefix`.
pub fn starts_with(key: &[u8], prefix: &[u8]) -> (r: bool)
    ensures
        r == has_prefix(key@, prefix@),
{
    if prefix.len() > key.len() {
        return false;
    }
    let n = prefix.len();
    let mut i: usize = 0;
    while i < n
        invariant
            n == prefix@.len(),
            n <= key@.len(),
            i <= n,
            forall|j: int| 0 <= j < i ==> key@[j] == prefix@[j],
        decreases n - i,
    {
        if key[i] != prefix[i] {
            assert(key@.take(n as int)[i as int] != prefix@[i as int]);
            return false;
        }
        i = i + 1;
    }
    assert(key@.take(n as int) =~= prefix@);
    true
}

/// The storage version that a stored value stands for: an absent value, or
/// one that does not decode as a version, stands for version 0.
pub open spec fn stored_version(raw: Option<Seq<u8>>) -> u16 {
    match raw {
        Some(bytes) => if bytes.len() >= 2 {
            le_u16_value(bytes) as u16
        } else {
            0
        },
        None => 0,
    }
}

/// The pallet's storage version, from the value stored under its key.
pub fn on_chain_storage_version(raw: Option<&[u8]>) -> (r: u16)
    ensures
        r == stored_version(
            match raw {
                Some(b) => Some(b@),
                None => None,
            },
        ),
{
    match raw {
        None => 0,
        Some(bytes) => match decode_u16(bytes) {
            Some(v) => v,
            None => 0,
        },
    }
}

/// The value stored under the version key for `version`.
pub fn storage_version_value(version: u16) -> (r: Vec<u8>)
    ensures
        r@ == le_u16_bytes(version as int),
{
    encode_u16(version)
}

} // verus!
