//! The checksum that ties a snapshot to its realm, revision and operation.

use crate::realm;
use crate::realm::RealmId;
use crate::text;
use crate::text::{push_little_endian, push_utf8, to_hex};
use vstd::prelude::*;
use vstd::utf8;

verus! {

/// The SHA-256 digest of a message: what `sha2::Sha256::digest` gives.
pub uninterp spec fn sha256(message: Seq<u8>) -> Seq<u8>;

/// `sha2::Sha256::digest` gives the 32 bytes of the SHA-256 digest.
#[verifier::external_body]
pub(crate) fn sha256_digest(message: &[u8]) -> (bytes: Vec<u8>)
    ensures
        bytes@ == sha256(message@),
        bytes@.len() == 32,
{
    <sha2::Sha256 as sha2::Digest>::digest(message).to_vec()
}

/// The bytes under a checksum: the realm's storage key, the revision in eight
/// bytes, least significant first, the operation and the state's text, with a
/// zero byte between each and the next.
pub open spec fn checksum_message(
    key: Seq<char>,
    revision: u64,
    operation: Seq<char>,
    state_json: Seq<char>,
) -> Seq<u8> {
    utf8::encode_utf8(key) + seq![0u8] + text::little_endian(revision as nat, 8) + seq![0u8] + utf8::encode_utf8(
        operation,
    ) + seq![0u8] + utf8::encode_utf8(state_json)
}

/// The checksum of a snapshot: the lower-case hexadecimal SHA-256 digest of its
/// message.
pub open spec fn checksum_text(
    key: Seq<char>,
    revision: u64,
    operation: Seq<char>,
    state_json: Seq<char>,
) -> Seq<char> {
    text::hex(sha256(checksum_message(key, revision, operation, state_json)))
}

/// The checksum of a snapshot.
pub fn checksum(realm_id: &RealmId, revision: u64, operation: &str, state_json: &str) -> (sum: String)
    ensures
        sum@ == checksum_text(realm::storage_key(realm_id@), revision, operation@, state_json@),
        sum@.len() == 64,
{
    let key = realm_id.storage_key();
    let mut message: Vec<u8> = Vec::new();
    push_utf8(&mut message, key.as_str());
    message.push(0);
    push_little_endian(&mut message, revision);
    message.push(0);
    push_utf8(&mut message, operation);
    message.push(0);
    push_utf8(&mut message, state_json);
    assert(message@ =~= checksum_message(key@, revision, operation@, state_json@));
    let digest = sha256_digest(message.as_slice());
    to_hex(digest.as_slice())
}

} // verus!
