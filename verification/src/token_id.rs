//! Token identifiers: the hexadecimal Keccak-256 digest of a domain tag and
//! a nonce.

use crate::hex::{hex_encode, hex_string};
use sha3::{Digest, Keccak256};
use vstd::bytes::{spec_u64_to_le_bytes, u64_to_le_bytes};
use vstd::prelude::*;

verus! {

/// The Keccak-256 digest of `data`.
pub uninterp spec fn keccak256(data: Seq<u8>) -> Seq<u8>;

/// Calls `sha3::Keccak256::digest`. Trusted: the bytes returned are the
/// Keccak-256 digest of `data`, a function of `data` alone. Nothing of this is
/// proved here; the hasher absorbs input of any length and does not fail.
#[verifier::external_body]
fn keccak256_digest(data: &[u8]) -> (digest: Vec<u8>)
    ensures
        digest@ == keccak256(data@),
{
    Keccak256::digest(data).to_vec()
}

/// The bytes hashed for the identifier with nonce `nonce`: the ASCII tag
/// `nft`, then the nonce as eight little-endian bytes.
pub open spec fn token_preimage(nonce: u64) -> Seq<u8> {
    seq![0x6eu8, 0x66u8, 0x74u8] + spec_u64_to_le_bytes(nonce)
}

/// The identifier derived from `nonce`.
pub open spec fn token_id(nonce: u64) -> Seq<char> {
    hex_string(keccak256(token_preimage(nonce)))
}

/// Derives the identifier for `nonce`.
pub fn derive_token_id(nonce: u64) -> (id: String)
    ensures
        id@ == token_id(nonce),
{
    let mut data: Vec<u8> = Vec::new();
    data.push(0x6e);
    data.push(0x66);
    data.push(0x74);
    let mut tail = u64_to_le_bytes(nonce);
    data.append(&mut tail);
    assert(data@ =~= token_preimage(nonce));
    let digest = keccak256_digest(data.as_slice());
    hex_encode(digest.as_slice())
}

} // verus!
