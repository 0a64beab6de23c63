use vstd::prelude::*;

use soroban_sdk::xdr::{FromXdr, ToXdr};

use crate::address::{is_address_encoding, AddressKey};

verus! {

#[verifier::external_type_specification]
#[verifier::external_body]
pub struct ExEnv(soroban_sdk::Env);

/// The SHA-256 digest of the XDR encoding of the pair `(token_0, token_1)`,
/// both given by their address encodings.
pub uninterp spec fn pair_salt_spec(token_0: Seq<u8>, token_1: Seq<u8>) -> Seq<u8>;

/// Calls `Crypto::sha256` on the XDR encoding of the pair of addresses whose
/// encodings are given (decoded with `FromXdr::from_xdr`, which accepts every
/// address encoding, and encoded with `ToXdr::to_xdr` as a tuple). Claimed:
/// the digest is `pair_salt_spec` of the two encodings and has 32 bytes. The
/// host's budget is not part of the contract.
#[verifier::external_body]
fn hash_pair_encoding(env: &soroban_sdk::Env, token_0: &Vec<u8>, token_1: &Vec<u8>) -> (r: Vec<u8>)
    requires
        is_address_encoding(token_0@),
        is_address_encoding(token_1@),
    ensures
        r@ == pair_salt_spec(token_0@, token_1@),
        r@.len() == 32,
{
    let a = soroban_sdk::Address::from_xdr(env, &soroban_sdk::Bytes::from_slice(env, token_0)).expect("address encoding");
    let b = soroban_sdk::Address::from_xdr(env, &soroban_sdk::Bytes::from_slice(env, token_1)).expect("address encoding");
    let digest: [u8; 32] = env.crypto().sha256(&(a, b).to_xdr(env)).into();
    digest.to_vec()
}

/// The salt under which the pool of the tokens `token_0` and `token_1`, in
/// that order, is deployed.
pub fn pair_salt(env: &soroban_sdk::Env, token_0: &AddressKey, token_1: &AddressKey) -> (r: Vec<u8>)
    requires
        is_address_encoding(token_0@),
        is_address_encoding(token_1@),
    ensures
        r@ == pair_salt_spec(token_0@, token_1@),
        r@.len() == 32,
{
    hash_pair_encoding(env, token_0.bytes(), token_1.bytes())
}

} // verus!
