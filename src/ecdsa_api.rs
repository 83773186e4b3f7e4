use vstd::prelude::*;
use crate::codec::{hex_encode, hex_of};
use crate::types::{ECDSAPublicKey, EcdsaCurve, Network, SignWithECDSA, key_name};

verus! {

/// The fee, in cycles, attached to each signing request.
pub const SIGN_FEE: u64 = 10_000_000_000;

/// The request for the public key at a derivation path, with the network's
/// key set, on behalf of the calling service itself.
pub fn public_key_request(network: Network, derivation_path: Vec<Vec<u8>>) -> (r: ECDSAPublicKey)
    ensures
        r.canister_id is None,
        r.derivation_path@ == derivation_path@,
        r.key_id.curve == EcdsaCurve::Secp256k1,
        r.key_id.name@ == key_name(network),
{
    ECDSAPublicKey { canister_id: None, derivation_path, key_id: network.to_key_id() }
}

/// The request to sign a message digest with the key at a derivation path.
pub fn sign_request(network: Network, derivation_path: Vec<Vec<u8>>, message_hash: Vec<u8>) -> (r: SignWithECDSA)
    ensures
        r.message_hash@ == message_hash@,
        r.derivation_path@ == derivation_path@,
        r.key_id.curve == EcdsaCurve::Secp256k1,
        r.key_id.name@ == key_name(network),
{
    SignWithECDSA { message_hash, derivation_path, key_id: network.to_key_id() }
}

/// The hex form in which a public key is stored.
pub fn public_key_hex(public_key: &Vec<u8>) -> (r: String)
    ensures
        r@ == hex_of(public_key@),
{
    hex_encode(public_key.as_slice())
}

} // verus!
