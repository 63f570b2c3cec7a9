//! The node's own identity, by way of the `ed25519-dalek` crate.
use crate::hash::PeerId;
use vstd::prelude::*;

verus! {

/// The public key that belongs to a secret Ed25519 key.
pub uninterp spec fn ed25519_public_key(secret: Seq<u8>) -> Seq<u8>;

/// Derives the public key of a secret key.
///
/// Calls `ed25519_dalek::SigningKey::from_bytes` and its `verifying_key`, which
/// multiplies the base point of the curve by the clamped hash of the secret. The
/// contract names the result; it is a function of the 32 secret bytes alone.
#[verifier::external_body]
fn derive_public_key(secret: &[u8; 32]) -> (r: [u8; 32])
    ensures
        r@ == ed25519_public_key(secret@),
{
    ed25519_dalek::SigningKey::from_bytes(secret).verifying_key().to_bytes()
}

/// The identity under which a node with the given secret key is known.
pub fn node_identity(secret: &[u8; 32]) -> (r: PeerId)
    ensures
        r@ == ed25519_public_key(secret@),
{
    derive_public_key(secret)
}

} // verus!
