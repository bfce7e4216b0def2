//! X25519 keys: agreement, derivation and erasure.

use vstd::prelude::*;
use zeroize::Zeroize;

verus! {

/// The X25519 function of RFC 7748 on a scalar and a point, each of
/// thirty-two bytes.
pub uninterp spec fn x25519_shared(sk: Seq<u8>, pk: Seq<u8>) -> Seq<u8>;

/// The X25519 public key of a secret key.
pub uninterp spec fn x25519_public(sk: Seq<u8>) -> Seq<u8>;

/// `x25519_dalek::x25519`: the shared secret of a secret key and a public key,
/// which depends on the two alone.
#[verifier::external_body]
pub(crate) fn x25519(sk: [u8; 32], pk: [u8; 32]) -> (shared: [u8; 32])
    ensures
        shared@ == x25519_shared(sk@, pk@),
{
    x25519_dalek::x25519(sk, pk)
}

/// `x25519_dalek::PublicKey::from` on a `StaticSecret`: the public key, which
/// depends on the secret key alone.
#[verifier::external_body]
fn derive_public(sk: [u8; 32]) -> (pk: [u8; 32])
    ensures
        pk@ == x25519_public(sk@),
{
    x25519_dalek::PublicKey::from(&x25519_dalek::StaticSecret::from(sk)).to_bytes()
}

/// `zeroize` on an array of bytes: every byte becomes zero.
#[verifier::external_body]
pub(crate) fn erase(key: &mut [u8; 32])
    ensures
        final(key)@ == Seq::new(32, |i: int| 0u8),
    opens_invariants none
    no_unwind
{
    key.zeroize();
}

/// The public key of an X25519 secret key.
pub fn public_key(sk: &[u8; 32]) -> (pk: [u8; 32])
    ensures
        pk@ == x25519_public(sk@),
{
    derive_public(*sk)
}

/// A public key is that of the secret key, the same for the same secret key.
pub proof fn a_public_key_is_its_secrets(sk: &[u8; 32], pk: [u8; 32])
    requires
        call_ensures(public_key, (sk,), pk),
    ensures
        pk@ == x25519_public(sk@),
{
}

} // verus!
