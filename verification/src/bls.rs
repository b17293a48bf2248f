//! BLS key pairs, held as bytes: a secret key in its serialised form, a public key
//! in its 48-byte compressed form. The curve arithmetic is `threshold_crypto`'s.
use vstd::prelude::*;

verus! {

/// The length of a public key's bytes (`threshold_crypto::PK_SIZE`).
pub const PK_SIZE: usize = 48;

/// The bytes of the public key of the secret key serialised in `sk` (by
/// `bincode`, through `threshold_crypto::serde_impl::SerdeSecret`), or `None`
/// when `sk` is not such a serialisation.
pub uninterp spec fn bls_public_key_of(sk: Seq<u8>) -> Option<Seq<u8>>;

/// Whether `threshold_crypto::PublicKey::from_bytes` accepts the bytes as a
/// compressed public key.
pub uninterp spec fn bls_public_key_valid(pk: Seq<u8>) -> bool;

/// The public key of a serialised secret key: deserialises it with
/// `bincode::deserialize` into `SerdeSecret<SecretKey>`, then takes
/// `SecretKey::public_key` and `PublicKey::to_bytes`. The contract names the
/// result (`bls_public_key_of`) and says that a public key has 48 bytes.
#[verifier::external_body]
pub(crate) fn public_key_of_secret(sk: &[u8]) -> (res: Option<Vec<u8>>)
    ensures
        match res {
            Some(pk) => bls_public_key_of(sk@) == Some(pk@) && pk@.len() == PK_SIZE,
            None => bls_public_key_of(sk@) is None,
        },
{
    match bincode::deserialize::<threshold_crypto::serde_impl::SerdeSecret<threshold_crypto::SecretKey>>(sk) {
        Ok(secret) => Some(secret.0.public_key().to_bytes().to_vec()),
        Err(_) => None,
    }
}

/// A new random key pair (`threshold_crypto::SecretKey::random`): the secret key
/// serialised with `bincode::serialize` through `SerdeSecret`, and the public
/// key's bytes (`PublicKey::to_bytes`); `None` if the serialisation fails. The
/// contract claims only that the public key is the one that the serialised
/// secret key gives back (`bls_public_key_of`), as the serde impls of
/// `threshold_crypto` write and read the same field element; the keys themselves
/// are left open.
#[verifier::external_body]
pub(crate) fn random_key_pair_bytes() -> (res: Option<(Vec<u8>, Vec<u8>)>)
    ensures
        res matches Some((sk, pk)) ==> bls_public_key_of(sk@) == Some(pk@) && pk@.len() == PK_SIZE,
{
    let sk = threshold_crypto::SecretKey::random();
    match bincode::serialize(&threshold_crypto::serde_impl::SerdeSecret(&sk)) {
        Ok(bytes) => Some((bytes, sk.public_key().to_bytes().to_vec())),
        Err(_) => None,
    }
}

/// Whether 48 bytes are a valid compressed public key
/// (`threshold_crypto::PublicKey::from_bytes` succeeds); named by
/// `bls_public_key_valid`.
#[verifier::external_body]
pub(crate) fn public_key_bytes_valid(pk: &[u8]) -> (res: bool)
    requires
        pk@.len() == PK_SIZE,
    ensures
        res == bls_public_key_valid(pk@),
{
    let mut bytes = [0u8; 48];
    bytes.copy_from_slice(pk);
    threshold_crypto::PublicKey::from_bytes(bytes).is_ok()
}

/// A random transfer id (`rand::RngCore::next_u64` on `rand::thread_rng`).
/// Nothing is stated of it.
#[verifier::external_body]
pub(crate) fn random_tx_id() -> u64 {
    rand::RngCore::next_u64(&mut rand::thread_rng())
}

} // verus!
