//! The secret key of the local network node, checked before the node is started.
use vstd::prelude::*;

verus! {

/// A secp256k1 secret key. Verus sees nothing inside it.
#[verifier::external_type_specification]
#[verifier::external_body]
pub struct ExSecretKey(secp256k1::SecretKey);

/// The error of the secp256k1 crate. Verus sees nothing inside it.
#[verifier::external_type_specification]
#[verifier::external_body]
pub struct ExSecpError(secp256k1::Error);

/// The order of the secp256k1 group: a secret key is a number from 1 to one less.
pub open spec fn secp256k1_order() -> nat {
    0xFFFF_FFFF_FFFF_FFFF_FFFF_FFFF_FFFF_FFFE_BAAE_DCE6_AF48_A03B_BFD2_5E8C_D036_4141nat
}

/// The number that the bytes `b` spell in big-endian order.
pub open spec fn be_value(b: Seq<u8>) -> nat
    decreases b.len(),
{
    if b.len() == 0 {
        0
    } else {
        (be_value(b.drop_last()) * 256 + b.last()) as nat
    }
}

/// Whether `b` is a valid secret key: 32 bytes that spell a number from 1 to one
/// less than the group order.
pub open spec fn is_valid_secret_key(b: Seq<u8>) -> bool {
    b.len() == 32 && 0 < be_value(b) < secp256k1_order()
}

/// The secret key that `SecretKey::from_secret_bytes` makes of the 32 bytes `bytes`:
/// it holds them as they are, so it is a function of the bytes alone.
pub uninterp spec fn secret_key_of(bytes: Seq<u8>) -> secp256k1::SecretKey;

/// Why a secret key was refused.
#[derive(Debug, PartialEq, Eq, Structural)]
pub enum KeyError {
    /// Not 32 bytes, zero, or not below the group order.
    InvalidSecretKey,
}

/// `secp256k1::SecretKey::from_secret_bytes` on the 32 bytes of `bytes`: `Ok`
/// exactly when they spell a number from 1 to one less than the group order, as its
/// documentation says ("when it is all-zeros or would exceed the curve order when
/// interpreted as a big-endian unsigned integer"), and the key it returns is the one
/// made of these bytes (`SecretKey(data)`).
#[verifier::external_body]
fn secret_key_from_bytes(bytes: &[u8]) -> (r: Result<secp256k1::SecretKey, secp256k1::Error>)
    requires
        bytes@.len() == 32,
    ensures
        r is Ok <==> 0 < be_value(bytes@) < secp256k1_order(),
        r matches Ok(k) ==> k == secret_key_of(bytes@),
{
    secp256k1::SecretKey::from_secret_bytes(bytes.try_into().unwrap())
}

/// Parses the configured secret key of the local node: `Ok` exactly when the bytes
/// are a valid secret key, and then the key made of those bytes; `Err(InvalidSecretKey)`
/// otherwise, so that no node is started with a bad key.
pub fn parse_secret_key(bytes: &[u8]) -> (r: Result<secp256k1::SecretKey, KeyError>)
    ensures
        r is Ok <==> is_valid_secret_key(bytes@),
        r matches Ok(k) ==> k == secret_key_of(bytes@),
        r is Err ==> r == Err::<secp256k1::SecretKey, KeyError>(KeyError::InvalidSecretKey),
{
    if bytes.len() != 32 {
        return Err(KeyError::InvalidSecretKey);
    }
    match secret_key_from_bytes(bytes) {
        Ok(key) => Ok(key),
        Err(_) => Err(KeyError::InvalidSecretKey),
    }
}

} // verus!
