use vstd::bytes::spec_u32_to_le_bytes;
use vstd::prelude::*;

verus! {

/// The error type of `bincode`, carried through as an opaque value.
#[verifier::external_type_specification]
#[verifier::external_body]
pub struct ExBincodeErrorKind(bincode::ErrorKind);

/// Calls `bincode::serialize` on a `u32`. Trusted: the call writes into a growable
/// buffer with no size limit, so it succeeds, and with the fixed-width little-endian
/// integer encoding that `bincode::serialize` configures it yields the four bytes of
/// `value`, least significant first.
#[verifier::external_body]
pub(crate) fn serialize_u32(value: u32) -> (encoded: Result<Vec<u8>, Box<bincode::ErrorKind>>)
    ensures
        encoded is Ok,
        encoded.unwrap()@ == spec_u32_to_le_bytes(value),
{
    bincode::serialize(&value)
}

/// Calls `bincode::serialize` on an array of 32 bytes. Trusted: a fixed-size array is
/// written element by element with no length prefix, into a growable buffer with no
/// size limit, so the call succeeds and yields the 32 bytes unchanged.
#[verifier::external_body]
pub(crate) fn serialize_bytes32(value: &[u8; 32]) -> (encoded: Result<
    Vec<u8>,
    Box<bincode::ErrorKind>,
>)
    ensures
        encoded is Ok,
        encoded.unwrap()@ == value@,
{
    bincode::serialize(value)
}

/// Calls `bincode::deserialize` for an array of 32 bytes. Trusted: the array is read
/// as 32 single bytes from the front of the input, bytes after them are ignored, and
/// an input shorter than 32 bytes is an error.
#[verifier::external_body]
pub(crate) fn deserialize_bytes32(bytes: &[u8]) -> (decoded: Result<
    [u8; 32],
    Box<bincode::ErrorKind>,
>)
    ensures
        decoded is Ok <==> bytes@.len() >= 32,
        decoded is Ok ==> decoded.unwrap()@ == bytes@.subrange(0, 32),
{
    bincode::deserialize(bytes)
}

} // verus!
