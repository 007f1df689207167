//! What the core takes from other crates. Verus reads none of their code:
//! it believes what is declared here.

use vstd::prelude::*;
use tokio_util::bytes::Bytes;
use uuid::Uuid;

verus! {

/// `uuid::Uuid`, carried through as an opaque value.
#[verifier::external_type_specification]
#[verifier::external_body]
pub struct ExUuid(Uuid);

/// `bytes::Bytes`, which `tokio_util` hands on: an opaque run of bytes.
#[verifier::external_type_specification]
#[verifier::external_body]
pub struct ExBytes(Bytes);

/// The bytes that a `Bytes` value holds, first to last.
pub uninterp spec fn bytes_contents(b: Bytes) -> Seq<u8>;

/// `Bytes::as_ref`: the slice that it returns is the bytes that the value
/// holds.
#[verifier::external_body]
pub(crate) fn bytes_as_slice(msg: &Bytes) -> (s: &[u8])
    ensures
        s@ == bytes_contents(*msg),
{
    msg.as_ref()
}

/// `Uuid::eq`: it answers `true` exactly for two equal identifiers.
#[verifier::external_body]
pub(crate) fn uuid_eq(a: &Uuid, b: &Uuid) -> (r: bool)
    ensures
        r == (*a == *b),
{
    a.eq(b)
}

/// `rand::random`, asked for a `u32`. Nothing is claimed of the number that
/// comes back.
#[verifier::external_body]
pub(crate) fn random_peer_id() -> u32 {
    rand::random()
}

} // verus!
