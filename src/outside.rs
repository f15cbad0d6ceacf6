use vstd::prelude::*;

verus! {

/// The multicast-DNS client's error, carried through unchanged.
#[verifier::external_type_specification]
#[verifier::external_body]
pub struct ExMdnsError(mdns::Error);

/// The device-control client's error, carried through unchanged.
#[verifier::external_type_specification]
#[verifier::external_body]
pub struct ExCastError(rust_cast::errors::Error);

} // verus!
