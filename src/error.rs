use vstd::prelude::*;

verus! {

/// Every failure this library reports to its caller.
#[derive(Debug)]
pub enum Failure {
    /// The discovery query could not be sent, or listening for answers failed.
    Mdns(mdns::Error),
    /// A step of talking to a receiver failed.
    Cast(rust_cast::errors::Error),
}

} // verus!
