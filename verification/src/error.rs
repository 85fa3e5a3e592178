//! The protocol-level failures, and their host-visible numeric codes.
use vstd::prelude::*;

verus! {

/// Every failure the registry and the voting protocol can report.
///
/// Backend failures (serialization, content-store access, a missing root)
/// are collapsed into [`Error::Storage`], which carries the backend's own
/// numeric code verbatim.
#[derive(Clone, Copy, Debug, PartialEq, Eq, Structural)]
pub enum Error {
    /// The reporter already voted for this subject within the active window.
    AlreadyVoted,
    /// An inbound payload failed to decode into the expected parameter shape.
    CannotDeserialize,
    /// The caller is not the stored creator of the record being mutated.
    NotOwner,
    /// A removal targeted a record absent from the collection.
    NotExists,
    /// An offline report came from a peer that is not a checker.
    NotCaller,
    /// An underlying persistence failure, surfaced verbatim by its code.
    Storage(u32),
}

impl Error {
    /// The stable numeric code the host expects on abort.
    pub fn code(&self) -> (r: u32)
        ensures
            r == self.spec_code(),
    {
        match self {
            Error::AlreadyVoted => 10002,
            Error::CannotDeserialize => 10003,
            Error::NotOwner => 10009,
            Error::NotExists => 10010,
            Error::NotCaller => 10011,
            Error::Storage(c) => *c,
        }
    }

    pub open spec fn spec_code(&self) -> u32 {
        match self {
            Error::AlreadyVoted => 10002,
            Error::CannotDeserialize => 10003,
            Error::NotOwner => 10009,
            Error::NotExists => 10010,
            Error::NotCaller => 10011,
            Error::Storage(c) => *c,
        }
    }

    /// An optional human-readable diagnostic for the host.
    pub fn msg(&self) -> (r: String)
        ensures
            r@ == Seq::<char>::empty(),
    {
        String::new()
    }
}

} // verus!
