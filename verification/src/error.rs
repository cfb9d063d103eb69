//! Error types: the general-purpose library error and the fixed set of
//! failure kinds a host call can report through its status word.

use vstd::prelude::*;

verus! {

/// General-purpose library error: a description and an optional cause.
#[derive(Debug)]
pub struct Error {
    description: String,
    source: Option<Box<Error>>,
}

impl Error {
    /// Builds an error from a message, with no underlying cause.
    pub fn new(message: &str) -> (r: Self)
        ensures
            r.desc() == message@,
            r.cause() is None,
    {
        Self { description: message.to_owned(), source: None }
    }

    /// The error message, as a mathematical character sequence.
    pub closed spec fn desc(&self) -> Seq<char> {
        self.description@
    }

    /// The underlying cause, if any.
    pub closed spec fn cause(&self) -> Option<Box<Error>> {
        self.source
    }

    /// Read access to the error message.
    pub fn description(&self) -> (r: &String)
        ensures
            r@ == self.desc(),
    {
        &self.description
    }
}

/// The failure kinds a host call can report, one per status-word category.
///
/// A status word whose category is unknown to this guest is reported as
/// `CallHttpRequest`, the generic call failure; it is never treated as
/// success.
#[derive(Clone, Copy, PartialEq, Eq, Structural, Debug)]
pub enum HostError {
    /// The host could not read the request bytes out of guest memory.
    ReadRawBytes,
    /// The host could not deserialize the request envelope.
    DeserializeBytes,
    /// The HTTP call itself failed; also the generic failure kind.
    CallHttpRequest,
    /// The host could not read the response from the remote peer.
    ReadResponse,
    /// The host could not access guest memory.
    MemoryAccess,
    /// The host failed while sending a request that carries a body.
    SendHttpRequest,
    /// The host could not serialize data of its own.
    SerializeData,
    /// The host could not grow guest memory for the response.
    GrowingMemory,
    /// The host could not write the response into guest memory.
    WritingMemory,
}

} // verus!
