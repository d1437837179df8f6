//! The kinds of failure a command can end in.

use vstd::prelude::*;

verus! {

/// Why a command did not complete.
#[derive(Clone, Copy, Debug, PartialEq, Eq, Structural)]
pub enum Error {
    /// The operator's input was malformed; nothing was transmitted.
    InvalidArgument,
    /// The connection failed or every attempt timed out.
    TransportError,
    /// A frame was malformed or carried an unknown tag.
    ProtocolError,
    /// The task slot does not permit the transition from its current state.
    InvalidState,
    /// The checksums disagreed after a transfer.
    IntegrityError,
    /// The device reported a failure of its own.
    DeviceError,
}

impl Error {
    /// The byte that stands for this kind on the wire.
    pub open spec fn spec_code(self) -> u8 {
        match self {
            Error::InvalidArgument => 1,
            Error::TransportError => 2,
            Error::ProtocolError => 3,
            Error::InvalidState => 4,
            Error::IntegrityError => 5,
            Error::DeviceError => 6,
        }
    }

    /// The kind a wire byte stands for, if any.
    pub open spec fn spec_from_code(code: u8) -> Option<Error> {
        if code == 1 {
            Some(Error::InvalidArgument)
        } else if code == 2 {
            Some(Error::TransportError)
        } else if code == 3 {
            Some(Error::ProtocolError)
        } else if code == 4 {
            Some(Error::InvalidState)
        } else if code == 5 {
            Some(Error::IntegrityError)
        } else if code == 6 {
            Some(Error::DeviceError)
        } else {
            None
        }
    }

    /// The byte that stands for this kind on the wire.
    #[verifier::when_used_as_spec(spec_code)]
    pub fn code(self) -> (c: u8)
        ensures
            c == self.spec_code(),
    {
        match self {
            Error::InvalidArgument => 1,
            Error::TransportError => 2,
            Error::ProtocolError => 3,
            Error::InvalidState => 4,
            Error::IntegrityError => 5,
            Error::DeviceError => 6,
        }
    }

    /// The kind a wire byte stands for, if any.
    #[verifier::when_used_as_spec(spec_from_code)]
    pub fn from_code(code: u8) -> (r: Option<Error>)
        ensures
            r == Error::spec_from_code(code),
    {
        if code == 1 {
            Some(Error::InvalidArgument)
        } else if code == 2 {
            Some(Error::TransportError)
        } else if code == 3 {
            Some(Error::ProtocolError)
        } else if code == 4 {
            Some(Error::InvalidState)
        } else if code == 5 {
            Some(Error::IntegrityError)
        } else if code == 6 {
            Some(Error::DeviceError)
        } else {
            None
        }
    }

    /// Every kind survives the trip through its wire byte, and no other byte
    /// is read as a kind.
    pub proof fn lemma_code_round_trip(self)
        ensures
            Error::spec_from_code(self.spec_code()) == Some(self),
            forall|c: u8| Error::spec_from_code(c) is Some ==> Error::spec_from_code(c)->0.spec_code() == c,
    {
    }
}

} // verus!
