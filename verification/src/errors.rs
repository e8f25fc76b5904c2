//! The closed set of errors reported at the library's boundaries.

use vstd::prelude::*;

verus! {

/// An error observed at one of the library's boundaries.
///
/// Transport errors are recoverable (logged and ignored); only startup
/// errors are fatal to the caller.
pub enum Error {
    /// A configuration file could not be parsed; the path is carried along.
    CouldNotParseConfig(String),
    /// A configuration file could not be read; the path is carried along.
    CouldNotReadConfig(String),
    /// A datagram could not be received.
    CouldNotRecvMessage,
    /// A message could not be sent.
    CouldNotSendMessage,
    /// The listening socket could not be bound.
    CouldNotStartListener,
    /// A received datagram failed to decode; the raw bytes are carried along.
    InvalidPacket(Vec<u8>),
}

impl Error {
    /// A short, fixed description of each error kind.
    pub open spec fn spec_describe(&self) -> Seq<char> {
        match self {
            Error::CouldNotParseConfig(_) => "could not parse the config"@,
            Error::CouldNotReadConfig(_) => "could not read the config"@,
            Error::CouldNotRecvMessage => "could not receive a message"@,
            Error::CouldNotSendMessage => "could not send a message"@,
            Error::CouldNotStartListener => "could not start listener"@,
            Error::InvalidPacket(_) => "received invalid packet"@,
        }
    }

    /// Describes the error kind.
    pub fn describe(&self) -> (s: &'static str)
        ensures
            s@ == self.spec_describe(),
    {
        match self {
            Error::CouldNotParseConfig(_) => "could not parse the config",
            Error::CouldNotReadConfig(_) => "could not read the config",
            Error::CouldNotRecvMessage => "could not receive a message",
            Error::CouldNotSendMessage => "could not send a message",
            Error::CouldNotStartListener => "could not start listener",
            Error::InvalidPacket(_) => "received invalid packet",
        }
    }
}

} // verus!
