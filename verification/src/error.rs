//! The library's error type.

use vstd::prelude::*;
use crate::options::ServerOptionsError;
use crate::packet::{PacketParseError, PacketProtocol};
use crate::packet_filter::FilterError;

verus! {

/// Everything that can go wrong across the capture and replay pipelines.
#[derive(Clone, Debug, PartialEq)]
pub enum Error {
    /// No capture device matches the request.
    NoCaptureDevice,
    /// An I/O failure, carried as its description.
    IO(String),
    /// A serialization failure, carried as its description.
    Json(String),
    /// A captured frame could not be decoded.
    PacketParse(PacketParseError),
    /// No server-side configuration could be inferred from the capture.
    ServerOptions(ServerOptionsError),
    /// A backend or other free-form failure.
    Message(String),
    /// A replay reached a `FromServer` step before the peer connected (TCP)
    /// or sent a first datagram (UDP).
    SendBeforeRecv(PacketProtocol),
    /// A stored replay was written under another schema version.
    WrongReplayVersion { found: u32, required: u32 },
    /// The content-redaction filter failed.
    Filter(FilterError),
}

impl From<PacketParseError> for Error {
    fn from(value: PacketParseError) -> (r: Error) {
        Error::PacketParse(value)
    }
}

impl vstd::std_specs::convert::FromSpecImpl<PacketParseError> for Error {
    open spec fn obeys_from_spec() -> bool {
        true
    }

    open spec fn from_spec(value: PacketParseError) -> Error {
        Error::PacketParse(value)
    }
}

impl From<ServerOptionsError> for Error {
    fn from(value: ServerOptionsError) -> (r: Error) {
        Error::ServerOptions(value)
    }
}

impl vstd::std_specs::convert::FromSpecImpl<ServerOptionsError> for Error {
    open spec fn obeys_from_spec() -> bool {
        true
    }

    open spec fn from_spec(value: ServerOptionsError) -> Error {
        Error::ServerOptions(value)
    }
}

impl From<FilterError> for Error {
    fn from(value: FilterError) -> (r: Error) {
        Error::Filter(value)
    }
}

impl vstd::std_specs::convert::FromSpecImpl<FilterError> for Error {
    open spec fn obeys_from_spec() -> bool {
        true
    }

    open spec fn from_spec(value: FilterError) -> Error {
        Error::Filter(value)
    }
}

} // verus!
