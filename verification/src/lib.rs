//! A record-and-replay harness for game-server query protocols.
//!
//! The library covers the capture-parse-replay pipeline: parsing captured
//! frames into packet records, deriving the server-side configuration needed
//! to re-serve a capture, planning a deterministic replay, normalizing
//! backend responses into a comparable value, and redacting player names.

use vstd::prelude::*;
use vstd::string::StringExecFns;

pub mod error;
pub mod json;
pub mod options;
pub mod packet;
pub mod implementations;
pub mod packet_filter;
pub mod server;
pub mod value;

use crate::error::Error;
use crate::options::{
    derived_options, distinct_ports, options_derivable, QueryOptions, QueryReplay, ServerOptions,
    ServerOptionsError,
};
use crate::packet::{Packet, PacketProtocol};
use crate::value::CommonValue;

verus! {

/// Schema counter for persisted replay records; loading a record with a
/// different value fails.
pub const REPLAY_VERSION: u32 = 1;

/// Returns `Ok(())` exactly when a stored replay's version matches the
/// version this library writes; otherwise reports both versions.
pub fn check_replay_version(found: u32) -> (r: Result<(), Error>)
    ensures
        found == REPLAY_VERSION <==> r is Ok,
        found != REPLAY_VERSION ==> r == Err::<(), Error>(
            Error::WrongReplayVersion { found, required: REPLAY_VERSION },
        ),
{
    if found == REPLAY_VERSION {
        Ok(())
    } else {
        Err(Error::WrongReplayVersion { found, required: REPLAY_VERSION })
    }
}

/// Bundles a finished capture into a replay record: derives the server
/// options from the packet list and stamps the current schema version.
/// Fails exactly when the server options cannot be derived.
pub fn build_replay(query: QueryOptions, packets: Vec<Packet>, value: CommonValue) -> (r: Result<
    QueryReplay,
    Error,
>)
    ensures
        r is Ok <==> options_derivable(packets@),
        r is Ok ==> ({
            let q = r->Ok_0;
            &&& q.query == query
            &&& q.packets == packets
            &&& q.value == value
            &&& q.server == derived_options(packets@)
            &&& q.replay_version == REPLAY_VERSION
        }),
        distinct_ports(packets@, PacketProtocol::Tcp).len() > 1 ==> (r matches Err(
            Error::ServerOptions(ServerOptionsError::AmbiguousPort(v)),
        ) && v@ == distinct_ports(packets@, PacketProtocol::Tcp)),
        distinct_ports(packets@, PacketProtocol::Tcp).len() <= 1 && distinct_ports(
            packets@,
            PacketProtocol::Udp,
        ).len() > 1 ==> (r matches Err(Error::ServerOptions(ServerOptionsError::AmbiguousPort(v)))
            && v@ == distinct_ports(packets@, PacketProtocol::Udp)),
        distinct_ports(packets@, PacketProtocol::Tcp).len() == 0 && distinct_ports(
            packets@,
            PacketProtocol::Udp,
        ).len() == 0 ==> r == Err::<QueryReplay, Error>(
            Error::ServerOptions(ServerOptionsError::NoPort),
        ),
{
    match ServerOptions::try_from_packets(&packets) {
        Ok(server) => Ok(
            QueryReplay { query, server, packets, value, replay_version: REPLAY_VERSION },
        ),
        Err(e) => Err(Error::ServerOptions(e)),
    }
}

/// The loopback address the replay server binds.
pub fn replay_address() -> (r: String)
    ensures
        r@ == "127.0.0.50"@,
{
    String::from_str("127.0.0.50")
}

/// The query options a backend uses against the replay server: the same
/// query, re-pointed at the replay endpoint.
pub fn replay_query_options(query: &QueryOptions) -> (r: QueryOptions)
    ensures
        r.address@ == "127.0.0.50"@,
        r.port == query.port,
        r.game == query.game,
{
    QueryOptions {
        address: replay_address(),
        port: match &query.port {
            Some(p) => Some(*p),
            None => None,
        },
        game: query.game.clone(),
    }
}

} // verus!
