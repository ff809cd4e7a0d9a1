//! Query parameters, the derived server-side configuration a replay needs,
//! and the bundled replay record.

use vstd::prelude::*;
use vstd::string::StringExecFns;
use crate::packet::{Packet, PacketDirection, PacketProtocol};
use crate::value::CommonValue;

verus! {

/// Parameters of one query: the game tag, the server's address, and an
/// optional port.
#[derive(Clone, Debug, PartialEq)]
pub struct QueryOptions {
    pub address: String,
    pub port: Option<u16>,
    pub game: String,
}

/// Relies on chrono's Utc::now and to_rfc3339_opts: the current UTC time,
/// written at seconds precision in RFC 3339 form, which is ASCII.
#[verifier::external_body]
fn utc_timestamp_seconds() -> (r: String)
    ensures
        r.is_ascii(),
{
    chrono::Utc::now().to_rfc3339_opts(chrono::SecondsFormat::Secs, true)
}

impl QueryOptions {
    /// The replay filename for a capture taken at `date`.
    pub fn file_name_with_date(&self, date: &str) -> (r: String)
        ensures
            r@ == "replay-"@ + date@ + "-"@ + self.game@ + "-"@ + self.address@ + ".json"@,
    {
        let mut s = String::from_str("replay-");
        s.append(date);
        s.append("-");
        s.append(self.game.as_str());
        s.append("-");
        s.append(self.address.as_str());
        s.append(".json");
        s
    }

    /// The replay filename for a capture taken now: the game and address,
    /// stamped with the current UTC time.
    pub fn as_file_name(&self) -> (r: String)
        ensures
            exists|date: Seq<char>|
                r@ == "replay-"@ + date + "-"@ + self.game@ + "-"@ + self.address@ + ".json"@,
    {
        let date = utc_timestamp_seconds();
        let r = self.file_name_with_date(date.as_str());
        proof {
            assert(r@ == "replay-"@ + date@ + "-"@ + self.game@ + "-"@ + self.address@
                + ".json"@);
        }
        r
    }
}

/// The minimum server-side configuration needed to re-serve a capture: one
/// optional port per transport, and the receive-buffer size.
#[derive(Clone, Debug, PartialEq)]
pub struct ServerOptions {
    pub tcp_port: Option<u16>,
    pub udp_port: Option<u16>,
    pub packet_size: usize,
}

/// Why no server-side configuration could be inferred from a capture.
#[derive(Clone, Debug, PartialEq)]
pub enum ServerOptionsError {
    /// The capture holds no TCP and no UDP packet.
    NoPort,
    /// One transport shows several distinct server-side ports; the capture
    /// is not a single conversation. Carries the distinct ports in order of
    /// first appearance.
    AmbiguousPort(Vec<u16>),
}

/// The server-side port of a packet: where the client sent to, or where the
/// server answered from.
pub open spec fn server_side_port(p: Packet) -> u16 {
    if p.direction is ToServer {
        p.dst_port
    } else {
        p.src_port
    }
}

/// The distinct server-side ports of the packets on transport `proto`, in
/// order of first appearance.
pub open spec fn distinct_ports(packets: Seq<Packet>, proto: PacketProtocol) -> Seq<u16>
    decreases packets.len(),
{
    if packets.len() == 0 {
        Seq::empty()
    } else {
        let prior = distinct_ports(packets.drop_last(), proto);
        let p = packets.last();
        if p.protocol == proto && !prior.contains(server_side_port(p)) {
            prior.push(server_side_port(p))
        } else {
            prior
        }
    }
}

/// The maximum transport-layer payload length over a capture.
pub open spec fn max_payload(packets: Seq<Packet>) -> int
    decreases packets.len(),
{
    if packets.len() == 0 {
        0
    } else {
        let prior = max_payload(packets.drop_last());
        if packets.last().data.len() > prior {
            packets.last().data.len() as int
        } else {
            prior
        }
    }
}

/// Server options can be derived: each transport shows at most one
/// server-side port, and at least one transport is present.
pub open spec fn options_derivable(packets: Seq<Packet>) -> bool {
    &&& distinct_ports(packets, PacketProtocol::Tcp).len() <= 1
    &&& distinct_ports(packets, PacketProtocol::Udp).len() <= 1
    &&& distinct_ports(packets, PacketProtocol::Tcp).len() + distinct_ports(
        packets,
        PacketProtocol::Udp,
    ).len() >= 1
}

/// The options derived from a capture: a port per transport iff the capture
/// holds a packet of that transport, and the observed maximum payload size.
pub open spec fn derived_options(packets: Seq<Packet>) -> ServerOptions {
    let tcp = distinct_ports(packets, PacketProtocol::Tcp);
    let udp = distinct_ports(packets, PacketProtocol::Udp);
    ServerOptions {
        tcp_port: if tcp.len() == 1 {
            Some(tcp[0])
        } else {
            None
        },
        udp_port: if udp.len() == 1 {
            Some(udp[0])
        } else {
            None
        },
        packet_size: max_payload(packets) as usize,
    }
}

proof fn lemma_max_payload_bounds(packets: Seq<Packet>)
    ensures
        0 <= max_payload(packets) <= usize::MAX,
    decreases packets.len(),
{
    if packets.len() > 0 {
        lemma_max_payload_bounds(packets.drop_last());
    }
}

/// Every packet's server-side port on transport `proto` appears among that
/// transport's distinct ports.
proof fn lemma_distinct_ports_cover(packets: Seq<Packet>, proto: PacketProtocol, i: int)
    requires
        0 <= i < packets.len(),
        packets[i].protocol == proto,
    ensures
        distinct_ports(packets, proto).contains(server_side_port(packets[i])),
    decreases packets.len(),
{
    let prior = distinct_ports(packets.drop_last(), proto);
    if i == packets.len() - 1 {
        if !prior.contains(server_side_port(packets[i])) {
            assert(distinct_ports(packets, proto).last() == server_side_port(packets[i]));
        }
    } else {
        lemma_distinct_ports_cover(packets.drop_last(), proto, i);
        let port = server_side_port(packets[i]);
        let k = choose|k: int| 0 <= k < prior.len() && prior[k] == port;
        if packets.last().protocol == proto && !prior.contains(server_side_port(packets.last())) {
            assert(distinct_ports(packets, proto)[k] == port);
        } else {
            assert(distinct_ports(packets, proto)[k] == port);
        }
    }
}

proof fn lemma_max_payload_covers(packets: Seq<Packet>, i: int)
    requires
        0 <= i < packets.len(),
    ensures
        max_payload(packets) >= packets[i].data.len(),
    decreases packets.len(),
{
    if i < packets.len() - 1 {
        lemma_max_payload_covers(packets.drop_last(), i);
    }
}

/// When server options can be derived, every TCP packet's server-side port
/// equals the derived `tcp_port`, every UDP packet's server-side port equals
/// the derived `udp_port`, a port is present exactly when its transport is,
/// and `packet_size` bounds every payload.
pub proof fn lemma_derived_options_cover(packets: Seq<Packet>)
    requires
        options_derivable(packets),
    ensures
        forall|i: int|
            0 <= i < packets.len() && packets[i].protocol == PacketProtocol::Tcp
                ==> derived_options(packets).tcp_port == Some(server_side_port(#[trigger] packets[i])),
        forall|i: int|
            0 <= i < packets.len() && packets[i].protocol == PacketProtocol::Udp
                ==> derived_options(packets).udp_port == Some(server_side_port(#[trigger] packets[i])),
        forall|i: int|
            0 <= i < packets.len() ==> derived_options(packets).packet_size >= (
            #[trigger] packets[i]).data.len(),
        derived_options(packets).tcp_port is Some <==> exists|i: int|
            0 <= i < packets.len() && (#[trigger] packets[i]).protocol == PacketProtocol::Tcp,
        derived_options(packets).udp_port is Some <==> exists|i: int|
            0 <= i < packets.len() && (#[trigger] packets[i]).protocol == PacketProtocol::Udp,
        derived_options(packets).tcp_port is Some || derived_options(packets).udp_port is Some,
{
    lemma_max_payload_bounds(packets);
    assert forall|i: int|
        0 <= i < packets.len() && packets[i].protocol == PacketProtocol::Tcp
        implies derived_options(packets).tcp_port == Some(
        server_side_port(#[trigger] packets[i]),
    ) by {
        lemma_distinct_ports_cover(packets, PacketProtocol::Tcp, i);
    }
    assert forall|i: int|
        0 <= i < packets.len() && packets[i].protocol == PacketProtocol::Udp
        implies derived_options(packets).udp_port == Some(
        server_side_port(#[trigger] packets[i]),
    ) by {
        lemma_distinct_ports_cover(packets, PacketProtocol::Udp, i);
    }
    assert forall|i: int| 0 <= i < packets.len() implies derived_options(packets).packet_size >= (
    #[trigger] packets[i]).data.len() by {
        lemma_max_payload_covers(packets, i);
    }
    lemma_transport_present(packets, PacketProtocol::Tcp);
    lemma_transport_present(packets, PacketProtocol::Udp);
}

/// A transport shows a distinct port exactly when a packet of that
/// transport is in the capture.
proof fn lemma_transport_present(packets: Seq<Packet>, proto: PacketProtocol)
    ensures
        distinct_ports(packets, proto).len() >= 1 <==> exists|i: int|
            0 <= i < packets.len() && (#[trigger] packets[i]).protocol == proto,
    decreases packets.len(),
{
    if packets.len() > 0 {
        lemma_transport_present(packets.drop_last(), proto);
        if packets.last().protocol == proto {
            assert(packets[packets.len() - 1].protocol == proto);
        } else {
            if exists|i: int| 0 <= i < packets.len() && (#[trigger] packets[i]).protocol == proto {
                let i = choose|i: int|
                    0 <= i < packets.len() && (#[trigger] packets[i]).protocol == proto;
                assert(packets.drop_last()[i].protocol == proto);
            }
        }
    }
}

fn vec_contains_port(v: &Vec<u16>, x: u16) -> (r: bool)
    ensures
        r == v@.contains(x),
{
    let mut j: usize = 0;
    while j < v.len()
        invariant
            j <= v@.len(),
            forall|k: int| 0 <= k < j ==> v@[k] != x,
        decreases v@.len() - j,
    {
        if v[j] == x {
            return true;
        }
        j = j + 1;
    }
    false
}

impl ServerOptions {
    /// Infers the server-side configuration from a capture: fails with
    /// `AmbiguousPort` when one transport shows several distinct server-side
    /// ports (TCP reported first), with `NoPort` when the capture is empty
    /// of both transports, and otherwise returns the derived options.
    pub fn try_from_packets(packets: &Vec<Packet>) -> (r: Result<ServerOptions, ServerOptionsError>)
        ensures
            r is Ok <==> options_derivable(packets@),
            r is Ok ==> r->Ok_0 == derived_options(packets@),
            distinct_ports(packets@, PacketProtocol::Tcp).len() > 1 ==> (r matches Err(
                ServerOptionsError::AmbiguousPort(v),
            ) && v@ == distinct_ports(packets@, PacketProtocol::Tcp)),
            distinct_ports(packets@, PacketProtocol::Tcp).len() <= 1 && distinct_ports(
                packets@,
                PacketProtocol::Udp,
            ).len() > 1 ==> (r matches Err(ServerOptionsError::AmbiguousPort(v)) && v@
                == distinct_ports(packets@, PacketProtocol::Udp)),
            distinct_ports(packets@, PacketProtocol::Tcp).len() == 0 && distinct_ports(
                packets@,
                PacketProtocol::Udp,
            ).len() == 0 ==> r == Err::<ServerOptions, ServerOptionsError>(
                ServerOptionsError::NoPort,
            ),
    {
        let mut tcp_ports: Vec<u16> = Vec::new();
        let mut udp_ports: Vec<u16> = Vec::new();
        let mut max_packet_size: usize = 0;

        let mut i: usize = 0;
        while i < packets.len()
            invariant
                i <= packets@.len(),
                tcp_ports@ == distinct_ports(packets@.take(i as int), PacketProtocol::Tcp),
                udp_ports@ == distinct_ports(packets@.take(i as int), PacketProtocol::Udp),
                max_packet_size == max_payload(packets@.take(i as int)),
            decreases packets@.len() - i,
        {
            let packet = &packets[i];
            let port = match packet.direction {
                PacketDirection::ToServer => packet.dst_port,
                PacketDirection::FromServer => packet.src_port,
            };
            proof {
                assert(packets@.take(i as int + 1).drop_last() =~= packets@.take(i as int));
                assert(packets@.take(i as int + 1).last() == packets@[i as int]);
            }
            match packet.protocol {
                PacketProtocol::Tcp => {
                    if !vec_contains_port(&tcp_ports, port) {
                        tcp_ports.push(port);
                    }
                },
                PacketProtocol::Udp => {
                    if !vec_contains_port(&udp_ports, port) {
                        udp_ports.push(port);
                    }
                },
            }
            if packet.data.len() > max_packet_size {
                max_packet_size = packet.data.len();
            }
            i = i + 1;
        }
        proof {
            assert(packets@.take(packets@.len() as int) =~= packets@);
        }

        if tcp_ports.len() > 1 {
            return Err(ServerOptionsError::AmbiguousPort(tcp_ports));
        }
        if udp_ports.len() > 1 {
            return Err(ServerOptionsError::AmbiguousPort(udp_ports));
        }

        let tcp_port = if tcp_ports.len() == 1 {
            Some(tcp_ports[0])
        } else {
            None
        };
        let udp_port = if udp_ports.len() == 1 {
            Some(udp_ports[0])
        } else {
            None
        };

        if tcp_port.is_none() && udp_port.is_none() {
            Err(ServerOptionsError::NoPort)
        } else {
            Ok(ServerOptions { tcp_port, udp_port, packet_size: max_packet_size })
        }
    }
}

/// The bundle a capture produces and a replay consumes: the query, the
/// derived server options, the ordered packet list, the expected normalized
/// response, and the schema version.
#[derive(Clone, Debug)]
pub struct QueryReplay {
    pub query: QueryOptions,
    pub server: ServerOptions,
    pub packets: Vec<Packet>,
    pub value: CommonValue,
    pub replay_version: u32,
}

} // verus!
