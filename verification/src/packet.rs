//! Canonical in-memory form of one captured frame, and the layered parser
//! that decodes raw network-layer bytes into it.

use vstd::prelude::*;

verus! {

/// Why a captured frame could not be decoded into a [`Packet`].
#[derive(Clone, Debug, PartialEq, Eq, Structural)]
pub enum PacketParseError {
    /// The bytes form neither a well-formed IPv4 nor IPv6 header.
    NoNetworkHeader,
    /// The next-protocol field names a transport other than TCP or UDP.
    UnsupportedTransport,
    /// The transport header does not fit inside the network-layer payload.
    NoTransportHeader,
}

/// Which peer a packet originates from, relative to the capturing host.
#[derive(Clone, Copy, Debug, PartialEq, Eq, Structural)]
pub enum PacketDirection {
    ToServer,
    FromServer,
}

/// The transport carrying a packet.
#[derive(Clone, Copy, Debug, Hash, PartialEq, Eq, Structural)]
pub enum PacketProtocol {
    Tcp,
    Udp,
}

/// A network address of a local interface, held as plain integers so that
/// membership tests are meaningful to the verifier.
#[derive(Clone, Copy, Debug, Hash, PartialEq, Eq, Structural)]
pub enum IpAddress {
    /// An IPv4 address as a big-endian 32-bit value.
    V4(u32),
    /// An IPv6 address as two big-endian 64-bit halves.
    V6(u64, u64),
}

/// A captured frame after parsing: direction, transport, ports and the
/// transport-layer payload with all headers stripped.
#[derive(Clone, Debug, PartialEq)]
pub struct Packet {
    pub direction: PacketDirection,
    pub protocol: PacketProtocol,
    pub src_port: u16,
    pub dst_port: u16,
    pub data: Vec<u8>,
}

/// The big-endian value of the bytes `d[i..j]`.
pub open spec fn be_acc(d: Seq<u8>, i: int, j: int) -> int
    decreases j - i,
{
    if j <= i {
        0
    } else {
        be_acc(d, i, j - 1) * 256 + d[j - 1]
    }
}

/// `256^n`, the exclusive upper bound of an `n`-byte big-endian value.
pub open spec fn bytes_bound(n: int) -> int
    decreases n,
{
    if n <= 0 {
        1
    } else {
        256 * bytes_bound(n - 1)
    }
}

proof fn lemma_be_acc_bound(d: Seq<u8>, i: int, j: int)
    requires
        i <= j,
    ensures
        0 <= be_acc(d, i, j) < bytes_bound(j - i),
    decreases j - i,
{
    if i < j {
        lemma_be_acc_bound(d, i, j - 1);
    }
}

proof fn lemma_bytes_bound_values()
    ensures
        bytes_bound(2) == 0x10000,
        bytes_bound(4) == 0x100000000,
{
    assert(bytes_bound(0) == 1);
    assert(bytes_bound(1) == 256);
    assert(bytes_bound(2) == 0x10000);
    assert(bytes_bound(3) == 0x1000000);
    assert(bytes_bound(4) == 0x100000000);
}

proof fn lemma_bytes_bound_monotone(a: int, b: int)
    requires
        a <= b,
    ensures
        1 <= bytes_bound(a) <= bytes_bound(b),
    decreases b - a,
{
    lemma_bytes_bound_positive(a);
    if a < b {
        lemma_bytes_bound_monotone(a, b - 1);
    }
}

proof fn lemma_bytes_bound_positive(n: int)
    ensures
        bytes_bound(n) >= 1,
    decreases n,
{
    if n > 0 {
        lemma_bytes_bound_positive(n - 1);
    }
}

/// Reads the big-endian value of `d[start..start + n]` for `n <= 8` bytes.
fn read_be(d: &[u8], start: usize, n: usize) -> (r: u64)
    requires
        n <= 8,
        start + n <= d.len(),
    ensures
        r == be_acc(d@, start as int, start as int + n as int),
{
    proof {
        assert(bytes_bound(0) == 1);
        assert(bytes_bound(1) == 256);
        assert(bytes_bound(2) == 0x10000);
        assert(bytes_bound(3) == 0x1000000);
        assert(bytes_bound(4) == 0x100000000);
        assert(bytes_bound(5) == 0x10000000000);
        assert(bytes_bound(6) == 0x1000000000000);
        assert(bytes_bound(7) == 0x100000000000000);
    }
    let mut v: u64 = 0;
    let mut j: usize = 0;
    while j < n
        invariant
            j <= n,
            n <= 8,
            start + n <= d.len(),
            v == be_acc(d@, start as int, start as int + j as int),
            bytes_bound(7) == 0x100000000000000,
        decreases n - j,
    {
        proof {
            lemma_be_acc_bound(d@, start as int, start as int + j as int);
            lemma_bytes_bound_monotone(j as int, 7);
        }
        v = v * 256 + (d[start + j] as u64);
        j = j + 1;
    }
    v
}

/// Copies `d[start..end]` into a fresh vector.
fn copy_range(d: &[u8], start: usize, end: usize) -> (r: Vec<u8>)
    requires
        start <= end <= d.len(),
    ensures
        r@ == d@.subrange(start as int, end as int),
{
    let mut r: Vec<u8> = Vec::new();
    let mut j: usize = start;
    while j < end
        invariant
            start <= j <= end <= d.len(),
            r@ == d@.subrange(start as int, j as int),
        decreases end - j,
    {
        r.push(d[j]);
        proof {
            assert(r@ =~= d@.subrange(start as int, j as int + 1));
        }
        j = j + 1;
    }
    r
}

/// The IPv4 header length in bytes, read from the low nibble of the first
/// byte (a count of 32-bit words).
pub open spec fn ipv4_header_len(d: Seq<u8>) -> int {
    (d[0] % 16) * 4
}

/// The IPv4 total-length field: network header plus payload, in bytes.
pub open spec fn ipv4_total_len(d: Seq<u8>) -> int {
    be_acc(d, 2, 4)
}

/// The bytes form a well-formed IPv4 header: version 4, a header of at
/// least 20 bytes, and a total length that fits inside the frame.
pub open spec fn ipv4_ok(d: Seq<u8>) -> bool {
    &&& d.len() >= 20
    &&& d[0] / 16 == 4
    &&& d[0] % 16 >= 5
    &&& ipv4_header_len(d) <= ipv4_total_len(d)
    &&& ipv4_total_len(d) <= d.len()
}

/// The IPv6 payload-length field, in bytes.
pub open spec fn ipv6_payload_len(d: Seq<u8>) -> int {
    be_acc(d, 4, 6)
}

/// The bytes form a well-formed IPv6 header: version 6, the fixed 40-byte
/// header, and a payload length that fits inside the frame.
pub open spec fn ipv6_ok(d: Seq<u8>) -> bool {
    &&& d.len() >= 40
    &&& d[0] / 16 == 6
    &&& 40 + ipv6_payload_len(d) <= d.len()
}

/// The bytes carry a recognized network header.
pub open spec fn network_ok(d: Seq<u8>) -> bool {
    ipv4_ok(d) || ipv6_ok(d)
}

/// The next-protocol (IPv4) or next-header (IPv6) field.
pub open spec fn next_protocol(d: Seq<u8>) -> int {
    if ipv4_ok(d) {
        d[9] as int
    } else {
        d[6] as int
    }
}

/// The frame's source address.
pub open spec fn source_address(d: Seq<u8>) -> IpAddress {
    if ipv4_ok(d) {
        IpAddress::V4(be_acc(d, 12, 16) as u32)
    } else {
        IpAddress::V6(be_acc(d, 8, 16) as u64, be_acc(d, 16, 24) as u64)
    }
}

/// The transport-layer segment: the network payload with the network header
/// (and any link-layer padding past the recorded length) stripped.
pub open spec fn l4_segment(d: Seq<u8>) -> Seq<u8> {
    if ipv4_ok(d) {
        d.subrange(ipv4_header_len(d), ipv4_total_len(d))
    } else {
        d.subrange(40, 40 + ipv6_payload_len(d))
    }
}

/// IANA protocol number for TCP.
pub const PROTOCOL_TCP: u8 = 6;

/// IANA protocol number for UDP.
pub const PROTOCOL_UDP: u8 = 17;

/// The next-protocol value maps onto a supported transport.
pub open spec fn supported_transport(p: int) -> bool {
    p == PROTOCOL_TCP || p == PROTOCOL_UDP
}

/// The transport named by a supported next-protocol value.
pub open spec fn transport_of(p: int) -> PacketProtocol {
    if p == PROTOCOL_TCP {
        PacketProtocol::Tcp
    } else {
        PacketProtocol::Udp
    }
}

/// The TCP data offset in bytes, read from the high nibble of byte 12 (a
/// count of 32-bit words).
pub open spec fn tcp_data_offset(s: Seq<u8>) -> int {
    (s[12] / 16) * 4
}

/// The segment starts with a well-formed TCP header.
pub open spec fn tcp_ok(s: Seq<u8>) -> bool {
    &&& s.len() >= 20
    &&& s[12] / 16 >= 5
    &&& tcp_data_offset(s) <= s.len()
}

/// The segment starts with a well-formed UDP header.
pub open spec fn udp_ok(s: Seq<u8>) -> bool {
    s.len() >= 8
}

/// The transport header named by `p` fits the segment.
pub open spec fn transport_ok(p: int, s: Seq<u8>) -> bool {
    if p == PROTOCOL_TCP {
        tcp_ok(s)
    } else {
        udp_ok(s)
    }
}

/// The transport-layer source port (both TCP and UDP put it first).
pub open spec fn transport_src_port(s: Seq<u8>) -> int {
    be_acc(s, 0, 2)
}

/// The transport-layer destination port.
pub open spec fn transport_dst_port(s: Seq<u8>) -> int {
    be_acc(s, 2, 4)
}

/// The transport-layer payload: the segment with its header stripped.
pub open spec fn transport_payload(p: int, s: Seq<u8>) -> Seq<u8> {
    if p == PROTOCOL_TCP {
        s.subrange(tcp_data_offset(s), s.len() as int)
    } else {
        s.subrange(8, s.len() as int)
    }
}

/// The whole frame decodes: a recognized network header, a supported
/// transport, and a transport header that fits the network payload.
pub open spec fn frame_parses(d: Seq<u8>) -> bool {
    &&& network_ok(d)
    &&& supported_transport(next_protocol(d))
    &&& transport_ok(next_protocol(d), l4_segment(d))
}

/// The direction a frame with source address `src` is classified as, given
/// the capturing host's local addresses.
pub open spec fn direction_of(src: IpAddress, locals: Seq<IpAddress>) -> PacketDirection {
    if locals.contains(src) {
        PacketDirection::ToServer
    } else {
        PacketDirection::FromServer
    }
}

impl PacketProtocol {
    /// Maps an IP next-protocol number onto a supported transport.
    pub fn from_next_header(value: u8) -> (r: Result<PacketProtocol, PacketParseError>)
        ensures
            supported_transport(value as int) <==> r is Ok,
            r is Ok ==> r->Ok_0 == transport_of(value as int),
            !supported_transport(value as int) ==> r == Err::<PacketProtocol, PacketParseError>(
                PacketParseError::UnsupportedTransport,
            ),
    {
        if value == PROTOCOL_TCP {
            Ok(PacketProtocol::Tcp)
        } else if value == PROTOCOL_UDP {
            Ok(PacketProtocol::Udp)
        } else {
            Err(PacketParseError::UnsupportedTransport)
        }
    }
}

/// Tests whether `addr` is one of the capturing host's interface addresses.
fn is_local_address(addr: IpAddress, locals: &[IpAddress]) -> (r: bool)
    ensures
        r == locals@.contains(addr),
{
    let mut j: usize = 0;
    while j < locals.len()
        invariant
            j <= locals@.len(),
            forall|k: int| 0 <= k < j ==> locals@[k] != addr,
        decreases locals@.len() - j,
    {
        if locals[j] == addr {
            return true;
        }
        j = j + 1;
    }
    false
}

impl Packet {
    /// Decodes one captured frame, given raw bytes starting at the network
    /// layer and the set of local interface addresses.
    ///
    /// Every well-formed IPv4 or IPv6 frame with a supported transport and a
    /// transport header that fits its payload decodes into a packet whose
    /// `data` is exactly the transport-layer payload, and whose direction is
    /// `ToServer` precisely when the source address is local.
    pub fn try_parse(data: &[u8], client_addresses: &[IpAddress]) -> (r: Result<
        Packet,
        PacketParseError,
    >)
        ensures
            r is Ok <==> frame_parses(data@),
            !network_ok(data@) ==> r == Err::<Packet, PacketParseError>(
                PacketParseError::NoNetworkHeader,
            ),
            network_ok(data@) && !supported_transport(next_protocol(data@)) ==> r == Err::<
                Packet,
                PacketParseError,
            >(PacketParseError::UnsupportedTransport),
            network_ok(data@) && supported_transport(next_protocol(data@)) && !transport_ok(
                next_protocol(data@),
                l4_segment(data@),
            ) ==> r == Err::<Packet, PacketParseError>(PacketParseError::NoTransportHeader),
            r is Ok ==> {
                let p = r->Ok_0;
                let seg = l4_segment(data@);
                &&& p.protocol == transport_of(next_protocol(data@))
                &&& p.src_port == transport_src_port(seg)
                &&& p.dst_port == transport_dst_port(seg)
                &&& p.data@ == transport_payload(next_protocol(data@), seg)
                &&& p.direction == direction_of(source_address(data@), client_addresses@)
            },
    {
        // Network layer: IPv4, else IPv6, else no recognized header.
        let (proto, source, seg_start, seg_end): (u8, IpAddress, usize, usize) = if data.len()
            >= 20 && data[0] / 16 == 4 {
            let header_len = (data[0] % 16) as usize * 4;
            let total_len = read_be(data, 2, 2) as usize;
            proof {
                lemma_be_acc_bound(data@, 2, 4);
                lemma_bytes_bound_values();
            }
            if !(data[0] % 16 >= 5 && header_len <= total_len && total_len <= data.len()) {
                return Err(PacketParseError::NoNetworkHeader);
            }
            proof {
                lemma_be_acc_bound(data@, 12, 16);
                lemma_bytes_bound_values();
            }
            let source = IpAddress::V4(read_be(data, 12, 4) as u32);
            (data[9], source, header_len, total_len)
        } else if data.len() >= 40 && data[0] / 16 == 6 {
            let payload_len = read_be(data, 4, 2) as usize;
            proof {
                lemma_be_acc_bound(data@, 4, 6);
                lemma_bytes_bound_values();
            }
            if !(40 + payload_len <= data.len()) {
                return Err(PacketParseError::NoNetworkHeader);
            }
            let source = IpAddress::V6(read_be(data, 8, 8), read_be(data, 16, 8));
            (data[6], source, 40, 40 + payload_len)
        } else {
            return Err(PacketParseError::NoNetworkHeader);
        };
        let ghost seg = l4_segment(data@);
        assert(seg == data@.subrange(seg_start as int, seg_end as int));

        let protocol = match PacketProtocol::from_next_header(proto) {
            Ok(p) => p,
            Err(e) => {
                return Err(e);
            },
        };
        let seg_len = seg_end - seg_start;

        // Transport layer: ports, then the payload with the header stripped.
        let payload_start: usize = match protocol {
            PacketProtocol::Tcp => {
                if !(seg_len >= 20) {
                    return Err(PacketParseError::NoTransportHeader);
                }
                let offset = (data[seg_start + 12] / 16) as usize * 4;
                if !(offset >= 20 && offset <= seg_len) {
                    return Err(PacketParseError::NoTransportHeader);
                }
                offset
            },
            PacketProtocol::Udp => {
                if !(seg_len >= 8) {
                    return Err(PacketParseError::NoTransportHeader);
                }
                8
            },
        };
        assert(transport_ok(proto as int, seg));

        proof {
            lemma_be_acc_bound(data@, seg_start as int, seg_start as int + 2);
            lemma_be_acc_bound(data@, seg_start as int + 2, seg_start as int + 4);
            lemma_bytes_bound_values();
            lemma_be_sub(data@, seg_start as int, seg_end as int, 0, 2);
            lemma_be_sub(data@, seg_start as int, seg_end as int, 2, 4);
        }
        let src_port = read_be(data, seg_start, 2) as u16;
        let dst_port = read_be(data, seg_start + 2, 2) as u16;

        let payload = copy_range(data, seg_start + payload_start, seg_end);
        assert(payload@ =~= transport_payload(proto as int, seg));

        let direction = if is_local_address(source, client_addresses) {
            PacketDirection::ToServer
        } else {
            PacketDirection::FromServer
        };

        Ok(Packet { direction, protocol, src_port, dst_port, data: payload })
    }
}

/// Reading big-endian bytes out of a subrange equals reading them at the
/// corresponding offset of the whole sequence.
proof fn lemma_be_sub(d: Seq<u8>, lo: int, hi: int, i: int, j: int)
    requires
        0 <= lo <= hi <= d.len(),
        0 <= i <= j,
        lo + j <= hi,
    ensures
        be_acc(d.subrange(lo, hi), i, j) == be_acc(d, lo + i, lo + j),
    decreases j - i,
{
    if i < j {
        lemma_be_sub(d, lo, hi, i, j - 1);
    }
}

} // verus!
