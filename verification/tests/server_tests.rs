use net_replay_test::error::Error;
use net_replay_test::packet::{Packet, PacketDirection, PacketProtocol};
use net_replay_test::server::{effective_port, plan_replay, ReplayAction, REPLAY_FALLBACK_PORT};

fn udp(direction: PacketDirection, data: &[u8]) -> Packet {
    let (src_port, dst_port) = match direction {
        PacketDirection::ToServer => (50000, 27015),
        PacketDirection::FromServer => (27015, 50000),
    };
    Packet { direction, protocol: PacketProtocol::Udp, src_port, dst_port, data: data.to_vec() }
}

fn tcp(direction: PacketDirection, data: &[u8]) -> Packet {
    let (src_port, dst_port) = match direction {
        PacketDirection::ToServer => (50000, 27015),
        PacketDirection::FromServer => (27015, 50000),
    };
    Packet { direction, protocol: PacketProtocol::Tcp, src_port, dst_port, data: data.to_vec() }
}

#[test]
fn plan_follows_recorded_order() {
    let packets = vec![
        udp(PacketDirection::ToServer, b"q1"),
        udp(PacketDirection::FromServer, b"a1"),
        udp(PacketDirection::ToServer, b"q2"),
        udp(PacketDirection::FromServer, b"a2"),
        udp(PacketDirection::ToServer, b"q3"),
        udp(PacketDirection::FromServer, b"a3"),
    ];
    let plan = plan_replay(&packets).unwrap();
    assert_eq!(plan.len(), 6);
    assert_eq!(plan[0], ReplayAction::UdpRecv);
    assert_eq!(plan[1], ReplayAction::UdpSend(b"a1".to_vec()));
    assert_eq!(plan[2], ReplayAction::UdpRecv);
    assert_eq!(plan[3], ReplayAction::UdpSend(b"a2".to_vec()));
    assert_eq!(plan[4], ReplayAction::UdpRecv);
    assert_eq!(plan[5], ReplayAction::UdpSend(b"a3".to_vec()));
}

#[test]
fn plan_accepts_tcp_once() {
    let packets = vec![
        tcp(PacketDirection::ToServer, b"hello"),
        tcp(PacketDirection::FromServer, b"world"),
        tcp(PacketDirection::ToServer, b"more"),
    ];
    let plan = plan_replay(&packets).unwrap();
    assert_eq!(plan.len(), 3);
    assert_eq!(plan[0], ReplayAction::TcpAccept);
    assert_eq!(plan[1], ReplayAction::TcpSend(b"world".to_vec()));
    assert_eq!(plan[2], ReplayAction::TcpRecv);
}

#[test]
fn plan_rejects_send_before_recv() {
    let packets = vec![udp(PacketDirection::FromServer, b"a1")];
    let r = plan_replay(&packets);
    assert_eq!(r.err(), Some(Error::SendBeforeRecv(PacketProtocol::Udp)));

    let packets = vec![tcp(PacketDirection::FromServer, b"a1")];
    let r = plan_replay(&packets);
    assert_eq!(r.err(), Some(Error::SendBeforeRecv(PacketProtocol::Tcp)));
}

#[test]
fn fallback_port_when_transport_unseen() {
    assert_eq!(effective_port(&Some(27015)), 27015);
    assert_eq!(effective_port(&None), REPLAY_FALLBACK_PORT);
    assert_eq!(REPLAY_FALLBACK_PORT, 60000);
}
