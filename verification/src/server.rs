//! The deterministic single-client replay server: a state machine that
//! walks the recorded packet list and decides, per packet, which socket
//! operation re-serves it. The I/O itself is left to the caller; the plan
//! computed here fixes the order and the bytes.

use vstd::prelude::*;
use crate::error::Error;
use crate::packet::{Packet, PacketDirection, PacketProtocol};

verus! {

/// The port a transport binds when the capture showed none.
pub const REPLAY_FALLBACK_PORT: u16 = 60000;

/// The socket operation that re-serves one recorded packet.
#[derive(Clone, Debug, PartialEq)]
pub enum ReplayAction {
    /// Accept the client's TCP connection, then read from it.
    TcpAccept,
    /// Read from the accepted TCP stream.
    TcpRecv,
    /// Receive a UDP datagram, learning the client's address on the first.
    UdpRecv,
    /// Write these bytes to the accepted TCP stream.
    TcpSend(Vec<u8>),
    /// Send these bytes to the learned UDP client address.
    UdpSend(Vec<u8>),
}

/// The mathematical form of a [`ReplayAction`], with payloads as sequences.
pub enum ActionModel {
    TcpAccept,
    TcpRecv,
    UdpRecv,
    TcpSend(Seq<u8>),
    UdpSend(Seq<u8>),
}

impl View for ReplayAction {
    type V = ActionModel;

    open spec fn view(&self) -> ActionModel {
        match self {
            ReplayAction::TcpAccept => ActionModel::TcpAccept,
            ReplayAction::TcpRecv => ActionModel::TcpRecv,
            ReplayAction::UdpRecv => ActionModel::UdpRecv,
            ReplayAction::TcpSend(d) => ActionModel::TcpSend(d@),
            ReplayAction::UdpSend(d) => ActionModel::UdpSend(d@),
        }
    }
}

/// What the replay server has cached so far: whether a TCP stream was
/// accepted, and whether the UDP client's address is known.
#[derive(Clone, Copy, Debug, PartialEq, Eq, Structural)]
pub struct ReplayState {
    pub tcp_connected: bool,
    pub udp_peer_known: bool,
}

/// The state before any packet is processed.
pub open spec fn initial_replay_state() -> ReplayState {
    ReplayState { tcp_connected: false, udp_peer_known: false }
}

/// One dispatch step: the action that re-serves `p` from `state`, and the
/// state afterwards. A send before the peer is known fails.
pub open spec fn step_model(state: ReplayState, p: Packet) -> Result<
    (ReplayState, ActionModel),
    Error,
> {
    match (p.direction, p.protocol) {
        (PacketDirection::ToServer, PacketProtocol::Tcp) => if !state.tcp_connected {
            Ok((ReplayState { tcp_connected: true, ..state }, ActionModel::TcpAccept))
        } else {
            Ok((state, ActionModel::TcpRecv))
        },
        (PacketDirection::ToServer, PacketProtocol::Udp) => Ok(
            (ReplayState { udp_peer_known: true, ..state }, ActionModel::UdpRecv),
        ),
        (PacketDirection::FromServer, PacketProtocol::Tcp) => if state.tcp_connected {
            Ok((state, ActionModel::TcpSend(p.data@)))
        } else {
            Err(Error::SendBeforeRecv(PacketProtocol::Tcp))
        },
        (PacketDirection::FromServer, PacketProtocol::Udp) => if state.udp_peer_known {
            Ok((state, ActionModel::UdpSend(p.data@)))
        } else {
            Err(Error::SendBeforeRecv(PacketProtocol::Udp))
        },
    }
}

/// The actions that re-serve `packets[i..]` from `state`, or the first
/// failure.
pub open spec fn run_replay(state: ReplayState, packets: Seq<Packet>, i: int) -> Result<
    Seq<ActionModel>,
    Error,
>
    decreases packets.len() - i,
    when 0 <= i
{
    if i >= packets.len() {
        Ok(Seq::empty())
    } else {
        match step_model(state, packets[i]) {
            Err(e) => Err(e),
            Ok((state2, a)) => match run_replay(state2, packets, i + 1) {
                Err(e) => Err(e),
                Ok(rest) => Ok(seq![a] + rest),
            },
        }
    }
}

/// The action re-serves the packet: a receive for each `ToServer` packet, a
/// send carrying exactly the recorded bytes for each `FromServer` packet,
/// on the packet's own transport.
pub open spec fn action_serves(a: ActionModel, p: Packet) -> bool {
    match (p.direction, p.protocol) {
        (PacketDirection::ToServer, PacketProtocol::Tcp) => a is TcpAccept || a is TcpRecv,
        (PacketDirection::ToServer, PacketProtocol::Udp) => a is UdpRecv,
        (PacketDirection::FromServer, PacketProtocol::Tcp) => a == ActionModel::TcpSend(p.data@),
        (PacketDirection::FromServer, PacketProtocol::Udp) => a == ActionModel::UdpSend(p.data@),
    }
}

/// Computes the ordered list of socket operations that re-serves the
/// capture, or fails with `SendBeforeRecv` where a `FromServer` packet
/// comes before the peer could be known.
pub fn plan_replay(packets: &Vec<Packet>) -> (r: Result<Vec<ReplayAction>, Error>)
    ensures
        r is Ok <==> run_replay(initial_replay_state(), packets@, 0) is Ok,
        r is Ok ==> r->Ok_0@.map_values(|a: ReplayAction| a@) == run_replay(
            initial_replay_state(),
            packets@,
            0,
        )->Ok_0,
        r is Err ==> r->Err_0 == run_replay(initial_replay_state(), packets@, 0)->Err_0,
{
    let mut state = ReplayState { tcp_connected: false, udp_peer_known: false };
    let mut actions: Vec<ReplayAction> = Vec::new();
    let ghost full = run_replay(initial_replay_state(), packets@, 0);
    let mut i: usize = 0;
    proof {
        assert(actions@.map_values(|a: ReplayAction| a@) =~= Seq::<ActionModel>::empty());
    }
    while i < packets.len()
        invariant
            i <= packets@.len(),
            full == run_replay(initial_replay_state(), packets@, 0),
            ({
                let rest = run_replay(state, packets@, i as int);
                match rest {
                    Ok(tail) => full == Ok::<Seq<ActionModel>, Error>(
                        actions@.map_values(|a: ReplayAction| a@) + tail,
                    ),
                    Err(e) => full == Err::<Seq<ActionModel>, Error>(e),
                }
            }),
        decreases packets@.len() - i,
    {
        let packet = &packets[i];
        let ghost pre_state = state;
        let ghost pre_actions = actions@;
        let action: ReplayAction = match (&packet.direction, &packet.protocol) {
            (PacketDirection::ToServer, PacketProtocol::Tcp) => {
                if !state.tcp_connected {
                    state.tcp_connected = true;
                    ReplayAction::TcpAccept
                } else {
                    ReplayAction::TcpRecv
                }
            },
            (PacketDirection::ToServer, PacketProtocol::Udp) => {
                state.udp_peer_known = true;
                ReplayAction::UdpRecv
            },
            (PacketDirection::FromServer, PacketProtocol::Tcp) => {
                if state.tcp_connected {
                    let d = clone_bytes(&packet.data);
                    ReplayAction::TcpSend(d)
                } else {
                    return Err(Error::SendBeforeRecv(PacketProtocol::Tcp));
                }
            },
            (PacketDirection::FromServer, PacketProtocol::Udp) => {
                if state.udp_peer_known {
                    let d = clone_bytes(&packet.data);
                    ReplayAction::UdpSend(d)
                } else {
                    return Err(Error::SendBeforeRecv(PacketProtocol::Udp));
                }
            },
        };
        proof {
            assert(step_model(pre_state, packets@[i as int]) == Ok::<
                (ReplayState, ActionModel),
                Error,
            >((state, action@)));
        }
        actions.push(action);
        proof {
            assert(actions@.map_values(|a: ReplayAction| a@) =~= pre_actions.map_values(
                |a: ReplayAction| a@,
            ).push(action@));
            let rest = run_replay(state, packets@, i as int + 1);
            if rest is Ok {
                assert(pre_actions.map_values(|a: ReplayAction| a@) + (seq![action@]
                    + rest->Ok_0) =~= actions@.map_values(|a: ReplayAction| a@) + rest->Ok_0);
            }
        }
        i = i + 1;
    }
    Ok(actions)
}

/// Copies a payload.
fn clone_bytes(d: &Vec<u8>) -> (r: Vec<u8>)
    ensures
        r@ == d@,
{
    let mut r: Vec<u8> = Vec::new();
    let mut j: usize = 0;
    while j < d.len()
        invariant
            j <= d@.len(),
            r@ == d@.subrange(0, j as int),
        decreases d@.len() - j,
    {
        r.push(d[j]);
        proof {
            assert(r@ =~= d@.subrange(0, j as int + 1));
        }
        j = j + 1;
    }
    proof {
        assert(d@.subrange(0, d@.len() as int) =~= d@);
    }
    r
}

/// The packet is a client packet on the given transport.
pub open spec fn is_client_packet(p: Packet, proto: PacketProtocol) -> bool {
    p.direction is ToServer && p.protocol == proto
}

/// Some packet in `[lo, k)` is a client packet on the given transport.
pub open spec fn has_prior_client(packets: Seq<Packet>, proto: PacketProtocol, lo: int, k: int) -> bool {
    exists|j: int| lo <= j < k && is_client_packet(#[trigger] packets[j], proto)
}

/// Every `FromServer` packet at or after `i` is preceded (at or after `i`)
/// by a client packet on its transport, unless the server already knows
/// that peer.
pub open spec fn sends_covered_from(packets: Seq<Packet>, state: ReplayState, i: int) -> bool {
    forall|k: int|
        i <= k < packets.len() && (#[trigger] packets[k]).direction is FromServer ==> match packets[k].protocol {
            PacketProtocol::Tcp => state.tcp_connected || has_prior_client(
                packets,
                PacketProtocol::Tcp,
                i,
                k,
            ),
            PacketProtocol::Udp => state.udp_peer_known || has_prior_client(
                packets,
                PacketProtocol::Udp,
                i,
                k,
            ),
        }
}

proof fn lemma_run_serves(packets: Seq<Packet>, state: ReplayState, i: int)
    requires
        0 <= i <= packets.len(),
        sends_covered_from(packets, state, i),
    ensures
        run_replay(state, packets, i) is Ok,
        run_replay(state, packets, i)->Ok_0.len() == packets.len() - i,
        forall|k: int|
            i <= k < packets.len() ==> action_serves(
                #[trigger] run_replay(state, packets, i)->Ok_0[k - i],
                packets[k],
            ),
    decreases packets.len() - i,
{
    if i < packets.len() {
        let p = packets[i];
        let step = step_model(state, p);
        assert(step is Ok);
        let (state2, a) = step->Ok_0;
        assert(sends_covered_from(packets, state2, i + 1)) by {
            assert forall|k: int|
                i + 1 <= k < packets.len() && (#[trigger] packets[k]).direction
                    is FromServer implies match packets[k].protocol {
                PacketProtocol::Tcp => state2.tcp_connected || has_prior_client(
                    packets,
                    PacketProtocol::Tcp,
                    i + 1,
                    k,
                ),
                PacketProtocol::Udp => state2.udp_peer_known || has_prior_client(
                    packets,
                    PacketProtocol::Udp,
                    i + 1,
                    k,
                ),
            } by {
                let proto = packets[k].protocol;
                let known2 = match proto {
                    PacketProtocol::Tcp => state2.tcp_connected,
                    PacketProtocol::Udp => state2.udp_peer_known,
                };
                if !known2 {
                    // The server still does not know this peer, so it did
                    // not learn it at step i, and the covering client
                    // packet lies strictly after i.
                    assert(!is_client_packet(p, proto));
                    let known = match proto {
                        PacketProtocol::Tcp => state.tcp_connected,
                        PacketProtocol::Udp => state.udp_peer_known,
                    };
                    assert(!known);
                    assert(has_prior_client(packets, proto, i, k));
                    let j = choose|j: int|
                        i <= j < k && is_client_packet(#[trigger] packets[j], proto);
                    assert(j != i);
                    assert(i + 1 <= j < k && is_client_packet(packets[j], proto));
                }
            }
        }
        lemma_run_serves(packets, state2, i + 1);
        let rest = run_replay(state2, packets, i + 1)->Ok_0;
        assert forall|k: int| i <= k < packets.len() implies action_serves(
            #[trigger] run_replay(state, packets, i)->Ok_0[k - i],
            packets[k],
        ) by {
            if k == i {
                assert(run_replay(state, packets, i)->Ok_0[0] == a);
            } else {
                assert(run_replay(state, packets, i)->Ok_0[k - i] == rest[k - (i + 1)]);
            }
        }
    }
}

/// Replay preserves the recorded order: when every `FromServer` packet is
/// preceded by a `ToServer` packet on the same transport, the plan
/// succeeds, holds one action per packet, receives exactly at the client's
/// packets, and sends exactly the recorded server bytes at the server's
/// packets.
pub proof fn lemma_replay_preserves_order(packets: Seq<Packet>)
    requires
        forall|k: int|
            0 <= k < packets.len() && (#[trigger] packets[k]).direction is FromServer
                ==> has_prior_client(packets, packets[k].protocol, 0, k),
    ensures
        run_replay(initial_replay_state(), packets, 0) is Ok,
        run_replay(initial_replay_state(), packets, 0)->Ok_0.len() == packets.len(),
        forall|k: int|
            0 <= k < packets.len() ==> action_serves(
                #[trigger] run_replay(initial_replay_state(), packets, 0)->Ok_0[k],
                packets[k],
            ),
{
    lemma_run_serves(packets, initial_replay_state(), 0);
    assert forall|k: int| 0 <= k < packets.len() implies action_serves(
        #[trigger] run_replay(initial_replay_state(), packets, 0)->Ok_0[k],
        packets[k],
    ) by {
        assert(action_serves(
            run_replay(initial_replay_state(), packets, 0)->Ok_0[k - 0],
            packets[k],
        ));
    }
}

/// The port a transport binds: the derived port, or the fallback when the
/// capture showed none.
pub fn effective_port(port: &Option<u16>) -> (r: u16)
    ensures
        r == match *port {
            Some(p) => p,
            None => REPLAY_FALLBACK_PORT,
        },
{
    match port {
        Some(p) => *p,
        None => REPLAY_FALLBACK_PORT,
    }
}

} // verus!
