//! The way of a packet from this host to the peer that it is meant for.

use crate::addr::{
    law_ipv4_octets, law_ipv6_octets, law_ipv6_octets_are_its_number, octets_of, Ipv4Addr, Ipv6Addr,
};
use crate::frame::{frame, framed, law_message_on_the_wire};
use crate::ip_util::{header_found, slice_ip, sliced_net, NetHeader, ROUTER_MULTICAST_ADDR};
use crate::remote_id::RemoteId;
use crate::state::{IvLanState, Network};
use crate::state_laws::law_address_names_one_peer;
use vstd::prelude::*;

verus! {

/// What becomes of a packet that this host sends.
#[derive(Debug)]
pub enum Outbound {
    /// The packet cannot be parsed; it is dropped.
    BadPacket,
    /// The packet is not for peers; it is dropped.
    Skip,
    /// No peer has the address; the packet is dropped.
    NoPeer,
    /// The message that is to be sent to a peer.
    Queue { remote: RemoteId, message: Vec<u8> },
}

/// Whether an outcome is that of a packet for a peer with a certain address: `owns` tells which
/// peers have it.
pub open spec fn sent_to(
    network: Network,
    owns: spec_fn(Seq<u8>) -> bool,
    packet: Seq<u8>,
    outcome: Outbound,
) -> bool {
    match outcome {
        Outbound::Queue { remote, message } => {
            &&& network.knows(remote@)
            &&& owns(remote@)
            &&& message@ == framed(packet)
        },
        Outbound::NoPeer => forall|key: Seq<u8>| #[trigger] network.knows(key) ==> !owns(key),
        _ => false,
    }
}

/// Whether an outcome is that of a packet with a network header: a packet goes to the peer that
/// has its destination address, but for the routers of a link it goes nowhere.
pub open spec fn routed(
    network: Network,
    net: Option<NetHeader>,
    packet: Seq<u8>,
    outcome: Outbound,
) -> bool {
    match net {
        None => outcome is BadPacket,
        Some(NetHeader::Arp) => outcome is Skip,
        Some(NetHeader::Ipv4 { destination, .. }) => sent_to(
            network,
            |key: Seq<u8>| network.peers[key].addrs.v4@ == destination@,
            packet,
            outcome,
        ),
        Some(NetHeader::Ipv6 { destination, .. }) => if destination@ == (Ipv6Addr {
            bits: ROUTER_MULTICAST_ADDR,
        })@ {
            outcome is Skip
        } else {
            sent_to(
                network,
                |key: Seq<u8>| network.peers[key].addrs.v6@ == destination@,
                packet,
                outcome,
            )
        },
    }
}

/// Where the packet in the first `len` octets of a buffer goes, whose network header is `net`.
pub fn route(state: &IvLanState, net: Option<NetHeader>, buf: &[u8], len: u16) -> (outcome:
    Outbound)
    requires
        state@.wf(),
        len <= buf@.len(),
    ensures
        routed(state@, net, buf@.take(len as int), outcome),
{
    match net {
        None => Outbound::BadPacket,
        Some(NetHeader::Arp) => Outbound::Skip,
        Some(NetHeader::Ipv4 { destination, .. }) => {
            let addr: Ipv4Addr = Ipv4Addr::from_octets(destination);
            proof {
                assert forall|key: Seq<u8>| #[trigger] state@.knows(key) implies (
                state@.peers[key].addrs.v4 == addr <==> state@.peers[key].addrs.v4@
                    == destination@) by {
                    law_ipv4_octets(state@.peers[key].addrs.v4, addr);
                }
            }
            match state.peer_with_ipv4(addr) {
                Some(remote) => Outbound::Queue { remote, message: frame(buf, len) },
                None => Outbound::NoPeer,
            }
        },
        Some(NetHeader::Ipv6 { destination, .. }) => {
            let addr: Ipv6Addr = Ipv6Addr::from_octets(destination);
            let routers: Ipv6Addr = Ipv6Addr { bits: ROUTER_MULTICAST_ADDR };
            proof {
                law_ipv6_octets(addr, routers);
            }
            if addr == routers {
                return Outbound::Skip;
            }
            proof {
                assert forall|key: Seq<u8>| #[trigger] state@.knows(key) implies (
                state@.peers[key].addrs.v6 == addr <==> state@.peers[key].addrs.v6@
                    == destination@) by {
                    law_ipv6_octets(state@.peers[key].addrs.v6, addr);
                }
            }
            match state.peer_with_ipv6(addr) {
                Some(remote) => Outbound::Queue { remote, message: frame(buf, len) },
                None => Outbound::NoPeer,
            }
        },
    }
}

/// The network header that a buffer starts with, if it could be parsed and has one.
pub open spec fn outbound_net(buf: Seq<u8>) -> Option<NetHeader> {
    match sliced_net(buf) {
        Some(net) => net,
        None => None,
    }
}

/// Where the packet in the first `len` octets of a buffer goes. The whole buffer is parsed.
pub fn route_packet(state: &IvLanState, buf: &[u8], len: u16) -> (outcome: Outbound)
    requires
        state@.wf(),
        len <= buf@.len(),
    ensures
        routed(state@, outbound_net(buf@), buf@.take(len as int), outcome),
        outbound_net(buf@) is None <==> sliced_net(buf@) is None,
        outbound_net(buf@) matches Some(header) ==> header_found(buf@, header),
        sliced_net(buf@) is None ==> outcome is BadPacket,
        sliced_net(buf@) matches Some(Some(NetHeader::Ipv4 { .. })) ==> {
            &&& forall|key: Seq<u8>| #[trigger]
                state@.peers.dom().contains(key) && state@.peers[key].addrs.v4@ == buf@.subrange(
                    16,
                    20,
                ) ==> (outcome matches Outbound::Queue { remote, message } && remote@ == key
                    && message@ == framed(buf@.take(len as int)))
            &&& (forall|key: Seq<u8>| #[trigger]
                state@.peers.dom().contains(key) ==> state@.peers[key].addrs.v4@ != buf@.subrange(
                    16,
                    20,
                )) ==> outcome is NoPeer
        },
        sliced_net(buf@) matches Some(Some(NetHeader::Ipv6 { .. })) && !(outcome is Skip) ==> {
            &&& forall|key: Seq<u8>| #[trigger]
                state@.peers.dom().contains(key) && state@.peers[key].addrs.v6@ == buf@.subrange(
                    24,
                    40,
                ) ==> (outcome matches Outbound::Queue { remote, message } && remote@ == key
                    && message@ == framed(buf@.take(len as int)))
            &&& (forall|key: Seq<u8>| #[trigger]
                state@.peers.dom().contains(key) ==> state@.peers[key].addrs.v6@ != buf@.subrange(
                    24,
                    40,
                )) ==> outcome is NoPeer
        },
{
    let net: Option<NetHeader> = match slice_ip(buf) {
        Ok(net) => net,
        Err(_) => None,
    };
    let outcome: Outbound = route(state, net, buf, len);
    proof {
        let packet = buf@.take(len as int);
        assert forall|key: Seq<u8>| #[trigger] state@.peers.dom().contains(key) implies (match net {
            Some(NetHeader::Ipv4 { destination, .. }) => state@.peers[key].addrs.v4@ == destination@
                ==> (outcome matches Outbound::Queue { remote, .. } && remote@ == key),
            Some(NetHeader::Ipv6 { destination, .. }) => state@.peers[key].addrs.v6@ == destination@
                && !(outcome is Skip) ==> (outcome matches Outbound::Queue { remote, .. } && remote@
                == key),
            _ => true,
        }) by {
            match net {
                Some(NetHeader::Ipv4 { ihl, protocol, destination }) => {
                    law_ipv4_packet_reaches_its_peer(
                        state@,
                        ihl,
                        protocol,
                        destination,
                        packet,
                        outcome,
                        key,
                    );
                },
                Some(NetHeader::Ipv6 { next_header, destination }) => {
                    law_ipv6_packet_reaches_its_peer(
                        state@,
                        next_header,
                        destination,
                        packet,
                        outcome,
                        key,
                    );
                },
                _ => {},
            }
        }
    }
    outcome
}

/// A packet goes to one peer and no other, with one message and no other.
pub proof fn law_route_is_unique(
    network: Network,
    net: Option<NetHeader>,
    packet: Seq<u8>,
    a: Outbound,
    b: Outbound,
)
    requires
        network.wf(),
        routed(network, net, packet, a),
        routed(network, net, packet, b),
    ensures
        a is BadPacket <==> b is BadPacket,
        a is Skip <==> b is Skip,
        a is NoPeer <==> b is NoPeer,
        a matches Outbound::Queue { remote, message } ==> b matches Outbound::Queue {
            remote: other,
            message: twin,
        } && remote@ == other@ && message@ == twin@,
{
    if a is Queue && b is Queue {
        let x = a->remote@;
        let y = b->remote@;
        law_ipv4_octets(network.peers[x].addrs.v4, network.peers[y].addrs.v4);
        law_ipv6_octets(network.peers[x].addrs.v6, network.peers[y].addrs.v6);
        law_address_names_one_peer(network, x, y);
    }
}

/// What became of a message that was to wait for its turn.
#[derive(Clone, Copy, Debug, PartialEq, Eq, Structural)]
pub enum Queued {
    /// It waits.
    Waits,
    /// Too many messages wait already; it is dropped.
    Full,
    /// Nobody sends the messages any more; it is dropped.
    Closed,
}

/// Whether further packets of this host are taken after a message was to wait for its turn: they
/// are, unless nobody sends the messages any more.
pub fn goes_on(queued: Queued) -> (on: bool)
    ensures
        on == (queued != Queued::Closed),
{
    queued != Queued::Closed
}

/// A packet with an IPv4 header goes to the peer that has its destination as IPv4 address, whatever
/// it carries: as a message of its length, in two octets of which the lower is first, and itself.
/// If no peer has that address it goes nowhere.
pub proof fn law_ipv4_packet_reaches_its_peer(
    network: Network,
    ihl: u8,
    protocol: u8,
    destination: [u8; 4],
    packet: Seq<u8>,
    outcome: Outbound,
    key: Seq<u8>,
)
    requires
        network.wf(),
        packet.len() <= 0xffff,
        routed(
            network,
            Some(NetHeader::Ipv4 { ihl, protocol, destination }),
            packet,
            outcome,
        ),
    ensures
        network.peers.dom().contains(key) && network.peers[key].addrs.v4@ == destination@ ==> (
        outcome matches Outbound::Queue { remote, message } && remote@ == key && message@.len()
            == packet.len() + 2 && message@[0] + 256 * message@[1] == packet.len()
            && message@.skip(2) == packet),
        (forall|any: Seq<u8>| #[trigger]
            network.peers.dom().contains(any) ==> network.peers[any].addrs.v4@ != destination@)
            ==> outcome is NoPeer,
{
    law_message_on_the_wire(packet);
    if network.peers.dom().contains(key) && network.peers[key].addrs.v4@ == destination@ {
        assert(network.knows(key));
        if let Outbound::Queue { remote, message } = outcome {
            law_ipv4_octets(network.peers[key].addrs.v4, network.peers[remote@].addrs.v4);
            law_address_names_one_peer(network, key, remote@);
        }
    }
}

/// A packet with an IPv6 header goes to the peer that has its destination as IPv6 address, whatever
/// it carries: as a message of its length, in two octets of which the lower is first, and itself.
/// If no peer has that address it goes nowhere, and neither does one for all routers, at `ff02::2`.
pub proof fn law_ipv6_packet_reaches_its_peer(
    network: Network,
    next_header: u8,
    destination: [u8; 16],
    packet: Seq<u8>,
    outcome: Outbound,
    key: Seq<u8>,
)
    requires
        network.wf(),
        packet.len() <= 0xffff,
        routed(network, Some(NetHeader::Ipv6 { next_header, destination }), packet, outcome),
    ensures
        ({
            let routers = seq![0xffu8, 2u8, 0, 0, 0, 0, 0, 0, 0, 0, 0, 0, 0, 0, 0, 2u8];
            &&& outcome is Skip <==> destination@ == routers
            &&& destination@ != routers && network.peers.dom().contains(key)
                && network.peers[key].addrs.v6@ == destination@ ==> (outcome matches Outbound::Queue {
                remote,
                message,
            } && remote@ == key && message@.len() == packet.len() + 2 && message@[0] + 256
                * message@[1] == packet.len() && message@.skip(2) == packet)
            &&& destination@ != routers && (forall|any: Seq<u8>| #[trigger]
                network.peers.dom().contains(any) ==> network.peers[any].addrs.v6@ != destination@)
                ==> outcome is NoPeer
        }),
{
    law_message_on_the_wire(packet);
    lemma_routers();
    if network.peers.dom().contains(key) && network.peers[key].addrs.v6@ == destination@ {
        assert(network.knows(key));
        if let Outbound::Queue { remote, message } = outcome {
            law_ipv6_octets(network.peers[key].addrs.v6, network.peers[remote@].addrs.v6);
            law_address_names_one_peer(network, key, remote@);
        }
    }
}

proof fn lemma_routers()
    ensures
        (Ipv6Addr { bits: ROUTER_MULTICAST_ADDR })@ == seq![
            0xffu8, 2u8, 0, 0, 0, 0, 0, 0, 0, 0, 0, 0, 0, 0, 0, 2u8,
        ],
{
    let a = Ipv6Addr { bits: ROUTER_MULTICAST_ADDR };
    reveal_with_fuel(octets_of, 17);
    law_ipv6_octets_are_its_number(a);
    assert(a@ =~= seq![0xffu8, 2u8, 0, 0, 0, 0, 0, 0, 0, 0, 0, 0, 0, 0, 0, 2u8]);
}

/// A packet that has no network header is bad, and one of ARP is skipped; no other packet is bad.
pub proof fn law_other_packets_go_nowhere(
    network: Network,
    net: Option<NetHeader>,
    packet: Seq<u8>,
    outcome: Outbound,
)
    requires
        routed(network, net, packet, outcome),
    ensures
        outcome is BadPacket <==> net is None,
        net == Some(NetHeader::Arp) ==> outcome is Skip,
        net matches Some(NetHeader::Ipv4 { .. }) ==> !(outcome is Skip),
{
}

/// A buffer has the network header that was found in it, and none where it could not be parsed.
pub proof fn law_header_of_a_buffer(buf: Seq<u8>, header: NetHeader)
    ensures
        outbound_net(buf) == Some(header) <==> sliced_net(buf) == Some(Some(header)),
        sliced_net(buf) is None ==> outbound_net(buf) is None,
{
}

} // verus!
