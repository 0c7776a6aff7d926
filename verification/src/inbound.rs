//! The way of a packet from a peer to this host.

use crate::addr::{IpAddr, IpAddrs};
use crate::ip_util::{
    header_found, is_short_fragment, packet_patched, patch_in_bounds, patched_ends, sliced_net,
    try_patch_packet_addresses, NetHeader, PatchError,
};
use vstd::prelude::*;

verus! {

/// What becomes of a packet of a peer.
#[derive(Clone, Copy, Debug, PartialEq, Eq, Structural)]
pub enum Received {
    /// The packet cannot be parsed; it is dropped.
    BadPacket,
    /// The packet has no addresses to rewrite; it is dropped.
    Skip,
    /// The packet is handed to this host, from and to these addresses.
    Deliver(IpAddr, IpAddr),
}

/// Where the packets of a peer come from.
#[derive(Clone, Copy, Debug, PartialEq, Eq, Structural)]
pub enum Source {
    Stream,
    Datagrams,
}

/// What a reader of packets comes upon.
#[derive(Clone, Copy, Debug, PartialEq, Eq, Structural)]
pub enum RecvEvent {
    /// Nothing more can be read.
    Failed,
    /// A packet was read.
    Packet(Received),
}

/// What a reader of packets does next.
#[derive(Clone, Copy, Debug, PartialEq, Eq, Structural)]
pub enum RecvAction {
    /// It reads on.
    ReadOn,
    /// It hands the packet to this host and reads on.
    Deliver,
    /// It ends; and the connection is given up for sending as well, if so told.
    End { drop_link: bool },
}

/// What becomes of a packet, given the ends that its addresses were set to, if any; nothing
/// stands for a packet that could not be parsed.
pub open spec fn receipt(ends: Option<Option<(IpAddr, IpAddr)>>) -> Received {
    match ends {
        None => Received::BadPacket,
        Some(None) => Received::Skip,
        Some(Some((src, dst))) => Received::Deliver(src, dst),
    }
}

/// What becomes of a packet, given what came of rewriting its addresses.
pub fn receive_patched(ends: Result<Option<(IpAddr, IpAddr)>, PatchError>) -> (received: Received)
    ensures
        received == receipt(
            match ends {
                Ok(ends) => Some(ends),
                Err(_) => None,
            },
        ),
{
    match ends {
        Err(_) => Received::BadPacket,
        Ok(None) => Received::Skip,
        Ok(Some((src, dst))) => Received::Deliver(src, dst),
    }
}

/// Takes a packet of a peer in: it comes from the address that the peer has on this host, and
/// goes to the host's own. Nothing is done to a fragment that is too short for that.
pub fn receive(packet: &mut [u8], peer: IpAddrs, host: IpAddrs) -> (received: Option<Received>)
    ensures
        match sliced_net(old(packet)@) {
            None => received == Some(receipt(None)) && final(packet)@ == old(packet)@,
            Some(net) => if patch_in_bounds(old(packet)@, net) {
                &&& received == Some(receipt(Some(patched_ends(net, peer, host))))
                &&& final(packet)@ == packet_patched(old(packet)@, net, peer, host)
            } else {
                &&& received is None
                &&& final(packet)@ == old(packet)@
            },
        },
        sliced_net(old(packet)@) matches Some(net) ==> net matches Some(header) && header_found(
            old(packet)@,
            header,
        ),
        received is None ==> is_short_fragment(old(packet)@),
        sliced_net(old(packet)@) is None ==> received == Some(Received::BadPacket),
        sliced_net(old(packet)@) matches Some(Some(NetHeader::Ipv4 { .. })) && received is Some ==> {
            &&& received == Some(Received::Deliver(IpAddr::V4(peer.v4), IpAddr::V4(host.v4)))
            &&& final(packet)@.subrange(12, 16) == peer.v4@
            &&& final(packet)@.subrange(16, 20) == host.v4@
        },
        sliced_net(old(packet)@) matches Some(Some(NetHeader::Ipv6 { .. })) && received is Some ==> {
            &&& received == Some(Received::Deliver(IpAddr::V6(peer.v6), IpAddr::V6(host.v6)))
            &&& final(packet)@.subrange(8, 24) == peer.v6@
            &&& final(packet)@.subrange(24, 40) == host.v6@
        },
{
    match try_patch_packet_addresses(packet, peer, host) {
        None => None,
        Some(ends) => Some(receive_patched(ends)),
    }
}

/// What a reader of packets does next. Where a stream ends, the connection is given up for
/// sending as well, so that a new one is made; datagrams may stop alone.
pub open spec fn recv_action(source: Source, event: RecvEvent) -> RecvAction {
    match event {
        RecvEvent::Failed => RecvAction::End { drop_link: source == Source::Stream },
        RecvEvent::Packet(Received::Deliver(_, _)) => RecvAction::Deliver,
        RecvEvent::Packet(_) => RecvAction::ReadOn,
    }
}

/// What a reader of packets does next.
pub fn recv_step(source: Source, event: RecvEvent) -> (action: RecvAction)
    ensures
        action == recv_action(source, event),
{
    match event {
        RecvEvent::Failed => RecvAction::End { drop_link: source == Source::Stream },
        RecvEvent::Packet(Received::Deliver(_, _)) => RecvAction::Deliver,
        RecvEvent::Packet(_) => RecvAction::ReadOn,
    }
}

/// What could not be parsed is a bad packet, what got no new ends is skipped, and what got some is
/// delivered between those ends, in that order; and nothing else is.
pub proof fn law_receipt_goes_by_the_ends(
    ends: Option<Option<(IpAddr, IpAddr)>>,
    src: IpAddr,
    dst: IpAddr,
)
    ensures
        receipt(ends) is BadPacket <==> ends is None,
        receipt(ends) is Skip <==> ends == Some(None::<(IpAddr, IpAddr)>),
        receipt(ends) == Received::Deliver(src, dst) <==> ends == Some(Some((src, dst))),
{
}

/// A packet is handed to this host exactly if it was readdressed, from whatever source it came
/// and whatever its ends are; and reading ends exactly where nothing more can be read, for
/// sending as well exactly on a stream.
pub proof fn law_delivered_iff_readdressed(source: Source, event: RecvEvent)
    ensures
        recv_action(source, event) == RecvAction::Deliver <==> (event matches RecvEvent::Packet(
            received,
        ) && received is Deliver),
        recv_action(source, event) is ReadOn <==> (event matches RecvEvent::Packet(received) && !(
        received is Deliver)),
        recv_action(source, event) is End <==> event is Failed,
        recv_action(source, event) == (RecvAction::End { drop_link: true }) <==> event is Failed
            && source is Stream,
        recv_action(source, event) == (RecvAction::End { drop_link: false }) <==> event is Failed
            && source is Datagrams,
{
}

/// No packet ends the reading, be it as bad as it may.
pub proof fn law_no_packet_ends_reading(source: Source, received: Received)
    ensures
        !(recv_action(source, RecvEvent::Packet(received)) is End),
{
}

} // verus!
