//! Rewriting the addresses of IP packets, with the checksums that cover them.

use crate::addr::{law_ipv4_octets, law_ipv6_octets, IpAddr, IpAddrs, Ipv4Addr, Ipv6Addr};
use crate::checksum::{
    csum_replace_words, csum_replaced_words, read_word, with_word, word_at, write_word, ONES,
};
use crate::patch_laws::{law_ipv4_packet_is_readdressed, law_ipv6_packet_is_readdressed};
use etherparse::{NetSlice, SlicedPacket};
use vstd::prelude::*;

verus! {

/// The number of the address to which hosts send what is meant for all routers of a link.
pub const ROUTER_MULTICAST_ADDR: u128 = 0xff02_0000_0000_0000_0000_0000_0000_0002;

/// The IP number of TCP.
pub const TCP: u8 = 6;

/// The IP number of UDP.
pub const UDP: u8 = 17;

/// Where the TCP header holds its checksum.
pub const TCP_CHECKSUM: usize = 16;

/// Where the UDP header holds its checksum.
pub const UDP_CHECKSUM: usize = 6;

/// Where the IPv4 header holds its checksum.
pub const IPV4_CHECKSUM: usize = 10;

/// Where the IPv4 header holds the source address.
pub const IPV4_SOURCE: usize = 12;

/// Where the IPv4 header holds the destination address.
pub const IPV4_DESTINATION: usize = 16;

/// Where the IPv6 header holds the source address.
pub const IPV6_SOURCE: usize = 8;

/// Where the IPv6 header holds the destination address.
pub const IPV6_DESTINATION: usize = 24;

/// The length of the IPv4 header without options.
pub const IPV4_HEADER: usize = 20;

/// The length of the IPv6 header.
pub const IPV6_HEADER: usize = 40;

/// `data` with `octets` in the place that starts at `at`.
pub open spec fn with_octets(data: Seq<u8>, at: int, octets: Seq<u8>) -> Seq<u8> {
    Seq::new(
        data.len(),
        |i: int|
            if at <= i < at + octets.len() {
                octets[i - at]
            } else {
                data[i]
            },
    )
}

/// Writes `octets` into the place that starts at `at`.
fn write_octets(data: &mut [u8], at: usize, octets: &[u8])
    requires
        at + octets@.len() <= old(data)@.len(),
    ensures
        final(data)@ == with_octets(old(data)@, at as int, octets@),
{
    let len: usize = data.len();
    let mut done: usize = 0;
    while done < octets.len()
        invariant
            done <= octets@.len(),
            at + octets@.len() <= len,
            len == data@.len(),
            data@ == with_octets(old(data)@, at as int, octets@.take(done as int)),
        decreases octets@.len() - done,
    {
        data[at + done] = octets[done];
        done = done + 1;
    }
    proof {
        assert(octets@.take(done as int) =~= octets@);
    }
}

/// A checksum that covers the two addresses of a packet, after they changed.
pub open spec fn csum_readdressed(
    checksum: u16,
    old_src: Seq<u8>,
    old_dst: Seq<u8>,
    new_src: Seq<u8>,
    new_dst: Seq<u8>,
) -> u16 {
    csum_replaced_words(csum_replaced_words(checksum, old_src, new_src), old_dst, new_dst)
}

/// A packet whose TCP checksum at `at` followed the change of its addresses.
pub open spec fn tcp_readdressed(
    packet: Seq<u8>,
    at: int,
    old_src: Seq<u8>,
    old_dst: Seq<u8>,
    new_src: Seq<u8>,
    new_dst: Seq<u8>,
) -> Seq<u8> {
    with_word(
        packet,
        at,
        csum_readdressed(word_at(packet, at), old_src, old_dst, new_src, new_dst),
    )
}

/// A packet whose UDP checksum at `at` followed the change of its addresses. Zero says that
/// the sender computed none, and stays; a checksum that comes out as zero is spelled as all
/// ones.
pub open spec fn udp_readdressed(
    packet: Seq<u8>,
    at: int,
    old_src: Seq<u8>,
    old_dst: Seq<u8>,
    new_src: Seq<u8>,
    new_dst: Seq<u8>,
) -> Seq<u8> {
    let checksum = word_at(packet, at);
    let updated = csum_readdressed(checksum, old_src, old_dst, new_src, new_dst);
    if checksum == 0 {
        packet
    } else if updated == 0 {
        with_word(packet, at, ONES)
    } else {
        with_word(packet, at, updated)
    }
}

fn readdress_tcp_checksum(
    buf: &mut [u8],
    at: usize,
    old_src: &[u8],
    old_dst: &[u8],
    new_src: &[u8],
    new_dst: &[u8],
)
    requires
        at + 2 <= old(buf)@.len(),
        old_src@.len() == new_src@.len(),
        old_dst@.len() == new_dst@.len(),
        old_src@.len() % 2 == 0,
        old_dst@.len() % 2 == 0,
    ensures
        final(buf)@ == tcp_readdressed(
            old(buf)@,
            at as int,
            old_src@,
            old_dst@,
            new_src@,
            new_dst@,
        ),
{
    let checksum: u16 = read_word(buf, at);
    let checksum: u16 = csum_replace_words(checksum, old_src, new_src);
    let checksum: u16 = csum_replace_words(checksum, old_dst, new_dst);
    write_word(buf, at, checksum);
}

fn readdress_udp_checksum(
    buf: &mut [u8],
    at: usize,
    old_src: &[u8],
    old_dst: &[u8],
    new_src: &[u8],
    new_dst: &[u8],
)
    requires
        at + 2 <= old(buf)@.len(),
        old_src@.len() == new_src@.len(),
        old_dst@.len() == new_dst@.len(),
        old_src@.len() % 2 == 0,
        old_dst@.len() % 2 == 0,
    ensures
        final(buf)@ == udp_readdressed(
            old(buf)@,
            at as int,
            old_src@,
            old_dst@,
            new_src@,
            new_dst@,
        ),
{
    let checksum: u16 = read_word(buf, at);
    if checksum == 0 {
        return;
    }
    let checksum: u16 = csum_replace_words(checksum, old_src, new_src);
    let checksum: u16 = csum_replace_words(checksum, old_dst, new_dst);
    write_word(
        buf,
        at,
        if checksum == 0 {
            ONES
        } else {
            checksum
        },
    );
}

/// Updates the checksum of the TCP header at `tcp_start` for a change of IPv4 addresses.
pub fn recalculate_tcp_checksum_ipv4(
    buf: &mut [u8],
    old_src: Ipv4Addr,
    old_dst: Ipv4Addr,
    new_src: Ipv4Addr,
    new_dst: Ipv4Addr,
    tcp_start: usize,
)
    requires
        tcp_start + TCP_CHECKSUM + 2 <= old(buf)@.len(),
    ensures
        final(buf)@ == tcp_readdressed(
            old(buf)@,
            tcp_start + TCP_CHECKSUM,
            old_src@,
            old_dst@,
            new_src@,
            new_dst@,
        ),
        final(buf)@.len() == old(buf)@.len(),
        forall|i: int|
            0 <= i < old(buf)@.len() && i != tcp_start + 16 && i != tcp_start + 17
                ==> #[trigger] final(buf)@[i] == old(buf)@[i],
{
    proof {
        assert(buf.len() == buf@.len());
    }
    readdress_tcp_checksum(
        buf,
        tcp_start + TCP_CHECKSUM,
        old_src.octets().as_slice(),
        old_dst.octets().as_slice(),
        new_src.octets().as_slice(),
        new_dst.octets().as_slice(),
    );
}

/// Updates the checksum of the UDP header at `udp_start` for a change of IPv4 addresses.
pub fn recalculate_udp_checksum_ipv4(
    buf: &mut [u8],
    old_src: Ipv4Addr,
    old_dst: Ipv4Addr,
    new_src: Ipv4Addr,
    new_dst: Ipv4Addr,
    udp_start: usize,
)
    requires
        udp_start + UDP_CHECKSUM + 2 <= old(buf)@.len(),
    ensures
        final(buf)@ == udp_readdressed(
            old(buf)@,
            udp_start + UDP_CHECKSUM,
            old_src@,
            old_dst@,
            new_src@,
            new_dst@,
        ),
        final(buf)@.len() == old(buf)@.len(),
        forall|i: int|
            0 <= i < old(buf)@.len() && i != udp_start + 6 && i != udp_start + 7
                ==> #[trigger] final(buf)@[i] == old(buf)@[i],
{
    proof {
        assert(buf.len() == buf@.len());
    }
    readdress_udp_checksum(
        buf,
        udp_start + UDP_CHECKSUM,
        old_src.octets().as_slice(),
        old_dst.octets().as_slice(),
        new_src.octets().as_slice(),
        new_dst.octets().as_slice(),
    );
}

/// Updates the checksum of the TCP header at `tcp_start` for a change of IPv6 addresses.
pub fn recalculate_tcp_checksum_ipv6(
    buf: &mut [u8],
    old_src: Ipv6Addr,
    old_dst: Ipv6Addr,
    new_src: Ipv6Addr,
    new_dst: Ipv6Addr,
    tcp_start: usize,
)
    requires
        tcp_start + TCP_CHECKSUM + 2 <= old(buf)@.len(),
    ensures
        final(buf)@ == tcp_readdressed(
            old(buf)@,
            tcp_start + TCP_CHECKSUM,
            old_src@,
            old_dst@,
            new_src@,
            new_dst@,
        ),
        final(buf)@.len() == old(buf)@.len(),
        forall|i: int|
            0 <= i < old(buf)@.len() && i != tcp_start + 16 && i != tcp_start + 17
                ==> #[trigger] final(buf)@[i] == old(buf)@[i],
{
    proof {
        assert(buf.len() == buf@.len());
    }
    readdress_tcp_checksum(
        buf,
        tcp_start + TCP_CHECKSUM,
        old_src.octets().as_slice(),
        old_dst.octets().as_slice(),
        new_src.octets().as_slice(),
        new_dst.octets().as_slice(),
    );
}

/// Updates the checksum of the UDP header at `udp_start` for a change of IPv6 addresses.
pub fn recalculate_udp_checksum_ipv6(
    buf: &mut [u8],
    old_src: Ipv6Addr,
    old_dst: Ipv6Addr,
    new_src: Ipv6Addr,
    new_dst: Ipv6Addr,
    udp_start: usize,
)
    requires
        udp_start + UDP_CHECKSUM + 2 <= old(buf)@.len(),
    ensures
        final(buf)@ == udp_readdressed(
            old(buf)@,
            udp_start + UDP_CHECKSUM,
            old_src@,
            old_dst@,
            new_src@,
            new_dst@,
        ),
        final(buf)@.len() == old(buf)@.len(),
        forall|i: int|
            0 <= i < old(buf)@.len() && i != udp_start + 6 && i != udp_start + 7
                ==> #[trigger] final(buf)@[i] == old(buf)@[i],
{
    proof {
        assert(buf.len() == buf@.len());
    }
    readdress_udp_checksum(
        buf,
        udp_start + UDP_CHECKSUM,
        old_src.octets().as_slice(),
        old_dst.octets().as_slice(),
        new_src.octets().as_slice(),
        new_dst.octets().as_slice(),
    );
}

/// What the network header of a packet says, as far as routing and rewriting go by it.
#[derive(Clone, Copy, Debug)]
pub enum NetHeader {
    /// An IPv4 header of `ihl` times four octets, before data of the kind `protocol`.
    Ipv4 { ihl: u8, protocol: u8, destination: [u8; 4] },
    /// An IPv6 header, before a header of the kind `next_header`.
    Ipv6 { next_header: u8, destination: [u8; 16] },
    /// An ARP packet.
    Arp,
}

/// The error of the packet parser.
#[verifier::external_type_specification]
#[verifier::external_body]
pub struct ExSliceError(etherparse::err::packet::SliceError);

/// Why the addresses of a packet could not be rewritten.
#[derive(Debug)]
pub enum PatchError {
    /// The packet could not be parsed.
    Slice(etherparse::err::packet::SliceError),
}

/// What `SlicedPacket::from_ip` makes of a packet: nothing where it fails, else the network
/// header that it found, if any.
pub uninterp spec fn sliced_net(packet: Seq<u8>) -> Option<Option<NetHeader>>;

/// Whether an IPv4 packet is one fragment of several: more follow it, or it is not the first.
pub open spec fn is_fragment(packet: Seq<u8>) -> bool {
    packet[6] % 64 >= 32 || packet[6] % 32 != 0 || packet[7] != 0
}

/// What a header found in `packet` has to do with its octets: it is an IP header of the version
/// that the first of them tells. Unless the packet is a fragment, a whole TCP or UDP header
/// follows where the IP header announces one.
pub open spec fn header_found(packet: Seq<u8>, net: NetHeader) -> bool {
    match net {
        NetHeader::Ipv4 { ihl, protocol, destination } => {
            &&& packet.len() >= IPV4_HEADER
            &&& packet[0] / 16 == 4
            &&& ihl == packet[0] % 16
            &&& 5 <= ihl
            &&& 4 * ihl <= packet.len()
            &&& protocol == packet[9]
            &&& destination@ == packet.subrange(IPV4_DESTINATION as int, IPV4_DESTINATION + 4)
            &&& !is_fragment(packet) && protocol == TCP ==> 4 * ihl + 20 <= packet.len()
            &&& !is_fragment(packet) && protocol == UDP ==> 4 * ihl + 8 <= packet.len()
        },
        NetHeader::Ipv6 { next_header, destination } => {
            &&& packet.len() >= IPV6_HEADER
            &&& packet[0] / 16 == 6
            &&& next_header == packet[6]
            &&& destination@ == packet.subrange(IPV6_DESTINATION as int, IPV6_DESTINATION + 16)
            &&& next_header == TCP ==> IPV6_HEADER + 20 <= packet.len()
            &&& next_header == UDP ==> IPV6_HEADER + 8 <= packet.len()
        },
        NetHeader::Arp => false,
    }
}

/// Parses a packet by `SlicedPacket::from_ip` of etherparse and takes from the network header,
/// by its own accessors, the header length, the protocol and the destination. The outcome
/// depends on the octets of the packet alone. Where the parser succeeds there is an IP header,
/// and those values are what it holds.
#[verifier::external_body]
pub(crate) fn slice_ip(packet: &[u8]) -> (net: Result<
    Option<NetHeader>,
    etherparse::err::packet::SliceError,
>)
    ensures
        net is Err <==> sliced_net(packet@) is None,
        net matches Ok(found) ==> sliced_net(packet@) == Some(found),
        net matches Ok(found) ==> found is Some,
        net matches Ok(Some(header)) ==> header_found(packet@, header),
{
    Ok(match SlicedPacket::from_ip(packet)?.net {
        Some(NetSlice::Ipv4(s)) => Some(NetHeader::Ipv4 {
            ihl: s.header().ihl(),
            protocol: s.header().protocol().0,
            destination: s.header().destination(),
        }),
        Some(NetSlice::Ipv6(s)) => Some(NetHeader::Ipv6 {
            next_header: s.header().next_header().0,
            destination: s.header().destination(),
        }),
        Some(NetSlice::Arp(_)) => Some(NetHeader::Arp),
        None => None,
    })
}

/// Whether the checksum of the transport header at `start`, if `protocol` has one, lies in the
/// packet.
pub open spec fn transport_in_bounds(packet: Seq<u8>, start: int, protocol: u8) -> bool {
    &&& protocol == TCP ==> start + TCP_CHECKSUM + 2 <= packet.len()
    &&& protocol == UDP ==> start + UDP_CHECKSUM + 2 <= packet.len()
}

/// Whether all that rewriting the addresses touches lies in the packet.
pub open spec fn patch_in_bounds(packet: Seq<u8>, net: Option<NetHeader>) -> bool {
    match net {
        Some(NetHeader::Ipv4 { ihl, protocol, .. }) => IPV4_HEADER <= packet.len()
            && transport_in_bounds(packet, 4 * ihl, protocol),
        Some(NetHeader::Ipv6 { next_header, .. }) => IPV6_HEADER <= packet.len()
            && transport_in_bounds(packet, IPV6_HEADER as int, next_header),
        _ => true,
    }
}

/// The octets of the source address of an IPv4 packet.
pub open spec fn ipv4_source(packet: Seq<u8>) -> Seq<u8> {
    packet.subrange(IPV4_SOURCE as int, IPV4_SOURCE + 4)
}

/// The octets of the destination address of an IPv4 packet.
pub open spec fn ipv4_destination(packet: Seq<u8>) -> Seq<u8> {
    packet.subrange(IPV4_DESTINATION as int, IPV4_DESTINATION + 4)
}

/// The octets of the source address of an IPv6 packet.
pub open spec fn ipv6_source(packet: Seq<u8>) -> Seq<u8> {
    packet.subrange(IPV6_SOURCE as int, IPV6_SOURCE + 16)
}

/// The octets of the destination address of an IPv6 packet.
pub open spec fn ipv6_destination(packet: Seq<u8>) -> Seq<u8> {
    packet.subrange(IPV6_DESTINATION as int, IPV6_DESTINATION + 16)
}

/// A packet whose transport checksum, where `protocol` has one, followed the change of its
/// addresses.
pub open spec fn transport_readdressed(
    packet: Seq<u8>,
    start: int,
    protocol: u8,
    old_src: Seq<u8>,
    old_dst: Seq<u8>,
    new_src: Seq<u8>,
    new_dst: Seq<u8>,
) -> Seq<u8> {
    if protocol == TCP {
        tcp_readdressed(packet, start + TCP_CHECKSUM, old_src, old_dst, new_src, new_dst)
    } else if protocol == UDP {
        udp_readdressed(packet, start + UDP_CHECKSUM, old_src, old_dst, new_src, new_dst)
    } else {
        packet
    }
}

/// An IPv4 packet with new addresses in its header, and the header's checksum to match.
pub open spec fn ipv4_header_patched(packet: Seq<u8>, src: Seq<u8>, dst: Seq<u8>) -> Seq<u8> {
    with_word(
        with_octets(
            with_octets(packet, IPV4_SOURCE as int, src),
            IPV4_DESTINATION as int,
            dst,
        ),
        IPV4_CHECKSUM as int,
        csum_readdressed(
            word_at(packet, IPV4_CHECKSUM as int),
            ipv4_source(packet),
            ipv4_destination(packet),
            src,
            dst,
        ),
    )
}

/// An IPv4 packet with new addresses and the checksums to match.
pub open spec fn ipv4_patched(
    packet: Seq<u8>,
    ihl: u8,
    protocol: u8,
    src: Seq<u8>,
    dst: Seq<u8>,
) -> Seq<u8> {
    transport_readdressed(
        ipv4_header_patched(packet, src, dst),
        4 * ihl,
        protocol,
        ipv4_source(packet),
        ipv4_destination(packet),
        src,
        dst,
    )
}

/// An IPv6 packet with new addresses in its header.
pub open spec fn ipv6_header_patched(packet: Seq<u8>, src: Seq<u8>, dst: Seq<u8>) -> Seq<u8> {
    with_octets(with_octets(packet, IPV6_SOURCE as int, src), IPV6_DESTINATION as int, dst)
}

/// An IPv6 packet with new addresses and the transport checksum to match.
pub open spec fn ipv6_patched(
    packet: Seq<u8>,
    next_header: u8,
    src: Seq<u8>,
    dst: Seq<u8>,
) -> Seq<u8> {
    transport_readdressed(
        ipv6_header_patched(packet, src, dst),
        IPV6_HEADER as int,
        next_header,
        ipv6_source(packet),
        ipv6_destination(packet),
        src,
        dst,
    )
}

/// The packet that rewriting leaves.
pub open spec fn packet_patched(
    packet: Seq<u8>,
    net: Option<NetHeader>,
    src: IpAddrs,
    dst: IpAddrs,
) -> Seq<u8> {
    match net {
        Some(NetHeader::Ipv4 { ihl, protocol, .. }) => ipv4_patched(
            packet,
            ihl,
            protocol,
            src.v4@,
            dst.v4@,
        ),
        Some(NetHeader::Ipv6 { next_header, .. }) => ipv6_patched(
            packet,
            next_header,
            src.v6@,
            dst.v6@,
        ),
        _ => packet,
    }
}

/// The addresses that rewriting puts in, if it does.
pub open spec fn patched_ends(net: Option<NetHeader>, src: IpAddrs, dst: IpAddrs) -> Option<
    (IpAddr, IpAddr),
> {
    match net {
        Some(NetHeader::Ipv4 { .. }) => Some((IpAddr::V4(src.v4), IpAddr::V4(dst.v4))),
        Some(NetHeader::Ipv6 { .. }) => Some((IpAddr::V6(src.v6), IpAddr::V6(dst.v6))),
        _ => None,
    }
}

/// Rewrites the addresses of an IPv4 packet.
fn patch_ipv4(buf: &mut [u8], ihl: u8, protocol: u8, src: Ipv4Addr, dst: Ipv4Addr)
    requires
        IPV4_HEADER <= old(buf)@.len(),
        transport_in_bounds(old(buf)@, 4 * ihl, protocol),
    ensures
        final(buf)@ == ipv4_patched(old(buf)@, ihl, protocol, src@, dst@),
{
    let header_len: usize = ihl as usize * 4;
    let old_src: Ipv4Addr = Ipv4Addr::from_octets([buf[12], buf[13], buf[14], buf[15]]);
    let old_dst: Ipv4Addr = Ipv4Addr::from_octets([buf[16], buf[17], buf[18], buf[19]]);
    proof {
        assert(old_src@ =~= ipv4_source(old(buf)@));
        assert(old_dst@ =~= ipv4_destination(old(buf)@));
        law_ipv4_octets(src, dst);
        law_ipv4_octets(dst, src);
    }
    write_octets(buf, IPV4_SOURCE, src.octets().as_slice());
    write_octets(buf, IPV4_DESTINATION, dst.octets().as_slice());
    readdress_tcp_checksum(
        buf,
        IPV4_CHECKSUM,
        old_src.octets().as_slice(),
        old_dst.octets().as_slice(),
        src.octets().as_slice(),
        dst.octets().as_slice(),
    );
    if protocol == TCP {
        recalculate_tcp_checksum_ipv4(buf, old_src, old_dst, src, dst, header_len);
    } else if protocol == UDP {
        recalculate_udp_checksum_ipv4(buf, old_src, old_dst, src, dst, header_len);
    }
}

/// The sixteen octets that start at `at`.
fn sixteen_at(data: &[u8], at: usize) -> (octets: [u8; 16])
    requires
        at + 16 <= data@.len(),
    ensures
        octets@ == data@.subrange(at as int, at + 16),
{
    let len: usize = data.len();
    let mut octets: [u8; 16] = [0u8; 16];
    let mut done: usize = 0;
    while done < 16
        invariant
            done <= 16,
            at + 16 <= len,
            len == data@.len(),
            forall|i: int| 0 <= i < done ==> octets@[i] == data@[at + i],
        decreases 16 - done,
    {
        octets[done] = data[at + done];
        done = done + 1;
    }
    proof {
        assert(octets@ =~= data@.subrange(at as int, at + 16));
    }
    octets
}

/// Rewrites the addresses of an IPv6 packet.
fn patch_ipv6(buf: &mut [u8], next_header: u8, src: Ipv6Addr, dst: Ipv6Addr)
    requires
        IPV6_HEADER <= old(buf)@.len(),
        transport_in_bounds(old(buf)@, IPV6_HEADER as int, next_header),
    ensures
        final(buf)@ == ipv6_patched(old(buf)@, next_header, src@, dst@),
{
    let old_src: Ipv6Addr = Ipv6Addr::from_octets(sixteen_at(buf, IPV6_SOURCE));
    let old_dst: Ipv6Addr = Ipv6Addr::from_octets(sixteen_at(buf, IPV6_DESTINATION));
    proof {
        law_ipv6_octets(src, dst);
        law_ipv6_octets(dst, src);
    }
    write_octets(buf, IPV6_SOURCE, src.octets().as_slice());
    write_octets(buf, IPV6_DESTINATION, dst.octets().as_slice());
    if next_header == TCP {
        recalculate_tcp_checksum_ipv6(buf, old_src, old_dst, src, dst, IPV6_HEADER);
    } else if next_header == UDP {
        recalculate_udp_checksum_ipv6(buf, old_src, old_dst, src, dst, IPV6_HEADER);
    }
}

/// Rewrites the addresses of a packet whose network header is known. Says which addresses went
/// in; a packet that is not IP stays as it is.
pub fn patch_parsed(
    buf: &mut [u8],
    net: Option<NetHeader>,
    src: IpAddrs,
    dst: IpAddrs,
) -> (ends: Option<(IpAddr, IpAddr)>)
    requires
        patch_in_bounds(old(buf)@, net),
    ensures
        final(buf)@ == packet_patched(old(buf)@, net, src, dst),
        ends == patched_ends(net, src, dst),
        net matches Some(NetHeader::Ipv4 { ihl, .. }) ==> {
            &&& ends == Some((IpAddr::V4(src.v4), IpAddr::V4(dst.v4)))
            &&& 5 <= ihl ==> final(buf)@.subrange(12, 16) == src.v4@
            &&& 5 <= ihl ==> final(buf)@.subrange(16, 20) == dst.v4@
        },
        net matches Some(NetHeader::Ipv6 { .. }) ==> {
            &&& ends == Some((IpAddr::V6(src.v6), IpAddr::V6(dst.v6)))
            &&& final(buf)@.subrange(8, 24) == src.v6@
            &&& final(buf)@.subrange(24, 40) == dst.v6@
        },
        net is None || net == Some(NetHeader::Arp) ==> ends is None && final(buf)@ == old(buf)@,
{
    proof {
        match net {
            Some(NetHeader::Ipv4 { ihl, protocol, destination }) => {
                if 5 <= ihl {
                    law_ipv4_packet_is_readdressed(buf@, ihl, protocol, destination, src, dst);
                }
            },
            Some(NetHeader::Ipv6 { next_header, destination }) => {
                law_ipv6_packet_is_readdressed(buf@, next_header, destination, src, dst);
            },
            _ => {},
        }
    }
    match net {
        Some(NetHeader::Ipv4 { ihl, protocol, destination: _ }) => {
            patch_ipv4(buf, ihl, protocol, src.v4, dst.v4);
            Some((IpAddr::V4(src.v4), IpAddr::V4(dst.v4)))
        },
        Some(NetHeader::Ipv6 { next_header, destination: _ }) => {
            patch_ipv6(buf, next_header, src.v6, dst.v6);
            Some((IpAddr::V6(src.v6), IpAddr::V6(dst.v6)))
        },
        _ => None,
    }
}

/// Puts `src` and `dst` in place of the addresses of a packet, and brings the checksums that
/// cover them up to date. Says which addresses went in; a packet that is not IP stays as it is.
pub fn patch_packet_addresses(buf: &mut [u8], src: IpAddrs, dst: IpAddrs) -> (ends: Result<
    Option<(IpAddr, IpAddr)>,
    PatchError,
>)
    requires
        sliced_net(old(buf)@) matches Some(net) ==> patch_in_bounds(old(buf)@, net),
    ensures
        match sliced_net(old(buf)@) {
            None => ends is Err && final(buf)@ == old(buf)@,
            Some(net) => {
                &&& net matches Some(header) && header_found(old(buf)@, header)
                &&& ends matches Ok(put) && put == patched_ends(net, src, dst)
                &&& final(buf)@ == packet_patched(old(buf)@, net, src, dst)
            },
        },
        sliced_net(old(buf)@) matches Some(Some(NetHeader::Ipv4 { .. })) ==> {
            &&& ends matches Ok(put) && put == Some((IpAddr::V4(src.v4), IpAddr::V4(dst.v4)))
            &&& final(buf)@.subrange(12, 16) == src.v4@
            &&& final(buf)@.subrange(16, 20) == dst.v4@
        },
        sliced_net(old(buf)@) matches Some(Some(NetHeader::Ipv6 { .. })) ==> {
            &&& ends matches Ok(put) && put == Some((IpAddr::V6(src.v6), IpAddr::V6(dst.v6)))
            &&& final(buf)@.subrange(8, 24) == src.v6@
            &&& final(buf)@.subrange(24, 40) == dst.v6@
        },
{
    match slice_ip(buf) {
        Ok(net) => Ok(patch_parsed(buf, net, src, dst)),
        Err(e) => Err(PatchError::Slice(e)),
    }
}

/// Tells whether all that rewriting the addresses touches lies in the packet.
fn fits(packet: &[u8], net: Option<NetHeader>) -> (fits: bool)
    ensures
        fits == patch_in_bounds(packet@, net),
{
    let len: usize = packet.len();
    match net {
        Some(NetHeader::Ipv4 { ihl, protocol, destination: _ }) => {
            let start: usize = 4 * ihl as usize;
            IPV4_HEADER <= len && (protocol != TCP || start + TCP_CHECKSUM + 2 <= len) && (protocol
                != UDP || start + UDP_CHECKSUM + 2 <= len)
        },
        Some(NetHeader::Ipv6 { next_header, destination: _ }) => {
            IPV6_HEADER <= len && (next_header != TCP || IPV6_HEADER + TCP_CHECKSUM + 2 <= len) && (
            next_header != UDP || IPV6_HEADER + UDP_CHECKSUM + 2 <= len)
        },
        _ => true,
    }
}

/// Whether a packet is an IPv4 fragment of TCP or UDP that is too short for the transport
/// checksum to lie where an unfragmented packet has it.
pub open spec fn is_short_fragment(packet: Seq<u8>) -> bool {
    &&& packet.len() >= IPV4_HEADER
    &&& packet[0] / 16 == 4
    &&& is_fragment(packet)
    &&& {
        ||| packet[9] == TCP && packet.len() < 4 * (packet[0] % 16) + TCP_CHECKSUM + 2
        ||| packet[9] == UDP && packet.len() < 4 * (packet[0] % 16) + UDP_CHECKSUM + 2
    }
}

/// Does what [`patch_packet_addresses`] does where all that it touches lies in the packet, and
/// else, which happens only to short IPv4 fragments, nothing.
pub fn try_patch_packet_addresses(buf: &mut [u8], src: IpAddrs, dst: IpAddrs) -> (ends: Option<
    Result<Option<(IpAddr, IpAddr)>, PatchError>,
>)
    ensures
        match sliced_net(old(buf)@) {
            None => ends matches Some(Err(_)) && final(buf)@ == old(buf)@,
            Some(net) => if patch_in_bounds(old(buf)@, net) {
                &&& ends matches Some(Ok(put)) && put == patched_ends(net, src, dst)
                &&& final(buf)@ == packet_patched(old(buf)@, net, src, dst)
            } else {
                &&& ends is None
                &&& final(buf)@ == old(buf)@
            },
        },
        sliced_net(old(buf)@) matches Some(net) ==> net matches Some(header) && header_found(
            old(buf)@,
            header,
        ),
        ends is None ==> is_short_fragment(old(buf)@),
        sliced_net(old(buf)@) matches Some(Some(NetHeader::Ipv4 { .. })) && ends is Some ==> {
            &&& ends matches Some(Ok(put)) && put == Some((IpAddr::V4(src.v4), IpAddr::V4(dst.v4)))
            &&& final(buf)@.subrange(12, 16) == src.v4@
            &&& final(buf)@.subrange(16, 20) == dst.v4@
        },
        sliced_net(old(buf)@) matches Some(Some(NetHeader::Ipv6 { .. })) && ends is Some ==> {
            &&& ends matches Some(Ok(put)) && put == Some((IpAddr::V6(src.v6), IpAddr::V6(dst.v6)))
            &&& final(buf)@.subrange(8, 24) == src.v6@
            &&& final(buf)@.subrange(24, 40) == dst.v6@
        },
{
    if let Ok(net) = slice_ip(buf) {
        if !fits(buf, net) {
            return None;
        }
    }
    Some(patch_packet_addresses(buf, src, dst))
}

} // verus!
