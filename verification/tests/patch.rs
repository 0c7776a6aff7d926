use ivlan::addr::{IpAddr, IpAddrs, Ipv4Addr, Ipv6Addr};
use ivlan::inbound::{receive, receive_patched, Received};
use ivlan::ip_util::{
    patch_packet_addresses, patch_parsed, recalculate_tcp_checksum_ipv4,
    recalculate_tcp_checksum_ipv6, recalculate_udp_checksum_ipv4, recalculate_udp_checksum_ipv6,
    try_patch_packet_addresses, NetHeader, PatchError,
};

fn hex(text: &str) -> Vec<u8> {
    (0..text.len() / 2).map(|i| u8::from_str_radix(&text[2 * i..2 * i + 2], 16).unwrap()).collect()
}

fn ends(v4: [u8; 4], v6: [u8; 2], last: u8) -> IpAddrs {
    let mut octets = [0u8; 16];
    octets[0] = v6[0];
    octets[1] = v6[1];
    octets[15] = last;
    IpAddrs { v4: Ipv4Addr::from_octets(v4), v6: Ipv6Addr::from_octets(octets) }
}

fn peer() -> IpAddrs {
    ends([121, 37, 0, 9], [0xfd, 0], 9)
}

fn host() -> IpAddrs {
    ends([121, 37, 0, 0], [0xfd, 1], 3)
}

const UDP4: &str = "4500002112340000401154960a0000010a00000213880035000d944268656c6c6f";
const UDP4_PATCHED: &str = "450000211234000040117645792500097925000013880035000db5f168656c6c6f";
const TCP4: &str =
    "4500002b12340000400654970a0000010a00000204d200500000000100000002501803e8ce570000616263";
const TCP4_PATCHED: &str =
    "4500002b1234000040067646792500097925000004d200500000000100000002501803e8f0060000616263";
const UDP6: &str = "60000000000d1140fd000000000000000000000000000001fd00000000000000000000000000000213880035000dae4068656c6c6f";
const UDP6_PATCHED: &str = "60000000000d1140fd000000000000000000000000000009fd01000000000000000000000000000313880035000dae3668656c6c6f";
const TCP6: &str = "6000000000170640fd000000000000000000000000000001fd00000000000000000000000000000204d200500000000100000002501803e8e8550000616263";
const TCP6_PATCHED: &str = "6000000000170640fd000000000000000000000000000009fd01000000000000000000000000000304d200500000000100000002501803e8e84b0000616263";

fn check_patch(packet: &str, patched: &str, expected: (IpAddr, IpAddr)) {
    let mut buf = hex(packet);
    let put = patch_packet_addresses(&mut buf, peer(), host());
    assert!(matches!(put, Ok(Some(found)) if found == expected));
    assert_eq!(buf, hex(patched));
}

fn v4_ends() -> (IpAddr, IpAddr) {
    (IpAddr::V4(peer().v4), IpAddr::V4(host().v4))
}

fn v6_ends() -> (IpAddr, IpAddr) {
    (IpAddr::V6(peer().v6), IpAddr::V6(host().v6))
}

#[test]
fn patching_udp_over_ipv4() {
    check_patch(UDP4, UDP4_PATCHED, v4_ends());
}

#[test]
fn patching_udp_without_checksum_leaves_it_out() {
    check_patch(
        "4500002112340000401154960a0000010a00000213880035000d000068656c6c6f",
        "450000211234000040117645792500097925000013880035000d000068656c6c6f",
        v4_ends(),
    );
}

#[test]
fn patching_tcp_over_ipv4() {
    check_patch(TCP4, TCP4_PATCHED, v4_ends());
}

#[test]
fn patching_icmp_touches_the_ip_header_alone() {
    check_patch(
        "4500001c12340000400154ab0a0000010a0000020800f7ff00000000",
        "4500001c123400004001765a79250009792500000800f7ff00000000",
        v4_ends(),
    );
}

#[test]
fn patching_udp_over_ipv6() {
    check_patch(UDP6, UDP6_PATCHED, v6_ends());
}

#[test]
fn patching_tcp_over_ipv6() {
    check_patch(TCP6, TCP6_PATCHED, v6_ends());
}

#[test]
fn patching_back_restores_the_packet() {
    for packet in [UDP4, TCP4, UDP6, TCP6] {
        let mut buf = hex(packet);
        assert!(patch_packet_addresses(&mut buf, peer(), host()).is_ok());
        let mut octets = [0u8; 16];
        octets[0] = 0xfd;
        octets[15] = 1;
        let src = IpAddrs {
            v4: Ipv4Addr::from_octets([10, 0, 0, 1]),
            v6: Ipv6Addr::from_octets(octets),
        };
        octets[15] = 2;
        let dst = IpAddrs {
            v4: Ipv4Addr::from_octets([10, 0, 0, 2]),
            v6: Ipv6Addr::from_octets(octets),
        };
        assert!(patch_packet_addresses(&mut buf, src, dst).is_ok());
        assert_eq!(buf, hex(packet));
    }
}

#[test]
fn patching_what_is_no_ip_packet_fails() {
    for octets in [vec![], vec![0x45], vec![0x15; 40], hex(&UDP4[..30])] {
        let mut buf = octets.clone();
        let put = patch_packet_addresses(&mut buf, peer(), host());
        assert!(matches!(put, Err(PatchError::Slice(_))));
        assert_eq!(buf, octets);
    }
}

#[test]
fn patching_a_known_header() {
    let mut buf = hex(UDP4);
    let net = NetHeader::Ipv4 { ihl: 5, protocol: 17, destination: [10, 0, 0, 2] };
    assert_eq!(patch_parsed(&mut buf, Some(net), peer(), host()), Some(v4_ends()));
    assert_eq!(buf, hex(UDP4_PATCHED));
    let mut other = hex(TCP6);
    let net = NetHeader::Ipv6 { next_header: 6, destination: host().v6.octets() };
    assert_eq!(patch_parsed(&mut other, Some(net), peer(), host()), Some(v6_ends()));
    assert_eq!(other, hex(TCP6_PATCHED));
}

#[test]
fn patching_without_ip_header_changes_nothing() {
    let mut buf = hex(UDP4);
    assert_eq!(patch_parsed(&mut buf, None, peer(), host()), None);
    assert_eq!(patch_parsed(&mut buf, Some(NetHeader::Arp), peer(), host()), None);
    assert_eq!(buf, hex(UDP4));
}

#[test]
fn a_short_fragment_is_left_alone() {
    let packet = hex("45000018123400014011549e0a0000010a00000200010203");
    let mut buf = packet.clone();
    assert!(try_patch_packet_addresses(&mut buf, peer(), host()).is_none());
    assert_eq!(buf, packet);
    assert_eq!(receive(&mut buf, peer(), host()), None);
    assert_eq!(buf, packet);
}

#[test]
fn trying_does_what_patching_does() {
    let mut buf = hex(TCP4);
    let put = try_patch_packet_addresses(&mut buf, peer(), host());
    assert!(matches!(put, Some(Ok(Some(found))) if found == v4_ends()));
    assert_eq!(buf, hex(TCP4_PATCHED));
    let mut bad = vec![0x15; 40];
    assert!(matches!(try_patch_packet_addresses(&mut bad, peer(), host()), Some(Err(_))));
}

#[test]
fn transport_checksums_follow_the_addresses() {
    let old = (Ipv4Addr::from_octets([10, 0, 0, 1]), Ipv4Addr::from_octets([10, 0, 0, 2]));
    let mut udp = hex(UDP4);
    recalculate_udp_checksum_ipv4(&mut udp, old.0, old.1, peer().v4, host().v4, 20);
    assert_eq!(udp[26..28], [0xb5, 0xf1]);
    let mut tcp = hex(TCP4);
    recalculate_tcp_checksum_ipv4(&mut tcp, old.0, old.1, peer().v4, host().v4, 20);
    assert_eq!(tcp[36..38], [0xf0, 0x06]);
    let mut octets = [0u8; 16];
    octets[0] = 0xfd;
    octets[15] = 1;
    let src = Ipv6Addr::from_octets(octets);
    octets[15] = 2;
    let dst = Ipv6Addr::from_octets(octets);
    let mut udp6 = hex(UDP6);
    recalculate_udp_checksum_ipv6(&mut udp6, src, dst, peer().v6, host().v6, 40);
    assert_eq!(udp6[46..48], [0xae, 0x36]);
    let mut tcp6 = hex(TCP6);
    recalculate_tcp_checksum_ipv6(&mut tcp6, src, dst, peer().v6, host().v6, 40);
    assert_eq!(tcp6[56..58], [0xe8, 0x4b]);
}

#[test]
fn a_received_packet_is_delivered_between_local_addresses() {
    let mut buf = hex(UDP6);
    let (src, dst) = v6_ends();
    assert_eq!(receive(&mut buf, peer(), host()), Some(Received::Deliver(src, dst)));
    assert_eq!(buf, hex(UDP6_PATCHED));
    let mut bad = vec![0x15; 40];
    assert_eq!(receive(&mut bad, peer(), host()), Some(Received::BadPacket));
}

#[test]
fn what_was_not_patched_is_skipped() {
    assert_eq!(receive_patched(Ok(None)), Received::Skip);
    let (src, dst) = v4_ends();
    assert_eq!(receive_patched(Ok(Some((src, dst)))), Received::Deliver(src, dst));
}
