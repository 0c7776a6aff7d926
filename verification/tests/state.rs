use ivlan::addr::{IpAddrs, Ipv4Addr, Ipv6Addr};
use ivlan::allocation::{scan_ipv4, scan_ipv6};
use ivlan::auth::{AuthResp, AuthRules};
use ivlan::ip_util::{NetHeader, ROUTER_MULTICAST_ADDR};
use ivlan::outbound::{goes_on, route, route_packet, Outbound, Queued};
use ivlan::remote_id::RemoteId;
use ivlan::send::{after_send, next_send, Link, LinkChange, SendAction, SendEvent};
use ivlan::state::{Completion, Insertion, IvLanState, PeerError};

const HOST4: u32 = 0x7925_0000;
const HOST6: u128 = 0xfd00_0000_0000_0000_0000_0000_0000_0001;

fn network(mask4: u8, mask6: u8) -> IvLanState {
    IvLanState::new(
        Ipv4Addr { bits: HOST4 },
        mask4,
        Ipv6Addr { bits: HOST6 },
        mask6,
        64,
        AuthRules { anybody: false, password: None },
    )
}

fn remote(seed: u8) -> RemoteId {
    let public = iroh_base::SecretKey::from_bytes(&[seed; 32]).public();
    RemoteId::from_bytes(public.as_bytes()).unwrap()
}

fn link() -> Option<Link> {
    Some(Link { datagram_max: Some(1200) })
}

fn addrs(offset: u32) -> IpAddrs {
    IpAddrs {
        v4: Ipv4Addr { bits: HOST4 + offset },
        v6: Ipv6Addr { bits: HOST6 + u128::from(offset) },
    }
}

#[test]
fn the_first_free_number_is_found() {
    assert_eq!(scan_ipv4(HOST4, &vec![], 24), Some(u128::from(HOST4) + 1));
    let used = vec![u128::from(HOST4) + 1, u128::from(HOST4) + 3, u128::from(HOST4) + 2];
    assert_eq!(scan_ipv4(HOST4, &used, 24), Some(u128::from(HOST4) + 4));
    assert_eq!(scan_ipv6(HOST6, &vec![HOST6 + 2], 64), Some(HOST6 + 1));
    assert_eq!(scan_ipv6(HOST6, &vec![HOST6 + 1], 1), Some(HOST6 + 2));
}

#[test]
fn long_prefixes_leave_no_number() {
    for mask in [31u8, 32, 255] {
        assert_eq!(scan_ipv4(HOST4, &vec![], mask), None);
    }
    for mask in [127u8, 128, 255] {
        assert_eq!(scan_ipv6(HOST6, &vec![], mask), None);
    }
    let base = u128::from(HOST4);
    assert_eq!(scan_ipv4(HOST4, &vec![base + 1], 30), Some(base + 2));
    assert_eq!(scan_ipv4(HOST4, &vec![base + 1, base + 2], 30), None);
    assert_eq!(scan_ipv6(HOST6, &vec![], 126), Some(HOST6 + 1));
    assert_eq!(scan_ipv6(HOST6, &vec![HOST6 + 1], 126), None);
}

#[test]
fn the_last_number_of_all_is_not_found() {
    let top = u128::from(u32::MAX);
    assert_eq!(scan_ipv4(u32::MAX, &vec![], 24), None);
    assert_eq!(scan_ipv4(u32::MAX - 1, &vec![], 24), None);
    assert_eq!(scan_ipv4(u32::MAX - 2, &vec![], 24), Some(top - 1));
    assert_eq!(scan_ipv4(u32::MAX - 2, &vec![], 1), Some(top - 1));
    assert_eq!(scan_ipv6(u128::MAX, &vec![], 64), None);
    assert_eq!(scan_ipv6(u128::MAX - 2, &vec![], 64), Some(u128::MAX - 1));
}

#[test]
fn the_broadcast_address_is_reserved_wherever_the_host_is() {
    let base = 0x0a00_0000u32;
    let number = |offset: u32| u128::from(base + offset);
    assert_eq!(scan_ipv4(base + 1, &vec![], 30), Some(number(2)));
    assert_eq!(scan_ipv4(base + 1, &vec![number(2)], 30), None);
    assert_eq!(scan_ipv4(base + 2, &vec![], 30), None);
    assert_eq!(scan_ipv4(base + 3, &vec![], 30), None);
    let used: Vec<u128> = (2..255).map(number).collect();
    assert_eq!(scan_ipv4(base + 1, &used, 24), None);
    assert_eq!(scan_ipv4(base + 1, &used[..252].to_vec(), 24), Some(number(254)));
    let high = HOST6 | 0xff;
    assert_eq!(scan_ipv6(high - 1, &vec![], 120), None);
    assert_eq!(scan_ipv6(high - 2, &vec![], 120), Some(high - 1));
}

#[test]
fn every_number_of_a_network_is_given_away_but_the_highest() {
    let mut used: Vec<u128> = Vec::new();
    while let Some(number) = scan_ipv4(HOST4, &used, 28) {
        assert!(!used.contains(&number));
        assert_eq!(number >> 4, u128::from(HOST4) >> 4);
        used.push(number);
    }
    assert_eq!(used.len(), 14);
    assert!(!used.contains(&(u128::from(HOST4) + 15)));
}

#[test]
fn a_new_network_is_empty() {
    let mut state = network(24, 64);
    assert!(state.peers().is_empty());
    assert_eq!(state.lookup(remote(1)), Err(PeerError::NotConnected));
    assert_eq!(state.addrs(), addrs(0));
    assert_eq!(state.out_queue_cap(), 64);
    assert!(!state.auth_rules().anybody);
    assert!(state.stop_receiving().is_empty());
    assert!(!state.remove_peer(remote(1)));
}

#[test]
fn a_network_starts_once() {
    let mut state = network(24, 64);
    assert!(state.may_start());
    state.started();
    assert!(!state.may_start());
    assert!(state.connect(remote(1)).is_ok());
    assert!(!state.may_start());
}

#[test]
fn peers_get_addresses_one_after_the_other() {
    let mut state = network(24, 64);
    for seed in 1..=20u8 {
        let done = state.connect(remote(seed)).unwrap();
        assert_eq!(done, Insertion { addrs: addrs(u32::from(seed)), fresh: true, abort: false });
        assert_eq!(state.lookup(remote(seed)), Ok(addrs(u32::from(seed))));
    }
    assert_eq!(state.peers().len(), 20);
}

#[test]
fn a_known_peer_keeps_its_addresses() {
    let mut state = network(24, 64);
    state.connect(remote(1)).unwrap();
    state.connect(remote(2)).unwrap();
    let again = state.connect(remote(1)).unwrap();
    assert_eq!(again, Insertion { addrs: addrs(1), fresh: false, abort: false });
    let anew = state.insert_peer(remote(1), link()).unwrap();
    assert_eq!(anew, Insertion { addrs: addrs(1), fresh: false, abort: false });
    let replaced = state.insert_peer(remote(1), link()).unwrap();
    assert_eq!(replaced, Insertion { addrs: addrs(1), fresh: false, abort: true });
    let looked = state.insert_peer(remote(1), None).unwrap();
    assert_eq!(looked, Insertion { addrs: addrs(1), fresh: false, abort: false });
    assert_eq!(state.lookup(remote(2)), Ok(addrs(2)));
}

#[test]
fn a_removed_peer_leaves_its_addresses() {
    let mut state = network(24, 64);
    state.insert_peer(remote(1), link()).unwrap();
    state.connect(remote(2)).unwrap();
    assert!(state.remove_peer(remote(1)));
    assert!(!state.remove_peer(remote(1)));
    assert!(!state.remove_peer(remote(2)));
    assert_eq!(state.lookup(remote(1)), Err(PeerError::NotConnected));
    assert_eq!(state.connect(remote(3)).unwrap().addrs, addrs(1));
}

#[test]
fn no_peer_is_added_when_addresses_run_out() {
    let mut state = network(30, 64);
    state.connect(remote(1)).unwrap();
    state.connect(remote(2)).unwrap();
    assert_eq!(state.connect(remote(3)), Err(PeerError::Ipv4Exhausted));
    assert_eq!(state.allocate_ipv4(), None);
    assert_eq!(state.allocate_ipv6(), Some(addrs(3).v6));
    assert_eq!(state.lookup(remote(3)), Err(PeerError::NotConnected));
    assert_eq!(state.connect(remote(2)).unwrap().addrs, addrs(2));

    let mut state = network(24, 126);
    state.connect(remote(1)).unwrap();
    assert_eq!(state.connect(remote(2)), Err(PeerError::Ipv6Exhausted));
    assert_eq!(state.allocate_ipv4(), Some(addrs(2).v4));
    assert_eq!(state.allocate_ipv6(), None);
    assert_eq!(state.peers().len(), 1);
}

#[test]
fn clients_are_told_why() {
    assert_eq!(PeerError::Ipv4Exhausted.message(), "IPv4 allocation failed");
    assert_eq!(PeerError::Ipv6Exhausted.message(), "IPv6 allocation failed");
    assert_eq!(PeerError::NotConnected.message(), "Peer not connected");
}

#[test]
fn a_network_without_prefix_has_no_addresses_to_give() {
    let state = network(0, 64);
    assert!(!state.can_allocate());
    assert!(!state.can_insert(remote(1)));
    let state = network(24, 0);
    assert!(!state.can_allocate());
    let state = network(31, 0);
    assert!(state.can_allocate());
    assert!(network(24, 64).can_insert(remote(1)));
}

#[test]
fn peers_are_listed_in_the_order_of_their_keys() {
    let mut state = network(24, 64);
    let mut expected: Vec<(RemoteId, IpAddrs)> = Vec::new();
    for seed in 1..=30u8 {
        let done = state.connect(remote(seed)).unwrap();
        expected.push((remote(seed), done.addrs));
    }
    expected.sort_by_key(|peer| *peer.0.as_bytes());
    assert_eq!(state.peers(), expected);
}

#[test]
fn an_accepting_answer_connects_the_peer() {
    let mut state = network(24, 64);
    state.connect(remote(1)).unwrap();
    state.connect(remote(2)).unwrap();
    let done = state.complete_connection(remote(2), AuthResp::Good, link().unwrap());
    let insertion = Insertion { addrs: addrs(2), fresh: false, abort: false };
    assert_eq!(done, Completion { abort: false, insertion: Some(Ok(insertion)) });
    assert_eq!(state.stop_receiving(), vec![remote(2)]);
}

#[test]
fn a_refusing_answer_forgets_the_peer_first() {
    let mut state = network(24, 64);
    state.connect(remote(1)).unwrap();
    state.insert_peer(remote(2), link()).unwrap();
    state.remove_peer(remote(1));
    let done = state.complete_connection(remote(2), AuthResp::Bad, link().unwrap());
    let insertion = Insertion { addrs: addrs(1), fresh: true, abort: false };
    assert_eq!(done, Completion { abort: true, insertion: Some(Ok(insertion)) });
    assert_eq!(state.lookup(remote(2)), Ok(addrs(1)));
}

#[test]
fn an_answer_finds_no_prefix_to_go_by() {
    let mut state = network(0, 64);
    let done = state.complete_connection(remote(1), AuthResp::Good, link().unwrap());
    assert_eq!(done, Completion { abort: false, insertion: None });
    assert!(state.peers().is_empty());
    let mut state = network(31, 64);
    let done = state.complete_connection(remote(1), AuthResp::Bad, link().unwrap());
    let insertion = Some(Err(PeerError::Ipv4Exhausted));
    assert_eq!(done, Completion { abort: false, insertion });
}

#[test]
fn receiving_stops_for_every_peer() {
    let mut state = network(24, 64);
    for seed in 1..=9u8 {
        let streams = if seed % 2 == 0 { link() } else { None };
        state.insert_peer(remote(seed), streams).unwrap();
    }
    let mut stopped = state.stop_receiving();
    stopped.sort_by_key(|remote| *remote.as_bytes());
    let mut expected: Vec<RemoteId> = (1..=4u8).map(|half| remote(2 * half)).collect();
    expected.sort_by_key(|remote| *remote.as_bytes());
    assert_eq!(stopped, expected);
    assert!(state.stop_receiving().is_empty());
    assert_eq!(state.peers().len(), 9);
    assert_eq!(state.lookup(remote(4)), Ok(addrs(4)));
}

#[test]
fn addresses_lead_to_peers() {
    let mut state = network(24, 64);
    state.connect(remote(1)).unwrap();
    state.connect(remote(2)).unwrap();
    assert_eq!(state.peer_with_ipv4(addrs(2).v4), Some(remote(2)));
    assert_eq!(state.peer_with_ipv6(addrs(1).v6), Some(remote(1)));
    assert_eq!(state.peer_with_ipv4(addrs(0).v4), None);
    assert_eq!(state.peer_with_ipv6(addrs(3).v6), None);
}

fn ipv4_packet(destination: [u8; 4]) -> Vec<u8> {
    let mut packet = vec![0x45, 0, 0, 20, 0, 0, 0, 0, 64, 59, 0, 0, 10, 0, 0, 1];
    packet.extend_from_slice(&destination);
    packet
}

fn ipv6_packet(destination: [u8; 16]) -> Vec<u8> {
    let mut packet = vec![0x60, 0, 0, 0, 0, 0, 59, 64];
    packet.extend_from_slice(&[0xfd; 16]);
    packet.extend_from_slice(&destination);
    packet
}

/// A buffer of the size that packets are read into.
fn buffer(packet: &[u8]) -> Vec<u8> {
    let mut buf = packet.to_vec();
    buf.resize(65536, 0);
    buf
}

fn queued(outcome: Outbound) -> Option<(RemoteId, Vec<u8>)> {
    match outcome {
        Outbound::Queue { remote, message } => Some((remote, message)),
        _ => None,
    }
}

#[test]
fn a_packet_is_queued_for_the_peer_that_it_is_meant_for() {
    let mut state = network(24, 64);
    state.connect(remote(1)).unwrap();
    state.connect(remote(2)).unwrap();
    let packet = ipv4_packet(addrs(2).v4.octets());
    let mut message = vec![20, 0];
    message.extend_from_slice(&packet);
    let sent = queued(route_packet(&state, &buffer(&packet), 20));
    assert_eq!(sent, Some((remote(2), message)));

    let packet = ipv6_packet(addrs(1).v6.octets());
    let mut message = vec![40, 0];
    message.extend_from_slice(&packet);
    let sent = queued(route_packet(&state, &buffer(&packet), 40));
    assert_eq!(sent, Some((remote(1), message)));
}

#[test]
fn a_packet_for_nobody_is_dropped() {
    let mut state = network(24, 64);
    state.connect(remote(1)).unwrap();
    let packet = ipv4_packet(addrs(2).v4.octets());
    assert!(matches!(route_packet(&state, &buffer(&packet), 20), Outbound::NoPeer));
    let packet = ipv6_packet(addrs(2).v6.octets());
    assert!(matches!(route_packet(&state, &buffer(&packet), 40), Outbound::NoPeer));
}

#[test]
fn a_packet_for_the_routers_is_skipped() {
    let state = network(24, 64);
    let packet = ipv6_packet(Ipv6Addr { bits: ROUTER_MULTICAST_ADDR }.octets());
    assert_eq!(packet[24..26], [0xff, 0x02]);
    assert!(matches!(route_packet(&state, &buffer(&packet), 40), Outbound::Skip));
}

#[test]
fn what_is_no_ip_packet_is_dropped() {
    let state = network(24, 64);
    assert!(matches!(route_packet(&state, &vec![0; 65536], 20), Outbound::BadPacket));
    assert!(matches!(route_packet(&state, &[], 0), Outbound::BadPacket));
}

#[test]
fn a_packet_goes_by_its_header() {
    let mut state = network(24, 64);
    state.connect(remote(1)).unwrap();
    let buf = [1, 2, 3, 4];
    assert!(matches!(route(&state, None, &buf, 4), Outbound::BadPacket));
    assert!(matches!(route(&state, Some(NetHeader::Arp), &buf, 4), Outbound::Skip));
    let net = NetHeader::Ipv4 { ihl: 5, protocol: 6, destination: addrs(1).v4.octets() };
    assert_eq!(queued(route(&state, Some(net), &buf, 3)), Some((remote(1), vec![3, 0, 1, 2, 3])));
    let net = NetHeader::Ipv6 { next_header: 6, destination: addrs(1).v6.octets() };
    assert_eq!(queued(route(&state, Some(net), &buf, 0)), Some((remote(1), vec![0, 0])));
    let net = NetHeader::Ipv6 { next_header: 6, destination: addrs(2).v6.octets() };
    assert!(matches!(route(&state, Some(net), &buf, 4), Outbound::NoPeer));
}

#[test]
fn packets_are_taken_until_a_queue_closes() {
    assert!(goes_on(Queued::Waits));
    assert!(goes_on(Queued::Full));
    assert!(!goes_on(Queued::Closed));
}

#[test]
fn streams_bring_the_connection_for_messages() {
    let mut state = network(24, 64);
    state.connect(remote(1)).unwrap();
    assert_eq!(state.link(remote(1)), None);
    assert_eq!(next_send(state.link(remote(1)), 100), SendAction::Connect);
    state.insert_peer(remote(1), link()).unwrap();
    assert_eq!(state.link(remote(1)), link());
    assert_eq!(next_send(state.link(remote(1)), 100), SendAction::Datagram);
    state.connect(remote(1)).unwrap();
    assert_eq!(state.link(remote(1)), link());
    let plain = Some(Link { datagram_max: None });
    state.insert_peer(remote(1), plain).unwrap();
    assert_eq!(state.link(remote(1)), plain);
    state.insert_peer(remote(2), link()).unwrap();
    assert_eq!(state.link(remote(2)), link());
    state.remove_peer(remote(2));
    assert_eq!(state.link(remote(2)), None);
}

#[test]
fn an_answer_brings_the_connection_for_messages() {
    for resp in [AuthResp::Good, AuthResp::Bad] {
        let mut state = network(24, 64);
        state.connect(remote(1)).unwrap();
        state.complete_connection(remote(1), resp, Link { datagram_max: Some(7) });
        assert_eq!(state.link(remote(1)), Some(Link { datagram_max: Some(7) }));
    }
}

#[test]
fn a_failed_connection_is_made_anew() {
    let mut state = network(24, 64);
    state.insert_peer(remote(1), link()).unwrap();
    state.insert_peer(remote(2), link()).unwrap();
    state.update_link(remote(1), after_send(SendEvent::StreamFailed).1);
    assert_eq!(state.link(remote(1)), None);
    assert_eq!(next_send(state.link(remote(1)), 100), SendAction::Connect);
    assert_eq!(state.link(remote(2)), link());
    assert_eq!(state.lookup(remote(1)), Ok(addrs(1)));
    state.update_link(remote(1), LinkChange::Resize(Some(9)));
    assert_eq!(state.link(remote(1)), None);
    state.update_link(remote(2), LinkChange::Resize(Some(9)));
    assert_eq!(state.link(remote(2)), Some(Link { datagram_max: Some(9) }));
    state.update_link(remote(2), LinkChange::Keep);
    assert_eq!(state.link(remote(2)), Some(Link { datagram_max: Some(9) }));
    state.update_link(remote(3), LinkChange::Drop);
    assert_eq!(state.peers().len(), 2);
    assert_eq!(state.stop_receiving().len(), 2);
    assert_eq!(state.link(remote(2)), Some(Link { datagram_max: Some(9) }));
}
