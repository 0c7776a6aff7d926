//! What holds of a network whatever happens to it.

use crate::addr::IpAddrs;
use crate::allocation::{
    law_found_in_network, law_found_is_first_free, law_found_while_room,
    law_none_means_network_is_full, lemma_widest_number, most_offset,
};
use crate::auth::AuthResp;
use crate::key::law_keys_in_order_of_octets;
use crate::remote_id::RemoteId;
use crate::send::{link_change, send_action, Link, LinkChange, SendAction, SendEvent};
use crate::state::{in_key_order, used_ipv4, used_ipv6, Network, PeerError};
use vstd::arithmetic::power2::{lemma2_to64, pow2};
use vstd::prelude::*;

verus! {

/// Whatever happens to a network, no two hosts come to share an address.
pub proof fn law_addresses_stay_distinct(
    network: Network,
    remote: RemoteId,
    streams: Option<Link>,
    resp: AuthResp,
    change: LinkChange,
)
    requires
        network.wf(),
    ensures
        network.with_peer(remote, streams).wf(),
        network.without_peer(remote@).wf(),
        network.answered(remote@, resp).wf(),
        network.with_link_change(remote@, change).wf(),
        network.silent().wf(),
{
    network.law_allocated_is_fresh();
    assert(network.silent().peers.dom() =~= network.peers.dom());
}

/// No address names two peers.
pub proof fn law_address_names_one_peer(network: Network, a: Seq<u8>, b: Seq<u8>)
    requires
        network.wf(),
        network.knows(a),
        network.knows(b),
        network.peers[a].addrs.v4 == network.peers[b].addrs.v4 || network.peers[a].addrs.v6
            == network.peers[b].addrs.v6,
    ensures
        a == b,
{
    assert(network.peers.dom().contains(a) && network.peers.dom().contains(b));
}

/// A peer that was added can be looked up, under the addresses that it was given.
pub proof fn law_lookup_of_inserted(network: Network, remote: RemoteId, streams: Option<Link>)
    ensures
        network.insertion(remote@, streams) matches Ok(done) ==> network.with_peer(
            remote,
            streams,
        ).lookup(remote@) == Ok::<IpAddrs, PeerError>(done.addrs),
{
}

/// Where a peer cannot be added, nothing changes, and it stays unknown.
pub proof fn law_failed_insertion_changes_nothing(
    network: Network,
    remote: RemoteId,
    streams: Option<Link>,
)
    requires
        network.insertion(remote@, streams) is Err,
    ensures
        network.with_peer(remote, streams) == network,
        network.lookup(remote@) == Err::<IpAddrs, PeerError>(PeerError::NotConnected),
{
}

/// Adding a peer again gives the addresses that it has, and without streams changes nothing.
pub proof fn law_insertion_again(network: Network, remote: RemoteId, first: Option<Link>, again: Option<Link>)
    ensures
        network.insertion(remote@, first) matches Ok(done) ==> {
            let once = network.with_peer(remote, first);
            &&& once.insertion(remote@, again) matches Ok(redone) && redone.addrs == done.addrs
                && !redone.fresh
            &&& once.with_peer(remote, None) == once
        },
{
}

/// Adding or connecting a peer leaves every other peer as it is, and a known peer its addresses.
pub proof fn law_insertion_keeps_peers(
    network: Network,
    remote: RemoteId,
    streams: Option<Link>,
    key: Seq<u8>,
)
    requires
        network.knows(key),
    ensures
        network.with_peer(remote, streams).knows(key),
        network.with_peer(remote, streams).peers[key].addrs == network.peers[key].addrs,
        key != remote@ ==> network.with_peer(remote, streams).peers[key] == network.peers[key],
{
}

/// A peer that was taken out is unknown, and every other peer is as it was.
pub proof fn law_removal(network: Network, remote: Seq<u8>, key: Seq<u8>)
    ensures
        network.without_peer(remote).lookup(remote) == Err::<IpAddrs, PeerError>(
            PeerError::NotConnected,
        ),
        key != remote ==> network.without_peer(remote).lookup(key) == network.lookup(key),
{
}

/// To take out a peer that was just added undoes the addition.
pub proof fn law_removal_undoes_insertion(network: Network, remote: RemoteId, streams: Option<Link>)
    requires
        !network.knows(remote@),
    ensures
        network.with_peer(remote, streams).without_peer(remote@) == network,
{
    let peers = network.with_peer(remote, streams).without_peer(remote@).peers;
    assert(peers =~= network.peers);
}

/// A peer that comes with streams gets its messages over their connection, whatever it had before;
/// a known peer that comes without keeps the connection that it has, and a new one has none, so
/// that the first message to it calls for one.
pub proof fn law_link_of_inserted(
    network: Network,
    remote: RemoteId,
    streams: Option<Link>,
    len: int,
)
    requires
        network.insertion(remote@, streams) is Ok,
    ensures
        ({
            let after = network.with_peer(remote, streams);
            let action = send_action(after.link(remote@), len);
            &&& streams is Some ==> after.link(remote@) == streams && action != SendAction::Connect
            &&& streams is None ==> after.link(remote@) == network.link(remote@)
            &&& streams is None && !network.knows(remote@) ==> action == SendAction::Connect
        }),
{
}

/// After the connection to a peer failed, the next message to it calls for a new one; no other
/// peer is touched, and nothing but the connection changes.
pub proof fn law_failed_link_is_made_anew(
    network: Network,
    remote: Seq<u8>,
    event: SendEvent,
    key: Seq<u8>,
    len: int,
)
    requires
        event is StreamFailed || event is ConnectionLost,
        network.knows(key),
    ensures
        ({
            let after = network.with_link_change(remote, link_change(event));
            &&& send_action(after.link(remote), len) == SendAction::Connect
            &&& after.knows(key)
            &&& after.peers[key].addrs == network.peers[key].addrs
            &&& after.peers[key].receiving == network.peers[key].receiving
            &&& key != remote ==> after.peers[key] == network.peers[key]
        }),
{
}

/// The addresses that a new peer gets lie in the networks of the host's own, and are not those
/// for broadcasts there.
pub proof fn law_allocated_in_network(network: Network)
    requires
        network.allocated() is Ok,
    ensures
        ({
            let addrs = network.allocated()->Ok_0;
            let size = pow2((32 - network.ipv4mask) as nat) as int;
            &&& addrs.v4.bits as int / size == network.addrs.v4.bits as int / size
            &&& addrs.v4.bits as int % size != size - 1
        }),
        ({
            let addrs = network.allocated()->Ok_0;
            let size = pow2((128 - network.ipv6mask) as nat) as int;
            &&& addrs.v6.bits as int / size == network.addrs.v6.bits as int / size
            &&& addrs.v6.bits as int % size != size - 1
        }),
{
    lemma2_to64();
    lemma_widest_number();
    law_found_is_first_free(
        network.addrs.v4.bits as int,
        used_ipv4(network.peers),
        network.ipv4mask as int,
        32,
    );
    law_found_in_network(
        network.addrs.v4.bits as int,
        used_ipv4(network.peers),
        network.ipv4mask as int,
        32,
    );
    law_found_in_network(
        network.addrs.v6.bits as int,
        used_ipv6(network.peers),
        network.ipv6mask as int,
        128,
    );
}

/// As long as there are fewer peers than addresses behind those of the host and in front of those
/// for broadcasts, a new peer gets some.
pub proof fn law_allocated_while_room(network: Network)
    requires
        network.wf(),
        0 < network.ipv4mask < 31,
        0 < network.ipv6mask < 127,
        network.peers.dom().len() < most_offset(
            network.addrs.v4.bits as int,
            (32 - network.ipv4mask) as nat,
        ),
        network.peers.dom().len() < most_offset(
            network.addrs.v6.bits as int,
            (128 - network.ipv6mask) as nat,
        ),
    ensures
        network.can_allocate(),
        network.allocated() is Ok,
{
    lemma2_to64();
    lemma_widest_number();
    let peers = network.peers;
    let v4 = |key: Seq<u8>| peers[key].addrs.v4.bits as int;
    let v6 = |key: Seq<u8>| peers[key].addrs.v6.bits as int;
    assert(used_ipv4(peers) =~= peers.dom().map(v4));
    assert(used_ipv6(peers) =~= peers.dom().map(v6));
    peers.dom().lemma_map_finite(v4);
    peers.dom().lemma_map_finite(v6);
    vstd::set_lib::lemma_map_size_bound(peers.dom(), used_ipv4(peers), v4);
    vstd::set_lib::lemma_map_size_bound(peers.dom(), used_ipv6(peers), v6);
    law_found_while_room(
        network.addrs.v4.bits as int,
        used_ipv4(peers),
        network.ipv4mask as int,
        32,
    );
    law_found_while_room(
        network.addrs.v6.bits as int,
        used_ipv6(peers),
        network.ipv6mask as int,
        128,
    );
}

/// Whether some peer has an IPv4 address, by its number.
pub open spec fn taken_ipv4(network: Network, number: int) -> bool {
    exists|key: Seq<u8>| #[trigger]
        network.peers.dom().contains(key) && network.peers[key].addrs.v4.bits == number
}

/// Whether some peer has an IPv6 address, by its number.
pub open spec fn taken_ipv6(network: Network, number: int) -> bool {
    exists|key: Seq<u8>| #[trigger]
        network.peers.dom().contains(key) && network.peers[key].addrs.v6.bits == number
}

/// Whether peers have every IPv4 address of the host's network behind that of the host, but for
/// the highest.
pub open spec fn ipv4_is_full(network: Network) -> bool {
    let size = pow2((32 - network.ipv4mask) as nat) as int;
    let host = network.addrs.v4.bits as int;
    forall|n: int|
        host < n && n / size == host / size && n % size != size - 1 ==> #[trigger] taken_ipv4(
            network,
            n,
        )
}

/// Whether peers have every IPv6 address of the host's network behind that of the host, but for
/// the highest.
pub open spec fn ipv6_is_full(network: Network) -> bool {
    let size = pow2((128 - network.ipv6mask) as nat) as int;
    let host = network.addrs.v6.bits as int;
    forall|n: int|
        host < n && n / size == host / size && n % size != size - 1 ==> #[trigger] taken_ipv6(
            network,
            n,
        )
}

proof fn lemma_ipv4_scan(network: Network)
    ensures
        network.ipv4_scan() is None <==> network.ipv4mask >= 31 || ipv4_is_full(network),
        network.ipv4_scan() matches Some(number) ==> {
            &&& network.addrs.v4.bits < number <= u32::MAX
            &&& !taken_ipv4(network, number as int)
            &&& forall|n: int|
                network.addrs.v4.bits < n < number ==> #[trigger] taken_ipv4(network, n)
        },
{
    let host = network.addrs.v4.bits as int;
    let used = used_ipv4(network.peers);
    let mask = network.ipv4mask as int;
    assert forall|n: int| #[trigger] used.contains(n) == taken_ipv4(network, n) by {}
    lemma2_to64();
    law_none_means_network_is_full(host, used, mask, 32);
    if mask < 31 {
        let size = pow2((32 - mask) as nat) as int;
        if ipv4_is_full(network) {
            assert forall|n: int| host < n && n / size == host / size && n % size != size - 1 implies
                #[trigger] used.contains(n) by {
                assert(taken_ipv4(network, n));
            }
        }
        if network.ipv4_scan() is None {
            assert forall|n: int| host < n && n / size == host / size && n % size != size - 1 implies
                #[trigger] taken_ipv4(network, n) by {
                assert(used.contains(n));
            }
        }
    }
    if network.ipv4_scan() is Some {
        law_found_is_first_free(host, used, mask, 32);
        let number = network.ipv4_scan()->0;
        assert forall|n: int| network.addrs.v4.bits < n < number implies #[trigger] taken_ipv4(
            network,
            n,
        ) by {
            assert(used.contains(n));
        }
    }
}

proof fn lemma_ipv6_scan(network: Network)
    ensures
        network.ipv6_scan() is None <==> network.ipv6mask >= 127 || ipv6_is_full(network),
        network.ipv6_scan() matches Some(number) ==> {
            &&& network.addrs.v6.bits < number
            &&& !taken_ipv6(network, number as int)
            &&& forall|n: int|
                network.addrs.v6.bits < n < number ==> #[trigger] taken_ipv6(network, n)
        },
{
    let host = network.addrs.v6.bits as int;
    let used = used_ipv6(network.peers);
    let mask = network.ipv6mask as int;
    assert forall|n: int| #[trigger] used.contains(n) == taken_ipv6(network, n) by {}
    lemma_widest_number();
    law_none_means_network_is_full(host, used, mask, 128);
    if mask < 127 {
        let size = pow2((128 - mask) as nat) as int;
        if ipv6_is_full(network) {
            assert forall|n: int| host < n && n / size == host / size && n % size != size - 1 implies
                #[trigger] used.contains(n) by {
                assert(taken_ipv6(network, n));
            }
        }
        if network.ipv6_scan() is None {
            assert forall|n: int| host < n && n / size == host / size && n % size != size - 1 implies
                #[trigger] taken_ipv6(network, n) by {
                assert(used.contains(n));
            }
        }
    }
    if network.ipv6_scan() is Some {
        law_found_is_first_free(host, used, mask, 128);
        let number = network.ipv6_scan()->0;
        assert forall|n: int| network.addrs.v6.bits < n < number implies #[trigger] taken_ipv6(
            network,
            n,
        ) by {
            assert(used.contains(n));
        }
    }
}

/// A new peer gets the first address of either family that lies behind that of the host and that
/// no peer has. It gets none exactly where one of the networks is full or its prefix leaves the
/// hosts less than two bits, and is told which, the IPv4 network first.
pub proof fn law_addresses_are_given_in_turn(network: Network)
    ensures
        network.allocated() matches Ok(addrs) ==> {
            &&& network.addrs.v4.bits < addrs.v4.bits
            &&& network.addrs.v6.bits < addrs.v6.bits
            &&& !taken_ipv4(network, addrs.v4.bits as int)
            &&& !taken_ipv6(network, addrs.v6.bits as int)
            &&& forall|n: int|
                network.addrs.v4.bits < n < addrs.v4.bits ==> #[trigger] taken_ipv4(network, n)
            &&& forall|n: int|
                network.addrs.v6.bits < n < addrs.v6.bits ==> #[trigger] taken_ipv6(network, n)
        },
        network.allocated() == Err::<IpAddrs, PeerError>(PeerError::Ipv4Exhausted)
            <==> network.ipv4mask >= 31 || ipv4_is_full(network),
        network.allocated() == Err::<IpAddrs, PeerError>(PeerError::Ipv6Exhausted) <==> !(
        network.ipv4mask >= 31 || ipv4_is_full(network)) && (network.ipv6mask >= 127 || ipv6_is_full(
            network,
        )),
        network.allocated() != Err::<IpAddrs, PeerError>(PeerError::NotConnected),
{
    lemma_ipv4_scan(network);
    lemma_ipv6_scan(network);
}

/// A single address search gives the address of its family that a new peer would get, and none
/// where a new peer would get none.
pub proof fn law_search_of_one_family(network: Network)
    ensures
        network.ipv4_scan() is None <==> network.ipv4mask >= 31 || ipv4_is_full(network),
        network.ipv6_scan() is None <==> network.ipv6mask >= 127 || ipv6_is_full(network),
        network.ipv4_scan() matches Some(number) ==> {
            &&& network.addrs.v4.bits < number <= u32::MAX
            &&& !taken_ipv4(network, number as int)
            &&& forall|n: int|
                network.addrs.v4.bits < n < number ==> #[trigger] taken_ipv4(network, n)
        },
        network.ipv6_scan() matches Some(number) ==> {
            &&& network.addrs.v6.bits < number
            &&& !taken_ipv6(network, number as int)
            &&& forall|n: int|
                network.addrs.v6.bits < n < number ==> #[trigger] taken_ipv6(network, n)
        },
{
    lemma_ipv4_scan(network);
    lemma_ipv6_scan(network);
}

/// Addresses can be looked for where both prefixes have a bit; where the IPv4 prefix has none they
/// cannot; and where the IPv6 prefix alone has none they can exactly if no IPv4 address is left
/// anyway. A known peer needs none.
pub proof fn law_search_needs_prefixes(network: Network, remote: Seq<u8>)
    ensures
        network.ipv4mask > 0 && network.ipv6mask > 0 ==> network.can_allocate(),
        network.ipv4mask == 0 ==> !network.can_allocate(),
        network.ipv4mask > 0 && network.ipv6mask == 0 ==> (network.can_allocate()
            <==> network.allocated() == Err::<IpAddrs, PeerError>(PeerError::Ipv4Exhausted)),
        network.can_insert(remote) <==> network.peers.dom().contains(remote)
            || network.can_allocate(),
{
}

/// What is to be done for a peer: one that is known keeps its addresses, and if it comes with
/// streams what was being received is given up; one that is not gets the addresses of a new peer,
/// and has to be sent to anew.
pub proof fn law_what_insertion_calls_for(
    network: Network,
    remote: Seq<u8>,
    streams: Option<Link>,
)
    ensures
        network.peers.dom().contains(remote) ==> (network.insertion(remote, streams) matches Ok(done)
            && done.addrs == network.peers[remote].addrs && !done.fresh && (done.abort
            <==> streams is Some && network.peers[remote].receiving)),
        !network.peers.dom().contains(remote) ==> match (
            network.insertion(remote, streams),
            network.allocated(),
        ) {
            (Ok(done), Ok(addrs)) => done.addrs == addrs && done.fresh && !done.abort,
            (Err(told), Err(e)) => told == e,
            _ => false,
        },
{
}

/// What an insertion leaves: the peer under its key with its addresses; where it came with streams,
/// its packets are received and messages go over their connection; where it did not, a known peer
/// is as it was, and a new one is neither received from nor connected. No other peer is touched,
/// and nothing else of the network.
pub proof fn law_what_insertion_leaves(
    network: Network,
    remote: RemoteId,
    streams: Option<Link>,
    other: Seq<u8>,
)
    requires
        network.insertion(remote@, streams) is Ok,
    ensures
        ({
            let after = network.with_peer(remote, streams);
            let entry = after.peers[remote@];
            let known = network.peers.dom().contains(remote@);
            &&& after.peers.dom() == network.peers.dom().insert(remote@)
            &&& entry.addrs == network.insertion(remote@, streams)->Ok_0.addrs
            &&& streams is Some ==> entry.receiving && entry.link == streams && entry.remote@
                == remote@
            &&& streams is None && known ==> entry == network.peers[remote@]
            &&& streams is None && !known ==> !entry.receiving && entry.link is None && entry.remote@
                == remote@
            &&& other != remote@ && network.peers.dom().contains(other) ==> after.peers[other]
                == network.peers[other]
            &&& after.running == network.running
            &&& after.addrs == network.addrs
            &&& after.ipv4mask == network.ipv4mask
            &&& after.ipv6mask == network.ipv6mask
            &&& after.out_queue_cap == network.out_queue_cap
            &&& after.auth_rules == network.auth_rules
        }),
{
    let after = network.with_peer(remote, streams);
    assert(after.peers.dom() =~= network.peers.dom().insert(remote@));
}

/// To take out a peer takes out that peer, and touches nothing else of the network.
pub proof fn law_what_removal_leaves(network: Network, remote: Seq<u8>, other: Seq<u8>)
    ensures
        ({
            let after = network.without_peer(remote);
            &&& after.peers.dom() == network.peers.dom().remove(remote)
            &&& other != remote && network.peers.dom().contains(other) ==> after.peers[other]
                == network.peers[other]
            &&& after.running == network.running
            &&& after.addrs == network.addrs
            &&& after.ipv4mask == network.ipv4mask
            &&& after.ipv6mask == network.ipv6mask
            &&& after.out_queue_cap == network.out_queue_cap
            &&& after.auth_rules == network.auth_rules
        }),
{
    assert(network.without_peer(remote).peers.dom() =~= network.peers.dom().remove(remote));
}

/// An answer that lets this host in leaves the network as it is; one that refuses it takes the peer
/// out, and touches nothing else.
pub proof fn law_what_an_answer_leaves(network: Network, remote: Seq<u8>, other: Seq<u8>)
    ensures
        network.answered(remote, AuthResp::Good) == network,
        ({
            let after = network.answered(remote, AuthResp::Bad);
            &&& after.peers.dom() == network.peers.dom().remove(remote)
            &&& other != remote && network.peers.dom().contains(other) ==> after.peers[other]
                == network.peers[other]
            &&& after.running == network.running
            &&& after.addrs == network.addrs
            &&& after.ipv4mask == network.ipv4mask
            &&& after.ipv6mask == network.ipv6mask
            &&& after.out_queue_cap == network.out_queue_cap
            &&& after.auth_rules == network.auth_rules
        }),
{
    law_what_removal_leaves(network, remote, other);
}

/// A peer is known, and looked up, exactly if it stands in the table, under the addresses that it
/// has there, and with the connection that it has there.
pub proof fn law_lookup_goes_by_the_table(network: Network, remote: Seq<u8>, addrs: IpAddrs)
    ensures
        network.knows(remote) <==> network.peers.dom().contains(remote),
        network.lookup(remote) == Ok::<IpAddrs, PeerError>(addrs) <==> network.peers.dom().contains(
            remote,
        ) && network.peers[remote].addrs == addrs,
        network.lookup(remote) == Err::<IpAddrs, PeerError>(PeerError::NotConnected)
            <==> !network.peers.dom().contains(remote),
        network.peers.dom().contains(remote) ==> network.link(remote) == network.peers[remote].link,
        !network.peers.dom().contains(remote) ==> network.link(remote) is None,
{
}

/// A change of a peer's connection gives that peer the changed connection, and touches nothing else
/// of the peer, no other peer, and nothing else of the network.
pub proof fn law_what_a_link_change_leaves(
    network: Network,
    remote: Seq<u8>,
    change: LinkChange,
    other: Seq<u8>,
)
    ensures
        ({
            let after = network.with_link_change(remote, change);
            &&& after.peers.dom() == network.peers.dom()
            &&& network.peers.dom().contains(remote) ==> {
                &&& change is Keep ==> after.peers[remote].link == network.peers[remote].link
                &&& change is Drop ==> after.peers[remote].link is None
                &&& change matches LinkChange::Resize(most) ==> match (
                    network.peers[remote].link,
                    after.peers[remote].link,
                ) {
                    (Some(_), Some(link)) => link.datagram_max == most,
                    (None, None) => true,
                    _ => false,
                }
                &&& after.peers[remote].remote == network.peers[remote].remote
                &&& after.peers[remote].addrs == network.peers[remote].addrs
                &&& after.peers[remote].receiving == network.peers[remote].receiving
            }
            &&& other != remote && network.peers.dom().contains(other) ==> after.peers[other]
                == network.peers[other]
            &&& after.running == network.running
            &&& after.addrs == network.addrs
            &&& after.ipv4mask == network.ipv4mask
            &&& after.ipv6mask == network.ipv6mask
            &&& after.out_queue_cap == network.out_queue_cap
            &&& after.auth_rules == network.auth_rules
        }),
{
    assert(network.with_link_change(remote, change).peers.dom() =~= network.peers.dom());
}

/// A silent network receives from no peer; it has the same peers, with the same names, addresses
/// and connections, and is the same in all else.
pub proof fn law_what_silence_leaves(network: Network, key: Seq<u8>)
    ensures
        ({
            let after = network.silent();
            &&& after.peers.dom() == network.peers.dom()
            &&& network.peers.dom().contains(key) ==> {
                &&& !after.peers[key].receiving
                &&& after.peers[key].remote == network.peers[key].remote
                &&& after.peers[key].addrs == network.peers[key].addrs
                &&& after.peers[key].link == network.peers[key].link
            }
            &&& after.running == network.running
            &&& after.addrs == network.addrs
            &&& after.ipv4mask == network.ipv4mask
            &&& after.ipv6mask == network.ipv6mask
            &&& after.out_queue_cap == network.out_queue_cap
            &&& after.auth_rules == network.auth_rules
        }),
{
    assert(network.silent().peers.dom() =~= network.peers.dom());
}

/// In a network that is well formed, a peer stands under its own key and has neither address of
/// the host, and two peers have neither address in common; and any table like that, of finitely
/// many peers, is well formed.
pub proof fn law_well_formed(network: Network)
    ensures
        network.wf() <==> {
            &&& network.peers.dom().finite()
            &&& forall|key: Seq<u8>| #[trigger]
                network.peers.dom().contains(key) ==> network.peers[key].remote@ == key
            &&& !taken_ipv4(network, network.addrs.v4.bits as int)
            &&& !taken_ipv6(network, network.addrs.v6.bits as int)
            &&& forall|a: Seq<u8>, b: Seq<u8>|
                #![trigger network.peers.dom().contains(a), network.peers.dom().contains(b)]
                network.peers.dom().contains(a) && network.peers.dom().contains(b) && (
                network.peers[a].addrs.v4.bits == network.peers[b].addrs.v4.bits
                    || network.peers[a].addrs.v6.bits == network.peers[b].addrs.v6.bits) ==> a == b
        },
{
    if network.wf() {
        assert forall|a: Seq<u8>, b: Seq<u8>|
            #![trigger network.peers.dom().contains(a), network.peers.dom().contains(b)]
            network.peers.dom().contains(a) && network.peers.dom().contains(b) && (
            network.peers[a].addrs.v4.bits == network.peers[b].addrs.v4.bits
                || network.peers[a].addrs.v6.bits == network.peers[b].addrs.v6.bits) implies a
            == b by {
            assert(network.peers[a].addrs.v4.bits == network.peers[b].addrs.v4.bits
                ==> network.peers[a].addrs.v4 == network.peers[b].addrs.v4);
            assert(network.peers[a].addrs.v6.bits == network.peers[b].addrs.v6.bits
                ==> network.peers[a].addrs.v6 == network.peers[b].addrs.v6);
        }
    }
}

/// In a list that is in order, of two peers the one in front has the smaller octet in the first
/// place in which their keys differ.
pub proof fn law_listed_in_order_of_octets(
    list: Seq<(RemoteId, IpAddrs)>,
    i: int,
    j: int,
    at: int,
)
    requires
        in_key_order(list),
        0 <= i < j < list.len(),
        list[i].0@.len() == list[j].0@.len(),
        0 <= at < list[i].0@.len(),
        forall|k: int| 0 <= k < at ==> #[trigger] list[i].0@[k] == list[j].0@[k],
        list[i].0@[at] != list[j].0@[at],
    ensures
        list[i].0@[at] < list[j].0@[at],
        list[i].0@ != list[j].0@,
{
    law_keys_in_order_of_octets(list[i].0@, list[j].0@, at);
}

/// A client is told which family has no address left, or that the peer is not connected.
pub proof fn law_what_clients_are_told(error: PeerError)
    ensures
        error is Ipv4Exhausted ==> error.text() == "IPv4 allocation failed"@,
        error is Ipv6Exhausted ==> error.text() == "IPv6 allocation failed"@,
        error is NotConnected ==> error.text() == "Peer not connected"@,
{
}

} // verus!
