//! The state of a running network: who the peers are and which addresses they have.

use crate::addr::{be_value, lemma_octets_of_be_value, IpAddrs, Ipv4Addr, Ipv6Addr};
use crate::allocation::{
    law_found_is_first_free, lemma_widest_number, numbers, scan_ipv4, scan_ipv6, scan_network,
};
use crate::auth::{AuthResp, AuthRules};
use crate::key::precedes;
use crate::peer_map::{
    peer_map, peer_map_entries, peer_map_get, peer_map_insert, peer_map_new, peer_map_remove,
    PeerEntry,
};
use crate::remote_id::RemoteId;
use crate::send::{change_link, changed, Link, LinkChange};
use dashmap::DashMap;
use fxhash::FxHasher;
use std::hash::BuildHasherDefault;
use vstd::arithmetic::power2::lemma2_to64;
use vstd::prelude::*;

verus! {

/// The state of a running network.
pub struct IvLanState {
    running: bool,
    peers: DashMap<[u8; 32], PeerEntry, BuildHasherDefault<FxHasher>>,
    addrs: IpAddrs,
    ipv4mask: u8,
    ipv6mask: u8,
    out_queue_cap: usize,
    auth_rules: AuthRules,
}

/// What the state of a network amounts to.
#[verifier::ext_equal]
pub struct Network {
    /// Whether the network was started.
    pub running: bool,
    /// The peers, by the octets of their keys.
    pub peers: Map<Seq<u8>, PeerEntry>,
    /// The addresses of this host.
    pub addrs: IpAddrs,
    /// The bits of the prefix of IPv4 addresses.
    pub ipv4mask: u8,
    /// The bits of the prefix of IPv6 addresses.
    pub ipv6mask: u8,
    /// How many packets may wait for one peer.
    pub out_queue_cap: usize,
    /// Who is let in.
    pub auth_rules: AuthRules,
}

impl View for IvLanState {
    type V = Network;

    closed spec fn view(&self) -> Network {
        Network {
            running: self.running,
            peers: peer_map(self.peers),
            addrs: self.addrs,
            ipv4mask: self.ipv4mask,
            ipv6mask: self.ipv6mask,
            out_queue_cap: self.out_queue_cap,
            auth_rules: self.auth_rules,
        }
    }
}

/// Why a peer got no addresses, or has none.
#[derive(Clone, Copy, Debug, PartialEq, Eq, Structural)]
pub enum PeerError {
    /// No IPv4 address is left.
    Ipv4Exhausted,
    /// No IPv6 address is left.
    Ipv6Exhausted,
    /// The peer is not known.
    NotConnected,
}

/// What is to be done for a peer that was added or connected anew.
#[derive(Clone, Copy, Debug, PartialEq, Eq, Structural)]
pub struct Insertion {
    /// The addresses of the peer.
    pub addrs: IpAddrs,
    /// Whether the peer was not known before, so that its packets have yet to be sent.
    pub fresh: bool,
    /// Whether its packets were being received over a connection that is to be given up.
    pub abort: bool,
}

/// What is to be done after a peer answered a request to be let in.
#[derive(Clone, Copy, Debug, PartialEq, Eq)]
pub struct Completion {
    /// Whether the peer was forgotten while its packets were being received, which is to be given
    /// up.
    pub abort: bool,
    /// What became of the peer; nothing where it needs addresses and there are no prefixes to go
    /// by.
    pub insertion: Option<Result<Insertion, PeerError>>,
}

/// The numbers of the IPv4 addresses that peers have.
pub open spec fn used_ipv4(peers: Map<Seq<u8>, PeerEntry>) -> Set<int> {
    Set::new(
        |n: int|
            exists|key: Seq<u8>| #[trigger]
                peers.dom().contains(key) && peers[key].addrs.v4.bits == n,
    )
}

/// The numbers of the IPv6 addresses that peers have.
pub open spec fn used_ipv6(peers: Map<Seq<u8>, PeerEntry>) -> Set<int> {
    Set::new(
        |n: int|
            exists|key: Seq<u8>| #[trigger]
                peers.dom().contains(key) && peers[key].addrs.v6.bits == n,
    )
}

impl Network {
    /// Every peer stands under its own key, no two hosts share an address, and the peers are
    /// finitely many.
    pub open spec fn wf(self) -> bool {
        &&& self.peers.dom().finite()
        &&& forall|key: Seq<u8>| #[trigger]
            self.peers.dom().contains(key) ==> self.peers[key].remote@ == key
                && self.peers[key].addrs.v4 != self.addrs.v4 && self.peers[key].addrs.v6
                != self.addrs.v6
        &&& forall|a: Seq<u8>, b: Seq<u8>|
            #![trigger self.peers.dom().contains(a), self.peers.dom().contains(b)]
            self.peers.dom().contains(a) && self.peers.dom().contains(b) && a != b
                ==> self.peers[a].addrs.v4 != self.peers[b].addrs.v4 && self.peers[a].addrs.v6
                != self.peers[b].addrs.v6
    }

    /// Whether a peer is known.
    pub open spec fn knows(self, remote: Seq<u8>) -> bool {
        self.peers.dom().contains(remote)
    }

    /// The number of the IPv4 address that a new peer would get.
    pub open spec fn ipv4_scan(self) -> Option<u128> {
        scan_network(
            self.addrs.v4.bits as int,
            used_ipv4(self.peers),
            self.ipv4mask as int,
            32,
        )
    }

    /// The number of the IPv6 address that a new peer would get.
    pub open spec fn ipv6_scan(self) -> Option<u128> {
        scan_network(
            self.addrs.v6.bits as int,
            used_ipv6(self.peers),
            self.ipv6mask as int,
            128,
        )
    }

    /// Whether the networks have the prefixes that looking for the addresses of a new peer goes
    /// by.
    pub open spec fn can_allocate(self) -> bool {
        &&& self.ipv4mask > 0
        &&& self.ipv4_scan() is Some ==> self.ipv6mask > 0
    }

    /// The addresses that a new peer gets.
    pub open spec fn allocated(self) -> Result<IpAddrs, PeerError> {
        match (self.ipv4_scan(), self.ipv6_scan()) {
            (Some(v4), Some(v6)) => Ok(
                IpAddrs { v4: Ipv4Addr { bits: v4 as u32 }, v6: Ipv6Addr { bits: v6 } },
            ),
            (Some(_), _) => Err(PeerError::Ipv6Exhausted),
            _ => Err(PeerError::Ipv4Exhausted),
        }
    }

    /// What is to be done for a peer that is added, or that is connected anew if it comes with
    /// streams.
    pub open spec fn insertion(self, remote: Seq<u8>, streams: Option<Link>) -> Result<
        Insertion,
        PeerError,
    > {
        if self.knows(remote) {
            Ok(
                Insertion {
                    addrs: self.peers[remote].addrs,
                    fresh: false,
                    abort: streams is Some && self.peers[remote].receiving,
                },
            )
        } else {
            match self.allocated() {
                Ok(addrs) => Ok(Insertion { addrs, fresh: true, abort: false }),
                Err(e) => Err(e),
            }
        }
    }

    /// The network with a peer added, or connected anew if it comes with streams: then its packets
    /// are received, and messages go to it, over their connection. A peer that is known keeps its
    /// addresses; where none are left for a new one, nothing changes.
    pub open spec fn with_peer(self, remote: RemoteId, streams: Option<Link>) -> Network {
        match self.insertion(remote@, streams) {
            Err(_) => self,
            Ok(done) => if done.fresh || streams is Some {
                Network {
                    peers: self.peers.insert(
                        remote@,
                        PeerEntry {
                            remote,
                            addrs: done.addrs,
                            receiving: streams is Some,
                            link: streams,
                        },
                    ),
                    ..self
                }
            } else {
                self
            },
        }
    }

    proof fn lemma_ipv4_scan(self)
        ensures
            self.ipv4_scan() matches Some(number) ==> self.addrs.v4.bits < number
                <= u32::MAX && !used_ipv4(self.peers).contains(number as int),
    {
        lemma2_to64();
        if self.ipv4_scan() is Some {
            law_found_is_first_free(
                self.addrs.v4.bits as int,
                used_ipv4(self.peers),
                self.ipv4mask as int,
                32,
            );
        }
    }

    proof fn lemma_ipv6_scan(self)
        ensures
            self.ipv6_scan() matches Some(number) ==> self.addrs.v6.bits < number
                && !used_ipv6(self.peers).contains(number as int),
    {
        lemma_widest_number();
        if self.ipv6_scan() is Some {
            law_found_is_first_free(
                self.addrs.v6.bits as int,
                used_ipv6(self.peers),
                self.ipv6mask as int,
                128,
            );
        }
    }

    /// The addresses that a new peer gets are those of no other host.
    pub proof fn law_allocated_is_fresh(self)
        ensures
            self.allocated() matches Ok(addrs) ==> {
                &&& addrs.v4 != self.addrs.v4
                &&& addrs.v6 != self.addrs.v6
                &&& forall|key: Seq<u8>| #[trigger]
                    self.peers.dom().contains(key) ==> self.peers[key].addrs.v4 != addrs.v4
                        && self.peers[key].addrs.v6 != addrs.v6
            },
    {
        self.lemma_ipv4_scan();
        self.lemma_ipv6_scan();
        if let Ok(addrs) = self.allocated() {
            assert forall|key: Seq<u8>| #[trigger]
                self.peers.dom().contains(key) implies self.peers[key].addrs.v4 != addrs.v4
                && self.peers[key].addrs.v6 != addrs.v6 by {
                if self.peers[key].addrs.v4 == addrs.v4 {
                    assert(used_ipv4(self.peers).contains(addrs.v4.bits as int));
                }
                if self.peers[key].addrs.v6 == addrs.v6 {
                    assert(used_ipv6(self.peers).contains(addrs.v6.bits as int));
                }
            }
        }
    }

    /// Whether a peer can be added or connected anew: one that is not known needs addresses.
    pub open spec fn can_insert(self, remote: Seq<u8>) -> bool {
        self.knows(remote) || self.can_allocate()
    }

    /// The network after a peer answered a request to be let in: one that refused is forgotten.
    pub open spec fn answered(self, remote: Seq<u8>, resp: AuthResp) -> Network {
        match resp {
            AuthResp::Good => self,
            AuthResp::Bad => self.without_peer(remote),
        }
    }

    /// The addresses of a peer.
    pub open spec fn lookup(self, remote: Seq<u8>) -> Result<IpAddrs, PeerError> {
        if self.knows(remote) {
            Ok(self.peers[remote].addrs)
        } else {
            Err(PeerError::NotConnected)
        }
    }

    /// The connection over which messages go to a peer, if there is one.
    pub open spec fn link(self, remote: Seq<u8>) -> Option<Link> {
        if self.knows(remote) {
            self.peers[remote].link
        } else {
            None
        }
    }

    /// The network after the connection over which messages go to a peer changed; that of a peer
    /// that is not known cannot.
    pub open spec fn with_link_change(self, remote: Seq<u8>, change: LinkChange) -> Network {
        if self.knows(remote) {
            Network {
                peers: self.peers.insert(
                    remote,
                    PeerEntry {
                        link: changed(self.peers[remote].link, change),
                        ..self.peers[remote]
                    },
                ),
                ..self
            }
        } else {
            self
        }
    }

    /// The network with no packets being received.
    pub open spec fn silent(self) -> Network {
        Network {
            peers: self.peers.map_values(
                |entry: PeerEntry| PeerEntry { receiving: false, ..entry },
            ),
            ..self
        }
    }

    /// The network without a peer.
    pub open spec fn without_peer(self, remote: Seq<u8>) -> Network {
        Network { peers: self.peers.remove(remote), ..self }
    }
}

/// Whether a list of peers is in the order of the numbers that their keys spell, with no peer
/// twice.
pub open spec fn in_key_order(list: Seq<(RemoteId, IpAddrs)>) -> bool {
    forall|i: int, j: int|
        0 <= i < j < list.len() ==> be_value((#[trigger] list[i]).0@) < be_value(
            (#[trigger] list[j]).0@,
        )
}

/// How a peer of the table is listed.
spec fn listed(entry: ([u8; 32], PeerEntry)) -> (RemoteId, IpAddrs) {
    (entry.1.remote, entry.1.addrs)
}

/// Puts a peer into its place in an ordered list that it is not in.
fn insert_in_order(list: &mut Vec<(RemoteId, IpAddrs)>, peer: (RemoteId, IpAddrs))
    requires
        in_key_order(old(list)@),
        forall|x: (RemoteId, IpAddrs)| #[trigger]
            old(list)@.contains(x) ==> be_value(x.0@) != be_value(peer.0@),
    ensures
        in_key_order(final(list)@),
        forall|x: (RemoteId, IpAddrs)| #[trigger]
            final(list)@.contains(x) <==> old(list)@.contains(x) || x == peer,
{
    let len: usize = list.len();
    let mut at: usize = 0;
    while at < len && precedes(list[at].0.as_bytes(), peer.0.as_bytes())
        invariant
            at <= len,
            len == list@.len(),
            forall|i: int| 0 <= i < at ==> be_value((#[trigger] list@[i]).0@) < be_value(peer.0@),
        decreases len - at,
    {
        at = at + 1;
    }
    let ghost before = list@;
    list.insert(at, peer);
    proof {
        let after = list@;
        if at < len {
            assert(before.contains(before[at as int]));
        }
        assert forall|i: int, j: int| 0 <= i < j < after.len() implies be_value(
            (#[trigger] after[i]).0@,
        ) < be_value((#[trigger] after[j]).0@) by {
            if j == at {
                assert(after[i] == before[i]);
            } else if i < at && j > at {
                assert(after[j] == before[j - 1]);
                assert(after[i] == before[i]);
            } else if i == at {
                assert(after[j] == before[j - 1]);
                if j - 1 > at {
                    assert(be_value(before[at as int].0@) < be_value(before[j - 1].0@));
                }
            } else if i > at {
                assert(after[j] == before[j - 1]);
                assert(after[i] == before[i - 1]);
            } else {
                assert(after[j] == before[j]);
                assert(after[i] == before[i]);
            }
        }
        assert forall|x: (RemoteId, IpAddrs)| #[trigger]
            after.contains(x) == (before.contains(x) || x == peer) by {
            if after.contains(x) {
                let i = choose|i: int| 0 <= i < after.len() && after[i] == x;
                if i < at {
                    assert(before[i] == x);
                } else if i > at {
                    assert(before[i - 1] == x);
                }
            }
            if before.contains(x) {
                let i = choose|i: int| 0 <= i < before.len() && before[i] == x;
                if i < at {
                    assert(after[i] == x);
                } else {
                    assert(after[i + 1] == x);
                }
            }
            assert(after[at as int] == peer);
        }
    }
}

impl PeerError {
    /// What a client is told.
    pub open spec fn text(self) -> Seq<char> {
        match self {
            PeerError::Ipv4Exhausted => "IPv4 allocation failed"@,
            PeerError::Ipv6Exhausted => "IPv6 allocation failed"@,
            PeerError::NotConnected => "Peer not connected"@,
        }
    }

    /// What a client is told.
    pub fn message(&self) -> (message: &'static str)
        ensures
            message@ == self.text(),
    {
        match self {
            PeerError::Ipv4Exhausted => "IPv4 allocation failed",
            PeerError::Ipv6Exhausted => "IPv6 allocation failed",
            PeerError::NotConnected => "Peer not connected",
        }
    }
}

impl IvLanState {
    /// A network that was not started and has no peers.
    pub fn new(
        ipv4: Ipv4Addr,
        ipv4mask: u8,
        ipv6: Ipv6Addr,
        ipv6mask: u8,
        out_queue_cap: usize,
        auth_rules: AuthRules,
    ) -> (state: IvLanState)
        ensures
            state@.wf(),
            !state@.running,
            state@.peers.dom() == Set::<Seq<u8>>::empty(),
            state@.addrs == (IpAddrs { v4: ipv4, v6: ipv6 }),
            state@.ipv4mask == ipv4mask,
            state@.ipv6mask == ipv6mask,
            state@.out_queue_cap == out_queue_cap,
            state@.auth_rules == auth_rules,
    {
        IvLanState {
            running: false,
            peers: peer_map_new(),
            addrs: IpAddrs { v4: ipv4, v6: ipv6 },
            ipv4mask,
            ipv6mask,
            out_queue_cap,
            auth_rules,
        }
    }

    /// The numbers of the IPv4 addresses that peers have.
    fn ipv4_numbers(&self) -> (used: Vec<u128>)
        ensures
            numbers(used@) == used_ipv4(self@.peers),
    {
        let entries: Vec<([u8; 32], PeerEntry)> = peer_map_entries(&self.peers);
        let len: usize = entries.len();
        let mut used: Vec<u128> = Vec::new();
        let mut at: usize = 0;
        while at < len
            invariant
                at <= len,
                len == entries@.len(),
                used@.len() == at,
                forall|i: int| 0 <= i < at ==> #[trigger] used@[i] == entries@[i].1.addrs.v4.bits,
            decreases len - at,
        {
            used.push(entries[at].1.addrs.v4.bits as u128);
            at = at + 1;
        }
        proof {
            let peers = self@.peers;
            assert forall|n: int| numbers(used@).contains(n) == used_ipv4(peers).contains(n) by {
                if numbers(used@).contains(n) {
                    let i = choose|i: int| 0 <= i < used@.len() && #[trigger] used@[i] == n;
                    assert(peers.dom().contains(entries@[i].0@));
                }
                if used_ipv4(peers).contains(n) {
                    let key = choose|key: Seq<u8>| #[trigger]
                        peers.dom().contains(key) && peers[key].addrs.v4.bits == n;
                    let i = choose|i: int|
                        0 <= i < entries@.len() && (#[trigger] entries@[i]).0@ == key;
                    assert(used@[i] == n);
                }
            }
            assert(numbers(used@) =~= used_ipv4(peers));
        }
        used
    }

    /// The numbers of the IPv6 addresses that peers have.
    fn ipv6_numbers(&self) -> (used: Vec<u128>)
        ensures
            numbers(used@) == used_ipv6(self@.peers),
    {
        let entries: Vec<([u8; 32], PeerEntry)> = peer_map_entries(&self.peers);
        let len: usize = entries.len();
        let mut used: Vec<u128> = Vec::new();
        let mut at: usize = 0;
        while at < len
            invariant
                at <= len,
                len == entries@.len(),
                used@.len() == at,
                forall|i: int| 0 <= i < at ==> #[trigger] used@[i] == entries@[i].1.addrs.v6.bits,
            decreases len - at,
        {
            used.push(entries[at].1.addrs.v6.bits);
            at = at + 1;
        }
        proof {
            let peers = self@.peers;
            assert forall|n: int| numbers(used@).contains(n) == used_ipv6(peers).contains(n) by {
                if numbers(used@).contains(n) {
                    let i = choose|i: int| 0 <= i < used@.len() && #[trigger] used@[i] == n;
                    assert(peers.dom().contains(entries@[i].0@));
                }
                if used_ipv6(peers).contains(n) {
                    let key = choose|key: Seq<u8>| #[trigger]
                        peers.dom().contains(key) && peers[key].addrs.v6.bits == n;
                    let i = choose|i: int|
                        0 <= i < entries@.len() && (#[trigger] entries@[i]).0@ == key;
                    assert(used@[i] == n);
                }
            }
            assert(numbers(used@) =~= used_ipv6(peers));
        }
        used
    }

    /// Whether the networks have the prefixes that looking for the addresses of a new peer goes
    /// by.
    pub fn can_allocate(&self) -> (can: bool)
        ensures
            can == self@.can_allocate(),
    {
        self.ipv4mask > 0 && (self.ipv6mask > 0 || self.allocate_ipv4().is_none())
    }

    /// The IPv4 address that a new peer gets, if one is left.
    pub fn allocate_ipv4(&self) -> (addr: Option<Ipv4Addr>)
        requires
            self@.ipv4mask > 0,
        ensures
            match addr {
                Some(addr) => self@.ipv4_scan() == Some(addr.bits as u128),
                None => self@.ipv4_scan() is None,
            },
    {
        match scan_ipv4(self.addrs.v4.bits, &self.ipv4_numbers(), self.ipv4mask) {
            Some(number) => {
                proof {
                    self@.lemma_ipv4_scan();
                }
                Some(Ipv4Addr { bits: number as u32 })
            },
            None => None,
        }
    }

    /// The IPv6 address that a new peer gets, if one is left.
    pub fn allocate_ipv6(&self) -> (addr: Option<Ipv6Addr>)
        requires
            self@.ipv6mask > 0,
        ensures
            match addr {
                Some(addr) => self@.ipv6_scan() == Some(addr.bits),
                None => self@.ipv6_scan() is None,
            },
    {
        match scan_ipv6(self.addrs.v6.bits, &self.ipv6_numbers(), self.ipv6mask) {
            Some(number) => Some(Ipv6Addr { bits: number }),
            None => None,
        }
    }

    /// Takes a peer out. Says whether its packets were being received, which is then to be given
    /// up.
    pub fn remove_peer(&mut self, remote: RemoteId) -> (abort: bool)
        ensures
            final(self)@ == old(self)@.without_peer(remote@),
            abort == (old(self)@.knows(remote@) && old(self)@.peers[remote@].receiving),
            old(self)@.wf() ==> final(self)@.wf(),
    {
        match peer_map_remove(&mut self.peers, remote.as_bytes()) {
            Some(entry) => entry.receiving,
            None => false,
        }
    }

    /// Adds a peer, or connects it anew if it comes with streams.
    pub fn insert_peer(&mut self, remote: RemoteId, streams: Option<Link>) -> (done: Result<
        Insertion,
        PeerError,
    >)
        requires
            old(self)@.wf(),
            old(self)@.knows(remote@) || old(self)@.can_allocate(),
        ensures
            done == old(self)@.insertion(remote@, streams),
            final(self)@ == old(self)@.with_peer(remote, streams),
            final(self)@.wf(),
    {
        if let Some(entry) = peer_map_get(&self.peers, remote.as_bytes()) {
            if streams.is_some() {
                peer_map_insert(
                    &mut self.peers,
                    *remote.as_bytes(),
                    PeerEntry { remote, addrs: entry.addrs, receiving: true, link: streams },
                );
            }
            return Ok(
                Insertion {
                    addrs: entry.addrs,
                    fresh: false,
                    abort: streams.is_some() && entry.receiving,
                },
            );
        }
        let v4: Ipv4Addr = match self.allocate_ipv4() {
            Some(addr) => addr,
            None => {
                return Err(PeerError::Ipv4Exhausted);
            },
        };
        let v6: Ipv6Addr = match self.allocate_ipv6() {
            Some(addr) => addr,
            None => {
                return Err(PeerError::Ipv6Exhausted);
            },
        };
        let addrs: IpAddrs = IpAddrs { v4, v6 };
        proof {
            self@.law_allocated_is_fresh();
        }
        peer_map_insert(
            &mut self.peers,
            *remote.as_bytes(),
            PeerEntry { remote, addrs, receiving: streams.is_some(), link: streams },
        );
        Ok(Insertion { addrs, fresh: true, abort: false })
    }

    /// Whether a peer can be added or connected anew: one that is not known needs addresses.
    pub fn can_insert(&self, remote: RemoteId) -> (can: bool)
        ensures
            can == self@.can_insert(remote@),
    {
        peer_map_get(&self.peers, remote.as_bytes()).is_some() || self.can_allocate()
    }

    /// Gives a peer addresses, unless it has some already.
    pub fn connect(&mut self, remote: RemoteId) -> (done: Result<Insertion, PeerError>)
        requires
            old(self)@.wf(),
            old(self)@.can_insert(remote@),
        ensures
            done == old(self)@.insertion(remote@, None),
            final(self)@ == old(self)@.with_peer(remote, None),
            final(self)@.wf(),
    {
        self.insert_peer(remote, None)
    }

    /// Takes note of the answer of a peer that was asked to let this host in. The peer is
    /// connected anew with the streams of the connection; one that refused is forgotten before,
    /// and so gets its addresses anew. Nothing is done about the streams where it needs addresses
    /// and the networks have no prefixes to go by.
    pub fn complete_connection(&mut self, remote: RemoteId, resp: AuthResp, link: Link) -> (done:
        Completion)
        requires
            old(self)@.wf(),
        ensures
            final(self)@.wf(),
            done.abort == (resp is Bad && old(self)@.knows(remote@)
                && old(self)@.peers[remote@].receiving),
            ({
                let base = old(self)@.answered(remote@, resp);
                if base.can_insert(remote@) {
                    &&& done.insertion == Some(base.insertion(remote@, Some(link)))
                    &&& final(self)@ == base.with_peer(remote, Some(link))
                } else {
                    &&& done.insertion is None
                    &&& final(self)@ == base
                }
            }),
    {
        let abort: bool = match resp {
            AuthResp::Good => false,
            AuthResp::Bad => self.remove_peer(remote),
        };
        if self.can_insert(remote) {
            Completion { abort, insertion: Some(self.insert_peer(remote, Some(link))) }
        } else {
            Completion { abort, insertion: None }
        }
    }

    /// The addresses of a peer.
    pub fn lookup(&self, remote: RemoteId) -> (addrs: Result<IpAddrs, PeerError>)
        ensures
            addrs == self@.lookup(remote@),
    {
        match peer_map_get(&self.peers, remote.as_bytes()) {
            Some(entry) => Ok(entry.addrs),
            None => Err(PeerError::NotConnected),
        }
    }

    /// The connection over which messages go to a peer, if there is one.
    pub fn link(&self, remote: RemoteId) -> (link: Option<Link>)
        ensures
            link == self@.link(remote@),
    {
        match peer_map_get(&self.peers, remote.as_bytes()) {
            Some(entry) => entry.link,
            None => None,
        }
    }

    /// Takes note of a change of the connection over which messages go to a peer.
    pub fn update_link(&mut self, remote: RemoteId, change: LinkChange)
        ensures
            final(self)@ == old(self)@.with_link_change(remote@, change),
            old(self)@.wf() ==> final(self)@.wf(),
    {
        if let Some(entry) = peer_map_get(&self.peers, remote.as_bytes()) {
            peer_map_insert(
                &mut self.peers,
                *remote.as_bytes(),
                PeerEntry {
                    remote: entry.remote,
                    addrs: entry.addrs,
                    receiving: entry.receiving,
                    link: change_link(entry.link, change),
                },
            );
        }
    }

    /// The peer that has an IPv4 address, if one does.
    pub fn peer_with_ipv4(&self, addr: Ipv4Addr) -> (peer: Option<RemoteId>)
        requires
            self@.wf(),
        ensures
            match peer {
                Some(remote) => self@.knows(remote@) && self@.peers[remote@].addrs.v4 == addr,
                None => forall|key: Seq<u8>| #[trigger]
                    self@.knows(key) ==> self@.peers[key].addrs.v4 != addr,
            },
    {
        let entries: Vec<([u8; 32], PeerEntry)> = peer_map_entries(&self.peers);
        let len: usize = entries.len();
        let mut at: usize = 0;
        while at < len
            invariant
                at <= len,
                len == entries@.len(),
                self@.wf(),
                forall|i: int|
                    0 <= i < entries@.len() ==> self@.peers.dom().contains(
                        (#[trigger] entries@[i]).0@,
                    ) && self@.peers[entries@[i].0@] == entries@[i].1,
                forall|i: int| 0 <= i < at ==> (#[trigger] entries@[i]).1.addrs.v4 != addr,
            decreases len - at,
        {
            let entry: PeerEntry = entries[at].1;
            if entry.addrs.v4 == addr {
                proof {
                    assert(self@.peers.dom().contains(entries@[at as int].0@));
                }
                return Some(entry.remote);
            }
            at = at + 1;
        }
        None
    }

    /// The peer that has an IPv6 address, if one does.
    pub fn peer_with_ipv6(&self, addr: Ipv6Addr) -> (peer: Option<RemoteId>)
        requires
            self@.wf(),
        ensures
            match peer {
                Some(remote) => self@.knows(remote@) && self@.peers[remote@].addrs.v6 == addr,
                None => forall|key: Seq<u8>| #[trigger]
                    self@.knows(key) ==> self@.peers[key].addrs.v6 != addr,
            },
    {
        let entries: Vec<([u8; 32], PeerEntry)> = peer_map_entries(&self.peers);
        let len: usize = entries.len();
        let mut at: usize = 0;
        while at < len
            invariant
                at <= len,
                len == entries@.len(),
                self@.wf(),
                forall|i: int|
                    0 <= i < entries@.len() ==> self@.peers.dom().contains(
                        (#[trigger] entries@[i]).0@,
                    ) && self@.peers[entries@[i].0@] == entries@[i].1,
                forall|i: int| 0 <= i < at ==> (#[trigger] entries@[i]).1.addrs.v6 != addr,
            decreases len - at,
        {
            let entry: PeerEntry = entries[at].1;
            if entry.addrs.v6 == addr {
                proof {
                    assert(self@.peers.dom().contains(entries@[at as int].0@));
                }
                return Some(entry.remote);
            }
            at = at + 1;
        }
        None
    }

    /// Gives up receiving the packets of every peer, and lists those whose packets were being
    /// received, each of them once.
    pub fn stop_receiving(&mut self) -> (stopped: Vec<RemoteId>)
        requires
            old(self)@.wf(),
        ensures
            final(self)@ == old(self)@.silent(),
            final(self)@.wf(),
            forall|key: Seq<u8>| #[trigger]
                old(self)@.knows(key) && old(self)@.peers[key].receiving <==> (exists|i: int|
                    0 <= i < stopped@.len() && (#[trigger] stopped@[i])@ == key),
            forall|i: int, j: int|
                0 <= i < j < stopped@.len() ==> (#[trigger] stopped@[i])@ != (
                #[trigger] stopped@[j])@,
    {
        let entries: Vec<([u8; 32], PeerEntry)> = peer_map_entries(&self.peers);
        let len: usize = entries.len();
        let mut stopped: Vec<RemoteId> = Vec::new();
        let mut at: usize = 0;
        let ghost before = self@;
        let ghost mut from: Seq<int> = Seq::empty();
        while at < len
            invariant
                at <= len,
                len == entries@.len(),
                before == old(self)@,
                before.wf(),
                forall|i: int|
                    0 <= i < entries@.len() ==> before.peers.dom().contains(
                        (#[trigger] entries@[i]).0@,
                    ) && before.peers[entries@[i].0@] == entries@[i].1,
                forall|i: int, j: int|
                    0 <= i < j < entries@.len() ==> (#[trigger] entries@[i]).0@ != (
                    #[trigger] entries@[j]).0@,
                forall|key: Seq<u8>| #[trigger]
                    before.peers.dom().contains(key) ==> exists|i: int|
                        0 <= i < entries@.len() && (#[trigger] entries@[i]).0@ == key,
                self@ == (Network { peers: self@.peers, ..before }),
                self@.peers.dom() == before.peers.dom(),
                forall|i: int|
                    0 <= i < at ==> self@.peers[(#[trigger] entries@[i]).0@] == (PeerEntry {
                        receiving: false,
                        ..entries@[i].1
                    }),
                forall|i: int|
                    at <= i < len ==> self@.peers[(#[trigger] entries@[i]).0@] == entries@[i].1,
                from.len() == stopped@.len(),
                forall|i: int|
                    0 <= i < from.len() ==> 0 <= #[trigger] from[i] < at
                        && entries@[from[i]].1.receiving && stopped@[i]@ == entries@[from[i]].0@,
                forall|i: int, j: int|
                    0 <= i < j < from.len() ==> #[trigger] from[i] < #[trigger] from[j],
                forall|i: int|
                    0 <= i < at && (#[trigger] entries@[i]).1.receiving ==> exists|j: int|
                        0 <= j < from.len() && #[trigger] from[j] == i,
            decreases len - at,
        {
            let entry: PeerEntry = entries[at].1;
            if entry.receiving {
                let ghost last = from;
                proof {
                    assert(before.peers.dom().contains(entries@[at as int].0@));
                }
                peer_map_insert(
                    &mut self.peers,
                    entries[at].0,
                    PeerEntry {
                        remote: entry.remote,
                        addrs: entry.addrs,
                        receiving: false,
                        link: entry.link,
                    },
                );
                stopped.push(entry.remote);
                proof {
                    from = from.push(at as int);
                    assert(from[last.len() as int] == at);
                    assert forall|i: int|
                        0 <= i < at + 1 && (#[trigger] entries@[i]).1.receiving implies exists|
                        j: int,
                    | 0 <= j < from.len() && #[trigger] from[j] == i by {
                        if i < at {
                            let j = choose|j: int| 0 <= j < last.len() && #[trigger] last[j] == i;
                            assert(from[j] == i);
                        }
                    }
                    assert(self@.peers.dom() =~= before.peers.dom());
                }
            }
            at = at + 1;
        }
        proof {
            let silent = before.silent();
            assert forall|key: Seq<u8>| #[trigger]
                before.peers.dom().contains(key) implies self@.peers[key] == silent.peers[key] by {
                let i = choose|i: int|
                    0 <= i < entries@.len() && (#[trigger] entries@[i]).0@ == key;
                assert(self@.peers[entries@[i].0@] == (PeerEntry {
                    receiving: false,
                    ..entries@[i].1
                }));
            }
            assert(self@.peers =~= silent.peers);
            assert forall|key: Seq<u8>|
                before.knows(key) && before.peers[key].receiving implies (exists|i: int|
                0 <= i < stopped@.len() && (#[trigger] stopped@[i])@ == key) by {
                assert(before.peers.dom().contains(key));
                let i = choose|i: int|
                    0 <= i < entries@.len() && (#[trigger] entries@[i]).0@ == key;
                let j = choose|j: int| 0 <= j < from.len() && #[trigger] from[j] == i;
                assert(stopped@[j]@ == key);
            }
            assert forall|key: Seq<u8>|
                (exists|i: int|
                    0 <= i < stopped@.len() && (#[trigger] stopped@[i])@
                        == key) implies before.knows(key) && before.peers[key].receiving by {
                let i = choose|i: int| 0 <= i < stopped@.len() && (#[trigger] stopped@[i])@ == key;
                assert(0 <= from[i] < len);
                assert(before.peers.dom().contains(entries@[from[i]].0@));
            }
            assert forall|i: int, j: int| 0 <= i < j < stopped@.len() implies (
            #[trigger] stopped@[i])@ != (#[trigger] stopped@[j])@ by {
                assert(from[i] < from[j]);
                assert(entries@[from[i]].0@ != entries@[from[j]].0@);
            }
        }
        stopped
    }

    /// The peers and their addresses, in the order of their keys.
    pub fn peers(&self) -> (list: Vec<(RemoteId, IpAddrs)>)
        requires
            self@.wf(),
        ensures
            forall|i: int|
                0 <= i < list@.len() ==> self@.knows((#[trigger] list@[i]).0@)
                    && self@.peers[list@[i].0@].addrs == list@[i].1,
            forall|key: Seq<u8>| #[trigger]
                self@.knows(key) ==> exists|i: int|
                    0 <= i < list@.len() && (#[trigger] list@[i]).0@ == key,
            in_key_order(list@),
    {
        let entries: Vec<([u8; 32], PeerEntry)> = peer_map_entries(&self.peers);
        let len: usize = entries.len();
        let mut list: Vec<(RemoteId, IpAddrs)> = Vec::new();
        let mut at: usize = 0;
        while at < len
            invariant
                at <= len,
                len == entries@.len(),
                self@.wf(),
                forall|i: int|
                    0 <= i < entries@.len() ==> self@.peers.dom().contains(
                        (#[trigger] entries@[i]).0@,
                    ) && self@.peers[entries@[i].0@] == entries@[i].1,
                forall|i: int, j: int|
                    0 <= i < j < entries@.len() ==> (#[trigger] entries@[i]).0@ != (
                    #[trigger] entries@[j]).0@,
                forall|x: (RemoteId, IpAddrs)| #[trigger]
                    list@.contains(x) ==> exists|e: int|
                        0 <= e < at && x == listed(#[trigger] entries@[e]),
                forall|e: int| 0 <= e < at ==> list@.contains(listed(#[trigger] entries@[e])),
                in_key_order(list@),
            decreases len - at,
        {
            let entry: PeerEntry = entries[at].1;
            proof {
                let key = entries@[at as int].0@;
                assert(self@.peers.dom().contains(key));
                assert forall|x: (RemoteId, IpAddrs)| #[trigger]
                    list@.contains(x) implies be_value(x.0@) != be_value(entry.remote@) by {
                    let e = choose|e: int| 0 <= e < at && x == listed(#[trigger] entries@[e]);
                    assert(self@.peers.dom().contains(entries@[e].0@));
                    lemma_octets_of_be_value(x.0@);
                    lemma_octets_of_be_value(key);
                }
            }
            insert_in_order(&mut list, (entry.remote, entry.addrs));
            at = at + 1;
        }
        proof {
            assert forall|i: int| 0 <= i < list@.len() implies self@.knows(
                (#[trigger] list@[i]).0@,
            ) && self@.peers[list@[i].0@].addrs == list@[i].1 by {
                assert(list@.contains(list@[i]));
                let e = choose|e: int| 0 <= e < len && list@[i] == listed(#[trigger] entries@[e]);
                assert(self@.peers.dom().contains(entries@[e].0@));
            }
            assert forall|key: Seq<u8>| #[trigger] self@.knows(key) implies exists|i: int|
                0 <= i < list@.len() && (#[trigger] list@[i]).0@ == key by {
                assert(self@.peers.dom().contains(key));
                let e = choose|e: int|
                    0 <= e < entries@.len() && (#[trigger] entries@[e]).0@ == key;
                assert(list@.contains(listed(entries@[e])));
                let i = choose|i: int| 0 <= i < list@.len() && list@[i] == listed(entries@[e]);
                assert(list@[i].0@ == key);
            }
        }
        list
    }

    /// Whether the network may be started: it may, as long as it was not.
    pub fn may_start(&self) -> (may: bool)
        ensures
            may == !self@.running,
    {
        !self.running
    }

    /// Takes note that the network was started.
    pub fn started(&mut self)
        ensures
            final(self)@ == (Network { running: true, ..old(self)@ }),
            old(self)@.wf() ==> final(self)@.wf(),
    {
        self.running = true;
    }

    /// The addresses of this host.
    pub fn addrs(&self) -> (addrs: IpAddrs)
        ensures
            addrs == self@.addrs,
    {
        self.addrs
    }

    /// How many packets may wait for one peer.
    pub fn out_queue_cap(&self) -> (cap: usize)
        ensures
            cap == self@.out_queue_cap,
    {
        self.out_queue_cap
    }

    /// Who is let in.
    pub fn auth_rules(&self) -> (rules: &AuthRules)
        ensures
            *rules == self@.auth_rules,
    {
        &self.auth_rules
    }
}

} // verus!
