//! The table of peers, kept in a concurrent hash map.

use crate::addr::IpAddrs;
use crate::remote_id::RemoteId;
use crate::send::Link;
use dashmap::DashMap;
use fxhash::FxHasher;
use std::hash::BuildHasherDefault;
use vstd::prelude::*;

verus! {

/// What is known of a peer.
#[derive(Clone, Copy, Debug)]
pub struct PeerEntry {
    /// The name of the peer.
    pub remote: RemoteId,
    /// The addresses by which the peer is known on this host.
    pub addrs: IpAddrs,
    /// Whether packets of the peer are being received.
    pub receiving: bool,
    /// The connection over which messages go to the peer, if there is one.
    pub link: Option<Link>,
}

/// The concurrent hash map.
#[verifier::external_type_specification]
#[verifier::external_body]
#[verifier::reject_recursive_types(K)]
#[verifier::reject_recursive_types(V)]
#[verifier::reject_recursive_types(S)]
pub struct ExDashMap<K, V, S>(DashMap<K, V, S>);

/// The hash function of the map.
#[verifier::external_type_specification]
#[verifier::external_body]
pub struct ExFxHasher(FxHasher);

/// The maker of hash functions that have no seed.
#[verifier::external_type_specification]
#[verifier::external_body]
#[verifier::reject_recursive_types(H)]
pub struct ExBuildHasherDefault<H>(BuildHasherDefault<H>);

/// The entries of the map, by the octets of the peer's key.
pub uninterp spec fn peer_map(
    map: DashMap<[u8; 32], PeerEntry, BuildHasherDefault<FxHasher>>,
) -> Map<Seq<u8>, PeerEntry>;

/// Makes a map by `DashMap::default`: it has no entry.
#[verifier::external_body]
pub(crate) fn peer_map_new() -> (map: DashMap<[u8; 32], PeerEntry, BuildHasherDefault<FxHasher>>)
    ensures
        peer_map(map).dom() == Set::<Seq<u8>>::empty(),
{
    DashMap::default()
}

/// Looks a key up by `DashMap::get`: the entry under the key, if there is one.
#[verifier::external_body]
pub(crate) fn peer_map_get(
    map: &DashMap<[u8; 32], PeerEntry, BuildHasherDefault<FxHasher>>,
    key: &[u8; 32],
) -> (entry: Option<PeerEntry>)
    ensures
        entry is Some <==> peer_map(*map).dom().contains(key@),
        entry matches Some(e) ==> peer_map(*map)[key@] == e,
{
    map.get(key).map(|entry| *entry.value())
}

/// Puts an entry under a key by `DashMap::insert`, in the place of the one that was there; the
/// other entries stay.
#[verifier::external_body]
pub(crate) fn peer_map_insert(
    map: &mut DashMap<[u8; 32], PeerEntry, BuildHasherDefault<FxHasher>>,
    key: [u8; 32],
    entry: PeerEntry,
)
    ensures
        peer_map(*final(map)) == peer_map(*old(map)).insert(key@, entry),
{
    map.insert(key, entry);
}

/// Takes the entry under a key out by `DashMap::remove`, if there is one; the others stay.
#[verifier::external_body]
pub(crate) fn peer_map_remove(
    map: &mut DashMap<[u8; 32], PeerEntry, BuildHasherDefault<FxHasher>>,
    key: &[u8; 32],
) -> (entry: Option<PeerEntry>)
    ensures
        peer_map(*final(map)) == peer_map(*old(map)).remove(key@),
        entry is Some <==> peer_map(*old(map)).dom().contains(key@),
        entry matches Some(e) ==> peer_map(*old(map))[key@] == e,
{
    map.remove(key).map(|(_, entry)| entry)
}

/// Hands the entries out by `DashMap::iter`: each of them once, in no particular order.
#[verifier::external_body]
pub(crate) fn peer_map_entries(
    map: &DashMap<[u8; 32], PeerEntry, BuildHasherDefault<FxHasher>>,
) -> (entries: Vec<([u8; 32], PeerEntry)>)
    ensures
        forall|i: int|
            0 <= i < entries@.len() ==> peer_map(*map).dom().contains(
                (#[trigger] entries@[i]).0@,
            ) && peer_map(*map)[entries@[i].0@] == entries@[i].1,
        forall|i: int, j: int|
            0 <= i < j < entries@.len() ==> (#[trigger] entries@[i]).0@ != (
            #[trigger] entries@[j]).0@,
        forall|key: Seq<u8>| #[trigger]
            peer_map(*map).dom().contains(key) ==> exists|i: int|
                0 <= i < entries@.len() && (#[trigger] entries@[i]).0@ == key,
{
    map.iter().map(|entry| (*entry.key(), *entry.value())).collect()
}

} // verus!
