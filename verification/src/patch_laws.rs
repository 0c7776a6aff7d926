//! What rewriting the addresses of a packet keeps: the verdict of every checksum, and all
//! octets but those that it has to change.

use crate::addr::{law_ipv4_octets, law_ipv6_octets, IpAddr, IpAddrs};
use crate::checksum::{
    csum_replaced, csum_replaced_words, law_csum_replaced_words_is_the_number,
    law_csum_replaced_words_keeps_sum, lemma_congruent_sum,
    lemma_word_sum_nonnegative, lemma_word_sum_split, sum_verifies, with_word, word_at, word_sum,
    ONES,
};
use crate::ip_util::{
    csum_readdressed, ipv4_destination, ipv4_header_patched, ipv4_patched, ipv4_source,
    ipv6_destination, ipv6_header_patched, ipv6_patched, ipv6_source, is_short_fragment,
    packet_patched, patch_in_bounds, patched_ends, tcp_readdressed, transport_in_bounds,
    transport_readdressed, udp_readdressed, with_octets, NetHeader, IPV4_CHECKSUM,
    IPV4_DESTINATION, IPV4_HEADER, IPV4_SOURCE, IPV6_DESTINATION, IPV6_HEADER, IPV6_SOURCE, TCP,
    TCP_CHECKSUM, UDP, UDP_CHECKSUM,
};
use vstd::prelude::*;

verus! {

/// The sum of the words of the pseudo header that a transport checksum covers besides the
/// segment: the addresses, the protocol, and the length of the segment.
pub open spec fn pseudo_sum(src: Seq<u8>, dst: Seq<u8>, protocol: u8, len: int) -> int {
    word_sum(src) + word_sum(dst) + protocol + len / 0x1_0000 + len % 0x1_0000
}

/// The sum that the checksum of the transport header at `start` has to bring to all ones, for a
/// segment that ends at `end`.
pub open spec fn transport_sum(
    packet: Seq<u8>,
    src: Seq<u8>,
    dst: Seq<u8>,
    protocol: u8,
    start: int,
    end: int,
) -> int {
    pseudo_sum(src, dst, protocol, end - start) + word_sum(packet.subrange(start, end))
}

/// Where the transport header of a protocol holds its checksum.
pub open spec fn transport_checksum(protocol: u8) -> int {
    if protocol == TCP {
        TCP_CHECKSUM as int
    } else {
        UDP_CHECKSUM as int
    }
}

proof fn lemma_sum_with_octets(data: Seq<u8>, at: int, octets: Seq<u8>)
    requires
        0 <= at,
        at + octets.len() <= data.len(),
        at % 2 == 0,
        octets.len() % 2 == 0,
    ensures
        word_sum(with_octets(data, at, octets)) == word_sum(data) - word_sum(
            data.subrange(at, at + octets.len()),
        ) + word_sum(octets),
{
    let changed = with_octets(data, at, octets);
    let end = at + octets.len();
    let len = data.len() as int;
    lemma_word_sum_split(data, end);
    lemma_word_sum_split(changed, end);
    lemma_word_sum_split(data.subrange(0, end), at);
    lemma_word_sum_split(changed.subrange(0, end), at);
    assert(data.subrange(end, len) =~= changed.subrange(end, len));
    assert(data.subrange(0, end).subrange(0, at) =~= changed.subrange(0, end).subrange(0, at));
    assert(data.subrange(0, end).subrange(at, end) =~= data.subrange(at, end));
    assert(changed.subrange(0, end).subrange(at, end) =~= octets);
}

proof fn lemma_sum_with_word(data: Seq<u8>, at: int, value: u16)
    requires
        0 <= at,
        at + 2 <= data.len(),
        at % 2 == 0,
    ensures
        word_sum(with_word(data, at, value)) == word_sum(data) - word_at(data, at) + value,
{
    let octets = seq![(value / 256) as u8, (value % 256) as u8];
    assert(with_word(data, at, value) =~= with_octets(data, at, octets));
    lemma_sum_with_octets(data, at, octets);
    reveal_with_fuel(word_sum, 2);
    let old = data.subrange(at, at + 2);
    assert(old.skip(2) =~= Seq::<u8>::empty());
    assert(octets.skip(2) =~= Seq::<u8>::empty());
}

/// A checksum that followed a change of addresses makes up for what the sum of the addresses
/// lost or won.
pub proof fn law_csum_readdressed_keeps_sum(
    checksum: u16,
    old_src: Seq<u8>,
    old_dst: Seq<u8>,
    new_src: Seq<u8>,
    new_dst: Seq<u8>,
)
    requires
        old_src.len() == new_src.len(),
        old_dst.len() == new_dst.len(),
        old_src.len() % 2 == 0,
        old_dst.len() % 2 == 0,
    ensures
        (csum_readdressed(checksum, old_src, old_dst, new_src, new_dst) + word_sum(new_src)
            + word_sum(new_dst)) % (ONES as int) == (checksum + word_sum(old_src) + word_sum(
            old_dst,
        )) % (ONES as int),
{
    let between = csum_replaced_words(checksum, old_src, new_src);
    let updated = csum_replaced_words(between, old_dst, new_dst);
    law_csum_replaced_words_keeps_sum(checksum, old_src, new_src);
    law_csum_replaced_words_keeps_sum(between, old_dst, new_dst);
    lemma_congruent_sum(
        updated + word_sum(new_dst),
        between + word_sum(old_dst),
        word_sum(new_src),
    );
    lemma_congruent_sum(
        between + word_sum(new_src),
        checksum + word_sum(old_src),
        word_sum(old_dst),
    );
}

proof fn lemma_replaced_words_not_ones(checksum: u16, old: Seq<u8>, new: Seq<u8>)
    requires
        checksum != ONES,
    ensures
        csum_replaced_words(checksum, old, new) != ONES,
    decreases old.len(),
{
    if old.len() >= 2 {
        lemma_replaced_words_not_ones(
            csum_replaced(checksum, word_at(old, 0), word_at(new, 0)),
            old.skip(2),
            new.skip(2),
        );
    }
}

proof fn lemma_same_residue(a: u16, b: u16)
    requires
        (a as int) % (ONES as int) == (b as int) % (ONES as int),
    ensures
        a == b || (a == 0 && b == ONES) || (a == ONES && b == 0),
{
}

/// Taking a change of addresses back restores every checksum but all ones.
pub proof fn law_csum_readdressed_undone(
    checksum: u16,
    old_src: Seq<u8>,
    old_dst: Seq<u8>,
    new_src: Seq<u8>,
    new_dst: Seq<u8>,
)
    requires
        old_src.len() == new_src.len(),
        old_dst.len() == new_dst.len(),
        old_src.len() % 2 == 0,
        old_dst.len() % 2 == 0,
    ensures
        ({
            let there = csum_readdressed(checksum, old_src, old_dst, new_src, new_dst);
            let back = csum_readdressed(there, new_src, new_dst, old_src, old_dst);
            &&& (back as int) % (ONES as int) == (checksum as int) % (ONES as int)
            &&& checksum != ONES ==> there != ONES && back == checksum
        }),
{
    let there = csum_readdressed(checksum, old_src, old_dst, new_src, new_dst);
    let back = csum_readdressed(there, new_src, new_dst, old_src, old_dst);
    lemma_readdressed_back(checksum, there, old_src, old_dst, new_src, new_dst);
    if checksum != ONES {
        let between = csum_replaced_words(checksum, old_src, new_src);
        lemma_replaced_words_not_ones(checksum, old_src, new_src);
        lemma_replaced_words_not_ones(between, old_dst, new_dst);
        let between = csum_replaced_words(there, new_src, old_src);
        lemma_replaced_words_not_ones(there, new_src, old_src);
        lemma_replaced_words_not_ones(between, new_dst, old_dst);
        lemma_same_residue(back, checksum);
    }
}

/// The way back from any spelling of the changed checksum leads to a spelling of the first one.
proof fn lemma_readdressed_back(
    checksum: u16,
    there: u16,
    old_src: Seq<u8>,
    old_dst: Seq<u8>,
    new_src: Seq<u8>,
    new_dst: Seq<u8>,
)
    requires
        old_src.len() == new_src.len(),
        old_dst.len() == new_dst.len(),
        old_src.len() % 2 == 0,
        old_dst.len() % 2 == 0,
        (there as int) % (ONES as int) == (csum_readdressed(
            checksum,
            old_src,
            old_dst,
            new_src,
            new_dst,
        ) as int) % (ONES as int),
    ensures
        (csum_readdressed(there, new_src, new_dst, old_src, old_dst) as int) % (ONES as int) == (
        checksum as int) % (ONES as int),
{
    let updated = csum_readdressed(checksum, old_src, old_dst, new_src, new_dst);
    let back = csum_readdressed(there, new_src, new_dst, old_src, old_dst);
    let old_sum = word_sum(old_src) + word_sum(old_dst);
    let new_sum = word_sum(new_src) + word_sum(new_dst);
    law_csum_readdressed_keeps_sum(checksum, old_src, old_dst, new_src, new_dst);
    law_csum_readdressed_keeps_sum(there, new_src, new_dst, old_src, old_dst);
    assert((updated + new_sum) % (ONES as int) == (checksum + old_sum) % (ONES as int));
    assert((back + old_sum) % (ONES as int) == (there + new_sum) % (ONES as int));
    lemma_congruent_sum(there as int, updated as int, new_sum);
    assert((back + old_sum) % (ONES as int) == (checksum + old_sum) % (ONES as int));
    lemma_congruent_sum(back + old_sum, checksum + old_sum, -old_sum);
}

/// Rewriting the addresses changes no octet of an IPv4 packet but those of the addresses, of
/// the header checksum, and of the checksum of a TCP or UDP header.
pub proof fn law_ipv4_patch_touches_only(
    packet: Seq<u8>,
    ihl: u8,
    protocol: u8,
    src: Seq<u8>,
    dst: Seq<u8>,
)
    requires
        src.len() == 4,
        dst.len() == 4,
        IPV4_HEADER <= packet.len(),
        transport_in_bounds(packet, 4 * ihl, protocol),
    ensures
        ipv4_patched(packet, ihl, protocol, src, dst).len() == packet.len(),
        forall|i: int|
            0 <= i < packet.len() && !(IPV4_CHECKSUM <= i < IPV4_CHECKSUM + 2) && !(IPV4_SOURCE
                <= i < IPV4_DESTINATION + 4) && !((protocol == TCP || protocol == UDP) && 4 * ihl
                + transport_checksum(protocol) <= i < 4 * ihl + transport_checksum(protocol) + 2)
                ==> #[trigger] ipv4_patched(packet, ihl, protocol, src, dst)[i] == packet[i],
{
}

/// Rewriting the addresses changes no octet of an IPv6 packet but those of the addresses and of
/// the checksum of a TCP or UDP header.
pub proof fn law_ipv6_patch_touches_only(
    packet: Seq<u8>,
    next_header: u8,
    src: Seq<u8>,
    dst: Seq<u8>,
)
    requires
        src.len() == 16,
        dst.len() == 16,
        IPV6_HEADER <= packet.len(),
        transport_in_bounds(packet, IPV6_HEADER as int, next_header),
    ensures
        ipv6_patched(packet, next_header, src, dst).len() == packet.len(),
        forall|i: int|
            0 <= i < packet.len() && !(IPV6_SOURCE <= i < IPV6_DESTINATION + 16) && !((next_header
                == TCP || next_header == UDP) && IPV6_HEADER + transport_checksum(next_header) <= i
                < IPV6_HEADER + transport_checksum(next_header) + 2) ==> #[trigger] ipv6_patched(
                packet,
                next_header,
                src,
                dst,
            )[i] == packet[i],
{
}

/// A rewritten IPv4 packet carries the new addresses.
pub proof fn law_ipv4_patch_readdresses(
    packet: Seq<u8>,
    ihl: u8,
    protocol: u8,
    src: Seq<u8>,
    dst: Seq<u8>,
)
    requires
        src.len() == 4,
        dst.len() == 4,
        IPV4_HEADER <= packet.len(),
        transport_in_bounds(packet, 4 * ihl, protocol),
        5 <= ihl,
    ensures
        ipv4_source(ipv4_patched(packet, ihl, protocol, src, dst)) == src,
        ipv4_destination(ipv4_patched(packet, ihl, protocol, src, dst)) == dst,
{
    assert(ipv4_source(ipv4_patched(packet, ihl, protocol, src, dst)) =~= src);
    assert(ipv4_destination(ipv4_patched(packet, ihl, protocol, src, dst)) =~= dst);
}

/// A rewritten IPv6 packet carries the new addresses.
pub proof fn law_ipv6_patch_readdresses(
    packet: Seq<u8>,
    next_header: u8,
    src: Seq<u8>,
    dst: Seq<u8>,
)
    requires
        src.len() == 16,
        dst.len() == 16,
        IPV6_HEADER <= packet.len(),
        transport_in_bounds(packet, IPV6_HEADER as int, next_header),
    ensures
        ipv6_source(ipv6_patched(packet, next_header, src, dst)) == src,
        ipv6_destination(ipv6_patched(packet, next_header, src, dst)) == dst,
{
    assert(ipv6_source(ipv6_patched(packet, next_header, src, dst)) =~= src);
    assert(ipv6_destination(ipv6_patched(packet, next_header, src, dst)) =~= dst);
}

/// Rewriting keeps the sum of the IPv4 header in one's complement arithmetic, so the header
/// checksum of the rewritten packet verifies exactly where that of the packet did.
pub proof fn law_ipv4_patch_keeps_header_checksum(
    packet: Seq<u8>,
    ihl: u8,
    protocol: u8,
    src: Seq<u8>,
    dst: Seq<u8>,
)
    requires
        src.len() == 4,
        dst.len() == 4,
        IPV4_HEADER <= packet.len(),
        transport_in_bounds(packet, 4 * ihl, protocol),
        5 <= ihl,
        4 * ihl <= packet.len(),
        packet[0] != 0,
    ensures
        ({
            let before = word_sum(packet.subrange(0, 4 * ihl));
            let after = word_sum(ipv4_patched(packet, ihl, protocol, src, dst).subrange(0, 4 * ihl));
            &&& after % (ONES as int) == before % (ONES as int)
            &&& sum_verifies(after) <==> sum_verifies(before)
        }),
{
    let end = 4 * ihl as int;
    let header = packet.subrange(0, end);
    let patched = ipv4_patched(packet, ihl, protocol, src, dst).subrange(0, end);
    let old_src = ipv4_source(packet);
    let old_dst = ipv4_destination(packet);
    let checksum = word_at(packet, IPV4_CHECKSUM as int);
    let updated = csum_readdressed(checksum, old_src, old_dst, src, dst);
    let one = with_octets(header, IPV4_SOURCE as int, src);
    let two = with_octets(one, IPV4_DESTINATION as int, dst);
    let three = with_word(two, IPV4_CHECKSUM as int, updated);
    assert(patched =~= three);
    lemma_sum_with_octets(header, IPV4_SOURCE as int, src);
    lemma_sum_with_octets(one, IPV4_DESTINATION as int, dst);
    lemma_sum_with_word(two, IPV4_CHECKSUM as int, updated);
    assert(header.subrange(IPV4_SOURCE as int, IPV4_SOURCE + 4) =~= old_src);
    assert(one.subrange(IPV4_DESTINATION as int, IPV4_DESTINATION + 4) =~= old_dst);
    assert(word_at(two, IPV4_CHECKSUM as int) == checksum);
    law_csum_readdressed_keeps_sum(checksum, old_src, old_dst, src, dst);
    let rest = word_sum(header) - checksum - word_sum(old_src) - word_sum(old_dst);
    lemma_congruent_sum(
        updated + word_sum(src) + word_sum(dst),
        checksum + word_sum(old_src) + word_sum(old_dst),
        rest,
    );
    lemma_word_sum_nonnegative(header.skip(2));
    lemma_word_sum_nonnegative(patched.skip(2));
    assert(patched[0] == packet[0]);
}

/// The transport checksum of a packet whose addresses changed outside the segment.
proof fn lemma_transport_checksum(
    packet: Seq<u8>,
    readdressed: Seq<u8>,
    protocol: u8,
    old_src: Seq<u8>,
    old_dst: Seq<u8>,
    new_src: Seq<u8>,
    new_dst: Seq<u8>,
    start: int,
    end: int,
)
    requires
        old_src.len() == new_src.len(),
        old_dst.len() == new_dst.len(),
        old_src.len() % 2 == 0,
        old_dst.len() % 2 == 0,
        protocol == TCP || protocol == UDP,
        0 <= start,
        start + transport_checksum(protocol) + 2 <= end,
        end <= packet.len(),
        readdressed.len() == packet.len(),
        readdressed.subrange(start, end) == packet.subrange(start, end),
        protocol == UDP ==> word_at(packet, start + UDP_CHECKSUM) != 0,
    ensures
        ({
            let patched = transport_readdressed(
                readdressed,
                start,
                protocol,
                old_src,
                old_dst,
                new_src,
                new_dst,
            );
            let before = transport_sum(packet, old_src, old_dst, protocol, start, end);
            let after = transport_sum(patched, new_src, new_dst, protocol, start, end);
            &&& after % (ONES as int) == before % (ONES as int)
            &&& sum_verifies(after) <==> sum_verifies(before)
        }),
{
    let at = transport_checksum(protocol);
    let segment = packet.subrange(start, end);
    let patched = transport_readdressed(
        readdressed,
        start,
        protocol,
        old_src,
        old_dst,
        new_src,
        new_dst,
    );
    let checksum = word_at(packet, start + at);
    assert(segment[at] == packet[start + at]);
    assert(segment[at + 1] == packet[start + at + 1]);
    assert(readdressed.subrange(start, end)[at] == readdressed[start + at]);
    assert(readdressed.subrange(start, end)[at + 1] == readdressed[start + at + 1]);
    assert(word_at(readdressed, start + at) == checksum);
    let updated = csum_readdressed(checksum, old_src, old_dst, new_src, new_dst);
    let written = if protocol == UDP && updated == 0 {
        ONES
    } else {
        updated
    };
    assert(patched == with_word(readdressed, start + at, written));
    assert(patched.subrange(start, end) =~= with_word(segment, at, written)) by {
        assert forall|i: int| start <= i < end implies readdressed[i] == packet[i] by {
            assert(readdressed.subrange(start, end)[i - start] == readdressed[i]);
            assert(packet.subrange(start, end)[i - start] == packet[i]);
        }
    }
    lemma_sum_with_word(segment, at, written);
    law_csum_readdressed_keeps_sum(checksum, old_src, old_dst, new_src, new_dst);
    let old_sum = word_sum(old_src) + word_sum(old_dst);
    let new_sum = word_sum(new_src) + word_sum(new_dst);
    lemma_congruent_sum(written as int, updated as int, new_sum);
    assert((written + new_sum) % (ONES as int) == (checksum + old_sum) % (ONES as int));
    let before = transport_sum(packet, old_src, old_dst, protocol, start, end);
    let rest = before - checksum - old_sum;
    lemma_congruent_sum(written + new_sum, checksum + old_sum, rest);
    lemma_word_sum_nonnegative(segment);
    lemma_word_sum_nonnegative(patched.subrange(start, end));
    lemma_word_sum_nonnegative(old_src);
    lemma_word_sum_nonnegative(old_dst);
    lemma_word_sum_nonnegative(new_src);
    lemma_word_sum_nonnegative(new_dst);
}

/// Rewriting keeps the sum of an IPv4 pseudo header and a TCP or UDP segment in one's complement
/// arithmetic, so the transport checksum of the rewritten packet verifies, with the new
/// addresses, exactly where that of the packet did with the old ones. A UDP segment without a
/// checksum has none to verify.
pub proof fn law_ipv4_patch_keeps_transport_checksum(
    packet: Seq<u8>,
    ihl: u8,
    protocol: u8,
    src: Seq<u8>,
    dst: Seq<u8>,
    end: int,
)
    requires
        src.len() == 4,
        dst.len() == 4,
        5 <= ihl,
        protocol == TCP || protocol == UDP,
        4 * ihl + transport_checksum(protocol) + 2 <= end <= packet.len(),
        protocol == UDP ==> word_at(packet, 4 * ihl + UDP_CHECKSUM) != 0,
    ensures
        ({
            let patched = ipv4_patched(packet, ihl, protocol, src, dst);
            let before = transport_sum(
                packet,
                ipv4_source(packet),
                ipv4_destination(packet),
                protocol,
                4 * ihl,
                end,
            );
            let after = transport_sum(
                patched,
                ipv4_source(patched),
                ipv4_destination(patched),
                protocol,
                4 * ihl,
                end,
            );
            &&& after % (ONES as int) == before % (ONES as int)
            &&& sum_verifies(after) <==> sum_verifies(before)
        }),
{
    let readdressed = ipv4_header_patched(packet, src, dst);
    assert(readdressed.subrange(4 * ihl, end) =~= packet.subrange(4 * ihl, end));
    lemma_transport_checksum(
        packet,
        readdressed,
        protocol,
        ipv4_source(packet),
        ipv4_destination(packet),
        src,
        dst,
        4 * ihl,
        end,
    );
    law_ipv4_patch_readdresses(packet, ihl, protocol, src, dst);
}

/// Rewriting keeps the sum of an IPv6 pseudo header and a TCP or UDP segment in one's complement
/// arithmetic, so the transport checksum of the rewritten packet verifies, with the new
/// addresses, exactly where that of the packet did with the old ones. A UDP segment without a
/// checksum has none to verify.
pub proof fn law_ipv6_patch_keeps_transport_checksum(
    packet: Seq<u8>,
    next_header: u8,
    src: Seq<u8>,
    dst: Seq<u8>,
    end: int,
)
    requires
        src.len() == 16,
        dst.len() == 16,
        next_header == TCP || next_header == UDP,
        IPV6_HEADER + transport_checksum(next_header) + 2 <= end <= packet.len(),
        next_header == UDP ==> word_at(packet, IPV6_HEADER + UDP_CHECKSUM) != 0,
    ensures
        ({
            let patched = ipv6_patched(packet, next_header, src, dst);
            let before = transport_sum(
                packet,
                ipv6_source(packet),
                ipv6_destination(packet),
                next_header,
                IPV6_HEADER as int,
                end,
            );
            let after = transport_sum(
                patched,
                ipv6_source(patched),
                ipv6_destination(patched),
                next_header,
                IPV6_HEADER as int,
                end,
            );
            &&& after % (ONES as int) == before % (ONES as int)
            &&& sum_verifies(after) <==> sum_verifies(before)
        }),
{
    let start = IPV6_HEADER as int;
    let readdressed = ipv6_header_patched(packet, src, dst);
    assert(readdressed.subrange(start, end) =~= packet.subrange(start, end));
    lemma_transport_checksum(
        packet,
        readdressed,
        next_header,
        ipv6_source(packet),
        ipv6_destination(packet),
        src,
        dst,
        start,
        end,
    );
    law_ipv6_patch_readdresses(packet, next_header, src, dst);
}

/// A UDP checksum of zero, which says that there is none, stays; any other stays other than
/// zero.
pub proof fn law_udp_readdressed_keeps_presence(
    packet: Seq<u8>,
    at: int,
    old_src: Seq<u8>,
    old_dst: Seq<u8>,
    new_src: Seq<u8>,
    new_dst: Seq<u8>,
)
    requires
        0 <= at,
        at + 2 <= packet.len(),
    ensures
        word_at(udp_readdressed(packet, at, old_src, old_dst, new_src, new_dst), at) == 0
            <==> word_at(packet, at) == 0,
{
}

/// Taking the rewriting of a transport checksum back restores the packet, but for a TCP checksum
/// of all ones.
proof fn lemma_transport_undone(
    packet: Seq<u8>,
    start: int,
    protocol: u8,
    old_src: Seq<u8>,
    old_dst: Seq<u8>,
    new_src: Seq<u8>,
    new_dst: Seq<u8>,
)
    requires
        old_src.len() == new_src.len(),
        old_dst.len() == new_dst.len(),
        old_src.len() % 2 == 0,
        old_dst.len() % 2 == 0,
        0 <= start,
        transport_in_bounds(packet, start, protocol),
        protocol == TCP ==> word_at(packet, start + TCP_CHECKSUM) != ONES,
    ensures
        transport_readdressed(
            transport_readdressed(packet, start, protocol, old_src, old_dst, new_src, new_dst),
            start,
            protocol,
            new_src,
            new_dst,
            old_src,
            old_dst,
        ) == packet,
{
    let there = transport_readdressed(
        packet,
        start,
        protocol,
        old_src,
        old_dst,
        new_src,
        new_dst,
    );
    let back = transport_readdressed(there, start, protocol, new_src, new_dst, old_src, old_dst);
    if protocol == TCP || protocol == UDP {
        let at = start + transport_checksum(protocol);
        let checksum = word_at(packet, at);
        let updated = csum_readdressed(checksum, old_src, old_dst, new_src, new_dst);
        law_csum_readdressed_undone(checksum, old_src, old_dst, new_src, new_dst);
        if protocol == UDP && checksum != 0 {
            let written = word_at(there, at);
            assert(written == if updated == 0 {
                ONES
            } else {
                updated
            });
            lemma_readdressed_back(checksum, written, old_src, old_dst, new_src, new_dst);
            lemma_same_residue(
                csum_readdressed(written, new_src, new_dst, old_src, old_dst),
                checksum,
            );
        } else {
            assert(word_at(there, at) == if protocol == TCP {
                updated
            } else {
                checksum
            });
        }
        assert(word_at(back, at) == checksum);
        assert(back[at] == packet[at] && back[at + 1] == packet[at + 1]);
    }
    assert(back =~= packet);
}

/// Putting the first addresses back into a rewritten IPv4 packet restores it, checksums and all,
/// unless its header checksum or its TCP checksum was all ones, a spelling of zero that the
/// update does not bring back.
pub proof fn law_ipv4_patch_undone(
    packet: Seq<u8>,
    ihl: u8,
    protocol: u8,
    src: Seq<u8>,
    dst: Seq<u8>,
)
    requires
        src.len() == 4,
        dst.len() == 4,
        5 <= ihl,
        IPV4_HEADER <= packet.len(),
        transport_in_bounds(packet, 4 * ihl, protocol),
        word_at(packet, IPV4_CHECKSUM as int) != ONES,
        protocol == TCP ==> word_at(packet, 4 * ihl + TCP_CHECKSUM) != ONES,
    ensures
        ipv4_patched(
            ipv4_patched(packet, ihl, protocol, src, dst),
            ihl,
            protocol,
            ipv4_source(packet),
            ipv4_destination(packet),
        ) == packet,
{
    let old_src = ipv4_source(packet);
    let old_dst = ipv4_destination(packet);
    let start = 4 * ihl as int;
    let header = ipv4_header_patched(packet, src, dst);
    let there = ipv4_patched(packet, ihl, protocol, src, dst);
    law_ipv4_patch_readdresses(packet, ihl, protocol, src, dst);
    law_csum_readdressed_undone(
        word_at(packet, IPV4_CHECKSUM as int),
        old_src,
        old_dst,
        src,
        dst,
    );
    let restored = ipv4_header_patched(there, old_src, old_dst);
    assert(word_at(there, IPV4_CHECKSUM as int) == csum_readdressed(
        word_at(packet, IPV4_CHECKSUM as int),
        old_src,
        old_dst,
        src,
        dst,
    ));
    let kept = transport_readdressed(packet, start, protocol, old_src, old_dst, src, dst);
    if protocol == TCP || protocol == UDP {
        let at = start + transport_checksum(protocol);
        assert(word_at(header, at) == word_at(packet, at));
    }
    assert(restored =~= kept) by {
        assert forall|i: int| 0 <= i < packet.len() implies restored[i] == kept[i] by {
            if IPV4_SOURCE <= i < IPV4_SOURCE + 4 {
                assert(old_src[i - IPV4_SOURCE] == packet[i]);
            } else if IPV4_DESTINATION <= i < IPV4_DESTINATION + 4 {
                assert(old_dst[i - IPV4_DESTINATION] == packet[i]);
            }
        }
    }
    lemma_transport_undone(packet, start, protocol, old_src, old_dst, src, dst);
}

/// Putting the first addresses back into a rewritten IPv6 packet restores it, checksums and all,
/// unless its TCP checksum was all ones, a spelling of zero that the update does not bring back.
pub proof fn law_ipv6_patch_undone(packet: Seq<u8>, next_header: u8, src: Seq<u8>, dst: Seq<u8>)
    requires
        src.len() == 16,
        dst.len() == 16,
        IPV6_HEADER <= packet.len(),
        transport_in_bounds(packet, IPV6_HEADER as int, next_header),
        next_header == TCP ==> word_at(packet, IPV6_HEADER + TCP_CHECKSUM) != ONES,
    ensures
        ipv6_patched(
            ipv6_patched(packet, next_header, src, dst),
            next_header,
            ipv6_source(packet),
            ipv6_destination(packet),
        ) == packet,
{
    let old_src = ipv6_source(packet);
    let old_dst = ipv6_destination(packet);
    let start = IPV6_HEADER as int;
    let header = ipv6_header_patched(packet, src, dst);
    let there = ipv6_patched(packet, next_header, src, dst);
    law_ipv6_patch_readdresses(packet, next_header, src, dst);
    let restored = ipv6_header_patched(there, old_src, old_dst);
    let kept = transport_readdressed(packet, start, next_header, old_src, old_dst, src, dst);
    if next_header == TCP || next_header == UDP {
        let at = start + transport_checksum(next_header);
        assert(word_at(header, at) == word_at(packet, at));
    }
    assert(restored =~= kept) by {
        assert forall|i: int| 0 <= i < packet.len() implies restored[i] == kept[i] by {
            if IPV6_SOURCE <= i < IPV6_SOURCE + 16 {
                assert(old_src[i - IPV6_SOURCE] == packet[i]);
            } else if IPV6_DESTINATION <= i < IPV6_DESTINATION + 16 {
                assert(old_dst[i - IPV6_DESTINATION] == packet[i]);
            }
        }
    }
    lemma_transport_undone(packet, start, next_header, old_src, old_dst, src, dst);
}

/// How one checksum follows another when the octets `old_src` and `old_dst` that it covers become
/// `new_src` and `new_dst`: it makes up for the difference of their sums, modulo `0xffff`. It is
/// all ones only where it was and all ones became zeros.
pub open spec fn follows(
    before: int,
    after: int,
    old_src: Seq<u8>,
    old_dst: Seq<u8>,
    new_src: Seq<u8>,
    new_dst: Seq<u8>,
) -> bool {
    &&& 0 <= after <= 0xffff
    &&& (after + word_sum(new_src) + word_sum(new_dst)) % 0xffff == (before + word_sum(old_src)
        + word_sum(old_dst)) % 0xffff
    &&& after == 0xffff <==> before == 0xffff && all_octets(old_src, 0xff) && all_octets(
        old_dst,
        0xff,
    ) && all_octets(new_src, 0) && all_octets(new_dst, 0)
}

/// Whether octets are all the same.
pub open spec fn all_octets(octets: Seq<u8>, octet: u8) -> bool {
    forall|i: int| 0 <= i < octets.len() ==> #[trigger] octets[i] == octet
}

/// The number that two octets of a packet spell, the higher first.
pub open spec fn two_at(packet: Seq<u8>, at: int) -> int {
    256 * packet[at] + packet[at + 1]
}

proof fn lemma_readdressed_follows(
    checksum: u16,
    old_src: Seq<u8>,
    old_dst: Seq<u8>,
    new_src: Seq<u8>,
    new_dst: Seq<u8>,
)
    requires
        old_src.len() == new_src.len(),
        old_dst.len() == new_dst.len(),
        old_src.len() % 2 == 0,
        old_dst.len() % 2 == 0,
    ensures
        follows(
            checksum as int,
            csum_readdressed(checksum, old_src, old_dst, new_src, new_dst) as int,
            old_src,
            old_dst,
            new_src,
            new_dst,
        ),
{
    let between = csum_replaced_words(checksum, old_src, new_src);
    law_csum_readdressed_keeps_sum(checksum, old_src, old_dst, new_src, new_dst);
    law_csum_replaced_words_is_the_number(checksum, old_src, new_src);
    law_csum_replaced_words_is_the_number(between, old_dst, new_dst);
    assert(all_octets(old_src, 0xff) && all_octets(new_src, 0) <==> forall|i: int|
        0 <= i < old_src.len() ==> #[trigger] old_src[i] == 0xff && new_src[i] == 0) by {
        if forall|i: int|
            0 <= i < old_src.len() ==> #[trigger] old_src[i] == 0xff && new_src[i] == 0 {
            assert forall|i: int| 0 <= i < new_src.len() implies #[trigger] new_src[i] == 0 by {
                assert(old_src[i] == 0xff);
            }
        }
    }
    assert(all_octets(old_dst, 0xff) && all_octets(new_dst, 0) <==> forall|i: int|
        0 <= i < old_dst.len() ==> #[trigger] old_dst[i] == 0xff && new_dst[i] == 0) by {
        if forall|i: int|
            0 <= i < old_dst.len() ==> #[trigger] old_dst[i] == 0xff && new_dst[i] == 0 {
            assert forall|i: int| 0 <= i < new_dst.len() implies #[trigger] new_dst[i] == 0 by {
                assert(old_dst[i] == 0xff);
            }
        }
    }
}

/// A TCP checksum follows the addresses of its packet, and nothing else changes.
pub proof fn law_tcp_checksum_follows(
    packet: Seq<u8>,
    at: int,
    old_src: Seq<u8>,
    old_dst: Seq<u8>,
    new_src: Seq<u8>,
    new_dst: Seq<u8>,
)
    requires
        0 <= at,
        at + 2 <= packet.len(),
        old_src.len() == new_src.len(),
        old_dst.len() == new_dst.len(),
        old_src.len() % 2 == 0,
        old_dst.len() % 2 == 0,
    ensures
        ({
            let after = tcp_readdressed(packet, at, old_src, old_dst, new_src, new_dst);
            &&& after.len() == packet.len()
            &&& follows(two_at(packet, at), two_at(after, at), old_src, old_dst, new_src, new_dst)
            &&& forall|i: int|
                0 <= i < packet.len() && i != at && i != at + 1 ==> #[trigger] after[i] == packet[i]
        }),
{
    lemma_readdressed_follows(word_at(packet, at), old_src, old_dst, new_src, new_dst);
}

/// A UDP checksum follows the addresses of its packet, in the spelling that is not zero, unless it
/// is zero, which says that there is none; and nothing else changes.
pub proof fn law_udp_checksum_follows(
    packet: Seq<u8>,
    at: int,
    old_src: Seq<u8>,
    old_dst: Seq<u8>,
    new_src: Seq<u8>,
    new_dst: Seq<u8>,
)
    requires
        0 <= at,
        at + 2 <= packet.len(),
        old_src.len() == new_src.len(),
        old_dst.len() == new_dst.len(),
        old_src.len() % 2 == 0,
        old_dst.len() % 2 == 0,
    ensures
        ({
            let after = udp_readdressed(packet, at, old_src, old_dst, new_src, new_dst);
            let was = two_at(packet, at);
            let is = two_at(after, at);
            &&& after.len() == packet.len()
            &&& was == 0 ==> is == 0
            &&& was != 0 ==> 0 < is && (is + word_sum(new_src) + word_sum(new_dst)) % 0xffff == (was
                + word_sum(old_src) + word_sum(old_dst)) % 0xffff
            &&& forall|i: int|
                0 <= i < packet.len() && i != at && i != at + 1 ==> #[trigger] after[i] == packet[i]
        }),
{
    lemma_readdressed_follows(word_at(packet, at), old_src, old_dst, new_src, new_dst);
    let updated = csum_readdressed(word_at(packet, at), old_src, old_dst, new_src, new_dst);
    if updated == 0 {
        lemma_congruent_sum(ONES as int, 0, word_sum(new_src) + word_sum(new_dst));
    }
}

/// A rewritten IPv4 packet comes from the source and goes to the destination that were asked for:
/// they stand behind its twelfth octet. Its header checksum follows them, and so does the checksum
/// of a TCP or UDP header, but for a UDP header that has none. All other octets stay.
pub proof fn law_ipv4_packet_is_readdressed(
    packet: Seq<u8>,
    ihl: u8,
    protocol: u8,
    destination: [u8; 4],
    src: IpAddrs,
    dst: IpAddrs,
)
    requires
        5 <= ihl,
        20 <= packet.len(),
        protocol == 6 ==> 4 * ihl + 18 <= packet.len(),
        protocol == 17 ==> 4 * ihl + 8 <= packet.len(),
    ensures
        ({
            let after = packet_patched(
                packet,
                Some(NetHeader::Ipv4 { ihl, protocol, destination }),
                src,
                dst,
            );
            let old_src = packet.subrange(12, 16);
            let old_dst = packet.subrange(16, 20);
            let tcp = 4 * ihl + 16;
            let udp = 4 * ihl + 6;
            &&& after.len() == packet.len()
            &&& after.subrange(12, 16) == src.v4@
            &&& after.subrange(16, 20) == dst.v4@
            &&& follows(two_at(packet, 10), two_at(after, 10), old_src, old_dst, src.v4@, dst.v4@)
            &&& protocol == 6 ==> follows(
                two_at(packet, tcp),
                two_at(after, tcp),
                old_src,
                old_dst,
                src.v4@,
                dst.v4@,
            )
            &&& protocol == 17 && two_at(packet, udp) == 0 ==> two_at(after, udp) == 0
            &&& protocol == 17 && two_at(packet, udp) != 0 ==> 0 < two_at(after, udp) && (two_at(
                after,
                udp,
            ) + word_sum(src.v4@) + word_sum(dst.v4@)) % 0xffff == (two_at(packet, udp) + word_sum(
                old_src,
            ) + word_sum(old_dst)) % 0xffff
            &&& forall|i: int|
                0 <= i < packet.len() && !(10 <= i < 20) && !(protocol == 6 && tcp <= i < tcp + 2)
                    && !(protocol == 17 && udp <= i < udp + 2) ==> #[trigger] after[i] == packet[i]
        }),
{
    law_ipv4_octets(src.v4, dst.v4);
    law_ipv4_octets(dst.v4, src.v4);
    law_ipv4_patch_readdresses(packet, ihl, protocol, src.v4@, dst.v4@);
    let after = ipv4_patched(packet, ihl, protocol, src.v4@, dst.v4@);
    let header = ipv4_header_patched(packet, src.v4@, dst.v4@);
    let old_src = ipv4_source(packet);
    let old_dst = ipv4_destination(packet);
    lemma_readdressed_follows(word_at(packet, 10), old_src, old_dst, src.v4@, dst.v4@);
    assert(after.len() == packet.len());
    assert(after[10] == header[10] && after[11] == header[11]);
    if protocol == 6 {
        law_tcp_checksum_follows(header, 4 * ihl + 16, old_src, old_dst, src.v4@, dst.v4@);
    }
    if protocol == 17 {
        law_udp_checksum_follows(header, 4 * ihl + 6, old_src, old_dst, src.v4@, dst.v4@);
    }
}

/// A rewritten IPv6 packet comes from the source and goes to the destination that were asked for:
/// they stand behind its eighth octet. The checksum of a TCP or UDP header follows them, but for a
/// UDP header that has none. All other octets stay.
pub proof fn law_ipv6_packet_is_readdressed(
    packet: Seq<u8>,
    next_header: u8,
    destination: [u8; 16],
    src: IpAddrs,
    dst: IpAddrs,
)
    requires
        40 <= packet.len(),
        next_header == 6 ==> 58 <= packet.len(),
        next_header == 17 ==> 48 <= packet.len(),
    ensures
        ({
            let after = packet_patched(
                packet,
                Some(NetHeader::Ipv6 { next_header, destination }),
                src,
                dst,
            );
            let old_src = packet.subrange(8, 24);
            let old_dst = packet.subrange(24, 40);
            &&& after.len() == packet.len()
            &&& after.subrange(8, 24) == src.v6@
            &&& after.subrange(24, 40) == dst.v6@
            &&& next_header == 6 ==> follows(
                two_at(packet, 56),
                two_at(after, 56),
                old_src,
                old_dst,
                src.v6@,
                dst.v6@,
            )
            &&& next_header == 17 && two_at(packet, 46) == 0 ==> two_at(after, 46) == 0
            &&& next_header == 17 && two_at(packet, 46) != 0 ==> 0 < two_at(after, 46) && (two_at(
                after,
                46,
            ) + word_sum(src.v6@) + word_sum(dst.v6@)) % 0xffff == (two_at(packet, 46) + word_sum(
                old_src,
            ) + word_sum(old_dst)) % 0xffff
            &&& forall|i: int|
                0 <= i < packet.len() && !(8 <= i < 40) && !(next_header == 6 && 56 <= i < 58) && !(
                next_header == 17 && 46 <= i < 48) ==> #[trigger] after[i] == packet[i]
        }),
{
    law_ipv6_octets(src.v6, dst.v6);
    law_ipv6_octets(dst.v6, src.v6);
    law_ipv6_patch_readdresses(packet, next_header, src.v6@, dst.v6@);
    let header = ipv6_header_patched(packet, src.v6@, dst.v6@);
    let old_src = ipv6_source(packet);
    let old_dst = ipv6_destination(packet);
    if next_header == 6 {
        law_tcp_checksum_follows(header, 56, old_src, old_dst, src.v6@, dst.v6@);
    }
    if next_header == 17 {
        law_udp_checksum_follows(header, 46, old_src, old_dst, src.v6@, dst.v6@);
    }
}

/// Rewriting says which ends went in, of the family of the packet, the source first; a packet
/// that is not IP stays as it is, and no ends go in.
pub proof fn law_ends_are_those_asked_for(
    packet: Seq<u8>,
    net: Option<NetHeader>,
    src: IpAddrs,
    dst: IpAddrs,
)
    ensures
        net matches Some(NetHeader::Ipv4 { .. }) ==> patched_ends(net, src, dst) == Some(
            (IpAddr::V4(src.v4), IpAddr::V4(dst.v4)),
        ),
        net matches Some(NetHeader::Ipv6 { .. }) ==> patched_ends(net, src, dst) == Some(
            (IpAddr::V6(src.v6), IpAddr::V6(dst.v6)),
        ),
        net is None || net == Some(NetHeader::Arp) ==> patched_ends(net, src, dst) is None
            && packet_patched(packet, net, src, dst) == packet,
{
}

/// Rewriting is in bounds exactly where the packet holds the IP header without its options, and
/// the checksum of the TCP or UDP header that follows the whole IP header.
pub proof fn law_in_bounds(packet: Seq<u8>, net: NetHeader)
    ensures
        net matches NetHeader::Ipv4 { ihl, protocol, .. } ==> (patch_in_bounds(packet, Some(net))
            <==> 20 <= packet.len() && (protocol == 6 ==> 4 * ihl + 18 <= packet.len()) && (protocol
            == 17 ==> 4 * ihl + 8 <= packet.len())),
        net matches NetHeader::Ipv6 { next_header, .. } ==> (patch_in_bounds(packet, Some(net))
            <==> 40 <= packet.len() && (next_header == 6 ==> 58 <= packet.len()) && (next_header
            == 17 ==> 48 <= packet.len())),
        net is Arp ==> patch_in_bounds(packet, Some(net)),
        patch_in_bounds(packet, None),
{
}

/// The packets that are left alone are IPv4 packets of which another fragment follows or goes
/// before, that carry TCP or UDP, and that end before its checksum does.
pub proof fn law_short_fragment(packet: Seq<u8>)
    ensures
        is_short_fragment(packet) <==> {
            &&& 20 <= packet.len()
            &&& 64 <= packet[0] < 80
            &&& (packet[6] % 64) * 256 + packet[7] > 0
            &&& {
                let start = 4 * (packet[0] - 64);
                ||| packet[9] == 6 && packet.len() < start + 18
                ||| packet[9] == 17 && packet.len() < start + 8
            }
        },
{
}

} // verus!
