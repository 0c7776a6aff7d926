//! How packets travel between peers: each behind its length, in a stream or in a datagram.

use vstd::prelude::*;

verus! {

/// The octets of a length.
pub const LENGTH: usize = 2;

/// The octets of a length, the lower one first.
pub open spec fn length_octets(len: int) -> Seq<u8> {
    seq![(len % 256) as u8, (len / 256) as u8]
}

/// The length that two octets spell, the lower one first.
pub open spec fn length_of(octets: Seq<u8>) -> int {
    octets[0] + 256 * octets[1]
}

/// A packet behind its length.
pub open spec fn framed(packet: Seq<u8>) -> Seq<u8> {
    length_octets(packet.len() as int) + packet
}

/// The first `len` octets of a buffer, behind their length.
pub fn frame(buf: &[u8], len: u16) -> (message: Vec<u8>)
    requires
        len <= buf@.len(),
    ensures
        message@ == framed(buf@.take(len as int)),
{
    let mut message: Vec<u8> = vec![(len % 256) as u8, (len / 256) as u8];
    message.extend_from_slice(vstd::slice::slice_subrange(buf, 0, len as usize));
    proof {
        assert(message@ =~= framed(buf@.take(len as int)));
    }
    message
}

/// What the reader of a stream waits for.
#[derive(Clone, Copy, Debug, PartialEq, Eq, Structural)]
pub enum Awaited {
    /// The length of a packet.
    Length,
    /// A packet of that length.
    Packet(u16),
}

impl Awaited {
    /// How many octets have to arrive.
    pub open spec fn octets(self) -> int {
        match self {
            Awaited::Length => LENGTH as int,
            Awaited::Packet(len) => len as int,
        }
    }

    /// What is waited for once they have arrived.
    pub open spec fn after(self, octets: Seq<u8>) -> Awaited {
        match self {
            Awaited::Length => Awaited::Packet(length_of(octets) as u16),
            Awaited::Packet(_) => Awaited::Length,
        }
    }

    /// How many octets have to arrive.
    pub fn wanted(self) -> (octets: usize)
        ensures
            octets == self.octets(),
    {
        match self {
            Awaited::Length => LENGTH,
            Awaited::Packet(len) => len as usize,
        }
    }

    /// What is waited for once `octets` have arrived.
    pub fn arrived(self, octets: &[u8]) -> (next: Awaited)
        requires
            octets@.len() == self.octets(),
        ensures
            next == self.after(octets@),
    {
        match self {
            Awaited::Length => Awaited::Packet(octets[0] as u16 + 256 * (octets[1] as u16)),
            Awaited::Packet(_) => Awaited::Length,
        }
    }
}

/// The packets that a reader takes from a stream before the stream ends.
pub open spec fn packets_read(awaited: Awaited, stream: Seq<u8>) -> Seq<Seq<u8>>
    decreases
            stream.len(),
            (if awaited is Length {
                0int
            } else {
                1int
            }),
{
    if stream.len() < awaited.octets() {
        Seq::empty()
    } else {
        let octets = stream.take(awaited.octets());
        let rest = packets_read(awaited.after(octets), stream.skip(awaited.octets()));
        match awaited {
            Awaited::Length => rest,
            Awaited::Packet(_) => seq![octets] + rest,
        }
    }
}

/// Packets one after the other, each behind its length.
pub open spec fn stream_of(packets: Seq<Seq<u8>>) -> Seq<u8>
    decreases packets.len(),
{
    if packets.len() == 0 {
        Seq::empty()
    } else {
        framed(packets[0]) + stream_of(packets.drop_first())
    }
}

/// The packet in a datagram: all that follows its length. The length itself is not looked at.
pub open spec fn datagram_packet(datagram: Seq<u8>) -> Seq<u8> {
    datagram.skip(LENGTH as int)
}

/// The packet in a datagram.
pub fn open_datagram(datagram: &[u8]) -> (packet: Vec<u8>)
    requires
        LENGTH <= datagram@.len(),
    ensures
        packet@ == datagram_packet(datagram@),
{
    let mut packet: Vec<u8> = Vec::new();
    packet.extend_from_slice(vstd::slice::slice_subrange(datagram, LENGTH, datagram.len()));
    proof {
        assert(packet@ =~= datagram_packet(datagram@));
    }
    packet
}

proof fn lemma_length_octets(len: int)
    requires
        0 <= len <= u16::MAX,
    ensures
        length_of(length_octets(len)) == len,
{
}

/// Whatever packets are written to a stream, those very packets are read from it, in the same
/// order, and so are those in front of an incomplete end.
pub proof fn law_packets_read_of_written(packets: Seq<Seq<u8>>, end: Seq<u8>)
    requires
        forall|i: int| 0 <= i < packets.len() ==> (#[trigger] packets[i]).len() <= u16::MAX,
        packets_read(Awaited::Length, end) == Seq::<Seq<u8>>::empty(),
    ensures
        packets_read(Awaited::Length, stream_of(packets) + end) == packets,
    decreases packets.len(),
{
    let stream = stream_of(packets) + end;
    if packets.len() == 0 {
        assert(stream =~= end);
    } else {
        let packet = packets[0];
        let len = packet.len() as int;
        let rest = stream_of(packets.drop_first()) + end;
        assert forall|i: int| 0 <= i < packets.drop_first().len() implies (
        #[trigger] packets.drop_first()[i]).len() <= u16::MAX by {
            assert(packets.drop_first()[i] == packets[i + 1]);
        }
        law_packets_read_of_written(packets.drop_first(), end);
        lemma_length_octets(len);
        assert(stream.take(2) =~= length_octets(len));
        assert(stream.skip(2) =~= packet + rest);
        assert((packet + rest).take(len) =~= packet);
        assert((packet + rest).skip(len) =~= rest);
        let body = Awaited::Packet(len as u16);
        assert(Awaited::Length.after(stream.take(2)) == body);
        assert(packets_read(Awaited::Length, stream) == packets_read(body, packet + rest));
        assert(packets_read(body, packet + rest) =~= seq![packet] + packets.drop_first());
        assert(seq![packet] + packets.drop_first() =~= packets);
    }
}

/// The packet that was put behind its length is the one that a datagram hands out.
pub proof fn law_datagram_packet_of_framed(packet: Seq<u8>)
    ensures
        datagram_packet(framed(packet)) == packet,
{
    assert(datagram_packet(framed(packet)) =~= packet);
}

/// A message is the length of a packet in two octets, the lower one first, and then the packet.
pub proof fn law_message_on_the_wire(packet: Seq<u8>)
    requires
        packet.len() <= 0xffff,
    ensures
        framed(packet).len() == packet.len() + 2,
        framed(packet)[0] + 256 * framed(packet)[1] == packet.len(),
        forall|i: int| 0 <= i < packet.len() ==> #[trigger] framed(packet)[i + 2] == packet[i],
        framed(packet).skip(2) == packet,
{
    assert(framed(packet).skip(2) =~= packet);
}

/// A reader waits for two octets, the lower one of a length first, and then for as many octets as
/// they say; and then again for a length.
pub proof fn law_reader_takes_turns(octets: Seq<u8>, len: u16)
    requires
        octets.len() == 2,
    ensures
        Awaited::Length.octets() == 2,
        Awaited::Packet(len).octets() == len,
        Awaited::Length.after(octets) matches Awaited::Packet(awaited) && awaited == octets[0] + 256
            * octets[1],
        forall|packet: Seq<u8>| #[trigger] Awaited::Packet(len).after(packet) == Awaited::Length,
{
}

/// A datagram hands out all of its octets but the first two, whatever those are.
pub proof fn law_datagram_hands_out_the_rest(datagram: Seq<u8>)
    requires
        2 <= datagram.len(),
    ensures
        datagram_packet(datagram).len() == datagram.len() - 2,
        forall|i: int|
            2 <= i < datagram.len() ==> #[trigger] datagram[i] == datagram_packet(datagram)[i - 2],
{
}

} // verus!
