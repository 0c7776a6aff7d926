//! Network addresses as numbers, and the octets that carry them in packets.

use vstd::prelude::*;

verus! {

/// The number that `octets` spell, most significant octet first.
pub open spec fn be_value(octets: Seq<u8>) -> nat
    decreases octets.len(),
{
    if octets.len() == 0 {
        0
    } else {
        be_value(octets.drop_last()) * 256 + octets.last() as nat
    }
}

/// The lowest `len` octets of `value`, most significant octet first.
pub open spec fn octets_of(value: nat, len: nat) -> Seq<u8>
    decreases len,
{
    if len == 0 {
        Seq::empty()
    } else {
        octets_of(value / 256, (len - 1) as nat).push((value % 256) as u8)
    }
}

/// How many numbers `len` octets can spell.
pub open spec fn octet_span(len: nat) -> nat
    decreases len,
{
    if len == 0 {
        1
    } else {
        octet_span((len - 1) as nat) * 256
    }
}

/// An IPv4 address: the number that its four octets spell.
#[derive(Clone, Copy, Debug, PartialEq, Eq, Structural)]
pub struct Ipv4Addr {
    pub bits: u32,
}

/// An IPv6 address: the number that its sixteen octets spell.
#[derive(Clone, Copy, Debug, PartialEq, Eq, Structural)]
pub struct Ipv6Addr {
    pub bits: u128,
}

/// An address of either family.
#[derive(Clone, Copy, Debug, PartialEq, Eq, Structural)]
pub enum IpAddr {
    V4(Ipv4Addr),
    V6(Ipv6Addr),
}

/// The pair of addresses by which one host of the network is known.
#[derive(Clone, Copy, Debug, PartialEq, Eq, Structural)]
pub struct IpAddrs {
    pub v4: Ipv4Addr,
    pub v6: Ipv6Addr,
}

impl View for Ipv4Addr {
    type V = Seq<u8>;

    /// The octets of the address in the order in which a packet carries them.
    open spec fn view(&self) -> Seq<u8> {
        octets_of(self.bits as nat, 4)
    }
}

impl View for Ipv6Addr {
    type V = Seq<u8>;

    /// The octets of the address in the order in which a packet carries them.
    open spec fn view(&self) -> Seq<u8> {
        octets_of(self.bits as nat, 16)
    }
}

/// The four octets that spell a number, the highest first.
pub(crate) fn four_octets_of(number: u32) -> (octets: [u8; 4])
    ensures
        octets@ == octets_of(number as nat, 4),
{
    let mut octets: [u8; 4] = [0u8; 4];
    let mut rest: u32 = number;
    let mut at: usize = 4;
    proof {
        assert(octets@.subrange(4, 4) =~= Seq::<u8>::empty());
        assert(octets_of(rest as nat, 4) + octets@.subrange(4, 4) =~= octets_of(number as nat, 4));
    }
    while at > 0
        invariant
            at <= 4,
            octets_of(rest as nat, at as nat) + octets@.subrange(at as int, 4) == octets_of(
                number as nat,
                4,
            ),
        decreases at,
    {
        let ghost before = octets@.subrange(at as int, 4);
        let ghost whole = octets_of(rest as nat, at as nat);
        at = at - 1;
        octets[at] = (rest % 256) as u8;
        rest = rest / 256;
        proof {
            assert(octets_of(rest as nat, at as nat) + octets@.subrange(at as int, 4) =~= whole
                + before);
        }
    }
    proof {
        assert(octets_of(rest as nat, 0) + octets@.subrange(0, 4) =~= octets@);
    }
    octets
}

/// The number that four octets spell.
pub(crate) fn number_of_four(octets: [u8; 4]) -> (number: u32)
    ensures
        number == be_value(octets@),
{
    let mut bits: u32 = 0;
    let mut at: usize = 0;
    while at < 4
        invariant
            at <= 4,
            bits == be_value(octets@.subrange(0, at as int)),
            bits < octet_span(at as nat),
        decreases 4 - at,
    {
        proof {
            reveal_with_fuel(octet_span, 5);
            assert(octets@.subrange(0, at as int + 1).drop_last() =~= octets@.subrange(
                0,
                at as int,
            ));
        }
        bits = bits * 256 + octets[at] as u32;
        at = at + 1;
    }
    proof {
        assert(octets@.subrange(0, 4) =~= octets@);
    }
    bits
}

impl Ipv4Addr {
    /// The four octets of the address.
    pub fn octets(self) -> (octets: [u8; 4])
        ensures
            octets@ == self@,
    {
        four_octets_of(self.bits)
    }

    /// The address that four octets spell.
    pub fn from_octets(octets: [u8; 4]) -> (addr: Ipv4Addr)
        ensures
            addr.bits == be_value(octets@),
            addr@ == octets@,
    {
        proof {
            lemma_octets_of_be_value(octets@);
        }
        Ipv4Addr { bits: number_of_four(octets) }
    }
}

impl Ipv6Addr {
    /// The sixteen octets of the address.
    pub fn octets(self) -> (octets: [u8; 16])
        ensures
            octets@ == self@,
    {
        let mut octets: [u8; 16] = [0u8; 16];
        let mut rest: u128 = self.bits;
        let mut at: usize = 16;
        proof {
            assert(octets_of(rest as nat, 16) + octets@.subrange(16, 16) =~= self@);
        }
        while at > 0
            invariant
                at <= 16,
                octets_of(rest as nat, at as nat) + octets@.subrange(at as int, 16) == self@,
            decreases at,
        {
            let ghost before = octets@.subrange(at as int, 16);
            let ghost whole = octets_of(rest as nat, at as nat);
            at = at - 1;
            octets[at] = (rest % 256) as u8;
            rest = rest / 256;
            proof {
                assert(octets_of(rest as nat, at as nat) + octets@.subrange(at as int, 16) =~= whole
                    + before);
            }
        }
        proof {
            assert(octets_of(rest as nat, 0) + octets@.subrange(0, 16) =~= octets@);
        }
        octets
    }

    /// The address that sixteen octets spell.
    pub fn from_octets(octets: [u8; 16]) -> (addr: Ipv6Addr)
        ensures
            addr.bits == be_value(octets@),
            addr@ == octets@,
    {
        let mut bits: u128 = 0;
        let mut at: usize = 0;
        while at < 16
            invariant
                at <= 16,
                bits == be_value(octets@.subrange(0, at as int)),
                bits < octet_span(at as nat),
            decreases 16 - at,
        {
            proof {
                reveal_with_fuel(octet_span, 17);
                assert(octet_span(16) == 0x1_0000_0000_0000_0000_0000_0000_0000_0000nat);
                lemma_octet_span_monotonic(at as nat + 1, 16);
                assert(octets@.subrange(0, at as int + 1).drop_last() =~= octets@.subrange(
                    0,
                    at as int,
                ));
            }
            bits = bits * 256 + octets[at] as u128;
            at = at + 1;
        }
        proof {
            assert(octets@.subrange(0, 16) =~= octets@);
            lemma_octets_of_be_value(octets@);
        }
        Ipv6Addr { bits }
    }
}

/// Octets spell what their head spells, moved up by the length of their tail, and what their tail
/// spells; and they spell less than there are numbers for their length.
pub(crate) proof fn lemma_be_value_split(octets: Seq<u8>, at: int)
    requires
        0 <= at <= octets.len(),
    ensures
        be_value(octets) == be_value(octets.take(at)) * octet_span((octets.len() - at) as nat)
            + be_value(octets.skip(at)),
        be_value(octets) < octet_span(octets.len()),
    decreases octets.len(),
{
    if octets.len() == 0 {
        assert(octets.take(0) =~= octets);
        assert(octets.skip(0) =~= octets);
    } else if at == octets.len() {
        assert(octets.take(at) =~= octets);
        assert(octets.skip(at) =~= Seq::<u8>::empty());
        lemma_be_value_split(octets.drop_last(), octets.len() - 1);
    } else {
        let head = octets.drop_last();
        lemma_be_value_split(head, at);
        assert(octets.take(at) =~= head.take(at));
        assert(octets.skip(at).drop_last() =~= head.skip(at));
        let upper = be_value(octets.take(at));
        let span = octet_span((head.len() - at) as nat);
        assert((upper * span) * 256 == upper * (span * 256)) by (nonlinear_arith);
    }
}

/// Of two strings of octets of one length, the one with the smaller octet in the first place in
/// which they differ spells the smaller number.
pub(crate) proof fn lemma_first_difference(a: Seq<u8>, b: Seq<u8>, at: int)
    requires
        a.len() == b.len(),
        0 <= at < a.len(),
        a.take(at) == b.take(at),
        a[at] < b[at],
    ensures
        be_value(a) < be_value(b),
{
    let rest = (a.len() - at - 1) as nat;
    let span = octet_span(rest);
    lemma_be_value_split(a, at + 1);
    lemma_be_value_split(b, at + 1);
    lemma_be_value_split(a.skip(at + 1), 0);
    lemma_be_value_split(b.skip(at + 1), 0);
    assert(a.take(at + 1).drop_last() =~= a.take(at));
    assert(b.take(at + 1).drop_last() =~= b.take(at));
    let upper_a = be_value(a.take(at + 1));
    let upper_b = be_value(b.take(at + 1));
    assert(upper_a + 1 <= upper_b);
    assert(upper_a * span + span <= upper_b * span) by (nonlinear_arith)
        requires
            upper_a + 1 <= upper_b,
    ;
}

proof fn lemma_octet_span_monotonic(short: nat, long: nat)
    requires
        short <= long,
    ensures
        octet_span(short) <= octet_span(long),
    decreases long,
{
    if short < long {
        lemma_octet_span_monotonic(short, (long - 1) as nat);
    }
}

pub proof fn lemma_octets_of_len(value: nat, len: nat)
    ensures
        octets_of(value, len).len() == len,
    decreases len,
{
    if len > 0 {
        lemma_octets_of_len(value / 256, (len - 1) as nat);
    }
}

/// Octets survive being read as a number: writing that number out gives them back.
pub proof fn lemma_octets_of_be_value(octets: Seq<u8>)
    ensures
        octets_of(be_value(octets), octets.len()) == octets,
    decreases octets.len(),
{
    if octets.len() > 0 {
        lemma_octets_of_be_value(octets.drop_last());
        assert(octets.drop_last().push(octets.last()) =~= octets);
    } else {
        assert(octets_of(be_value(octets), 0) =~= octets);
    }
}

/// A number survives being written as octets, if there are enough of them.
pub proof fn lemma_be_value_octets_of(value: nat, len: nat)
    requires
        value < octet_span(len),
    ensures
        be_value(octets_of(value, len)) == value,
    decreases len,
{
    if len > 0 {
        lemma_be_value_octets_of(value / 256, (len - 1) as nat);
        let octets = octets_of(value, len);
        assert(octets.drop_last() =~= octets_of(value / 256, (len - 1) as nat));
    }
}

/// An IPv4 address is determined by its octets, and its octets spell it.
pub proof fn law_ipv4_octets(a: Ipv4Addr, b: Ipv4Addr)
    ensures
        a@.len() == 4,
        be_value(a@) == a.bits,
        a@ == b@ <==> a == b,
{
    reveal_with_fuel(octet_span, 5);
    lemma_octets_of_len(a.bits as nat, 4);
    lemma_be_value_octets_of(a.bits as nat, 4);
    lemma_be_value_octets_of(b.bits as nat, 4);
}

/// An IPv6 address is determined by its octets, and its octets spell it.
pub proof fn law_ipv6_octets(a: Ipv6Addr, b: Ipv6Addr)
    ensures
        a@.len() == 16,
        be_value(a@) == a.bits,
        a@ == b@ <==> a == b,
{
    reveal_with_fuel(octet_span, 17);
    assert(octet_span(16) == 0x1_0000_0000_0000_0000_0000_0000_0000_0000nat);
    lemma_octets_of_len(a.bits as nat, 16);
    lemma_be_value_octets_of(a.bits as nat, 16);
    lemma_be_value_octets_of(b.bits as nat, 16);
}

/// Octets spell a number to the base of 256, the highest first: one more octet at the end makes it
/// 256 times as large, and adds itself.
pub proof fn law_octets_spell_to_the_base_256(octets: Seq<u8>, last: u8)
    ensures
        be_value(Seq::<u8>::empty()) == 0,
        be_value(octets.push(last)) == 256 * be_value(octets) + last,
{
    assert(octets.push(last).drop_last() =~= octets);
}

/// The octets of an IPv4 address are its number cut into four, the highest first.
pub proof fn law_ipv4_octets_are_its_number(a: Ipv4Addr)
    ensures
        a@.len() == 4,
        a@[0] == a.bits / 0x100_0000,
        a@[1] == a.bits / 0x1_0000 % 0x100,
        a@[2] == a.bits / 0x100 % 0x100,
        a@[3] == a.bits % 0x100,
{
    reveal_with_fuel(octets_of, 5);
    lemma_octets_of_len(a.bits as nat, 4);
    let n = a.bits as nat;
    assert(n / 256 / 256 == n / 0x1_0000);
    assert(n / 256 / 256 / 256 == n / 0x100_0000);
}

/// The octets of an IPv6 address are its number cut into sixteen, the highest first: its number is
/// what they spell, the first of them times `2^120`, and so on.
pub proof fn law_ipv6_octets_are_its_number(a: Ipv6Addr)
    ensures
        a@.len() == 16,
        a.bits == a@[15] + 0x100 * (a@[14] + 0x100 * (a@[13] + 0x100 * (a@[12] + 0x100 * (a@[11]
            + 0x100 * (a@[10] + 0x100 * (a@[9] + 0x100 * (a@[8] + 0x100 * (a@[7] + 0x100 * (a@[6]
            + 0x100 * (a@[5] + 0x100 * (a@[4] + 0x100 * (a@[3] + 0x100 * (a@[2] + 0x100 * (a@[1]
            + 0x100 * a@[0])))))))))))))),
{
    law_ipv6_octets(a, a);
    lemma_sixteen(a@);
}

proof fn lemma_sixteen(o: Seq<u8>)
    requires
        o.len() == 16,
    ensures
        be_value(o) == o[15] + 0x100 * (o[14] + 0x100 * (o[13] + 0x100 * (o[12] + 0x100 * (o[11]
            + 0x100 * (o[10] + 0x100 * (o[9] + 0x100 * (o[8] + 0x100 * (o[7] + 0x100 * (o[6] + 0x100
            * (o[5] + 0x100 * (o[4] + 0x100 * (o[3] + 0x100 * (o[2] + 0x100 * (o[1] + 0x100
            * o[0])))))))))))))),
{
    assert(o.take(16) =~= o);
    assert(be_value(o.take(0)) == 0);
    lemma_one_more(o, 0);
    lemma_one_more(o, 1);
    lemma_one_more(o, 2);
    lemma_one_more(o, 3);
    lemma_one_more(o, 4);
    lemma_one_more(o, 5);
    lemma_one_more(o, 6);
    lemma_one_more(o, 7);
    lemma_one_more(o, 8);
    lemma_one_more(o, 9);
    lemma_one_more(o, 10);
    lemma_one_more(o, 11);
    lemma_one_more(o, 12);
    lemma_one_more(o, 13);
    lemma_one_more(o, 14);
    lemma_one_more(o, 15);
}

proof fn lemma_one_more(o: Seq<u8>, k: int)
    requires
        0 <= k < o.len(),
    ensures
        be_value(o.take(k + 1)) == be_value(o.take(k)) * 256 + o[k],
{
    assert(o.take(k + 1).drop_last() =~= o.take(k));
}

} // verus!
