//! The choice of addresses for peers.

use vstd::arithmetic::div_mod::{lemma_fundamental_div_mod, lemma_fundamental_div_mod_converse};
use vstd::arithmetic::power2::{
    lemma2_to64, lemma_pow2_adds, lemma_pow2_pos, lemma_pow2_unfold, pow2,
};
use vstd::prelude::*;
use vstd::set_lib::set_int_range;

verus! {

/// The first of the numbers from `host + at` to `host + most` that is not in `used`.
pub open spec fn scan_from(host: int, used: Set<int>, most: int, at: int) -> Option<u128>
    decreases most - at + 1,
{
    if at > most {
        None
    } else if used.contains(host + at) {
        scan_from(host, used, most, at + 1)
    } else {
        Some((host + at) as u128)
    }
}

/// How far behind the number of the host the last one lies that may be given away, in a network
/// whose prefix leaves `bits` bits to its hosts: the highest number of the network is the one for
/// broadcasts, and the one before it is the last.
pub open spec fn most_offset(host: int, bits: nat) -> int {
    pow2(bits) - 2 - host % (pow2(bits) as int)
}

/// The number that a peer gets: the first free one behind that of the host, in a network with a
/// prefix of `mask` bits out of `width`. Two bits have to be left to the hosts at least.
pub open spec fn scan_network(host: int, used: Set<int>, mask: int, width: int) -> Option<u128> {
    if mask >= width - 1 {
        None
    } else {
        scan_from(host, used, most_offset(host, (width - mask) as nat), 1)
    }
}

/// The numbers in a list.
pub open spec fn numbers(list: Seq<u128>) -> Set<int> {
    Set::new(|n: int| exists|i: int| 0 <= i < list.len() && #[trigger] list[i] == n)
}

proof fn lemma_shifted_one(bits: u8)
    requires
        bits < 128,
    ensures
        (1u128 << bits) == pow2(bits as nat),
    decreases bits,
{
    if bits == 0 {
        assert((1u128 << 0u8) == 1) by (bit_vector);
        lemma2_to64();
    } else {
        let less: u8 = (bits - 1) as u8;
        lemma_shifted_one(less);
        lemma_pow2_unfold(bits as nat);
        assert((1u128 << bits) == 2 * (1u128 << less)) by (bit_vector)
            requires
                bits < 128,
                bits >= 1,
                less == bits - 1,
        ;
    }
}

pub(crate) proof fn lemma_widest_number()
    ensures
        pow2(128) - 1 == u128::MAX,
{
    lemma_shifted_one(127);
    assert((1u128 << 127u8) == 0x8000_0000_0000_0000_0000_0000_0000_0000u128) by (bit_vector);
    lemma_pow2_unfold(128);
}

proof fn lemma_room_for_hosts(bits: u8)
    requires
        2 <= bits < 128,
    ensures
        (1u128 << bits) >= 4,
        (1u128 << bits) <= 0x8000_0000_0000_0000_0000_0000_0000_0000u128,
{
    assert((1u128 << bits) >= 4 && (1u128 << bits)
        <= 0x8000_0000_0000_0000_0000_0000_0000_0000u128) by (bit_vector)
        requires
            2 <= bits < 128,
    ;
}

/// Whether a list holds a number.
fn holds(list: &Vec<u128>, number: u128) -> (found: bool)
    ensures
        found == numbers(list@).contains(number as int),
{
    let len: usize = list.len();
    let mut at: usize = 0;
    while at < len
        invariant
            at <= len,
            len == list@.len(),
            forall|i: int| 0 <= i < at ==> #[trigger] list@[i] != number,
        decreases len - at,
    {
        if list[at] == number {
            return true;
        }
        at = at + 1;
    }
    false
}

/// The first of the numbers from `host + 1` to `host + most` that is not in `used`.
fn scan(host: u128, used: &Vec<u128>, most: u128) -> (result: Option<u128>)
    requires
        host + most <= u128::MAX,
        most < u128::MAX,
    ensures
        result == scan_from(host as int, numbers(used@), most as int, 1),
{
    let mut at: u128 = 1;
    while at <= most
        invariant
            1 <= at <= most + 1,
            host + most <= u128::MAX,
            most < u128::MAX,
            scan_from(host as int, numbers(used@), most as int, 1) == scan_from(
                host as int,
                numbers(used@),
                most as int,
                at as int,
            ),
        decreases most + 1 - at,
    {
        if !holds(used, host + at) {
            return Some(host + at);
        }
        at = at + 1;
    }
    None
}

/// The last number that a network gives away comes before the last one that there is.
proof fn lemma_most_offset(host: int, mask: int, width: int)
    requires
        0 <= host < pow2(width as nat),
        0 <= mask <= width,
    ensures
        host + most_offset(host, (width - mask) as nat) <= pow2(width as nat) - 2,
        0 <= host % (pow2((width - mask) as nat) as int) < pow2((width - mask) as nat),
{
    let size = pow2((width - mask) as nat) as int;
    let networks = pow2(mask as nat) as int;
    lemma_pow2_pos((width - mask) as nat);
    lemma_pow2_adds((width - mask) as nat, mask as nat);
    lemma_fundamental_div_mod(host, size);
    let q = host / size;
    assert(q < networks) by (nonlinear_arith)
        requires
            host == size * q + host % size,
            0 <= host % size,
            host < size * networks,
            size > 0,
    ;
    assert(size * q + size <= size * networks) by (nonlinear_arith)
        requires
            q + 1 <= networks,
            size > 0,
    ;
}

/// The number that a peer gets in a network of `1 << bits` numbers.
fn scan_hosts(host: u128, used: &Vec<u128>, bits: u8) -> (result: Option<u128>)
    requires
        2 <= bits < 128,
        host + most_offset(host as int, bits as nat) <= u128::MAX,
    ensures
        result == scan_from(
            host as int,
            numbers(used@),
            most_offset(host as int, bits as nat),
            1,
        ),
{
    proof {
        lemma_shifted_one(bits);
        lemma_room_for_hosts(bits);
    }
    let size: u128 = 1u128 << bits;
    let within: u128 = host % size;
    if within == size - 1 {
        return None;
    }
    scan(host, used, size - 2 - within)
}

/// The number of the IPv4 address that a peer gets.
pub fn scan_ipv4(host: u32, used: &Vec<u128>, mask: u8) -> (result: Option<u128>)
    requires
        mask > 0,
    ensures
        result == scan_network(host as int, numbers(used@), mask as int, 32),
{
    if mask >= 31 {
        return None;
    }
    proof {
        lemma2_to64();
        lemma_most_offset(host as int, mask as int, 32);
    }
    scan_hosts(host as u128, used, 32 - mask)
}

/// The number of the IPv6 address that a peer gets.
pub fn scan_ipv6(host: u128, used: &Vec<u128>, mask: u8) -> (result: Option<u128>)
    requires
        mask > 0,
    ensures
        result == scan_network(host as int, numbers(used@), mask as int, 128),
{
    if mask >= 127 {
        return None;
    }
    proof {
        lemma_widest_number();
        lemma_most_offset(host as int, mask as int, 128);
    }
    scan_hosts(host, used, 128 - mask)
}

proof fn lemma_scan_from(host: int, used: Set<int>, most: int, at: int)
    requires
        0 <= host,
        host + most <= u128::MAX,
        0 <= at,
    ensures
        match scan_from(host, used, most, at) {
            Some(number) => {
                &&& host + at <= number <= host + most
                &&& !used.contains(number as int)
                &&& forall|n: int| host + at <= n < number ==> used.contains(n)
            },
            None => forall|n: int| host + at <= n <= host + most ==> used.contains(n),
        },
    decreases most - at + 1,
{
    if at <= most && used.contains(host + at) {
        lemma_scan_from(host, used, most, at + 1);
    }
}

/// The number that a peer gets was free, lies behind that of the host and within the reach of
/// the network, and no free number lies between it and that of the host.
pub proof fn law_found_is_first_free(host: int, used: Set<int>, mask: int, width: int)
    requires
        0 <= host < pow2(width as nat) <= u128::MAX + 1,
        0 <= mask,
        scan_network(host, used, mask, width) is Some,
    ensures
        ({
            let number = scan_network(host, used, mask, width)->0;
            &&& mask < width - 1
            &&& host < number <= host + most_offset(host, (width - mask) as nat)
            &&& number < pow2(width as nat)
            &&& !used.contains(number as int)
            &&& forall|n: int| host < n < number ==> used.contains(n)
        }),
{
    lemma_most_offset(host, mask, width);
    lemma_scan_from(host, used, most_offset(host, (width - mask) as nat), 1);
}

/// Whether every number behind that of the host and within the reach of its network is taken.
pub open spec fn all_taken(host: int, used: Set<int>, mask: int, width: int) -> bool {
    forall|n: int|
        host < n <= host + most_offset(host, (width - mask) as nat) ==> #[trigger] used.contains(n)
}

/// No number is found exactly if the prefix leaves the hosts less than two bits, or if every
/// number within the reach of the network is taken.
pub proof fn law_exhausted_means_taken(host: int, used: Set<int>, mask: int, width: int)
    requires
        0 <= host < pow2(width as nat) <= u128::MAX + 1,
        0 <= mask,
    ensures
        scan_network(host, used, mask, width) is None <==> (mask >= width - 1 || all_taken(
            host,
            used,
            mask,
            width,
        )),
{
    if mask < width - 1 {
        lemma_most_offset(host, mask, width);
        lemma_scan_from(host, used, most_offset(host, (width - mask) as nat), 1);
        if let Some(number) = scan_network(host, used, mask, width) {
            assert(!used.contains(number as int));
        }
    }
}

/// As long as fewer numbers are taken than may be given away, a peer gets one.
pub proof fn law_found_while_room(host: int, used: Set<int>, mask: int, width: int)
    requires
        0 <= host < pow2(width as nat) <= u128::MAX + 1,
        0 <= mask < width - 1,
        used.finite(),
        used.len() < most_offset(host, (width - mask) as nat),
    ensures
        scan_network(host, used, mask, width) is Some,
{
    let most = most_offset(host, (width - mask) as nat);
    lemma_most_offset(host, mask, width);
    lemma_scan_from(host, used, most, 1);
    if scan_network(host, used, mask, width) is None {
        let reach = set_int_range(host + 1, host + most + 1);
        vstd::set_lib::lemma_int_range(host + 1, host + most + 1);
        assert(reach.subset_of(used));
        vstd::set_lib::lemma_len_subset(reach, used);
    }
}

/// The number that a peer gets is in the network of the host, and is not the highest there, which
/// is the one for broadcasts.
pub proof fn law_found_in_network(host: int, used: Set<int>, mask: int, width: int)
    requires
        0 <= host < pow2(width as nat) <= u128::MAX + 1,
        0 <= mask,
        scan_network(host, used, mask, width) is Some,
    ensures
        ({
            let number = scan_network(host, used, mask, width)->0 as int;
            let size = pow2((width - mask) as nat) as int;
            &&& number / size == host / size
            &&& number % size != size - 1
        }),
{
    law_found_is_first_free(host, used, mask, width);
    lemma_most_offset(host, mask, width);
    let number = scan_network(host, used, mask, width)->0 as int;
    let size = pow2((width - mask) as nat) as int;
    lemma_fundamental_div_mod(host, size);
    lemma_fundamental_div_mod_converse(
        number,
        size,
        host / size,
        number - host + host % size,
    );
}

/// Where the number behind that of the host is free, and is neither in another network nor the
/// highest of its own, a peer gets it.
pub proof fn law_next_number_is_given(host: int, used: Set<int>, mask: int, width: int)
    requires
        0 <= host < pow2(width as nat) <= u128::MAX + 1,
        0 <= mask < width - 1,
        host % (pow2((width - mask) as nat) as int) < pow2((width - mask) as nat) - 2,
        !used.contains(host + 1),
    ensures
        scan_network(host, used, mask, width) == Some((host + 1) as u128),
{
    lemma_most_offset(host, mask, width);
}

/// A peer gets no number only where every number of the host's network that lies behind that of
/// the host, but for the highest, is taken; or where the prefix leaves the hosts less than two
/// bits, and then never.
pub proof fn law_none_means_network_is_full(host: int, used: Set<int>, mask: int, width: int)
    requires
        0 <= host < pow2(width as nat) <= u128::MAX + 1,
        0 <= mask,
    ensures
        ({
            let size = pow2((width - mask) as nat) as int;
            mask < width - 1 ==> (scan_network(host, used, mask, width) is None <==> forall|n: int|
                host < n && n / size == host / size && n % size != size - 1
                    ==> #[trigger] used.contains(n))
        }),
        mask >= width - 1 ==> scan_network(host, used, mask, width) is None,
{
    if mask < width - 1 {
        let size = pow2((width - mask) as nat) as int;
        let q = host / size;
        lemma_most_offset(host, mask, width);
        lemma_fundamental_div_mod(host, size);
        law_exhausted_means_taken(host, used, mask, width);
        if scan_network(host, used, mask, width) is None {
            assert forall|n: int|
                host < n && n / size == host / size && n % size != size - 1 implies
                #[trigger] used.contains(n) by {
                lemma_fundamental_div_mod(n, size);
                vstd::arithmetic::div_mod::lemma_mod_bound(n, size);
            }
        } else {
            law_found_is_first_free(host, used, mask, width);
            law_found_in_network(host, used, mask, width);
            let number = scan_network(host, used, mask, width)->0 as int;
            assert(!used.contains(number));
        }
    }
}

/// A number is in a list exactly if it stands somewhere in it.
pub proof fn law_numbers_of_a_list(list: Seq<u128>, last: u128, n: int)
    ensures
        !numbers(Seq::<u128>::empty()).contains(n),
        numbers(list.push(last)).contains(n) <==> n == last || numbers(list).contains(n),
{
    let longer = list.push(last);
    if numbers(longer).contains(n) && n != last {
        let i = choose|i: int| 0 <= i < longer.len() && #[trigger] longer[i] == n;
        assert(list[i] == n);
    }
    if numbers(list).contains(n) {
        let i = choose|i: int| 0 <= i < list.len() && #[trigger] list[i] == n;
        assert(longer[i] == n);
    }
    assert(longer[list.len() as int] == last);
}

} // verus!
