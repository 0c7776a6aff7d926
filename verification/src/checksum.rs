//! The Internet checksum, and how it follows a change of the data that it covers.

use vstd::prelude::*;

verus! {

/// The modulus of one's complement arithmetic on sixteen bits.
pub const ONES: u16 = 0xffff;

/// The sum of two sixteen-bit words with the carry added back in.
pub open spec fn carry_add(a: int, b: int) -> int {
    if a + b <= ONES {
        a + b
    } else {
        a + b - ONES
    }
}

/// The checksum after one of the words that it covers changed from `old` to `new`: the
/// complement of `~checksum + ~old + new` in one's complement arithmetic.
pub open spec fn csum_replaced(checksum: u16, old: u16, new: u16) -> u16 {
    (ONES - carry_add(carry_add(ONES - checksum, ONES - old), new as int)) as u16
}

/// The word that two octets spell, most significant octet first.
pub open spec fn word(high: u8, low: u8) -> u16 {
    (high * 256 + low) as u16
}

/// The word that starts at `at`.
pub open spec fn word_at(data: Seq<u8>, at: int) -> u16 {
    word(data[at], data[at + 1])
}

/// `data` with `value` in the two octets that start at `at`.
pub open spec fn with_word(data: Seq<u8>, at: int, value: u16) -> Seq<u8> {
    data.update(at, (value / 256) as u8).update(at + 1, (value % 256) as u8)
}

/// The checksum after the covered octets `old` became `new`, word by word.
pub open spec fn csum_replaced_words(checksum: u16, old: Seq<u8>, new: Seq<u8>) -> u16
    decreases old.len(),
{
    if old.len() < 2 {
        checksum
    } else {
        csum_replaced_words(
            csum_replaced(checksum, word_at(old, 0), word_at(new, 0)),
            old.skip(2),
            new.skip(2),
        )
    }
}

/// The sum of the words of `data`; a last odd octet counts as the high half of a word.
pub open spec fn word_sum(data: Seq<u8>) -> int
    decreases data.len(),
{
    if data.len() == 0 {
        0
    } else if data.len() == 1 {
        data[0] * 256
    } else {
        word_at(data, 0) + word_sum(data.skip(2))
    }
}

/// Whether a sum over covered words, the checksum among them, is what a receiver accepts:
/// all ones in one's complement arithmetic.
pub open spec fn sum_verifies(sum: int) -> bool {
    sum > 0 && sum % (ONES as int) == 0
}

/// Updates a checksum for one covered word that changed from `old` to `new`.
pub fn csum_replace_16(checksum: u16, old: u16, new: u16) -> (updated: u16)
    ensures
        updated == csum_replaced(checksum, old, new),
{
    proof {
        assert(!checksum == 0xffff - checksum) by (bit_vector);
        assert(!old == 0xffff - old) by (bit_vector);
    }
    let mut sum: u32 = (!checksum) as u32 + (!old) as u32 + new as u32;
    proof {
        assert(sum & 0xffff == sum % 0x1_0000 && sum >> 16 == sum / 0x1_0000) by (bit_vector);
    }
    sum = (sum & 0xffff) + (sum >> 16);
    proof {
        assert(sum & 0xffff == sum % 0x1_0000 && sum >> 16 == sum / 0x1_0000) by (bit_vector);
    }
    sum = (sum & 0xffff) + (sum >> 16);
    let folded: u16 = sum as u16;
    proof {
        assert(!folded == 0xffff - folded) by (bit_vector);
    }
    !folded
}

/// Reads the word that starts at `at`.
pub(crate) fn read_word(data: &[u8], at: usize) -> (value: u16)
    requires
        at + 2 <= data@.len(),
    ensures
        value == word_at(data@, at as int),
{
    data[at] as u16 * 256 + data[at + 1] as u16
}

/// Writes `value` into the two octets that start at `at`.
pub(crate) fn write_word(data: &mut [u8], at: usize, value: u16)
    requires
        at + 2 <= old(data)@.len(),
    ensures
        final(data)@ == with_word(old(data)@, at as int, value),
{
    data[at] = (value / 256) as u8;
    data[at + 1] = (value % 256) as u8;
}

/// Updates a checksum for covered octets that changed from `old` to `new`.
pub(crate) fn csum_replace_words(checksum: u16, old: &[u8], new: &[u8]) -> (updated: u16)
    requires
        old@.len() == new@.len(),
        old@.len() % 2 == 0,
    ensures
        updated == csum_replaced_words(checksum, old@, new@),
{
    let mut updated: u16 = checksum;
    let mut at: usize = 0;
    proof {
        assert(old@.skip(0) =~= old@);
        assert(new@.skip(0) =~= new@);
    }
    while at < old.len()
        invariant
            at <= old@.len(),
            old@.len() == new@.len(),
            (old@.len() - at) % 2 == 0,
            csum_replaced_words(updated, old@.skip(at as int), new@.skip(at as int))
                == csum_replaced_words(checksum, old@, new@),
        decreases old@.len() - at,
    {
        proof {
            assert(old@.skip(at as int).skip(2) =~= old@.skip(at + 2));
            assert(new@.skip(at as int).skip(2) =~= new@.skip(at + 2));
        }
        updated = csum_replace_16(updated, read_word(old, at), read_word(new, at));
        at = at + 2;
    }
    updated
}

/// One replaced word shifts the checksum by what the sum of the covered words lost, in one's
/// complement arithmetic: checksum and data together keep their sum.
pub proof fn law_csum_replaced_keeps_sum(checksum: u16, old: u16, new: u16)
    ensures
        (csum_replaced(checksum, old, new) + new) % (ONES as int) == (checksum + old) % (
        ONES as int),
{
    let updated = csum_replaced(checksum, old, new);
    let total = ONES - checksum + ONES - old + new;
    assert(ONES - updated == total || ONES - updated == total - ONES || ONES - updated == total - 2
        * ONES);
}

/// Replacing a word and then replacing it back restores every checksum but all ones, which
/// comes back as zero, the other spelling of the same value.
pub proof fn law_csum_replaced_undone(checksum: u16, old: u16, new: u16)
    ensures
        csum_replaced(csum_replaced(checksum, old, new), new, old) == if checksum == ONES {
            0
        } else {
            checksum
        },
{
}

/// A replacement by the same word changes no checksum but all ones.
pub proof fn law_csum_replaced_by_same(checksum: u16, kept: u16)
    requires
        checksum != ONES,
    ensures
        csum_replaced(checksum, kept, kept) == checksum,
{
}

/// Replaced octets shift the checksum by what the sum of the covered words lost.
pub proof fn law_csum_replaced_words_keeps_sum(checksum: u16, old: Seq<u8>, new: Seq<u8>)
    requires
        old.len() == new.len(),
        old.len() % 2 == 0,
    ensures
        (csum_replaced_words(checksum, old, new) + word_sum(new)) % (ONES as int) == (checksum
            + word_sum(old)) % (ONES as int),
    decreases old.len(),
{
    if old.len() >= 2 {
        let step = csum_replaced(checksum, word_at(old, 0), word_at(new, 0));
        law_csum_replaced_keeps_sum(checksum, word_at(old, 0), word_at(new, 0));
        law_csum_replaced_words_keeps_sum(step, old.skip(2), new.skip(2));
        let rest = csum_replaced_words(step, old.skip(2), new.skip(2));
        lemma_congruent_sum(
            rest + word_sum(new.skip(2)),
            step + word_sum(old.skip(2)),
            word_at(new, 0) as int,
        );
        lemma_congruent_sum(
            step + word_at(new, 0),
            checksum + word_at(old, 0),
            word_sum(old.skip(2)),
        );
    }
}

/// Adding the same number keeps numbers congruent.
pub(crate) proof fn lemma_congruent_sum(a: int, b: int, added: int)
    requires
        a % (ONES as int) == b % (ONES as int),
    ensures
        (a + added) % (ONES as int) == (b + added) % (ONES as int),
{
    vstd::arithmetic::div_mod::lemma_add_mod_noop(a, added, ONES as int);
    vstd::arithmetic::div_mod::lemma_add_mod_noop(b, added, ONES as int);
}

/// The words of a whole that is split at an even place are the words of its parts.
pub(crate) proof fn lemma_word_sum_split(data: Seq<u8>, at: int)
    requires
        0 <= at <= data.len(),
        at % 2 == 0,
    ensures
        word_sum(data) == word_sum(data.subrange(0, at)) + word_sum(data.subrange(
            at,
            data.len() as int,
        )),
    decreases at,
{
    if at == 0 {
        assert(data.subrange(0, data.len() as int) =~= data);
    } else {
        let head = data.subrange(0, at);
        assert(head.skip(2) =~= data.skip(2).subrange(0, at - 2));
        assert(data.skip(2).subrange(at - 2, data.len() - 2) =~= data.subrange(
            at,
            data.len() as int,
        ));
        lemma_word_sum_split(data.skip(2), at - 2);
    }
}

pub(crate) proof fn lemma_word_sum_nonnegative(data: Seq<u8>)
    ensures
        word_sum(data) >= 0,
    decreases data.len(),
{
    if data.len() >= 2 {
        lemma_word_sum_nonnegative(data.skip(2));
    }
}

/// The checksum of a changed word is the one number that keeps the sum, modulo `0xffff`. Of the
/// two spellings of zero it is the lower, but where there was all ones and nothing was added.
pub proof fn law_csum_replaced_is_the_number(checksum: u16, old: u16, new: u16)
    ensures
        (csum_replaced(checksum, old, new) + new) % 0xffff == (checksum + old) % 0xffff,
        csum_replaced(checksum, old, new) == 0xffff <==> checksum == 0xffff && old == 0xffff && new
            == 0,
{
    law_csum_replaced_keeps_sum(checksum, old, new);
}

/// The checksum of changed octets is the one number that keeps the sum, modulo `0xffff`. Of the
/// two spellings of zero it is the lower, but where there was all ones and nothing was added.
pub proof fn law_csum_replaced_words_is_the_number(checksum: u16, old: Seq<u8>, new: Seq<u8>)
    requires
        old.len() == new.len(),
        old.len() % 2 == 0,
    ensures
        (csum_replaced_words(checksum, old, new) + word_sum(new)) % 0xffff == (checksum + word_sum(
            old,
        )) % 0xffff,
        csum_replaced_words(checksum, old, new) == 0xffff <==> checksum == 0xffff && forall|i: int|
            0 <= i < old.len() ==> #[trigger] old[i] == 0xff && new[i] == 0,
    decreases old.len(),
{
    law_csum_replaced_words_keeps_sum(checksum, old, new);
    if old.len() >= 2 {
        let step = csum_replaced(checksum, word_at(old, 0), word_at(new, 0));
        law_csum_replaced_words_is_the_number(step, old.skip(2), new.skip(2));
        law_csum_replaced_is_the_number(checksum, word_at(old, 0), word_at(new, 0));
        if csum_replaced_words(checksum, old, new) == 0xffff {
            assert forall|i: int| 0 <= i < old.len() implies #[trigger] old[i] == 0xff && new[i]
                == 0 by {
                if i >= 2 {
                    assert(old.skip(2)[i - 2] == old[i]);
                }
            }
        }
        if checksum == 0xffff && forall|i: int|
            0 <= i < old.len() ==> #[trigger] old[i] == 0xff && new[i] == 0 {
            assert(old[0] == 0xff && old[1] == 0xff);
            assert forall|i: int| 0 <= i < old.skip(2).len() implies #[trigger] old.skip(2)[i]
                == 0xff && new.skip(2)[i] == 0 by {
                assert(old[i + 2] == 0xff);
            }
        }
    }
}

/// A word is two octets, the higher first; a word that is written is read back, and no octet but
/// its two changes.
pub proof fn law_words_are_two_octets(data: Seq<u8>, at: int, value: u16)
    requires
        0 <= at,
        at + 2 <= data.len(),
    ensures
        word_at(data, at) == 256 * data[at] + data[at + 1],
        with_word(data, at, value).len() == data.len(),
        256 * with_word(data, at, value)[at] + with_word(data, at, value)[at + 1] == value,
        forall|i: int|
            0 <= i < data.len() && i != at && i != at + 1 ==> #[trigger] with_word(
                data,
                at,
                value,
            )[i] == data[i],
{
}

/// The sum over octets counts each pair of them as a word, the higher octet first.
pub proof fn law_word_sum_adds_words(data: Seq<u8>, high: u8, low: u8)
    ensures
        word_sum(Seq::<u8>::empty()) == 0,
        word_sum(seq![high, low] + data) == 256 * high + low + word_sum(data),
{
    let whole = seq![high, low] + data;
    assert(whole.skip(2) =~= data);
    assert(whole[0] == high && whole[1] == low);
}

} // verus!
