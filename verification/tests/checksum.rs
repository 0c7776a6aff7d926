use ivlan::checksum::csum_replace_16;

/// The sum that a receiver forms of a checksum and the words that it covers.
fn ones_sum(words: &[u16]) -> u16 {
    let mut sum: u32 = 0;
    for word in words {
        sum += u32::from(*word);
        sum = (sum & 0xffff) + (sum >> 16);
    }
    sum as u16
}

#[test]
fn replacing_a_word_by_itself_keeps_the_checksum() {
    for checksum in [0x0001u16, 0x1234, 0x8000, 0xfffe] {
        for word in [0x0000u16, 0x0001, 0x1234, 0xffff] {
            assert_eq!(csum_replace_16(checksum, word, word), checksum);
        }
    }
}

#[test]
fn replacing_a_word_of_the_textbook_example() {
    assert_eq!(csum_replace_16(0xdd2f, 0x5555, 0x3285), 0x0000);
}

#[test]
fn replacing_a_word_in_exact_numbers() {
    assert_eq!(csum_replace_16(0x5496, 0x0a00, 0x7925), 0xe570);
    assert_eq!(csum_replace_16(0xffff, 0x0000, 0x0001), 0xfffe);
    assert_eq!(csum_replace_16(0x0000, 0x0001, 0x0000), 0x0001);
    assert_eq!(csum_replace_16(0xffff, 0xffff, 0x0000), 0xffff);
    assert_eq!(csum_replace_16(0x0000, 0x0000, 0xffff), 0x0000);
}

#[test]
fn a_replaced_word_leaves_a_sum_that_verifies() {
    let rest: u16 = 0x2bcd;
    for old in [0x0000u16, 0x00ff, 0x8001, 0xfffe] {
        let checksum = !ones_sum(&[old, rest]);
        assert_eq!(ones_sum(&[checksum, old, rest]), 0xffff);
        for new in [0x0000u16, 0x1234, 0x7fff, 0xffff] {
            let updated = csum_replace_16(checksum, old, new);
            assert_eq!(ones_sum(&[updated, new, rest]), 0xffff);
        }
    }
}

#[test]
fn replacing_back_restores_the_checksum() {
    for checksum in [0x0001u16, 0x2f57, 0xfffe] {
        let there = csum_replace_16(checksum, 0x0a00, 0x7925);
        assert_eq!(csum_replace_16(there, 0x7925, 0x0a00), checksum);
    }
}
