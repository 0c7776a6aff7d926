//! Octets as text in base 85: five digits for every four octets, in the alphabet of Z85.
//!
//! Other alphabets go by the name of ascii85 too, above all the one of the characters from `!` to
//! `u`. That one has the quote and the backslash among its digits, which cannot stand as they are
//! between the quotes of a configuration file; Z85 has neither. What was written in another
//! alphabet cannot be read back here.

use crate::addr::{
    be_value, four_octets_of, lemma_be_value_octets_of, lemma_be_value_split,
    lemma_octets_of_be_value, lemma_octets_of_len, number_of_four, octet_span, octets_of,
};
use crate::auth::utf8_text;
use vstd::prelude::*;
use vstd::string::*;
use vstd::utf8::*;

verus! {

/// The base, and how many digits there are.
pub const BASE: u32 = 85;

/// The symbols that are digits behind the numerals and the letters, from 62 on.
pub open spec fn symbols() -> Seq<char> {
    seq![
        '.', '-', ':', '+', '=', '^', '!', '/', '*', '?', '&', '<',
        '>', '(', ')', '[', ']', '{', '}', '@', '%', '$', '#',
    ]
}

/// The digit of Z85 for a number below the base: the numerals, the small and the capital letters,
/// and the symbols. No digit is a quote or a backslash.
pub open spec fn digit(n: int) -> char {
    if n < 10 {
        ('0' as int + n) as char
    } else if n < 36 {
        ('a' as int + (n - 10)) as char
    } else if n < 62 {
        ('A' as int + (n - 36)) as char
    } else {
        symbols()[n - 62]
    }
}

/// The number that a digit stands for, if it is one.
pub open spec fn digit_value(c: char) -> Option<int> {
    if '0' <= c && c <= '9' {
        Some(c as int - '0' as int)
    } else if 'a' <= c && c <= 'z' {
        Some(10 + (c as int - 'a' as int))
    } else if 'A' <= c && c <= 'Z' {
        Some(36 + (c as int - 'A' as int))
    } else if symbols().contains(c) {
        Some(62 + symbols().index_of(c))
    } else {
        None
    }
}

/// The five digits of a number, the highest first.
pub open spec fn group_text(number: int) -> Seq<char> {
    seq![
        digit(number / 85 / 85 / 85 / 85),
        digit(number / 85 / 85 / 85 % 85),
        digit(number / 85 / 85 % 85),
        digit(number / 85 % 85),
        digit(number % 85),
    ]
}

/// The number that five digits stand for, if they are digits and four octets can spell it.
pub open spec fn group_number(text: Seq<char>) -> Option<int> {
    match (
        digit_value(text[0]),
        digit_value(text[1]),
        digit_value(text[2]),
        digit_value(text[3]),
        digit_value(text[4]),
    ) {
        (Some(a), Some(b), Some(c), Some(d), Some(e)) => {
            let number = (((a * 85 + b) * 85 + c) * 85 + d) * 85 + e;
            if number <= u32::MAX {
                Some(number)
            } else {
                None
            }
        },
        _ => None,
    }
}

/// The text of octets whose number is a multiple of four: the number that each four of them
/// spell, in five digits of Z85, which are neither quotes nor backslashes.
pub open spec fn ascii85_text(octets: Seq<u8>) -> Seq<char>
    decreases octets.len(),
{
    if octets.len() < 4 {
        Seq::empty()
    } else {
        group_text(be_value(octets.take(4)) as int) + ascii85_text(octets.skip(4))
    }
}

/// The octets that a text stands for, if it does.
pub open spec fn ascii85_octets(text: Seq<char>) -> Option<Seq<u8>>
    decreases text.len(),
{
    if text.len() == 0 {
        Some(Seq::empty())
    } else if text.len() < 5 {
        None
    } else {
        match (group_number(text.take(5)), ascii85_octets(text.skip(5))) {
            (Some(number), Some(rest)) => Some(octets_of(number as nat, 4) + rest),
            _ => None,
        }
    }
}

/// Whether a character can stand between quotes as it is.
pub open spec fn is_plain_char(c: char) -> bool {
    ' ' <= c && c <= '~' && c != '"' && c != '\\'
}

proof fn lemma_symbols()
    ensures
        symbols().len() == 23,
        forall|i: int|
            0 <= i < 23 ==> is_plain_char(#[trigger] symbols()[i]) && !('0' <= symbols()[i]
                && symbols()[i] <= '9') && !('a' <= symbols()[i] && symbols()[i] <= 'z') && !('A'
                <= symbols()[i] && symbols()[i] <= 'Z'),
        symbols().no_duplicates(),
{
}

proof fn lemma_digit(n: int)
    requires
        0 <= n < 85,
    ensures
        digit_value(digit(n)) == Some(n),
        is_plain_char(digit(n)),
{
    lemma_symbols();
    if n >= 62 {
        assert(symbols()[n - 62] == digit(n));
        assert(symbols().contains(digit(n)));
        let i = symbols().index_of(digit(n));
        assert(symbols()[i] == symbols()[n - 62]);
    }
}

proof fn lemma_digit_value(c: char)
    ensures
        digit_value(c) matches Some(n) ==> 0 <= n < 85 && digit(n) == c,
{
    lemma_symbols();
    if symbols().contains(c) {
        let i = symbols().index_of(c);
        assert(0 <= i < 23 && symbols()[i] == c);
    }
}

proof fn lemma_group_text(number: int)
    requires
        0 <= number <= u32::MAX,
    ensures
        group_text(number).len() == 5,
        group_number(group_text(number)) == Some(number),
        forall|i: int| 0 <= i < 5 ==> is_plain_char(#[trigger] group_text(number)[i]),
{
    lemma_digit(number / 85 / 85 / 85 / 85);
    lemma_digit(number / 85 / 85 / 85 % 85);
    lemma_digit(number / 85 / 85 % 85);
    lemma_digit(number / 85 % 85);
    lemma_digit(number % 85);
}

proof fn lemma_group_number(text: Seq<char>)
    requires
        text.len() == 5,
    ensures
        group_number(text) matches Some(number) ==> 0 <= number <= u32::MAX && group_text(number)
            == text,
{
    lemma_digit_value(text[0]);
    lemma_digit_value(text[1]);
    lemma_digit_value(text[2]);
    lemma_digit_value(text[3]);
    lemma_digit_value(text[4]);
    if let Some(number) = group_number(text) {
        assert(group_text(number) =~= text);
    }
}

proof fn lemma_four_octets(octets: Seq<u8>)
    requires
        octets.len() == 4,
    ensures
        be_value(octets) <= u32::MAX,
        octets_of(be_value(octets), 4) == octets,
{
    lemma_be_value_split(octets, 0);
    reveal_with_fuel(octet_span, 5);
    lemma_octets_of_be_value(octets);
}

/// Octets come back from their text, which has five characters for every four of them and can
/// stand between quotes as it is.
pub proof fn law_octets_of_text(octets: Seq<u8>)
    requires
        octets.len() % 4 == 0,
    ensures
        ascii85_octets(ascii85_text(octets)) == Some(octets),
        4 * ascii85_text(octets).len() == 5 * octets.len(),
        forall|i: int|
            0 <= i < ascii85_text(octets).len() ==> is_plain_char(
                #[trigger] ascii85_text(octets)[i],
            ),
    decreases octets.len(),
{
    let text = ascii85_text(octets);
    if octets.len() == 0 {
        assert(octets =~= Seq::empty());
    } else {
        let head = octets.take(4);
        let rest = octets.skip(4);
        let number = be_value(head) as int;
        law_octets_of_text(rest);
        lemma_four_octets(head);
        lemma_group_text(number);
        assert(text.take(5) =~= group_text(number));
        assert(text.skip(5) =~= ascii85_text(rest));
        assert(head + rest =~= octets);
    }
}

/// A text that stands for octets is the text of those octets.
pub proof fn law_text_of_octets(text: Seq<char>)
    ensures
        ascii85_octets(text) matches Some(octets) ==> octets.len() % 4 == 0 && ascii85_text(octets)
            == text,
    decreases text.len(),
{
    if text.len() == 0 {
        assert(ascii85_text(Seq::empty()) =~= text);
    } else if let Some(octets) = ascii85_octets(text) {
        let number = group_number(text.take(5))->0;
        let rest = ascii85_octets(text.skip(5))->0;
        law_text_of_octets(text.skip(5));
        lemma_group_number(text.take(5));
        lemma_octets_of_len(number as nat, 4);
        reveal_with_fuel(octet_span, 5);
        lemma_be_value_octets_of(number as nat, 4);
        assert(octets.take(4) =~= octets_of(number as nat, 4));
        assert(octets.skip(4) =~= rest);
        assert(ascii85_text(octets) =~= text.take(5) + text.skip(5));
        assert(text.take(5) + text.skip(5) =~= text);
    }
}

/// The digit for a number below the base.
fn digit_char(n: u32) -> (c: char)
    requires
        n < BASE,
    ensures
        c == digit(n as int),
{
    if n < 10 {
        return ('0' as u8 + n as u8) as char;
    }
    if n < 36 {
        return ('a' as u8 + (n as u8 - 10)) as char;
    }
    if n < 62 {
        return ('A' as u8 + (n as u8 - 36)) as char;
    }
    match n {
        62 => '.',
        63 => '-',
        64 => ':',
        65 => '+',
        66 => '=',
        67 => '^',
        68 => '!',
        69 => '/',
        70 => '*',
        71 => '?',
        72 => '&',
        73 => '<',
        74 => '>',
        75 => '(',
        76 => ')',
        77 => '[',
        78 => ']',
        79 => '{',
        80 => '}',
        81 => '@',
        82 => '%',
        83 => '$',
        _ => '#',
    }
}

/// The number that a digit stands for, if it is one.
fn char_value(c: char) -> (n: Option<u32>)
    ensures
        n is Some <==> digit_value(c) is Some,
        n matches Some(n) ==> digit_value(c) == Some(n as int) && n < BASE,
{
    proof {
        lemma_symbols();
        lemma_digit_value(c);
        if symbols().contains(c) {
            let i = symbols().index_of(c);
            assert(symbols()[i] == c);
        }
    }
    if '0' <= c && c <= '9' {
        return Some(c as u32 - '0' as u32);
    }
    if 'a' <= c && c <= 'z' {
        return Some(10 + (c as u32 - 'a' as u32));
    }
    if 'A' <= c && c <= 'Z' {
        return Some(36 + (c as u32 - 'A' as u32));
    }
    let n: u32 = match c {
        '.' => 62,
        '-' => 63,
        ':' => 64,
        '+' => 65,
        '=' => 66,
        '^' => 67,
        '!' => 68,
        '/' => 69,
        '*' => 70,
        '?' => 71,
        '&' => 72,
        '<' => 73,
        '>' => 74,
        '(' => 75,
        ')' => 76,
        '[' => 77,
        ']' => 78,
        '{' => 79,
        '}' => 80,
        '@' => 81,
        '%' => 82,
        '$' => 83,
        '#' => 84,
        _ => {
            return None;
        },
    };
    proof {
        assert(symbols()[n - 62] == c);
    }
    Some(n)
}

/// Appends the octets of the five digits of a number.
fn push_group(out: &mut Vec<u8>, number: u32)
    ensures
        final(out)@ == old(out)@ + encode_utf8(group_text(number as int)),
{
    proof {
        lemma_group_text(number as int);
        is_ascii_chars_encode_utf8(group_text(number as int));
    }
    out.push(digit_char(number / BASE / BASE / BASE / BASE) as u8);
    out.push(digit_char(number / BASE / BASE / BASE % BASE) as u8);
    out.push(digit_char(number / BASE / BASE % BASE) as u8);
    out.push(digit_char(number / BASE % BASE) as u8);
    out.push(digit_char(number % BASE) as u8);
    proof {
        assert(out@ =~= old(out)@ + encode_utf8(group_text(number as int)));
    }
}

/// The text of octets whose number is a multiple of four.
pub fn encode(octets: &[u8]) -> (text: String)
    requires
        octets@.len() % 4 == 0,
    ensures
        text@ == ascii85_text(octets@),
{
    let len: usize = octets.len();
    let mut out: Vec<u8> = Vec::new();
    let mut at: usize = 0;
    let ghost whole = ascii85_text(octets@);
    proof {
        law_octets_of_text(octets@);
        assert(is_ascii_chars(whole));
        is_ascii_chars_encode_utf8(whole);
        assert(octets@.skip(0) =~= octets@);
        assert(whole.take(0) =~= Seq::empty());
    }
    while at < len
        invariant
            at <= len,
            len == octets@.len(),
            len % 4 == 0,
            at % 4 == 0,
            whole == ascii85_text(octets@),
            4 * out@.len() == 5 * at,
            4 * whole.len() == 5 * len,
            is_ascii_chars(whole),
            forall|i: int| 0 <= i < out@.len() ==> out@[i] == whole[i] as u8,
            whole.skip(out@.len() as int) == ascii85_text(octets@.skip(at as int)),
        decreases len - at,
    {
        let number: u32 = number_of_four(
            [octets[at], octets[at + 1], octets[at + 2], octets[at + 3]],
        );
        proof {
            let rest = octets@.skip(at as int);
            assert(rest.take(4) =~= seq![
                octets@[at as int],
                octets@[at + 1],
                octets@[at + 2],
                octets@[at + 3],
            ]);
            assert(rest.skip(4) =~= octets@.skip(at + 4));
            lemma_group_text(number as int);
            is_ascii_chars_encode_utf8(group_text(number as int));
        }
        let ghost before = out@;
        push_group(&mut out, number);
        proof {
            let rest = octets@.skip(at as int);
            let done = before.len() as int;
            let group = group_text(number as int);
            let tail = ascii85_text(octets@.skip(at + 4));
            assert(whole.skip(done) == group + tail);
            assert(whole.skip(done + 5) =~= whole.skip(done).skip(5));
            assert((group + tail).skip(5) =~= tail);
            assert forall|i: int| 0 <= i < out@.len() implies out@[i] == whole[i] as u8 by {
                if i >= done {
                    assert(whole[i] == whole.skip(done)[i - done]);
                    assert(out@[i] == encode_utf8(group)[i - done]);
                }
            }
        }
        at = at + 4;
    }
    proof {
        assert(out@ =~= encode_utf8(whole));
        encode_utf8_valid_utf8(whole);
        encode_utf8_decode_utf8(whole);
    }
    utf8_text(out).unwrap()
}

/// The number that five digits stand for, if they are digits and four octets can spell it.
fn read_group(text: &str, at: usize) -> (number: Option<u32>)
    requires
        text.is_ascii(),
        at + 5 <= text@.len(),
        at + 5 <= usize::MAX,
    ensures
        number is Some <==> group_number(text@.subrange(at as int, at + 5)) is Some,
        number matches Some(n) ==> group_number(text@.subrange(at as int, at + 5)) == Some(
            n as int,
        ),
{
    let ghost group = text@.subrange(at as int, at + 5);
    let mut value: u64 = 0;
    let mut done: usize = 0;
    while done < 5
        invariant
            done <= 5,
            text.is_ascii(),
            at + 5 <= text@.len(),
            at + 5 <= usize::MAX,
            group == text@.subrange(at as int, at + 5),
            forall|i: int| 0 <= i < done ==> digit_value(#[trigger] group[i]) is Some,
            done == 0 ==> value == 0,
            done == 1 ==> value == digit_value(group[0])->0,
            done == 2 ==> value == digit_value(group[0])->0 * 85 + digit_value(group[1])->0,
            done == 3 ==> value == (digit_value(group[0])->0 * 85 + digit_value(group[1])->0) * 85
                + digit_value(group[2])->0,
            done == 4 ==> value == ((digit_value(group[0])->0 * 85 + digit_value(group[1])->0) * 85
                + digit_value(group[2])->0) * 85 + digit_value(group[3])->0,
            done == 5 ==> value == (((digit_value(group[0])->0 * 85 + digit_value(group[1])->0)
                * 85 + digit_value(group[2])->0) * 85 + digit_value(group[3])->0) * 85
                + digit_value(group[4])->0,
            done == 0 ==> value < 1,
            done == 1 ==> value < 85,
            done == 2 ==> value < 7225,
            done == 3 ==> value < 614125,
            done == 4 ==> value < 52200625,
            done == 5 ==> value < 4437053125,
        decreases 5 - done,
    {
        let c: char = text.get_ascii(at + done) as char;
        proof {
            assert(c == group[done as int]);
        }
        match char_value(c) {
            Some(n) => {
                value = value * 85 + n as u64;
            },
            None => {
                return None;
            },
        }
        done = done + 1;
    }
    proof {
        assert(digit_value(group[0]) is Some && digit_value(group[1]) is Some && digit_value(
            group[2],
        ) is Some && digit_value(group[3]) is Some && digit_value(group[4]) is Some);
    }
    if value <= 0xffff_ffff {
        Some(value as u32)
    } else {
        None
    }
}

/// The octets that a text stands for, if it does.
pub fn decode(text: &str) -> (octets: Option<Vec<u8>>)
    ensures
        match octets {
            Some(octets) => ascii85_octets(text@) == Some(octets@),
            None => ascii85_octets(text@) is None,
        },
{
    proof {
        law_text_of_octets(text@);
        if let Some(octets) = ascii85_octets(text@) {
            law_octets_of_text(octets);
        }
    }
    if !text.is_ascii() {
        return None;
    }
    let len: usize = text.unicode_len();
    proof {
        assert(text@.skip(0) =~= text@);
    }
    let mut octets: Vec<u8> = Vec::new();
    let mut at: usize = 0;
    while at < len
        invariant
            at <= len,
            len == text@.len(),
            text.is_ascii(),
            ascii85_octets(text@) == (match ascii85_octets(text@.skip(at as int)) {
                Some(rest) => Some(octets@ + rest),
                None => None,
            }),
        decreases len - at,
    {
        let ghost left = text@.skip(at as int);
        if len - at < 5 {
            return None;
        }
        proof {
            assert(left.take(5) =~= text@.subrange(at as int, at + 5));
            assert(left.skip(5) =~= text@.skip(at + 5));
        }
        match read_group(text, at) {
            None => {
                return None;
            },
            Some(number) => {
                let four: [u8; 4] = four_octets_of(number);
                let ghost before = octets@;
                octets.extend_from_slice(four.as_slice());
                proof {
                    if let Some(rest) = ascii85_octets(text@.skip(at + 5)) {
                        assert(before + (octets_of(number as nat, 4) + rest) =~= octets@ + rest);
                    }
                }
            },
        }
        at = at + 5;
    }
    proof {
        assert(text@.skip(len as int) =~= Seq::empty());
        assert(octets@ + Seq::empty() =~= octets@);
    }
    Some(octets)
}

/// The digits are the numerals, the small letters, the capital letters and twenty-three symbols,
/// each of which stands for one number below 85 and no other; nothing else is a digit.
pub proof fn law_digits(n: int, c: char)
    requires
        0 <= n < 85,
    ensures
        digit_value(c) == Some(n) <==> digit(n) == c,
        n < 10 ==> digit(n) as int == 0x30 + n,
        10 <= n < 36 ==> digit(n) as int == 0x61 + (n - 10),
        36 <= n < 62 ==> digit(n) as int == 0x41 + (n - 36),
        62 <= n ==> digit(n) as int == seq![
            0x2eint, 0x2d, 0x3a, 0x2b, 0x3d, 0x5e, 0x21, 0x2f, 0x2a, 0x3f, 0x26, 0x3c,
            0x3e, 0x28, 0x29, 0x5b, 0x5d, 0x7b, 0x7d, 0x40, 0x25, 0x24, 0x23,
        ][n - 62],
        digit_value(c) matches Some(m) ==> 0 <= m < 85,
{
    lemma_digit(n);
    lemma_digit_value(c);
}

/// Each four octets, as a number to the base of 256, are five digits, as a number to the base of
/// 85; in a text they stand in the order of the octets.
pub proof fn law_four_octets_are_five_digits(octets: Seq<u8>, group: int)
    requires
        octets.len() % 4 == 0,
        0 <= 4 * group < octets.len(),
    ensures
        ({
            let text = ascii85_text(octets);
            &&& digit_value(text[5 * group]) matches Some(a)
            &&& digit_value(text[5 * group + 1]) matches Some(b)
            &&& digit_value(text[5 * group + 2]) matches Some(c)
            &&& digit_value(text[5 * group + 3]) matches Some(d)
            &&& digit_value(text[5 * group + 4]) matches Some(e)
            &&& 0x100_0000 * octets[4 * group] + 0x1_0000 * octets[4 * group + 1] + 0x100 * octets[4
                * group + 2] + octets[4 * group + 3] == 52200625 * a + 614125 * b + 7225 * c + 85 * d
                + e
        }),
    decreases group,
{
    let text = ascii85_text(octets);
    let head = octets.take(4);
    let rest = octets.skip(4);
    lemma_four_octets(head);
    let number = be_value(head) as int;
    lemma_group_text(number);
    law_octets_of_text(rest);
    if group == 0 {
        assert(text.take(5) =~= group_text(number));
        assert forall|i: int| 0 <= i < 5 implies text[i] == group_text(number)[i] by {
            assert(text.take(5)[i] == text[i]);
        }
        lemma_digit(number / 85 / 85 / 85 / 85);
        lemma_digit(number / 85 / 85 / 85 % 85);
        lemma_digit(number / 85 / 85 % 85);
        lemma_digit(number / 85 % 85);
        lemma_digit(number % 85);
        reveal_with_fuel(be_value, 5);
        assert(head.drop_last().drop_last().drop_last().drop_last() =~= Seq::empty());
    } else {
        law_four_octets_are_five_digits(rest, group - 1);
        assert(text.skip(5) =~= ascii85_text(rest));
        assert forall|i: int| 0 <= i < ascii85_text(rest).len() implies ascii85_text(rest)[i]
            == text[i + 5] by {
            assert(text.skip(5)[i] == text[i + 5]);
        }
        assert forall|i: int| 0 <= i < rest.len() implies rest[i] == octets[i + 4] by {}
    }
}

} // verus!
