//! Public keys as values of a configuration file.

use crate::ascii85::{ascii85_text, is_plain_char, law_octets_of_text, law_text_of_octets};
use crate::key::{is_public_key, PublicKey};
use crate::pk_serde::{deserialize, public_key_of, serialize};
use serde::{Deserialize as _, Serialize as _};
use vstd::prelude::*;
use vstd::string::*;

verus! {

/// Whether a configuration file can hold a text between quotes as it stands: printable ASCII
/// without quotes and backslashes.
pub open spec fn is_plain(text: Seq<char>) -> bool {
    forall|i: int| 0 <= i < text.len() ==> is_plain_char(#[trigger] text[i])
}

/// A text between quotes.
pub open spec fn quoted(text: Seq<char>) -> Seq<char> {
    seq!['"'] + text + seq!['"']
}

/// The string that `toml` reads from the text of a value, if the value is one.
pub uninterp spec fn toml_string(value: Seq<char>) -> Option<Seq<char>>;

/// Writes a plain text as a TOML value by `toml::ser::ValueSerializer`: it comes out between
/// quotes, and `toml` reads it back from there.
#[verifier::external_body]
fn toml_write(text: &str) -> (value: String)
    requires
        is_plain(text@),
    ensures
        value@ == quoted(text@),
        toml_string(value@) == Some(text@),
{
    let mut value = String::new();
    text.serialize(toml::ser::ValueSerializer::new(&mut value)).unwrap();
    value
}

/// Reads a string from the text of a TOML value by `toml::de::ValueDeserializer`. Whether it is
/// one, and which, depends on the text alone.
#[verifier::external_body]
fn toml_read(value: &str) -> (text: Option<String>)
    ensures
        text is Some <==> toml_string(value@) is Some,
        text matches Some(t) ==> toml_string(value@) == Some(t@),
{
    toml::de::ValueDeserializer::parse(value).and_then(String::deserialize).ok()
}

/// How many quotes a text starts with.
pub open spec fn leading_quotes(text: Seq<char>) -> int
    decreases text.len(),
{
    if text.len() == 0 || text[0] != '"' {
        0
    } else {
        1 + leading_quotes(text.drop_first())
    }
}

/// A text without the quotes that it ends with.
pub open spec fn without_trailing_quotes(text: Seq<char>) -> Seq<char>
    decreases text.len(),
{
    if text.len() == 0 || text.last() != '"' {
        text
    } else {
        without_trailing_quotes(text.drop_last())
    }
}

/// A text without the quotes that it starts and ends with.
pub open spec fn unquoted(text: Seq<char>) -> Seq<char> {
    without_trailing_quotes(text.skip(leading_quotes(text)))
}

/// The public key that a string stores, if a string was read and it stores one.
pub open spec fn pk_stored(read: Option<Seq<char>>) -> Option<Seq<u8>> {
    match read {
        None => None,
        Some(stored) => match public_key_of(stored) {
            Ok(key) => Some(key),
            Err(_) => None,
        },
    }
}

/// The public key that a text stands for, with or without quotes around it.
pub open spec fn pk_of_text(text: Seq<char>) -> Option<Seq<u8>> {
    pk_stored(toml_string(quoted(unquoted(text))))
}

/// Cuts off the quotes that a text starts and ends with.
fn trim_quotes<'a>(text: &'a str) -> (trimmed: &'a str)
    ensures
        trimmed@ == unquoted(text@),
{
    let len: usize = text.unicode_len();
    let mut from: usize = 0;
    proof {
        assert(text@.skip(0) =~= text@);
    }
    while from < len && text.get_char(from) == '"'
        invariant
            from <= len,
            len == text@.len(),
            leading_quotes(text@) == from + leading_quotes(text@.skip(from as int)),
        decreases len - from,
    {
        proof {
            assert(text@.skip(from as int).drop_first() =~= text@.skip(from + 1));
        }
        from = from + 1;
    }
    let mut to: usize = len;
    proof {
        assert(text@.skip(from as int) =~= text@.subrange(from as int, to as int));
    }
    while to > from && text.get_char(to - 1) == '"'
        invariant
            from <= to <= len,
            len == text@.len(),
            unquoted(text@) == without_trailing_quotes(text@.subrange(from as int, to as int)),
        decreases to,
    {
        proof {
            assert(text@.subrange(from as int, to as int).drop_last() =~= text@.subrange(
                from as int,
                to - 1,
            ));
        }
        to = to - 1;
    }
    text.substring_char(from, to)
}

/// Puts quotes around a text.
fn quote(text: &str) -> (value: String)
    ensures
        value@ == quoted(text@),
{
    proof {
        reveal_strlit("\"");
    }
    let mut value: String = String::new();
    value.append("\"");
    value.append(text);
    value.append("\"");
    proof {
        assert("\""@ =~= seq!['"']);
        assert(value@ =~= quoted(text@));
    }
    value
}

proof fn lemma_unquoted_plain(text: Seq<char>)
    requires
        is_plain(text),
    ensures
        unquoted(text) == text,
        unquoted(quoted(text)) == text,
{
    assert(text.skip(0) =~= text);
    let value = quoted(text);
    assert(value.drop_first() =~= text + seq!['"']);
    let rest = text + seq!['"'];
    if text.len() == 0 {
        assert(rest.drop_first() =~= Seq::<char>::empty());
        reveal_with_fuel(leading_quotes, 3);
        assert(value.skip(2) =~= text);
    } else {
        assert(rest[0] == text[0]);
        reveal_with_fuel(leading_quotes, 2);
        assert(value.skip(1) =~= rest);
        assert(rest.drop_last() =~= text);
        reveal_with_fuel(without_trailing_quotes, 2);
    }
}

/// The text of a public key as a value of a configuration file. Read back, with its quotes or
/// without them, it gives the key.
pub fn pk_to_string(pk: &PublicKey) -> (text: String)
    ensures
        text@ == quoted(ascii85_text(pk@)),
        pk_of_text(text@) == Some(pk@),
        pk_of_text(ascii85_text(pk@)) == Some(pk@),
{
    let stored: String = serialize(pk);
    proof {
        law_octets_of_text(pk@);
    }
    let value: String = toml_write(stored.as_str());
    proof {
        lemma_unquoted_plain(stored@);
    }
    value
}

/// The public key that a string stores, if a string was read and it stores one.
pub fn pk_from_stored(read: Option<String>) -> (pk: Option<PublicKey>)
    ensures
        ({
            let stored = match read {
                Some(text) => Some(text@),
                None => None,
            };
            match pk {
                Some(pk) => pk_stored(stored) == Some(pk@),
                None => pk_stored(stored) is None,
            }
        }),
{
    match read {
        None => None,
        Some(stored) => match deserialize(stored.as_str()) {
            Ok(pk) => Some(pk),
            Err(_) => None,
        },
    }
}

/// The public key that a text stands for, with or without quotes around it.
pub fn pk_from_string(s: &str) -> (pk: PublicKey)
    requires
        pk_of_text(s@) is Some,
    ensures
        pk_of_text(s@) == Some(pk@),
{
    let norm: String = quote(trim_quotes(s));
    pk_from_stored(toml_read(norm.as_str())).unwrap()
}

/// The public key that a text stands for, with or without quotes around it, if it stands for one.
pub fn try_pk_from_string(s: &str) -> (pk: Option<PublicKey>)
    ensures
        match pk {
            Some(pk) => pk_of_text(s@) == Some(pk@),
            None => pk_of_text(s@) is None,
        },
{
    let norm: String = quote(trim_quotes(s));
    if pk_from_stored(toml_read(norm.as_str())).is_some() {
        Some(pk_from_string(s))
    } else {
        None
    }
}

/// A text between quotes is one longer at both ends, where the quotes are.
pub proof fn law_quoted(text: Seq<char>)
    ensures
        quoted(text).len() == text.len() + 2,
        quoted(text)[0] == '"',
        quoted(text).last() == '"',
        forall|i: int| 0 <= i < text.len() ==> #[trigger] quoted(text)[i + 1] == text[i],
{
}

proof fn lemma_leading_quotes(text: Seq<char>)
    ensures
        0 <= leading_quotes(text) <= text.len(),
        forall|i: int| 0 <= i < leading_quotes(text) ==> #[trigger] text[i] == '"',
        leading_quotes(text) < text.len() ==> text[leading_quotes(text)] != '"',
    decreases text.len(),
{
    if text.len() > 0 && text[0] == '"' {
        let rest = text.drop_first();
        lemma_leading_quotes(rest);
        assert forall|i: int| 0 <= i < leading_quotes(text) implies #[trigger] text[i] == '"' by {
            if i > 0 {
                assert(rest[i - 1] == text[i]);
            }
        }
    }
}

proof fn lemma_without_trailing_quotes(text: Seq<char>)
    ensures
        ({
            let kept = without_trailing_quotes(text);
            &&& kept.len() <= text.len()
            &&& kept == text.take(kept.len() as int)
            &&& kept.len() > 0 ==> kept.last() != '"'
            &&& forall|i: int| kept.len() <= i < text.len() ==> #[trigger] text[i] == '"'
        }),
    decreases text.len(),
{
    if text.len() > 0 && text.last() == '"' {
        let rest = text.drop_last();
        lemma_without_trailing_quotes(rest);
        let kept = without_trailing_quotes(text);
        assert(kept =~= text.take(kept.len() as int));
        assert forall|i: int| kept.len() <= i < text.len() implies #[trigger] text[i] == '"' by {
            if i < rest.len() {
                assert(rest[i] == text[i]);
            }
        }
    } else {
        assert(text.take(text.len() as int) =~= text);
    }
}

/// A text without its quotes is what stands between the quotes at its ends, however many they are,
/// and neither starts nor ends with one.
pub proof fn law_unquoted(text: Seq<char>)
    ensures
        exists|from: int, to: int|
            #![trigger text.subrange(from, to)]
            {
                &&& 0 <= from <= to <= text.len()
                &&& unquoted(text) == text.subrange(from, to)
                &&& forall|i: int| 0 <= i < from ==> #[trigger] text[i] == '"'
                &&& forall|i: int| to <= i < text.len() ==> #[trigger] text[i] == '"'
            },
        unquoted(text).len() > 0 ==> unquoted(text)[0] != '"' && unquoted(text).last() != '"',
{
    lemma_leading_quotes(text);
    let from = leading_quotes(text);
    let rest = text.skip(from);
    lemma_without_trailing_quotes(rest);
    let to = from + unquoted(text).len();
    assert(unquoted(text) =~= text.subrange(from, to));
    assert forall|i: int| to <= i < text.len() implies #[trigger] text[i] == '"' by {
        assert(rest[i - from] == text[i]);
    }
    if unquoted(text).len() > 0 {
        assert(rest[0] == text[from]);
    }
}

/// The public key that a text stands for is the one whose ascii85 text is read from the text, put
/// between quotes in the place of its own; no other text stands for a key.
pub proof fn law_pk_of_text(text: Seq<char>, key: Seq<u8>)
    ensures
        pk_of_text(text) == Some(key) <==> key.len() == 32 && is_public_key(key) && toml_string(
            quoted(unquoted(text)),
        ) == Some(ascii85_text(key)),
{
    if let Some(stored) = toml_string(quoted(unquoted(text))) {
        law_text_of_octets(stored);
        if key.len() == 32 {
            law_octets_of_text(key);
        }
    }
}

/// Where no string was read, or one that stores no key, there is no key.
pub proof fn law_pk_stored(read: Option<Seq<char>>, key: Seq<u8>)
    ensures
        pk_stored(read) == Some(key) <==> key.len() == 32 && is_public_key(key) && read == Some(
            ascii85_text(key),
        ),
{
    if let Some(stored) = read {
        law_text_of_octets(stored);
        if key.len() == 32 {
            law_octets_of_text(key);
        }
    }
}

} // verus!
