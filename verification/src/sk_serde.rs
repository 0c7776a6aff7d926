//! How a configuration file stores a secret key.

use crate::ascii85::{
    ascii85_octets, ascii85_text, decode, encode, law_octets_of_text, law_text_of_octets,
};
use crate::key::{key_octets, KEY};
use vstd::prelude::*;

verus! {

/// Why a text is no secret key.
#[derive(Clone, Copy, Debug, PartialEq, Eq, Structural)]
pub enum SecretKeyError {
    /// It is no ascii85 text.
    Ascii85,
    /// What it encodes has not as many octets as a key has.
    Length,
}

/// The secret key that a text stores, or what is wrong with it. Any thirty-two octets are a
/// secret key.
pub open spec fn secret_key_of(text: Seq<char>) -> Result<Seq<u8>, SecretKeyError> {
    match ascii85_octets(text) {
        None => Err(SecretKeyError::Ascii85),
        Some(octets) => if octets.len() == KEY {
            Ok(octets)
        } else {
            Err(SecretKeyError::Length)
        },
    }
}

/// A text stores a secret key exactly if it is the ascii85 text of the key.
pub proof fn law_secret_key_of_text(text: Seq<char>, key: Seq<u8>)
    requires
        key.len() == KEY,
    ensures
        secret_key_of(text) == Ok::<Seq<u8>, SecretKeyError>(key) <==> text == ascii85_text(key),
        ascii85_text(key).len() == 40,
{
    law_octets_of_text(key);
    law_text_of_octets(text);
}

/// Stores a secret key as an ascii85-encoded string, in the alphabet of Z85: no digit of it is a
/// quote or a backslash, so that the string can stand between quotes as it is.
pub fn serialize(key: &[u8; 32]) -> (text: String)
    ensures
        text@ == ascii85_text(key@),
        text@.len() == 40,
        secret_key_of(text@) == Ok::<Seq<u8>, SecretKeyError>(key@),
{
    proof {
        law_secret_key_of_text(ascii85_text(key@), key@);
    }
    encode(key.as_slice())
}

/// Reads a secret key back from an ascii85-encoded string, in the alphabet of Z85. What was
/// written in another alphabet cannot be read back here.
pub fn deserialize(text: &str) -> (key: Result<[u8; 32], SecretKeyError>)
    ensures
        match key {
            Ok(key) => secret_key_of(text@) == Ok::<Seq<u8>, SecretKeyError>(key@) && text@
                == ascii85_text(key@),
            Err(e) => secret_key_of(text@) == Err::<Seq<u8>, SecretKeyError>(e),
        },
{
    proof {
        law_text_of_octets(text@);
    }
    match decode(text) {
        None => Err(SecretKeyError::Ascii85),
        Some(octets) => match key_octets(octets.as_slice()) {
            Some(key) => Ok(key),
            None => Err(SecretKeyError::Length),
        },
    }
}

/// A text that is no secret key is that of octets that are more or less than thirty-two, or of
/// none at all; which of the two, the error says.
pub proof fn law_text_of_no_secret_key(text: Seq<char>, octets: Seq<u8>)
    requires
        octets.len() % 4 == 0,
    ensures
        text == ascii85_text(octets) && octets.len() != 32 ==> secret_key_of(text) == Err::<
            Seq<u8>,
            SecretKeyError,
        >(SecretKeyError::Length),
        secret_key_of(text) == Err::<Seq<u8>, SecretKeyError>(SecretKeyError::Ascii85) <==> forall|
            any: Seq<u8>,
        |
            any.len() % 4 == 0 ==> #[trigger] ascii85_text(any) != text,
{
    law_octets_of_text(octets);
    law_text_of_octets(text);
    if secret_key_of(text) == Err::<Seq<u8>, SecretKeyError>(SecretKeyError::Ascii85) {
        assert forall|any: Seq<u8>| any.len() % 4 == 0 implies #[trigger] ascii85_text(any)
            != text by {
            law_octets_of_text(any);
        }
    }
}

} // verus!
