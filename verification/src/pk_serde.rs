//! How a configuration file stores a public key.

use crate::ascii85::{
    ascii85_octets, ascii85_text, decode, encode, law_octets_of_text, law_text_of_octets,
};
use crate::key::{is_public_key, key_of, KeyError, KeyFault, PublicKey};
use vstd::prelude::*;

verus! {

/// Why a text is no public key.
#[derive(Debug)]
pub enum PublicKeyError {
    /// It is no ascii85 text.
    Ascii85,
    /// What it encodes is no public key.
    Key(KeyError),
}

/// What is wrong with a text that is to be a public key.
pub enum PublicKeyFault {
    Ascii85,
    Key(KeyFault),
}

impl PublicKeyError {
    /// What the error says is wrong, without the error of the parser that it may carry.
    pub open spec fn fault(self) -> PublicKeyFault {
        match self {
            PublicKeyError::Ascii85 => PublicKeyFault::Ascii85,
            PublicKeyError::Key(e) => PublicKeyFault::Key(e.fault()),
        }
    }
}

/// The public key that a text stores, or what is wrong with it.
pub open spec fn public_key_of(text: Seq<char>) -> Result<Seq<u8>, PublicKeyFault> {
    match ascii85_octets(text) {
        None => Err(PublicKeyFault::Ascii85),
        Some(octets) => match key_of(octets) {
            Ok(key) => Ok(key),
            Err(fault) => Err(PublicKeyFault::Key(fault)),
        },
    }
}

/// A text stores a public key exactly if it is the ascii85 text of the key.
pub proof fn law_public_key_of_text(text: Seq<char>, key: Seq<u8>)
    requires
        key_of(key) == Ok::<Seq<u8>, KeyFault>(key),
    ensures
        public_key_of(text) == Ok::<Seq<u8>, PublicKeyFault>(key) <==> text == ascii85_text(key),
        ascii85_text(key).len() == 40,
{
    law_octets_of_text(key);
    law_text_of_octets(text);
}

/// Stores a public key as an ascii85-encoded string, in the alphabet of Z85: no digit of it is a
/// quote or a backslash, so that the string can stand between quotes as it is.
pub fn serialize(key: &PublicKey) -> (text: String)
    ensures
        text@ == ascii85_text(key@),
        text@.len() == 40,
        public_key_of(text@) == Ok::<Seq<u8>, PublicKeyFault>(key@),
{
    let octets: &[u8; 32] = key.as_bytes();
    proof {
        law_public_key_of_text(ascii85_text(key@), key@);
    }
    encode(octets.as_slice())
}

/// Reads a public key back from an ascii85-encoded string, in the alphabet of Z85. What was
/// written in another alphabet cannot be read back here.
pub fn deserialize(text: &str) -> (key: Result<PublicKey, PublicKeyError>)
    ensures
        match key {
            Ok(key) => public_key_of(text@) == Ok::<Seq<u8>, PublicKeyFault>(key@) && text@
                == ascii85_text(key@),
            Err(e) => public_key_of(text@) == Err::<Seq<u8>, PublicKeyFault>(e.fault()),
        },
{
    proof {
        law_text_of_octets(text@);
    }
    match decode(text) {
        None => Err(PublicKeyError::Ascii85),
        Some(octets) => match PublicKey::from_slice(octets.as_slice()) {
            Ok(key) => Ok(key),
            Err(e) => Err(PublicKeyError::Key(e)),
        },
    }
}

/// A text that is no public key is that of octets that are none, or of none at all; which, the
/// error says, and what is wrong with the octets.
pub proof fn law_text_of_no_public_key(text: Seq<char>, octets: Seq<u8>)
    requires
        octets.len() % 4 == 0,
    ensures
        text == ascii85_text(octets) && octets.len() != 32 ==> public_key_of(text) == Err::<
            Seq<u8>,
            PublicKeyFault,
        >(PublicKeyFault::Key(KeyFault::Length)),
        text == ascii85_text(octets) && octets.len() == 32 && !is_public_key(octets)
            ==> public_key_of(text) == Err::<Seq<u8>, PublicKeyFault>(
            PublicKeyFault::Key(KeyFault::Data),
        ),
        text == ascii85_text(octets) && octets.len() == 32 && is_public_key(octets)
            ==> public_key_of(text) == Ok::<Seq<u8>, PublicKeyFault>(octets),
        public_key_of(text) == Err::<Seq<u8>, PublicKeyFault>(PublicKeyFault::Ascii85) <==> forall|
            any: Seq<u8>,
        |
            any.len() % 4 == 0 ==> #[trigger] ascii85_text(any) != text,
{
    law_octets_of_text(octets);
    law_text_of_octets(text);
    if public_key_of(text) == Err::<Seq<u8>, PublicKeyFault>(PublicKeyFault::Ascii85) {
        assert forall|any: Seq<u8>| any.len() % 4 == 0 implies #[trigger] ascii85_text(any)
            != text by {
            law_octets_of_text(any);
        }
    }
}

/// An error tells of the text exactly if it is the one for that, and else of the key.
pub proof fn law_public_key_error_tells(error: PublicKeyError)
    ensures
        error.fault() is Ascii85 <==> error is Ascii85,
        error matches PublicKeyError::Key(e) ==> (error.fault() matches PublicKeyFault::Key(fault)
            && (fault is Length <==> e is InvalidLength)),
{
}

} // verus!
