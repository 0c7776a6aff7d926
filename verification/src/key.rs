//! Public keys: thirty-two octets that name a point of the curve.

use crate::addr::{be_value, lemma_first_difference};
use vstd::prelude::*;

verus! {

/// The octets of a key.
pub const KEY: usize = 32;

/// The error of the key parser.
#[verifier::external_type_specification]
#[verifier::external_body]
pub struct ExKeyParsingError(iroh_base::KeyParsingError);

/// Whether `iroh_base::PublicKey::from_bytes` accepts the octets of a key.
pub uninterp spec fn is_public_key(octets: Seq<u8>) -> bool;

/// Hands the octets of a key to `iroh_base::PublicKey::from_bytes`, and gives back those that
/// the key then holds. Whether they are accepted depends on the octets alone, and a key holds
/// the octets that it was made from.
#[verifier::external_body]
fn check_public_key(octets: &[u8; 32]) -> (key: Result<[u8; 32], iroh_base::KeyParsingError>)
    ensures
        key is Ok <==> is_public_key(octets@),
        key matches Ok(held) ==> held@ == octets@,
{
    iroh_base::PublicKey::from_bytes(octets).map(|key| *key.as_bytes())
}

/// A public key.
#[derive(Clone, Copy, Debug, PartialEq, Eq, PartialOrd, Ord, Hash)]
pub struct PublicKey {
    octets: [u8; 32],
}

impl View for PublicKey {
    type V = Seq<u8>;

    /// The octets of the key.
    closed spec fn view(&self) -> Seq<u8> {
        self.octets@
    }
}

/// Why octets are no public key.
#[derive(Debug)]
pub enum KeyError {
    /// There are not as many of them as a key has.
    InvalidLength,
    /// They name no point of the curve.
    InvalidKeyData(iroh_base::KeyParsingError),
}

/// What is wrong with octets that are to be a public key.
pub enum KeyFault {
    Length,
    Data,
}

/// The key that octets are, or what is wrong with them.
pub open spec fn key_of(octets: Seq<u8>) -> Result<Seq<u8>, KeyFault> {
    if octets.len() != KEY {
        Err(KeyFault::Length)
    } else if !is_public_key(octets) {
        Err(KeyFault::Data)
    } else {
        Ok(octets)
    }
}

impl KeyError {
    /// What the error says is wrong, without the error of the parser that it may carry.
    pub open spec fn fault(self) -> KeyFault {
        match self {
            KeyError::InvalidLength => KeyFault::Length,
            KeyError::InvalidKeyData(_) => KeyFault::Data,
        }
    }
}

/// The thirty-two octets of a string that has as many.
pub(crate) fn key_octets(octets: &[u8]) -> (key: Option<[u8; 32]>)
    ensures
        key is Some <==> octets@.len() == KEY,
        key matches Some(k) ==> k@ == octets@,
{
    if octets.len() != KEY {
        return None;
    }
    let mut key: [u8; 32] = [0u8; 32];
    let mut at: usize = 0;
    while at < KEY
        invariant
            at <= KEY,
            octets@.len() == KEY,
            forall|i: int| 0 <= i < at ==> key@[i] == octets@[i],
        decreases KEY - at,
    {
        key[at] = octets[at];
        at = at + 1;
    }
    proof {
        assert(key@ =~= octets@);
    }
    Some(key)
}

/// Whether one key comes before another: whether it spells the smaller number.
pub(crate) fn precedes(a: &[u8; 32], b: &[u8; 32]) -> (before: bool)
    ensures
        before == (be_value(a@) < be_value(b@)),
{
    let mut at: usize = 0;
    while at < KEY
        invariant
            at <= KEY,
            a@.take(at as int) == b@.take(at as int),
        decreases KEY - at,
    {
        if a[at] < b[at] {
            proof {
                lemma_first_difference(a@, b@, at as int);
            }
            return true;
        }
        if b[at] < a[at] {
            proof {
                lemma_first_difference(b@, a@, at as int);
            }
            return false;
        }
        proof {
            assert(a@.take(at + 1) =~= a@.take(at as int).push(a@[at as int]));
            assert(b@.take(at + 1) =~= b@.take(at as int).push(b@[at as int]));
        }
        at = at + 1;
    }
    proof {
        assert(a@.take(32) =~= a@);
        assert(b@.take(32) =~= b@);
    }
    false
}

impl PublicKey {
    #[verifier::type_invariant]
    closed spec fn on_curve(self) -> bool {
        is_public_key(self.octets@)
    }

    /// The key that thirty-two octets are.
    pub fn from_bytes(octets: &[u8; 32]) -> (key: Result<PublicKey, iroh_base::KeyParsingError>)
        ensures
            key is Ok <==> is_public_key(octets@),
            key matches Ok(k) ==> k@ == octets@,
    {
        match check_public_key(octets) {
            Ok(octets) => Ok(PublicKey { octets }),
            Err(e) => Err(e),
        }
    }

    /// The key that octets are, if they are one.
    pub fn from_slice(octets: &[u8]) -> (key: Result<PublicKey, KeyError>)
        ensures
            match key {
                Ok(k) => key_of(octets@) == Ok::<Seq<u8>, KeyFault>(k@),
                Err(e) => key_of(octets@) == Err::<Seq<u8>, KeyFault>(e.fault()),
            },
    {
        match key_octets(octets) {
            None => Err(KeyError::InvalidLength),
            Some(octets) => match PublicKey::from_bytes(&octets) {
                Ok(key) => Ok(key),
                Err(e) => Err(KeyError::InvalidKeyData(e)),
            },
        }
    }

    /// The octets of the key. Read as a key they give it back.
    pub fn as_bytes(&self) -> (octets: &[u8; 32])
        ensures
            octets@ == self@,
            key_of(octets@) == Ok::<Seq<u8>, KeyFault>(self@),
    {
        proof {
            use_type_invariant(self);
        }
        &self.octets
    }
}

/// Octets are a key exactly if they are thirty-two and name a point of the curve, and then they
/// are the key; their number is looked at first.
pub proof fn law_key_is_its_octets(octets: Seq<u8>, key: Seq<u8>)
    ensures
        key_of(octets) == Ok::<Seq<u8>, KeyFault>(key) <==> octets.len() == 32 && is_public_key(
            octets,
        ) && key == octets,
        key_of(octets) == Err::<Seq<u8>, KeyFault>(KeyFault::Length) <==> octets.len() != 32,
        key_of(octets) == Err::<Seq<u8>, KeyFault>(KeyFault::Data) <==> octets.len() == 32
            && !is_public_key(octets),
{
}

/// An error tells of the number of octets exactly if it is the one for that.
pub proof fn law_key_error_tells(error: KeyError)
    ensures
        error.fault() is Length <==> error is InvalidLength,
        error.fault() is Data <==> error is InvalidKeyData,
{
}

/// Of two different keys, the one that spells the smaller number is the one with the smaller octet
/// in the first place in which they differ.
pub proof fn law_keys_in_order_of_octets(a: Seq<u8>, b: Seq<u8>, at: int)
    requires
        a.len() == b.len(),
        0 <= at < a.len(),
        forall|i: int| 0 <= i < at ==> #[trigger] a[i] == b[i],
        a[at] != b[at],
    ensures
        be_value(a) < be_value(b) <==> a[at] < b[at],
{
    assert(a.take(at) =~= b.take(at));
    if a[at] < b[at] {
        lemma_first_difference(a, b, at);
    } else {
        lemma_first_difference(b, a, at);
    }
}

} // verus!
