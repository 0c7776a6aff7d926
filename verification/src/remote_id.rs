//! The name of a remote host: its public key, shown as text.

use crate::base64_text::{url_safe_decode, url_safe_encode, url_safe_octets, url_safe_text};
use crate::key::{is_public_key, key_of, KeyError, KeyFault, PublicKey};
use vstd::prelude::*;

verus! {

/// The name of a remote host.
#[derive(Clone, Copy, Debug, PartialEq, Eq, PartialOrd, Ord, Hash)]
pub struct RemoteId(PublicKey);

impl View for RemoteId {
    type V = Seq<u8>;

    /// The octets of the host's public key.
    closed spec fn view(&self) -> Seq<u8> {
        self.0@
    }
}

impl RemoteId {
    /// The public key of the host.
    pub closed spec fn key(self) -> PublicKey {
        self.0
    }

    /// The name that a key is.
    pub closed spec fn of(key: PublicKey) -> RemoteId {
        RemoteId(key)
    }
}

impl From<RemoteId> for PublicKey {
    fn from(id: RemoteId) -> (key: PublicKey) {
        id.0
    }
}

impl vstd::std_specs::convert::FromSpecImpl<RemoteId> for PublicKey {
    open spec fn obeys_from_spec() -> bool {
        true
    }

    open spec fn from_spec(id: RemoteId) -> PublicKey {
        id.key()
    }
}

impl From<PublicKey> for RemoteId {
    fn from(key: PublicKey) -> (id: RemoteId) {
        RemoteId(key)
    }
}

impl vstd::std_specs::convert::FromSpecImpl<PublicKey> for RemoteId {
    open spec fn obeys_from_spec() -> bool {
        true
    }

    open spec fn from_spec(key: PublicKey) -> RemoteId {
        RemoteId::of(key)
    }
}

/// A name is the key of its host: neither conversion loses anything.
pub proof fn law_remote_id_is_key(id: RemoteId, key: PublicKey)
    ensures
        RemoteId::of(id.key()) == id,
        RemoteId::of(key).key() == key,
        id.key()@ == id@,
        RemoteId::of(key)@ == key@,
{
}

/// Why a text names no host.
#[derive(Debug)]
pub enum RemoteIdParseError {
    /// It is no base64 text.
    Base64(base64::DecodeError),
    /// What it encodes is no public key.
    Key(KeyError),
}

/// What is wrong with a text that is to name a host.
pub enum RemoteIdFault {
    Base64,
    Key(KeyFault),
}

impl RemoteIdParseError {
    /// What the error says is wrong, without the error of the parser that it may carry.
    pub open spec fn fault(self) -> RemoteIdFault {
        match self {
            RemoteIdParseError::Base64(_) => RemoteIdFault::Base64,
            RemoteIdParseError::Key(e) => RemoteIdFault::Key(e.fault()),
        }
    }
}

impl From<base64::DecodeError> for RemoteIdParseError {
    fn from(e: base64::DecodeError) -> (error: RemoteIdParseError) {
        RemoteIdParseError::Base64(e)
    }
}

impl vstd::std_specs::convert::FromSpecImpl<base64::DecodeError> for RemoteIdParseError {
    open spec fn obeys_from_spec() -> bool {
        true
    }

    open spec fn from_spec(e: base64::DecodeError) -> RemoteIdParseError {
        RemoteIdParseError::Base64(e)
    }
}

impl From<KeyError> for RemoteIdParseError {
    fn from(e: KeyError) -> (error: RemoteIdParseError) {
        RemoteIdParseError::Key(e)
    }
}

impl vstd::std_specs::convert::FromSpecImpl<KeyError> for RemoteIdParseError {
    open spec fn obeys_from_spec() -> bool {
        true
    }

    open spec fn from_spec(e: KeyError) -> RemoteIdParseError {
        RemoteIdParseError::Key(e)
    }
}

/// The host that decoded octets name, or what is wrong with them; `None` stands for a text that
/// could not be decoded.
pub open spec fn remote_id_of(decoded: Option<Seq<u8>>) -> Result<Seq<u8>, RemoteIdFault> {
    match decoded {
        None => Err(RemoteIdFault::Base64),
        Some(octets) => match key_of(octets) {
            Ok(key) => Ok(key),
            Err(fault) => Err(RemoteIdFault::Key(fault)),
        },
    }
}

impl RemoteId {
    /// The host that the outcome of decoding a text names.
    pub fn from_decoded(decoded: Result<Vec<u8>, base64::DecodeError>) -> (id: Result<
        RemoteId,
        RemoteIdParseError,
    >)
        ensures
            ({
                let octets = match decoded {
                    Ok(octets) => Some(octets@),
                    Err(_) => None,
                };
                match id {
                    Ok(id) => remote_id_of(octets) == Ok::<Seq<u8>, RemoteIdFault>(id@),
                    Err(e) => remote_id_of(octets) == Err::<Seq<u8>, RemoteIdFault>(e.fault()),
                }
            }),
            decoded matches Err(e) ==> id == Err::<RemoteId, RemoteIdParseError>(
                RemoteIdParseError::Base64(e),
            ),
    {
        match decoded {
            Err(e) => Err(RemoteIdParseError::from(e)),
            Ok(octets) => match PublicKey::from_slice(octets.as_slice()) {
                Ok(key) => Ok(RemoteId(key)),
                Err(e) => Err(RemoteIdParseError::from(e)),
            },
        }
    }

    /// The host that a text names. No other text names it.
    pub fn from_str(text: &str) -> (id: Result<RemoteId, RemoteIdParseError>)
        ensures
            match id {
                Ok(id) => {
                    &&& remote_id_of(url_safe_octets(text@)) == Ok::<Seq<u8>, RemoteIdFault>(id@)
                    &&& text@ == url_safe_text(id@)
                    &&& text@.len() == 44
                },
                Err(e) => remote_id_of(url_safe_octets(text@)) == Err::<Seq<u8>, RemoteIdFault>(
                    e.fault(),
                ),
            },
    {
        RemoteId::from_decoded(url_safe_decode(text))
    }

    /// The text that names the host. Read as a name it gives the host back.
    pub fn to_string(&self) -> (text: String)
        ensures
            text@ == url_safe_text(self@),
            text@.len() == 44,
            remote_id_of(url_safe_octets(text@)) == Ok::<Seq<u8>, RemoteIdFault>(self@),
    {
        url_safe_encode(self.0.as_bytes())
    }

    /// The host whose key is these octets.
    pub fn from_bytes(octets: &[u8; 32]) -> (id: Result<RemoteId, iroh_base::KeyParsingError>)
        ensures
            match id {
                Ok(id) => key_of(octets@) == Ok::<Seq<u8>, KeyFault>(id@),
                Err(_) => key_of(octets@) == Err::<Seq<u8>, KeyFault>(KeyFault::Data),
            },
    {
        match PublicKey::from_bytes(octets) {
            Ok(key) => Ok(RemoteId(key)),
            Err(e) => Err(e),
        }
    }

    /// The octets of the host's key. Read as a key they give the host back.
    pub fn as_bytes(&self) -> (octets: &[u8; 32])
        ensures
            octets@ == self@,
            key_of(octets@) == Ok::<Seq<u8>, KeyFault>(self@),
    {
        self.0.as_bytes()
    }
}

/// What was decoded names a host exactly if it is thirty-two octets that name a point of the
/// curve, and then it names the one with that key; a text that cannot be decoded names none.
pub proof fn law_host_is_its_octets(octets: Seq<u8>, host: Seq<u8>)
    ensures
        remote_id_of(None) == Err::<Seq<u8>, RemoteIdFault>(RemoteIdFault::Base64),
        remote_id_of(Some(octets)) == Ok::<Seq<u8>, RemoteIdFault>(host) <==> octets.len() == 32
            && is_public_key(octets) && host == octets,
        remote_id_of(Some(octets)) == Err::<Seq<u8>, RemoteIdFault>(
            RemoteIdFault::Key(KeyFault::Length),
        ) <==> octets.len() != 32,
        remote_id_of(Some(octets)) == Err::<Seq<u8>, RemoteIdFault>(
            RemoteIdFault::Key(KeyFault::Data),
        ) <==> octets.len() == 32 && !is_public_key(octets),
{
}

/// An error tells of the text exactly if it is the one for that, and else of the key.
pub proof fn law_remote_id_error_tells(error: RemoteIdParseError)
    ensures
        error.fault() is Base64 <==> error is Base64,
        error matches RemoteIdParseError::Key(e) ==> (error.fault() matches RemoteIdFault::Key(fault)
            && (fault is Length <==> e is InvalidLength)),
{
}

} // verus!
