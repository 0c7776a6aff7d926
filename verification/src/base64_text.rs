//! Keys as text: the base64 alphabet in which the names of hosts are shown.

use base64::engine::general_purpose::URL_SAFE;
use base64::Engine as _;
use vstd::prelude::*;

verus! {

/// The error of the base64 decoder.
#[verifier::external_type_specification]
#[verifier::external_body]
pub struct ExDecodeError(base64::DecodeError);

/// The text that the `URL_SAFE` engine of base64 makes of octets.
pub uninterp spec fn url_safe_text(octets: Seq<u8>) -> Seq<char>;

/// The octets that the `URL_SAFE` engine of base64 reads from a text, if it can.
pub uninterp spec fn url_safe_octets(text: Seq<char>) -> Option<Seq<u8>>;

/// Encodes the octets of a key by `Engine::encode` of the `URL_SAFE` engine. The text depends on
/// the octets alone, has four characters for every three of them that are begun, and the engine
/// reads them back from it.
#[verifier::external_body]
pub(crate) fn url_safe_encode(octets: &[u8; 32]) -> (text: String)
    ensures
        text@ == url_safe_text(octets@),
        text@.len() == 44,
        url_safe_octets(text@) == Some(octets@),
{
    URL_SAFE.encode(octets)
}

/// Decodes text by `Engine::decode` of the `URL_SAFE` engine. Whether it can, and what comes
/// out, depends on the text alone. It takes no text but the one that the engine makes of what
/// comes out: padding has to be there, and bits that no octet holds have to be zero.
#[verifier::external_body]
pub(crate) fn url_safe_decode(text: &str) -> (octets: Result<Vec<u8>, base64::DecodeError>)
    ensures
        octets is Err <==> url_safe_octets(text@) is None,
        octets matches Ok(o) ==> url_safe_octets(text@) == Some(o@),
        octets matches Ok(o) ==> o@.len() == 32 ==> text@ == url_safe_text(o@) && text@.len() == 44,
{
    URL_SAFE.decode(text)
}

} // verus!
