//! How a peer proves that it may join: the request that it sends, the rules that judge it, and
//! the answer that it gets.

use vstd::prelude::*;
use vstd::utf8::*;

verus! {

/// The octets of a request before its body.
pub const TAG: usize = 4;

/// The octets of the body of a request, and the most that a password may take.
pub const BODY: usize = 60;

/// What a peer shows to be let in.
#[derive(Clone, Debug)]
pub enum Auth {
    Nothing,
    Password(String),
}

impl View for Auth {
    type V = Option<Seq<char>>;

    /// The password, if one is shown.
    open spec fn view(&self) -> Option<Seq<char>> {
        match self {
            Auth::Nothing => None,
            Auth::Password(password) => Some(password@),
        }
    }
}

/// Who is let in: anybody, or whoever shows the password.
#[derive(Clone, Debug)]
pub struct AuthRules {
    pub anybody: bool,
    pub password: Option<String>,
}

/// The answer to a request.
#[derive(Clone, Copy, Debug, PartialEq, Eq, Structural)]
pub enum AuthResp {
    Good,
    Bad,
}

/// Which of the two requests a tag announces.
#[derive(Clone, Copy, Debug, PartialEq, Eq, Structural)]
pub enum AuthTag {
    Nothing,
    Password,
}

/// Why no request, or no answer, could be read.
#[derive(Clone, Copy, Debug, PartialEq, Eq, Structural)]
pub enum AuthReadError {
    /// The stream ended too early.
    UnexpectedEof,
    /// The tag is none of the known ones.
    BadDiscriminant,
    /// The password is no UTF-8 text.
    NotUtf8,
}

/// Why a request cannot be written.
#[derive(Clone, Copy, Debug, PartialEq, Eq, Structural)]
pub enum AuthWriteError {
    /// The password takes more octets than the body has.
    PasswordTooLong,
}

/// `---:`
pub open spec fn none_tag() -> Seq<u8> {
    seq![0x2du8, 0x2du8, 0x2du8, 0x3au8]
}

/// `psw:`
pub open spec fn password_tag() -> Seq<u8> {
    seq![0x70u8, 0x73u8, 0x77u8, 0x3au8]
}

/// `ok--`
pub open spec fn ok_tag() -> Seq<u8> {
    seq![0x6fu8, 0x6bu8, 0x2du8, 0x2du8]
}

/// `nok-`
pub open spec fn bad_tag() -> Seq<u8> {
    seq![0x6eu8, 0x6fu8, 0x6bu8, 0x2du8]
}

/// The octets before the first zero, or all where there is none.
pub open spec fn until_nul(octets: Seq<u8>) -> Seq<u8>
    decreases octets.len(),
{
    if octets.len() == 0 || octets[0] == 0 {
        Seq::empty()
    } else {
        seq![octets[0]] + until_nul(octets.drop_first())
    }
}

/// The characters before the first NUL, or all where there is none.
pub open spec fn chars_until_nul(text: Seq<char>) -> Seq<char>
    decreases text.len(),
{
    if text.len() == 0 || text[0] == '\0' {
        Seq::empty()
    } else {
        seq![text[0]] + chars_until_nul(text.drop_first())
    }
}

/// Octets that are all zero.
pub open spec fn zeros(len: int) -> Seq<u8> {
    Seq::new(len as nat, |i: int| 0u8)
}

/// The octets of a request that shows `password`, or none; nothing where the password does not
/// fit into the body.
pub open spec fn auth_octets(password: Option<Seq<char>>) -> Option<Seq<u8>> {
    match password {
        None => Some(none_tag() + zeros(BODY as int)),
        Some(password) => {
            let octets = encode_utf8(password);
            if octets.len() > BODY {
                None
            } else {
                Some(password_tag() + octets + zeros(BODY - octets.len()))
            }
        },
    }
}

/// What the first octets of a stream announce.
pub open spec fn tag_read(tag: Seq<u8>) -> Result<AuthTag, AuthReadError> {
    if tag == none_tag() {
        Ok(AuthTag::Nothing)
    } else if tag == password_tag() {
        Ok(AuthTag::Password)
    } else {
        Err(AuthReadError::BadDiscriminant)
    }
}

/// What the body after a tag says.
pub open spec fn body_read(tag: AuthTag, body: Seq<u8>) -> Result<
    Option<Seq<char>>,
    AuthReadError,
> {
    match tag {
        AuthTag::Nothing => Ok(None),
        AuthTag::Password => if valid_utf8(until_nul(body)) {
            Ok(Some(decode_utf8(until_nul(body))))
        } else {
            Err(AuthReadError::NotUtf8)
        },
    }
}

/// What a stream that holds `input` and then ends says: a tag and the body that follows it.
/// An unknown tag is refused without waiting for a body.
pub open spec fn auth_read(input: Seq<u8>) -> Result<Option<Seq<char>>, AuthReadError> {
    if input.len() < TAG {
        Err(AuthReadError::UnexpectedEof)
    } else {
        match tag_read(input.subrange(0, TAG as int)) {
            Err(e) => Err(e),
            Ok(tag) => if input.len() < TAG + BODY {
                Err(AuthReadError::UnexpectedEof)
            } else {
                body_read(tag, input.subrange(TAG as int, TAG + BODY))
            },
        }
    }
}

/// Whether the rules let in who shows `password`, or nothing.
pub open spec fn admits(rules: AuthRules, password: Option<Seq<char>>) -> bool {
    ||| rules.anybody
    ||| rules.password matches Some(allowed) && password == Some(allowed@)
}

/// The octets of an answer.
pub open spec fn resp_octets(resp: AuthResp) -> Seq<u8> {
    match resp {
        AuthResp::Good => ok_tag(),
        AuthResp::Bad => bad_tag(),
    }
}

/// What a stream that holds `input` and then ends answers.
pub open spec fn resp_read(input: Seq<u8>) -> Result<AuthResp, AuthReadError> {
    if input.len() < TAG {
        Err(AuthReadError::UnexpectedEof)
    } else if input.subrange(0, TAG as int) == ok_tag() {
        Ok(AuthResp::Good)
    } else if input.subrange(0, TAG as int) == bad_tag() {
        Ok(AuthResp::Bad)
    } else {
        Err(AuthReadError::BadDiscriminant)
    }
}

/// Decodes UTF-8 text by [`String::from_utf8`]: there is a result exactly where the octets are
/// valid UTF-8, and it holds the characters that they encode.
#[verifier::external_body]
pub(crate) fn utf8_text(octets: Vec<u8>) -> (text: Option<String>)
    ensures
        text is Some <==> valid_utf8(octets@),
        text matches Some(t) ==> t@ == decode_utf8(octets@),
{
    String::from_utf8(octets).ok()
}

/// Whether the first octets of `input` are those of `tag`.
fn has_tag(input: &[u8], tag: [u8; 4]) -> (same: bool)
    requires
        input@.len() >= TAG,
    ensures
        same <==> input@.subrange(0, TAG as int) == tag@,
{
    let same: bool = input[0] == tag[0] && input[1] == tag[1] && input[2] == tag[2] && input[3]
        == tag[3];
    proof {
        let head = input@.subrange(0, TAG as int);
        assert(head[0] == input@[0] && head[1] == input@[1] && head[2] == input@[2] && head[3]
            == input@[3]);
        if same {
            assert(head =~= tag@);
        }
    }
    same
}

/// Copies the octets before the first zero.
fn copy_until_nul(octets: &[u8]) -> (text: Vec<u8>)
    ensures
        text@ == until_nul(octets@),
{
    let mut text: Vec<u8> = Vec::new();
    let mut at: usize = 0;
    proof {
        assert(octets@.skip(0) =~= octets@);
        assert(text@ + until_nul(octets@) =~= until_nul(octets@));
    }
    while at < octets.len() && octets[at] != 0
        invariant
            at <= octets@.len(),
            text@ + until_nul(octets@.skip(at as int)) == until_nul(octets@),
        decreases octets@.len() - at,
    {
        let ghost before = text@;
        text.push(octets[at]);
        proof {
            let rest = octets@.skip(at as int);
            assert(rest.drop_first() =~= octets@.skip(at + 1));
            assert(text@ + until_nul(octets@.skip(at + 1)) =~= before + until_nul(rest));
        }
        at = at + 1;
    }
    proof {
        assert(text@ + until_nul(octets@.skip(at as int)) =~= text@);
    }
    text
}

/// Appends zeros until `octets` has `len` of them.
fn pad_with_zeros(octets: &mut Vec<u8>, len: usize)
    requires
        old(octets)@.len() <= len,
    ensures
        final(octets)@ == old(octets)@ + zeros(len - old(octets)@.len()),
{
    while octets.len() < len
        invariant
            old(octets)@.len() <= octets@.len() <= len,
            octets@ == old(octets)@ + zeros(octets@.len() - old(octets)@.len()),
        decreases len - octets@.len(),
    {
        octets.push(0);
    }
}

/// Tells which request a tag announces.
pub fn read_auth_tag(tag: [u8; 4]) -> (kind: Result<AuthTag, AuthReadError>)
    ensures
        kind == tag_read(tag@),
{
    proof {
        assert(tag@.subrange(0, TAG as int) =~= tag@);
    }
    if has_tag(tag.as_slice(), [0x2d, 0x2d, 0x2d, 0x3a]) {
        Ok(AuthTag::Nothing)
    } else if has_tag(tag.as_slice(), [0x70, 0x73, 0x77, 0x3a]) {
        Ok(AuthTag::Password)
    } else {
        Err(AuthReadError::BadDiscriminant)
    }
}

/// Reads the body that follows a tag.
pub fn read_auth_body(tag: AuthTag, body: [u8; 60]) -> (auth: Result<Auth, AuthReadError>)
    ensures
        match auth {
            Ok(auth) => body_read(tag, body@) == Ok::<Option<Seq<char>>, AuthReadError>(auth@),
            Err(e) => body_read(tag, body@) == Err::<Option<Seq<char>>, AuthReadError>(e),
        },
{
    match tag {
        AuthTag::Nothing => Ok(Auth::Nothing),
        AuthTag::Password => match utf8_text(copy_until_nul(body.as_slice())) {
            Some(password) => Ok(Auth::Password(password)),
            None => Err(AuthReadError::NotUtf8),
        },
    }
}

/// Reads a request from a stream that holds `input` and then ends.
pub fn read_auth(input: &[u8]) -> (auth: Result<Auth, AuthReadError>)
    ensures
        match auth {
            Ok(auth) => auth_read(input@) == Ok::<Option<Seq<char>>, AuthReadError>(auth@),
            Err(e) => auth_read(input@) == Err::<Option<Seq<char>>, AuthReadError>(e),
        },
{
    if input.len() < TAG {
        return Err(AuthReadError::UnexpectedEof);
    }
    let tag: [u8; 4] = [input[0], input[1], input[2], input[3]];
    proof {
        assert(tag@ =~= input@.subrange(0, TAG as int));
    }
    match read_auth_tag(tag) {
        Err(e) => Err(e),
        Ok(kind) => {
            if input.len() < TAG + BODY {
                return Err(AuthReadError::UnexpectedEof);
            }
            let mut body: [u8; 60] = [0u8; 60];
            let mut at: usize = 0;
            while at < BODY
                invariant
                    at <= BODY,
                    TAG + BODY <= input@.len(),
                    body@.subrange(0, at as int) == input@.subrange(TAG as int, TAG + at),
                decreases BODY - at,
            {
                let ghost before = body@;
                body[at] = input[TAG + at];
                proof {
                    assert(body@.subrange(0, at + 1) =~= before.subrange(0, at as int).push(
                        input@[TAG + at],
                    ));
                    assert(input@.subrange(TAG as int, TAG + at + 1) =~= input@.subrange(
                        TAG as int,
                        TAG + at,
                    ).push(input@[TAG + at]));
                }
                at = at + 1;
            }
            proof {
                assert(body@.subrange(0, BODY as int) =~= body@);
            }
            read_auth_body(kind, body)
        },
    }
}

/// Writes a request.
pub fn write_auth(auth: &Auth) -> (octets: Result<Vec<u8>, AuthWriteError>)
    ensures
        match octets {
            Ok(octets) => auth_octets(auth@) == Some(octets@),
            Err(AuthWriteError::PasswordTooLong) => auth_octets(auth@) is None,
        },
{
    match auth {
        Auth::Nothing => {
            let mut octets: Vec<u8> = vec![0x2d, 0x2d, 0x2d, 0x3a];
            pad_with_zeros(&mut octets, TAG + BODY);
            proof {
                assert(octets@ =~= none_tag() + zeros(BODY as int));
            }
            Ok(octets)
        },
        Auth::Password(password) => {
            let password: &[u8] = password.as_str().as_bytes();
            if password.len() > BODY {
                return Err(AuthWriteError::PasswordTooLong);
            }
            let mut octets: Vec<u8> = vec![0x70, 0x73, 0x77, 0x3a];
            octets.extend_from_slice(password);
            pad_with_zeros(&mut octets, TAG + BODY);
            proof {
                assert(octets@ =~= password_tag() + password@ + zeros(BODY - password@.len()));
            }
            Ok(octets)
        },
    }
}

/// Judges a request by the rules.
pub fn judge_auth(rules: &AuthRules, auth: &Auth) -> (resp: AuthResp)
    ensures
        resp == if admits(*rules, auth@) {
            AuthResp::Good
        } else {
            AuthResp::Bad
        },
        resp == AuthResp::Good <==> rules.anybody || (rules.password matches Some(allowed)
            && auth matches Auth::Password(shown) && shown@ == allowed@),
{
    if rules.anybody {
        return AuthResp::Good;
    }
    if let Some(allowed) = &rules.password {
        if let Auth::Password(shown) = auth {
            if *allowed == *shown {
                return AuthResp::Good;
            }
        }
    }
    AuthResp::Bad
}

/// Reads an answer from a stream that holds `input` and then ends.
pub fn read_auth_resp(input: &[u8]) -> (resp: Result<AuthResp, AuthReadError>)
    ensures
        resp == resp_read(input@),
{
    if input.len() < TAG {
        Err(AuthReadError::UnexpectedEof)
    } else if has_tag(input, [0x6f, 0x6b, 0x2d, 0x2d]) {
        Ok(AuthResp::Good)
    } else if has_tag(input, [0x6e, 0x6f, 0x6b, 0x2d]) {
        Ok(AuthResp::Bad)
    } else {
        Err(AuthReadError::BadDiscriminant)
    }
}

/// Writes an answer.
pub fn write_auth_resp(resp: &AuthResp) -> (octets: [u8; 4])
    ensures
        octets@ == resp_octets(*resp),
{
    match resp {
        AuthResp::Good => [0x6f, 0x6b, 0x2d, 0x2d],
        AuthResp::Bad => [0x6e, 0x6f, 0x6b, 0x2d],
    }
}

/// No octet of an encoded character is zero, but for NUL itself.
proof fn lemma_scalar_octets(c: char)
    ensures
        c == '\0' ==> encode_scalar(c as u32) == seq![0u8],
        c != '\0' ==> forall|i: int|
            0 <= i < encode_scalar(c as u32).len() ==> (#[trigger] encode_scalar(c as u32)[i]) != 0,
{
    let v = c as u32;
    assert(0u32 & 0x7f == 0) by (bit_vector);
    assert(v != 0 && v <= 0x7f ==> v & 0x7f != 0 && v & 0x7f <= 0x7f) by (bit_vector);
    assert(forall|x: u8| #[trigger] (0xC0u8 | x) != 0) by (bit_vector);
    assert(forall|x: u8| #[trigger] (0xE0u8 | x) != 0) by (bit_vector);
    assert(forall|x: u8| #[trigger] (0xF0u8 | x) != 0) by (bit_vector);
    assert(forall|x: u8| #[trigger] (0x80u8 | x) != 0) by (bit_vector);
    assert(c == '\0' ==> encode_scalar(v) =~= seq![0u8]);
}

proof fn lemma_until_nul_after(head: Seq<u8>, rest: Seq<u8>)
    requires
        forall|i: int| 0 <= i < head.len() ==> head[i] != 0,
    ensures
        until_nul(head + rest) == head + until_nul(rest),
    decreases head.len(),
{
    if head.len() == 0 {
        assert(head + rest =~= rest);
        assert(head + until_nul(rest) =~= until_nul(rest));
    } else {
        lemma_until_nul_after(head.drop_first(), rest);
        assert((head + rest).drop_first() =~= head.drop_first() + rest);
        assert(until_nul(head + rest) =~= head + until_nul(rest));
    }
}

/// Cutting encoded text at the first zero octet cuts the text at its first NUL.
proof fn lemma_until_nul_of_text(text: Seq<char>, padding: int)
    requires
        padding >= 0,
    ensures
        until_nul(encode_utf8(text) + zeros(padding)) == encode_utf8(chars_until_nul(text)),
    decreases text.len(),
{
    let octets = encode_utf8(text) + zeros(padding);
    if text.len() == 0 {
        assert(octets =~= zeros(padding));
        assert(until_nul(octets) =~= Seq::<u8>::empty());
    } else {
        lemma_scalar_octets(text[0]);
        let first = encode_scalar(text[0] as u32);
        let rest = encode_utf8(text.drop_first()) + zeros(padding);
        assert(octets =~= first + rest);
        if text[0] == '\0' {
            assert(octets[0] == 0);
        } else {
            lemma_until_nul_after(first, rest);
            lemma_until_nul_of_text(text.drop_first(), padding);
            let kept = chars_until_nul(text);
            assert(kept.drop_first() =~= chars_until_nul(text.drop_first()));
            assert(kept[0] == text[0]);
        }
    }
}

proof fn lemma_chars_until_nul_whole(text: Seq<char>)
    requires
        !text.contains('\0'),
    ensures
        chars_until_nul(text) == text,
    decreases text.len(),
{
    if text.len() > 0 {
        assert(text[0] != '\0');
        assert forall|i: int| 0 <= i < text.drop_first().len() implies text.drop_first()[i]
            != '\0' by {
            assert(text[i + 1] != '\0');
        }
        lemma_chars_until_nul_whole(text.drop_first());
        assert(seq![text[0]] + text.drop_first() =~= text);
    } else {
        assert(chars_until_nul(text) =~= text);
    }
}

/// What is read of a written request is what was shown, as far as its first NUL; whatever
/// follows the request on the stream does not matter.
pub proof fn law_auth_read_of_written(password: Option<Seq<char>>, after: Seq<u8>)
    requires
        auth_octets(password) is Some,
    ensures
        auth_octets(password)->0.len() == TAG + BODY,
        auth_read(auth_octets(password)->0 + after) == Ok::<Option<Seq<char>>, AuthReadError>(
            match password {
                None => None,
                Some(text) => Some(chars_until_nul(text)),
            },
        ),
        password matches Some(text) && !text.contains('\0') ==> auth_read(
            auth_octets(password)->0 + after,
        ) == Ok::<Option<Seq<char>>, AuthReadError>(password),
{
    let octets = auth_octets(password)->0;
    let input = octets + after;
    let tag = input.subrange(0, TAG as int);
    match password {
        None => {
            assert(tag =~= none_tag());
        },
        Some(text) => {
            let encoded = encode_utf8(text);
            let padding = BODY - encoded.len();
            assert(tag =~= password_tag());
            assert(tag[0] != none_tag()[0]);
            assert(input.subrange(TAG as int, TAG + BODY) =~= encoded + zeros(padding));
            lemma_until_nul_of_text(text, padding);
            encode_utf8_valid_utf8(chars_until_nul(text));
            encode_utf8_decode_utf8(chars_until_nul(text));
            if !text.contains('\0') {
                lemma_chars_until_nul_whole(text);
            }
        },
    }
}

/// A request can be written exactly where the password, if any, takes at most the body.
pub proof fn law_auth_written_iff_fits(password: Option<Seq<char>>)
    ensures
        auth_octets(password) is None <==> (password matches Some(text) && encode_utf8(text).len()
            > BODY),
{
}

/// What is read of a written answer is that answer, whatever follows on the stream.
pub proof fn law_resp_read_of_written(resp: AuthResp, after: Seq<u8>)
    ensures
        resp_octets(resp).len() == TAG,
        resp_read(resp_octets(resp) + after) == Ok::<AuthResp, AuthReadError>(resp),
{
    let tag = (resp_octets(resp) + after).subrange(0, TAG as int);
    assert(tag =~= resp_octets(resp));
    if resp == AuthResp::Bad {
        assert(tag[0] != ok_tag()[0]);
    }
}

/// Where a password is asked for, a peer that sends a request over the wire is let in exactly
/// where the request shows that password.
pub proof fn law_password_admits(rules: AuthRules, shown: Option<Seq<char>>)
    requires
        !rules.anybody,
        auth_octets(shown) is Some,
        shown matches Some(text) ==> !text.contains('\0'),
    ensures
        auth_read(auth_octets(shown)->0) matches Ok(read) && admits(rules, read) <==> (
        rules.password matches Some(allowed) && shown == Some(allowed@)),
{
    law_auth_read_of_written(shown, Seq::empty());
    assert(auth_octets(shown)->0 + Seq::empty() =~= auth_octets(shown)->0);
}

/// What a request shows is nothing, or its password as it stands.
pub proof fn law_shown_as_it_stands(auth: Auth)
    ensures
        auth is Nothing <==> auth@ is None,
        auth matches Auth::Password(text) ==> auth@ == Some(text@),
{
}

/// Rules that let anybody in let everybody in, whatever is shown and whatever the password is.
pub proof fn law_anybody_is_let_in(rules: AuthRules, shown: Option<Seq<char>>)
    requires
        rules.anybody,
    ensures
        admits(rules, shown),
{
}

/// Rules that do not let anybody in let in who shows the password, and nobody else; without a
/// password they let nobody in.
pub proof fn law_others_need_the_password(rules: AuthRules, shown: Option<Seq<char>>)
    requires
        !rules.anybody,
    ensures
        admits(rules, shown) <==> (rules.password matches Some(allowed) && shown matches Some(text)
            && text == allowed@),
{
}

/// A request takes sixty-four octets. The first four are `---:` where nothing is shown, and `psw:`
/// where a password is, whose octets follow; all that is left is zero. A password of more than
/// sixty octets cannot be written.
pub proof fn law_request_on_the_wire(shown: Option<Seq<char>>)
    ensures
        shown is None ==> auth_octets(shown) is Some,
        shown matches Some(text) ==> (auth_octets(shown) is Some <==> encode_utf8(text).len() <= 60),
        auth_octets(shown) matches Some(octets) ==> {
            let text = match shown {
                Some(text) => encode_utf8(text),
                None => Seq::<u8>::empty(),
            };
            &&& octets.len() == 64
            &&& shown is None ==> octets.take(4) == seq![0x2du8, 0x2du8, 0x2du8, 0x3au8]
            &&& shown is Some ==> octets.take(4) == seq![0x70u8, 0x73u8, 0x77u8, 0x3au8]
            &&& octets.subrange(4, 4 + text.len() as int) == text
            &&& forall|i: int| 4 + text.len() <= i < 64 ==> #[trigger] octets[i] == 0
        },
{
    if let Some(octets) = auth_octets(shown) {
        let text = match shown {
            Some(text) => encode_utf8(text),
            None => Seq::<u8>::empty(),
        };
        assert(octets.subrange(4, 4 + text.len() as int) =~= text);
        if shown is None {
            assert(octets.take(4) =~= seq![0x2du8, 0x2du8, 0x2du8, 0x3au8]);
        } else {
            assert(octets.take(4) =~= seq![0x70u8, 0x73u8, 0x77u8, 0x3au8]);
        }
    }
}

proof fn lemma_until_nul_is(octets: Seq<u8>, len: int)
    requires
        0 <= len <= octets.len(),
        forall|i: int| 0 <= i < len ==> #[trigger] octets[i] != 0,
        len < octets.len() ==> octets[len] == 0,
    ensures
        until_nul(octets) == octets.take(len),
    decreases len,
{
    if len > 0 {
        lemma_until_nul_is(octets.drop_first(), len - 1);
        assert(octets.take(len) =~= seq![octets[0]] + octets.drop_first().take(len - 1));
    } else {
        assert(octets.take(0) =~= Seq::empty());
    }
}

/// What the body of a request for a password says: the text of its first `len` octets, where
/// those are none of them zero and the next one is, or there is no next one. It says nothing where
/// they are no UTF-8 text. The body of the other request is not looked at.
pub proof fn law_body_read(body: Seq<u8>, len: int)
    requires
        0 <= len <= body.len(),
        forall|i: int| 0 <= i < len ==> #[trigger] body[i] != 0,
        len < body.len() ==> body[len] == 0,
    ensures
        valid_utf8(body.take(len)) ==> body_read(AuthTag::Password, body) == Ok::<
            Option<Seq<char>>,
            AuthReadError,
        >(Some(decode_utf8(body.take(len)))),
        !valid_utf8(body.take(len)) ==> body_read(AuthTag::Password, body) == Err::<
            Option<Seq<char>>,
            AuthReadError,
        >(AuthReadError::NotUtf8),
        body_read(AuthTag::Nothing, body) == Ok::<Option<Seq<char>>, AuthReadError>(None),
{
    lemma_until_nul_is(body, len);
}

/// A tag is `---:` or `psw:`, or none.
pub proof fn law_tag_read(tag: Seq<u8>)
    ensures
        tag_read(tag) == Ok::<AuthTag, AuthReadError>(AuthTag::Nothing) <==> tag
            == seq![0x2du8, 0x2du8, 0x2du8, 0x3au8],
        tag_read(tag) == Ok::<AuthTag, AuthReadError>(AuthTag::Password) <==> tag
            == seq![0x70u8, 0x73u8, 0x77u8, 0x3au8],
        tag_read(tag) matches Err(e) ==> e == AuthReadError::BadDiscriminant,
{
    assert(none_tag()[0] != password_tag()[0]);
}

/// A stream is a request by its first four octets and then by the next sixty. It ends too early
/// where there are less than four, or less than sixty-four behind a known tag; what comes after
/// the sixty-fourth does not matter.
pub proof fn law_request_read(input: Seq<u8>)
    ensures
        input.len() < 4 ==> auth_read(input) == Err::<Option<Seq<char>>, AuthReadError>(
            AuthReadError::UnexpectedEof,
        ),
        input.len() >= 4 ==> match tag_read(input.take(4)) {
            Err(e) => auth_read(input) == Err::<Option<Seq<char>>, AuthReadError>(e),
            Ok(tag) => if input.len() < 64 {
                auth_read(input) == Err::<Option<Seq<char>>, AuthReadError>(
                    AuthReadError::UnexpectedEof,
                )
            } else {
                auth_read(input) == body_read(tag, input.subrange(4, 64))
            },
        },
{
    if input.len() >= 4 {
        assert(input.take(4) =~= input.subrange(0, 4));
    }
}

/// An answer is `ok--` or `nok-`: so it is written, and so it is read, by the first four octets of
/// a stream; any other four are no answer, and less than four are too few.
pub proof fn law_answer_on_the_wire(resp: AuthResp, input: Seq<u8>)
    ensures
        resp is Good ==> resp_octets(resp) == seq![0x6fu8, 0x6bu8, 0x2du8, 0x2du8],
        resp is Bad ==> resp_octets(resp) == seq![0x6eu8, 0x6fu8, 0x6bu8, 0x2du8],
        resp_read(input) == Err::<AuthResp, AuthReadError>(AuthReadError::UnexpectedEof)
            <==> input.len() < 4,
        resp_read(input) == Ok::<AuthResp, AuthReadError>(AuthResp::Good) <==> input.len() >= 4
            && input.take(4) == seq![0x6fu8, 0x6bu8, 0x2du8, 0x2du8],
        resp_read(input) == Ok::<AuthResp, AuthReadError>(AuthResp::Bad) <==> input.len() >= 4
            && input.take(4) == seq![0x6eu8, 0x6fu8, 0x6bu8, 0x2du8],
        resp_read(input) matches Err(e) ==> e == AuthReadError::UnexpectedEof || e
            == AuthReadError::BadDiscriminant,
{
    assert(ok_tag()[0] != bad_tag()[0]);
    if input.len() >= 4 {
        assert(input.take(4) =~= input.subrange(0, 4));
    }
}

} // verus!
