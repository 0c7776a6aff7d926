use ivlan::auth::{
    judge_auth, read_auth, read_auth_body, read_auth_resp, read_auth_tag, write_auth,
    write_auth_resp, Auth, AuthReadError, AuthResp, AuthRules, AuthTag, AuthWriteError,
};

fn password(text: &str) -> Auth {
    Auth::Password(text.to_string())
}

fn shown(auth: Auth) -> Option<String> {
    match auth {
        Auth::Nothing => None,
        Auth::Password(text) => Some(text),
    }
}

#[test]
fn an_empty_request_is_written_and_read() {
    let octets = write_auth(&Auth::Nothing).unwrap();
    let mut expected = b"---:".to_vec();
    expected.extend_from_slice(&[0; 60]);
    assert_eq!(octets, expected);
    assert_eq!(shown(read_auth(&octets).unwrap()), None);
}

#[test]
fn a_password_is_written_and_read() {
    let octets = write_auth(&password("secret")).unwrap();
    assert_eq!(octets.len(), 64);
    assert_eq!(&octets[..10], b"psw:secret");
    assert_eq!(octets[10..], [0; 54]);
    assert_eq!(shown(read_auth(&octets).unwrap()), Some("secret".to_string()));
}

#[test]
fn passwords_of_any_length_that_fits_come_back() {
    for text in ["", "x", "p\u{e4}ssw\u{f6}rd", &"y".repeat(59), &"z".repeat(60)] {
        let octets = write_auth(&password(text)).unwrap();
        assert_eq!(octets.len(), 64);
        assert_eq!(shown(read_auth(&octets).unwrap()), Some(text.to_string()));
    }
}

#[test]
fn a_password_is_read_up_to_its_first_nul() {
    let octets = write_auth(&password("ab\0cd")).unwrap();
    assert_eq!(shown(read_auth(&octets).unwrap()), Some("ab".to_string()));
}

#[test]
fn a_password_that_does_not_fit_is_not_written() {
    let too_long = write_auth(&password(&"z".repeat(61)));
    assert!(matches!(too_long, Err(AuthWriteError::PasswordTooLong)));
    let wide = write_auth(&password(&"\u{e4}".repeat(31)));
    assert!(matches!(wide, Err(AuthWriteError::PasswordTooLong)));
}

#[test]
fn requests_that_cannot_be_read() {
    let mut octets = write_auth(&password("secret")).unwrap();
    assert!(matches!(read_auth(&octets[..3]), Err(AuthReadError::UnexpectedEof)));
    assert!(matches!(read_auth(&octets[..63]), Err(AuthReadError::UnexpectedEof)));
    octets[4] = 0xff;
    assert!(matches!(read_auth(&octets), Err(AuthReadError::NotUtf8)));
    octets[0] = b'q';
    assert!(matches!(read_auth(&octets), Err(AuthReadError::BadDiscriminant)));
    assert!(matches!(read_auth(b"what"), Err(AuthReadError::BadDiscriminant)));
}

#[test]
fn a_request_is_read_in_two_parts() {
    assert_eq!(read_auth_tag(*b"---:"), Ok(AuthTag::Nothing));
    assert_eq!(read_auth_tag(*b"psw:"), Ok(AuthTag::Password));
    assert_eq!(read_auth_tag(*b"ok--"), Err(AuthReadError::BadDiscriminant));
    let mut body = [0u8; 60];
    body[..3].copy_from_slice(b"abc");
    assert_eq!(shown(read_auth_body(AuthTag::Password, body).unwrap()), Some("abc".to_string()));
    assert_eq!(shown(read_auth_body(AuthTag::Nothing, body).unwrap()), None);
}

#[test]
fn rules_judge_requests() {
    let open = AuthRules { anybody: true, password: Some("secret".to_string()) };
    let locked = AuthRules { anybody: false, password: Some("secret".to_string()) };
    let shut = AuthRules { anybody: false, password: None };
    for auth in [Auth::Nothing, password("secret"), password("wrong")] {
        assert_eq!(judge_auth(&open, &auth), AuthResp::Good);
        assert_eq!(judge_auth(&shut, &auth), AuthResp::Bad);
    }
    assert_eq!(judge_auth(&locked, &password("secret")), AuthResp::Good);
    assert_eq!(judge_auth(&locked, &password("wrong")), AuthResp::Bad);
    assert_eq!(judge_auth(&locked, &Auth::Nothing), AuthResp::Bad);
}

#[test]
fn answers_are_written_and_read() {
    assert_eq!(&write_auth_resp(&AuthResp::Good), b"ok--");
    assert_eq!(&write_auth_resp(&AuthResp::Bad), b"nok-");
    assert_eq!(read_auth_resp(b"ok--"), Ok(AuthResp::Good));
    assert_eq!(read_auth_resp(b"nok-and more"), Ok(AuthResp::Bad));
    assert_eq!(read_auth_resp(b"nok"), Err(AuthReadError::UnexpectedEof));
    assert_eq!(read_auth_resp(b"nope"), Err(AuthReadError::BadDiscriminant));
}
