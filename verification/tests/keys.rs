use ivlan::ascii85::{decode, encode};
use ivlan::key::{KeyError, PublicKey};
use ivlan::pk_serde::{self, PublicKeyError};
use ivlan::remote_id::{RemoteId, RemoteIdParseError};
use ivlan::sk_serde::{self, SecretKeyError};
use ivlan::util::{pk_from_stored, pk_from_string, pk_to_string, try_pk_from_string};

const ASCII85: &str = "}#szi2l$Fs2l$Fs2l$Fs2l$Fs2l$Fs2l$Fs2l$Fs";
const URL_SAFE: &str = "-_-_AQcHBwcHBwcHBwcHBwcHBwcHBwcHBwcHBwcHBwc=";

fn octets() -> [u8; 32] {
    let mut octets = [7u8; 32];
    octets[..4].copy_from_slice(&[0xfb, 0xff, 0xbf, 0x01]);
    octets
}

fn key() -> PublicKey {
    PublicKey::from_bytes(&octets()).unwrap()
}

/// Octets that name no point of the curve.
fn off_curve() -> [u8; 32] {
    let mut octets = [0u8; 32];
    octets[0] = 2;
    octets
}

const OFF_CURVE: &str = "AgAAAAAAAAAAAAAAAAAAAAAAAAAAAAAAAAAAAAAAAAA=";
const OFF_CURVE_ASCII85: &str = "0SSi200000000000000000000000000000000000";

#[test]
fn a_key_holds_the_octets_that_it_was_made_from() {
    assert_eq!(key().as_bytes(), &octets());
    assert_eq!(PublicKey::from_slice(&octets()).unwrap(), key());
}

#[test]
fn octets_that_are_no_key() {
    assert!(PublicKey::from_bytes(&off_curve()).is_err());
    assert!(matches!(PublicKey::from_slice(&[1; 31]), Err(KeyError::InvalidLength)));
    assert!(matches!(PublicKey::from_slice(&[1; 33]), Err(KeyError::InvalidLength)));
    assert!(matches!(PublicKey::from_slice(&off_curve()), Err(KeyError::InvalidKeyData(_))));
}

#[test]
fn the_key_of_a_secret_is_a_key() {
    let public = iroh_base::SecretKey::from_bytes(&[9; 32]).public();
    let key = PublicKey::from_bytes(public.as_bytes()).unwrap();
    assert_eq!(key.as_bytes(), public.as_bytes());
}

#[test]
fn a_remote_is_its_key() {
    let id = RemoteId::from(key());
    assert_eq!(PublicKey::from(id), key());
    assert_eq!(RemoteId::from(PublicKey::from(id)), id);
    assert_eq!(id.as_bytes(), &octets());
    assert_eq!(RemoteId::from_bytes(&octets()).unwrap(), id);
    assert!(RemoteId::from_bytes(&off_curve()).is_err());
}

#[test]
fn a_remote_is_shown_in_the_url_safe_alphabet() {
    let id = RemoteId::from(key());
    assert_eq!(id.to_string(), URL_SAFE);
    assert_eq!(id.to_string().len(), 44);
    assert_eq!(RemoteId::from_str(URL_SAFE).unwrap(), id);
}

#[test]
fn texts_that_name_no_remote() {
    let base64 = |text: &str| matches!(RemoteId::from_str(text), Err(RemoteIdParseError::Base64(_)));
    assert!(base64(ASCII85));
    assert!(base64(&URL_SAFE.replace('-', "+")));
    assert!(base64(&URL_SAFE.replace("wc=", "wd=")));
    assert!(base64("no key"));
    assert!(base64(&URL_SAFE[..43]));
    assert!(matches!(
        RemoteId::from_str(""),
        Err(RemoteIdParseError::Key(KeyError::InvalidLength))
    ));
    assert!(matches!(
        RemoteId::from_str("AQID"),
        Err(RemoteIdParseError::Key(KeyError::InvalidLength))
    ));
    assert!(matches!(
        RemoteId::from_str(OFF_CURVE),
        Err(RemoteIdParseError::Key(KeyError::InvalidKeyData(_)))
    ));
}

#[test]
fn a_remote_of_decoded_octets() {
    assert_eq!(RemoteId::from_decoded(Ok(octets().to_vec())).unwrap(), RemoteId::from(key()));
    assert!(matches!(
        RemoteId::from_decoded(Ok(vec![1; 5])),
        Err(RemoteIdParseError::Key(KeyError::InvalidLength))
    ));
    let error = base64::DecodeError::InvalidPadding;
    assert!(matches!(RemoteId::from_decoded(Err(error)), Err(RemoteIdParseError::Base64(_))));
}

#[test]
fn a_secret_key_is_stored_as_ascii85() {
    assert_eq!(sk_serde::serialize(&octets()), ASCII85);
    assert_eq!(sk_serde::serialize(&[0; 32]), "0".repeat(40));
    assert_eq!(sk_serde::serialize(&[255; 32]), "%nSc0".repeat(8));
    assert_eq!(sk_serde::deserialize(ASCII85), Ok(octets()));
    assert_eq!(sk_serde::deserialize(OFF_CURVE_ASCII85), Ok(off_curve()));
    assert_eq!(sk_serde::deserialize(URL_SAFE), Err(SecretKeyError::Ascii85));
    assert_eq!(sk_serde::deserialize(&ASCII85[..39]), Err(SecretKeyError::Ascii85));
    assert_eq!(sk_serde::deserialize(&ASCII85[..35]), Err(SecretKeyError::Length));
    assert_eq!(sk_serde::deserialize(""), Err(SecretKeyError::Length));
}

#[test]
fn any_secret_key_comes_back() {
    for seed in 0..=255u8 {
        let mut secret = [seed; 32];
        secret[3] = seed.wrapping_mul(7);
        assert_eq!(sk_serde::deserialize(&sk_serde::serialize(&secret)).unwrap(), secret);
    }
}

#[test]
fn octets_are_written_in_base_85() {
    let hello = [0x86, 0x4f, 0xd2, 0x6f, 0xb5, 0x59, 0xf7, 0x5b];
    assert_eq!(encode(&hello), "HelloWorld");
    assert_eq!(decode("HelloWorld"), Some(hello.to_vec()));
    assert_eq!(encode(&[]), "");
    assert_eq!(decode(""), Some(vec![]));
    assert_eq!(encode(&[1, 2, 3, 4]), "0rJua");
    assert_eq!(decode("%nSc0"), Some(vec![255; 4]));
}

#[test]
fn texts_that_are_not_in_base_85() {
    let texts = ["0", "0000", "000000", "%nSc1", "#####", "0000\"", "0000\\", "0000 ", "000\u{e4}"];
    for text in texts {
        assert_eq!(decode(text), None);
    }
}

#[test]
fn every_digit_comes_back() {
    let digits = "0123456789abcdefghijklmnopqrstuvwxyzABCDEFGHIJKLMNOPQRSTUVWXYZ.-:+=^!/*?&<>()[]{}@%$#";
    for (value, digit) in digits.chars().enumerate() {
        let text = format!("0000{digit}");
        assert_eq!(decode(&text), Some((value as u32).to_be_bytes().to_vec()));
        assert_eq!(encode(&(value as u32).to_be_bytes()), text);
    }
}

#[test]
fn a_public_key_is_stored_as_ascii85() {
    assert_eq!(pk_serde::serialize(&key()), ASCII85);
    assert_eq!(pk_serde::deserialize(ASCII85).unwrap(), key());
    assert!(matches!(pk_serde::deserialize(URL_SAFE), Err(PublicKeyError::Ascii85)));
    assert!(matches!(
        pk_serde::deserialize("0rJua"),
        Err(PublicKeyError::Key(KeyError::InvalidLength))
    ));
    assert!(matches!(
        pk_serde::deserialize(OFF_CURVE_ASCII85),
        Err(PublicKeyError::Key(KeyError::InvalidKeyData(_)))
    ));
}

#[test]
fn a_public_key_is_a_quoted_value() {
    assert_eq!(pk_to_string(&key()), format!("\"{ASCII85}\""));
}

#[test]
fn a_public_key_is_read_with_or_without_quotes() {
    assert_eq!(pk_from_string(&pk_to_string(&key())), key());
    assert_eq!(pk_from_string(ASCII85), key());
    assert_eq!(pk_from_string(&format!("\"\"{ASCII85}\"\"\"")), key());
    assert_eq!(try_pk_from_string(&format!("\"{ASCII85}")), Some(key()));
}

#[test]
fn a_public_key_is_read_through_escapes() {
    let escaped = ASCII85.replacen('$', "\\u0024", 1);
    assert_eq!(try_pk_from_string(&escaped), Some(key()));
}

#[test]
fn texts_that_are_no_public_key() {
    for text in ["", "\"\"", "no key", "a\"b", "\\", URL_SAFE, "0rJua", OFF_CURVE_ASCII85] {
        assert_eq!(try_pk_from_string(text), None);
    }
}

#[test]
fn a_public_key_of_a_stored_string() {
    assert_eq!(pk_from_stored(None), None);
    assert_eq!(pk_from_stored(Some("no key".to_string())), None);
    assert_eq!(pk_from_stored(Some(ASCII85.to_string())), Some(key()));
}
