//! Textual encodings and their round trips.

use covalue_core::crypto::{ShortHash, Signature, SignerID, SignerSecret};
use covalue_core::ids::{RawAccountID, RawCoID, SessionID};

#[test]
fn hash_text_round_trip() {
    let h = covalue_core::crypto::Hash::from_bytes((0..32u8).collect());
    let text = h.to_text();
    assert!(String::from_utf8(text.clone()).unwrap().starts_with("hash_z"));
    let parsed = covalue_core::crypto::Hash::from_text(&text).unwrap();
    assert_eq!(parsed.as_bytes(), h.as_bytes());
}

#[test]
fn short_hash_text_round_trip() {
    let h = ShortHash::truncating(&covalue_core::crypto::Hash::from_bytes(vec![5u8; 32]));
    let text = h.to_text();
    assert!(String::from_utf8(text.clone())
        .unwrap()
        .starts_with("shortHash_z"));
    let parsed = ShortHash::from_text(&text).unwrap();
    assert_eq!(parsed.as_bytes(), h.as_bytes());
}

#[test]
fn raw_co_id_text_round_trip() {
    let id = RawCoID::new(vec![3u8; 19]);
    let text = id.to_text();
    assert!(String::from_utf8(text.clone()).unwrap().starts_with("co_z"));
    let parsed = RawCoID::from_text(&text).unwrap();
    assert_eq!(parsed.as_bytes(), id.as_bytes());
}

#[test]
fn raw_co_id_text_truncates_to_nineteen_bytes() {
    let long = RawCoID::new((0..32u8).collect());
    let short = RawCoID::new((0..19u8).collect());
    assert_eq!(long.to_text(), short.to_text());
}

#[test]
fn signer_id_text_round_trip() {
    let signer = SignerSecret::new(vec![7u8; 32]).verifying_key();
    let text = signer.to_text();
    assert!(String::from_utf8(text.clone())
        .unwrap()
        .starts_with("signer_z"));
    let parsed = SignerID::from_text(&text).unwrap();
    assert_eq!(parsed.as_bytes(), signer.as_bytes());
}

#[test]
fn signer_secret_text_round_trip() {
    let secret = SignerSecret::new(vec![7u8; 32]);
    let text = secret.to_text();
    assert!(String::from_utf8(text.clone())
        .unwrap()
        .starts_with("signerSecret_z"));
    let parsed = SignerSecret::from_text(&text).unwrap();
    assert_eq!(parsed.as_bytes(), secret.as_bytes());
}

#[test]
fn signature_text_round_trip() {
    let secret = SignerSecret::new(vec![7u8; 32]);
    let sig = secret.sign(&covalue_core::json::JsonValue::Null);
    let text = sig.to_text();
    assert!(String::from_utf8(text.clone())
        .unwrap()
        .starts_with("signature_z"));
    let parsed = Signature::from_text(&text).unwrap();
    assert_eq!(parsed.as_bytes(), sig.as_bytes());
}

#[test]
fn base58_matches_reference_encoder() {
    let h = covalue_core::crypto::Hash::from_bytes((0..32u8).collect());
    let text = String::from_utf8(h.to_text()).unwrap();
    let expected = format!("hash_z{}", bs58::encode((0..32u8).collect::<Vec<u8>>()).into_string());
    assert_eq!(text, expected);
}

#[test]
fn malformed_texts_are_rejected() {
    // missing prefix
    assert!(covalue_core::crypto::Hash::from_text(&b"nope".to_vec()).is_err());
    // invalid Base58 (zero is not in the alphabet)
    assert!(covalue_core::crypto::Hash::from_text(&b"hash_z0".to_vec()).is_err());
    // wrong payload length
    let short = covalue_core::crypto::Hash::from_bytes(vec![1u8; 32]);
    let mut text = short.to_text();
    text.truncate(10);
    assert!(covalue_core::crypto::Hash::from_text(&text).is_err());
    // a signature text does not parse as a hash
    let secret = SignerSecret::new(vec![7u8; 32]);
    let sig = secret.sign(&covalue_core::json::JsonValue::Null);
    assert!(covalue_core::crypto::Hash::from_text(&sig.to_text()).is_err());
}

#[test]
fn signature_verification_round_trip() {
    let secret = SignerSecret::new(vec![7u8; 32]);
    let signer = secret.verifying_key();
    let msg = covalue_core::json::JsonValue::Text(b"hello".to_vec());
    let sig = secret.sign(&msg);
    assert!(signer.verify(&msg, &sig).is_ok());
    let other = covalue_core::json::JsonValue::Text(b"hellp".to_vec());
    assert!(signer.verify(&other, &sig).is_err());
    assert!(secret.verify(&msg, &sig).is_ok());
}

#[test]
fn session_id_text_round_trip() {
    let sid = SessionID::new(
        RawAccountID::new(RawCoID::new(vec![3u8; 19])),
        b"nonce-1".to_vec(),
    );
    let text = sid.to_text();
    let rendered = String::from_utf8(text.clone()).unwrap();
    assert!(rendered.starts_with("co_z"));
    assert!(rendered.contains("_session_z"));
    let parsed = SessionID::from_text(&text).unwrap();
    assert_eq!(parsed.account().raw().as_bytes(), sid.account().raw().as_bytes());
    assert_eq!(parsed.nonce(), sid.nonce());
}

#[test]
fn session_id_text_keeps_separator_bearing_nonces() {
    // a nonce containing the separator itself still round-trips, because
    // parsing splits at the first occurrence, inside the rendered prefix
    let sid = SessionID::new(
        RawAccountID::new(RawCoID::new(vec![9u8; 19])),
        b"a_session_zb".to_vec(),
    );
    let text = sid.to_text();
    let parsed = SessionID::from_text(&text).unwrap();
    assert_eq!(parsed.nonce(), sid.nonce());
}

#[test]
fn malformed_session_id_texts_are_rejected() {
    // no separator at all
    assert!(SessionID::from_text(&b"co_zabc".to_vec()).is_err());
    // a separator, but no CoValue ID before it
    assert!(SessionID::from_text(&b"nope_session_zn".to_vec()).is_err());
}
