//! The verify-and-append pipeline.

use covalue_core::covalue::{CoValueHeader, CoValueUniqueness, Ruleset};
use covalue_core::crypto::{Signature, SignerSecret};
use covalue_core::ids::{RawAccountID, RawCoID, SessionID};
use covalue_core::json::JsonValue;
use covalue_core::session::{SessionMap, Transaction, TransactionType};
use covalue_core::state::VerifiedState;

fn fresh_state() -> VerifiedState {
    let header = CoValueHeader::new(
        b"comap".to_vec(),
        Ruleset::UnsafeAllowAll,
        None,
        CoValueUniqueness::new(b"u1".to_vec(), b"2024-01-01T00:00:00Z".to_vec()),
    );
    let id = header.id();
    VerifiedState::new(id, header, SessionMap::new())
}

fn session(nonce: &str) -> SessionID {
    SessionID::new(
        RawAccountID::new(RawCoID::new(vec![1u8; 19])),
        nonce.as_bytes().to_vec(),
    )
}

fn trusting(changes: &[u8]) -> Transaction {
    Transaction { made_at: 1, tx_type: TransactionType::Trusting { changes: changes.to_vec() } }
}

fn sign_head(secret: &SignerSecret, expected: &covalue_core::crypto::Hash) -> Signature {
    secret.sign(&JsonValue::Text(expected.to_text()))
}

#[test]
fn single_trusting_append() {
    let secret = SignerSecret::new(vec![7u8; 32]);
    let signer = secret.verifying_key();
    let mut state = fresh_state();
    let sid = session("s1");
    let txs = vec![trusting(b"abc")];
    let exp = state.expected_new_hash_after(&sid, &txs);
    let sig = sign_head(&secret, &exp.expected_new_hash);
    let r = state.try_add_transactions(&sid, &signer, &txs, &None, &sig, &None, &None);
    assert!(r.is_ok());

    let ks = state.known_state();
    assert!(ks.header);
    assert_eq!(ks.sessions.get(&sid), Some(1));

    let msgs = state.new_content_since(&None).expect("content expected");
    assert_eq!(msgs.len(), 1);
    match &msgs[0] {
        covalue_core::sync::SyncMessage::NewContentMessage { id, header, new, .. } => {
            assert_eq!(id.as_bytes(), state.id().as_bytes());
            assert!(header.is_some());
            let entry = new.get_entry(&sid).expect("session entry expected");
            assert_eq!(entry.after, 0);
            assert_eq!(entry.new_transactions.len(), 1);
            assert_eq!(entry.last_signature.as_bytes(), sig.as_bytes());
        }
        _ => panic!("expected a content message"),
    }
}

#[test]
fn chain_continuity_after_append() {
    let secret = SignerSecret::new(vec![7u8; 32]);
    let signer = secret.verifying_key();
    let mut state = fresh_state();
    let sid = session("s1");
    let txs = vec![trusting(b"abc")];
    let exp = state.expected_new_hash_after(&sid, &txs);
    let sig = sign_head(&secret, &exp.expected_new_hash);
    state
        .try_add_transactions(&sid, &signer, &txs, &None, &sig, &None, &None)
        .unwrap();
    let log = state.session_log(&sid).expect("session exists");
    // the stored head hash equals the digest of the canonical transcript
    let tx_bytes = trusting(b"abc").canonical_bytes();
    let digest = blake3::hash(&tx_bytes);
    match log.last_hash() {
        Some(h) => assert_eq!(h.as_bytes().as_slice(), digest.as_bytes()),
        None => panic!("head hash expected"),
    }
    // and the head signature verifies against the textual form of that hash
    let text = exp.expected_new_hash.to_text();
    assert!(signer
        .verify(&JsonValue::Text(text), log.last_signature())
        .is_ok());
}

#[test]
fn hash_mismatch_rejected() {
    let secret = SignerSecret::new(vec![7u8; 32]);
    let signer = secret.verifying_key();
    let mut state = fresh_state();
    let sid = session("s1");
    let txs = vec![trusting(b"abc")];
    let bogus = covalue_core::crypto::Hash::from_bytes(vec![0u8; 32]);
    let exp = state.expected_new_hash_after(&sid, &txs);
    let sig = sign_head(&secret, &exp.expected_new_hash);
    let r = state.try_add_transactions(&sid, &signer, &txs, &Some(bogus), &sig, &None, &None);
    match r {
        Err(covalue_core::errors::CoValueError::HashMismatch { expected, actual, .. }) => {
            assert_eq!(expected.as_bytes(), &vec![0u8; 32]);
            assert_eq!(actual.as_bytes(), exp.expected_new_hash.as_bytes());
        }
        _ => panic!("expected a hash mismatch"),
    }
    // the state is unchanged
    assert!(state.session_log(&sid).is_none());
    assert_eq!(state.known_state().sessions.len(), 0);
}

#[test]
fn invalid_signature_rejected() {
    let secret = SignerSecret::new(vec![7u8; 32]);
    let other = SignerSecret::new(vec![8u8; 32]);
    let signer = secret.verifying_key();
    let mut state = fresh_state();
    let sid = session("s1");
    let txs = vec![trusting(b"abc")];
    let exp = state.expected_new_hash_after(&sid, &txs);
    let sig = sign_head(&other, &exp.expected_new_hash);
    let r = state.try_add_transactions(&sid, &signer, &txs, &None, &sig, &None, &None);
    assert!(matches!(
        r,
        Err(covalue_core::errors::CoValueError::SignatureInvalid)
    ));
    assert!(state.session_log(&sid).is_none());
}

#[test]
fn skip_verify_replays_trusted_values() {
    let secret = SignerSecret::new(vec![7u8; 32]);
    let signer = secret.verifying_key();
    let mut state = fresh_state();
    let sid = session("s1");
    let txs = vec![trusting(b"abc")];
    let exp = state.expected_new_hash_after(&sid, &txs);
    let sig = sign_head(&secret, &exp.expected_new_hash);
    let given_hash = Some(covalue_core::crypto::Hash::from_bytes(exp.expected_new_hash.as_bytes().clone()));
    let given_hasher = Some(exp.new_streaming_hash.clone_state());
    let r = state.try_add_transactions(
        &sid,
        &signer,
        &txs,
        &given_hash,
        &sig,
        &Some(true),
        &given_hasher,
    );
    assert!(r.is_ok());
    assert_eq!(state.known_state().sessions.get(&sid), Some(1));
}

#[test]
fn appends_to_distinct_sessions_are_independent() {
    let secret = SignerSecret::new(vec![7u8; 32]);
    let signer = secret.verifying_key();
    let mut state = fresh_state();
    for nonce in ["s1", "s2"] {
        let sid = session(nonce);
        let txs = vec![trusting(nonce.as_bytes())];
        let exp = state.expected_new_hash_after(&sid, &txs);
        let sig = sign_head(&secret, &exp.expected_new_hash);
        state
            .try_add_transactions(&sid, &signer, &txs, &None, &sig, &None, &None)
            .unwrap();
    }
    let ks = state.known_state();
    assert_eq!(ks.sessions.len(), 2);
    assert_eq!(ks.sessions.get(&session("s1")), Some(1));
    assert_eq!(ks.sessions.get(&session("s2")), Some(1));
}

#[test]
fn streaming_hash_matches_one_shot() {
    let mut h = covalue_core::crypto::StreamingHash::new();
    h.update(&b"hello ".to_vec());
    h.update(&b"world".to_vec());
    let digest = h.digest();
    assert_eq!(
        digest.as_bytes().as_slice(),
        blake3::hash(b"hello world").as_bytes()
    );
}
