//! The wire codec: decode inverts encode for every message kind.

use covalue_core::codec::{decode_sync_message, encode_sync_message};
use covalue_core::covalue::{CoValueHeader, CoValueUniqueness, Ruleset};
use covalue_core::crypto::{Signature, SignerSecret};
use covalue_core::ids::{RawAccountID, RawCoID, SessionID};
use covalue_core::json::JsonValue;
use covalue_core::session::{Transaction, TransactionType};
use covalue_core::sync::{
    CoValueKnownState, ContentMap, CountMap, SessionNewContent, SyncMessage,
};
use covalue_core::CoValuePriority;

fn sid(nonce: &str) -> SessionID {
    SessionID::new(
        RawAccountID::new(RawCoID::new(vec![1u8; 19])),
        nonce.as_bytes().to_vec(),
    )
}

fn known_state() -> CoValueKnownState {
    let mut counts = CountMap::new();
    counts.set(&sid("s1"), 3);
    counts.set(&sid("s2"), 7);
    CoValueKnownState::new(RawCoID::new(vec![2u8; 19]), true, counts)
}

fn some_signature() -> Signature {
    SignerSecret::new(vec![7u8; 32]).sign(&JsonValue::Null)
}

fn assert_known_states_equal(a: &CoValueKnownState, b: &CoValueKnownState) {
    assert_eq!(a.id.as_bytes(), b.id.as_bytes());
    assert_eq!(a.header, b.header);
    assert_eq!(a.sessions.len(), b.sessions.len());
    for i in 0..a.sessions.len() {
        let (s, c) = a.sessions.entry_at(i);
        assert_eq!(b.sessions.get(s), Some(c));
    }
}

#[test]
fn load_message_round_trip() {
    let m = SyncMessage::LoadMessage { known_state: known_state() };
    let wire = encode_sync_message(&m);
    let back = decode_sync_message(&wire).expect("decodes");
    match (&m, &back) {
        (
            SyncMessage::LoadMessage { known_state: a },
            SyncMessage::LoadMessage { known_state: b },
        ) => assert_known_states_equal(a, b),
        _ => panic!("kind changed across the wire"),
    }
}

#[test]
fn known_message_round_trip() {
    let m = SyncMessage::KnownStateMessage {
        as_dependency_of: Some(RawCoID::new(vec![9u8; 19])),
        is_correction: Some(true),
        known_state: known_state(),
    };
    let wire = encode_sync_message(&m);
    let back = decode_sync_message(&wire).expect("decodes");
    match (&m, &back) {
        (
            SyncMessage::KnownStateMessage {
                as_dependency_of: da,
                is_correction: ca,
                known_state: a,
            },
            SyncMessage::KnownStateMessage {
                as_dependency_of: db,
                is_correction: cb,
                known_state: b,
            },
        ) => {
            assert_eq!(
                da.as_ref().map(|x| x.as_bytes().clone()),
                db.as_ref().map(|x| x.as_bytes().clone())
            );
            assert_eq!(ca, cb);
            assert_known_states_equal(a, b);
        }
        _ => panic!("kind changed across the wire"),
    }
}

#[test]
fn known_message_without_options_round_trip() {
    let m = SyncMessage::KnownStateMessage {
        as_dependency_of: None,
        is_correction: None,
        known_state: known_state(),
    };
    let wire = encode_sync_message(&m);
    let back = decode_sync_message(&wire).expect("decodes");
    match &back {
        SyncMessage::KnownStateMessage { as_dependency_of, is_correction, .. } => {
            assert!(as_dependency_of.is_none());
            assert!(is_correction.is_none());
        }
        _ => panic!("kind changed across the wire"),
    }
}

#[test]
fn content_message_round_trip() {
    let header = CoValueHeader::new(
        b"group".to_vec(),
        Ruleset::Group { initial_admin: RawAccountID::new(RawCoID::new(vec![4u8; 19])) },
        None,
        CoValueUniqueness::new(b"u1".to_vec(), b"2024-01-01T00:00:00Z".to_vec()),
    );
    let mut new = ContentMap::new();
    new.set(
        &sid("s1"),
        SessionNewContent {
            after: 2,
            new_transactions: vec![
                Transaction {
                    made_at: 11,
                    tx_type: TransactionType::Trusting { changes: vec![1, 2, 3] },
                },
                Transaction {
                    made_at: 12,
                    tx_type: TransactionType::Private {
                        key_used: vec![5],
                        encrypted_changes: vec![6, 7],
                    },
                },
            ],
            last_signature: some_signature(),
        },
    );
    let m = SyncMessage::NewContentMessage {
        id: RawCoID::new(vec![2u8; 19]),
        header: Some(header),
        priority: CoValuePriority::High,
        new,
    };
    let wire = encode_sync_message(&m);
    let back = decode_sync_message(&wire).expect("decodes");
    match &back {
        SyncMessage::NewContentMessage { id, header, priority, new } => {
            assert_eq!(id.as_bytes(), &vec![2u8; 19]);
            assert_eq!(*priority, CoValuePriority::High);
            let h = header.as_ref().expect("header kept");
            // the ruleset discriminator stands as the wire type
            assert_eq!(h.value_type(), &b"group".to_vec());
            match h.ruleset() {
                Ruleset::Group { initial_admin } => {
                    assert_eq!(initial_admin.raw().as_bytes(), &vec![4u8; 19]);
                }
                _ => panic!("ruleset changed across the wire"),
            }
            let entry = new.get_entry(&sid("s1")).expect("entry kept");
            assert_eq!(entry.after, 2);
            assert_eq!(entry.new_transactions.len(), 2);
            assert_eq!(entry.new_transactions[0].made_at, 11);
            match &entry.new_transactions[1].tx_type {
                TransactionType::Private { key_used, encrypted_changes } => {
                    assert_eq!(key_used, &vec![5]);
                    assert_eq!(encrypted_changes, &vec![6, 7]);
                }
                _ => panic!("privacy changed across the wire"),
            }
            assert_eq!(
                entry.last_signature.as_bytes(),
                some_signature().as_bytes()
            );
        }
        _ => panic!("kind changed across the wire"),
    }
}

#[test]
fn done_message_round_trip() {
    let m = SyncMessage::DoneMessage { id: RawCoID::new(vec![8u8; 19]) };
    let wire = encode_sync_message(&m);
    match decode_sync_message(&wire) {
        Some(SyncMessage::DoneMessage { id }) => assert_eq!(id.as_bytes(), &vec![8u8; 19]),
        _ => panic!("kind changed across the wire"),
    }
}

#[test]
fn wire_text_is_canonical_json() {
    let m = SyncMessage::DoneMessage { id: RawCoID::new(vec![1, 2]) };
    let wire = encode_sync_message(&m);
    let text = covalue_core::json::json_to_bytes(&wire);
    let expected = "{\n  \"action\": \"done\",\n  \"id\": [\n    1,\n    2\n  ]\n}";
    assert_eq!(String::from_utf8(text).unwrap(), expected);
}

#[test]
fn garbage_wire_values_are_rejected() {
    assert!(decode_sync_message(&JsonValue::Null).is_none());
    assert!(decode_sync_message(&JsonValue::Obj(vec![])).is_none());
    let bad_action = JsonValue::Obj(vec![(
        b"action".to_vec(),
        JsonValue::Text(b"nonsense".to_vec()),
    )]);
    assert!(decode_sync_message(&bad_action).is_none());
}

#[test]
fn decoder_rejects_values_that_do_not_reencode() {
    // extra keys survive lenient reading but fail the exact-layout check
    let m = SyncMessage::DoneMessage { id: RawCoID::new(vec![8u8; 19]) };
    let wire = encode_sync_message(&m);
    match wire {
        JsonValue::Obj(mut entries) => {
            entries.push((b"extra".to_vec(), JsonValue::Null));
            assert!(decode_sync_message(&JsonValue::Obj(entries)).is_none());
        }
        _ => panic!("wire form must be an object"),
    }
}
