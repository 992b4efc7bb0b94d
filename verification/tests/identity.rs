//! CoValue identity derivation.

use covalue_core::covalue::{CoValueHeader, CoValueUniqueness, Ruleset};

fn header_with_uniqueness(u: &str) -> CoValueHeader {
    CoValueHeader::new(
        b"comap".to_vec(),
        Ruleset::UnsafeAllowAll,
        None,
        CoValueUniqueness::new(u.as_bytes().to_vec(), b"2024-01-01T00:00:00Z".to_vec()),
    )
}

#[test]
fn identity_is_stable() {
    let h1 = header_with_uniqueness("u1");
    let h2 = header_with_uniqueness("u1");
    let id1 = h1.id();
    let id2 = h2.id();
    assert_eq!(id1.as_bytes(), id2.as_bytes());
    assert_eq!(id1.as_bytes().len(), 19);
}

#[test]
fn identity_changes_with_uniqueness() {
    let h1 = header_with_uniqueness("u1");
    let h2 = header_with_uniqueness("u2");
    assert_ne!(h1.id().as_bytes(), h2.id().as_bytes());
}

#[test]
fn identity_is_short_hash_of_canonical_json() {
    let h = header_with_uniqueness("u1");
    let canon = covalue_core::json::json_to_bytes(&h.to_json());
    let digest = blake3::hash(&canon);
    assert_eq!(h.id().as_bytes().as_slice(), &digest.as_bytes()[..19]);
}

#[test]
fn header_canonical_json_fixture() {
    let h = header_with_uniqueness("u1");
    let canon = covalue_core::json::json_to_bytes(&h.to_json());
    let expected = "{\n  \"createdAt\": \"2024-01-01T00:00:00Z\",\n  \"meta\": null,\n  \"type\": \"unsafeAllowAll\",\n  \"uniqueness\": \"u1\"\n}";
    assert_eq!(String::from_utf8(canon).unwrap(), expected);
}

#[test]
fn transaction_canonical_json_fixture() {
    let tx = covalue_core::session::Transaction {
        made_at: 5,
        tx_type: covalue_core::session::TransactionType::Trusting { changes: vec![1, 2] },
    };
    let canon = tx.canonical_bytes();
    let expected = "{\n  \"changes\": [\n    1,\n    2\n  ],\n  \"madeAt\": 5,\n  \"privacy\": \"trusting\"\n}";
    assert_eq!(String::from_utf8(canon).unwrap(), expected);
}

#[test]
fn private_transaction_canonical_json_fixture() {
    let tx = covalue_core::session::Transaction {
        made_at: 7,
        tx_type: covalue_core::session::TransactionType::Private {
            key_used: vec![9],
            encrypted_changes: vec![3],
        },
    };
    let canon = tx.canonical_bytes();
    let expected = "{\n  \"encryptedChanges\": [\n    3\n  ],\n  \"keyUsed\": [\n    9\n  ],\n  \"madeAt\": 7,\n  \"privacy\": \"private\"\n}";
    assert_eq!(String::from_utf8(canon).unwrap(), expected);
}
