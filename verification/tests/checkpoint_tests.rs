//! Intermediate signature checkpoints.

use covalue_core::covalue::{CoValueHeader, CoValueUniqueness, Ruleset};
use covalue_core::crypto::SignerSecret;
use covalue_core::ids::{RawAccountID, RawCoID, SessionID};
use covalue_core::json::JsonValue;
use covalue_core::session::{SessionMap, Transaction, TransactionType};
use covalue_core::state::VerifiedState;

fn build_state() -> VerifiedState {
    let header = CoValueHeader::new(
        b"comap".to_vec(),
        Ruleset::UnsafeAllowAll,
        None,
        CoValueUniqueness::new(b"u1".to_vec(), b"2024-01-01T00:00:00Z".to_vec()),
    );
    let id = header.id();
    VerifiedState::new(id, header, SessionMap::new())
}

fn append_one(
    state: &mut VerifiedState,
    secret: &SignerSecret,
    sid: &SessionID,
    changes: Vec<u8>,
) {
    let signer = secret.verifying_key();
    let txs = vec![Transaction {
        made_at: 1,
        tx_type: TransactionType::Trusting { changes },
    }];
    let exp = state.expected_new_hash_after(sid, &txs);
    let sig = secret.sign(&JsonValue::Text(exp.expected_new_hash.to_text()));
    state
        .try_add_transactions(sid, &signer, &txs, &None, &sig, &None, &None)
        .unwrap();
}

#[test]
fn checkpoint_formation_over_many_small_transactions() {
    let secret = SignerSecret::new(vec![7u8; 32]);
    let sid = SessionID::new(
        RawAccountID::new(RawCoID::new(vec![1u8; 19])),
        b"s1".to_vec(),
    );
    let mut state = build_state();
    for i in 0..1200u32 {
        let mut changes = vec![0u8; 100];
        changes[0] = (i % 251) as u8;
        append_one(&mut state, &secret, &sid, changes);
    }
    let log = state.session_log(&sid).unwrap();
    assert_eq!(log.transaction_count(), 1200);
    let slots = log.signature_after();
    // the unsigned tail, which never counts the first transaction, first
    // exceeds 100 KiB of payload at index 1025, and does not again within
    // 1,200 transactions
    for (i, slot) in slots.iter().enumerate() {
        if i == 1025 {
            assert!(slot.is_some());
        } else {
            assert!(slot.is_none());
        }
    }
}

#[test]
fn checkpoint_density_between_adjacent_checkpoints() {
    // 60 KB transactions force a checkpoint every other append
    let secret = SignerSecret::new(vec![7u8; 32]);
    let sid = SessionID::new(
        RawAccountID::new(RawCoID::new(vec![1u8; 19])),
        b"s1".to_vec(),
    );
    let mut state = build_state();
    for _ in 0..7 {
        append_one(&mut state, &secret, &sid, vec![9u8; 60_000]);
    }
    let log = state.session_log(&sid).unwrap();
    let slots = log.signature_after();
    let populated: Vec<usize> = slots
        .iter()
        .enumerate()
        .filter_map(|(i, s)| s.as_ref().map(|_| i))
        .collect();
    assert_eq!(populated, vec![2, 4, 6]);
    // between adjacent populated indices i < j, the payload in (i .. j]
    // stays within the threshold plus the single transaction at j
    for w in populated.windows(2) {
        let (i, j) = (w[0], w[1]);
        let between: usize = ((i + 1)..=j).map(|_| 60_000usize).sum();
        assert!(between <= covalue_core::MAX_RECOMMENDED_TX_SIZE + 60_000);
    }
}
