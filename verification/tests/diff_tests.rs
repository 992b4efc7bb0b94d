//! The content-since diff engine.

use covalue_core::covalue::{CoValueHeader, CoValueUniqueness, Ruleset};
use covalue_core::crypto::SignerSecret;
use covalue_core::ids::{RawAccountID, RawCoID, SessionID};
use covalue_core::json::JsonValue;
use covalue_core::session::{SessionMap, Transaction, TransactionType};
use covalue_core::state::VerifiedState;
use covalue_core::sync::{CoValueKnownState, CountMap, SyncMessage};

fn build_state() -> VerifiedState {
    let header = CoValueHeader::new(
        b"comap".to_vec(),
        Ruleset::UnsafeAllowAll,
        None,
        CoValueUniqueness::new(b"u1".to_vec(), b"2024-01-01T00:00:00Z".to_vec()),
    );
    let id = header.id();
    VerifiedState::new(id, header, SessionMap::new())
}

fn sid(nonce: &str) -> SessionID {
    SessionID::new(
        RawAccountID::new(RawCoID::new(vec![1u8; 19])),
        nonce.as_bytes().to_vec(),
    )
}

fn append_one(state: &mut VerifiedState, secret: &SignerSecret, s: &SessionID, changes: Vec<u8>) {
    let signer = secret.verifying_key();
    let txs = vec![Transaction {
        made_at: 1,
        tx_type: TransactionType::Trusting { changes },
    }];
    let exp = state.expected_new_hash_after(s, &txs);
    let sig = secret.sign(&JsonValue::Text(exp.expected_new_hash.to_text()));
    state
        .try_add_transactions(s, &signer, &txs, &None, &sig, &None, &None)
        .unwrap();
}

fn content_pieces(msgs: &[SyncMessage]) -> Vec<(Option<bool>, Vec<(usize, usize, Vec<u8>)>)> {
    // per piece: whether it has a header, and per entry (after, count, sig)
    msgs.iter()
        .map(|m| match m {
            SyncMessage::NewContentMessage { header, new, .. } => {
                let mut entries = Vec::new();
                for i in 0..new.len() {
                    let (_, e) = new.entry_at(i);
                    entries.push((
                        e.after,
                        e.new_transactions.len(),
                        e.last_signature.as_bytes().clone(),
                    ));
                }
                (Some(header.is_some()), entries)
            }
            _ => (None, Vec::new()),
        })
        .collect()
}

#[test]
fn chunked_diff_respects_checkpoints() {
    let secret = SignerSecret::new(vec![7u8; 32]);
    let s1 = sid("s1");
    let mut state = build_state();
    for _ in 0..7 {
        append_one(&mut state, &secret, &s1, vec![9u8; 60_000]);
    }
    // checkpoints sit at indices 2, 4 and 6
    let msgs = state.new_content_since(&None).expect("content expected");
    assert!(msgs.len() >= 3);
    let pieces = content_pieces(&msgs);
    // only the first piece may carry the header
    assert_eq!(pieces[0].0, Some(true));
    for p in &pieces[1..] {
        assert_eq!(p.0, Some(false));
    }
    // the slices chain gap-free over the whole log and each ends at a
    // checkpoint or at the head, with the matching signature
    let log = state.session_log(&s1).unwrap();
    let slots = log.signature_after();
    let mut cursor = 0usize;
    let mut total = 0usize;
    for (_, entries) in &pieces {
        for (after, count, sig) in entries {
            assert_eq!(*after, cursor);
            cursor += count;
            total += count;
            let end = after + count;
            if end < log.transaction_count() {
                let expected = slots[end - 1].as_ref().expect("checkpoint expected");
                assert_eq!(sig, expected.as_bytes());
            } else {
                assert_eq!(sig, log.last_signature().as_bytes());
            }
        }
    }
    assert_eq!(total, 7);
    assert_eq!(cursor, log.transaction_count());
}

#[test]
fn piece_payloads_stay_bounded() {
    let secret = SignerSecret::new(vec![7u8; 32]);
    let s1 = sid("s1");
    let mut state = build_state();
    for _ in 0..7 {
        append_one(&mut state, &secret, &s1, vec![9u8; 60_000]);
    }
    let msgs = state.new_content_since(&None).expect("content expected");
    for m in &msgs {
        if let SyncMessage::NewContentMessage { new, .. } = m {
            let mut payload = 0usize;
            for i in 0..new.len() {
                let (_, e) = new.entry_at(i);
                for tx in &e.new_transactions {
                    payload += tx.payload_len();
                }
            }
            // within the budget plus the transaction that breached it
            assert!(payload <= covalue_core::MAX_RECOMMENDED_TX_SIZE + 2 * 60_000);
        }
    }
}

#[test]
fn diff_against_partial_known_state_is_minimal() {
    let secret = SignerSecret::new(vec![7u8; 32]);
    let s1 = sid("s1");
    let mut state = build_state();
    for i in 0..5u8 {
        append_one(&mut state, &secret, &s1, vec![i; 10]);
    }
    // the peer already has the header and the first three transactions
    let mut counts = CountMap::new();
    counts.set(&s1, 3);
    let peer = CoValueKnownState::new(state.id().duplicate(), true, counts);
    let msgs = state.new_content_since(&Some(peer)).expect("content expected");
    let pieces = content_pieces(&msgs);
    let mut cursor = 3usize;
    for (hdr, entries) in &pieces {
        assert_eq!(*hdr, Some(false));
        for (after, count, _) in entries {
            assert!(*after >= 3, "peer-known transactions must not be resent");
            assert_eq!(*after, cursor);
            cursor += count;
        }
    }
    assert_eq!(cursor, 5);
}

#[test]
fn diff_completeness_applies_to_peer_state() {
    let secret = SignerSecret::new(vec![7u8; 32]);
    let s1 = sid("a");
    let s2 = sid("b");
    let mut state = build_state();
    for i in 0..4u8 {
        append_one(&mut state, &secret, &s1, vec![i; 8]);
    }
    for i in 0..2u8 {
        append_one(&mut state, &secret, &s2, vec![i; 8]);
    }
    let msgs = state.new_content_since(&None).expect("content expected");
    // replay the entries of each session against a count starting at zero
    for s in [&s1, &s2] {
        let mut count = 0usize;
        for m in &msgs {
            if let SyncMessage::NewContentMessage { new, .. } = m {
                if let Some(e) = new.get_entry(s) {
                    assert_eq!(e.after, count);
                    count += e.new_transactions.len();
                }
            }
        }
        let expect = state.session_log(s).unwrap().transaction_count();
        assert_eq!(count, expect);
    }
}

#[test]
fn nothing_to_send_when_peer_knows_all_of_empty_state() {
    let mut state = build_state();
    let peer = CoValueKnownState::new(state.id().duplicate(), true, CountMap::new());
    assert!(state.new_content_since(&Some(peer)).is_none());
    // a peer without the header still gets it
    let msgs = state.new_content_since(&None).expect("header piece expected");
    assert_eq!(msgs.len(), 1);
    match &msgs[0] {
        SyncMessage::NewContentMessage { header, new, .. } => {
            assert!(header.is_some());
            assert_eq!(new.len(), 0);
        }
        _ => panic!("expected a content message"),
    }
}

#[test]
fn empty_peer_answer_is_memoised() {
    let secret = SignerSecret::new(vec![7u8; 32]);
    let s1 = sid("s1");
    let mut state = build_state();
    append_one(&mut state, &secret, &s1, vec![1; 4]);
    let a = state.new_content_since(&None).expect("content expected");
    let b = state.new_content_since(&None).expect("content expected");
    assert_eq!(content_pieces(&a), content_pieces(&b));
    // an append invalidates the memo
    append_one(&mut state, &secret, &s1, vec![2; 4]);
    let c = state.new_content_since(&None).expect("content expected");
    assert_ne!(content_pieces(&a), content_pieces(&c));
}
