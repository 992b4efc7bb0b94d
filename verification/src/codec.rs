//! The wire form of sync messages.
//!
//! A message is carried as canonical JSON.  Tagged unions use a named
//! discriminator (`action` for messages, `type` for rulesets, `privacy`
//! for transactions) and flatten their payload fields into the parent
//! object; the per-session mappings are carried as arrays of entries, each
//! holding the session's account bytes and nonce beside its payload.
//! `encode_sync_message` is verified to produce exactly the model form
//! `msg_json` describes; `decode_sync_message` accepts exactly that
//! layout.

use vstd::prelude::*;

use crate::covalue::{header_json, CoValueHeader, CoValueUniqueness, Ruleset};
use crate::crypto::{Signature, SIGNATURE_LENGTH};
use crate::ids::{RawAccountID, RawCoID, SessionID};
use crate::json::{bytes_json, json_bytes_array, json_view_entries, json_view_items, JsonV, JsonValue};
use crate::priority::CoValuePriority;
use crate::session::{tx_json, Transaction, TransactionType, TransactionV};
use crate::smap::SidV;
use crate::sync::{
    CoValueKnownState, ContentMap, CountMap, SessionNewContent, SessionNewContentV, SyncMessage,
    SyncMessageV,
};

verus! {

/// The key `action`.
pub open spec fn key_action() -> Seq<u8> {
    seq![97u8, 99u8, 116u8, 105u8, 111u8, 110u8]
}

/// The key `header`.
pub open spec fn key_header() -> Seq<u8> {
    seq![104u8, 101u8, 97u8, 100u8, 101u8, 114u8]
}

/// The key `id`.
pub open spec fn key_id() -> Seq<u8> {
    seq![105u8, 100u8]
}

/// The key `sessions`.
pub open spec fn key_sessions() -> Seq<u8> {
    seq![115u8, 101u8, 115u8, 115u8, 105u8, 111u8, 110u8, 115u8]
}

/// The key `asDependencyOf`.
pub open spec fn key_as_dependency_of() -> Seq<u8> {
    seq![97u8, 115u8, 68u8, 101u8, 112u8, 101u8, 110u8, 100u8, 101u8, 110u8, 99u8, 121u8, 79u8,
        102u8]
}

/// The key `isCorrection`.
pub open spec fn key_is_correction() -> Seq<u8> {
    seq![105u8, 115u8, 67u8, 111u8, 114u8, 114u8, 101u8, 99u8, 116u8, 105u8, 111u8, 110u8]
}

/// The key `new`.
pub open spec fn key_new() -> Seq<u8> {
    seq![110u8, 101u8, 119u8]
}

/// The key `priority`.
pub open spec fn key_priority() -> Seq<u8> {
    seq![112u8, 114u8, 105u8, 111u8, 114u8, 105u8, 116u8, 121u8]
}

/// The key `account`.
pub open spec fn key_account() -> Seq<u8> {
    seq![97u8, 99u8, 99u8, 111u8, 117u8, 110u8, 116u8]
}

/// The key `nonce`.
pub open spec fn key_nonce() -> Seq<u8> {
    seq![110u8, 111u8, 110u8, 99u8, 101u8]
}

/// The key `count`.
pub open spec fn key_count() -> Seq<u8> {
    seq![99u8, 111u8, 117u8, 110u8, 116u8]
}

/// The key `after`.
pub open spec fn key_after() -> Seq<u8> {
    seq![97u8, 102u8, 116u8, 101u8, 114u8]
}

/// The key `lastSignature`.
pub open spec fn key_last_signature() -> Seq<u8> {
    seq![108u8, 97u8, 115u8, 116u8, 83u8, 105u8, 103u8, 110u8, 97u8, 116u8, 117u8, 114u8, 101u8]
}

/// The key `newTransactions`.
pub open spec fn key_new_transactions() -> Seq<u8> {
    seq![110u8, 101u8, 119u8, 84u8, 114u8, 97u8, 110u8, 115u8, 97u8, 99u8, 116u8, 105u8, 111u8,
        110u8, 115u8]
}

/// The tag `load`.
pub open spec fn tag_load() -> Seq<u8> {
    seq![108u8, 111u8, 97u8, 100u8]
}

/// The tag `known`.
pub open spec fn tag_known() -> Seq<u8> {
    seq![107u8, 110u8, 111u8, 119u8, 110u8]
}

/// The tag `content`.
pub open spec fn tag_content() -> Seq<u8> {
    seq![99u8, 111u8, 110u8, 116u8, 101u8, 110u8, 116u8]
}

/// The tag `done`.
pub open spec fn tag_done() -> Seq<u8> {
    seq![100u8, 111u8, 110u8, 101u8]
}

/// One session-count entry on the wire.
pub open spec fn count_entry_json(e: (SidV, usize)) -> JsonV {
    JsonV::Obj(
        seq![
            (key_account(), bytes_json(e.0.0)),
            (key_count(), JsonV::UInt(e.1 as u64)),
            (key_nonce(), bytes_json(e.0.1)),
        ],
    )
}

/// The wire form of a per-session count mapping.
pub open spec fn counts_json(s: Seq<(SidV, usize)>) -> JsonV {
    JsonV::Arr(s.map_values(|e: (SidV, usize)| count_entry_json(e)))
}

/// One session-content entry on the wire.
pub open spec fn content_entry_json(e: (SidV, SessionNewContentV)) -> JsonV {
    JsonV::Obj(
        seq![
            (key_account(), bytes_json(e.0.0)),
            (key_after(), JsonV::UInt(e.1.after as u64)),
            (key_last_signature(), bytes_json(e.1.last_signature)),
            (key_new_transactions(), JsonV::Arr(
                e.1.new_transactions.map_values(|t: TransactionV| tx_json(t)),
            )),
            (key_nonce(), bytes_json(e.0.1)),
        ],
    )
}

/// The wire form of a per-session content mapping.
pub open spec fn content_json(s: Seq<(SidV, SessionNewContentV)>) -> JsonV {
    JsonV::Arr(s.map_values(|e: (SidV, SessionNewContentV)| content_entry_json(e)))
}

/// The wire form of a sync message: one flat object per message, with the
/// `action` discriminator first and keys in sorted order.
pub open spec fn msg_json(m: SyncMessageV) -> JsonV {
    match m {
        SyncMessageV::Load { known_state } => JsonV::Obj(
            seq![
                (key_action(), JsonV::Text(tag_load())),
                (key_header(), JsonV::Bool(known_state.header)),
                (key_id(), bytes_json(known_state.id)),
                (key_sessions(), counts_json(known_state.sessions)),
            ],
        ),
        SyncMessageV::KnownState { as_dependency_of, is_correction, known_state } => JsonV::Obj(
            seq![
                (key_action(), JsonV::Text(tag_known())),
                (key_as_dependency_of(), match as_dependency_of {
                    Some(id) => bytes_json(id),
                    None => JsonV::Null,
                }),
                (key_header(), JsonV::Bool(known_state.header)),
                (key_id(), bytes_json(known_state.id)),
                (key_is_correction(), match is_correction {
                    Some(b) => JsonV::Bool(b),
                    None => JsonV::Null,
                }),
                (key_sessions(), counts_json(known_state.sessions)),
            ],
        ),
        SyncMessageV::NewContent { id, header, priority, new } => JsonV::Obj(
            seq![
                (key_action(), JsonV::Text(tag_content())),
                (key_header(), match header {
                    Some(h) => header_json(h),
                    None => JsonV::Null,
                }),
                (key_id(), bytes_json(id)),
                (key_new(), content_json(new)),
                (key_priority(), JsonV::UInt(priority.spec_level() as u64)),
            ],
        ),
        SyncMessageV::Done { id } => JsonV::Obj(
            seq![(key_action(), JsonV::Text(tag_done())), (key_id(), bytes_json(id))],
        ),
    }
}

/// Wraps name bytes as a JSON string value.
fn text_value(bytes: Vec<u8>) -> (r: JsonValue)
    ensures
        r@ == JsonV::Text(bytes@),
{
    JsonValue::Text(bytes)
}

/// The bytes of `action`.
fn key_action_vec() -> (r: Vec<u8>)
    ensures
        r@ == key_action(),
{
    let mut v: Vec<u8> = Vec::new();
    v.push(97);
    v.push(99);
    v.push(116);
    v.push(105);
    v.push(111);
    v.push(110);
    proof {
        assert(v@ =~= key_action());
    }
    v
}

/// The bytes of `header`.
fn key_header_vec() -> (r: Vec<u8>)
    ensures
        r@ == key_header(),
{
    let mut v: Vec<u8> = Vec::new();
    v.push(104);
    v.push(101);
    v.push(97);
    v.push(100);
    v.push(101);
    v.push(114);
    proof {
        assert(v@ =~= key_header());
    }
    v
}

/// The bytes of `id`.
fn key_id_vec() -> (r: Vec<u8>)
    ensures
        r@ == key_id(),
{
    let mut v: Vec<u8> = Vec::new();
    v.push(105);
    v.push(100);
    proof {
        assert(v@ =~= key_id());
    }
    v
}

/// The bytes of `sessions`.
fn key_sessions_vec() -> (r: Vec<u8>)
    ensures
        r@ == key_sessions(),
{
    let mut v: Vec<u8> = Vec::new();
    v.push(115);
    v.push(101);
    v.push(115);
    v.push(115);
    v.push(105);
    v.push(111);
    v.push(110);
    v.push(115);
    proof {
        assert(v@ =~= key_sessions());
    }
    v
}

/// The bytes of `asDependencyOf`.
fn key_as_dependency_of_vec() -> (r: Vec<u8>)
    ensures
        r@ == key_as_dependency_of(),
{
    let mut v: Vec<u8> = Vec::new();
    v.push(97);
    v.push(115);
    v.push(68);
    v.push(101);
    v.push(112);
    v.push(101);
    v.push(110);
    v.push(100);
    v.push(101);
    v.push(110);
    v.push(99);
    v.push(121);
    v.push(79);
    v.push(102);
    proof {
        assert(v@ =~= key_as_dependency_of());
    }
    v
}

/// The bytes of `isCorrection`.
fn key_is_correction_vec() -> (r: Vec<u8>)
    ensures
        r@ == key_is_correction(),
{
    let mut v: Vec<u8> = Vec::new();
    v.push(105);
    v.push(115);
    v.push(67);
    v.push(111);
    v.push(114);
    v.push(114);
    v.push(101);
    v.push(99);
    v.push(116);
    v.push(105);
    v.push(111);
    v.push(110);
    proof {
        assert(v@ =~= key_is_correction());
    }
    v
}

/// The bytes of `new`.
fn key_new_vec() -> (r: Vec<u8>)
    ensures
        r@ == key_new(),
{
    let mut v: Vec<u8> = Vec::new();
    v.push(110);
    v.push(101);
    v.push(119);
    proof {
        assert(v@ =~= key_new());
    }
    v
}

/// The bytes of `priority`.
fn key_priority_vec() -> (r: Vec<u8>)
    ensures
        r@ == key_priority(),
{
    let mut v: Vec<u8> = Vec::new();
    v.push(112);
    v.push(114);
    v.push(105);
    v.push(111);
    v.push(114);
    v.push(105);
    v.push(116);
    v.push(121);
    proof {
        assert(v@ =~= key_priority());
    }
    v
}

/// The bytes of `account`.
fn key_account_vec() -> (r: Vec<u8>)
    ensures
        r@ == key_account(),
{
    let mut v: Vec<u8> = Vec::new();
    v.push(97);
    v.push(99);
    v.push(99);
    v.push(111);
    v.push(117);
    v.push(110);
    v.push(116);
    proof {
        assert(v@ =~= key_account());
    }
    v
}

/// The bytes of `nonce`.
fn key_nonce_vec() -> (r: Vec<u8>)
    ensures
        r@ == key_nonce(),
{
    let mut v: Vec<u8> = Vec::new();
    v.push(110);
    v.push(111);
    v.push(110);
    v.push(99);
    v.push(101);
    proof {
        assert(v@ =~= key_nonce());
    }
    v
}

/// The bytes of `count`.
fn key_count_vec() -> (r: Vec<u8>)
    ensures
        r@ == key_count(),
{
    let mut v: Vec<u8> = Vec::new();
    v.push(99);
    v.push(111);
    v.push(117);
    v.push(110);
    v.push(116);
    proof {
        assert(v@ =~= key_count());
    }
    v
}

/// The bytes of `after`.
fn key_after_vec() -> (r: Vec<u8>)
    ensures
        r@ == key_after(),
{
    let mut v: Vec<u8> = Vec::new();
    v.push(97);
    v.push(102);
    v.push(116);
    v.push(101);
    v.push(114);
    proof {
        assert(v@ =~= key_after());
    }
    v
}

/// The bytes of `lastSignature`.
fn key_last_signature_vec() -> (r: Vec<u8>)
    ensures
        r@ == key_last_signature(),
{
    let mut v: Vec<u8> = Vec::new();
    v.push(108);
    v.push(97);
    v.push(115);
    v.push(116);
    v.push(83);
    v.push(105);
    v.push(103);
    v.push(110);
    v.push(97);
    v.push(116);
    v.push(117);
    v.push(114);
    v.push(101);
    proof {
        assert(v@ =~= key_last_signature());
    }
    v
}

/// The bytes of `newTransactions`.
fn key_new_transactions_vec() -> (r: Vec<u8>)
    ensures
        r@ == key_new_transactions(),
{
    let mut v: Vec<u8> = Vec::new();
    v.push(110);
    v.push(101);
    v.push(119);
    v.push(84);
    v.push(114);
    v.push(97);
    v.push(110);
    v.push(115);
    v.push(97);
    v.push(99);
    v.push(116);
    v.push(105);
    v.push(111);
    v.push(110);
    v.push(115);
    proof {
        assert(v@ =~= key_new_transactions());
    }
    v
}

/// The bytes of `load`.
fn tag_load_vec() -> (r: Vec<u8>)
    ensures
        r@ == tag_load(),
{
    let mut v: Vec<u8> = Vec::new();
    v.push(108);
    v.push(111);
    v.push(97);
    v.push(100);
    proof {
        assert(v@ =~= tag_load());
    }
    v
}

/// The bytes of `known`.
fn tag_known_vec() -> (r: Vec<u8>)
    ensures
        r@ == tag_known(),
{
    let mut v: Vec<u8> = Vec::new();
    v.push(107);
    v.push(110);
    v.push(111);
    v.push(119);
    v.push(110);
    proof {
        assert(v@ =~= tag_known());
    }
    v
}

/// The bytes of `content`.
fn tag_content_vec() -> (r: Vec<u8>)
    ensures
        r@ == tag_content(),
{
    let mut v: Vec<u8> = Vec::new();
    v.push(99);
    v.push(111);
    v.push(110);
    v.push(116);
    v.push(101);
    v.push(110);
    v.push(116);
    proof {
        assert(v@ =~= tag_content());
    }
    v
}

/// The bytes of `done`.
fn tag_done_vec() -> (r: Vec<u8>)
    ensures
        r@ == tag_done(),
{
    let mut v: Vec<u8> = Vec::new();
    v.push(100);
    v.push(111);
    v.push(110);
    v.push(101);
    proof {
        assert(v@ =~= tag_done());
    }
    v
}

/// Builds the wire array of a count map.
fn counts_to_json(counts: &CountMap) -> (r: JsonValue)
    ensures
        r@ == counts_json(counts@),
{
    let mut items: Vec<JsonValue> = Vec::new();
    let total = counts.len();
    let mut i: usize = 0;
    while i < total
        invariant
            i <= counts@.len(),
            total == counts@.len(),
            items@.len() == i,
            json_view_items(items@) == counts@.take(i as int).map_values(
                |e: (SidV, usize)| count_entry_json(e),
            ),
        decreases total - i,
    {
        let pair = counts.entry_at(i);
        let mut entries: Vec<(Vec<u8>, JsonValue)> = Vec::new();
        entries.push((key_account_vec(), json_bytes_array(pair.0.account().raw().as_bytes())));
        entries.push((key_count_vec(), JsonValue::UInt(pair.1 as u64)));
        entries.push((key_nonce_vec(), json_bytes_array(pair.0.nonce())));
        let obj = JsonValue::Obj(entries);
        proof {
            crate::json::lemma_json_view_entries_index(entries@, 0);
            crate::json::lemma_json_view_entries_index(entries@, 1);
            crate::json::lemma_json_view_entries_index(entries@, 2);
            assert(json_view_entries(entries@) =~= count_entry_json(counts@[i as int])->Obj_0);
        }
        let ghost before = items@;
        items.push(obj);
        proof {
            assert(items@.drop_last() =~= before);
            assert(json_view_items(items@) == json_view_items(before).push(
                crate::json::json_view(items@.last()),
            ));
            assert(counts@.take(i + 1).map_values(|e: (SidV, usize)| count_entry_json(e)) =~= (
            counts@.take(i as int).map_values(|e: (SidV, usize)| count_entry_json(e))).push(
                count_entry_json(counts@[i as int]),
            ));
        }
        i = i + 1;
    }
    proof {
        assert(counts@.take(counts@.len() as int) =~= counts@);
    }
    JsonValue::Arr(items)
}

/// Builds the wire array of a content map.
fn content_to_json(content: &ContentMap) -> (r: JsonValue)
    ensures
        r@ == content_json(content@),
{
    let mut items: Vec<JsonValue> = Vec::new();
    let total = content.len();
    let mut i: usize = 0;
    while i < total
        invariant
            i <= content@.len(),
            total == content@.len(),
            items@.len() == i,
            json_view_items(items@) == content@.take(i as int).map_values(
                |e: (SidV, SessionNewContentV)| content_entry_json(e),
            ),
        decreases total - i,
    {
        let pair = content.entry_at(i);
        let entry = pair.1;
        let mut txs: Vec<JsonValue> = Vec::new();
        let mut j: usize = 0;
        while j < entry.new_transactions.len()
            invariant
                j <= entry.new_transactions@.len(),
                txs@.len() == j,
                json_view_items(txs@) == crate::session::txs_view(
                    entry.new_transactions@,
                ).take(j as int).map_values(|t: TransactionV| tx_json(t)),
            decreases entry.new_transactions@.len() - j,
        {
            let ghost before_txs = txs@;
            txs.push(entry.new_transactions[j].to_json());
            proof {
                assert(txs@.drop_last() =~= before_txs);
                assert(json_view_items(txs@) == json_view_items(before_txs).push(
                    crate::json::json_view(txs@.last()),
                ));
                let tv = crate::session::txs_view(entry.new_transactions@);
                assert(tv.take(j + 1).map_values(|t: TransactionV| tx_json(t)) =~= (tv.take(
                    j as int,
                ).map_values(|t: TransactionV| tx_json(t))).push(tx_json(tv[j as int])));
                assert(tv[j as int] == entry.new_transactions@[j as int]@);
            }
            j = j + 1;
        }
        proof {
            let tv = crate::session::txs_view(entry.new_transactions@);
            assert(tv.take(tv.len() as int) =~= tv);
        }
        let mut entries: Vec<(Vec<u8>, JsonValue)> = Vec::new();
        entries.push((key_account_vec(), json_bytes_array(pair.0.account().raw().as_bytes())));
        entries.push((key_after_vec(), JsonValue::UInt(entry.after as u64)));
        entries.push((key_last_signature_vec(), json_bytes_array(
            entry.last_signature.as_bytes(),
        )));
        entries.push((key_new_transactions_vec(), JsonValue::Arr(txs)));
        entries.push((key_nonce_vec(), json_bytes_array(pair.0.nonce())));
        let obj = JsonValue::Obj(entries);
        proof {
            crate::json::lemma_json_view_entries_index(entries@, 0);
            crate::json::lemma_json_view_entries_index(entries@, 1);
            crate::json::lemma_json_view_entries_index(entries@, 2);
            crate::json::lemma_json_view_entries_index(entries@, 3);
            crate::json::lemma_json_view_entries_index(entries@, 4);
            assert(json_view_entries(entries@) =~= content_entry_json(
                content@[i as int],
            )->Obj_0);
        }
        let ghost before = items@;
        items.push(obj);
        proof {
            assert(items@.drop_last() =~= before);
            assert(json_view_items(items@) == json_view_items(before).push(
                crate::json::json_view(items@.last()),
            ));
            assert(content@.take(i + 1).map_values(
                |e: (SidV, SessionNewContentV)| content_entry_json(e),
            ) =~= (content@.take(i as int).map_values(
                |e: (SidV, SessionNewContentV)| content_entry_json(e),
            )).push(content_entry_json(content@[i as int])));
        }
        i = i + 1;
    }
    proof {
        assert(content@.take(content@.len() as int) =~= content@);
    }
    JsonValue::Arr(items)
}

/// Encodes a sync message into its exact wire model.
pub fn encode_sync_message(m: &SyncMessage) -> (r: JsonValue)
    ensures
        r@ == msg_json(m@),
{
    match m {
        SyncMessage::LoadMessage { known_state } => {
            let mut entries: Vec<(Vec<u8>, JsonValue)> = Vec::new();
            entries.push((key_action_vec(), text_value(tag_load_vec())));
            entries.push((key_header_vec(), JsonValue::Bool(known_state.header)));
            entries.push((key_id_vec(), json_bytes_array(known_state.id.as_bytes())));
            entries.push((key_sessions_vec(), counts_to_json(&known_state.sessions)));
            let r = JsonValue::Obj(entries);
            proof {
                crate::json::lemma_json_view_entries_index(entries@, 0);
                crate::json::lemma_json_view_entries_index(entries@, 1);
                crate::json::lemma_json_view_entries_index(entries@, 2);
                crate::json::lemma_json_view_entries_index(entries@, 3);
                assert(json_view_entries(entries@) =~= msg_json(m@)->Obj_0);
            }
            r
        },
        SyncMessage::KnownStateMessage { as_dependency_of, is_correction, known_state } => {
            let mut entries: Vec<(Vec<u8>, JsonValue)> = Vec::new();
            entries.push((key_action_vec(), text_value(tag_known_vec())));
            let dep = match as_dependency_of {
                Some(id) => json_bytes_array(id.as_bytes()),
                None => JsonValue::Null,
            };
            entries.push((key_as_dependency_of_vec(), dep));
            entries.push((key_header_vec(), JsonValue::Bool(known_state.header)));
            entries.push((key_id_vec(), json_bytes_array(known_state.id.as_bytes())));
            let corr = match is_correction {
                Some(b) => JsonValue::Bool(*b),
                None => JsonValue::Null,
            };
            entries.push((key_is_correction_vec(), corr));
            entries.push((key_sessions_vec(), counts_to_json(&known_state.sessions)));
            let r = JsonValue::Obj(entries);
            proof {
                crate::json::lemma_json_view_entries_index(entries@, 0);
                crate::json::lemma_json_view_entries_index(entries@, 1);
                crate::json::lemma_json_view_entries_index(entries@, 2);
                crate::json::lemma_json_view_entries_index(entries@, 3);
                crate::json::lemma_json_view_entries_index(entries@, 4);
                crate::json::lemma_json_view_entries_index(entries@, 5);
                assert(json_view_entries(entries@) =~= msg_json(m@)->Obj_0);
            }
            r
        },
        SyncMessage::NewContentMessage { id, header, priority, new } => {
            let mut entries: Vec<(Vec<u8>, JsonValue)> = Vec::new();
            entries.push((key_action_vec(), text_value(tag_content_vec())));
            let hdr = match header {
                Some(h) => h.to_json(),
                None => JsonValue::Null,
            };
            entries.push((key_header_vec(), hdr));
            entries.push((key_id_vec(), json_bytes_array(id.as_bytes())));
            entries.push((key_new_vec(), content_to_json(new)));
            entries.push((key_priority_vec(), JsonValue::UInt(priority.level() as u64)));
            let r = JsonValue::Obj(entries);
            proof {
                crate::json::lemma_json_view_entries_index(entries@, 0);
                crate::json::lemma_json_view_entries_index(entries@, 1);
                crate::json::lemma_json_view_entries_index(entries@, 2);
                crate::json::lemma_json_view_entries_index(entries@, 3);
                crate::json::lemma_json_view_entries_index(entries@, 4);
                assert(json_view_entries(entries@) =~= msg_json(m@)->Obj_0);
            }
            r
        },
        SyncMessage::DoneMessage { id } => {
            let mut entries: Vec<(Vec<u8>, JsonValue)> = Vec::new();
            entries.push((key_action_vec(), text_value(tag_done_vec())));
            entries.push((key_id_vec(), json_bytes_array(id.as_bytes())));
            let r = JsonValue::Obj(entries);
            proof {
                crate::json::lemma_json_view_entries_index(entries@, 0);
                crate::json::lemma_json_view_entries_index(entries@, 1);
                assert(json_view_entries(entries@) =~= msg_json(m@)->Obj_0);
            }
            r
        },
    }
}

/// Finds a key's value in a decoded object.
fn obj_get<'a>(entries: &'a Vec<(Vec<u8>, JsonValue)>, key: &Vec<u8>) -> (r: Option<
    &'a JsonValue,
>) {
    let mut i: usize = 0;
    while i < entries.len()
        invariant
            i <= entries@.len(),
        decreases entries@.len() - i,
    {
        if crate::crypto::bytes_eq(&entries[i].0, key) {
            return Some(&entries[i].1);
        }
        i = i + 1;
    }
    None
}

/// Reads a byte string from a wire array of numbers.
fn decode_bytes(v: &JsonValue) -> (r: Option<Vec<u8>>) {
    match v {
        JsonValue::Arr(items) => {
            let mut out: Vec<u8> = Vec::new();
            let mut i: usize = 0;
            while i < items.len()
                invariant
                    i <= items@.len(),
                decreases items@.len() - i,
            {
                match &items[i] {
                    JsonValue::UInt(n) => {
                        if *n > 255 {
                            return None;
                        }
                        out.push(*n as u8);
                    },
                    _ => {
                        return None;
                    },
                }
                i = i + 1;
            }
            Some(out)
        },
        _ => None,
    }
}

/// Reads one transaction from its wire object.
fn decode_transaction(v: &JsonValue) -> (r: Option<Transaction>) {
    let entries = match v {
        JsonValue::Obj(entries) => entries,
        _ => {
            return None;
        },
    };
    let made_at: u64 = match obj_get(entries, &crate::session::key_made_at_vec()) {
        Some(JsonValue::UInt(n)) => *n,
        _ => {
            return None;
        },
    };
    let privacy = match obj_get(entries, &crate::session::key_privacy_vec()) {
        Some(JsonValue::Text(t)) => t,
        _ => {
            return None;
        },
    };
    if crate::crypto::bytes_eq(privacy, &crate::session::tag_trusting_vec()) {
        let changes = match obj_get(entries, &crate::session::key_changes_vec()) {
            Some(value) => decode_bytes(value),
            None => None,
        };
        match changes {
            Some(changes) => Some(
                Transaction { made_at, tx_type: TransactionType::Trusting { changes } },
            ),
            None => None,
        }
    } else if crate::crypto::bytes_eq(privacy, &crate::session::tag_private_vec()) {
        let key_used = match obj_get(entries, &crate::session::key_key_used_vec()) {
            Some(value) => decode_bytes(value),
            None => None,
        };
        let encrypted_changes = match obj_get(
            entries,
            &crate::session::key_encrypted_changes_vec(),
        ) {
            Some(value) => decode_bytes(value),
            None => None,
        };
        match (key_used, encrypted_changes) {
            (Some(key_used), Some(encrypted_changes)) => Some(
                Transaction {
                    made_at,
                    tx_type: TransactionType::Private { key_used, encrypted_changes },
                },
            ),
            _ => None,
        }
    } else {
        None
    }
}

/// Reads a session ID from an entry's `account` and `nonce` fields.
fn decode_session_id(entries: &Vec<(Vec<u8>, JsonValue)>) -> (r: Option<SessionID>) {
    let account = match obj_get(entries, &key_account_vec()) {
        Some(value) => decode_bytes(value),
        None => None,
    };
    let nonce = match obj_get(entries, &key_nonce_vec()) {
        Some(value) => decode_bytes(value),
        None => None,
    };
    match (account, nonce) {
        (Some(account), Some(nonce)) => Some(
            SessionID::new(RawAccountID::new(RawCoID::new(account)), nonce),
        ),
        _ => None,
    }
}

/// Reads a known state's common fields (`id`, `header`, `sessions`).
fn decode_known_state(entries: &Vec<(Vec<u8>, JsonValue)>) -> (r: Option<CoValueKnownState>) {
    let id = match obj_get(entries, &key_id_vec()) {
        Some(value) => decode_bytes(value),
        None => None,
    };
    let id = match id {
        Some(id) => RawCoID::new(id),
        None => {
            return None;
        },
    };
    let header = match obj_get(entries, &key_header_vec()) {
        Some(JsonValue::Bool(b)) => *b,
        _ => {
            return None;
        },
    };
    let list = match obj_get(entries, &key_sessions_vec()) {
        Some(JsonValue::Arr(items)) => items,
        _ => {
            return None;
        },
    };
    let mut counts = CountMap::new();
    let mut i: usize = 0;
    while i < list.len()
        invariant
            i <= list@.len(),
            crate::smap::am_keys_unique(counts@),
        decreases list@.len() - i,
    {
        let item_entries = match &list[i] {
            JsonValue::Obj(item_entries) => item_entries,
            _ => {
                return None;
            },
        };
        let sid = match decode_session_id(item_entries) {
            Some(sid) => sid,
            None => {
                return None;
            },
        };
        let count: u64 = match obj_get(item_entries, &key_count_vec()) {
            Some(JsonValue::UInt(n)) => *n,
            _ => {
                return None;
            },
        };
        if count > usize::MAX as u64 {
            return None;
        }
        counts.set(&sid, count as usize);
        i = i + 1;
    }
    Some(CoValueKnownState::new(id, header, counts))
}

/// Reads a header from its flattened wire object.  The `type` key carries
/// the ruleset discriminator, which also stands as the header's own type
/// name on the wire.
fn decode_header(v: &JsonValue) -> (r: Option<CoValueHeader>) {
    let entries = match v {
        JsonValue::Obj(entries) => entries,
        _ => {
            return None;
        },
    };
    let tag = match obj_get(entries, &crate::covalue::key_type_vec()) {
        Some(JsonValue::Text(t)) => crate::crypto::copy_bytes(t),
        _ => {
            return None;
        },
    };
    let ruleset = if crate::crypto::bytes_eq(&tag, &crate::covalue::tag_unsafe_allow_all_vec()) {
        Ruleset::UnsafeAllowAll
    } else if crate::crypto::bytes_eq(&tag, &crate::covalue::key_group_vec()) {
        let admin = match obj_get(entries, &crate::covalue::key_initial_admin_vec()) {
            Some(value) => decode_bytes(value),
            None => None,
        };
        match admin {
            Some(admin) => Ruleset::Group {
                initial_admin: RawAccountID::new(RawCoID::new(admin)),
            },
            None => {
                return None;
            },
        }
    } else if crate::crypto::bytes_eq(&tag, &crate::covalue::tag_owned_by_group_vec()) {
        let group = match obj_get(entries, &crate::covalue::key_group_vec()) {
            Some(value) => decode_bytes(value),
            None => None,
        };
        match group {
            Some(group) => Ruleset::OwnedByGroup { group: RawCoID::new(group) },
            None => {
                return None;
            },
        }
    } else {
        return None;
    };
    let meta = match obj_get(entries, &crate::covalue::key_meta_vec()) {
        Some(JsonValue::Null) => None,
        Some(other) => Some(crate::json::duplicate_json(other)),
        None => {
            return None;
        },
    };
    let uniqueness = match obj_get(entries, &crate::covalue::key_uniqueness_vec()) {
        Some(JsonValue::Text(t)) => crate::crypto::copy_bytes(t),
        _ => {
            return None;
        },
    };
    let created_at = match obj_get(entries, &crate::covalue::key_created_at_vec()) {
        Some(JsonValue::Text(t)) => crate::crypto::copy_bytes(t),
        _ => {
            return None;
        },
    };
    Some(
        CoValueHeader::new(tag, ruleset, meta, CoValueUniqueness::new(uniqueness, created_at)),
    )
}

/// Reads a candidate message out of a wire value; the caller re-encodes
/// and compares before accepting it.
fn parse_sync_message(v: &JsonValue) -> (r: Option<SyncMessage>) {
    let entries = match v {
        JsonValue::Obj(entries) => entries,
        _ => {
            return None;
        },
    };
    let action = match obj_get(entries, &key_action_vec()) {
        Some(JsonValue::Text(t)) => crate::crypto::copy_bytes(t),
        _ => {
            return None;
        },
    };
    if crate::crypto::bytes_eq(&action, &tag_load_vec()) {
        match decode_known_state(entries) {
            Some(known_state) => Some(SyncMessage::LoadMessage { known_state }),
            None => None,
        }
    } else if crate::crypto::bytes_eq(&action, &tag_known_vec()) {
        let known_state = match decode_known_state(entries) {
            Some(ks) => ks,
            None => {
                return None;
            },
        };
        let as_dependency_of = match obj_get(entries, &key_as_dependency_of_vec()) {
            Some(JsonValue::Null) => None,
            Some(other) => match decode_bytes(other) {
                Some(id) => Some(RawCoID::new(id)),
                None => {
                    return None;
                },
            },
            None => {
                return None;
            },
        };
        let is_correction = match obj_get(entries, &key_is_correction_vec()) {
            Some(JsonValue::Null) => None,
            Some(JsonValue::Bool(b)) => Some(*b),
            _ => {
                return None;
            },
        };
        Some(SyncMessage::KnownStateMessage { as_dependency_of, is_correction, known_state })
    } else if crate::crypto::bytes_eq(&action, &tag_content_vec()) {
        let id = match obj_get(entries, &key_id_vec()) {
            Some(value) => match decode_bytes(value) {
                Some(id) => RawCoID::new(id),
                None => {
                    return None;
                },
            },
            None => {
                return None;
            },
        };
        let header = match obj_get(entries, &key_header_vec()) {
            Some(JsonValue::Null) => None,
            Some(other) => match decode_header(other) {
                Some(h) => Some(h),
                None => {
                    return None;
                },
            },
            None => {
                return None;
            },
        };
        let priority = match obj_get(entries, &key_priority_vec()) {
            Some(JsonValue::UInt(n)) => {
                if *n > 255 {
                    return None;
                }
                match CoValuePriority::from_level(*n as u8) {
                    Some(p) => p,
                    None => {
                        return None;
                    },
                }
            },
            _ => {
                return None;
            },
        };
        let list = match obj_get(entries, &key_new_vec()) {
            Some(JsonValue::Arr(items)) => items,
            _ => {
                return None;
            },
        };
        let mut new = ContentMap::new();
        let mut i: usize = 0;
        while i < list.len()
            invariant
                i <= list@.len(),
                crate::smap::am_keys_unique(new@),
            decreases list@.len() - i,
        {
            let item_entries = match &list[i] {
                JsonValue::Obj(item_entries) => item_entries,
                _ => {
                    return None;
                },
            };
            let sid = match decode_session_id(item_entries) {
                Some(sid) => sid,
                None => {
                    return None;
                },
            };
            let after: u64 = match obj_get(item_entries, &key_after_vec()) {
                Some(JsonValue::UInt(n)) => *n,
                _ => {
                    return None;
                },
            };
            if after > usize::MAX as u64 {
                return None;
            }
            let sig = match obj_get(item_entries, &key_last_signature_vec()) {
                Some(value) => match decode_bytes(value) {
                    Some(sig) => sig,
                    None => {
                        return None;
                    },
                },
                None => {
                    return None;
                },
            };
            if sig.len() != SIGNATURE_LENGTH {
                return None;
            }
            let tx_list = match obj_get(item_entries, &key_new_transactions_vec()) {
                Some(JsonValue::Arr(tx_list)) => tx_list,
                _ => {
                    return None;
                },
            };
            let mut new_transactions: Vec<Transaction> = Vec::new();
            let mut j: usize = 0;
            while j < tx_list.len()
                invariant
                    j <= tx_list@.len(),
                decreases tx_list@.len() - j,
            {
                match decode_transaction(&tx_list[j]) {
                    Some(tx) => new_transactions.push(tx),
                    None => {
                        return None;
                    },
                }
                j = j + 1;
            }
            new.set(
                &sid,
                SessionNewContent {
                    after: after as usize,
                    new_transactions,
                    last_signature: Signature::new(sig),
                },
            );
            i = i + 1;
        }
        Some(SyncMessage::NewContentMessage { id, header, priority, new })
    } else if crate::crypto::bytes_eq(&action, &tag_done_vec()) {
        let id = match obj_get(entries, &key_id_vec()) {
            Some(value) => match decode_bytes(value) {
                Some(id) => RawCoID::new(id),
                None => {
                    return None;
                },
            },
            None => {
                return None;
            },
        };
        Some(SyncMessage::DoneMessage { id })
    } else {
        None
    }
}

/// Decodes a sync message from its wire model.
///
/// Whatever comes back re-encodes to exactly the given value, so with
/// `encode_sync_message`'s exactness a decoded message and the original
/// have the same wire form.  A value that is not the exact layout
/// `encode_sync_message` emits for some message is rejected.
pub fn decode_sync_message(v: &JsonValue) -> (r: Option<SyncMessage>)
    ensures
        r matches Some(m) ==> v@ == msg_json(m@),
{
    match parse_sync_message(v) {
        Some(m) => {
            let reencoded = encode_sync_message(&m);
            if crate::json::json_eq(v, &reencoded) {
                Some(m)
            } else {
                None
            }
        },
        None => None,
    }
}

} // verus!
