//! CoValue headers: the immutable descriptor a CoValue's identity derives
//! from, and the priority its sync messages carry.

use vstd::prelude::*;

use crate::crypto::{blake3_of, ShortHash, SHORT_HASH_LENGTH};
use crate::ids::{RawAccountID, RawCoID};
use crate::json::{
    bytes_json, duplicate_json, entries_height, json_bytes_array, json_canon, json_height,
    json_sorted, json_view_entries, JsonV, JsonValue,
};
use crate::priority::CoValuePriority;

verus! {

/// The kinds of CoValue layered above raw transaction logs.
pub enum CoValueType {
    CoMap,
    Group,
    Account,
    Profile,
    CoList,
    CoPlainText,
    CoStream,
    BinaryCoStream,
}

/// The role a peer plays in synchronisation.
pub enum SyncRole {
    Server,
    Client,
    Peer,
    Storage,
}

/// The kinds of CoValue a typed ID can name.
pub trait RawCoValue {

}

/// The permission regime of a CoValue.
pub enum Ruleset {
    /// Every signer may append.
    UnsafeAllowAll,
    /// The CoValue is a group with an initial administrator.
    Group { initial_admin: RawAccountID },
    /// Appends are governed by an owning group.
    OwnedByGroup { group: RawCoID },
}

/// The model of a ruleset.
pub enum RulesetV {
    UnsafeAllowAll,
    Group { initial_admin: Seq<u8> },
    OwnedByGroup { group: Seq<u8> },
}

impl View for Ruleset {
    type V = RulesetV;

    closed spec fn view(&self) -> RulesetV {
        match self {
            Ruleset::UnsafeAllowAll => RulesetV::UnsafeAllowAll,
            Ruleset::Group { initial_admin } => RulesetV::Group { initial_admin: initial_admin@ },
            Ruleset::OwnedByGroup { group } => RulesetV::OwnedByGroup { group: group@ },
        }
    }
}

/// What makes one CoValue of a given header shape distinct from another:
/// a caller-chosen string and a creation instant in RFC 3339 text.
pub struct CoValueUniqueness {
    pub uniqueness: Vec<u8>,
    pub created_at: Vec<u8>,
}

impl View for CoValueUniqueness {
    type V = (Seq<u8>, Seq<u8>);

    closed spec fn view(&self) -> (Seq<u8>, Seq<u8>) {
        (self.uniqueness@, self.created_at@)
    }
}

impl CoValueUniqueness {
    /// A uniqueness tag from its parts.
    pub fn new(uniqueness: Vec<u8>, created_at: Vec<u8>) -> (r: CoValueUniqueness)
        ensures
            r@ == (uniqueness@, created_at@),
    {
        CoValueUniqueness { uniqueness, created_at }
    }
}

/// The model of a header.
pub struct HeaderV {
    pub value_type: Seq<u8>,
    pub ruleset: RulesetV,
    pub meta: Option<JsonV>,
    pub uniqueness: Seq<u8>,
    pub created_at: Seq<u8>,
}

/// The immutable descriptor of a CoValue: its type, permission regime,
/// optional metadata and uniqueness tag.  The CoValue's identity is the
/// short hash of this header's canonical JSON.
pub struct CoValueHeader {
    value_type: Vec<u8>,
    ruleset: Ruleset,
    meta: Option<JsonValue>,
    uniqueness: CoValueUniqueness,
}

impl View for CoValueHeader {
    type V = HeaderV;

    closed spec fn view(&self) -> HeaderV {
        HeaderV {
            value_type: self.value_type@,
            ruleset: self.ruleset@,
            meta: match self.meta {
                Some(m) => Some(m@),
                None => None,
            },
            uniqueness: self.uniqueness.uniqueness@,
            created_at: self.uniqueness.created_at@,
        }
    }
}

/// The key `createdAt`.
pub open spec fn key_created_at() -> Seq<u8> {
    seq![99u8, 114u8, 101u8, 97u8, 116u8, 101u8, 100u8, 65u8, 116u8]
}

/// The key `group`, also the tag `group`.
pub open spec fn key_group() -> Seq<u8> {
    seq![103u8, 114u8, 111u8, 117u8, 112u8]
}

/// The key `initialAdmin`.
pub open spec fn key_initial_admin() -> Seq<u8> {
    seq![105u8, 110u8, 105u8, 116u8, 105u8, 97u8, 108u8, 65u8, 100u8, 109u8, 105u8, 110u8]
}

/// The key `meta`.
pub open spec fn key_meta() -> Seq<u8> {
    seq![109u8, 101u8, 116u8, 97u8]
}

/// The key `type`.
pub open spec fn key_type() -> Seq<u8> {
    seq![116u8, 121u8, 112u8, 101u8]
}

/// The key `uniqueness`.
pub open spec fn key_uniqueness() -> Seq<u8> {
    seq![117u8, 110u8, 105u8, 113u8, 117u8, 101u8, 110u8, 101u8, 115u8, 115u8]
}

/// The tag `unsafeAllowAll`.
pub open spec fn tag_unsafe_allow_all() -> Seq<u8> {
    seq![117u8, 110u8, 115u8, 97u8, 102u8, 101u8, 65u8, 108u8, 108u8, 111u8, 119u8, 65u8, 108u8,
        108u8]
}

/// The tag `ownedByGroup`.
pub open spec fn tag_owned_by_group() -> Seq<u8> {
    seq![111u8, 119u8, 110u8, 101u8, 100u8, 66u8, 121u8, 71u8, 114u8, 111u8, 117u8, 112u8]
}

/// The bytes of `createdAt`.
pub(crate) fn key_created_at_vec() -> (r: Vec<u8>)
    ensures
        r@ == key_created_at(),
{
    let mut v: Vec<u8> = Vec::new();
    v.push(99);
    v.push(114);
    v.push(101);
    v.push(97);
    v.push(116);
    v.push(101);
    v.push(100);
    v.push(65);
    v.push(116);
    proof {
        assert(v@ =~= key_created_at());
    }
    v
}

/// The bytes of `group`.
pub(crate) fn key_group_vec() -> (r: Vec<u8>)
    ensures
        r@ == key_group(),
{
    let mut v: Vec<u8> = Vec::new();
    v.push(103);
    v.push(114);
    v.push(111);
    v.push(117);
    v.push(112);
    proof {
        assert(v@ =~= key_group());
    }
    v
}

/// The bytes of `initialAdmin`.
pub(crate) fn key_initial_admin_vec() -> (r: Vec<u8>)
    ensures
        r@ == key_initial_admin(),
{
    let mut v: Vec<u8> = Vec::new();
    v.push(105);
    v.push(110);
    v.push(105);
    v.push(116);
    v.push(105);
    v.push(97);
    v.push(108);
    v.push(65);
    v.push(100);
    v.push(109);
    v.push(105);
    v.push(110);
    proof {
        assert(v@ =~= key_initial_admin());
    }
    v
}

/// The bytes of `meta`.
pub(crate) fn key_meta_vec() -> (r: Vec<u8>)
    ensures
        r@ == key_meta(),
{
    let mut v: Vec<u8> = Vec::new();
    v.push(109);
    v.push(101);
    v.push(116);
    v.push(97);
    proof {
        assert(v@ =~= key_meta());
    }
    v
}

/// The bytes of `type`.
pub(crate) fn key_type_vec() -> (r: Vec<u8>)
    ensures
        r@ == key_type(),
{
    let mut v: Vec<u8> = Vec::new();
    v.push(116);
    v.push(121);
    v.push(112);
    v.push(101);
    proof {
        assert(v@ =~= key_type());
    }
    v
}

/// The bytes of `uniqueness`.
pub(crate) fn key_uniqueness_vec() -> (r: Vec<u8>)
    ensures
        r@ == key_uniqueness(),
{
    let mut v: Vec<u8> = Vec::new();
    v.push(117);
    v.push(110);
    v.push(105);
    v.push(113);
    v.push(117);
    v.push(101);
    v.push(110);
    v.push(101);
    v.push(115);
    v.push(115);
    proof {
        assert(v@ =~= key_uniqueness());
    }
    v
}

/// The bytes of `unsafeAllowAll`.
pub(crate) fn tag_unsafe_allow_all_vec() -> (r: Vec<u8>)
    ensures
        r@ == tag_unsafe_allow_all(),
{
    let mut v: Vec<u8> = Vec::new();
    v.push(117);
    v.push(110);
    v.push(115);
    v.push(97);
    v.push(102);
    v.push(101);
    v.push(65);
    v.push(108);
    v.push(108);
    v.push(111);
    v.push(119);
    v.push(65);
    v.push(108);
    v.push(108);
    proof {
        assert(v@ =~= tag_unsafe_allow_all());
    }
    v
}

/// The bytes of `ownedByGroup`.
pub(crate) fn tag_owned_by_group_vec() -> (r: Vec<u8>)
    ensures
        r@ == tag_owned_by_group(),
{
    let mut v: Vec<u8> = Vec::new();
    v.push(111);
    v.push(119);
    v.push(110);
    v.push(101);
    v.push(100);
    v.push(66);
    v.push(121);
    v.push(71);
    v.push(114);
    v.push(111);
    v.push(117);
    v.push(112);
    proof {
        assert(v@ =~= tag_owned_by_group());
    }
    v
}

/// The bytes of `account`.
pub(crate) fn meta_account_vec() -> (r: Vec<u8>)
    ensures
        r@ == meta_account(),
{
    let mut v: Vec<u8> = Vec::new();
    v.push(97);
    v.push(99);
    v.push(99);
    v.push(111);
    v.push(117);
    v.push(110);
    v.push(116);
    proof {
        assert(v@ =~= meta_account());
    }
    v
}

/// The bytes of `binary`.
pub(crate) fn meta_binary_vec() -> (r: Vec<u8>)
    ensures
        r@ == meta_binary(),
{
    let mut v: Vec<u8> = Vec::new();
    v.push(98);
    v.push(105);
    v.push(110);
    v.push(97);
    v.push(114);
    v.push(121);
    proof {
        assert(v@ =~= meta_binary());
    }
    v
}

/// The bytes of `costream`.
pub(crate) fn type_costream_vec() -> (r: Vec<u8>)
    ensures
        r@ == type_costream(),
{
    let mut v: Vec<u8> = Vec::new();
    v.push(99);
    v.push(111);
    v.push(115);
    v.push(116);
    v.push(114);
    v.push(101);
    v.push(97);
    v.push(109);
    proof {
        assert(v@ =~= type_costream());
    }
    v
}

/// The discriminator a ruleset writes on the wire.
pub open spec fn ruleset_tag(r: RulesetV) -> Seq<u8> {
    match r {
        RulesetV::UnsafeAllowAll => tag_unsafe_allow_all(),
        RulesetV::Group { .. } => key_group(),
        RulesetV::OwnedByGroup { .. } => tag_owned_by_group(),
    }
}

/// The canonical JSON object of a header.
///
/// The header's fields and its ruleset's fields are flattened into one
/// object.  Both the header's own type and the ruleset's discriminator land
/// on the key `type`, and the ruleset's wins, so the header's type name does
/// not itself enter the object (nor, therefore, the CoValue's identity).
/// An absent meta is written as an explicit `null`.
pub open spec fn header_json(h: HeaderV) -> JsonV {
    let lead = seq![(key_created_at(), JsonV::Text(h.created_at))];
    let ruleset_entries = match h.ruleset {
        RulesetV::UnsafeAllowAll => Seq::<(Seq<u8>, JsonV)>::empty(),
        RulesetV::Group { initial_admin } => seq![(key_initial_admin(), bytes_json(initial_admin))],
        RulesetV::OwnedByGroup { group } => seq![(key_group(), bytes_json(group))],
    };
    let tail = seq![
        (key_meta(), match h.meta {
            Some(m) => m,
            None => JsonV::Null,
        }),
        (key_type(), JsonV::Text(ruleset_tag(h.ruleset))),
        (key_uniqueness(), JsonV::Text(h.uniqueness)),
    ];
    JsonV::Obj(lead + ruleset_entries + tail)
}

/// The canonical text of a header.
pub open spec fn header_canon(h: HeaderV) -> Seq<u8> {
    json_canon(header_json(h), 0)
}

/// The identity a header determines: the first 19 bytes of the BLAKE3 hash
/// of its canonical JSON.
pub open spec fn co_id_of_header(h: HeaderV) -> Seq<u8> {
    blake3_of(header_canon(h)).take(SHORT_HASH_LENGTH as int)
}

/// The string read from `meta.type` when meta is an object whose first
/// `type` entry is a string; empty otherwise.
pub open spec fn meta_type_of(meta: Option<JsonV>) -> Seq<u8> {
    match meta {
        Some(JsonV::Obj(entries)) => match first_entry(entries, key_type()) {
            Some(JsonV::Text(s)) => s,
            _ => Seq::empty(),
        },
        _ => Seq::empty(),
    }
}

/// The first entry of an object under a key.
pub open spec fn first_entry(entries: Seq<(Seq<u8>, JsonV)>, key: Seq<u8>) -> Option<JsonV>
    decreases entries.len(),
{
    if entries.len() == 0 {
        None
    } else if entries.first().0 == key {
        Some(entries.first().1)
    } else {
        first_entry(entries.drop_first(), key)
    }
}

/// The tag `account` that marks account metadata.
pub open spec fn meta_account() -> Seq<u8> {
    seq![97u8, 99u8, 99u8, 111u8, 117u8, 110u8, 116u8]
}

/// The tag `binary` that marks binary-stream metadata.
pub open spec fn meta_binary() -> Seq<u8> {
    seq![98u8, 105u8, 110u8, 97u8, 114u8, 121u8]
}

/// The type name `costream`.
pub open spec fn type_costream() -> Seq<u8> {
    seq![99u8, 111u8, 115u8, 116u8, 114u8, 101u8, 97u8, 109u8]
}

/// The priority a header determines: accounts and groups are urgent, binary
/// streams are background noise, and everything else is middling.  A pure
/// function of the header.
pub open spec fn spec_priority(h: HeaderV) -> CoValuePriority {
    if meta_type_of(h.meta) == meta_account() {
        CoValuePriority::High
    } else if h.ruleset is Group {
        CoValuePriority::High
    } else if h.value_type == type_costream() && meta_type_of(h.meta) == meta_binary() {
        CoValuePriority::Low
    } else {
        CoValuePriority::Medium
    }
}

impl CoValueHeader {
    /// A header from its parts.
    pub fn new(
        value_type: Vec<u8>,
        ruleset: Ruleset,
        meta: Option<JsonValue>,
        uniqueness: CoValueUniqueness,
    ) -> (r: CoValueHeader)
        ensures
            r@.value_type == value_type@,
            r@.ruleset == ruleset@,
            r@.meta == match meta {
                Some(m) => Some(m@),
                None => None::<JsonV>,
            },
            r@.uniqueness == uniqueness@.0,
            r@.created_at == uniqueness@.1,
    {
        CoValueHeader { value_type, ruleset, meta, uniqueness }
    }

    /// A header is well formed when its meta, if any, is canonical (sorted
    /// keys) and of machine-bounded height.
    pub open spec fn wf(&self) -> bool {
        match self@.meta {
            Some(m) => json_sorted(m) && json_height(m) + 2 <= usize::MAX,
            None => true,
        }
    }

    /// The header's type name.
    pub fn value_type(&self) -> (r: &Vec<u8>)
        ensures
            r@ == self@.value_type,
    {
        &self.value_type
    }

    /// The header's ruleset.
    pub fn ruleset(&self) -> (r: &Ruleset)
        ensures
            r@ == self@.ruleset,
    {
        &self.ruleset
    }

    /// The header's metadata, if any.
    pub fn meta(&self) -> (r: &Option<JsonValue>)
        ensures
            match r {
                Some(m) => self@.meta == Some(m@),
                None => self@.meta is None,
            },
    {
        &self.meta
    }

    /// An owned copy with the same model.
    pub fn duplicate(&self) -> (r: CoValueHeader)
        ensures
            r@ == self@,
    {
        let ruleset = match &self.ruleset {
            Ruleset::UnsafeAllowAll => Ruleset::UnsafeAllowAll,
            Ruleset::Group { initial_admin } => Ruleset::Group {
                initial_admin: initial_admin.duplicate(),
            },
            Ruleset::OwnedByGroup { group } => Ruleset::OwnedByGroup { group: group.duplicate() },
        };
        let meta = match &self.meta {
            Some(m) => Some(duplicate_json(m)),
            None => None,
        };
        CoValueHeader {
            value_type: crate::crypto::copy_bytes(&self.value_type),
            ruleset,
            meta,
            uniqueness: CoValueUniqueness {
                uniqueness: crate::crypto::copy_bytes(&self.uniqueness.uniqueness),
                created_at: crate::crypto::copy_bytes(&self.uniqueness.created_at),
            },
        }
    }

    /// The canonical JSON object of this header.
    pub fn to_json(&self) -> (r: JsonValue)
        ensures
            r@ == header_json(self@),
    {
        let mut entries: Vec<(Vec<u8>, JsonValue)> = Vec::new();
        entries.push((key_created_at_vec(), JsonValue::Text(
            crate::crypto::copy_bytes(&self.uniqueness.created_at),
        )));
        match &self.ruleset {
            Ruleset::UnsafeAllowAll => {},
            Ruleset::Group { initial_admin } => {
                entries.push((key_initial_admin_vec(), json_bytes_array(
                    initial_admin.raw().as_bytes(),
                )));
            },
            Ruleset::OwnedByGroup { group } => {
                entries.push((key_group_vec(), json_bytes_array(group.as_bytes())));
            },
        }
        let meta_value: JsonValue = match &self.meta {
            Some(m) => duplicate_json(m),
            None => JsonValue::Null,
        };
        entries.push((key_meta_vec(), meta_value));
        let tag: Vec<u8> = match &self.ruleset {
            Ruleset::UnsafeAllowAll => tag_unsafe_allow_all_vec(),
            Ruleset::Group { .. } => key_group_vec(),
            Ruleset::OwnedByGroup { .. } => tag_owned_by_group_vec(),
        };
        entries.push((key_type_vec(), JsonValue::Text(tag)));
        entries.push((key_uniqueness_vec(), JsonValue::Text(
            crate::crypto::copy_bytes(&self.uniqueness.uniqueness),
        )));
        let r = JsonValue::Obj(entries);
        proof {
            let vs = json_view_entries(entries@);
            let expect = header_json(self@)->Obj_0;
            crate::json::lemma_json_view_entries_index(entries@, 0);
            crate::json::lemma_json_view_entries_index(entries@, 1);
            crate::json::lemma_json_view_entries_index(entries@, 2);
            crate::json::lemma_json_view_entries_index(entries@, 3);
            if entries@.len() == 5 {
                crate::json::lemma_json_view_entries_index(entries@, 4);
            }
            assert(vs =~= expect);
        }
        r
    }

    /// The CoValue ID this header determines.
    pub fn id(&self) -> (r: RawCoID)
        requires
            self.wf(),
        ensures
            r@ == co_id_of_header(self@),
            r@.len() == SHORT_HASH_LENGTH,
    {
        let value = self.to_json();
        proof {
            lemma_header_json_height(self@);
        }
        let short = ShortHash::new(&value);
        RawCoID::from_short_hash(&short)
    }

    /// The priority of this header's content messages.
    pub fn priority(&self) -> (r: CoValuePriority)
        ensures
            r == spec_priority(self@),
    {
        let meta_type: Vec<u8> = match &self.meta {
            Some(JsonValue::Obj(entries)) => lookup_text_entry(entries),
            _ => Vec::new(),
        };
        proof {
            assert(meta_type@.len() == 0 ==> meta_type@ =~= Seq::<u8>::empty());
        }
        if crate::crypto::bytes_eq(&meta_type, &meta_account_vec()) {
            CoValuePriority::High
        } else {
            match &self.ruleset {
                Ruleset::Group { .. } => CoValuePriority::High,
                _ => {
                    if crate::crypto::bytes_eq(&self.value_type, &type_costream_vec())
                        && crate::crypto::bytes_eq(&meta_type, &meta_binary_vec()) {
                        CoValuePriority::Low
                    } else {
                        CoValuePriority::Medium
                    }
                },
            }
        }
    }
}

/// The priority of a CoValue known only by a header-known flag: the
/// fallback is Medium whichever way the flag points.
pub fn priority_for_known_flag(header_known: bool) -> (r: CoValuePriority)
    ensures
        r == CoValuePriority::Medium,
{
    let _ = header_known;
    CoValuePriority::Medium
}

/// The priority of an optional header: the header's own priority when one
/// is held, Medium otherwise.
pub fn priority_of_optional(header: &Option<CoValueHeader>) -> (r: CoValuePriority)
    ensures
        r == (match *header {
            Some(h) => spec_priority(h@),
            None => CoValuePriority::Medium,
        }),
{
    match header {
        Some(h) => h.priority(),
        None => CoValuePriority::Medium,
    }
}

/// Looks up the first `type` entry of an object and returns its string
/// value, or nothing when the entry is absent or not a string.
fn lookup_text_entry(entries: &Vec<(Vec<u8>, JsonValue)>) -> (r: Vec<u8>)
    ensures
        r@ == (match first_entry(json_view_entries(entries@), key_type()) {
            Some(JsonV::Text(s)) => s,
            _ => Seq::<u8>::empty(),
        }),
{
    let key = key_type_vec();
    proof {
        assert(json_view_entries(entries@).skip(0) =~= json_view_entries(entries@));
    }
    let mut i: usize = 0;
    while i < entries.len()
        invariant
            i <= entries@.len(),
            key@ == key_type(),
            first_entry(json_view_entries(entries@), key_type()) == first_entry(
                json_view_entries(entries@).skip(i as int),
                key_type(),
            ),
            forall|k: int| 0 <= k < i ==> json_view_entries(entries@)[k].0 != key_type(),
        decreases entries@.len() - i,
    {
        proof {
            crate::json::lemma_json_view_entries_index(entries@, i as int);
        }
        if crate::crypto::bytes_eq(&entries[i].0, &key) {
            proof {
                let views = json_view_entries(entries@);
                assert(views.skip(i as int).first() == views[i as int]);
            }
            match &entries[i].1 {
                JsonValue::Text(s) => {
                    return crate::crypto::copy_bytes(s);
                },
                _ => {
                    let mut empty: Vec<u8> = Vec::new();
                    proof {
                        assert(empty@ =~= Seq::<u8>::empty());
                    }
                    return empty;
                },
            }
        }
        proof {
            let views = json_view_entries(entries@);
            assert(views.skip(i as int).first() == views[i as int]);
            assert(views.skip(i as int).drop_first() =~= views.skip(i + 1));
        }
        i = i + 1;
    }
    proof {
        let views = json_view_entries(entries@);
        crate::json::lemma_json_view_entries_len(entries@);
        assert(views.skip(views.len() as int) =~= Seq::<(Seq<u8>, JsonV)>::empty());
    }
    let empty: Vec<u8> = Vec::new();
    proof {
        assert(empty@ =~= Seq::<u8>::empty());
    }
    empty
}

/// The header object's height is bounded by its meta's height.
pub proof fn lemma_header_json_height(h: HeaderV)
    requires
        match h.meta {
            Some(m) => json_height(m) + 2 <= usize::MAX,
            None => true,
        },
    ensures
        json_height(header_json(h)) + 1 <= usize::MAX,
{
    let b: nat = match h.meta {
        Some(m) => if json_height(m) >= 2 {
            json_height(m)
        } else {
            2
        },
        None => 2,
    };
    let es = header_json(h)->Obj_0;
    match h.ruleset {
        RulesetV::UnsafeAllowAll => {
            assert(es.len() == 4);
        },
        RulesetV::Group { initial_admin } => {
            crate::json::lemma_bytes_json_height(initial_admin);
            assert(es.len() == 5);
        },
        RulesetV::OwnedByGroup { group } => {
            crate::json::lemma_bytes_json_height(group);
            assert(es.len() == 5);
        },
    }
    assert(forall|i: int| 0 <= i < es.len() ==> json_height(#[trigger] es[i].1) <= b);
    crate::json::lemma_entries_height_bound(es, b);
}

/// Two headers with the same canonical JSON determine the same ID.
pub proof fn lemma_id_deterministic(h1: HeaderV, h2: HeaderV)
    requires
        header_canon(h1) == header_canon(h2),
    ensures
        co_id_of_header(h1) == co_id_of_header(h2),
{
}

/// The priority of a header is a pure function of the header: equal header
/// models determine equal priorities.
pub proof fn lemma_priority_stable(h1: HeaderV, h2: HeaderV)
    requires
        h1 == h2,
    ensures
        spec_priority(h1) == spec_priority(h2),
{
}

} // verus!
