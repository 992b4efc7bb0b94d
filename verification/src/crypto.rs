//! Hashing, signing and textual encodings.
//!
//! Every call into an outside cryptography or encoding crate is gathered
//! here, behind a trusted item whose contract names the result.  Everything
//! downstream is verified against those names.

use vstd::prelude::*;

use ed25519_dalek::Signer;
use ed25519_dalek::Verifier;

use crate::errors::CoValueError;
use crate::json::{json_canon, json_height, JsonValue};

verus! {

/// The number of bytes of a BLAKE3 digest.
pub const HASH_LENGTH: usize = 32;

/// The number of bytes of a short hash: a truncated BLAKE3 digest.
pub const SHORT_HASH_LENGTH: usize = 19;

/// The number of bytes of an Ed25519 signature.
pub const SIGNATURE_LENGTH: usize = 64;

/// The number of bytes of an Ed25519 key, verifying or signing.
pub const KEY_LENGTH: usize = 32;

/// The BLAKE3 digest of a byte string: 32 bytes, a function of the input
/// alone.
pub uninterp spec fn blake3_of(input: Seq<u8>) -> Seq<u8>;

/// The Base58 rendering of a byte string: a function of the input alone.
pub uninterp spec fn b58_of(input: Seq<u8>) -> Seq<u8>;

/// The Ed25519 signature by a signing key over a message: deterministic, a
/// function of key and message alone.
pub uninterp spec fn ed25519_sign(secret: Seq<u8>, message: Seq<u8>) -> Seq<u8>;

/// The Ed25519 verifying key derived from a signing key.
pub uninterp spec fn ed25519_public(secret: Seq<u8>) -> Seq<u8>;

/// Whether a signature verifies under a verifying key for a message; false
/// whenever the key bytes are not a valid Ed25519 point.
pub uninterp spec fn ed25519_verifies(key: Seq<u8>, message: Seq<u8>, signature: Seq<u8>) -> bool;

#[verifier::external_type_specification]
#[verifier::external_body]
pub struct ExBlake3Hasher(blake3::Hasher);

/// Relies on `blake3::hash`: a 32-byte digest, a pure function of the input.
#[verifier::external_body]
fn blake3_hash_bytes(input: &Vec<u8>) -> (r: Vec<u8>)
    ensures
        r@ == blake3_of(input@),
        r@.len() == HASH_LENGTH,
{
    blake3::hash(input.as_slice()).as_bytes().to_vec()
}

/// Relies on `blake3::Hasher::new`: a hasher that has consumed nothing.
/// Nothing is assumed of the returned value beyond what the streaming
/// wrappers below state through the ghost transcript.
#[verifier::external_body]
fn blake3_hasher_new() -> blake3::Hasher {
    blake3::Hasher::new()
}

/// Relies on `bs58::encode`: the Base58 text of the input bytes, a pure
/// function of the input; distinct inputs yield distinct text, and the
/// default Bitcoin alphabet holds neither an underscore nor any byte
/// outside it.
#[verifier::external_body]
fn b58_encode(input: &Vec<u8>) -> (r: Vec<u8>)
    ensures
        r@ == b58_of(input@),
        forall|other: Seq<u8>| b58_of(other) == r@ ==> other == input@,
        forall|x: int| 0 <= x < r@.len() ==> (#[trigger] r@[x]) != 95u8,
{
    bs58::encode(input.as_slice()).into_vec()
}

/// Relies on `bs58::decode`: succeeds exactly on Base58 text, returning the
/// unique byte string whose encoding is the input.
#[verifier::external_body]
fn b58_decode(text: &Vec<u8>) -> (r: Option<Vec<u8>>)
    ensures
        r matches Some(v) ==> b58_of(v@) == text@,
        r matches Some(v) ==> forall|bs: Seq<u8>| b58_of(bs) == text@ ==> v@ == bs,
        r is None ==> forall|bs: Seq<u8>| b58_of(bs) != text@,
{
    bs58::decode(text.as_slice()).into_vec().ok()
}

/// Relies on `ed25519_dalek::SigningKey::sign`: deterministic RFC 8032
/// signing; the signature is 64 bytes, a function of key and message
/// alone, and verifies under the signing key's own verifying key (the
/// sign/verify pair the crate documents).
#[verifier::external_body]
pub(crate) fn ed25519_sign_bytes(secret: &Vec<u8>, message: &Vec<u8>) -> (r: Vec<u8>)
    requires
        secret@.len() == KEY_LENGTH,
    ensures
        r@ == ed25519_sign(secret@, message@),
        r@.len() == SIGNATURE_LENGTH,
        ed25519_verifies(ed25519_public(secret@), message@, r@),
{
    let mut key = [0u8; 32];
    key.copy_from_slice(secret.as_slice());
    let signing_key = ed25519_dalek::SigningKey::from_bytes(&key);
    signing_key.sign(message.as_slice()).to_bytes().to_vec()
}

/// Relies on `ed25519_dalek::SigningKey::verifying_key`: the 32-byte public
/// key, a function of the signing key alone.
#[verifier::external_body]
fn ed25519_public_bytes(secret: &Vec<u8>) -> (r: Vec<u8>)
    requires
        secret@.len() == KEY_LENGTH,
    ensures
        r@ == ed25519_public(secret@),
        r@.len() == KEY_LENGTH,
{
    let mut key = [0u8; 32];
    key.copy_from_slice(secret.as_slice());
    let signing_key = ed25519_dalek::SigningKey::from_bytes(&key);
    signing_key.verifying_key().to_bytes().to_vec()
}

/// Relies on `ed25519_dalek::VerifyingKey::verify`: deterministic
/// verification; an unparseable key verifies nothing.
#[verifier::external_body]
fn ed25519_verify_bytes(key: &Vec<u8>, message: &Vec<u8>, signature: &Vec<u8>) -> (r: bool)
    requires
        key@.len() == KEY_LENGTH,
        signature@.len() == SIGNATURE_LENGTH,
    ensures
        r == ed25519_verifies(key@, message@, signature@),
{
    let mut key_arr = [0u8; 32];
    key_arr.copy_from_slice(key.as_slice());
    let mut sig_arr = [0u8; 64];
    sig_arr.copy_from_slice(signature.as_slice());
    match ed25519_dalek::VerifyingKey::from_bytes(&key_arr) {
        Ok(vk) => vk.verify(message.as_slice(), &ed25519_dalek::Signature::from_bytes(&sig_arr))
            .is_ok(),
        Err(_) => false,
    }
}

/// The text `prefix` followed by the Base58 rendering of `payload`.
pub open spec fn prefixed_text(prefix: Seq<u8>, payload: Seq<u8>) -> Seq<u8> {
    prefix + b58_of(payload)
}

/// Whether two byte strings are equal.
pub(crate) fn bytes_eq(a: &Vec<u8>, b: &Vec<u8>) -> (r: bool)
    ensures
        r <==> a@ == b@,
{
    if a.len() != b.len() {
        proof {
            assert(a@.len() != b@.len());
        }
        return false;
    }
    let mut i: usize = 0;
    while i < a.len()
        invariant
            i <= a@.len(),
            a@.len() == b@.len(),
            forall|k: int| 0 <= k < i ==> a@[k] == b@[k],
        decreases a@.len() - i,
    {
        if a[i] != b[i] {
            return false;
        }
        i = i + 1;
    }
    proof {
        assert(a@ =~= b@);
    }
    true
}

/// Renders `prefix` followed by the Base58 text of `payload`.
pub(crate) fn render_prefixed(prefix: &Vec<u8>, payload: &Vec<u8>) -> (r: Vec<u8>)
    ensures
        r@ == prefixed_text(prefix@, payload@),
        forall|x: int| prefix@.len() <= x < r@.len() ==> (#[trigger] r@[x]) != 95u8,
{
    let mut out: Vec<u8> = Vec::new();
    let mut i: usize = 0;
    while i < prefix.len()
        invariant
            i <= prefix@.len(),
            out@ == prefix@.take(i as int),
        decreases prefix@.len() - i,
    {
        out.push(prefix[i]);
        proof {
            assert(prefix@.take(i + 1) =~= prefix@.take(i as int).push(prefix@[i as int]));
        }
        i = i + 1;
    }
    proof {
        assert(prefix@.take(prefix@.len() as int) =~= prefix@);
    }
    let mut tail = b58_encode(payload);
    out.append(&mut tail);
    out
}

/// Parses text of the form `prefix` + Base58 payload; returns the unique
/// payload, or nothing when the text has no such form.
pub(crate) fn parse_prefixed(prefix: &Vec<u8>, text: &Vec<u8>) -> (r: Option<Vec<u8>>)
    ensures
        r matches Some(v) ==> text@ == prefixed_text(prefix@, v@),
        r matches Some(v) ==> forall|bs: Seq<u8>|
            text@ == prefixed_text(prefix@, bs) ==> v@ == bs,
        r is None ==> forall|bs: Seq<u8>| text@ != prefixed_text(prefix@, bs),
{
    if text.len() < prefix.len() {
        proof {
            assert forall|bs: Seq<u8>| text@ != prefixed_text(prefix@, bs) by {
                assert(prefixed_text(prefix@, bs).len() >= prefix@.len());
            }
        }
        return None;
    }
    let mut i: usize = 0;
    while i < prefix.len()
        invariant
            i <= prefix@.len(),
            prefix@.len() <= text@.len(),
            forall|k: int| 0 <= k < i ==> text@[k] == prefix@[k],
        decreases prefix@.len() - i,
    {
        if text[i] != prefix[i] {
            proof {
                let bad = i as int;
                assert forall|bs: Seq<u8>| text@ != prefixed_text(prefix@, bs) by {
                    assert(prefixed_text(prefix@, bs)[bad] == prefix@[bad]);
                }
            }
            return None;
        }
        i = i + 1;
    }
    let mut rest: Vec<u8> = Vec::new();
    let mut j: usize = prefix.len();
    while j < text.len()
        invariant
            prefix@.len() <= j <= text@.len(),
            rest@ == text@.subrange(prefix@.len() as int, j as int),
        decreases text@.len() - j,
    {
        rest.push(text[j]);
        proof {
            assert(text@.subrange(prefix@.len() as int, j + 1) =~= text@.subrange(
                prefix@.len() as int,
                j as int,
            ).push(text@[j as int]));
        }
        j = j + 1;
    }
    proof {
        assert(text@ =~= prefix@ + text@.subrange(prefix@.len() as int, text@.len() as int));
    }
    let decoded = b58_decode(&rest);
    proof {
        if decoded is None {
            assert forall|bs: Seq<u8>| text@ != prefixed_text(prefix@, bs) by {
                if text@ == prefixed_text(prefix@, bs) {
                    assert((prefix@ + b58_of(bs)).subrange(
                        prefix@.len() as int,
                        text@.len() as int,
                    ) =~= b58_of(bs));
                    assert(b58_of(bs) == rest@);
                }
            }
        } else {
            let v = decoded->0;
            assert(text@ =~= prefixed_text(prefix@, v@));
            assert forall|bs: Seq<u8>| text@ == prefixed_text(prefix@, bs) implies v@ == bs by {
                assert((prefix@ + b58_of(bs)).subrange(
                    prefix@.len() as int,
                    text@.len() as int,
                ) =~= b58_of(bs));
                assert(b58_of(bs) == rest@);
            }
        }
    }
    decoded
}

/// The prefix of a textual hash: `hash_z`.
pub open spec fn hash_prefix() -> Seq<u8> {
    seq![104u8, 97u8, 115u8, 104u8, 95u8, 122u8]
}

/// The prefix of a textual short hash: `shortHash_z`.
pub open spec fn short_hash_prefix() -> Seq<u8> {
    seq![115u8, 104u8, 111u8, 114u8, 116u8, 72u8, 97u8, 115u8, 104u8, 95u8, 122u8]
}

/// The prefix of a textual signature: `signature_z`.
pub open spec fn signature_prefix() -> Seq<u8> {
    seq![115u8, 105u8, 103u8, 110u8, 97u8, 116u8, 117u8, 114u8, 101u8, 95u8, 122u8]
}

/// The prefix of a textual signer ID: `signer_z`.
pub open spec fn signer_prefix() -> Seq<u8> {
    seq![115u8, 105u8, 103u8, 110u8, 101u8, 114u8, 95u8, 122u8]
}

/// The prefix of a textual signer secret: `signerSecret_z`.
pub open spec fn signer_secret_prefix() -> Seq<u8> {
    seq![
        115u8,
        105u8,
        103u8,
        110u8,
        101u8,
        114u8,
        83u8,
        101u8,
        99u8,
        114u8,
        101u8,
        116u8,
        95u8,
        122u8,
    ]
}

/// The bytes of `hash_z`.
pub(crate) fn hash_prefix_vec() -> (r: Vec<u8>)
    ensures
        r@ == hash_prefix(),
{
    let mut v: Vec<u8> = Vec::new();
    v.push(104);
    v.push(97);
    v.push(115);
    v.push(104);
    v.push(95);
    v.push(122);
    proof {
        assert(v@ =~= hash_prefix());
    }
    v
}

/// The bytes of `shortHash_z`.
pub(crate) fn short_hash_prefix_vec() -> (r: Vec<u8>)
    ensures
        r@ == short_hash_prefix(),
{
    let mut v: Vec<u8> = Vec::new();
    v.push(115);
    v.push(104);
    v.push(111);
    v.push(114);
    v.push(116);
    v.push(72);
    v.push(97);
    v.push(115);
    v.push(104);
    v.push(95);
    v.push(122);
    proof {
        assert(v@ =~= short_hash_prefix());
    }
    v
}

/// The bytes of `signature_z`.
pub(crate) fn signature_prefix_vec() -> (r: Vec<u8>)
    ensures
        r@ == signature_prefix(),
{
    let mut v: Vec<u8> = Vec::new();
    v.push(115);
    v.push(105);
    v.push(103);
    v.push(110);
    v.push(97);
    v.push(116);
    v.push(117);
    v.push(114);
    v.push(101);
    v.push(95);
    v.push(122);
    proof {
        assert(v@ =~= signature_prefix());
    }
    v
}

/// The bytes of `signer_z`.
pub(crate) fn signer_prefix_vec() -> (r: Vec<u8>)
    ensures
        r@ == signer_prefix(),
{
    let mut v: Vec<u8> = Vec::new();
    v.push(115);
    v.push(105);
    v.push(103);
    v.push(110);
    v.push(101);
    v.push(114);
    v.push(95);
    v.push(122);
    proof {
        assert(v@ =~= signer_prefix());
    }
    v
}

/// The bytes of `signerSecret_z`.
pub(crate) fn signer_secret_prefix_vec() -> (r: Vec<u8>)
    ensures
        r@ == signer_secret_prefix(),
{
    let mut v: Vec<u8> = Vec::new();
    v.push(115);
    v.push(105);
    v.push(103);
    v.push(110);
    v.push(101);
    v.push(114);
    v.push(83);
    v.push(101);
    v.push(99);
    v.push(114);
    v.push(101);
    v.push(116);
    v.push(95);
    v.push(122);
    proof {
        assert(v@ =~= signer_secret_prefix());
    }
    v
}

/// A 32-byte BLAKE3 digest over the canonical JSON of a value.
///
/// Textually rendered as `hash_z` followed by the Base58 of the bytes.
#[derive(Debug)]
pub struct Hash {
    bytes: Vec<u8>,
}

impl View for Hash {
    type V = Seq<u8>;

    closed spec fn view(&self) -> Seq<u8> {
        self.bytes@
    }
}

impl Hash {
    /// A well-formed hash holds exactly 32 bytes.
    pub open spec fn wf(&self) -> bool {
        self@.len() == HASH_LENGTH
    }

    /// The BLAKE3 hash of the canonical JSON of `value`.
    pub fn new(value: &JsonValue) -> (r: Hash)
        requires
            json_height(value@) <= usize::MAX,
        ensures
            r@ == blake3_of(json_canon(value@, 0)),
            r.wf(),
    {
        let text = crate::json::json_to_bytes(value);
        Hash { bytes: blake3_hash_bytes(&text) }
    }

    /// A hash from its raw digest bytes.
    pub fn from_bytes(bytes: Vec<u8>) -> (r: Hash)
        requires
            bytes@.len() == HASH_LENGTH,
        ensures
            r@ == bytes@,
            r.wf(),
    {
        Hash { bytes }
    }

    /// The raw digest bytes.
    pub fn as_bytes(&self) -> (r: &Vec<u8>)
        ensures
            r@ == self@,
    {
        &self.bytes
    }

    /// An owned copy.
    pub fn duplicate(&self) -> (r: Hash)
        ensures
            r@ == self@,
    {
        Hash { bytes: copy_bytes(&self.bytes) }
    }

    /// The textual form `hash_z` + Base58.
    pub fn to_text(&self) -> (r: Vec<u8>)
        ensures
            r@ == prefixed_text(hash_prefix(), self@),
    {
        render_prefixed(&hash_prefix_vec(), &self.bytes)
    }

    /// Parses the textual form; inverts `to_text` exactly, and rejects any
    /// text that is not the rendering of a 32-byte digest.
    pub fn from_text(text: &Vec<u8>) -> (r: Result<Hash, CoValueError>)
        ensures
            r matches Ok(h) ==> h.wf() && text@ == prefixed_text(hash_prefix(), h@),
            r matches Ok(h) ==> forall|b: Seq<u8>|
                text@ == prefixed_text(hash_prefix(), b) ==> h@ == b,
            r is Err ==> forall|b: Seq<u8>|
                b.len() == HASH_LENGTH ==> text@ != prefixed_text(hash_prefix(), b),
            r matches Err(e) ==> e == CoValueError::MalformedEncoding,
    {
        match parse_prefixed(&hash_prefix_vec(), text) {
            Some(bytes) => {
                if bytes.len() == HASH_LENGTH {
                    Ok(Hash { bytes })
                } else {
                    Err(CoValueError::MalformedEncoding)
                }
            },
            None => Err(CoValueError::MalformedEncoding),
        }
    }
}

/// The first 19 bytes of a BLAKE3 digest; the basis of CoValue IDs.
#[derive(Debug)]
pub struct ShortHash {
    bytes: Vec<u8>,
}

impl View for ShortHash {
    type V = Seq<u8>;

    closed spec fn view(&self) -> Seq<u8> {
        self.bytes@
    }
}

impl ShortHash {
    /// A well-formed short hash holds exactly 19 bytes.
    pub open spec fn wf(&self) -> bool {
        self@.len() == SHORT_HASH_LENGTH
    }

    /// The first 19 bytes of the BLAKE3 hash of the canonical JSON of
    /// `value`.
    pub fn new(value: &JsonValue) -> (r: ShortHash)
        requires
            json_height(value@) <= usize::MAX,
        ensures
            r@ == blake3_of(json_canon(value@, 0)).take(SHORT_HASH_LENGTH as int),
            r.wf(),
    {
        let full = Hash::new(value);
        Self::truncating(&full)
    }

    /// Truncates a full hash to its first 19 bytes.
    pub fn truncating(hash: &Hash) -> (r: ShortHash)
        requires
            hash.wf(),
        ensures
            r@ == hash@.take(SHORT_HASH_LENGTH as int),
            r.wf(),
    {
        let full = hash.as_bytes();
        let mut bytes: Vec<u8> = Vec::new();
        let mut i: usize = 0;
        while i < SHORT_HASH_LENGTH
            invariant
                i <= SHORT_HASH_LENGTH,
                full@.len() == HASH_LENGTH,
                bytes@ == full@.take(i as int),
            decreases SHORT_HASH_LENGTH - i,
        {
            bytes.push(full[i]);
            proof {
                assert(full@.take(i + 1) =~= full@.take(i as int).push(full@[i as int]));
            }
            i = i + 1;
        }
        ShortHash { bytes }
    }

    /// The raw bytes.
    pub fn as_bytes(&self) -> (r: &Vec<u8>)
        ensures
            r@ == self@,
    {
        &self.bytes
    }

    /// The textual form `shortHash_z` + Base58.
    pub fn to_text(&self) -> (r: Vec<u8>)
        ensures
            r@ == prefixed_text(short_hash_prefix(), self@),
    {
        render_prefixed(&short_hash_prefix_vec(), &self.bytes)
    }

    /// Parses the textual form; inverts `to_text` exactly.
    pub fn from_text(text: &Vec<u8>) -> (r: Result<ShortHash, CoValueError>)
        ensures
            r matches Ok(h) ==> h.wf() && text@ == prefixed_text(short_hash_prefix(), h@),
            r matches Ok(h) ==> forall|b: Seq<u8>|
                text@ == prefixed_text(short_hash_prefix(), b) ==> h@ == b,
            r is Err ==> forall|b: Seq<u8>|
                b.len() == SHORT_HASH_LENGTH ==> text@ != prefixed_text(short_hash_prefix(), b),
            r matches Err(e) ==> e == CoValueError::MalformedEncoding,
    {
        match parse_prefixed(&short_hash_prefix_vec(), text) {
            Some(bytes) => {
                if bytes.len() == SHORT_HASH_LENGTH {
                    Ok(ShortHash { bytes })
                } else {
                    Err(CoValueError::MalformedEncoding)
                }
            },
            None => Err(CoValueError::MalformedEncoding),
        }
    }
}

/// A 64-byte Ed25519 signature.
#[derive(Debug)]
pub struct Signature {
    bytes: Vec<u8>,
}

impl View for Signature {
    type V = Seq<u8>;

    closed spec fn view(&self) -> Seq<u8> {
        self.bytes@
    }
}

impl Signature {
    /// A well-formed signature holds exactly 64 bytes.
    pub open spec fn wf(&self) -> bool {
        self@.len() == SIGNATURE_LENGTH
    }

    /// A signature from its raw bytes.
    pub fn new(bytes: Vec<u8>) -> (r: Signature)
        requires
            bytes@.len() == SIGNATURE_LENGTH,
        ensures
            r@ == bytes@,
            r.wf(),
    {
        Signature { bytes }
    }

    /// The all-zero signature, the placeholder before a real one is known.
    pub fn zero() -> (r: Signature)
        ensures
            r@ == Seq::new(SIGNATURE_LENGTH as nat, |i: int| 0u8),
            r.wf(),
    {
        let mut bytes: Vec<u8> = Vec::new();
        let mut i: usize = 0;
        while i < SIGNATURE_LENGTH
            invariant
                i <= SIGNATURE_LENGTH,
                bytes@ == Seq::new(i as nat, |k: int| 0u8),
            decreases SIGNATURE_LENGTH - i,
        {
            bytes.push(0);
            proof {
                assert(Seq::new((i + 1) as nat, |k: int| 0u8) =~= Seq::new(
                    i as nat,
                    |k: int| 0u8,
                ).push(0u8));
            }
            i = i + 1;
        }
        Signature { bytes }
    }

    /// The raw bytes.
    pub fn as_bytes(&self) -> (r: &Vec<u8>)
        ensures
            r@ == self@,
    {
        &self.bytes
    }

    /// An owned copy.
    pub fn duplicate(&self) -> (r: Signature)
        ensures
            r@ == self@,
    {
        Signature { bytes: copy_bytes(&self.bytes) }
    }

    /// The textual form `signature_z` + Base58.
    pub fn to_text(&self) -> (r: Vec<u8>)
        ensures
            r@ == prefixed_text(signature_prefix(), self@),
    {
        render_prefixed(&signature_prefix_vec(), &self.bytes)
    }

    /// Parses the textual form; inverts `to_text` exactly.
    pub fn from_text(text: &Vec<u8>) -> (r: Result<Signature, CoValueError>)
        ensures
            r matches Ok(s) ==> s.wf() && text@ == prefixed_text(signature_prefix(), s@),
            r matches Ok(s) ==> forall|b: Seq<u8>|
                text@ == prefixed_text(signature_prefix(), b) ==> s@ == b,
            r is Err ==> forall|b: Seq<u8>|
                b.len() == SIGNATURE_LENGTH ==> text@ != prefixed_text(signature_prefix(), b),
            r matches Err(e) ==> e == CoValueError::MalformedEncoding,
    {
        match parse_prefixed(&signature_prefix_vec(), text) {
            Some(bytes) => {
                if bytes.len() == SIGNATURE_LENGTH {
                    Ok(Signature { bytes })
                } else {
                    Err(CoValueError::MalformedEncoding)
                }
            },
            None => Err(CoValueError::MalformedEncoding),
        }
    }
}

/// An Ed25519 verifying key identifying a signer.
#[derive(Debug)]
pub struct SignerID {
    bytes: Vec<u8>,
}

impl View for SignerID {
    type V = Seq<u8>;

    closed spec fn view(&self) -> Seq<u8> {
        self.bytes@
    }
}

impl SignerID {
    /// A well-formed signer ID holds exactly 32 bytes.
    pub open spec fn wf(&self) -> bool {
        self@.len() == KEY_LENGTH
    }

    /// A signer ID from the raw bytes of a verifying key.
    pub fn new(bytes: Vec<u8>) -> (r: SignerID)
        requires
            bytes@.len() == KEY_LENGTH,
        ensures
            r@ == bytes@,
            r.wf(),
    {
        SignerID { bytes }
    }

    /// The raw bytes.
    pub fn as_bytes(&self) -> (r: &Vec<u8>)
        ensures
            r@ == self@,
    {
        &self.bytes
    }

    /// An owned copy.
    pub fn duplicate(&self) -> (r: SignerID)
        ensures
            r@ == self@,
    {
        SignerID { bytes: copy_bytes(&self.bytes) }
    }

    /// Checks `signature` over the canonical JSON of `message` under this
    /// key; errs with `SignatureInvalid` exactly when verification fails.
    pub fn verify(&self, message: &JsonValue, signature: &Signature) -> (r: Result<
        (),
        CoValueError,
    >)
        requires
            self.wf(),
            signature.wf(),
            json_height(message@) <= usize::MAX,
        ensures
            r is Ok <==> ed25519_verifies(self@, json_canon(message@, 0), signature@),
            r matches Err(e) ==> e == CoValueError::SignatureInvalid,
    {
        let text = crate::json::json_to_bytes(message);
        if ed25519_verify_bytes(&self.bytes, &text, &signature.bytes) {
            Ok(())
        } else {
            Err(CoValueError::SignatureInvalid)
        }
    }

    /// The textual form `signer_z` + Base58.
    pub fn to_text(&self) -> (r: Vec<u8>)
        ensures
            r@ == prefixed_text(signer_prefix(), self@),
    {
        render_prefixed(&signer_prefix_vec(), &self.bytes)
    }

    /// Parses the textual form; inverts `to_text` exactly.
    pub fn from_text(text: &Vec<u8>) -> (r: Result<SignerID, CoValueError>)
        ensures
            r matches Ok(s) ==> s.wf() && text@ == prefixed_text(signer_prefix(), s@),
            r matches Ok(s) ==> forall|b: Seq<u8>|
                text@ == prefixed_text(signer_prefix(), b) ==> s@ == b,
            r is Err ==> forall|b: Seq<u8>|
                b.len() == KEY_LENGTH ==> text@ != prefixed_text(signer_prefix(), b),
            r matches Err(e) ==> e == CoValueError::MalformedEncoding,
    {
        match parse_prefixed(&signer_prefix_vec(), text) {
            Some(bytes) => {
                if bytes.len() == KEY_LENGTH {
                    Ok(SignerID { bytes })
                } else {
                    Err(CoValueError::MalformedEncoding)
                }
            },
            None => Err(CoValueError::MalformedEncoding),
        }
    }
}

/// An Ed25519 signing key.
#[derive(Debug)]
pub struct SignerSecret {
    bytes: Vec<u8>,
}

impl View for SignerSecret {
    type V = Seq<u8>;

    closed spec fn view(&self) -> Seq<u8> {
        self.bytes@
    }
}

impl SignerSecret {
    /// A well-formed signer secret holds exactly 32 bytes.
    pub open spec fn wf(&self) -> bool {
        self@.len() == KEY_LENGTH
    }

    /// A signer secret from the raw bytes of a signing key.  Every 32-byte
    /// string is a valid Ed25519 signing key.
    pub fn new(bytes: Vec<u8>) -> (r: SignerSecret)
        requires
            bytes@.len() == KEY_LENGTH,
        ensures
            r@ == bytes@,
            r.wf(),
    {
        SignerSecret { bytes }
    }

    /// The raw bytes.
    pub fn as_bytes(&self) -> (r: &Vec<u8>)
        ensures
            r@ == self@,
    {
        &self.bytes
    }

    /// The verifying key of this signing key.
    pub fn verifying_key(&self) -> (r: SignerID)
        requires
            self.wf(),
        ensures
            r@ == ed25519_public(self@),
            r.wf(),
    {
        SignerID { bytes: ed25519_public_bytes(&self.bytes) }
    }

    /// Signs the canonical JSON of `message`; the signature verifies
    /// under this key's verifying key.
    pub fn sign(&self, message: &JsonValue) -> (r: Signature)
        requires
            self.wf(),
            json_height(message@) <= usize::MAX,
        ensures
            r@ == ed25519_sign(self@, json_canon(message@, 0)),
            r.wf(),
            ed25519_verifies(ed25519_public(self@), json_canon(message@, 0), r@),
    {
        let text = crate::json::json_to_bytes(message);
        Signature { bytes: ed25519_sign_bytes(&self.bytes, &text) }
    }

    /// Checks `signature` over the canonical JSON of `message` under this
    /// key's verifying key.
    pub fn verify(&self, message: &JsonValue, signature: &Signature) -> (r: Result<
        (),
        CoValueError,
    >)
        requires
            self.wf(),
            signature.wf(),
            json_height(message@) <= usize::MAX,
        ensures
            r is Ok <==> ed25519_verifies(
                ed25519_public(self@),
                json_canon(message@, 0),
                signature@,
            ),
            r matches Err(e) ==> e == CoValueError::SignatureInvalid,
    {
        self.verifying_key().verify(message, signature)
    }

    /// The textual form `signerSecret_z` + Base58.
    pub fn to_text(&self) -> (r: Vec<u8>)
        ensures
            r@ == prefixed_text(signer_secret_prefix(), self@),
    {
        render_prefixed(&signer_secret_prefix_vec(), &self.bytes)
    }

    /// Parses the textual form; inverts `to_text` exactly.
    pub fn from_text(text: &Vec<u8>) -> (r: Result<SignerSecret, CoValueError>)
        ensures
            r matches Ok(s) ==> s.wf() && text@ == prefixed_text(signer_secret_prefix(), s@),
            r matches Ok(s) ==> forall|b: Seq<u8>|
                text@ == prefixed_text(signer_secret_prefix(), b) ==> s@ == b,
            r is Err ==> forall|b: Seq<u8>|
                b.len() == KEY_LENGTH ==> text@ != prefixed_text(signer_secret_prefix(), b),
            r matches Err(e) ==> e == CoValueError::MalformedEncoding,
    {
        match parse_prefixed(&signer_secret_prefix_vec(), text) {
            Some(bytes) => {
                if bytes.len() == KEY_LENGTH {
                    Ok(SignerSecret { bytes })
                } else {
                    Err(CoValueError::MalformedEncoding)
                }
            },
            None => Err(CoValueError::MalformedEncoding),
        }
    }
}

/// An owned copy of a byte string.
pub fn copy_bytes(v: &Vec<u8>) -> (r: Vec<u8>)
    ensures
        r@ == v@,
{
    let mut out: Vec<u8> = Vec::new();
    let mut i: usize = 0;
    while i < v.len()
        invariant
            i <= v@.len(),
            out@ == v@.take(i as int),
        decreases v@.len() - i,
    {
        out.push(v[i]);
        proof {
            assert(v@.take(i + 1) =~= v@.take(i as int).push(v@[i as int]));
        }
        i = i + 1;
    }
    proof {
        assert(v@.take(v@.len() as int) =~= v@);
    }
    out
}

/// An incremental BLAKE3 digest over a growing transcript of bytes.
///
/// The ghost `consumed` transcript records exactly the bytes fed so far; the
/// digest is trusted (through the wrappers below) to be the BLAKE3 hash of
/// that transcript.
pub struct StreamingHash {
    hasher: blake3::Hasher,
    consumed: Ghost<Seq<u8>>,
}

impl StreamingHash {
    /// The transcript of bytes consumed so far.
    pub closed spec fn consumed_bytes(&self) -> Seq<u8> {
        self.consumed@
    }

    /// A fresh hasher with an empty transcript.
    pub fn new() -> (r: StreamingHash)
        ensures
            r.consumed_bytes() == Seq::<u8>::empty(),
    {
        StreamingHash { hasher: blake3_hasher_new(), consumed: Ghost(Seq::empty()) }
    }

    /// Relies on `blake3::Hasher::update`: feeding bytes extends the hashed
    /// input; incremental hashing digests the concatenation of all updates.
    #[verifier::external_body]
    pub fn update(&mut self, bytes: &Vec<u8>)
        ensures
            final(self).consumed_bytes() == old(self).consumed_bytes() + bytes@,
    {
        self.hasher.update(bytes.as_slice());
    }

    /// Relies on `blake3::Hasher::finalize`: the digest of everything
    /// consumed, equal to the one-shot BLAKE3 hash of the concatenation;
    /// idempotent, the state is not disturbed.
    #[verifier::external_body]
    pub fn digest(&self) -> (r: Hash)
        ensures
            r@ == blake3_of(self.consumed_bytes()),
            r.wf(),
    {
        Hash { bytes: self.hasher.finalize().as_bytes().to_vec() }
    }

    /// Relies on `blake3::Hasher::clone`: a clone continues the same hash
    /// chain independently.
    #[verifier::external_body]
    pub fn clone_state(&self) -> (r: StreamingHash)
        ensures
            r.consumed_bytes() == self.consumed_bytes(),
    {
        StreamingHash { hasher: self.hasher.clone(), consumed: self.consumed }
    }
}

} // verus!
