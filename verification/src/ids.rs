//! Identifiers: CoValue IDs, typed ID aliases, session IDs.

use vstd::prelude::*;

use crate::covalue::RawCoValue;
use crate::crypto::{
    copy_bytes, parse_prefixed, prefixed_text, render_prefixed, ShortHash, SHORT_HASH_LENGTH,
};
use crate::errors::CoValueError;
use crate::permission::Account;

verus! {

/// The prefix of a textual CoValue ID: `co_z`.
pub open spec fn co_prefix() -> Seq<u8> {
    seq![99u8, 111u8, 95u8, 122u8]
}

/// The bytes of `co_z`.
pub(crate) fn co_prefix_vec() -> (r: Vec<u8>)
    ensures
        r@ == co_prefix(),
{
    let mut v: Vec<u8> = Vec::new();
    v.push(99);
    v.push(111);
    v.push(95);
    v.push(122);
    proof {
        assert(v@ =~= co_prefix());
    }
    v
}

/// The textual form of a raw CoValue ID: `co_z` + Base58 of the first 19
/// bytes (or of nothing, when fewer than 19 bytes are held).
pub open spec fn raw_co_id_text(b: Seq<u8>) -> Seq<u8> {
    if b.len() >= SHORT_HASH_LENGTH {
        prefixed_text(co_prefix(), b.take(SHORT_HASH_LENGTH as int))
    } else {
        prefixed_text(co_prefix(), Seq::empty())
    }
}

/// A raw CoValue ID: the short hash of the CoValue's header.
#[derive(Debug)]
pub struct RawCoID {
    bytes: Vec<u8>,
}

impl View for RawCoID {
    type V = Seq<u8>;

    closed spec fn view(&self) -> Seq<u8> {
        self.bytes@
    }
}

impl RawCoID {
    /// An ID from its raw bytes.
    pub fn new(bytes: Vec<u8>) -> (r: RawCoID)
        ensures
            r@ == bytes@,
    {
        RawCoID { bytes }
    }

    /// An ID from the short hash of a header.
    pub fn from_short_hash(hash: &ShortHash) -> (r: RawCoID)
        ensures
            r@ == hash@,
    {
        RawCoID { bytes: copy_bytes(hash.as_bytes()) }
    }

    /// The raw bytes.
    pub fn as_bytes(&self) -> (r: &Vec<u8>)
        ensures
            r@ == self@,
    {
        &self.bytes
    }

    /// An owned copy.
    pub fn duplicate(&self) -> (r: RawCoID)
        ensures
            r@ == self@,
    {
        RawCoID { bytes: copy_bytes(&self.bytes) }
    }

    /// The textual form `co_z` + Base58 of the first 19 bytes.  Past the
    /// prefix the text is Base58 and in particular holds no underscore.
    pub fn to_text(&self) -> (r: Vec<u8>)
        ensures
            r@ == raw_co_id_text(self@),
            forall|x: int|
                co_prefix().len() <= x < r@.len() ==> (#[trigger] r@[x]) != 95u8,
    {
        let payload: Vec<u8>;
        if self.bytes.len() >= SHORT_HASH_LENGTH {
            let mut p: Vec<u8> = Vec::new();
            let mut i: usize = 0;
            while i < SHORT_HASH_LENGTH
                invariant
                    i <= SHORT_HASH_LENGTH,
                    self@.len() >= SHORT_HASH_LENGTH,
                    p@ == self@.take(i as int),
                decreases SHORT_HASH_LENGTH - i,
            {
                p.push(self.bytes[i]);
                proof {
                    assert(self@.take(i + 1) =~= self@.take(i as int).push(self@[i as int]));
                }
                i = i + 1;
            }
            payload = p;
        } else {
            payload = Vec::new();
        }
        render_prefixed(&co_prefix_vec(), &payload)
    }

    /// Parses the textual form `co_z` + Base58; the decoded bytes may have
    /// any length, as the text may have been truncated at rendering.
    pub fn from_text(text: &Vec<u8>) -> (r: Result<RawCoID, CoValueError>)
        ensures
            r matches Ok(id) ==> text@ == prefixed_text(co_prefix(), id@),
            r matches Ok(id) ==> forall|b: Seq<u8>|
                text@ == prefixed_text(co_prefix(), b) ==> id@ == b,
            r is Err ==> forall|b: Seq<u8>| text@ != prefixed_text(co_prefix(), b),
            r matches Err(e) ==> e == CoValueError::MalformedEncoding,
    {
        match parse_prefixed(&co_prefix_vec(), text) {
            Some(bytes) => Ok(RawCoID { bytes }),
            None => Err(CoValueError::MalformedEncoding),
        }
    }
}

/// A typed CoValue ID: a raw ID tagged with the kind of CoValue it names.
pub struct CoID<T: RawCoValue> {
    raw: RawCoID,
    marker: core::marker::PhantomData<T>,
}

impl<T: RawCoValue> View for CoID<T> {
    type V = Seq<u8>;

    closed spec fn view(&self) -> Seq<u8> {
        self.raw@
    }
}

impl<T: RawCoValue> CoID<T> {
    /// Tags a raw ID.
    pub fn new(id: RawCoID) -> (r: CoID<T>)
        ensures
            r@ == id@,
    {
        CoID { raw: id, marker: core::marker::PhantomData }
    }

    /// The raw ID.
    pub fn raw(&self) -> (r: &RawCoID)
        ensures
            r@ == self@,
    {
        &self.raw
    }

    /// An owned copy.
    pub fn duplicate(&self) -> (r: CoID<T>)
        ensures
            r@ == self@,
    {
        CoID { raw: self.raw.duplicate(), marker: core::marker::PhantomData }
    }
}

/// The ID of an account.
pub type RawAccountID = CoID<Account>;

/// A session: an account together with a nonce distinguishing concurrent
/// sessions of the same account.
pub struct SessionID {
    account: RawAccountID,
    nonce: Vec<u8>,
}

impl View for SessionID {
    type V = (Seq<u8>, Seq<u8>);

    closed spec fn view(&self) -> (Seq<u8>, Seq<u8>) {
        (self.account@, self.nonce@)
    }
}

impl SessionID {
    /// A session ID from an account ID and a nonce.
    pub fn new(raw_account_id: RawAccountID, random_string: Vec<u8>) -> (r: SessionID)
        ensures
            r@ == (raw_account_id@, random_string@),
    {
        SessionID { account: raw_account_id, nonce: random_string }
    }

    /// The account part.
    pub fn account(&self) -> (r: &RawAccountID)
        ensures
            r@ == self@.0,
    {
        &self.account
    }

    /// The nonce part.
    pub fn nonce(&self) -> (r: &Vec<u8>)
        ensures
            r@ == self@.1,
    {
        &self.nonce
    }

    /// An owned copy.
    pub fn duplicate(&self) -> (r: SessionID)
        ensures
            r@ == self@,
    {
        SessionID { account: self.account.duplicate(), nonce: copy_bytes(&self.nonce) }
    }

    /// Whether two session IDs name the same session.
    pub fn same_as(&self, other: &SessionID) -> (r: bool)
        ensures
            r <==> self@ == other@,
    {
        crate::crypto::bytes_eq(self.account.raw().as_bytes(), other.account.raw().as_bytes())
            && crate::crypto::bytes_eq(&self.nonce, &other.nonce)
    }
}

/// The separator of a textual session ID: `_session_z`.
pub open spec fn session_sep() -> Seq<u8> {
    seq![95u8, 115u8, 101u8, 115u8, 115u8, 105u8, 111u8, 110u8, 95u8, 122u8]
}

/// The bytes of `_session_z`.
pub(crate) fn session_sep_vec() -> (r: Vec<u8>)
    ensures
        r@ == session_sep(),
{
    let mut v: Vec<u8> = Vec::new();
    v.push(95);
    v.push(115);
    v.push(101);
    v.push(115);
    v.push(115);
    v.push(105);
    v.push(111);
    v.push(110);
    v.push(95);
    v.push(122);
    proof {
        assert(v@ =~= session_sep());
    }
    v
}

/// Whether the separator stands at position `i` of `t`.
pub open spec fn sep_at(t: Seq<u8>, i: int) -> bool {
    0 <= i && i + 10 <= t.len() && t.subrange(i, i + 10) == session_sep()
}

/// The first position of the separator at or after `i`, if any.
pub open spec fn first_sep_from(t: Seq<u8>, i: int) -> Option<int>
    decreases t.len() - i,
{
    if i < 0 || i + 10 > t.len() {
        None
    } else if sep_at(t, i) {
        Some(i)
    } else {
        first_sep_from(t, i + 1)
    }
}

/// The first position of the separator in `t`, if any.
pub open spec fn first_sep(t: Seq<u8>) -> Option<int> {
    first_sep_from(t, 0)
}

/// The first position found is a separator position with none before it.
pub proof fn lemma_first_sep_sound(t: Seq<u8>, i: int)
    requires
        0 <= i,
    ensures
        match first_sep_from(t, i) {
            Some(j) => i <= j && sep_at(t, j) && (forall|m: int| i <= m < j ==> !sep_at(t, m)),
            None => forall|m: int| m >= i ==> !sep_at(t, m),
        },
    decreases t.len() - i,
{
    if i + 10 > t.len() {
        assert forall|m: int| m >= i implies !sep_at(t, m) by {
            assert(m + 10 > t.len());
        }
    } else if sep_at(t, i) {
    } else {
        lemma_first_sep_sound(t, i + 1);
    }
}

/// A separator position with none before it is the first one.
pub proof fn lemma_first_sep_complete(t: Seq<u8>, i: int, j: int)
    requires
        0 <= i <= j,
        sep_at(t, j),
        forall|m: int| i <= m < j ==> !sep_at(t, m),
    ensures
        first_sep_from(t, i) == Some(j),
    decreases t.len() - i,
{
    assert(j + 10 <= t.len());
    if i == j {
    } else {
        assert(!sep_at(t, i));
        lemma_first_sep_complete(t, i + 1, j);
    }
}

/// The textual form of a session ID: the account's textual ID, the
/// separator, and the nonce verbatim.
pub open spec fn session_id_text(account: Seq<u8>, nonce: Seq<u8>) -> Seq<u8> {
    raw_co_id_text(account) + session_sep() + nonce
}

impl SessionID {
    /// The textual form `{account}_session_z{nonce}`.  For a 19-byte
    /// account ID the separator written here is also the first one in the
    /// text (the Base58 account part holds no underscore), so parsing
    /// splits exactly where rendering joined.
    pub fn to_text(&self) -> (r: Vec<u8>)
        ensures
            r@ == session_id_text(self@.0, self@.1),
            first_sep(r@) == Some(raw_co_id_text(self@.0).len() as int),
    {
        let co_text = self.account.raw().to_text();
        let ghost co_len = co_text@.len() as int;
        let mut out = crate::crypto::copy_bytes(&co_text);
        let mut sep = session_sep_vec();
        out.append(&mut sep);
        let mut nonce_copy = crate::crypto::copy_bytes(&self.nonce);
        out.append(&mut nonce_copy);
        proof {
            assert(out@ =~= session_id_text(self@.0, self@.1));
            let t = out@;
            assert(t.subrange(co_len, co_len + 10) =~= session_sep());
            assert(sep_at(t, co_len));
            assert forall|m: int| 0 <= m < co_len implies !sep_at(t, m) by {
                if sep_at(t, m) {
                    assert(t.subrange(m, m + 10)[0] == t[m]);
                    assert(t[m] == 95u8);
                    assert(t[m] == co_text@[m]);
                    if m < 4 {
                        assert(co_text@[0] == 99u8 && co_text@[1] == 111u8 && co_text@[2] == 95u8
                            && co_text@[3] == 122u8) by {
                            assert(co_prefix().len() == 4);
                            assert(raw_co_id_text(self@.0)[0] == co_prefix()[0]);
                            assert(raw_co_id_text(self@.0)[1] == co_prefix()[1]);
                            assert(raw_co_id_text(self@.0)[2] == co_prefix()[2]);
                            assert(raw_co_id_text(self@.0)[3] == co_prefix()[3]);
                            assert(co_len >= 4) by {
                                assert(m < co_len);
                            }
                        }
                        assert(m == 2);
                        assert(t.subrange(m, m + 10)[1] == t[m + 1]);
                        assert(t[3] == session_sep()[1]);
                        assert(t[3] == 122u8 && session_sep()[1] == 115u8);
                    } else {
                        assert(co_text@[m] != 95u8);
                    }
                }
            }
            lemma_first_sep_complete(t, 0, co_len);
        }
        out
    }

    /// Parses `{account}_session_z{nonce}`: the text splits at the first
    /// separator occurrence, the part before it parses as a textual
    /// CoValue ID, and the rest is the nonce verbatim.  Fails exactly when
    /// no separator occurs or the part before the first one is not a
    /// textual CoValue ID.
    pub fn from_text(text: &Vec<u8>) -> (r: Result<SessionID, CoValueError>)
        ensures
            r matches Ok(sid) ==> ({
                &&& first_sep(text@) matches Some(ix)
                &&& text@.take(ix) == prefixed_text(co_prefix(), sid@.0)
                &&& sid@.1 == text@.skip(ix + 10)
                &&& (forall|b: Seq<u8>|
                    text@.take(ix) == prefixed_text(co_prefix(), b) ==> sid@.0 == b)
            }),
            r matches Ok(sid) ==> (sid@.0.len() == SHORT_HASH_LENGTH ==> text@
                == session_id_text(sid@.0, sid@.1)),
            r is Err ==> (first_sep(text@) is None || (forall|b: Seq<u8>|
                text@.take(first_sep(text@)->0) != prefixed_text(co_prefix(), b))),
            r matches Err(e) ==> e == CoValueError::MalformedEncoding,
    {
        let sep = session_sep_vec();
        let total = text.len();
        let mut j: usize = 0;
        let mut found: Option<usize> = None;
        while total >= 10 && j <= total - 10 && found.is_none()
            invariant
                total == text@.len(),
                sep@ == session_sep(),
                j <= total,
                match found {
                    Some(ix) => ix == j && sep_at(text@, ix as int) && (forall|m: int|
                        0 <= m < ix ==> !sep_at(text@, m)),
                    None => forall|m: int| 0 <= m < j ==> !sep_at(text@, m),
                },
            decreases total - j + (if found is None {
                1int
            } else {
                0int
            }),
        {
            let mut w: usize = 0;
            let mut matches_here = true;
            while w < 10
                invariant
                    w <= 10,
                    total == text@.len(),
                    sep@ == session_sep(),
                    j + 10 <= total,
                    matches_here ==> forall|x: int| 0 <= x < w ==> text@[j + x] == session_sep()[x],
                    !matches_here ==> !sep_at(text@, j as int),
                decreases 10 - w,
            {
                if matches_here {
                    if text[j + w] != sep[w] {
                        proof {
                            if sep_at(text@, j as int) {
                                assert(text@.subrange(j as int, j + 10)[w as int] == text@[j + w]);
                            }
                        }
                        matches_here = false;
                    }
                }
                w = w + 1;
            }
            if matches_here {
                proof {
                    assert(text@.subrange(j as int, j + 10) =~= session_sep());
                }
                found = Some(j);
            } else {
                j = j + 1;
            }
        }
        match found {
            Some(ix) => {
                proof {
                    lemma_first_sep_complete(text@, 0, ix as int);
                }
                let mut prefix_part: Vec<u8> = Vec::new();
                let mut a: usize = 0;
                while a < ix
                    invariant
                        a <= ix,
                        ix as int + 10 <= text@.len(),
                        prefix_part@ == text@.take(a as int),
                    decreases ix - a,
                {
                    prefix_part.push(text[a]);
                    proof {
                        assert(text@.take(a + 1) =~= text@.take(a as int).push(text@[a as int]));
                    }
                    a = a + 1;
                }
                match RawCoID::from_text(&prefix_part) {
                    Ok(id) => {
                        let mut nonce: Vec<u8> = Vec::new();
                        let mut b = ix + 10;
                        while b < total
                            invariant
                                ix + 10 <= b <= total,
                                total == text@.len(),
                                nonce@ == text@.subrange(ix as int + 10, b as int),
                            decreases total - b,
                        {
                            nonce.push(text[b]);
                            proof {
                                assert(text@.subrange(ix as int + 10, b + 1) =~= text@.subrange(
                                    ix as int + 10,
                                    b as int,
                                ).push(text@[b as int]));
                            }
                            b = b + 1;
                        }
                        proof {
                            assert(nonce@ =~= text@.skip(ix as int + 10));
                        }
                        let sid = SessionID::new(RawAccountID::new(id), nonce);
                        proof {
                            if sid@.0.len() == SHORT_HASH_LENGTH {
                                assert(sid@.0.take(SHORT_HASH_LENGTH as int) =~= sid@.0);
                                assert(raw_co_id_text(sid@.0) == prefixed_text(
                                    co_prefix(),
                                    sid@.0,
                                ));
                                assert(text@ =~= text@.take(ix as int) + text@.subrange(
                                    ix as int,
                                    ix as int + 10,
                                ) + text@.skip(ix as int + 10));
                                assert(text@.subrange(ix as int, ix as int + 10)
                                    == session_sep());
                                assert(text@ == session_id_text(sid@.0, sid@.1));
                            }
                        }
                        Ok(sid)
                    },
                    Err(_) => Err(CoValueError::MalformedEncoding),
                }
            },
            None => {
                proof {
                    assert forall|m: int| 0 <= m implies !sep_at(text@, m) by {
                        if m < j {
                        } else {
                            assert(m + 10 > text@.len());
                        }
                    }
                    if first_sep(text@) is Some {
                        lemma_first_sep_sound(text@, 0);
                    }
                }
                Err(CoValueError::MalformedEncoding)
            },
        }
    }
}

/// The position of one transaction: a session and an index into its log.
pub struct TransactionID {
    pub session_id: SessionID,
    pub tx_index: usize,
}

impl TransactionID {
    /// A transaction position.
    pub fn new(session_id: SessionID, tx_index: usize) -> (r: TransactionID)
        ensures
            r.session_id@ == session_id@,
            r.tx_index == tx_index,
    {
        TransactionID { session_id, tx_index }
    }
}

} // verus!
