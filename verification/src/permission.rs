//! Accounts and their roles.

use vstd::prelude::*;

use crate::covalue::RawCoValue;
use crate::crypto::{ed25519_public, ed25519_sign, Signature, SignerID, SignerSecret};

verus! {

/// The standing roles an account can hold on a group.
pub enum AccountRole {
    Reader,
    Writer,
    Admin,
    WriteOnly,
}

/// A role entry: a standing account role, a revocation, or an invite.
pub enum Role {
    Account { role: AccountRole },
    Revoked,
    AdminInvite,
    WriterInvite,
    ReaderInvite,
    WriteOnlyInvite,
}

/// An account: the holder of a signing key.
pub struct Account {
    signing_key: SignerSecret,
}

impl RawCoValue for Account {

}

impl View for Account {
    type V = Seq<u8>;

    closed spec fn view(&self) -> Seq<u8> {
        self.signing_key@
    }
}

impl Account {
    /// A well-formed account holds a 32-byte signing key.
    pub open spec fn wf(&self) -> bool {
        self@.len() == crate::crypto::KEY_LENGTH
    }

    /// Creates a new account with the given signing key.
    pub fn new(signing_key: SignerSecret) -> (r: Account)
        ensures
            r@ == signing_key@,
    {
        Account { signing_key }
    }

    /// The public key of the account.
    pub fn verifying_key(&self) -> (r: SignerID)
        requires
            self.wf(),
        ensures
            r@ == ed25519_public(self@),
            r.wf(),
    {
        self.signing_key.verifying_key()
    }

    /// Signs a message with the account's private key; the signature
    /// verifies under the account's verifying key.
    pub fn sign(&self, message: &Vec<u8>) -> (r: Signature)
        requires
            self.wf(),
        ensures
            r@ == ed25519_sign(self@, message@),
            r.wf(),
            crate::crypto::ed25519_verifies(ed25519_public(self@), message@, r@),
    {
        Signature::new(crate::crypto::ed25519_sign_bytes(self.signing_key.as_bytes(), message))
    }
}

} // verus!
