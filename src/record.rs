//! The credential record, its mathematical view, and the errors of the vault.

use vstd::prelude::*;

verus! {

/// One credential record. Its place in the vault is its only identity.
#[derive(Clone, Debug, PartialEq, Eq)]
pub struct JsonDatabseKMH {
    pub title: String,
    pub username: String,
    pub password: String,
    pub notes: String,
}

/// What a record holds, as character sequences.
pub struct CredentialView {
    pub title: Seq<char>,
    pub username: Seq<char>,
    pub password: Seq<char>,
    pub notes: Seq<char>,
}

impl View for JsonDatabseKMH {
    type V = CredentialView;

    open spec fn view(&self) -> CredentialView {
        CredentialView {
            title: self.title@,
            username: self.username@,
            password: self.password@,
            notes: self.notes@,
        }
    }
}

/// The views of a sequence of records, in order.
pub open spec fn view_records(records: Seq<JsonDatabseKMH>) -> Seq<CredentialView> {
    records.map_values(|r: JsonDatabseKMH| r@)
}

impl JsonDatabseKMH {
    /// A record made of the four given fields.
    pub fn new(title: String, username: String, password: String, notes: String) -> (r: Self)
        ensures
            r@ == (CredentialView {
                title: title@,
                username: username@,
                password: password@,
                notes: notes@,
            }),
    {
        JsonDatabseKMH { title, username, password, notes }
    }
}

/// Why an operation of the vault failed.
#[derive(Clone, Copy, Debug, PartialEq, Eq, Structural)]
pub enum VaultError {
    /// AES-256-GCM rejected the envelope's tag: wrong secret or corrupted file.
    AuthFailure,
    /// The decrypted bytes are not the text encoding of a record list.
    DecodeFailure,
    /// No record stands at the given index.
    IndexOutOfRange,
    /// The payload is longer than the cipher suite can process.
    TooLarge,
}

} // verus!
