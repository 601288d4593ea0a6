//! The session around a vault: naming the cipher suite and the export
//! format, creating a new vault, and the operations that the interactive
//! shell asks for, from an unlocked vault until the session ends.

use crate::cipher::{seal_envelope, Encryption};
use crate::codec::records_text;
use crate::crypto::{Contents, encrypt_database, vault_contents};
use crate::keys::{key_of, MAX_SECRET_LEN};
use crate::record::{CredentialView, JsonDatabseKMH, VaultError};
use crate::vault::{export_row, modified, DBManage};
use crate::text::{is_word, lower_of, to_lowercase};
use vstd::prelude::*;
use vstd::string::StrSliceExecFns;
use vstd::utf8::*;

verus! {

/// How the master secret is supplied: typed as a password, or read from a
/// keyfile.
#[derive(Clone, Copy, Debug, PartialEq, Eq, Structural)]
pub enum LoginType {
    PASSWORD,
    FILE,
}

/// The formats a vault can be exported to.
#[derive(Clone, Copy, Debug, PartialEq, Eq, Structural)]
pub enum FormatExport {
    CSV,
}

/// The suite that a lowercase name stands for.
pub open spec fn suite_named(name: Seq<char>) -> Option<Encryption> {
    if name == seq!['a', 'e', 's', '2', '5', '6'] {
        Some(Encryption::AES256GCM)
    } else if name == seq!['s', 'a', 'l', 's', 'a', '2', '0'] {
        Some(Encryption::SALSA20)
    } else if name == seq!['c', 'h', 'a', 'c', 'h', 'a', '2', '0'] {
        Some(Encryption::CHACHA20)
    } else {
        None
    }
}

/// The export format that a lowercase name stands for.
pub open spec fn format_named(name: Seq<char>) -> Option<FormatExport> {
    if name == seq!['c', 's', 'v'] {
        Some(FormatExport::CSV)
    } else {
        None
    }
}

/// The suite named by an already lowercase name: `aes256`, `salsa20` or
/// `chacha20`.
pub fn encryption_from_lowercase(name: &str) -> (r: Option<Encryption>)
    ensures
        r == suite_named(name@),
{
    let aes: [char; 6] = ['a', 'e', 's', '2', '5', '6'];
    let salsa: [char; 7] = ['s', 'a', 'l', 's', 'a', '2', '0'];
    let chacha: [char; 8] = ['c', 'h', 'a', 'c', 'h', 'a', '2', '0'];
    assert(aes@ =~= seq!['a', 'e', 's', '2', '5', '6']);
    assert(salsa@ =~= seq!['s', 'a', 'l', 's', 'a', '2', '0']);
    assert(chacha@ =~= seq!['c', 'h', 'a', 'c', 'h', 'a', '2', '0']);
    if is_word(name, &aes) {
        Some(Encryption::AES256GCM)
    } else if is_word(name, &salsa) {
        Some(Encryption::SALSA20)
    } else if is_word(name, &chacha) {
        Some(Encryption::CHACHA20)
    } else {
        None
    }
}

/// The suite named, in any case, by `encryption`.
pub fn encryption_str_to_enum(encryption: &str) -> (r: Option<Encryption>)
    ensures
        r == suite_named(lower_of(encryption@)),
{
    let lower = to_lowercase(encryption);
    encryption_from_lowercase(lower.as_str())
}

/// The export format named by an already lowercase name: `csv`.
pub fn format_from_lowercase(name: &str) -> (r: Option<FormatExport>)
    ensures
        r == format_named(name@),
{
    let csv: [char; 3] = ['c', 's', 'v'];
    assert(csv@ =~= seq!['c', 's', 'v']);
    if is_word(name, &csv) {
        Some(FormatExport::CSV)
    } else {
        None
    }
}

/// The export format named, in any case, by `format`.
pub fn format_str_to_enum(format: &str) -> (r: Option<FormatExport>)
    ensures
        r == format_named(lower_of(format@)),
{
    let lower = to_lowercase(format);
    format_from_lowercase(lower.as_str())
}

/// The bytes of a new, empty vault sealed under a suite and a secret.
pub fn init_db(encryption: Encryption, password: &[u8]) -> (r: Vec<u8>)
    requires
        password@.len() <= MAX_SECRET_LEN,
    ensures
        seal_envelope(encryption, key_of(password@), records_text(Seq::empty())) == Some(r@),
        vault_contents(encryption, password@, r@) == Contents::Ok(
            Seq::empty(),
        ),
{
    let empty: Vec<JsonDatabseKMH> = Vec::new();
    assert(crate::record::view_records(empty@) =~= Seq::<CredentialView>::empty());
    assert(records_text(Seq::<CredentialView>::empty()).len() == 2);
    match encrypt_database(encryption, password, &empty) {
        Ok(c) => c,
        Err(_) => {
            assert(false);
            Vec::new()
        },
    }
}

/// Importing stands for now at its first step: the new, empty vault that the
/// imported records would fill.
pub fn import_db(encryption: Encryption, password: &[u8]) -> (r: Vec<u8>)
    requires
        password@.len() <= MAX_SECRET_LEN,
    ensures
        vault_contents(encryption, password@, r@) == Contents::Ok(
            Seq::empty(),
        ),
{
    init_db(encryption, password)
}

/// rand's `random`: a value drawn from the thread-local generator. Nothing is
/// known of which value comes.
pub assume_specification<T>[ rand::random::<T> ]() -> (r: T)
    where
        rand::distributions::Standard: rand::distributions::Distribution<T>,
;

/// Relies on std's `String::push`: the character is appended.
#[verifier::external_body]
fn push_char(s: &mut String, c: char)
    ensures
        final(s)@ == old(s)@.push(c),
{
    s.push(c)
}

/// The bytes of a fresh keyfile: `size` characters drawn at random, as UTF-8.
pub fn generate_random_utf8(size: usize) -> (r: Vec<u8>)
    ensures
        valid_utf8(r@),
        decode_utf8(r@).len() == size,
{
    broadcast use encode_utf8_valid_utf8, encode_utf8_decode_utf8;

    let mut text = String::new();
    let mut i: usize = 0;
    while i < size
        invariant
            i <= size,
            text@.len() == i,
        decreases size - i,
    {
        let c: char = rand::random::<char>();
        push_char(&mut text, c);
        i = i + 1;
    }
    text.as_str().as_bytes_vec()
}

/// An operation that the shell asks of an unlocked vault.
pub enum Command {
    Add { title: String, username: String, password: String, notes: String },
    Remove(usize),
    Modify { index: usize, title: String, username: String, password: String, notes: String },
    ShowPassword(usize),
    CopyPassword(usize),
    Save,
    ExportCsv,
    Exit,
}

/// What the shell does after an operation.
pub enum Outcome {
    /// The vault changed, or nothing is to be done: show it again.
    Done,
    /// Print this password.
    Show(String),
    /// Put this password on the clipboard.
    Copy(String),
    /// Write these bytes over the vault file.
    Write(Vec<u8>),
    /// Write these rows to the export file.
    Export(Vec<Vec<String>>),
    /// End the session; changes not saved are dropped.
    Exit,
}

/// What one operation of the shell gives.
pub type StepResult = Result<Outcome, VaultError>;

/// An unlocked vault with the suite and the secret that it was opened with.
pub struct Session {
    vault: DBManage,
    encryption: Encryption,
    password: Vec<u8>,
}

impl Session {
    /// The records of the session's vault.
    pub closed spec fn records(&self) -> Seq<CredentialView> {
        self.vault@
    }

    /// The suite the session seals with.
    pub closed spec fn suite(&self) -> Encryption {
        self.encryption
    }

    /// The master secret of the session.
    pub closed spec fn secret(&self) -> Seq<u8> {
        self.password@
    }

    /// Whether the secret is one that keys can be derived from.
    pub open spec fn wf(&self) -> bool {
        self.secret().len() <= MAX_SECRET_LEN
    }

    /// Unlocks a vault file with a suite and a secret. This is the only way
    /// into a session.
    pub fn start(encryption: Encryption, password: Vec<u8>, blob: Vec<u8>) -> (r: Result<
        Session,
        VaultError,
    >)
        requires
            password@.len() <= MAX_SECRET_LEN,
        ensures
            match r {
                Ok(s) => s.wf() && s.suite() == encryption && s.secret() == password@
                    && vault_contents(encryption, password@, blob@) == Contents::Ok(s.records()),
                Err(e) => vault_contents(encryption, password@, blob@) == Contents::Err(e),
            },
    {
        match DBManage::open(&encryption, password.as_slice(), blob) {
            Ok(vault) => Ok(Session { vault, encryption, password }),
            Err(e) => Err(e),
        }
    }

    /// The session's vault.
    pub fn vault(&self) -> (r: &DBManage)
        ensures
            r@ == self.records(),
    {
        &self.vault
    }

    /// Applies one operation of the shell.
    pub fn step(&mut self, cmd: Command) -> (r: StepResult)
        requires
            old(self).wf(),
        ensures
            final(self).wf(),
            final(self).suite() == old(self).suite(),
            final(self).secret() == old(self).secret(),
            match cmd {
                Command::Add { title, username, password, notes } => {
                    &&& r == StepResult::Ok(Outcome::Done)
                    &&& final(self).records() == old(self).records().push(
                        CredentialView {
                            title: title@,
                            username: username@,
                            password: password@,
                            notes: notes@,
                        },
                    )
                },
                Command::Remove(i) => if i < old(self).records().len() {
                    &&& r == StepResult::Ok(Outcome::Done)
                    &&& final(self).records() == old(self).records().remove(i as int)
                } else {
                    &&& r == StepResult::Err(VaultError::IndexOutOfRange)
                    &&& final(self).records() == old(self).records()
                },
                Command::Modify { index, title, username, password, notes } => {
                    let before = old(self).records();
                    if index < before.len() {
                        &&& r == StepResult::Ok(Outcome::Done)
                        &&& final(self).records() == before.update(
                            index as int,
                            modified(before[index as int], title@, username@, password@, notes@),
                        )
                    } else {
                        &&& r == StepResult::Err(VaultError::IndexOutOfRange)
                        &&& final(self).records() == before
                    }
                },
                Command::ShowPassword(i) => {
                    &&& final(self).records() == old(self).records()
                    &&& if i < old(self).records().len() {
                        match r {
                            Ok(Outcome::Show(p)) => p@ == old(self).records()[i as int].password,
                            _ => false,
                        }
                    } else {
                        r == StepResult::Err(VaultError::IndexOutOfRange)
                    }
                },
                Command::CopyPassword(i) => {
                    &&& final(self).records() == old(self).records()
                    &&& if i < old(self).records().len() {
                        match r {
                            Ok(Outcome::Copy(p)) => p@ == old(self).records()[i as int].password,
                            _ => false,
                        }
                    } else {
                        r == StepResult::Err(VaultError::IndexOutOfRange)
                    }
                },
                Command::Save => {
                    let sealed = seal_envelope(
                        old(self).suite(),
                        key_of(old(self).secret()),
                        records_text(old(self).records()),
                    );
                    &&& final(self).records() == old(self).records()
                    &&& match r {
                        Ok(Outcome::Write(c)) => {
                            &&& sealed == Some(c@)
                            &&& vault_contents(old(self).suite(), old(self).secret(), c@)
                                == Contents::Ok(old(self).records())
                        },
                        Err(e) => e == VaultError::TooLarge && sealed is None,
                        _ => false,
                    }
                },
                Command::ExportCsv => {
                    &&& final(self).records() == old(self).records()
                    &&& match r {
                        Ok(Outcome::Export(rows)) => {
                            &&& rows@.len() == old(self).records().len()
                            &&& forall|k: int|
                                0 <= k < rows@.len() ==> (#[trigger] rows@[k])@.map_values(
                                    |s: String| s@,
                                ) == export_row(k, old(self).records()[k])
                        },
                        _ => false,
                    }
                },
                Command::Exit => {
                    &&& r == StepResult::Ok(Outcome::Exit)
                    &&& final(self).records() == old(self).records()
                },
            },
    {
        match cmd {
            Command::Add { title, username, password, notes } => {
                self.vault.add(title, username, password, notes);
                Ok(Outcome::Done)
            },
            Command::Remove(i) => match self.vault.remove(i) {
                Ok(_) => Ok(Outcome::Done),
                Err(e) => Err(e),
            },
            Command::Modify { index, title, username, password, notes } => match self.vault.modify(
                index,
                title.as_str(),
                username.as_str(),
                password.as_str(),
                notes.as_str(),
            ) {
                Ok(_) => Ok(Outcome::Done),
                Err(e) => Err(e),
            },
            Command::ShowPassword(i) => match self.vault.reveal_password(i) {
                Ok(p) => Ok(Outcome::Show(p)),
                Err(e) => Err(e),
            },
            Command::CopyPassword(i) => match self.vault.reveal_password(i) {
                Ok(p) => Ok(Outcome::Copy(p)),
                Err(e) => Err(e),
            },
            Command::Save => match self.vault.save(self.encryption, self.password.as_slice()) {
                Ok(c) => Ok(Outcome::Write(c)),
                Err(e) => Err(e),
            },
            Command::ExportCsv => Ok(Outcome::Export(self.vault.export_rows())),
            Command::Exit => Ok(Outcome::Exit),
        }
    }
}

} // verus!
