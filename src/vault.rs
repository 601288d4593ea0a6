//! The vault as a session holds it: the decrypted records in order, and the
//! operations that the interactive shell applies to them.

use crate::cipher::{seal_envelope, Encryption};
use crate::codec::records_text;
use crate::crypto::{Contents, decrypt_database, encrypt_database, vault_contents};
use crate::keys::{key_of, MAX_SECRET_LEN};
use crate::record::{view_records, CredentialView, JsonDatabseKMH, VaultError};
use vstd::prelude::*;
use vstd::utf8::*;

verus! {

/// Whether a character has Unicode's `White_Space` property.
pub open spec fn is_white_space(c: char) -> bool {
    ('\u{9}' <= c && c <= '\u{d}') || c == ' ' || c == '\u{85}' || c == '\u{a0}' || c
        == '\u{1680}' || ('\u{2000}' <= c && c <= '\u{200a}') || c == '\u{2028}' || c
        == '\u{2029}' || c == '\u{202f}' || c == '\u{205f}' || c == '\u{3000}'
}

/// Whether a text is empty once surrounding white space is trimmed.
pub open spec fn is_blank(s: Seq<char>) -> bool {
    forall|i: int| 0 <= i < s.len() ==> is_white_space(#[trigger] s[i])
}

/// A field after a modification: the supplied value, unless it is blank.
pub open spec fn keep_or_replace(current: Seq<char>, supplied: Seq<char>) -> Seq<char> {
    if is_blank(supplied) {
        current
    } else {
        supplied
    }
}

/// A record after a modification with the four supplied values.
pub open spec fn modified(
    r: CredentialView,
    title: Seq<char>,
    username: Seq<char>,
    password: Seq<char>,
    notes: Seq<char>,
) -> CredentialView {
    CredentialView {
        title: keep_or_replace(r.title, title),
        username: keep_or_replace(r.username, username),
        password: keep_or_replace(r.password, password),
        notes: keep_or_replace(r.notes, notes),
    }
}

/// The number of white-space characters at the start of a text.
pub open spec fn leading_white(s: Seq<char>) -> nat
    decreases s.len(),
{
    if s.len() == 0 || !is_white_space(s[0]) {
        0
    } else {
        1 + leading_white(s.drop_first())
    }
}

/// The number of white-space characters at the end of a text.
pub open spec fn trailing_white(s: Seq<char>) -> nat
    decreases s.len(),
{
    if s.len() == 0 || !is_white_space(s.last()) {
        0
    } else {
        1 + trailing_white(s.drop_last())
    }
}

/// A text without its leading and trailing white space.
pub open spec fn trimmed(s: Seq<char>) -> Seq<char> {
    if leading_white(s) >= s.len() {
        Seq::empty()
    } else {
        s.subrange(leading_white(s) as int, s.len() - trailing_white(s))
    }
}

proof fn lemma_leading_white(s: Seq<char>)
    ensures
        leading_white(s) <= s.len(),
        forall|k: int| 0 <= k < leading_white(s) ==> is_white_space(#[trigger] s[k]),
        leading_white(s) < s.len() ==> !is_white_space(s[leading_white(s) as int]),
    decreases s.len(),
{
    if s.len() > 0 && is_white_space(s[0]) {
        lemma_leading_white(s.drop_first());
        assert forall|k: int| 0 <= k < leading_white(s) implies is_white_space(#[trigger] s[k]) by {
            if k > 0 {
                assert(s[k] == s.drop_first()[k - 1]);
            }
        }
    }
}

proof fn lemma_trailing_white(s: Seq<char>)
    ensures
        trailing_white(s) <= s.len(),
        forall|k: int| s.len() - trailing_white(s) <= k < s.len() ==> is_white_space(#[trigger] s[k]),
    decreases s.len(),
{
    if s.len() > 0 && is_white_space(s.last()) {
        lemma_trailing_white(s.drop_last());
        assert forall|k: int| s.len() - trailing_white(s) <= k < s.len() implies is_white_space(
            #[trigger] s[k],
        ) by {
            if k < s.len() - 1 {
                assert(s[k] == s.drop_last()[k]);
            }
        }
    }
}

/// A text trims to nothing exactly when it is blank.
proof fn lemma_trimmed_empty(s: Seq<char>)
    ensures
        trimmed(s).len() == 0 <==> is_blank(s),
{
    lemma_leading_white(s);
    lemma_trailing_white(s);
    if leading_white(s) < s.len() {
        let l = leading_white(s) as int;
        assert(!is_white_space(s[l]));
        assert(s.len() - trailing_white(s) > l);
    }
}

/// Relies on std's `str::trim`: the slice without its leading and trailing
/// characters of the `White_Space` property.
#[verifier::external_body]
fn trim(s: &str) -> (r: &str)
    ensures
        r@ == trimmed(s@),
{
    s.trim()
}

/// The supplied value of a field, unless it is blank once trimmed.
pub fn check_for_modify(s: &str) -> (r: Option<String>)
    ensures
        match r {
            Some(v) => !is_blank(s@) && v@ == s@,
            None => is_blank(s@),
        },
{
    let t = trim(s);
    proof {
        lemma_trimmed_empty(s@);
    }
    if t.is_empty() {
        None
    } else {
        assert(!is_blank(s@));
        Some(s.to_string())
    }
}

/// The decimal digits of a natural number, most significant first.
pub open spec fn decimal(n: nat) -> Seq<char>
    decreases n,
{
    if n < 10 {
        seq![(n + 48) as char]
    } else {
        decimal(n / 10).push(((n % 10) + 48) as char)
    }
}

/// Relies on std's `Display` for `usize` (through `ToString`): the decimal
/// digits, with no sign and no leading zero.
#[verifier::external_body]
fn usize_to_string(n: usize) -> (r: String)
    ensures
        r@ == decimal(n as nat),
{
    n.to_string()
}

/// Relies on std's `str::repeat` on `"*"`: `n` asterisks.
#[verifier::external_body]
fn asterisks(n: usize) -> (r: String)
    ensures
        r@ == Seq::new(n as nat, |i: int| '*'),
{
    "*".repeat(n)
}

/// The row that the vault listing shows for a record: its index, title,
/// username, one asterisk per byte of its password, and notes.
pub open spec fn listing_row(i: int, r: CredentialView) -> Seq<Seq<char>> {
    seq![
        decimal(i as nat),
        r.title,
        r.username,
        Seq::new(encode_utf8(r.password).len(), |k: int| '*'),
        r.notes,
    ]
}

/// The row that an export writes for a record: its index and its four
/// fields, the password in clear.
pub open spec fn export_row(i: int, r: CredentialView) -> Seq<Seq<char>> {
    seq![decimal(i as nat), r.title, r.username, r.password, r.notes]
}

/// The decrypted vault of a session: records in order, each one identified
/// by its index.
pub struct DBManage {
    db: Vec<JsonDatabseKMH>,
}

impl View for DBManage {
    type V = Seq<CredentialView>;

    closed spec fn view(&self) -> Seq<CredentialView> {
        view_records(self.db@)
    }
}

impl DBManage {
    /// A vault that holds the given records.
    pub fn new(db: Vec<JsonDatabseKMH>) -> (r: Self)
        ensures
            r@ == view_records(db@),
    {
        DBManage { db }
    }

    /// Unlocks a vault file: the vault that it holds under the suite and the
    /// secret, or why it cannot be read.
    pub fn open(encryption: &Encryption, password: &[u8], blob: Vec<u8>) -> (r: Result<
        Self,
        VaultError,
    >)
        requires
            password@.len() <= MAX_SECRET_LEN,
        ensures
            match r {
                Ok(v) => vault_contents(*encryption, password@, blob@) == Contents::Ok(v@),
                Err(e) => vault_contents(*encryption, password@, blob@) == Contents::Err(e),
            },
    {
        match decrypt_database(encryption, password, blob) {
            Ok(db) => Ok(DBManage { db }),
            Err(e) => Err(e),
        }
    }

    /// The records, in order.
    pub fn records(&self) -> (r: &Vec<JsonDatabseKMH>)
        ensures
            view_records(r@) == self@,
    {
        &self.db
    }

    /// The number of records.
    pub fn len(&self) -> (r: usize)
        ensures
            r == self@.len(),
    {
        self.db.len()
    }

    /// Appends a record made of the supplied fields.
    pub fn add(&mut self, title: String, username: String, password: String, notes: String)
        ensures
            final(self)@ == old(self)@.push(
                CredentialView {
                    title: title@,
                    username: username@,
                    password: password@,
                    notes: notes@,
                },
            ),
            final(self)@.len() == old(self)@.len() + 1,
            final(self)@.last() == (CredentialView {
                title: title@,
                username: username@,
                password: password@,
                notes: notes@,
            }),
    {
        let rec = JsonDatabseKMH::new(title, username, password, notes);
        self.db.push(rec);
        assert(view_records(self.db@) =~= view_records(old(self).db@).push(rec@));
    }

    /// Deletes the record at `index`, the later ones moving down by one.
    pub fn remove(&mut self, index: usize) -> (r: Result<(), VaultError>)
        ensures
            r is Ok <==> index < old(self)@.len(),
            match r {
                Ok(_) => final(self)@ == old(self)@.remove(index as int) && final(self)@.len()
                    == old(self)@.len() - 1 && (forall|j: int|
                    0 <= j < index ==> #[trigger] final(self)@[j] == old(self)@[j]) && (forall|
                    j: int,
                |
                    index <= j < final(self)@.len() ==> #[trigger] final(self)@[j] == old(
                        self,
                    )@[j + 1]),
                Err(e) => e == VaultError::IndexOutOfRange && final(self)@ == old(self)@,
            },
    {
        if index >= self.db.len() {
            return Err(VaultError::IndexOutOfRange);
        }
        let _ = self.db.remove(index);
        assert(view_records(self.db@) =~= view_records(old(self).db@).remove(index as int));
        Ok(())
    }

    /// Replaces each field of the record at `index` with the supplied value,
    /// unless that value is blank once trimmed.
    pub fn modify(&mut self, index: usize, title: &str, username: &str, password: &str, notes: &str)
        -> (r: Result<(), VaultError>)
        ensures
            r is Ok <==> index < old(self)@.len(),
            match r {
                Ok(_) => final(self)@ == old(self)@.update(
                    index as int,
                    modified(old(self)@[index as int], title@, username@, password@, notes@),
                ),
                Err(e) => e == VaultError::IndexOutOfRange && final(self)@ == old(self)@,
            },
            is_blank(title@) && is_blank(username@) && is_blank(password@) && is_blank(notes@)
                ==> final(self)@ == old(self)@,
    {
        if index >= self.db.len() {
            return Err(VaultError::IndexOutOfRange);
        }
        let current = &self.db[index];
        let new_title = match check_for_modify(title) {
            Some(v) => v,
            None => current.title.clone(),
        };
        let new_username = match check_for_modify(username) {
            Some(v) => v,
            None => current.username.clone(),
        };
        let new_password = match check_for_modify(password) {
            Some(v) => v,
            None => current.password.clone(),
        };
        let new_notes = match check_for_modify(notes) {
            Some(v) => v,
            None => current.notes.clone(),
        };
        let rec = JsonDatabseKMH::new(new_title, new_username, new_password, new_notes);
        self.db.set(index, rec);
        assert(view_records(self.db@) =~= view_records(old(self).db@).update(index as int, rec@));
        assert(old(self)@.update(index as int, old(self)@[index as int]) =~= old(self)@);
        Ok(())
    }

    /// The password of the record at `index`, to show or to copy.
    pub fn reveal_password(&self, index: usize) -> (r: Result<String, VaultError>)
        ensures
            r is Ok <==> index < self@.len(),
            match r {
                Ok(p) => p@ == self@[index as int].password,
                Err(e) => e == VaultError::IndexOutOfRange,
            },
    {
        if index >= self.db.len() {
            return Err(VaultError::IndexOutOfRange);
        }
        Ok(self.db[index].password.clone())
    }

    /// Seals the whole vault, as it stands, under the session's suite and
    /// secret: the bytes that saving writes over the vault file.
    pub fn save(&self, encryption: Encryption, password: &[u8]) -> (r: Result<Vec<u8>, VaultError>)
        requires
            password@.len() <= MAX_SECRET_LEN,
        ensures
            r is Ok <==> seal_envelope(encryption, key_of(password@), records_text(self@)) is Some,
            match r {
                Ok(c) => seal_envelope(encryption, key_of(password@), records_text(self@)) == Some(
                    c@,
                ) && vault_contents(encryption, password@, c@) == Contents::Ok(self@),
                Err(e) => e == VaultError::TooLarge,
            },
    {
        encrypt_database(encryption, password, &self.db)
    }

    /// The rows of an export, one per record, in order.
    pub fn export_rows(&self) -> (r: Vec<Vec<String>>)
        ensures
            r@.len() == self@.len(),
            forall|i: int|
                0 <= i < r@.len() ==> (#[trigger] r@[i])@.map_values(|s: String| s@)
                    == export_row(i, self@[i]),
    {
        let mut rows: Vec<Vec<String>> = Vec::new();
        let mut i: usize = 0;
        while i < self.db.len()
            invariant
                i <= self@.len(),
                self@.len() == self.db@.len(),
                rows@.len() == i,
                forall|k: int|
                    0 <= k < i ==> (#[trigger] rows@[k])@.map_values(|s: String| s@)
                        == export_row(k, self@[k]),
            decreases self@.len() - i,
        {
            let e = &self.db[i];
            let mut row: Vec<String> = Vec::new();
            row.push(usize_to_string(i));
            row.push(e.title.clone());
            row.push(e.username.clone());
            row.push(e.password.clone());
            row.push(e.notes.clone());
            assert(self@[i as int] == e@);
            assert(row@.map_values(|s: String| s@) =~= export_row(i as int, self@[i as int]));
            rows.push(row);
            i = i + 1;
        }
        rows
    }

    /// The rows of the vault listing, one per record, in order, with the
    /// passwords masked.
    pub fn show(&self) -> (r: Vec<Vec<String>>)
        ensures
            r@.len() == self@.len(),
            forall|i: int|
                0 <= i < r@.len() ==> (#[trigger] r@[i])@.map_values(|s: String| s@)
                    == listing_row(i, self@[i]),
    {
        let mut rows: Vec<Vec<String>> = Vec::new();
        let mut i: usize = 0;
        while i < self.db.len()
            invariant
                i <= self@.len(),
                self@.len() == self.db@.len(),
                rows@.len() == i,
                forall|k: int|
                    0 <= k < i ==> (#[trigger] rows@[k])@.map_values(|s: String| s@)
                        == listing_row(k, self@[k]),
            decreases self@.len() - i,
        {
            let e = &self.db[i];
            let mut row: Vec<String> = Vec::new();
            row.push(usize_to_string(i));
            row.push(e.title.clone());
            row.push(e.username.clone());
            let masked = asterisks(e.password.as_str().as_bytes().len());
            row.push(masked);
            row.push(e.notes.clone());
            assert(self@[i as int] == e@);
            assert(masked@ =~= Seq::new(encode_utf8(e@.password).len(), |k: int| '*'));
            assert(row@.map_values(|s: String| s@)[0] == decimal(i as nat));
            assert(row@.map_values(|s: String| s@)[3] == masked@);
            assert(row@.map_values(|s: String| s@) =~= listing_row(i as int, self@[i as int]));
            rows.push(row);
            i = i + 1;
        }
        rows
    }
}

} // verus!
