//! The canonical text encoding of a record list: a compact JSON array of
//! objects whose keys are `title`, `username`, `password` and `notes`, in that
//! order, each value a string literal of the field's UTF-8 bytes.

use crate::escape::{
    escape, lemma_unescape_escape, lemma_unescape_sound, parse_string, push_escaped, unescape,
};
use crate::record::{view_records, CredentialView, JsonDatabseKMH, VaultError};
use vstd::prelude::*;
use vstd::utf8::*;

verus! {

/// The four fields of a record, as UTF-8 bytes.
pub type FieldBytes = (Seq<u8>, Seq<u8>, Seq<u8>, Seq<u8>);

/// `{"title":"`
pub open spec fn title_key() -> Seq<u8> {
    seq![0x7bu8, 0x22, 0x74, 0x69, 0x74, 0x6c, 0x65, 0x22, 0x3a, 0x22]
}

/// `,"username":"`
pub open spec fn username_key() -> Seq<u8> {
    seq![0x2cu8, 0x22, 0x75, 0x73, 0x65, 0x72, 0x6e, 0x61, 0x6d, 0x65, 0x22, 0x3a, 0x22]
}

/// `,"password":"`
pub open spec fn password_key() -> Seq<u8> {
    seq![0x2cu8, 0x22, 0x70, 0x61, 0x73, 0x73, 0x77, 0x6f, 0x72, 0x64, 0x22, 0x3a, 0x22]
}

/// `,"notes":"`
pub open spec fn notes_key() -> Seq<u8> {
    seq![0x2cu8, 0x22, 0x6e, 0x6f, 0x74, 0x65, 0x73, 0x22, 0x3a, 0x22]
}

/// A key with the opening quote of its value, the escaped value, and the
/// closing quote.
pub open spec fn field_text(key: Seq<u8>, value: Seq<u8>) -> Seq<u8> {
    key + escape(value) + seq![0x22u8]
}

/// The text of one record.
#[verifier::opaque]
pub open spec fn record_text(f: FieldBytes) -> Seq<u8> {
    field_text(title_key(), f.0) + field_text(username_key(), f.1) + field_text(password_key(), f.2)
        + field_text(notes_key(), f.3) + seq![0x7du8]
}

/// The records after the first one, each preceded by a comma.
pub open spec fn tail_text(fs: Seq<FieldBytes>) -> Seq<u8>
    decreases fs.len(),
{
    if fs.len() == 0 {
        Seq::empty()
    } else {
        seq![0x2cu8] + record_text(fs[0]) + tail_text(fs.drop_first())
    }
}

/// The text of a list of records: the records between brackets, separated by
/// commas.
pub open spec fn list_text(fs: Seq<FieldBytes>) -> Seq<u8> {
    if fs.len() == 0 {
        seq![0x5bu8, 0x5d]
    } else {
        seq![0x5bu8] + record_text(fs[0]) + tail_text(fs.drop_first()) + seq![0x5du8]
    }
}

/// The UTF-8 bytes of a record's fields.
pub open spec fn fields_of(r: CredentialView) -> FieldBytes {
    (encode_utf8(r.title), encode_utf8(r.username), encode_utf8(r.password), encode_utf8(r.notes))
}

/// The canonical text encoding of a record list.
pub open spec fn records_text(rs: Seq<CredentialView>) -> Seq<u8> {
    list_text(rs.map_values(|r: CredentialView| fields_of(r)))
}

/// What follows `tok` at the start of `s`, when `s` starts with it.
pub open spec fn expect(s: Seq<u8>, tok: Seq<u8>) -> Option<Seq<u8>> {
    if tok.len() <= s.len() && s.take(tok.len() as int) == tok {
        Some(s.skip(tok.len() as int))
    } else {
        None
    }
}

/// Reads a key, the value's string literal, and its closing quote.
pub open spec fn parse_field(s: Seq<u8>, key: Seq<u8>) -> Option<(Seq<u8>, Seq<u8>)> {
    match expect(s, key) {
        Some(t) => unescape(t),
        None => None,
    }
}

/// Reads one record and gives what follows it.
#[verifier::opaque]
pub open spec fn parse_record(s: Seq<u8>) -> Option<(FieldBytes, Seq<u8>)> {
    match parse_field(s, title_key()) {
        None => None,
        Some((t, s1)) => match parse_field(s1, username_key()) {
            None => None,
            Some((u, s2)) => match parse_field(s2, password_key()) {
                None => None,
                Some((p, s3)) => match parse_field(s3, notes_key()) {
                    None => None,
                    Some((n, s4)) => match expect(s4, seq![0x7du8]) {
                        None => None,
                        Some(s5) => Some(((t, u, p, n), s5)),
                    },
                },
            },
        },
    }
}

/// Reads the rest of a list after a record: more records, each after a
/// comma, then the closing bracket and nothing after it.
pub open spec fn parse_tail(s: Seq<u8>) -> Option<Seq<FieldBytes>>
    decreases s.len(),
{
    if s.len() == 1 && s[0] == 0x5d {
        Some(Seq::empty())
    } else if s.len() > 0 && s[0] == 0x2c {
        match parse_record(s.drop_first()) {
            None => None,
            Some((f, t)) => if t.len() < s.len() {
                match parse_tail(t) {
                    None => None,
                    Some(fs) => Some(seq![f] + fs),
                }
            } else {
                None
            },
        }
    } else {
        None
    }
}

/// Reads a whole list of records.
pub open spec fn parse_list(s: Seq<u8>) -> Option<Seq<FieldBytes>> {
    if s.len() == 2 && s[0] == 0x5b && s[1] == 0x5d {
        Some(Seq::empty())
    } else if s.len() > 0 && s[0] == 0x5b {
        match parse_record(s.drop_first()) {
            None => None,
            Some((f, t)) => match parse_tail(t) {
                None => None,
                Some(fs) => Some(seq![f] + fs),
            },
        }
    } else {
        None
    }
}

proof fn lemma_parse_field_text(key: Seq<u8>, v: Seq<u8>, rest: Seq<u8>)
    ensures
        parse_field(field_text(key, v) + rest, key) == Some((v, rest)),
{
    let s = field_text(key, v) + rest;
    assert(s.take(key.len() as int) =~= key);
    assert(s.skip(key.len() as int) =~= escape(v) + seq![0x22u8] + rest);
    lemma_unescape_escape(v, rest);
}

proof fn lemma_parse_field_sound(s: Seq<u8>, key: Seq<u8>)
    ensures
        match parse_field(s, key) {
            Some((v, rest)) => s == field_text(key, v) + rest,
            None => true,
        },
{
    if expect(s, key) is Some {
        let t = s.skip(key.len() as int);
        lemma_unescape_sound(t);
        assert(s =~= s.take(key.len() as int) + t);
    }
}

/// A record's text reads back to the record, and leaves what follows.
proof fn lemma_parse_record_text(f: FieldBytes, rest: Seq<u8>)
    ensures
        parse_record(record_text(f) + rest) == Some((f, rest)),
{
    reveal(record_text);
    reveal(parse_record);
    let a = field_text(title_key(), f.0);
    let b = field_text(username_key(), f.1);
    let c = field_text(password_key(), f.2);
    let d = field_text(notes_key(), f.3);
    let e = seq![0x7du8] + rest;
    assert(record_text(f) + rest =~= a + (b + (c + (d + e))));
    lemma_parse_field_text(title_key(), f.0, b + (c + (d + e)));
    lemma_parse_field_text(username_key(), f.1, c + (d + e));
    lemma_parse_field_text(password_key(), f.2, d + e);
    lemma_parse_field_text(notes_key(), f.3, e);
    assert(e.take(1) =~= seq![0x7du8]);
    assert(e.skip(1) =~= rest);
}

/// What reads as a record is that record's text, and what follows it.
proof fn lemma_parse_record_sound(s: Seq<u8>)
    ensures
        match parse_record(s) {
            Some((f, rest)) => s == record_text(f) + rest && rest.len() < s.len(),
            None => true,
        },
{
    reveal(record_text);
    reveal(parse_record);
    if parse_record(s) is Some {
        lemma_parse_field_sound(s, title_key());
        let (t, s1) = parse_field(s, title_key())->0;
        lemma_parse_field_sound(s1, username_key());
        let (u, s2) = parse_field(s1, username_key())->0;
        lemma_parse_field_sound(s2, password_key());
        let (p, s3) = parse_field(s2, password_key())->0;
        lemma_parse_field_sound(s3, notes_key());
        let (n, s4) = parse_field(s3, notes_key())->0;
        let s5 = s4.skip(1);
        assert(s4 =~= seq![0x7du8] + s5);
        assert(s =~= record_text((t, u, p, n)) + s5);
    }
}

proof fn lemma_parse_tail_text(fs: Seq<FieldBytes>)
    ensures
        parse_tail(tail_text(fs) + seq![0x5du8]) == Some(fs),
    decreases fs.len(),
{
    let s = tail_text(fs) + seq![0x5du8];
    if fs.len() == 0 {
        assert(s =~= seq![0x5du8]);
    } else {
        let rest = tail_text(fs.drop_first()) + seq![0x5du8];
        assert(s =~= seq![0x2cu8] + (record_text(fs[0]) + rest));
        assert(s.drop_first() =~= record_text(fs[0]) + rest);
        lemma_parse_record_text(fs[0], rest);
        lemma_parse_tail_text(fs.drop_first());
        assert(seq![fs[0]] + fs.drop_first() =~= fs);
    }
}

proof fn lemma_parse_tail_sound(s: Seq<u8>)
    ensures
        match parse_tail(s) {
            Some(fs) => s == tail_text(fs) + seq![0x5du8],
            None => true,
        },
    decreases s.len(),
{
    if s.len() == 1 && s[0] == 0x5d {
        assert(s =~= tail_text(Seq::<FieldBytes>::empty()) + seq![0x5du8]);
    } else if s.len() > 0 && s[0] == 0x2c && parse_tail(s) is Some {
        lemma_parse_record_sound(s.drop_first());
        let (f, t) = parse_record(s.drop_first())->0;
        lemma_parse_tail_sound(t);
        let gs = parse_tail(t)->0;
        let fs = seq![f] + gs;
        assert(fs.drop_first() =~= gs);
        assert(s =~= seq![0x2cu8] + s.drop_first());
        assert(s =~= tail_text(fs) + seq![0x5du8]);
    }
}

/// The text of a record list reads back to that list.
pub proof fn lemma_parse_list_text(fs: Seq<FieldBytes>)
    ensures
        parse_list(list_text(fs)) == Some(fs),
{
    let s = list_text(fs);
    if fs.len() > 0 {
        let rest = tail_text(fs.drop_first()) + seq![0x5du8];
        assert(s.drop_first() =~= record_text(fs[0]) + rest);
        lemma_parse_record_text(fs[0], rest);
        lemma_parse_tail_text(fs.drop_first());
        assert(seq![fs[0]] + fs.drop_first() =~= fs);
        assert(record_text(fs[0]).len() > 1) by {
            reveal(record_text);
        }
    }
}

/// What reads as a record list is that list's text.
pub proof fn lemma_parse_list_sound(s: Seq<u8>)
    ensures
        match parse_list(s) {
            Some(fs) => s == list_text(fs),
            None => true,
        },
{
    if s.len() == 2 && s[0] == 0x5b && s[1] == 0x5d {
        assert(s =~= list_text(Seq::<FieldBytes>::empty()));
    } else if s.len() > 0 && s[0] == 0x5b && parse_list(s) is Some {
        lemma_parse_record_sound(s.drop_first());
        let (f, t) = parse_record(s.drop_first())->0;
        lemma_parse_tail_sound(t);
        let gs = parse_tail(t)->0;
        let fs = seq![f] + gs;
        assert(fs.drop_first() =~= gs);
        assert(s =~= seq![0x5bu8] + s.drop_first());
        assert(s =~= list_text(fs));
    }
}

proof fn lemma_tail_text_push(gs: Seq<FieldBytes>, g: FieldBytes)
    ensures
        tail_text(gs.push(g)) == tail_text(gs) + seq![0x2cu8] + record_text(g),
    decreases gs.len(),
{
    if gs.len() == 0 {
        assert(gs.push(g).drop_first() =~= Seq::<FieldBytes>::empty());
        assert(tail_text(gs.push(g).drop_first()) == Seq::<u8>::empty());
        assert(tail_text(gs.push(g)) =~= tail_text(gs) + seq![0x2cu8] + record_text(g));
    } else {
        assert(gs.push(g).drop_first() =~= gs.drop_first().push(g));
        lemma_tail_text_push(gs.drop_first(), g);
        assert(tail_text(gs.push(g)) =~= tail_text(gs) + seq![0x2cu8] + record_text(g));
    }
}

fn title_key_bytes() -> (r: [u8; 10])
    ensures
        r@ == title_key(),
{
    let r: [u8; 10] = [0x7b, 0x22, 0x74, 0x69, 0x74, 0x6c, 0x65, 0x22, 0x3a, 0x22];
    assert(r@ =~= title_key());
    r
}

fn username_key_bytes() -> (r: [u8; 13])
    ensures
        r@ == username_key(),
{
    let r: [u8; 13] = [0x2c, 0x22, 0x75, 0x73, 0x65, 0x72, 0x6e, 0x61, 0x6d, 0x65, 0x22, 0x3a, 0x22];
    assert(r@ =~= username_key());
    r
}

fn password_key_bytes() -> (r: [u8; 13])
    ensures
        r@ == password_key(),
{
    let r: [u8; 13] = [0x2c, 0x22, 0x70, 0x61, 0x73, 0x73, 0x77, 0x6f, 0x72, 0x64, 0x22, 0x3a, 0x22];
    assert(r@ =~= password_key());
    r
}

fn notes_key_bytes() -> (r: [u8; 10])
    ensures
        r@ == notes_key(),
{
    let r: [u8; 10] = [0x2c, 0x22, 0x6e, 0x6f, 0x74, 0x65, 0x73, 0x22, 0x3a, 0x22];
    assert(r@ =~= notes_key());
    r
}

fn push_bytes(out: &mut Vec<u8>, bytes: &[u8])
    ensures
        final(out)@ == old(out)@ + bytes@,
{
    let mut i: usize = 0;
    while i < bytes.len()
        invariant
            i <= bytes@.len(),
            out@ == old(out)@ + bytes@.take(i as int),
        decreases bytes@.len() - i,
    {
        assert(bytes@.take(i as int + 1) =~= bytes@.take(i as int).push(bytes@[i as int]));
        out.push(bytes[i]);
        i = i + 1;
    }
    assert(bytes@.take(bytes@.len() as int) =~= bytes@);
}

/// Appends a key, the escaped value and its closing quote.
fn push_field(out: &mut Vec<u8>, key: &[u8], value: &String)
    ensures
        final(out)@ == old(out)@ + field_text(key@, encode_utf8(value@)),
{
    push_bytes(out, key);
    push_escaped(out, value.as_str().as_bytes());
    out.push(0x22);
    assert(out@ =~= old(out)@ + field_text(key@, encode_utf8(value@)));
}

/// Appends the text of one record.
fn push_record(out: &mut Vec<u8>, r: &JsonDatabseKMH)
    ensures
        final(out)@ == old(out)@ + record_text(fields_of(r@)),
{
    reveal(record_text);
    push_field(out, &title_key_bytes(), &r.title);
    push_field(out, &username_key_bytes(), &r.username);
    push_field(out, &password_key_bytes(), &r.password);
    push_field(out, &notes_key_bytes(), &r.notes);
    out.push(0x7d);
    assert(out@ =~= old(out)@ + record_text(fields_of(r@)));
}

/// Serializes a record list to its canonical text encoding.
pub fn encode_records(records: &Vec<JsonDatabseKMH>) -> (r: Vec<u8>)
    ensures
        r@ == records_text(view_records(records@)),
{
    let ghost fs = view_records(records@).map_values(|r: CredentialView| fields_of(r));
    let mut out: Vec<u8> = Vec::new();
    out.push(0x5b);
    if records.len() > 0 {
        push_record(&mut out, &records[0]);
        let mut i: usize = 1;
        assert(fs.subrange(1, 1) =~= Seq::<FieldBytes>::empty());
        while i < records.len()
            invariant
                1 <= i <= records@.len(),
                fs.len() == records@.len(),
                forall|k: int| 0 <= k < fs.len() ==> #[trigger] fs[k] == fields_of(records@[k]@),
                out@ == seq![0x5bu8] + record_text(fs[0]) + tail_text(fs.subrange(1, i as int)),
            decreases records@.len() - i,
        {
            proof {
                lemma_tail_text_push(fs.subrange(1, i as int), fs[i as int]);
                assert(fs.subrange(1, i as int + 1) =~= fs.subrange(1, i as int).push(fs[i as int]));
            }
            out.push(0x2c);
            push_record(&mut out, &records[i]);
            i = i + 1;
        }
        assert(fs.subrange(1, fs.len() as int) =~= fs.drop_first());
    }
    out.push(0x5d);
    assert(out@ =~= list_text(fs));
    out
}

/// The four fields of a record, as bytes read from the text.
struct RawRecord {
    title: Vec<u8>,
    username: Vec<u8>,
    password: Vec<u8>,
    notes: Vec<u8>,
}

impl View for RawRecord {
    type V = FieldBytes;

    closed spec fn view(&self) -> FieldBytes {
        (self.title@, self.username@, self.password@, self.notes@)
    }
}

/// Matches `tok` at `pos` and gives the position after it.
fn expect_at(text: &[u8], pos: usize, tok: &[u8]) -> (r: Option<usize>)
    requires
        pos <= text@.len(),
    ensures
        match (r, expect(text@.skip(pos as int), tok@)) {
            (Some(e), Some(t)) => pos <= e <= text@.len() && text@.skip(e as int) == t && e
                == pos + tok@.len(),
            (None, None) => true,
            _ => false,
        },
{
    let ghost s = text@.skip(pos as int);
    if tok.len() > text.len() - pos {
        return None;
    }
    let mut i: usize = 0;
    while i < tok.len()
        invariant
            i <= tok@.len(),
            tok@.len() <= s.len(),
            pos + tok@.len() <= text.len(),
            s == text@.skip(pos as int),
            s.len() == text@.len() - pos,
            s.take(i as int) == tok@.take(i as int),
        decreases tok@.len() - i,
    {
        if text[pos + i] != tok[i] {
            assert(s.take(tok@.len() as int)[i as int] != tok@[i as int]);
            return None;
        }
        assert(s.take(i as int + 1) =~= tok@.take(i as int + 1));
        i = i + 1;
    }
    assert(tok@.take(tok@.len() as int) =~= tok@);
    assert(s.skip(tok@.len() as int) =~= text@.skip(pos + tok@.len()));
    Some(pos + tok.len())
}

/// Reads a key and its value's string literal at `pos`.
fn parse_field_at(text: &[u8], pos: usize, key: &[u8]) -> (r: Option<(Vec<u8>, usize)>)
    requires
        pos <= text@.len(),
    ensures
        match (r, parse_field(text@.skip(pos as int), key@)) {
            (Some((v, e)), Some((w, t))) => v@ == w && pos < e <= text@.len() && text@.skip(
                e as int,
            ) == t,
            (None, None) => true,
            _ => false,
        },
{
    match expect_at(text, pos, key) {
        None => None,
        Some(p) => parse_string(text, p),
    }
}

/// Reads one record at `pos`.
fn parse_record_at(text: &[u8], pos: usize) -> (r: Option<(RawRecord, usize)>)
    requires
        pos <= text@.len(),
    ensures
        match (r, parse_record(text@.skip(pos as int))) {
            (Some((v, e)), Some((w, t))) => v@ == w && pos < e <= text@.len() && text@.skip(
                e as int,
            ) == t,
            (None, None) => true,
            _ => false,
        },
{
    reveal(parse_record);
    let (title, after_title) = match parse_field_at(text, pos, &title_key_bytes()) {
        None => return None,
        Some(x) => x,
    };
    let username_key = username_key_bytes();
    let (username, after_username) = match parse_field_at(text, after_title, &username_key) {
        None => return None,
        Some(x) => x,
    };
    let password_key = password_key_bytes();
    let (password, after_password) = match parse_field_at(text, after_username, &password_key) {
        None => return None,
        Some(x) => x,
    };
    let (notes, after_notes) = match parse_field_at(text, after_password, &notes_key_bytes()) {
        None => return None,
        Some(x) => x,
    };
    let close: [u8; 1] = [0x7d];
    assert(close@ =~= seq![0x7du8]);
    match expect_at(text, after_notes, &close) {
        None => None,
        Some(end) => Some((RawRecord { title, username, password, notes }, end)),
    }
}

/// Appends a record to the list that a parse produced.
spec fn prefix_list(a: Seq<FieldBytes>, o: Option<Seq<FieldBytes>>) -> Option<
    Seq<FieldBytes>,
> {
    match o {
        Some(fs) => Some(a + fs),
        None => None,
    }
}

/// The views of a sequence of raw records.
spec fn raw_views(v: Seq<RawRecord>) -> Seq<FieldBytes> {
    v.map_values(|r: RawRecord| r@)
}

/// Reads a whole record list, keeping the fields as bytes.
fn parse_list_bytes(text: &[u8]) -> (r: Option<Vec<RawRecord>>)
    ensures
        match (r, parse_list(text@)) {
            (Some(v), Some(fs)) => raw_views(v@) == fs,
            (None, None) => true,
            _ => false,
        },
{
    if text.len() == 0 || text[0] != 0x5b {
        return None;
    }
    if text.len() == 2 && text[1] == 0x5d {
        let empty: Vec<RawRecord> = Vec::new();
        assert(raw_views(empty@) =~= Seq::<FieldBytes>::empty());
        return Some(empty);
    }
    assert(text@.skip(1) =~= text@.drop_first());
    let (first, first_end) = match parse_record_at(text, 1) {
        None => return None,
        Some(x) => x,
    };
    let mut out: Vec<RawRecord> = Vec::new();
    out.push(first);
    let mut p: usize = first_end;
    assert(raw_views(out@) =~= seq![first@]);
    assert(prefix_list(raw_views(out@), parse_tail(text@.skip(p as int))) == parse_list(text@));
    loop
        invariant
            1 <= p <= text@.len(),
            prefix_list(raw_views(out@), parse_tail(text@.skip(p as int))) == parse_list(text@),
        decreases text@.len() - p,
    {
        let ghost s = text@.skip(p as int);
        if p == text.len() {
            return None;
        }
        assert(s[0] == text@[p as int]);
        if text.len() - p == 1 && text[p] == 0x5d {
            assert(raw_views(out@) + Seq::<FieldBytes>::empty() =~= raw_views(out@));
            return Some(out);
        }
        if text[p] != 0x2c {
            return None;
        }
        assert(s.drop_first() =~= text@.skip(p as int + 1));
        match parse_record_at(text, p + 1) {
            None => {
                return None;
            },
            Some((rec, e)) => {
                proof {
                    let o = parse_tail(text@.skip(e as int));
                    if o is Some {
                        assert(raw_views(out@) + (seq![rec@] + o->0) =~= raw_views(
                            out@.push(rec),
                        ) + o->0);
                    } else {
                        assert(parse_tail(s) is None);
                    }
                }
                out.push(rec);
                p = e;
            },
        }
    }
}

/// A text whose parse holds a field that is not well-formed UTF-8 encodes no
/// record list.
proof fn lemma_no_encoding(text: Seq<u8>, fs: Seq<FieldBytes>, i: int)
    requires
        parse_list(text) == Some(fs),
        0 <= i < fs.len(),
        !(valid_utf8(fs[i].0) && valid_utf8(fs[i].1) && valid_utf8(fs[i].2) && valid_utf8(
            fs[i].3,
        )),
    ensures
        forall|rs: Seq<CredentialView>| #[trigger] records_text(rs) != text,
{
    broadcast use encode_utf8_valid_utf8;

    assert forall|rs: Seq<CredentialView>| #[trigger] records_text(rs) != text by {
        if records_text(rs) == text {
            lemma_parse_list_text(rs.map_values(|r: CredentialView| fields_of(r)));
            assert(fs[i] == fields_of(rs[i]));
        }
    }
}

/// Relies on std's `String::from_utf8`: it succeeds exactly on well-formed
/// UTF-8, and the string holds the characters that the bytes encode.
#[verifier::external_body]
fn string_from_utf8(bytes: &[u8]) -> (r: Option<String>)
    ensures
        match r {
            Some(s) => valid_utf8(bytes@) && s@ == decode_utf8(bytes@),
            None => !valid_utf8(bytes@),
        },
{
    String::from_utf8(bytes.to_vec()).ok()
}

/// Reads the canonical text encoding of a record list. It fails exactly on
/// the byte sequences that encode no record list.
pub fn decode_records(text: &[u8]) -> (r: Result<Vec<JsonDatabseKMH>, VaultError>)
    ensures
        match r {
            Ok(v) => records_text(view_records(v@)) == text@ && decoded(text@) == Some(
                view_records(v@),
            ),
            Err(e) => e == VaultError::DecodeFailure && decoded(text@) is None,
        },
{
    broadcast use encode_utf8_valid_utf8, encode_utf8_decode_utf8, decode_utf8_encode_utf8;

    proof {
        lemma_parse_list_sound(text@);
        assert forall|rs: Seq<CredentialView>| #[trigger] records_text(rs) == text@ implies
            parse_list(text@) == Some(rs.map_values(|r: CredentialView| fields_of(r))) by {
            lemma_parse_list_text(rs.map_values(|r: CredentialView| fields_of(r)));
        }
    }
    let raws = match parse_list_bytes(text) {
        None => return Err(VaultError::DecodeFailure),
        Some(v) => v,
    };
    let ghost fs = raw_views(raws@);
    let mut records: Vec<JsonDatabseKMH> = Vec::new();
    let mut i: usize = 0;
    while i < raws.len()
        invariant
            i <= raws@.len(),
            fs == raw_views(raws@),
            records@.len() == i,
            forall|k: int| 0 <= k < i ==> fields_of(#[trigger] records@[k]@) == fs[k],
            parse_list(text@) == Some(fs),
        decreases raws@.len() - i,
    {
        let raw = &raws[i];
        assert(raw@ == fs[i as int]);
        let title = match string_from_utf8(&raw.title) {
            None => {
                proof {
                    lemma_no_encoding(text@, fs, i as int);
                }
                return Err(VaultError::DecodeFailure);
            },
            Some(s) => s,
        };
        proof {
            decode_utf8_encode_utf8(raw.title@);
        }
        let username = match string_from_utf8(&raw.username) {
            None => {
                proof {
                    lemma_no_encoding(text@, fs, i as int);
                }
                return Err(VaultError::DecodeFailure);
            },
            Some(s) => s,
        };
        proof {
            decode_utf8_encode_utf8(raw.username@);
        }
        let password = match string_from_utf8(&raw.password) {
            None => {
                proof {
                    lemma_no_encoding(text@, fs, i as int);
                }
                return Err(VaultError::DecodeFailure);
            },
            Some(s) => s,
        };
        proof {
            decode_utf8_encode_utf8(raw.password@);
        }
        let notes = match string_from_utf8(&raw.notes) {
            None => {
                proof {
                    lemma_no_encoding(text@, fs, i as int);
                }
                return Err(VaultError::DecodeFailure);
            },
            Some(s) => s,
        };
        proof {
            decode_utf8_encode_utf8(raw.notes@);
        }
        let rec = JsonDatabseKMH::new(title, username, password, notes);
        assert(fields_of(rec@) == fs[i as int]);
        records.push(rec);
        i = i + 1;
    }
    assert(view_records(records@).map_values(|r: CredentialView| fields_of(r)) =~= fs);
    proof {
        lemma_decode_encode(view_records(records@));
    }
    Ok(records)
}

/// The record list that a text encodes, if it encodes one.
pub open spec fn decoded(text: Seq<u8>) -> Option<Seq<CredentialView>> {
    if exists|rs: Seq<CredentialView>| #[trigger] records_text(rs) == text {
        Some(choose|rs: Seq<CredentialView>| #[trigger] records_text(rs) == text)
    } else {
        None
    }
}

/// Two record lists with the same text are the same list.
pub proof fn lemma_records_text_injective(a: Seq<CredentialView>, b: Seq<CredentialView>)
    requires
        records_text(a) == records_text(b),
    ensures
        a == b,
{
    broadcast use encode_utf8_decode_utf8;

    let fa = a.map_values(|r: CredentialView| fields_of(r));
    let fb = b.map_values(|r: CredentialView| fields_of(r));
    lemma_parse_list_text(fa);
    lemma_parse_list_text(fb);
    assert(fa == fb);
    assert forall|i: int| 0 <= i < a.len() implies a[i] == b[i] by {
        assert(fa[i] == fb[i]);
        assert(decode_utf8(encode_utf8(a[i].title)) == a[i].title);
        assert(decode_utf8(encode_utf8(b[i].title)) == b[i].title);
        assert(decode_utf8(encode_utf8(a[i].username)) == a[i].username);
        assert(decode_utf8(encode_utf8(b[i].username)) == b[i].username);
        assert(decode_utf8(encode_utf8(a[i].password)) == a[i].password);
        assert(decode_utf8(encode_utf8(b[i].password)) == b[i].password);
        assert(decode_utf8(encode_utf8(a[i].notes)) == a[i].notes);
        assert(decode_utf8(encode_utf8(b[i].notes)) == b[i].notes);
    }
    assert(a =~= b);
}

/// Decoding the text of a record list gives that list back, field for field
/// and in order.
pub proof fn lemma_decode_encode(rs: Seq<CredentialView>)
    ensures
        decoded(records_text(rs)) == Some(rs),
{
    let t = records_text(rs);
    assert(exists|x: Seq<CredentialView>| #[trigger] records_text(x) == t);
    let c = choose|x: Seq<CredentialView>| #[trigger] records_text(x) == t;
    lemma_records_text_injective(c, rs);
}

} // verus!
