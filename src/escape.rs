//! String literals of the vault's text encoding: the bytes of a field between
//! double quotes, with the compact JSON escapes. Quote and backslash take a
//! backslash; backspace, tab, line feed, form feed and carriage return take
//! their one-letter escape; the other control bytes are written `\u00xx` with
//! lower-case hex digits; every other byte stands as it is.

use vstd::prelude::*;

verus! {

/// The one-letter escape of a byte that has one.
pub open spec fn short_escape(c: u8) -> Option<u8> {
    if c == 0x22 {
        Some(0x22u8)
    } else if c == 0x5c {
        Some(0x5cu8)
    } else if c == 0x08 {
        Some(0x62u8)
    } else if c == 0x09 {
        Some(0x74u8)
    } else if c == 0x0a {
        Some(0x6eu8)
    } else if c == 0x0c {
        Some(0x66u8)
    } else if c == 0x0d {
        Some(0x72u8)
    } else {
        None
    }
}

/// The byte that a one-letter escape stands for.
pub open spec fn short_unescape(e: u8) -> Option<u8> {
    if e == 0x22 {
        Some(0x22u8)
    } else if e == 0x5c {
        Some(0x5cu8)
    } else if e == 0x62 {
        Some(0x08u8)
    } else if e == 0x74 {
        Some(0x09u8)
    } else if e == 0x6e {
        Some(0x0au8)
    } else if e == 0x66 {
        Some(0x0cu8)
    } else if e == 0x72 {
        Some(0x0du8)
    } else {
        None
    }
}

/// The lower-case hex digit of a value below 16.
pub open spec fn hex_digit(n: int) -> u8 {
    if n < 10 {
        (0x30 + n) as u8
    } else {
        (0x57 + n) as u8
    }
}

/// The value of a lower-case hex digit, or -1 for any other byte.
pub open spec fn hex_value(d: u8) -> int {
    if 0x30 <= d <= 0x39 {
        d - 0x30
    } else if 0x61 <= d <= 0x66 {
        d - 0x57
    } else {
        -1
    }
}

/// The escaped form of one byte.
pub open spec fn escape_byte(c: u8) -> Seq<u8> {
    if short_escape(c) is Some {
        seq![0x5cu8, short_escape(c)->0]
    } else if c < 0x20 {
        seq![0x5cu8, 0x75u8, 0x30u8, 0x30u8, hex_digit(c as int / 16), hex_digit(c as int % 16)]
    } else {
        seq![c]
    }
}

/// The escaped form of a byte sequence.
pub open spec fn escape(s: Seq<u8>) -> Seq<u8>
    decreases s.len(),
{
    if s.len() == 0 {
        Seq::empty()
    } else {
        escape_byte(s[0]) + escape(s.drop_first())
    }
}

/// A byte sequence as a string literal: escaped, between double quotes.
pub open spec fn quoted(s: Seq<u8>) -> Seq<u8> {
    seq![0x22u8] + escape(s) + seq![0x22u8]
}

/// The byte that a `\u00xx` escape at the start of `s` stands for, when the
/// escape is in its canonical form.
pub open spec fn unicode_escape(s: Seq<u8>) -> Option<u8> {
    if s.len() >= 6 && s[0] == 0x5c && s[1] == 0x75 && s[2] == 0x30 && s[3] == 0x30 && (s[4]
        == 0x30 || s[4] == 0x31) && hex_value(s[5]) >= 0 {
        let code = (16 * (s[4] - 0x30) + hex_value(s[5])) as u8;
        if short_escape(code) is None {
            Some(code)
        } else {
            None
        }
    } else {
        None
    }
}

/// Puts a byte in front of the value that a parse produced.
pub open spec fn prepend(c: u8, o: Option<(Seq<u8>, Seq<u8>)>) -> Option<(Seq<u8>, Seq<u8>)> {
    match o {
        Some((v, rest)) => Some((seq![c] + v, rest)),
        None => None,
    }
}

/// Puts bytes in front of the value that a parse produced.
spec fn prefix_with(p: Seq<u8>, o: Option<(Seq<u8>, Seq<u8>)>) -> Option<
    (Seq<u8>, Seq<u8>),
> {
    match o {
        Some((v, rest)) => Some((p + v, rest)),
        None => None,
    }
}

/// Reads the inside of a string literal whose opening quote has been read:
/// the bytes it stands for and what follows its closing quote, or nothing
/// when `s` does not hold a canonical literal body and closing quote.
pub open spec fn unescape(s: Seq<u8>) -> Option<(Seq<u8>, Seq<u8>)>
    decreases s.len(),
{
    if s.len() == 0 {
        None
    } else if s[0] == 0x22 {
        Some((Seq::empty(), s.drop_first()))
    } else if s[0] != 0x5c {
        if s[0] < 0x20 {
            None
        } else {
            prepend(s[0], unescape(s.drop_first()))
        }
    } else if s.len() >= 2 && short_unescape(s[1]) is Some {
        prepend(short_unescape(s[1])->0, unescape(s.skip(2)))
    } else if unicode_escape(s) is Some {
        prepend(unicode_escape(s)->0, unescape(s.skip(6)))
    } else {
        None
    }
}

/// Reading back one escaped byte gives the byte, and leaves what follows.
proof fn lemma_unescape_escape_byte(c: u8, t: Seq<u8>)
    ensures
        unescape(escape_byte(c) + t) == prepend(c, unescape(t)),
{
    let s = escape_byte(c) + t;
    if short_escape(c) is Some {
        assert(s.skip(2) =~= t);
    } else if c < 0x20 {
        assert(c as int / 16 == 0 || c as int / 16 == 1);
        assert(hex_value(hex_digit(c as int % 16)) == c as int % 16);
        assert(unicode_escape(s) == Some(c));
        assert(s.skip(6) =~= t);
    } else {
        assert(s.drop_first() =~= t);
    }
}

/// A literal body followed by its closing quote reads back to the bytes it
/// was made from, and leaves what follows the quote.
pub proof fn lemma_unescape_escape(x: Seq<u8>, rest: Seq<u8>)
    ensures
        unescape(escape(x) + seq![0x22u8] + rest) == Some((x, rest)),
    decreases x.len(),
{
    if x.len() == 0 {
        let s = escape(x) + seq![0x22u8] + rest;
        assert(s =~= seq![0x22u8] + rest);
        assert(s.drop_first() =~= rest);
    } else {
        let t = escape(x.drop_first()) + seq![0x22u8] + rest;
        assert(escape(x) + seq![0x22u8] + rest =~= escape_byte(x[0]) + t);
        lemma_unescape_escape_byte(x[0], t);
        lemma_unescape_escape(x.drop_first(), rest);
        assert(seq![x[0]] + x.drop_first() =~= x);
    }
}

/// What reads as a literal body is that body, escaped, and its closing quote.
pub proof fn lemma_unescape_sound(s: Seq<u8>)
    ensures
        match unescape(s) {
            Some((v, rest)) => s == escape(v) + seq![0x22u8] + rest,
            None => true,
        },
    decreases s.len(),
{
    if s.len() == 0 {
    } else if s[0] == 0x22 {
        assert(s =~= escape(Seq::<u8>::empty()) + seq![0x22u8] + s.drop_first());
    } else {
        let w: int = if s[0] != 0x5c {
            1
        } else if s.len() >= 2 && short_unescape(s[1]) is Some {
            2
        } else {
            6
        };
        if unescape(s) is Some {
            lemma_unescape_sound(s.skip(w));
            let (v1, rest) = unescape(s.skip(w))->0;
            let (v, rest2) = unescape(s)->0;
            let c = v[0];
            assert(v =~= seq![c] + v1);
            assert(v.drop_first() =~= v1);
            assert(escape_byte(c) =~= s.take(w)) by {
                if w == 6 {
                    let code = (16 * (s[4] - 0x30) + hex_value(s[5])) as u8;
                    assert(c == code);
                    assert(code as int / 16 == s[4] - 0x30);
                    assert(hex_digit(code as int % 16) == s[5]);
                }
            }
            assert(s =~= s.take(w) + s.skip(w));
        }
    }
}

/// Escaping distributes over concatenation.
pub proof fn lemma_escape_append(a: Seq<u8>, b: Seq<u8>)
    ensures
        escape(a + b) == escape(a) + escape(b),
    decreases a.len(),
{
    if a.len() == 0 {
        assert(a + b =~= b);
    } else {
        assert((a + b).drop_first() =~= a.drop_first() + b);
        lemma_escape_append(a.drop_first(), b);
    }
}

/// The lower-case hex digit of a value below 16.
fn hex_digit_exec(n: u8) -> (r: u8)
    requires
        n < 16,
    ensures
        r == hex_digit(n as int),
{
    if n < 10 {
        0x30 + n
    } else {
        0x57 + n
    }
}

/// Appends the escaped form of `s` to `out`.
pub(crate) fn push_escaped(out: &mut Vec<u8>, s: &[u8])
    ensures
        final(out)@ == old(out)@ + escape(s@),
{
    let mut i: usize = 0;
    while i < s.len()
        invariant
            i <= s@.len(),
            out@ == old(out)@ + escape(s@.take(i as int)),
        decreases s@.len() - i,
    {
        let c = s[i];
        proof {
            lemma_escape_append(s@.take(i as int), seq![c]);
            assert(s@.take(i as int + 1) =~= s@.take(i as int) + seq![c]);
            assert(seq![c].drop_first() =~= Seq::<u8>::empty());
            assert(escape(Seq::<u8>::empty()) =~= Seq::<u8>::empty());
            assert(escape_byte(c) + Seq::<u8>::empty() =~= escape_byte(c));
            assert(escape(seq![c]) =~= escape_byte(c));
        }
        if c == 0x22 || c == 0x5c {
            out.push(0x5c);
            out.push(c);
        } else if c == 0x08 {
            out.push(0x5c);
            out.push(0x62);
        } else if c == 0x09 {
            out.push(0x5c);
            out.push(0x74);
        } else if c == 0x0a {
            out.push(0x5c);
            out.push(0x6e);
        } else if c == 0x0c {
            out.push(0x5c);
            out.push(0x66);
        } else if c == 0x0d {
            out.push(0x5c);
            out.push(0x72);
        } else if c < 0x20 {
            out.push(0x5c);
            out.push(0x75);
            out.push(0x30);
            out.push(0x30);
            out.push(hex_digit_exec(c / 16));
            out.push(hex_digit_exec(c % 16));
        } else {
            out.push(c);
        }
        i = i + 1;
    }
    assert(s@.take(s@.len() as int) =~= s@);
}

/// The byte that a one-letter escape stands for.
fn short_unescape_exec(e: u8) -> (r: Option<u8>)
    ensures
        r == short_unescape(e),
{
    if e == 0x22 {
        Some(0x22)
    } else if e == 0x5c {
        Some(0x5c)
    } else if e == 0x62 {
        Some(0x08)
    } else if e == 0x74 {
        Some(0x09)
    } else if e == 0x6e {
        Some(0x0a)
    } else if e == 0x66 {
        Some(0x0c)
    } else if e == 0x72 {
        Some(0x0d)
    } else {
        None
    }
}

/// The value of a lower-case hex digit.
fn hex_value_exec(d: u8) -> (r: Option<u8>)
    ensures
        match r {
            Some(v) => hex_value(d) == v as int && v < 16,
            None => hex_value(d) == -1,
        },
{
    if 0x30 <= d && d <= 0x39 {
        Some(d - 0x30)
    } else if 0x61 <= d && d <= 0x66 {
        Some(d - 0x57)
    } else {
        None
    }
}

/// Reads a `\u00xx` escape in its canonical form at `pos`.
fn unicode_escape_exec(text: &[u8], pos: usize) -> (r: Option<u8>)
    requires
        pos < text@.len(),
    ensures
        r == unicode_escape(text@.skip(pos as int)),
{
    let s = Ghost(text@.skip(pos as int));
    if text.len() - pos >= 6 && text[pos] == 0x5c && text[pos + 1] == 0x75 && text[pos + 2] == 0x30
        && text[pos + 3] == 0x30 && (text[pos + 4] == 0x30 || text[pos + 4] == 0x31) {
        match hex_value_exec(text[pos + 5]) {
            Some(low) => {
                let code: u8 = 16 * (text[pos + 4] - 0x30) + low;
                assert(code == (16 * (s@[4] - 0x30) + hex_value(s@[5])) as u8);
                if code == 0x08 || code == 0x09 || code == 0x0a || code == 0x0c || code == 0x0d {
                    None
                } else {
                    Some(code)
                }
            },
            None => None,
        }
    } else {
        None
    }
}

/// Reads the string literal whose body starts at `start`, just after its
/// opening quote: the bytes it stands for and the position just after its
/// closing quote.
pub(crate) fn parse_string(text: &[u8], start: usize) -> (r: Option<(Vec<u8>, usize)>)
    requires
        start <= text@.len(),
    ensures
        match (r, unescape(text@.skip(start as int))) {
            (Some((v, end)), Some((w, rest))) => v@ == w && start < end <= text@.len()
                && text@.skip(end as int) == rest,
            (None, None) => true,
            _ => false,
        },
{
    let mut out: Vec<u8> = Vec::new();
    let mut p: usize = start;
    assert(out@ + Seq::<u8>::empty() =~= Seq::<u8>::empty());
    while p < text.len()
        invariant
            start <= p <= text@.len(),
            unescape(text@.skip(start as int)) == prefix_with(out@, unescape(text@.skip(p as int))),
            p > start || out@.len() == 0,
        decreases text@.len() - p,
    {
        let ghost s = text@.skip(p as int);
        let c = text[p];
        assert(s[0] == c);
        if c == 0x22 {
            assert(s.drop_first() =~= text@.skip(p as int + 1));
            assert(out@ + Seq::<u8>::empty() =~= out@);
            return Some((out, p + 1));
        } else if c != 0x5c {
            if c < 0x20 {
                return None;
            }
            assert(s.drop_first() =~= text@.skip(p as int + 1));
            proof {
                let o = unescape(text@.skip(p as int + 1));
                if o is Some {
                    let (v, rest) = o->0;
                    assert(out@ + (seq![c] + v) =~= out@.push(c) + v);
                }
            }
            out.push(c);
            p = p + 1;
        } else {
            let short = if p + 1 < text.len() {
                short_unescape_exec(text[p + 1])
            } else {
                None
            };
            if let Some(d) = short {
                assert(s[1] == text@[p as int + 1]);
                assert(s.skip(2) =~= text@.skip(p as int + 2));
                proof {
                    let o = unescape(text@.skip(p as int + 2));
                    if o is Some {
                        let (v, rest) = o->0;
                        assert(out@ + (seq![d] + v) =~= out@.push(d) + v);
                    }
                }
                out.push(d);
                p = p + 2;
            } else {
                match unicode_escape_exec(text, p) {
                    Some(d) => {
                        assert(s.skip(6) =~= text@.skip(p as int + 6));
                        proof {
                            let o = unescape(text@.skip(p as int + 6));
                            if o is Some {
                                let (v, rest) = o->0;
                                assert(out@ + (seq![d] + v) =~= out@.push(d) + v);
                            }
                        }
                        out.push(d);
                        p = p + 6;
                    },
                    None => {
                        return None;
                    },
                }
            }
        }
    }
    assert(text@.skip(p as int) =~= Seq::<u8>::empty());
    None
}

} // verus!
