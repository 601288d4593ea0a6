//! Small text helpers: case folding, comparison with a fixed word, and reading
//! a record index typed in decimal.

use vstd::prelude::*;
use vstd::string::StrSliceExecFns;

verus! {

/// The lowercase form of a text.
pub uninterp spec fn lower_of(s: Seq<char>) -> Seq<char>;

/// Relies on std's `str::to_lowercase`: the lowercase mapping of the text,
/// which depends on its characters alone.
#[verifier::external_body]
pub(crate) fn to_lowercase(s: &str) -> (r: String)
    ensures
        r@ == lower_of(s@),
{
    s.to_lowercase()
}

/// Whether a text is exactly the given word.
pub(crate) fn is_word(s: &str, word: &[char]) -> (r: bool)
    ensures
        r == (s@ == word@),
{
    let n = s.unicode_len();
    if n != word.len() {
        return false;
    }
    let mut i: usize = 0;
    while i < n
        invariant
            i <= n,
            n == s@.len(),
            n == word@.len(),
            s@.take(i as int) == word@.take(i as int),
        decreases n - i,
    {
        if s.get_char(i) != word[i] {
            assert(s@[i as int] != word@[i as int]);
            return false;
        }
        assert(s@.take(i as int + 1) =~= word@.take(i as int + 1));
        i = i + 1;
    }
    assert(s@ =~= s@.take(n as int));
    assert(word@ =~= word@.take(n as int));
    true
}

/// Whether a text is one or more decimal digits.
pub open spec fn is_digits(s: Seq<char>) -> bool {
    s.len() > 0 && forall|i: int| 0 <= i < s.len() ==> '0' <= #[trigger] s[i] && s[i] <= '9'
}

/// The value of a run of decimal digits.
pub open spec fn digits_value(s: Seq<char>) -> nat
    decreases s.len(),
{
    if s.len() == 0 {
        0
    } else {
        digits_value(s.drop_last()) * 10 + (s.last() as nat - 48) as nat
    }
}

/// Appending digits never lowers the value.
proof fn lemma_digits_value_grows(s: Seq<char>, k: int)
    requires
        0 <= k <= s.len(),
        forall|i: int| 0 <= i < s.len() ==> '0' <= #[trigger] s[i] && s[i] <= '9',
    ensures
        digits_value(s.take(k)) <= digits_value(s),
    decreases s.len() - k,
{
    if k < s.len() {
        let t = s.take(k + 1);
        assert(t.drop_last() =~= s.take(k));
        assert(t.last() == s[k]);
        lemma_digits_value_grows(s, k + 1);
    } else {
        assert(s.take(k) =~= s);
    }
}

/// The record index that a text of decimal digits stands for; nothing for
/// any other text, or for a number too large for an index.
pub fn parse_index(s: &str) -> (r: Option<usize>)
    ensures
        r == (if is_digits(s@) && digits_value(s@) <= usize::MAX {
            Some(digits_value(s@) as usize)
        } else {
            None
        }),
{
    let n = s.unicode_len();
    if n == 0 {
        return None;
    }
    let mut value: usize = 0;
    let mut i: usize = 0;
    while i < n
        invariant
            i <= n,
            n == s@.len(),
            forall|k: int| 0 <= k < i ==> '0' <= #[trigger] s@[k] && s@[k] <= '9',
            value == digits_value(s@.take(i as int)),
        decreases n - i,
    {
        let c = s.get_char(i);
        if c < '0' || c > '9' {
            assert(!is_digits(s@));
            return None;
        }
        let d = (c as u32 - 48) as usize;
        let t = Ghost(s@.take(i as int + 1));
        assert(t@.drop_last() =~= s@.take(i as int));
        assert(t@.last() == c);
        if value > (usize::MAX - d) / 10 {
            proof {
                assert(digits_value(t@) > usize::MAX) by (nonlinear_arith)
                    requires
                        value > (usize::MAX - d) / 10,
                        digits_value(t@) == value * 10 + d,
                        d <= 9,
                ;
                if is_digits(s@) {
                    lemma_digits_value_grows(s@, i as int + 1);
                }
            }
            assert(s@.take(i as int + 1) == t@);
            return None;
        }
        assert(value * 10 + d <= usize::MAX) by (nonlinear_arith)
            requires
                value <= (usize::MAX - d) / 10,
                d <= 9,
        ;
        value = value * 10 + d;
        i = i + 1;
    }
    assert(s@.take(n as int) =~= s@);
    Some(value)
}

} // verus!
