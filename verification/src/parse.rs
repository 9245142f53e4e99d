//! Parsing of unsigned decimal numbers and booleans, as Rust's `FromStr`
//! does it for `u64`, `usize` and `bool`.
use vstd::prelude::*;

use crate::text::chars_of;

verus! {

/// `c` is an ASCII decimal digit.
pub open spec fn is_digit(c: char) -> bool {
    48 <= c as u32 <= 57
}

/// The value of a digit.
pub open spec fn digit_value(c: char) -> int {
    c as u32 - 48
}

/// The value of a sequence of decimal digits, most significant first.
pub open spec fn decimal_value(d: Seq<char>) -> int
    decreases d.len(),
{
    if d.len() == 0 {
        0
    } else {
        decimal_value(d.drop_last()) * 10 + digit_value(d.last())
    }
}

/// The digits of an unsigned number in text: an optional leading `+`.
pub open spec fn unsigned_digits(s: Seq<char>) -> Seq<char> {
    if s.len() > 0 && s[0] == '+' {
        s.skip(1)
    } else {
        s
    }
}

/// The value of an unsigned decimal number: an optional `+` followed by at least
/// one ASCII digit, and nothing else; `None` for any other text.
pub open spec fn spec_parse_unsigned(s: Seq<char>) -> Option<int> {
    let d = unsigned_digits(s);
    if d.len() > 0 && forall|i: int| 0 <= i < d.len() ==> is_digit(#[trigger] d[i]) {
        Some(decimal_value(d))
    } else {
        None
    }
}

/// The unsigned number the text denotes, if it fits below `max`.
pub open spec fn spec_parse_bounded(s: Seq<char>, max: int) -> Option<int> {
    match spec_parse_unsigned(s) {
        Some(v) => if v <= max {
            Some(v)
        } else {
            None
        },
        None => None,
    }
}

/// `true` and `false`, exactly.
pub open spec fn spec_parse_bool(s: Seq<char>) -> Option<bool> {
    if s == seq!['t', 'r', 'u', 'e'] {
        Some(true)
    } else if s == seq!['f', 'a', 'l', 's', 'e'] {
        Some(false)
    } else {
        None
    }
}

proof fn lemma_decimal_nonneg(d: Seq<char>)
    requires
        forall|j: int| 0 <= j < d.len() ==> is_digit(#[trigger] d[j]),
    ensures
        0 <= decimal_value(d),
    decreases d.len(),
{
    if d.len() > 0 {
        assert(is_digit(d[d.len() - 1]));
        assert forall|j: int| 0 <= j < d.drop_last().len() implies is_digit(#[trigger] d.drop_last()[j]) by {
            assert(d.drop_last()[j] == d[j]);
        }
        lemma_decimal_nonneg(d.drop_last());
    }
}

proof fn lemma_decimal_prefix_monotone(d: Seq<char>, i: int)
    requires
        0 <= i <= d.len(),
        forall|j: int| 0 <= j < d.len() ==> is_digit(#[trigger] d[j]),
    ensures
        0 <= decimal_value(d.take(i)) <= decimal_value(d),
    decreases d.len() - i,
{
    if i < d.len() {
        lemma_decimal_prefix_monotone(d, i + 1);
        assert(d.take(i + 1).drop_last() =~= d.take(i));
        assert(d.take(i + 1).last() == d[i]);
        assert(is_digit(d[i]));
        assert(decimal_value(d.take(i + 1)) == decimal_value(d.take(i)) * 10 + digit_value(d[i]));
        let x = decimal_value(d.take(i));
        let y = decimal_value(d.take(i + 1));
        assert(0 <= digit_value(d[i]) <= 9);
        assert(0 <= y);
        assert(x >= 0);
        assert(x <= y);
    } else {
        assert(d.take(i) =~= d);
        lemma_decimal_nonneg(d);
    }
}

/// Parse an unsigned decimal number that fits in a `u64`.
pub fn parse_u64(s: &str) -> (r: Option<u64>)
    ensures
        r matches Some(v) ==> spec_parse_bounded(s@, u64::MAX as int) == Some(v as int),
        r is None ==> spec_parse_bounded(s@, u64::MAX as int) is None,
{
    let c = chars_of(s);
    parse_u64_chars(&c)
}

/// Parse an unsigned decimal number, given by its characters, that fits in a `u64`.
pub fn parse_u64_chars(c: &Vec<char>) -> (r: Option<u64>)
    ensures
        r matches Some(v) ==> spec_parse_bounded(c@, u64::MAX as int) == Some(v as int),
        r is None ==> spec_parse_bounded(c@, u64::MAX as int) is None,
{
    let mut start: usize = 0;
    if c.len() > 0 && c[0] == '+' {
        start = 1;
    }
    let ghost d = unsigned_digits(c@);
    assert(d =~= c@.skip(start as int));
    if start >= c.len() {
        assert(d.len() == 0);
        return None;
    }
    let mut acc: u64 = 0;
    let mut i: usize = start;
    while i < c.len()
        invariant
            d == unsigned_digits(c@),
            d =~= c@.skip(start as int),
            start <= i <= c.len(),
            start < c.len(),
            forall|j: int| 0 <= j < i - start ==> is_digit(#[trigger] d[j]),
            acc as int == decimal_value(d.take(i - start)),
        decreases c.len() - i,
    {
        let ch = c[i];
        let code = ch as u32;
        if code < 48 || code > 57 {
            assert(!is_digit(d[i - start]));
            assert(!(forall|j: int| 0 <= j < d.len() ==> is_digit(#[trigger] d[j])));
            assert(spec_parse_unsigned(c@) is None);
            return None;
        }
        let digit = (code - 48) as u64;
        assert(d[i - start] == ch);
        assert(d.take(i - start + 1).drop_last() =~= d.take(i - start));
        assert(d.take(i - start + 1).last() == ch);
        assert(decimal_value(d.take(i - start + 1)) == acc * 10 + digit);
        let next = match acc.checked_mul(10) {
            Some(m) => m.checked_add(digit),
            None => None,
        };
        match next {
            Some(v) => {
                acc = v;
            },
            None => {
                proof {
                    if forall|j: int| 0 <= j < d.len() ==> is_digit(#[trigger] d[j]) {
                        lemma_decimal_prefix_monotone(d, i - start + 1);
                        assert(decimal_value(d) > u64::MAX);
                    }
                    assert(spec_parse_bounded(c@, u64::MAX as int) is None);
                }
                return None;
            },
        }
        i += 1;
    }
    assert(d.take(c.len() - start) =~= d);
    assert(d.len() > 0);
    Some(acc)
}

/// Parse an unsigned decimal number that fits in a `usize`.
pub fn parse_usize(s: &str) -> (r: Option<usize>)
    ensures
        r matches Some(v) ==> spec_parse_bounded(s@, usize::MAX as int) == Some(v as int),
        r is None ==> spec_parse_bounded(s@, usize::MAX as int) is None,
{
    match parse_u64(s) {
        Some(v) => {
            if v <= usize::MAX as u64 {
                Some(v as usize)
            } else {
                None
            }
        },
        None => None,
    }
}

/// Parse `true` or `false`.
pub fn parse_bool(s: &str) -> (r: Option<bool>)
    ensures
        r == spec_parse_bool(s@),
{
    let c = chars_of(s);
    if c.len() == 4 && c[0] == 't' && c[1] == 'r' && c[2] == 'u' && c[3] == 'e' {
        assert(c@ =~= seq!['t', 'r', 'u', 'e']);
        return Some(true);
    }
    if c.len() == 5 && c[0] == 'f' && c[1] == 'a' && c[2] == 'l' && c[3] == 's' && c[4] == 'e' {
        assert(c@ =~= seq!['f', 'a', 'l', 's', 'e']);
        return Some(false);
    }
    assert(c@ != seq!['t', 'r', 'u', 'e']) by {
        if c@ == seq!['t', 'r', 'u', 'e'] {
            assert(c@.len() == 4);
        }
    }
    assert(c@ != seq!['f', 'a', 'l', 's', 'e']) by {
        if c@ == seq!['f', 'a', 'l', 's', 'e'] {
            assert(c@.len() == 5);
        }
    }
    None
}

} // verus!
