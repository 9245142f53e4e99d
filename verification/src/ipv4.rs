//! IPv4 addresses in dotted-quad text and CIDR blocks.
use vstd::prelude::*;

use crate::parse::{decimal_value, is_digit, parse_u64_chars, spec_parse_bounded};
use crate::text::{chars_find, first_index_of};

verus! {

/// One octet of a dotted quad: one to three ASCII digits without a leading
/// zero (a lone `0` excepted), at most 255.
pub open spec fn spec_octet(t: Seq<char>) -> Option<int> {
    if 1 <= t.len() <= 3 && (forall|i: int| 0 <= i < t.len() ==> is_digit(#[trigger] t[i])) && (t.len() == 1
        || t[0] != '0') && decimal_value(t) <= 255 {
        Some(decimal_value(t))
    } else {
        None
    }
}

/// The text before the first `c` and the text after it.
pub open spec fn split_first(s: Seq<char>, c: char) -> Option<(Seq<char>, Seq<char>)> {
    match first_index_of(s, c) {
        Some(i) => Some((s.take(i), s.skip(i + 1))),
        None => None,
    }
}

/// Four octets in network order as one 32-bit number.
pub open spec fn quad_value(a: int, b: int, c: int, d: int) -> int {
    ((a * 256 + b) * 256 + c) * 256 + d
}

/// A dotted-quad IPv4 address (`a.b.c.d`) as a 32-bit number.
pub open spec fn spec_ipv4(s: Seq<char>) -> Option<int> {
    match split_first(s, '.') {
        Some((a, r1)) => match split_first(r1, '.') {
            Some((b, r2)) => match split_first(r2, '.') {
                Some((c, d)) => match (spec_octet(a), spec_octet(b), spec_octet(c), spec_octet(d)) {
                    (Some(w), Some(x), Some(y), Some(z)) => Some(quad_value(w, x, y, z)),
                    _ => None,
                },
                None => None,
            },
            None => None,
        },
        None => None,
    }
}

/// Two to the power `e`.
pub open spec fn two_pow(e: nat) -> nat
    decreases e,
{
    if e == 0 {
        1
    } else {
        2 * two_pow((e - 1) as nat)
    }
}

/// The address lies in the block of addresses sharing the first `bits` bits of `net`.
pub open spec fn in_cidr_block(addr: int, net: int, bits: int) -> bool {
    addr / (two_pow((32 - bits) as nat) as int) == net / (two_pow((32 - bits) as nat) as int)
}

/// `s` is a CIDR block `a.b.c.d/n` with `0 <= n <= 32` holding the address `addr`.
pub open spec fn spec_cidr_contains(s: Seq<char>, addr: int) -> bool {
    match split_first(s, '/') {
        Some((net, bits)) => match (spec_ipv4(net), spec_parse_bounded(bits, 32)) {
            (Some(n), Some(b)) => in_cidr_block(addr, n, b),
            _ => false,
        },
        None => false,
    }
}

proof fn lemma_two_pow_bound(e: nat)
    requires
        e <= 32,
    ensures
        1 <= two_pow(e) <= 0x1_0000_0000,
        two_pow(e) * two_pow((32 - e) as nat) == 0x1_0000_0000,
    decreases e,
{
    lemma_two_pow_add(e, (32 - e) as nat);
    assert(two_pow(32) == 0x1_0000_0000) by {
        reveal_with_fuel(two_pow, 33);
    }
    lemma_two_pow_pos(e);
    lemma_two_pow_pos((32 - e) as nat);
    assert(two_pow(e) <= two_pow(e) * two_pow((32 - e) as nat)) by (nonlinear_arith)
        requires
            two_pow((32 - e) as nat) >= 1,
    ;
}

proof fn lemma_two_pow_pos(e: nat)
    ensures
        two_pow(e) >= 1,
    decreases e,
{
    if e > 0 {
        lemma_two_pow_pos((e - 1) as nat);
    }
}

proof fn lemma_two_pow_add(a: nat, b: nat)
    ensures
        two_pow(a) * two_pow(b) == two_pow(a + b),
    decreases a,
{
    if a == 0 {
        assert(two_pow(0) == 1);
        assert(a + b == b);
    } else {
        let a1 = (a - 1) as nat;
        lemma_two_pow_add(a1, b);
        let x = two_pow(a1);
        let y = two_pow(b);
        assert(two_pow(a) == 2 * x);
        assert((2 * x) * y == 2 * (x * y)) by (nonlinear_arith);
        assert(a1 + b + 1 == a + b);
        assert(two_pow((a1 + b + 1) as nat) == 2 * two_pow((a1 + b) as nat));
    }
}

/// The characters `s[from..to]`.
fn chars_slice(s: &Vec<char>, from: usize, to: usize) -> (r: Vec<char>)
    requires
        from <= to <= s.len(),
    ensures
        r@ == s@.subrange(from as int, to as int),
{
    let mut r: Vec<char> = Vec::new();
    let mut i: usize = from;
    while i < to
        invariant
            from <= i <= to <= s.len(),
            r@ == s@.subrange(from as int, i as int),
        decreases to - i,
    {
        r.push(s[i]);
        i += 1;
    }
    r
}

/// Split at the first `c` (see [`split_first`]).
fn chars_split_first(s: &Vec<char>, c: char) -> (r: Option<(Vec<char>, Vec<char>)>)
    ensures
        match r {
            Some((a, b)) => split_first(s@, c) == Some((a@, b@)),
            None => split_first(s@, c) is None,
        },
{
    match chars_find(s, c) {
        Some(i) => {
            let a = chars_slice(s, 0, i);
            let b = chars_slice(s, i + 1, s.len());
            assert(a@ =~= s@.take(i as int));
            assert(b@ =~= s@.skip(i + 1));
            Some((a, b))
        },
        None => None,
    }
}

/// Read one octet (see [`spec_octet`]).
fn parse_octet(t: &Vec<char>) -> (r: Option<u64>)
    ensures
        match r {
            Some(v) => spec_octet(t@) == Some(v as int),
            None => spec_octet(t@) is None,
        },
{
    if t.len() < 1 || t.len() > 3 {
        return None;
    }
    if t.len() > 1 && t[0] == '0' {
        return None;
    }
    let mut acc: u64 = 0;
    let mut i: usize = 0;
    while i < t.len()
        invariant
            1 <= t.len() <= 3,
            i <= t.len(),
            forall|j: int| 0 <= j < i ==> is_digit(#[trigger] t@[j]),
            acc as int == decimal_value(t@.take(i as int)),
            acc < 1000,
            i == 0 ==> acc == 0,
            i == 1 ==> acc < 10,
            i == 2 ==> acc < 100,
        decreases t.len() - i,
    {
        let code = t[i] as u32;
        if code < 48 || code > 57 {
            assert(!is_digit(t@[i as int]));
            return None;
        }
        assert(t@.take(i + 1).drop_last() =~= t@.take(i as int));
        assert(t@.take(i + 1).last() == t@[i as int]);
        acc = acc * 10 + (code - 48) as u64;
        i += 1;
    }
    assert(t@.take(t.len() as int) =~= t@);
    if acc > 255 {
        return None;
    }
    Some(acc)
}

/// Read a dotted-quad IPv4 address (see [`spec_ipv4`]).
pub fn parse_ipv4(s: &Vec<char>) -> (r: Option<u64>)
    ensures
        match r {
            Some(v) => spec_ipv4(s@) == Some(v as int) && v < 0x1_0000_0000,
            None => spec_ipv4(s@) is None,
        },
{
    let (a, r1) = match chars_split_first(s, '.') {
        Some(p) => p,
        None => return None,
    };
    let (b, r2) = match chars_split_first(&r1, '.') {
        Some(p) => p,
        None => return None,
    };
    let (c, d) = match chars_split_first(&r2, '.') {
        Some(p) => p,
        None => return None,
    };
    let w = match parse_octet(&a) {
        Some(v) => v,
        None => return None,
    };
    let x = match parse_octet(&b) {
        Some(v) => v,
        None => return None,
    };
    let y = match parse_octet(&c) {
        Some(v) => v,
        None => return None,
    };
    let z = match parse_octet(&d) {
        Some(v) => v,
        None => return None,
    };
    assert(quad_value(w as int, x as int, y as int, z as int) < 0x1_0000_0000) by (nonlinear_arith)
        requires
            w <= 255,
            x <= 255,
            y <= 255,
            z <= 255,
    ;
    Some(((w * 256 + x) * 256 + y) * 256 + z)
}

/// Whether the text `rule` is a CIDR block holding the address `addr` (see
/// [`spec_cidr_contains`]).
pub fn cidr_contains(rule: &Vec<char>, addr: u64) -> (r: bool)
    requires
        addr < 0x1_0000_0000,
    ensures
        r == spec_cidr_contains(rule@, addr as int),
{
    let (net_text, bits_text) = match chars_split_first(rule, '/') {
        Some(p) => p,
        None => return false,
    };
    let net = match parse_ipv4(&net_text) {
        Some(n) => n,
        None => return false,
    };
    let bits = match parse_u64_chars(&bits_text) {
        Some(b) => b,
        None => {
            assert(spec_parse_bounded(bits_text@, 32) is None);
            return false;
        },
    };
    if bits > 32 {
        assert(spec_parse_bounded(bits_text@, 32) is None);
        return false;
    }
    assert(spec_parse_bounded(bits_text@, 32) == Some(bits as int));
    let shift = 32 - bits;
    let mut d: u64 = 1;
    let mut i: u64 = 0;
    while i < shift
        invariant
            shift <= 32,
            i <= shift,
            d as int == two_pow(i as nat),
        decreases shift - i,
    {
        proof {
            lemma_two_pow_bound((i + 1) as nat);
        }
        d = d * 2;
        i += 1;
    }
    proof {
        lemma_two_pow_bound(shift as nat);
    }
    addr / d == net / d
}

} // verus!
