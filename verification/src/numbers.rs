//! Reading numbers from text: decimal, or hex after `0x`, around white space.
use vstd::prelude::*;
use vstd::string::StrSliceExecFns;

use crate::text::{decimal, digit_char, digits, hex_padded};

verus! {

/// Characters with the Unicode `White_Space` property.
pub open spec fn is_space(c: char) -> bool {
    let u = c as u32;
    (0x9 <= u <= 0xd) || u == 0x20 || u == 0x85 || u == 0xa0 || u == 0x1680 || (0x2000 <= u <= 0x200a) || u == 0x2028
        || u == 0x2029 || u == 0x202f || u == 0x205f || u == 0x3000
}

/// The text without leading white space.
pub open spec fn trim_start(s: Seq<char>) -> Seq<char>
    decreases s.len(),
{
    if s.len() > 0 && is_space(s[0]) {
        trim_start(s.drop_first())
    } else {
        s
    }
}

/// The text without trailing white space.
pub open spec fn trim_end(s: Seq<char>) -> Seq<char>
    decreases s.len(),
{
    if s.len() > 0 && is_space(s.last()) {
        trim_end(s.drop_last())
    } else {
        s
    }
}

/// The text without leading or trailing white space.
pub open spec fn trimmed(s: Seq<char>) -> Seq<char> {
    trim_end(trim_start(s))
}

/// The value of a digit in the given radix (10 or 16), either letter case.
pub open spec fn digit_value(c: char, radix: nat) -> Option<nat> {
    let u = c as u32;
    if '0' as u32 <= u <= '9' as u32 {
        Some((u - '0' as u32) as nat)
    } else if radix == 16 && 'a' as u32 <= u <= 'f' as u32 {
        Some((u - 'a' as u32 + 10) as nat)
    } else if radix == 16 && 'A' as u32 <= u <= 'F' as u32 {
        Some((u - 'A' as u32 + 10) as nat)
    } else {
        None
    }
}

/// The value of a run of digits, or `None` when one of them is not a digit.
pub open spec fn digits_value(s: Seq<char>, radix: nat) -> Option<nat>
    decreases s.len(),
{
    if s.len() == 0 {
        Some(0)
    } else {
        match (digits_value(s.drop_last(), radix), digit_value(s.last(), radix)) {
            (Some(v), Some(d)) => Some(v * radix + d),
            _ => None,
        }
    }
}

/// An unsigned 64-bit number in the given radix: optionally `+`, then one or more digits,
/// with a value that fits.
pub open spec fn parse_radix(s: Seq<char>, radix: nat) -> Option<u64> {
    let body = if s.len() > 0 && s[0] == '+' { s.drop_first() } else { s };
    if body.len() == 0 {
        None
    } else {
        match digits_value(body, radix) {
            Some(v) => if v <= u64::MAX { Some(v as u64) } else { None },
            None => None,
        }
    }
}

/// Whether the text starts with `0x` or `0X`.
pub open spec fn has_hex_prefix(t: Seq<char>) -> bool {
    t.len() >= 2 && t[0] == '0' && (t[1] == 'x' || t[1] == 'X')
}

/// The number the text writes: trimmed, then hex after `0x`/`0X`, decimal otherwise.
pub open spec fn hex_or_decimal(s: Seq<char>) -> Option<u64> {
    let t = trimmed(s);
    if has_hex_prefix(t) {
        parse_radix(t.skip(2), 16)
    } else {
        parse_radix(t, 10)
    }
}

proof fn lemma_digits_value_grows(s: Seq<char>, radix: nat, n: int)
    requires
        0 <= n <= s.len(),
        radix >= 1,
        digits_value(s, radix) is Some,
    ensures
        digits_value(s.subrange(0, n), radix) is Some,
        digits_value(s.subrange(0, n), radix)->0 <= digits_value(s, radix)->0,
    decreases s.len(),
{
    if n < s.len() {
        assert(s.drop_last().subrange(0, n) =~= s.subrange(0, n));
        lemma_digits_value_grows(s.drop_last(), radix, n);
        let v = digits_value(s.drop_last(), radix)->0;
        assert(v * radix >= v) by (nonlinear_arith)
            requires
                radix >= 1,
        ;
    } else {
        assert(s.subrange(0, n) =~= s);
    }
}

/// The characters of a string.
pub fn chars_of(s: &str) -> (r: Vec<char>)
    ensures
        r@ == s@,
{
    let n = s.unicode_len();
    let mut r: Vec<char> = Vec::new();
    let mut i: usize = 0;
    while i < n
        invariant
            n == s@.len(),
            i <= n,
            r@ == s@.subrange(0, i as int),
        decreases n - i,
    {
        r.push(s.get_char(i));
        i = i + 1;
        assert(r@ =~= s@.subrange(0, i as int));
    }
    assert(r@ =~= s@);
    r
}

/// Whether a character has the Unicode `White_Space` property.
pub fn char_is_space(c: char) -> (r: bool)
    ensures
        r == is_space(c),
{
    let u = c as u32;
    (0x9 <= u && u <= 0xd) || u == 0x20 || u == 0x85 || u == 0xa0 || u == 0x1680 || (0x2000 <= u && u <= 0x200a)
        || u == 0x2028 || u == 0x2029 || u == 0x202f || u == 0x205f || u == 0x3000
}

/// The bounds `[a2, b2)` of `cs[a..b]` without leading or trailing white space.
pub fn trim_range(cs: &Vec<char>, a: usize, b: usize) -> (r: (usize, usize))
    requires
        a <= b <= cs@.len(),
    ensures
        a <= r.0 <= r.1 <= b,
        cs@.subrange(r.0 as int, r.1 as int) == trimmed(cs@.subrange(a as int, b as int)),
{
    let ghost s = cs@.subrange(a as int, b as int);
    let mut i: usize = a;
    while i < b && char_is_space(cs[i])
        invariant
            a <= i <= b <= cs@.len(),
            s == cs@.subrange(a as int, b as int),
            trim_start(s) == trim_start(cs@.subrange(i as int, b as int)),
        decreases b - i,
    {
        proof {
            assert(cs@.subrange(i as int, b as int).drop_first() =~= cs@.subrange(i + 1, b as int));
        }
        i = i + 1;
    }
    let ghost st = cs@.subrange(i as int, b as int);
    assert(trim_start(s) == st);
    let mut j: usize = b;
    while j > i && char_is_space(cs[j - 1])
        invariant
            a <= i <= j <= b <= cs@.len(),
            st == cs@.subrange(i as int, b as int),
            trim_end(st) == trim_end(cs@.subrange(i as int, j as int)),
        decreases j,
    {
        proof {
            assert(cs@.subrange(i as int, j as int).drop_last() =~= cs@.subrange(i as int, j - 1));
        }
        j = j - 1;
    }
    (i, j)
}

/// The bounds `[a, b)` of the text without leading or trailing white space.
pub fn trim_bounds(cs: &Vec<char>) -> (r: (usize, usize))
    ensures
        r.0 <= r.1 <= cs@.len(),
        cs@.subrange(r.0 as int, r.1 as int) == trimmed(cs@),
{
    assert(cs@.subrange(0, cs@.len() as int) =~= cs@);
    trim_range(cs, 0, cs.len())
}

fn char_digit(c: char, radix: u64) -> (r: Option<u64>)
    requires
        radix == 10 || radix == 16,
    ensures
        match r {
            Some(d) => digit_value(c, radix as nat) == Some(d as nat) && d < radix,
            None => digit_value(c, radix as nat) is None,
        },
{
    let u = c as u32;
    if '0' as u32 <= u && u <= '9' as u32 {
        Some((u - '0' as u32) as u64)
    } else if radix == 16 && 'a' as u32 <= u && u <= 'f' as u32 {
        Some((u - 'a' as u32 + 10) as u64)
    } else if radix == 16 && 'A' as u32 <= u && u <= 'F' as u32 {
        Some((u - 'A' as u32 + 10) as u64)
    } else {
        None
    }
}

/// Reads `cs[a..b]` as an unsigned 64-bit number in `radix`; see `parse_radix`.
pub fn parse_radix_range(cs: &Vec<char>, a: usize, b: usize, radix: u64) -> (r: Option<u64>)
    requires
        a <= b <= cs@.len(),
        radix == 10 || radix == 16,
    ensures
        r == parse_radix(cs@.subrange(a as int, b as int), radix as nat),
{
    let ghost s = cs@.subrange(a as int, b as int);
    let mut i = a;
    if i < b && cs[i] == '+' {
        i = i + 1;
    }
    let ghost body = cs@.subrange(i as int, b as int);
    proof {
        if s.len() > 0 && s[0] == '+' {
            assert(s.drop_first() =~= body);
        } else {
            assert(s =~= body);
        }
    }
    if i == b {
        return None;
    }
    let ghost expected = match digits_value(body, radix as nat) {
        Some(v) => if v <= u64::MAX { Some(v as u64) } else { None },
        None => None,
    };
    assert(parse_radix(s, radix as nat) == expected);
    let start = i;
    let mut acc: u64 = 0;
    proof {
        assert(cs@.subrange(start as int, start as int) =~= Seq::<char>::empty());
    }
    while i < b
        invariant
            start <= i <= b <= cs@.len(),
            radix == 10 || radix == 16,
            body == cs@.subrange(start as int, b as int),
            parse_radix(cs@.subrange(a as int, b as int), radix as nat) == expected,
            expected == match digits_value(body, radix as nat) {
                Some(v) => if v <= u64::MAX { Some(v as u64) } else { None },
                None => None,
            },
            digits_value(cs@.subrange(start as int, i as int), radix as nat) == Some(acc as nat),
        decreases b - i,
    {
        let ghost pre = cs@.subrange(start as int, i as int);
        let ghost next = cs@.subrange(start as int, i + 1);
        proof {
            assert(next.drop_last() =~= pre);
            assert(next.last() == cs@[i as int]);
        }
        match char_digit(cs[i], radix) {
            Some(d) => {
                let m = acc.checked_mul(radix);
                let v = match m {
                    Some(m) => m.checked_add(d),
                    None => None,
                };
                match v {
                    Some(v) => {
                        acc = v;
                    },
                    None => {
                        proof {
                            if digits_value(body, radix as nat) is Some {
                                assert(body.subrange(0, i + 1 - start) =~= next);
                                lemma_digits_value_grows(body, radix as nat, i + 1 - start);
                                assert(acc * radix + d > u64::MAX);
                            }
                        }
                        return None;
                    },
                }
            },
            None => {
                proof {
                    if digits_value(body, radix as nat) is Some {
                        assert(body.subrange(0, i + 1 - start) =~= next);
                        lemma_digits_value_grows(body, radix as nat, i + 1 - start);
                    }
                }
                return None;
            },
        }
        i = i + 1;
    }
    assert(cs@.subrange(start as int, i as int) =~= body);
    Some(acc)
}

/// Parses a number written in hex after `0x` or `0X`, or in decimal, ignoring surrounding
/// white space; `None` when the text is not such a number or the value does not fit.
pub fn parse_hex_u64(s: &str) -> (r: Option<u64>)
    ensures
        r == hex_or_decimal(s@),
{
    let cs = chars_of(s);
    let (a, b) = trim_bounds(&cs);
    let ghost t = cs@.subrange(a as int, b as int);
    if b - a >= 2 && cs[a] == '0' && (cs[a + 1] == 'x' || cs[a + 1] == 'X') {
        proof {
            assert(t.skip(2) =~= cs@.subrange(a + 2, b as int));
        }
        parse_radix_range(&cs, a + 2, b, 16)
    } else {
        parse_radix_range(&cs, a, b, 10)
    }
}

proof fn lemma_digit_char_value(d: nat, radix: nat)
    requires
        radix == 10 || radix == 16,
        d < radix,
    ensures
        digit_value(digit_char(d), radix) == Some(d),
        !is_space(digit_char(d)),
        digit_char(d) != '+',
{
}

/// Writing a number in a radix and reading it back gives the number.
pub proof fn lemma_digits_round_trip(n: nat, radix: nat)
    requires
        radix == 10 || radix == 16,
    ensures
        digits_value(digits(n, radix), radix) == Some(n),
        digits(n, radix).len() > 0,
        !is_space(digits(n, radix).last()),
        !is_space(digits(n, radix)[0]),
        digits(n, radix)[0] != '+',
    decreases n,
{
    if n < radix {
        assert(n % radix == n) by (nonlinear_arith)
            requires
                n < radix,
        ;
        lemma_digit_char_value(n % radix, radix);
        let s = digits(n, radix);
        assert(s == seq![digit_char(n)]);
        assert(s.drop_last() =~= Seq::<char>::empty());
        assert(digits_value(s.drop_last(), radix) == Some(0nat));
        assert(s.last() == digit_char(n));
    } else {
        assert(n / radix < n) by (nonlinear_arith)
            requires
                radix >= 2,
                n >= radix,
        ;
        lemma_digits_round_trip(n / radix, radix);
        lemma_digit_char_value(n % radix, radix);
        let s = digits(n, radix);
        assert(n % radix < radix) by (nonlinear_arith)
            requires
                radix > 0,
        ;
        assert(s == digits(n / radix, radix) + seq![digit_char(n % radix)]);
        assert(s.drop_last() =~= digits(n / radix, radix));
        assert(s.last() == digit_char(n % radix));
        assert((n / radix) * radix + n % radix == n) by (nonlinear_arith)
            requires
                radix > 0,
        ;
        assert(s[0] == digits(n / radix, radix)[0]);
    }
}

/// Leading zeros do not change the value of a run of digits.
proof fn lemma_leading_zeros(k: nat, d: Seq<char>, radix: nat)
    requires
        radix == 10 || radix == 16,
    ensures
        digits_value(Seq::new(k, |_i: int| '0') + d, radix) == digits_value(d, radix),
    decreases k + d.len(),
{
    let z = Seq::new(k, |_i: int| '0');
    if d.len() > 0 {
        assert((z + d).drop_last() =~= z + d.drop_last());
        assert((z + d).last() == d.last());
        lemma_leading_zeros(k, d.drop_last(), radix);
    } else if k > 0 {
        let z1 = Seq::new((k - 1) as nat, |_i: int| '0');
        assert((z + d).drop_last() =~= z1 + d);
        lemma_leading_zeros((k - 1) as nat, d, radix);
        assert(digits_value(d, radix) == Some(0nat));
    } else {
        assert(z + d =~= d);
    }
}

proof fn lemma_no_space_ends(t: Seq<char>)
    requires
        t.len() > 0,
        !is_space(t[0]),
        !is_space(t.last()),
    ensures
        trimmed(t) == t,
{
}

/// The upper-case hex text of a 64-bit value, with `0x` and any zero padding, reads back as
/// that value.
pub proof fn law_hex_text_round_trip(v: u64, width: nat)
    ensures
        hex_or_decimal("0x"@ + hex_padded(v as nat, width)) == Some(v),
{
    reveal_strlit("0x");
    let d = digits(v as nat, 16);
    lemma_digits_round_trip(v as nat, 16);
    let hp = hex_padded(v as nat, width);
    let t = "0x"@ + hp;
    if d.len() < width {
        let k = (width - d.len()) as nat;
        lemma_leading_zeros(k, d, 16);
        assert(hp.last() == d.last());
        assert(hp[0] != '+');
    }
    assert(t.last() == hp.last());
    lemma_no_space_ends(t);
    assert(t.skip(2) =~= hp);
}

/// The decimal text of a 64-bit value reads back as that value.
pub proof fn law_decimal_text_round_trip(v: u64)
    ensures
        hex_or_decimal(decimal(v as nat)) == Some(v),
{
    lemma_digits_round_trip(v as nat, 10);
    let d = decimal(v as nat);
    lemma_no_space_ends(d);
    if d.len() >= 2 {
        let n = v as nat;
        assert(d[1] != 'x' && d[1] != 'X') by {
            assert(forall|i: int| 0 <= i < d.len() ==> digit_value(#[trigger] d[i], 10) is Some) by {
                lemma_digits_all_digits(n, 10);
            }
        }
    }
}

proof fn lemma_digits_all_digits(n: nat, radix: nat)
    requires
        radix == 10 || radix == 16,
    ensures
        forall|i: int| 0 <= i < digits(n, radix).len() ==> digit_value(#[trigger] digits(n, radix)[i], radix) is Some,
    decreases n,
{
    lemma_digit_char_value(n % radix, radix);
    if n >= radix {
        assert(n / radix < n) by (nonlinear_arith)
            requires
                radix >= 2,
                n >= radix,
        ;
        lemma_digits_all_digits(n / radix, radix);
        let s = digits(n, radix);
        let p = digits(n / radix, radix);
        assert forall|i: int| 0 <= i < s.len() implies digit_value(#[trigger] s[i], radix) is Some by {
            if i < p.len() {
                assert(s[i] == p[i]);
            }
        }
    }
}

} // verus!
