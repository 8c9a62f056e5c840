//! Numbers written as text: decimal, signed decimal and zero-padded hex.
use vstd::prelude::*;
use vstd::string::StringExecFns;

verus! {

/// The character for a digit below sixteen (upper-case letters above nine).
pub open spec fn digit_char(d: nat) -> char {
    if d == 0 { '0' }
    else if d == 1 { '1' }
    else if d == 2 { '2' }
    else if d == 3 { '3' }
    else if d == 4 { '4' }
    else if d == 5 { '5' }
    else if d == 6 { '6' }
    else if d == 7 { '7' }
    else if d == 8 { '8' }
    else if d == 9 { '9' }
    else if d == 10 { 'A' }
    else if d == 11 { 'B' }
    else if d == 12 { 'C' }
    else if d == 13 { 'D' }
    else if d == 14 { 'E' }
    else { 'F' }
}

/// The digits of `n` written in `base` (2..=16), most significant first, without leading zeros.
pub open spec fn digits(n: nat, base: nat) -> Seq<char>
    recommends
        2 <= base <= 16,
    decreases n,
{
    if base < 2 || n < base {
        seq![digit_char(n % base)]
    } else {
        proof {
            assert(n / base < n) by (nonlinear_arith)
                requires
                    base >= 2,
                    n >= base,
            ;
        }
        digits(n / base, base) + seq![digit_char(n % base)]
    }
}

/// Decimal text of a natural number.
pub open spec fn decimal(n: nat) -> Seq<char> {
    digits(n, 10)
}

/// Decimal text of an integer, with a leading '-' when negative.
pub open spec fn signed_decimal(i: int) -> Seq<char> {
    if i < 0 {
        seq!['-'] + decimal((-i) as nat)
    } else {
        decimal(i as nat)
    }
}

/// Upper-case hexadecimal text of `n`, left-padded with '0' to at least `width` characters.
pub open spec fn hex_padded(n: nat, width: nat) -> Seq<char> {
    let d = digits(n, 16);
    if d.len() < width {
        Seq::new((width - d.len()) as nat, |_i: int| '0') + d
    } else {
        d
    }
}

/// The one-character string of a digit below sixteen.
fn digit_str(d: u64) -> (s: &'static str)
    requires
        d < 16,
    ensures
        s@ == seq![digit_char(d as nat)],
{
    if d == 0 { proof { reveal_strlit("0"); } "0" }
    else if d == 1 { proof { reveal_strlit("1"); } "1" }
    else if d == 2 { proof { reveal_strlit("2"); } "2" }
    else if d == 3 { proof { reveal_strlit("3"); } "3" }
    else if d == 4 { proof { reveal_strlit("4"); } "4" }
    else if d == 5 { proof { reveal_strlit("5"); } "5" }
    else if d == 6 { proof { reveal_strlit("6"); } "6" }
    else if d == 7 { proof { reveal_strlit("7"); } "7" }
    else if d == 8 { proof { reveal_strlit("8"); } "8" }
    else if d == 9 { proof { reveal_strlit("9"); } "9" }
    else if d == 10 { proof { reveal_strlit("A"); } "A" }
    else if d == 11 { proof { reveal_strlit("B"); } "B" }
    else if d == 12 { proof { reveal_strlit("C"); } "C" }
    else if d == 13 { proof { reveal_strlit("D"); } "D" }
    else if d == 14 { proof { reveal_strlit("E"); } "E" }
    else { proof { reveal_strlit("F"); } "F" }
}

/// Writes `n` in `base` (2..=16).
pub fn u64_to_digits(n: u64, base: u64) -> (s: String)
    requires
        2 <= base <= 16,
    ensures
        s@ == digits(n as nat, base as nat),
{
    let mut cur = n;
    let mut s = String::new();
    loop
        invariant
            2 <= base <= 16,
            digits(n as nat, base as nat) == digits(cur as nat, base as nat) + s@,
        decreases cur,
    {
        let d = cur % base;
        let mut t = String::from_str(digit_str(d));
        t.append(s.as_str());
        s = t;
        if cur < base {
            assert(digits(n as nat, base as nat) == s@);
            return s;
        }
        proof {
            assert(digits(cur as nat, base as nat) == digits((cur / base) as nat, base as nat) + seq![digit_char((cur % base) as nat)]);
            assert(digits(n as nat, base as nat) == digits((cur / base) as nat, base as nat) + s@);
        }
        cur = cur / base;
    }
}

/// Decimal text of an unsigned value.
pub fn u64_to_decimal(n: u64) -> (s: String)
    ensures
        s@ == decimal(n as nat),
{
    u64_to_digits(n, 10)
}

/// Decimal text of a signed value.
pub fn i64_to_decimal(i: i64) -> (s: String)
    ensures
        s@ == signed_decimal(i as int),
{
    if i < 0 {
        let magnitude: u64 = ((-(i + 1)) as u64) + 1;
        let mut s = String::from_str("-");
        proof { reveal_strlit("-"); }
        let d = u64_to_decimal(magnitude);
        s.append(d.as_str());
        s
    } else {
        u64_to_decimal(i as u64)
    }
}

/// Upper-case hexadecimal text of `n`, zero-padded to at least `width` characters.
pub fn u64_to_hex_padded(n: u64, width: usize) -> (s: String)
    ensures
        s@ == hex_padded(n as nat, width as nat),
{
    let d = u64_to_digits(n, 16);
    let dl = d.unicode_len();
    if dl < width {
        let mut s = String::new();
        let mut k: usize = 0;
        while k < width - dl
            invariant
                k <= width - dl,
                dl < width,
                s@ == Seq::new(k as nat, |_i: int| '0'),
            decreases width - dl - k,
        {
            proof { reveal_strlit("0"); }
            s.append("0");
            k = k + 1;
            assert(s@ =~= Seq::new(k as nat, |_i: int| '0'));
        }
        s.append(d.as_str());
        s
    } else {
        d
    }
}

} // verus!
