//! Bytes as values and text: little-endian numbers, hex listings, NUL-terminated text.
use vstd::prelude::*;
use vstd::string::StringExecFns;
use vstd::utf8::{decode_utf8, valid_utf8};

use crate::text::{hex_padded, u64_to_hex_padded};

verus! {

/// The little-endian value of a byte sequence.
pub open spec fn le_value(b: Seq<u8>) -> nat
    decreases b.len(),
{
    if b.len() == 0 {
        0
    } else {
        b[0] as nat + 256 * le_value(b.drop_first())
    }
}

/// `256` to the power `n`.
pub open spec fn pow256(n: nat) -> nat
    decreases n,
{
    if n == 0 {
        1
    } else {
        256 * pow256((n - 1) as nat)
    }
}

pub proof fn lemma_le_bound(b: Seq<u8>)
    ensures
        le_value(b) < pow256(b.len()),
    decreases b.len(),
{
    if b.len() > 0 {
        lemma_le_bound(b.drop_first());
    }
}

pub proof fn lemma_pow256_le(a: nat, b: nat)
    requires
        a <= b,
    ensures
        pow256(a) <= pow256(b),
    decreases b,
{
    if a < b {
        lemma_pow256_le(a, (b - 1) as nat);
    }
}

/// The two's-complement reading of a 64-bit unsigned value.
pub open spec fn signed64(v: nat) -> int {
    if v >= 0x8000_0000_0000_0000 {
        v - 0x1_0000_0000_0000_0000
    } else {
        v as int
    }
}

/// The two's-complement reading of a 32-bit unsigned value.
pub open spec fn signed32(v: nat) -> int {
    if v >= 0x8000_0000 {
        v - 0x1_0000_0000
    } else {
        v as int
    }
}

/// The two's-complement reading of a 16-bit unsigned value.
pub open spec fn signed16(v: nat) -> int {
    if v >= 0x8000 {
        v - 0x1_0000
    } else {
        v as int
    }
}

/// The two's-complement reading of an 8-bit unsigned value.
pub open spec fn signed8(v: nat) -> int {
    if v >= 0x80 {
        v - 0x100
    } else {
        v as int
    }
}

/// The two's-complement reading of an `n`-byte unsigned value (`n` one of 1, 2, 4, 8).
pub open spec fn signed_n(v: nat, n: nat) -> int {
    if n == 8 {
        signed64(v)
    } else if n == 4 {
        signed32(v)
    } else if n == 2 {
        signed16(v)
    } else {
        signed8(v)
    }
}

/// The little-endian value of the first `n` bytes (at most eight) of `data`.
pub fn le_u64(data: &[u8], n: usize) -> (v: u64)
    requires
        n <= 8,
        n <= data@.len(),
    ensures
        v == le_value(data@.subrange(0, n as int)),
{
    let mut acc: u64 = 0;
    let mut k: usize = n;
    proof {
        assert(data@.subrange(n as int, n as int) =~= Seq::<u8>::empty());
        assert(pow256(7) == 0x100_0000_0000_0000) by {
            reveal_with_fuel(pow256, 8);
        }
    }
    while k > 0
        invariant
            k <= n,
            n <= 8,
            n <= data@.len(),
            acc == le_value(data@.subrange(k as int, n as int)),
            pow256(7) == 0x100_0000_0000_0000,
        decreases k,
    {
        let ghost rest = data@.subrange(k as int, n as int);
        let ghost next = data@.subrange(k - 1, n as int);
        proof {
            assert(next.drop_first() =~= rest);
            lemma_le_bound(rest);
            lemma_pow256_le(rest.len(), 7);
        }
        acc = data[k - 1] as u64 + 256 * acc;
        k = k - 1;
    }
    proof {
        assert(data@.subrange(0, n as int) == data@.subrange(k as int, n as int));
    }
    acc
}

/// The signed little-endian value of the first `n` bytes of `data`.
pub fn le_i64(data: &[u8], n: usize) -> (i: i64)
    requires
        n == 8 || n == 4 || n == 2 || n == 1,
        n <= data@.len(),
    ensures
        i == signed_n(le_value(data@.subrange(0, n as int)), n as nat),
{
    let v = le_u64(data, n);
    proof {
        lemma_le_bound(data@.subrange(0, n as int));
        reveal_with_fuel(pow256, 9);
    }
    if n == 8 {
        if v >= 0x8000_0000_0000_0000 {
            (v as i128 - 0x1_0000_0000_0000_0000i128) as i64
        } else {
            v as i64
        }
    } else if n == 4 {
        if v >= 0x8000_0000 {
            v as i64 - 0x1_0000_0000i64
        } else {
            v as i64
        }
    } else if n == 2 {
        if v >= 0x8000 {
            v as i64 - 0x1_0000i64
        } else {
            v as i64
        }
    } else {
        if v >= 0x80 {
            v as i64 - 0x100i64
        } else {
            v as i64
        }
    }
}

/// Each byte as two upper-case hex digits, separated by ", ".
pub open spec fn hex_items(b: Seq<u8>) -> Seq<char>
    decreases b.len(),
{
    if b.len() == 0 {
        Seq::empty()
    } else if b.len() == 1 {
        hex_padded(b[0] as nat, 2)
    } else {
        hex_items(b.drop_last()) + ", "@ + hex_padded(b.last() as nat, 2)
    }
}

/// The bytes listed as `[0A, FF, ...]`.
pub open spec fn byte_list(b: Seq<u8>) -> Seq<char> {
    "["@ + hex_items(b) + "]"@
}

/// Writes the bytes as `[0A, FF, ...]`.
pub fn byte_list_string(data: &[u8]) -> (s: String)
    ensures
        s@ == byte_list(data@),
{
    let mut items = String::new();
    let mut i: usize = 0;
    proof {
        assert(data@.subrange(0, 0) =~= Seq::<u8>::empty());
    }
    while i < data.len()
        invariant
            i <= data@.len(),
            items@ == hex_items(data@.subrange(0, i as int)),
        decreases data@.len() - i,
    {
        let h = u64_to_hex_padded(data[i] as u64, 2);
        let ghost prev = data@.subrange(0, i as int);
        let ghost cur = data@.subrange(0, i + 1);
        proof {
            assert(cur.drop_last() =~= prev);
            assert(cur.last() == data@[i as int]);
        }
        if i > 0 {
            proof { reveal_strlit(", "); }
            items.append(", ");
        }
        items.append(h.as_str());
        i = i + 1;
    }
    proof {
        assert(data@.subrange(0, data@.len() as int) =~= data@);
        reveal_strlit("[");
        reveal_strlit("]");
    }
    let mut s = String::from_str("[");
    s.append(items.as_str());
    s.append("]");
    s
}

/// The bytes before the first zero byte (all of them when there is none).
pub open spec fn until_nul(b: Seq<u8>) -> Seq<u8>
    decreases b.len(),
{
    if b.len() == 0 {
        b
    } else if b[0] == 0 {
        Seq::empty()
    } else {
        seq![b[0]] + until_nul(b.drop_first())
    }
}

/// Copies the bytes before the first zero byte.
pub fn until_nul_bytes(data: &[u8]) -> (r: Vec<u8>)
    ensures
        r@ == until_nul(data@),
{
    let mut r: Vec<u8> = Vec::new();
    let mut i: usize = 0;
    proof {
        assert(data@.subrange(0, data@.len() as int) =~= data@);
    }
    while i < data.len()
        invariant
            i <= data@.len(),
            until_nul(data@) == r@ + until_nul(data@.subrange(i as int, data@.len() as int)),
        decreases data@.len() - i,
    {
        let ghost rest = data@.subrange(i as int, data@.len() as int);
        if data[i] == 0 {
            proof {
                assert(rest[0] == 0);
                assert(r@ + Seq::<u8>::empty() =~= r@);
            }
            return r;
        }
        proof {
            assert(rest.drop_first() =~= data@.subrange(i + 1, data@.len() as int));
            assert(r@ + (seq![data@[i as int]] + until_nul(rest.drop_first())) =~= r@.push(data@[i as int]) + until_nul(rest.drop_first()));
        }
        r.push(data[i]);
        i = i + 1;
    }
    proof {
        assert(data@.subrange(i as int, data@.len() as int) =~= Seq::<u8>::empty());
        assert(r@ + Seq::<u8>::empty() =~= r@);
    }
    r
}

/// Reads bytes as UTF-8 text with `String::from_utf8`: the text when the bytes are valid
/// UTF-8, `None` otherwise.
#[verifier::external_body]
pub(crate) fn utf8_text(bytes: Vec<u8>) -> (r: Option<String>)
    ensures
        r is Some <==> valid_utf8(bytes@),
        r matches Some(s) ==> s@ == decode_utf8(bytes@),
{
    String::from_utf8(bytes).ok()
}

/// The upper-case hex text of a value, zero-padded to `width` and prefixed with `0x`.
pub open spec fn hex_prefixed(n: nat, width: nat) -> Seq<char> {
    "0x"@ + hex_padded(n, width)
}

/// Writes `0x` and the zero-padded upper-case hex digits of `n`.
pub fn hex_prefixed_string(n: u64, width: usize) -> (s: String)
    ensures
        s@ == hex_prefixed(n as nat, width as nat),
{
    let h = u64_to_hex_padded(n, width);
    proof { reveal_strlit("0x"); }
    let mut s = String::from_str("0x");
    s.append(h.as_str());
    s
}

} // verus!
