//! Finding a byte pattern in a block of memory read from a module.
use vstd::prelude::*;

verus! {

/// The pattern matches `buf` at `i`: every byte the pattern fixes is there (`None` matches
/// any byte).
pub open spec fn matches_at(buf: Seq<u8>, i: int, pattern: Seq<Option<u8>>) -> bool {
    &&& 0 <= i
    &&& i + pattern.len() <= buf.len()
    &&& forall|j: int| 0 <= j < pattern.len() ==> (#[trigger] pattern[j] matches Some(b) ==> buf[i + j] == b)
}

/// The first position at which the pattern matches, if it matches anywhere.
pub open spec fn first_match(buf: Seq<u8>, pattern: Seq<Option<u8>>) -> Option<int> {
    if exists|i: int| matches_at(buf, i, pattern) {
        Some(choose|i: int| matches_at(buf, i, pattern) && forall|k: int| 0 <= k < i ==> !#[trigger] matches_at(buf, k, pattern))
    } else {
        None
    }
}

fn window_matches(buf: &[u8], i: usize, pattern: &[Option<u8>]) -> (r: bool)
    requires
        i + pattern@.len() <= buf@.len(),
    ensures
        r == matches_at(buf@, i as int, pattern@),
{
    let bl = buf.len();
    let mut j: usize = 0;
    while j < pattern.len()
        invariant
            bl == buf@.len(),
            i + pattern@.len() <= buf@.len(),
            j <= pattern@.len(),
            forall|m: int| 0 <= m < j ==> (#[trigger] pattern@[m] matches Some(b) ==> buf@[i + m] == b),
        decreases pattern@.len() - j,
    {
        match pattern[j] {
            Some(b) => {
                if buf[i + j] != b {
                    return false;
                }
            },
            None => {},
        }
        j = j + 1;
    }
    true
}

/// Searches the `buf` read at `address` for the pattern: the address of the first match, or
/// `None` when the pattern is longer than the block or matches nowhere.
pub fn find_pattern_in(buf: &[u8], address: u64, pattern: &[Option<u8>]) -> (r: Option<u64>)
    requires
        pattern@.len() > 0,
        address + buf@.len() <= u64::MAX,
    ensures
        r == (match first_match(buf@, pattern@) {
            Some(i) => Some((address + i) as u64),
            None => None,
        }),
{
    if pattern.len() > buf.len() {
        assert(forall|i: int| !#[trigger] matches_at(buf@, i, pattern@));
        return None;
    }
    let bl = buf.len();
    let last = bl - pattern.len();
    let mut i: usize = 0;
    while i <= last
        invariant
            bl == buf@.len(),
            last == buf@.len() - pattern@.len(),
            address + buf@.len() <= u64::MAX,
            pattern@.len() > 0,
            i <= last + 1,
            forall|k: int| 0 <= k < i ==> !#[trigger] matches_at(buf@, k, pattern@),
        decreases last + 1 - i,
    {
        if window_matches(buf, i, pattern) {
            proof {
                let c = choose|c: int| matches_at(buf@, c, pattern@) && forall|k: int| 0 <= k < c ==> !#[trigger] matches_at(buf@, k, pattern@);
                assert(matches_at(buf@, i as int, pattern@) && forall|k: int| 0 <= k < i ==> !#[trigger] matches_at(buf@, k, pattern@));
                if c < i {
                    assert(!matches_at(buf@, c, pattern@));
                }
                if c > i {
                    assert(!matches_at(buf@, i as int, pattern@));
                }
            }
            return Some(address + i as u64);
        }
        i = i + 1;
    }
    None
}

} // verus!
