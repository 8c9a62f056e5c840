//! The filters of the class list and of the process and module windows: case-insensitive
//! substring matches on names.
use vstd::prelude::*;
use vstd::string::{StrSliceExecFns, StringExecFns};

use crate::bytes::hex_prefixed;
use crate::modules::ModuleInfo;
use crate::cleanup::ids_where;
use crate::numbers::{chars_of, trim_bounds, trimmed};
use crate::structure::MemoryStructure;
use crate::text::{decimal, u64_to_decimal, u64_to_hex_padded};

verus! {

/// The lower-case form of a text, as `str::to_lowercase` gives it.
pub uninterp spec fn lowercase(s: Seq<char>) -> Seq<char>;

/// Lower-cases a text with `str::to_lowercase` (Unicode's lower-case mapping, where a capital
/// sigma's form depends on the letters around it); the contract only names the result.
#[verifier::external_body]
fn lowercase_text(s: &str) -> (r: String)
    ensures
        r@ == lowercase(s@),
{
    s.to_lowercase()
}

/// `needle` occurs in `hay` as a run of consecutive characters.
pub open spec fn occurs_in(needle: Seq<char>, hay: Seq<char>) -> bool {
    exists|i: int| 0 <= i <= hay.len() - needle.len() && #[trigger] hay.subrange(i, i + needle.len()) == needle
}

/// Whether `n` stands in `h` at position `i`.
fn matches_at(h: &Vec<char>, n: &Vec<char>, i: usize) -> (r: bool)
    requires
        i + n@.len() <= h@.len(),
    ensures
        r == (h@.subrange(i as int, i + n@.len()) == n@),
{
    let hl = h.len();
    let mut j: usize = 0;
    while j < n.len()
        invariant
            hl == h@.len(),
            i + n@.len() <= h@.len(),
            j <= n@.len(),
            forall|m: int| 0 <= m < j ==> h@[i + m] == n@[m],
        decreases n@.len() - j,
    {
        if h[i + j] != n[j] {
            assert(h@.subrange(i as int, i + n@.len())[j as int] != n@[j as int]);
            return false;
        }
        j = j + 1;
    }
    assert(h@.subrange(i as int, i + n@.len()) =~= n@);
    true
}

/// Whether `needle` occurs in `hay`.
fn text_contains(hay: &str, needle: &str) -> (r: bool)
    ensures
        r == occurs_in(needle@, hay@),
{
    let h = chars_of(hay);
    let n = chars_of(needle);
    if n.len() > h.len() {
        return false;
    }
    if n.len() == 0 {
        assert(h@.subrange(0int, 0int + n@.len()) =~= n@);
        assert(hay@.subrange(0int, 0int + needle@.len()) == needle@);
        return true;
    }
    let hl = h.len();
    let mut i: usize = 0;
    while i <= h.len() - n.len()
        invariant
            hl == h@.len(),
            n@.len() >= 1,
            h@ == hay@,
            n@ == needle@,
            n@.len() <= h@.len(),
            i <= h@.len() - n@.len() + 1,
            forall|k: int| 0 <= k < i ==> #[trigger] h@.subrange(k, k + n@.len()) != n@,
        decreases h@.len() - n@.len() + 1 - i,
    {
        if matches_at(&h, &n, i) {
            return true;
        }
        i = i + 1;
    }
    false
}

/// A process name passes the filter: the filter is empty or, both lower-cased, occurs in it.
pub open spec fn process_filter_accepts(name: Seq<char>, filter: Seq<char>) -> bool {
    filter.len() == 0 || occurs_in(lowercase(filter), lowercase(name))
}

/// Whether a process of this name is listed under the filter.
pub fn process_name_matches(name: &str, filter: &str) -> (r: bool)
    ensures
        r == process_filter_accepts(name@, filter@),
{
    if filter.unicode_len() == 0 {
        return true;
    }
    let n = lowercase_text(name);
    let f = lowercase_text(filter);
    text_contains(n.as_str(), f.as_str())
}

/// A module name passes the filter: the lower-cased filter is empty or occurs in the
/// lower-cased name.
pub open spec fn module_filter_accepts(name: Seq<char>, filter: Seq<char>) -> bool {
    lowercase(filter).len() == 0 || occurs_in(lowercase(filter), lowercase(name))
}

/// Whether a module of this name is listed under the filter.
pub fn module_name_matches(name: &str, filter: &str) -> (r: bool)
    ensures
        r == module_filter_accepts(name@, filter@),
{
    let f = lowercase_text(filter);
    if f.unicode_len() == 0 {
        return true;
    }
    let n = lowercase_text(name);
    text_contains(n.as_str(), f.as_str())
}

/// The name a module is listed under.
pub open spec fn module_label(m: ModuleInfo) -> Seq<char> {
    match m.name {
        Some(n) => n@,
        None => "Unknown"@,
    }
}

/// A module's line in the module list: its name, `@`, its base address in hex and its size
/// in whole KiB.
pub open spec fn module_row(m: ModuleInfo) -> Seq<char> {
    module_label(m) + " @ "@ + hex_prefixed(m.base_address as nat, 0) + " ("@ + decimal((m.module_size / 1024) as nat)
        + " KB)"@
}

/// Writes a module's line in the module list.
pub fn module_row_text(m: &ModuleInfo) -> (s: String)
    ensures
        s@ == module_row(*m),
{
    let mut s = match &m.name {
        Some(n) => n.clone(),
        None => {
            proof { reveal_strlit("Unknown"); }
            String::from_str("Unknown")
        },
    };
    proof {
        reveal_strlit(" @ ");
        reveal_strlit("0x");
        reveal_strlit(" @ 0x");
        reveal_strlit(" (");
        reveal_strlit(" KB)");
        assert(" @ 0x"@ =~= " @ "@ + "0x"@);
    }
    s.append(" @ 0x");
    let h = u64_to_hex_padded(m.base_address, 0);
    s.append(h.as_str());
    s.append(" (");
    let d = u64_to_decimal(m.module_size / 1024);
    s.append(d.as_str());
    s.append(" KB)");
    proof {
        assert(s@ =~= module_row(*m));
    }
    s
}

/// The class passes the class-list filter: it is registered and its name, lower-cased,
/// holds the lower-cased filter.
pub open spec fn class_listed(ms: MemoryStructure, filter: Seq<char>, id: u64) -> bool {
    ms.class_registry@.contains_key(id) && occurs_in(lowercase(filter), lowercase(ms.class_registry@[id].name))
}

impl MemoryStructure {
    /// The registered class ids, in registry order, that the class list shows under the
    /// filter: all of them when the filter is blank.
    pub fn class_ids_matching(&self, filter: &str) -> (r: Vec<u64>)
        requires
            self.wf(),
        ensures
            r@ == if trimmed(filter@).len() == 0 {
                self.class_registry.value_ids()
            } else {
                ids_where(self.class_registry.value_ids(), |id: u64| class_listed(*self, filter@, id))
            },
    {
        let ids = self.class_registry.get_class_ids();
        let cs = chars_of(filter);
        let (a, b) = trim_bounds(&cs);
        if a == b {
            return ids;
        }
        let needle = lowercase_text(filter);
        let ghost p = |id: u64| class_listed(*self, filter@, id);
        let mut r: Vec<u64> = Vec::new();
        let mut i: usize = 0;
        proof {
            assert(ids@.take(0) =~= Seq::<u64>::empty());
        }
        while i < ids.len()
            invariant
                self.wf(),
                needle@ == lowercase(filter@),
                p == (|id: u64| class_listed(*self, filter@, id)),
                i <= ids@.len(),
                r@ == ids_where(ids@.take(i as int), p),
            decreases ids@.len() - i,
        {
            proof {
                assert(ids@.take(i + 1).drop_last() =~= ids@.take(i as int));
                assert(ids@.take(i + 1).last() == ids@[i as int]);
            }
            let keep = match self.class_registry.get(ids[i]) {
                Some(d) => {
                    let lower = lowercase_text(d.name.as_str());
                    text_contains(lower.as_str(), needle.as_str())
                },
                None => false,
            };
            assert(keep == p(ids@[i as int]));
            if keep {
                r.push(ids[i]);
            }
            i = i + 1;
        }
        proof {
            assert(ids@.take(ids@.len() as int) =~= ids@);
        }
        r
    }
}

} // verus!
