//! Fresh names for new definitions: the base name, or the base followed by the smallest
//! number that is still free.
use vstd::prelude::*;
use vstd::string::StringExecFns;

use crate::numbers::lemma_digits_round_trip;
use crate::registry::{ClassDefinitionRegistry, EnumDefinitionRegistry};
use crate::text::{decimal, u64_to_decimal};

verus! {

/// The `j`-th name tried: the base itself, then the base, the separator and `j`.
pub open spec fn candidate(base: Seq<char>, sep: Seq<char>, j: nat) -> Seq<char> {
    if j == 0 {
        base
    } else {
        base + sep + decimal(j)
    }
}

/// `k` is the first candidate, with separator `_`, that no registered class carries.
pub open spec fn class_name_slot(registry: ClassDefinitionRegistry, base: Seq<char>, k: nat) -> bool {
    &&& !registry.has_name(candidate(base, "_"@, k))
    &&& forall|j: nat| j < k ==> registry.has_name(#[trigger] candidate(base, "_"@, j))
}

/// The first class name from `base` on that no registered class carries.
pub open spec fn fresh_class_name(registry: ClassDefinitionRegistry, base: Seq<char>) -> Seq<char> {
    candidate(base, "_"@, choose|k: nat| class_name_slot(registry, base, k))
}

/// `k` is the first candidate, without separator, that no registered enum carries.
pub open spec fn enum_name_slot(registry: EnumDefinitionRegistry, base: Seq<char>, k: nat) -> bool {
    &&& !registry.has_name(candidate(base, ""@, k))
    &&& forall|j: nat| j < k ==> registry.has_name(#[trigger] candidate(base, ""@, j))
}

/// The first enum name from `base` on that no registered enum carries.
pub open spec fn fresh_enum_name(registry: EnumDefinitionRegistry, base: Seq<char>) -> Seq<char> {
    candidate(base, ""@, choose|k: nat| enum_name_slot(registry, base, k))
}

/// Some name in the list equals `n`.
pub open spec fn listed(names: Seq<String>, n: Seq<char>) -> bool {
    exists|i: int| 0 <= i < names.len() && (#[trigger] names[i])@ == n
}

proof fn lemma_candidate_injective(base: Seq<char>, sep: Seq<char>, a: nat, b: nat)
    requires
        candidate(base, sep, a) == candidate(base, sep, b),
    ensures
        a == b,
{
    lemma_digits_round_trip(a, 10);
    lemma_digits_round_trip(b, 10);
    if a != 0 && b != 0 {
        let p = base + sep;
        assert(candidate(base, sep, a).skip(p.len() as int) =~= decimal(a));
        assert(candidate(base, sep, b).skip(p.len() as int) =~= decimal(b));
    }
}

/// Only as many candidates as there are names can be taken one after the other.
proof fn lemma_taken_candidates_bounded(names: Seq<String>, base: Seq<char>, sep: Seq<char>, k: nat)
    requires
        forall|j: nat| j < k ==> listed(names, #[trigger] candidate(base, sep, j)),
    ensures
        k <= names.len(),
{
    let f = |j: int| choose|i: int| 0 <= i < names.len() && (#[trigger] names[i])@ == candidate(base, sep, j as nat);
    let dom = vstd::set_lib::set_int_range(0, k as int);
    vstd::set_lib::lemma_int_range(0, k as int);
    vstd::set_lib::lemma_int_range(0, names.len() as int);
    assert forall|j: int| dom.contains(j) implies 0 <= #[trigger] f(j) < names.len() && names[f(j)]@ == candidate(base, sep, j as nat) by {
        assert(listed(names, candidate(base, sep, j as nat)));
    }
    assert(vstd::relations::injective_on(f, dom)) by {
        assert forall|x: int, y: int| dom.contains(x) && dom.contains(y) && #[trigger] f(x) == #[trigger] f(y) implies x == y by {
            lemma_candidate_injective(base, sep, x as nat, y as nat);
        }
    }
    let img = dom.map(f);
    vstd::set_lib::lemma_map_size(dom, img, f);
    assert(img.subset_of(vstd::set_lib::set_int_range(0, names.len() as int)));
    vstd::set_lib::lemma_len_subset(img, vstd::set_lib::set_int_range(0, names.len() as int));
}

fn is_listed(names: &Vec<String>, n: &String) -> (r: bool)
    ensures
        r == listed(names@, n@),
{
    let mut i: usize = 0;
    while i < names.len()
        invariant
            i <= names@.len(),
            forall|j: int| 0 <= j < i ==> (#[trigger] names@[j])@ != n@,
        decreases names@.len() - i,
    {
        if names[i] == *n {
            return true;
        }
        i = i + 1;
    }
    false
}

fn candidate_string(base: &str, sep: &str, j: usize) -> (r: String)
    ensures
        r@ == candidate(base@, sep@, j as nat),
{
    if j == 0 {
        base.to_owned()
    } else {
        let mut s = String::from_str(base);
        s.append(sep);
        let d = u64_to_decimal(j as u64);
        s.append(d.as_str());
        s
    }
}

/// The first candidate name that is not in `names`.
pub fn first_free_name(names: &Vec<String>, base: &str, sep: &str) -> (r: String)
    ensures
        exists|k: nat| {
            &&& r@ == candidate(base@, sep@, k)
            &&& !listed(names@, r@)
            &&& forall|j: nat| j < k ==> listed(names@, #[trigger] candidate(base@, sep@, j))
        },
{
    let count = names.len();
    let mut j: usize = 0;
    let mut name = candidate_string(base, sep, 0);
    while is_listed(names, &name)
        invariant
            count == names@.len(),
            name@ == candidate(base@, sep@, j as nat),
            forall|i: nat| i < j ==> listed(names@, #[trigger] candidate(base@, sep@, i)),
            j <= names@.len(),
        decreases names@.len() - j,
    {
        proof {
            assert forall|i: nat| i < j + 1 implies listed(names@, #[trigger] candidate(base@, sep@, i)) by {}
            lemma_taken_candidates_bounded(names@, base@, sep@, (j + 1) as nat);
        }
        j = j + 1;
        name = candidate_string(base, sep, j);
    }
    assert(!listed(names@, candidate(base@, sep@, j as nat)));
    name
}

/// A class name no registered class has: `base`, or else `base_<n>` for the smallest `n`
/// from 1 that is free.
pub fn generate_unique_class_name(registry: &ClassDefinitionRegistry, base: &str) -> (r: String)
    requires
        registry.wf(),
    ensures
        r@ == fresh_class_name(*registry, base@),
        class_name_slot(*registry, base@, (choose|k: nat| class_name_slot(*registry, base@, k))),
        !registry.has_name(r@),
{
    let names = registry.names();
    proof { reveal_strlit("_"); }
    let r = first_free_name(&names, base, "_");
    proof {
        let k = choose|k: nat| {
            &&& r@ == candidate(base@, "_"@, k)
            &&& !listed(names@, r@)
            &&& forall|j: nat| j < k ==> listed(names@, #[trigger] candidate(base@, "_"@, j))
        };
        assert forall|j: nat| j < k implies registry.has_name(#[trigger] candidate(base@, "_"@, j)) by {
            assert(listed(names@, candidate(base@, "_"@, j)));
        }
        assert(class_name_slot(*registry, base@, k));
        let k2 = choose|k: nat| class_name_slot(*registry, base@, k);
        if k2 < k {
            assert(registry.has_name(candidate(base@, "_"@, k2)));
        } else if k < k2 {
            assert(registry.has_name(candidate(base@, "_"@, k)));
        }
    }
    r
}

/// An enum name no registered enum has: `base`, or else `base<n>` for the smallest `n` from 1
/// that is free.
pub fn generate_unique_enum_name(registry: &EnumDefinitionRegistry, base: &str) -> (r: String)
    requires
        registry.wf(),
    ensures
        r@ == fresh_enum_name(*registry, base@),
        enum_name_slot(*registry, base@, (choose|k: nat| enum_name_slot(*registry, base@, k))),
        !registry.has_name(r@),
{
    let names = registry.names();
    proof { reveal_strlit(""); }
    let r = first_free_name(&names, base, "");
    proof {
        let k = choose|k: nat| {
            &&& r@ == candidate(base@, ""@, k)
            &&& !listed(names@, r@)
            &&& forall|j: nat| j < k ==> listed(names@, #[trigger] candidate(base@, ""@, j))
        };
        assert forall|j: nat| j < k implies registry.has_name(#[trigger] candidate(base@, ""@, j)) by {
            assert(listed(names@, candidate(base@, ""@, j)));
        }
        assert(enum_name_slot(*registry, base@, k));
        let k2 = choose|k: nat| enum_name_slot(*registry, base@, k);
        if k2 < k {
            assert(registry.has_name(candidate(base@, ""@, k2)));
        } else if k < k2 {
            assert(registry.has_name(candidate(base@, ""@, k)));
        }
    }
    r
}

} // verus!
