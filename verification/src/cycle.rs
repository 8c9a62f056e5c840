//! Which classes embed which: whether a class would end up embedding itself.
use vstd::prelude::*;

use crate::definitions::{ClassDefView, FieldDefinition};
use crate::keyed::vec_contains;
use crate::registry::{first_with_id, lemma_first_with_id_member, lookup_in, ClassDefinitionRegistry};
use crate::structure::MemoryStructure;
use crate::types::FieldType;

verus! {

/// The field embeds an instance of class `b`.
pub open spec fn embeds_field(f: FieldDefinition, b: u64) -> bool {
    f.field_type == FieldType::ClassInstance && f.class_id == Some(b)
}

/// Class `a` (as the lookup finds it) has a field that embeds an instance of class `b`.
pub open spec fn embeds(look: spec_fn(u64) -> Option<ClassDefView>, a: u64, b: u64) -> bool {
    match look(a) {
        Some(d) => exists|j: int| 0 <= j < d.fields.len() && #[trigger] embeds_field(d.fields[j], b),
        None => false,
    }
}

/// `b` is reached from `a` through at most `n` embeddings, and at least one.
pub open spec fn reaches_within(look: spec_fn(u64) -> Option<ClassDefView>, a: u64, b: u64, n: nat) -> bool
    decreases n,
{
    n > 0 && (embeds(look, a, b) || exists|c: u64| #[trigger] embeds(look, a, c) && reaches_within(look, c, b, (n - 1) as nat))
}

/// `b` is reached from `a` through one or more embeddings.
pub open spec fn reaches(look: spec_fn(u64) -> Option<ClassDefView>, a: u64, b: u64) -> bool {
    exists|n: nat| #[trigger] reaches_within(look, a, b, n)
}

/// The class ids the fields refer to, in field order.
pub open spec fn field_refs(fields: Seq<FieldDefinition>) -> Seq<u64>
    decreases fields.len(),
{
    if fields.len() == 0 {
        Seq::empty()
    } else {
        field_refs(fields.drop_last()) + match fields.last().class_id {
            Some(b) => seq![b],
            None => Seq::empty(),
        }
    }
}

/// The class ids all fields of all entries refer to.
pub open spec fn entry_refs(s: Seq<(u64, ClassDefView)>) -> Seq<u64>
    decreases s.len(),
{
    if s.len() == 0 {
        Seq::empty()
    } else {
        entry_refs(s.drop_last()) + field_refs(s.last().1.fields)
    }
}

proof fn lemma_field_refs(fields: Seq<FieldDefinition>, j: int, b: u64)
    requires
        0 <= j < fields.len(),
        fields[j].class_id == Some(b),
    ensures
        field_refs(fields).contains(b),
    decreases fields.len(),
{
    let init = field_refs(fields.drop_last());
    let tail = match fields.last().class_id {
        Some(c) => seq![c],
        None => Seq::<u64>::empty(),
    };
    assert(field_refs(fields) == init + tail);
    if j == fields.len() - 1 {
        assert((init + tail)[init.len() as int] == b);
    } else {
        assert(fields.drop_last()[j] == fields[j]);
        lemma_field_refs(fields.drop_last(), j, b);
        let k = choose|k: int| 0 <= k < init.len() && init[k] == b;
        assert((init + tail)[k] == b);
    }
}

proof fn lemma_entry_refs(s: Seq<(u64, ClassDefView)>, i: int, j: int, b: u64)
    requires
        0 <= i < s.len(),
        0 <= j < s[i].1.fields.len(),
        s[i].1.fields[j].class_id == Some(b),
    ensures
        entry_refs(s).contains(b),
    decreases s.len(),
{
    let init = entry_refs(s.drop_last());
    let tail = field_refs(s.last().1.fields);
    assert(entry_refs(s) == init + tail);
    if i == s.len() - 1 {
        lemma_field_refs(s.last().1.fields, j, b);
        let k = choose|k: int| 0 <= k < tail.len() && tail[k] == b;
        assert((init + tail)[init.len() + k] == b);
    } else {
        assert(s.drop_last()[i] == s[i]);
        lemma_entry_refs(s.drop_last(), i, j, b);
        let k = choose|k: int| 0 <= k < init.len() && init[k] == b;
        assert((init + tail)[k] == b);
    }
}

/// Every embedded class id is among the ids the entries' fields refer to.
proof fn lemma_embeds_in_refs(s: Seq<(u64, ClassDefView)>)
    ensures
        forall|a: u64, b: u64| #[trigger] embeds(lookup_in(s), a, b) ==> entry_refs(s).contains(b),
{
    assert forall|a: u64, b: u64| #[trigger] embeds(lookup_in(s), a, b) implies entry_refs(s).contains(b) by {
        lemma_first_with_id_member(s, a);
        let d = first_with_id(s, a)->0;
        let i = choose|i: int| 0 <= i < s.len() && s[i].1 == d && d.id == a;
        let j = choose|j: int| 0 <= j < d.fields.len() && #[trigger] embeds_field(d.fields[j], b);
        lemma_entry_refs(s, i, j, b);
    }
}

/// Every class visited here but not before has all the classes it embeds visited, and none
/// of them is `target`.
pub open spec fn closed_beyond(
    look: spec_fn(u64) -> Option<ClassDefView>,
    v1: Seq<u64>,
    v0: Seq<u64>,
    target: u64,
) -> bool {
    forall|v: u64, b: u64|
        #![trigger v1.contains(v), embeds(look, v, b)]
        v1.contains(v) && !v0.contains(v) && embeds(look, v, b) ==> b != target && v1.contains(b)
}

/// From a visited set closed under embedding that never embeds `target`, `target` is out of reach.
proof fn lemma_closed_unreachable(
    look: spec_fn(u64) -> Option<ClassDefView>,
    v1: Seq<u64>,
    a: u64,
    target: u64,
    n: nat,
)
    requires
        closed_beyond(look, v1, Seq::empty(), target),
        v1.contains(a),
    ensures
        !reaches_within(look, a, target, n),
    decreases n,
{
    if n > 0 {
        if embeds(look, a, target) {
            assert(!Seq::<u64>::empty().contains(a));
        }
        if exists|c: u64| #[trigger] embeds(look, a, c) && reaches_within(look, c, target, (n - 1) as nat) {
            let c = choose|c: u64| #[trigger] embeds(look, a, c) && reaches_within(look, c, target, (n - 1) as nat);
            assert(!Seq::<u64>::empty().contains(a));
            assert(v1.contains(c));
            lemma_closed_unreachable(look, v1, c, target, (n - 1) as nat);
        }
    }
}

proof fn lemma_visited_bound(v: Seq<u64>, univ: Set<u64>)
    requires
        univ.finite(),
        v.no_duplicates(),
        forall|x: u64| v.contains(x) ==> univ.contains(x),
    ensures
        v.len() <= univ.len(),
{
    v.unique_seq_to_set();
    assert(v.to_set().subset_of(univ));
    vstd::set_lib::lemma_len_subset(v.to_set(), univ);
}

/// Depth-first search from `current` for a class that embeds `target`, skipping classes
/// already visited.
fn search(
    reg: &ClassDefinitionRegistry,
    current: u64,
    target: u64,
    visited: &mut Vec<u64>,
    Ghost(univ): Ghost<Set<u64>>,
) -> (r: bool)
    requires
        univ.finite(),
        univ.contains(current),
        forall|a: u64, b: u64| #[trigger] embeds(reg.lookup(), a, b) ==> univ.contains(b),
        old(visited)@.no_duplicates(),
        forall|x: u64| old(visited)@.contains(x) ==> univ.contains(x),
    ensures
        final(visited)@.no_duplicates(),
        forall|x: u64| final(visited)@.contains(x) ==> univ.contains(x),
        forall|x: u64| old(visited)@.contains(x) ==> final(visited)@.contains(x),
        final(visited)@.len() >= old(visited)@.len(),
        r ==> reaches(reg.lookup(), current, target),
        !r ==> final(visited)@.contains(current),
        !r ==> closed_beyond(reg.lookup(), final(visited)@, old(visited)@, target),
    decreases univ.len() - old(visited)@.len(),
{
    let ghost look = reg.lookup();
    let ghost v0 = visited@;
    proof { lemma_visited_bound(v0, univ); }
    if vec_contains(visited, current) {
        return false;
    }
    visited.push(current);
    proof {
        assert(visited@.no_duplicates()) by {
            assert forall|a: int, b: int| 0 <= a < b < visited@.len() implies visited@[a] != visited@[b] by {
                if b == visited@.len() - 1 {
                    assert(visited@[a] == v0[a]);
                    assert(v0.contains(v0[a]));
                }
            }
        }
        assert(visited@.contains(current)) by {
            assert(visited@[v0.len() as int] == current);
        }
        assert forall|x: u64| v0.contains(x) implies visited@.contains(x) by {
            let k = choose|k: int| 0 <= k < v0.len() && v0[k] == x;
            assert(visited@[k] == x);
        }
        assert forall|x: u64| visited@.contains(x) implies univ.contains(x) by {
            let k = choose|k: int| 0 <= k < visited@.len() && visited@[k] == x;
            if k < v0.len() {
                assert(v0[k] == x);
            }
        }
        lemma_visited_bound(visited@, univ);
    }
    match reg.get_by_id(current) {
        Some(def) => {
            let mut j: usize = 0;
            while j < def.fields.len()
                invariant
                    v0 == old(visited)@,
                    look == reg.lookup(),
                    look(current) == Some(def@),
                    univ.finite(),
                    forall|a: u64, b: u64| #[trigger] embeds(look, a, b) ==> univ.contains(b),
                    j <= def.fields@.len(),
                    visited@.no_duplicates(),
                    forall|x: u64| visited@.contains(x) ==> univ.contains(x),
                    forall|x: u64| v0.contains(x) ==> visited@.contains(x),
                    visited@.len() > v0.len(),
                    univ.len() >= visited@.len(),
                    visited@.contains(current),
                    !v0.contains(current),
                    forall|v: u64, b: u64|
                        #![trigger visited@.contains(v), embeds(look, v, b)]
                        visited@.contains(v) && !v0.contains(v) && v != current && embeds(look, v, b)
                            ==> b != target && visited@.contains(b),
                    forall|jj: int, b: u64| 0 <= jj < j && #[trigger] embeds_field(def@.fields[jj], b)
                        ==> b != target && visited@.contains(b),
                decreases def.fields@.len() - j,
            {
                let f = &def.fields[j];
                if f.field_type == FieldType::ClassInstance {
                    if let Some(cid) = f.class_id {
                        proof {
                            assert(embeds_field(def@.fields[j as int], cid));
                            assert(embeds(look, current, cid));
                        }
                        if cid == target {
                            proof {
                                assert(reaches_within(look, current, target, 1));
                            }
                            return true;
                        }
                        let ghost vk = visited@;
                        let found = search(reg, cid, target, visited, Ghost(univ));
                        if found {
                            proof {
                                let n = choose|n: nat| #[trigger] reaches_within(look, cid, target, n);
                                assert(reaches_within(look, current, target, n + 1));
                            }
                            return true;
                        }
                        proof {
                            lemma_visited_bound(visited@, univ);
                            assert forall|v: u64, b: u64|
                                #![trigger visited@.contains(v), embeds(look, v, b)]
                                visited@.contains(v) && !v0.contains(v) && v != current && embeds(look, v, b)
                                implies b != target && visited@.contains(b) by {
                                if vk.contains(v) {
                                    assert(vk.contains(b));
                                }
                            }
                            assert forall|jj: int, b: u64| 0 <= jj < j + 1 && #[trigger] embeds_field(def@.fields[jj], b)
                                implies b != target && visited@.contains(b) by {
                                if jj < j {
                                    assert(vk.contains(b));
                                }
                            }
                        }
                    }
                }
                j = j + 1;
            }
            proof {
                assert forall|v: u64, b: u64|
                    #![trigger visited@.contains(v), embeds(look, v, b)]
                    visited@.contains(v) && !v0.contains(v) && embeds(look, v, b)
                    implies b != target && visited@.contains(b) by {
                    if v == current {
                        let jj = choose|jj: int| 0 <= jj < def@.fields.len() && #[trigger] embeds_field(def@.fields[jj], b);
                    }
                }
            }
        },
        None => {
            proof {
                assert forall|v: u64, b: u64|
                    #![trigger visited@.contains(v), embeds(look, v, b)]
                    visited@.contains(v) && !v0.contains(v) && embeds(look, v, b)
                    implies b != target && visited@.contains(b) by {
                    if v != current {
                        let k = choose|k: int| 0 <= k < visited@.len() && visited@[k] == v;
                        if k < v0.len() {
                            assert(v0[k] == v);
                        }
                    }
                }
            }
        },
    }
    false
}

impl MemoryStructure {
    /// Whether giving a field of class `owner_class_id` the type of class `target_class_id`
    /// would make a class embed itself: the two are the same class, or the target embeds the
    /// owner through one or more class-instance fields.
    pub fn would_create_cycle(&self, owner_class_id: u64, target_class_id: u64) -> (r: bool)
        ensures
            r == (owner_class_id == target_class_id
                || reaches(self.class_registry.lookup(), target_class_id, owner_class_id)),
    {
        if owner_class_id == target_class_id {
            return true;
        }
        let ghost s = self.class_registry.entries();
        let ghost univ = entry_refs(s).to_set().insert(target_class_id);
        proof {
            lemma_embeds_in_refs(s);
            vstd::seq_lib::seq_to_set_is_finite(entry_refs(s));
            assert forall|a: u64, b: u64| #[trigger] embeds(self.class_registry.lookup(), a, b) implies univ.contains(b) by {
                assert(entry_refs(s).contains(b));
            }
        }
        let mut visited: Vec<u64> = Vec::new();
        let r = search(&self.class_registry, target_class_id, owner_class_id, &mut visited, Ghost(univ));
        proof {
            if !r {
                assert(visited@.contains(target_class_id));
                assert forall|n: nat| !#[trigger] reaches_within(self.class_registry.lookup(), target_class_id, owner_class_id, n) by {
                    lemma_closed_unreachable(self.class_registry.lookup(), visited@, target_class_id, owner_class_id, n);
                }
            }
        }
        r
    }
}

/// Field `j` of the definition listed under id `k` embeds a class that is the definition's
/// own class or that embeds it in turn.
pub open spec fn closes_cycle(ms: MemoryStructure, k: u64, j: int) -> bool {
    let d = ms.class_registry@[k];
    &&& d.fields[j].field_type == FieldType::ClassInstance
    &&& d.fields[j].class_id matches Some(t) && (d.id == t || reaches(ms.class_registry.lookup(), t, d.id))
}

/// No field of a definition listed under a registered id closes a cycle of embeddings.
pub open spec fn nesting_acyclic(ms: MemoryStructure) -> bool {
    forall|i: int, j: int|
        #![trigger ms.class_registry.value_ids()[i], ms.class_registry@[ms.class_registry.value_ids()[i]].fields[j]]
        0 <= i < ms.class_registry.value_ids().len() && ms.class_registry@.contains_key(ms.class_registry.value_ids()[i])
            && 0 <= j < ms.class_registry@[ms.class_registry.value_ids()[i]].fields.len() ==> !closes_cycle(
            ms,
            ms.class_registry.value_ids()[i],
            j,
        )
}

impl MemoryStructure {
    /// Whether no class embeds itself, directly or through other classes: no class-instance
    /// field of a registered definition closes a cycle (see `would_create_cycle`).
    pub fn nesting_is_acyclic(&self) -> (r: bool)
        requires
            self.wf(),
        ensures
            r == nesting_acyclic(*self),
    {
        let ids = self.class_registry.get_class_ids();
        let mut i: usize = 0;
        while i < ids.len()
            invariant
                self.wf(),
                ids@ == self.class_registry.value_ids(),
                i <= ids@.len(),
                forall|a: int, j: int|
                    #![trigger self.class_registry.value_ids()[a], self.class_registry@[self.class_registry.value_ids()[a]].fields[j]]
                    0 <= a < i && self.class_registry@.contains_key(self.class_registry.value_ids()[a]) && 0 <= j
                        < self.class_registry@[self.class_registry.value_ids()[a]].fields.len() ==> !closes_cycle(
                        *self,
                        self.class_registry.value_ids()[a],
                        j,
                    ),
            decreases ids@.len() - i,
        {
            if let Some(def) = self.class_registry.get(ids[i]) {
                let mut j: usize = 0;
                while j < def.fields.len()
                    invariant
                        self.wf(),
                        ids@ == self.class_registry.value_ids(),
                        i < ids@.len(),
                        self.class_registry@.contains_key(ids@[i as int]),
                        def@ == self.class_registry@[ids@[i as int]],
                        j <= def.fields@.len(),
                        forall|m: int| 0 <= m < j ==> !closes_cycle(*self, ids@[i as int], m),
                    decreases def.fields@.len() - j,
                {
                    let f = &def.fields[j];
                    if f.field_type == FieldType::ClassInstance {
                        if let Some(t) = f.class_id {
                            if self.would_create_cycle(def.id, t) {
                                proof {
                                    assert(closes_cycle(*self, ids@[i as int], j as int));
                                    assert(self.class_registry@[self.class_registry.value_ids()[i as int]].fields[j as int] == f);
                                }
                                return false;
                            }
                        }
                    }
                    j = j + 1;
                }
                proof {
                    assert forall|a: int, m: int|
                        #![trigger self.class_registry.value_ids()[a], self.class_registry@[self.class_registry.value_ids()[a]].fields[m]]
                        0 <= a < i + 1 && self.class_registry@.contains_key(self.class_registry.value_ids()[a]) && 0 <= m
                            < self.class_registry@[self.class_registry.value_ids()[a]].fields.len() implies !closes_cycle(
                        *self,
                        self.class_registry.value_ids()[a],
                        m,
                    ) by {
                        if a == i {
                            assert(!closes_cycle(*self, ids@[i as int], m));
                        }
                    }
                }
            }
            i = i + 1;
        }
        true
    }
}

} // verus!
