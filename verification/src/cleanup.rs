//! Which classes the definitions refer to, and removing the classes nothing needs.
use vstd::prelude::*;

use crate::definitions::{ClassDefinition, FieldDefinition};
use crate::registry::ClassDefinitionRegistry;
use crate::structure::MemoryStructure;
use crate::types::{FieldType, PointerTarget};

verus! {

/// The class a pointer or array target names: directly, or as the element of an array.
pub open spec fn target_class(t: Option<PointerTarget>) -> Option<u64> {
    match t {
        Some(PointerTarget::ClassId(c)) => Some(c),
        Some(PointerTarget::Array { element, .. }) => match *element {
            PointerTarget::ClassId(c) => Some(c),
            _ => None,
        },
        _ => None,
    }
}

/// The class a field refers to: the class an embedded-instance field embeds, the class a
/// pointer field points at (or the element class of an array it points at), or the element
/// class of an array field.
pub open spec fn field_class_ref(f: FieldDefinition) -> Option<u64> {
    if f.field_type == FieldType::ClassInstance {
        f.class_id
    } else if f.field_type == FieldType::Pointer {
        target_class(f.pointer_target)
    } else if f.field_type == FieldType::Array {
        target_class(f.array_element)
    } else {
        None
    }
}

/// Some definition carries id `id`, and a field of a definition listed under one of the
/// registered ids refers to it.
pub open spec fn class_referenced(reg: ClassDefinitionRegistry, id: u64) -> bool {
    &&& reg.by_id(id) is Some
    &&& exists|i: int, j: int|
        #![trigger reg.value_ids()[i], reg@[reg.value_ids()[i]].fields[j]]
        0 <= i < reg.value_ids().len() && reg@.contains_key(reg.value_ids()[i]) && 0 <= j
            < reg@[reg.value_ids()[i]].fields.len() && field_class_ref(reg@[reg.value_ids()[i]].fields[j]) == Some(id)
}

/// Class `id` is unused: it is not the root's class, nothing refers to it, and its definition
/// still holds only the one unnamed `Hex64` field a new class starts with.
pub open spec fn class_unused(ms: MemoryStructure, id: u64) -> bool {
    &&& id != ms.root_class.class_id
    &&& !class_referenced(ms.class_registry, id)
    &&& ms.class_registry@.contains_key(id)
    &&& ms.class_registry@[id].fields.len() == 1
    &&& ms.class_registry@[id].fields[0].field_type == FieldType::Hex64
    &&& ms.class_registry@[id].fields[0].name is None
}

/// The ids that satisfy `p`, in their order.
pub open spec fn ids_where(ids: Seq<u64>, p: spec_fn(u64) -> bool) -> Seq<u64>
    decreases ids.len(),
{
    if ids.len() == 0 {
        Seq::empty()
    } else {
        let rest = ids_where(ids.drop_last(), p);
        if p(ids.last()) {
            rest.push(ids.last())
        } else {
            rest
        }
    }
}

/// The class a target names, as `target_class` says.
fn class_of_target(t: &Option<PointerTarget>) -> (r: Option<u64>)
    ensures
        r == target_class(*t),
{
    match t {
        Some(PointerTarget::ClassId(c)) => Some(*c),
        Some(PointerTarget::Array { element, .. }) => match &**element {
            PointerTarget::ClassId(c) => Some(*c),
            _ => None,
        },
        _ => None,
    }
}

/// The class a field refers to, as `field_class_ref` says.
fn class_ref_of(f: &FieldDefinition) -> (r: Option<u64>)
    ensures
        r == field_class_ref(*f),
{
    if f.field_type == FieldType::ClassInstance {
        f.class_id
    } else if f.field_type == FieldType::Pointer {
        class_of_target(&f.pointer_target)
    } else if f.field_type == FieldType::Array {
        class_of_target(&f.array_element)
    } else {
        None
    }
}

/// Whether a field of `def` refers to class `id`.
fn refers_to_class(def: &ClassDefinition, id: u64) -> (r: bool)
    ensures
        r == exists|j: int| 0 <= j < def.fields@.len() && field_class_ref(#[trigger] def.fields@[j]) == Some(id),
{
    let mut j: usize = 0;
    while j < def.fields.len()
        invariant
            j <= def.fields@.len(),
            forall|k: int| 0 <= k < j ==> field_class_ref(#[trigger] def.fields@[k]) != Some(id),
        decreases def.fields@.len() - j,
    {
        if class_ref_of(&def.fields[j]) == Some(id) {
            return true;
        }
        j = j + 1;
    }
    false
}

impl MemoryStructure {
    /// Whether some definition refers to class `class_id` (see `class_referenced`).
    pub fn is_class_referenced(&self, class_id: u64) -> (r: bool)
        requires
            self.wf(),
        ensures
            r == class_referenced(self.class_registry, class_id),
    {
        if self.class_registry.get_by_id(class_id).is_none() {
            return false;
        }
        let ids = self.class_registry.get_class_ids();
        let ghost reg = self.class_registry;
        let mut i: usize = 0;
        while i < ids.len()
            invariant
                self.wf(),
                reg == self.class_registry,
                ids@ == reg.value_ids(),
                i <= ids@.len(),
                reg.by_id(class_id) is Some,
                forall|a: int, j: int|
                    #![trigger reg.value_ids()[a], reg@[reg.value_ids()[a]].fields[j]]
                    0 <= a < i && reg@.contains_key(reg.value_ids()[a]) && 0 <= j < reg@[reg.value_ids()[a]].fields.len()
                        ==> field_class_ref(reg@[reg.value_ids()[a]].fields[j]) != Some(class_id),
            decreases ids@.len() - i,
        {
            match self.class_registry.get(ids[i]) {
                Some(def) => {
                    if refers_to_class(def, class_id) {
                        proof {
                            let j = choose|j: int| 0 <= j < def.fields@.len() && field_class_ref(#[trigger] def.fields@[j]) == Some(class_id);
                            assert(reg@.contains_key(reg.value_ids()[i as int]));
                            assert(reg@[reg.value_ids()[i as int]].fields[j] == def.fields@[j]);
                            assert(0 <= i < reg.value_ids().len() && reg@.contains_key(reg.value_ids()[i as int]) && 0 <= j
                                < reg@[reg.value_ids()[i as int]].fields.len() && field_class_ref(reg@[reg.value_ids()[i as int]].fields[j])
                                == Some(class_id));
                        }
                        return true;
                    }
                    proof {
                        assert forall|a: int, j: int|
                            #![trigger reg.value_ids()[a], reg@[reg.value_ids()[a]].fields[j]]
                            0 <= a < i + 1 && reg@.contains_key(reg.value_ids()[a]) && 0 <= j
                                < reg@[reg.value_ids()[a]].fields.len() implies field_class_ref(
                            reg@[reg.value_ids()[a]].fields[j],
                        ) != Some(class_id) by {
                            if a == i {
                                assert(def.fields@[j] == reg@[reg.value_ids()[a]].fields[j]);
                            }
                        }
                    }
                },
                None => {},
            }
            i = i + 1;
        }
        false
    }

    /// Whether class `class_id` may be removed: it is not the root's class and nothing refers
    /// to it.
    pub fn can_remove_class(&self, class_id: u64) -> (r: bool)
        requires
            self.wf(),
        ensures
            r == (class_id != self.root_class.class_id && !class_referenced(self.class_registry, class_id)),
    {
        class_id != self.root_class.class_id && !self.is_class_referenced(class_id)
    }

    /// Removes class `class_id` when `can_remove_class` allows it; says whether it did.
    pub fn remove_class_if_unreferenced(&mut self, class_id: u64) -> (removed: bool)
        requires
            old(self).wf(),
        ensures
            final(self).wf(),
            removed == (class_id != old(self).root_class.class_id && !class_referenced(old(self).class_registry, class_id)),
            removed ==> final(self).class_registry@ == old(self).class_registry@.remove(class_id),
            !removed ==> final(self).class_registry@ == old(self).class_registry@,
            final(self).root_class == old(self).root_class,
            final(self).enum_registry == old(self).enum_registry,
    {
        if self.can_remove_class(class_id) {
            self.class_registry.remove(class_id);
            true
        } else {
            false
        }
    }

    /// Whether class `class_id` is unused (see `class_unused`).
    pub fn is_class_unused(&self, class_id: u64) -> (r: bool)
        requires
            self.wf(),
        ensures
            r == class_unused(*self, class_id),
    {
        if class_id == self.root_class.class_id || self.is_class_referenced(class_id) {
            return false;
        }
        match self.class_registry.get(class_id) {
            Some(def) => def.fields.len() == 1 && def.fields[0].field_type == FieldType::Hex64 && def.fields[0].name.is_none(),
            None => false,
        }
    }

    /// The unused classes, in registry order.
    pub fn unused_class_ids(&self) -> (r: Vec<u64>)
        requires
            self.wf(),
        ensures
            r@ == ids_where(self.class_registry.value_ids(), |id: u64| class_unused(*self, id)),
    {
        let ids = self.class_registry.get_class_ids();
        let ghost p = |id: u64| class_unused(*self, id);
        let mut r: Vec<u64> = Vec::new();
        let mut i: usize = 0;
        while i < ids.len()
            invariant
                self.wf(),
                i <= ids@.len(),
                p == (|id: u64| class_unused(*self, id)),
                r@ == ids_where(ids@.take(i as int), p),
            decreases ids@.len() - i,
        {
            proof {
                assert(ids@.take(i + 1).drop_last() =~= ids@.take(i as int));
                assert(ids@.take(i + 1).last() == ids@[i as int]);
            }
            let u = self.is_class_unused(ids[i]);
            assert(u == p(ids@[i as int]));
            if u {
                r.push(ids[i]);
            }
            i = i + 1;
        }
        proof {
            assert(ids@.take(ids@.len() as int) =~= ids@);
        }
        r
    }

    /// Removes every unused class and returns their ids.
    pub fn delete_unused_classes(&mut self) -> (removed: Vec<u64>)
        requires
            old(self).wf(),
        ensures
            final(self).wf(),
            removed@ == ids_where(old(self).class_registry.value_ids(), |id: u64| class_unused(*old(self), id)),
            final(self).class_registry@ == old(self).class_registry@.remove_keys(removed@.to_set()),
            final(self).root_class == old(self).root_class,
            final(self).enum_registry == old(self).enum_registry,
    {
        let unused = self.unused_class_ids();
        let ghost before = self.class_registry@;
        let mut i: usize = 0;
        while i < unused.len()
            invariant
                self.wf(),
                i <= unused@.len(),
                self.class_registry@ == before.remove_keys(unused@.take(i as int).to_set()),
                self.root_class == old(self).root_class,
                self.enum_registry == old(self).enum_registry,
            decreases unused@.len() - i,
        {
            self.class_registry.remove(unused[i]);
            proof {
                assert(unused@.take(i + 1) =~= unused@.take(i as int).push(unused@[i as int]));
                unused@.take(i as int).lemma_push_to_set_commute(unused@[i as int]);
                assert(self.class_registry@ =~= before.remove_keys(unused@.take(i + 1).to_set()));
            }
            i = i + 1;
        }
        proof {
            assert(unused@.take(unused@.len() as int) =~= unused@);
        }
        unused
    }
}

/// What `ids_where` keeps: exactly the listed ids that satisfy `p`.
proof fn lemma_ids_where(ids: Seq<u64>, p: spec_fn(u64) -> bool, x: u64)
    ensures
        ids_where(ids, p).contains(x) <==> ids.contains(x) && p(x),
    decreases ids.len(),
{
    if ids.len() > 0 {
        let rest = ids.drop_last();
        lemma_ids_where(rest, p, x);
        if ids.contains(x) && p(x) && !rest.contains(x) {
            let i = choose|i: int| 0 <= i < ids.len() && ids[i] == x;
            if i < ids.len() - 1 {
                assert(rest[i] == x);
            }
            assert(ids_where(ids, p).last() == x);
        }
        if rest.contains(x) {
            let i = choose|i: int| 0 <= i < rest.len() && rest[i] == x;
            assert(ids[i] == x);
        }
        if ids_where(ids, p).contains(x) && !ids_where(rest, p).contains(x) {
            assert(ids.last() == x);
        }
        if ids_where(rest, p).contains(x) {
            let i = choose|i: int| 0 <= i < ids_where(rest, p).len() && ids_where(rest, p)[i] == x;
            if p(ids.last()) {
                assert(ids_where(ids, p)[i] == x);
            }
        }
    }
}

/// In a coherent registry a class is referenced exactly when it is registered and a field of
/// some registered definition refers to it.
proof fn lemma_referenced_by_key(reg: ClassDefinitionRegistry, id: u64)
    requires
        reg.wf(),
        reg.coherent(),
    ensures
        class_referenced(reg, id) <==> reg@.contains_key(id) && exists|k: u64, j: int|
            #![trigger reg@[k].fields[j]]
            reg@.contains_key(k) && 0 <= j < reg@[k].fields.len() && field_class_ref(reg@[k].fields[j]) == Some(id),
{
    reg.lemma_by_id_coherent(id);
    reg.lemma_value_ids();
    if reg@.contains_key(id) && exists|k: u64, j: int|
        #![trigger reg@[k].fields[j]]
        reg@.contains_key(k) && 0 <= j < reg@[k].fields.len() && field_class_ref(reg@[k].fields[j]) == Some(id) {
        let (k, j) = choose|k: u64, j: int|
            #![trigger reg@[k].fields[j]]
            reg@.contains_key(k) && 0 <= j < reg@[k].fields.len() && field_class_ref(reg@[k].fields[j]) == Some(id);
        assert(reg.value_ids().contains(k));
        let i = choose|i: int| 0 <= i < reg.value_ids().len() && reg.value_ids()[i] == k;
        assert(reg@[reg.value_ids()[i]].fields[j] == reg@[k].fields[j]);
    }
}

/// Deleting the unused classes leaves none: every class that stays is the root's class, is
/// referenced, or holds more than the default field, and the deleted classes referred to
/// nothing. (The definitions are registered under the ids they carry.)
pub proof fn law_delete_unused_leaves_none(before: MemoryStructure, after: MemoryStructure, removed: Seq<u64>)
    requires
        before.wf(),
        after.wf(),
        before.class_registry.coherent(),
        removed == ids_where(before.class_registry.value_ids(), |id: u64| class_unused(before, id)),
        after.class_registry@ == before.class_registry@.remove_keys(removed.to_set()),
        after.root_class == before.root_class,
    ensures
        forall|id: u64| !#[trigger] class_unused(after, id),
{
    let b = before.class_registry;
    let a = after.class_registry;
    let p = |id: u64| class_unused(before, id);
    assert(a.coherent());
    b.lemma_value_ids();
    assert forall|id: u64| !#[trigger] class_unused(after, id) by {
        if class_unused(after, id) {
            lemma_ids_where(b.value_ids(), p, id);
            assert(!removed.to_set().contains(id));
            assert(b@.contains_key(id));
            assert(a@[id] == b@[id]);
            assert(!class_unused(before, id));
            lemma_referenced_by_key(b, id);
            lemma_referenced_by_key(a, id);
            let (k, j) = choose|k: u64, j: int|
                #![trigger b@[k].fields[j]]
                b@.contains_key(k) && 0 <= j < b@[k].fields.len() && field_class_ref(b@[k].fields[j]) == Some(id);
            lemma_ids_where(b.value_ids(), p, k);
            if removed.to_set().contains(k) {
                assert(class_unused(before, k));
                assert(j == 0);
                assert(false);
            }
            assert(a@.contains_key(k));
            assert(a@[k].fields[j] == b@[k].fields[j]);
        }
    }
}

/// Removing a registered class that `can_remove_class` allows leaves no field referring to
/// it. (The definitions are registered under the ids they carry.)
pub proof fn law_removed_class_leaves_no_reference(before: MemoryStructure, after: MemoryStructure, id: u64)
    requires
        before.wf(),
        before.class_registry.coherent(),
        before.class_registry@.contains_key(id),
        id != before.root_class.class_id,
        !class_referenced(before.class_registry, id),
        after.class_registry@ == before.class_registry@.remove(id),
    ensures
        !after.class_registry@.contains_key(id),
        forall|k: u64, j: int|
            after.class_registry@.contains_key(k) && 0 <= j < after.class_registry@[k].fields.len() ==> field_class_ref(
                #[trigger] after.class_registry@[k].fields[j],
            ) != Some(id),
{
    let b = before.class_registry;
    lemma_referenced_by_key(b, id);
    assert forall|k: u64, j: int|
        after.class_registry@.contains_key(k) && 0 <= j < after.class_registry@[k].fields.len() implies field_class_ref(
            #[trigger] after.class_registry@[k].fields[j],
        ) != Some(id) by {
        assert(after.class_registry@[k] == b@[k]);
        if field_class_ref(b@[k].fields[j]) == Some(id) {
            assert(b@.contains_key(k) && 0 <= j < b@[k].fields.len() && field_class_ref(b@[k].fields[j]) == Some(id));
        }
    }
}


/// "Delete unused" removes exactly the classes that are not the root's class, that no field of
/// any class refers to, and whose definition is still the untouched placeholder a new class
/// starts with: one `Hex64` field without a name. A class whose field was named, retyped or
/// joined by others is kept. (The definitions are registered under the ids they carry.)
pub proof fn law_delete_removes_only_placeholders(before: MemoryStructure, after: MemoryStructure, removed: Seq<u64>)
    requires
        before.wf(),
        before.class_registry.coherent(),
        removed == ids_where(before.class_registry.value_ids(), |id: u64| class_unused(before, id)),
        after.class_registry@ == before.class_registry@.remove_keys(removed.to_set()),
    ensures
        forall|id: u64| #[trigger] before.class_registry@.contains_key(id) ==> (!after.class_registry@.contains_key(id) <==> {
            let d = before.class_registry@[id];
            &&& id != before.root_class.class_id
            &&& d.fields.len() == 1
            &&& d.fields[0].field_type == FieldType::Hex64
            &&& d.fields[0].name is None
            &&& forall|k: u64, j: int|
                before.class_registry@.contains_key(k) && 0 <= j < before.class_registry@[k].fields.len()
                    ==> field_class_ref(#[trigger] before.class_registry@[k].fields[j]) != Some(id)
        }),
{
    let b = before.class_registry;
    let p = |id: u64| class_unused(before, id);
    b.lemma_value_ids();
    assert forall|id: u64| #[trigger] before.class_registry@.contains_key(id) implies (!after.class_registry@.contains_key(id) <==> {
        let d = before.class_registry@[id];
        &&& id != before.root_class.class_id
        &&& d.fields.len() == 1
        &&& d.fields[0].field_type == FieldType::Hex64
        &&& d.fields[0].name is None
        &&& forall|k: u64, j: int|
            before.class_registry@.contains_key(k) && 0 <= j < before.class_registry@[k].fields.len()
                ==> field_class_ref(#[trigger] before.class_registry@[k].fields[j]) != Some(id)
    }) by {
        lemma_ids_where(b.value_ids(), p, id);
        lemma_referenced_by_key(b, id);
        assert(b.value_ids().contains(id));
        assert(removed.to_set().contains(id) <==> removed.contains(id));
    }
}

} // verus!
