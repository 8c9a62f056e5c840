//! The registries of class and enum definitions, keyed by id.
use vstd::prelude::*;

use crate::definitions::{bumps, sat_add, ClassDefView, ClassDefinition, EnumDefView, EnumDefinition, IdCounters};
use crate::keyed::{
    entries_insert, entries_remove, find_key, has_key, key_map, key_pos, keyed_insert, keyed_remove,
    keys_distinct, lemma_insert_map, lemma_key_pos, lemma_remove_map, lemma_vmap, vmap,
};

verus! {

/// The first definition, in entry order, that carries id `id`.
pub open spec fn first_with_id(s: Seq<(u64, ClassDefView)>, id: u64) -> Option<ClassDefView>
    decreases s.len(),
{
    if s.len() == 0 {
        None
    } else if s[0].1.id == id {
        Some(s[0].1)
    } else {
        first_with_id(s.drop_first(), id)
    }
}

/// The lookup a sequence of entries gives: the first definition that carries the id.
pub open spec fn lookup_in(s: Seq<(u64, ClassDefView)>) -> spec_fn(u64) -> Option<ClassDefView> {
    |id: u64| first_with_id(s, id)
}

pub proof fn lemma_first_with_id(s: Seq<(u64, ClassDefView)>, id: u64, i: int)
    requires
        0 <= i <= s.len(),
        forall|j: int| 0 <= j < i ==> s[j].1.id != id,
    ensures
        i < s.len() && s[i].1.id == id ==> first_with_id(s, id) == Some(s[i].1),
        i == s.len() ==> first_with_id(s, id) is None,
    decreases i,
{
    if i > 0 {
        let t = s.drop_first();
        assert forall|j: int| 0 <= j < i - 1 implies t[j].1.id != id by {
            assert(t[j] == s[j + 1]);
        }
        lemma_first_with_id(t, id, i - 1);
    }
}

/// Whatever the lookup finds is one of the registered definitions.
pub proof fn lemma_first_with_id_member(s: Seq<(u64, ClassDefView)>, id: u64)
    ensures
        first_with_id(s, id) matches Some(d) ==> exists|i: int| 0 <= i < s.len() && s[i].1 == d && d.id == id,
    decreases s.len(),
{
    if s.len() > 0 && s[0].1.id != id {
        lemma_first_with_id_member(s.drop_first(), id);
        if let Some(d) = first_with_id(s, id) {
            let i = choose|i: int| 0 <= i < s.drop_first().len() && s.drop_first()[i].1 == d && d.id == id;
            assert(s[i + 1] == s.drop_first()[i]);
        }
    }
}

/// Looking a definition up right after registering it gives it back, and leaves every other
/// id as it was.
pub proof fn law_register_then_get(reg: Map<u64, ClassDefView>, d: ClassDefView, other: u64)
    ensures
        reg.insert(d.id, d).contains_key(d.id),
        reg.insert(d.id, d)[d.id] == d,
        other != d.id ==> reg.insert(d.id, d).contains_key(other) == reg.contains_key(other),
        other != d.id && reg.contains_key(other) ==> reg.insert(d.id, d)[other] == reg[other],
{
}

/// Registering a definition under a new id and removing that id again gives back the
/// registry's contents.
pub proof fn law_register_then_remove(reg: Map<u64, ClassDefView>, d: ClassDefView)
    requires
        !reg.contains_key(d.id),
    ensures
        reg.insert(d.id, d).remove(d.id) == reg,
        !reg.insert(d.id, d).remove(d.id).contains_key(d.id),
{
    assert(reg.insert(d.id, d).remove(d.id) =~= reg);
}

/// Every definition stays registered under the id it carries: registering keeps a coherent
/// registry coherent, and so does removing.
pub proof fn law_coherence_kept(reg: Map<u64, ClassDefView>, d: ClassDefView, id: u64)
    requires
        forall|k: u64| #[trigger] reg.contains_key(k) ==> reg[k].id == k,
    ensures
        forall|k: u64| #[trigger] reg.insert(d.id, d).contains_key(k) ==> reg.insert(d.id, d)[k].id == k,
        forall|k: u64| #[trigger] reg.remove(id).contains_key(k) ==> reg.remove(id)[k].id == k,
{
}

/// Counting up from `x` does not wrap while it stays within 64 bits.
proof fn lemma_bumps_no_wrap(x: u64, k: nat)
    requires
        x + k <= u64::MAX,
    ensures
        bumps(x, k) == x + k,
    decreases k,
{
    if k > 0 {
        lemma_bumps_no_wrap(x, (k - 1) as nat);
    }
}

/// Reseeding avoids collisions: after `reseed_id_counters`, the class and field ids handed
/// out one after another (the `k`-th of them is `bumps` of the reseeded counter, `k` times)
/// are carried by no registered definition or field, as long as the counting stays below
/// `u64::MAX` (where the counters wrap).
pub proof fn law_reseeded_ids_are_fresh(reg: ClassDefinitionRegistry, max_class: u64, max_field: u64, k: nat)
    requires
        reg.max_class_id_is(max_class),
        reg.max_field_id_is(max_field),
    ensures
        max_class + k < u64::MAX ==> forall|c: u64| #[trigger] reg@.contains_key(c)
            ==> reg@[c].id != bumps(sat_add(max_class, 1), k),
        max_field + k < u64::MAX ==> forall|c: u64, j: int| #[trigger] reg@.contains_key(c) && 0 <= j < reg@[c].fields.len()
            ==> #[trigger] reg@[c].fields[j].id != bumps(sat_add(max_field, 1), k),
        reg.coherent() && max_class + k < u64::MAX ==> !reg@.contains_key(bumps(sat_add(max_class, 1), k)),
{
    if max_class + k < u64::MAX {
        lemma_bumps_no_wrap(sat_add(max_class, 1), k);
    }
    if max_field + k < u64::MAX {
        lemma_bumps_no_wrap(sat_add(max_field, 1), k);
    }
}

/// Reseeding avoids collisions for enums too: after `reseed_id_counters`, the enum ids
/// handed out one after another are carried by no registered enum, as long as the counting
/// stays below `u64::MAX`.
pub proof fn law_reseeded_enum_ids_are_fresh(reg: EnumDefinitionRegistry, max_enum: u64, k: nat)
    requires
        reg.max_enum_id_is(max_enum),
    ensures
        max_enum + k < u64::MAX ==> forall|e: u64| #[trigger] reg@.contains_key(e)
            ==> reg@[e].id != bumps(sat_add(max_enum, 1), k),
        (forall|e: u64| #[trigger] reg@.contains_key(e) ==> reg@[e].id == e) && max_enum + k < u64::MAX
            ==> !reg@.contains_key(bumps(sat_add(max_enum, 1), k)),
{
    if max_enum + k < u64::MAX {
        lemma_bumps_no_wrap(sat_add(max_enum, 1), k);
    }
}

/// Registry for storing and reusing class definitions, keyed by id.
#[derive(Debug)]
pub struct ClassDefinitionRegistry {
    definitions: Vec<(u64, ClassDefinition)>,
}

impl View for ClassDefinitionRegistry {
    type V = Map<u64, ClassDefView>;

    open spec fn view(&self) -> Map<u64, ClassDefView> {
        key_map(self.entries())
    }
}

impl ClassDefinitionRegistry {
    /// The registered entries (key and definition), in registry order.
    pub closed spec fn entries(&self) -> Seq<(u64, ClassDefView)> {
        vmap(self.definitions@)
    }

    /// No key is registered twice.
    pub open spec fn wf(&self) -> bool {
        keys_distinct(self.entries())
    }

    /// The ids the registered definitions carry, in registry order.
    pub open spec fn value_ids(&self) -> Seq<u64> {
        self.entries().map_values(|e: (u64, ClassDefView)| e.1.id)
    }

    /// Finds, for an id, the first registered definition that carries it.
    pub open spec fn lookup(&self) -> spec_fn(u64) -> Option<ClassDefView> {
        lookup_in(self.entries())
    }

    /// The first registered definition, in registry order, that carries id `id`.
    pub open spec fn by_id(&self, id: u64) -> Option<ClassDefView> {
        first_with_id(self.entries(), id)
    }

    /// Every definition is registered under its own id.
    pub open spec fn coherent(&self) -> bool {
        forall|k: u64| #[trigger] self@.contains_key(k) ==> self@[k].id == k
    }

    /// Some registered definition carries the name.
    pub open spec fn has_name(&self, name: Seq<char>) -> bool {
        exists|k: u64| #[trigger] self@.contains_key(k) && self@[k].name == name
    }

    /// `m` is the largest field id in use, or 1 when none is larger.
    pub open spec fn max_field_id_is(&self, m: u64) -> bool {
        &&& 1 <= m
        &&& forall|k: u64, j: int| #[trigger] self@.contains_key(k) && 0 <= j < self@[k].fields.len()
            ==> #[trigger] self@[k].fields[j].id <= m
        &&& (m == 1 || exists|k: u64, j: int| #[trigger] self@.contains_key(k) && 0 <= j < self@[k].fields.len()
            && #[trigger] self@[k].fields[j].id == m)
    }

    /// `m` is the largest class id carried by a registered definition, or 1 when none is larger.
    pub open spec fn max_class_id_is(&self, m: u64) -> bool {
        &&& 1 <= m
        &&& forall|k: u64| #[trigger] self@.contains_key(k) ==> self@[k].id <= m
        &&& (m == 1 || exists|k: u64| #[trigger] self@.contains_key(k) && self@[k].id == m)
    }

    proof fn lemma_at(&self, i: int)
        requires
            0 <= i < self.definitions@.len(),
        ensures
            self.entries()[i] == (self.definitions@[i].0, self.definitions@[i].1@),
            self.entries().len() == self.definitions@.len(),
            self.wf() ==> self@.contains_key(self.definitions@[i].0),
            self.wf() ==> self@[self.definitions@[i].0] == self.definitions@[i].1@,
            self.wf() ==> key_pos(self.entries(), self.definitions@[i].0) == i,
    {
        lemma_vmap(self.definitions@);
        if self.wf() {
            lemma_key_pos(self.entries(), i);
        }
    }

    proof fn lemma_has(&self, k: u64)
        requires
            self.wf(),
            self@.contains_key(k),
        ensures
            0 <= key_pos(self.entries(), k) < self.definitions@.len(),
            self.definitions@[key_pos(self.entries(), k)].0 == k,
            self@[k] == self.definitions@[key_pos(self.entries(), k)].1@,
    {
        lemma_vmap(self.definitions@);
    }

    /// The ids, taken from the definitions, list exactly the keys when the registry is coherent.
    pub proof fn lemma_value_ids(&self)
        requires
            self.wf(),
        ensures
            self.value_ids().len() == self@.dom().len(),
            forall|k: u64| #[trigger] self@.contains_key(k) ==> self.value_ids().contains(self@[k].id),
            self.coherent() ==> self.value_ids().no_duplicates(),
            self.coherent() ==> forall|k: u64| self.value_ids().contains(k) <==> #[trigger] self@.contains_key(k),
    {
        let s = self.entries();
        let ks = s.map_values(|e: (u64, ClassDefView)| e.0);
        assert forall|i: int, j: int| 0 <= i < j < ks.len() implies ks[i] != ks[j] by {}
        assert(ks.no_duplicates());
        assert forall|k: u64| self@.dom().contains(k) <==> ks.to_set().contains(k) by {
            if self@.dom().contains(k) {
                let i = choose|i: int| 0 <= i < s.len() && s[i].0 == k;
                assert(ks[i] == k);
            }
            if ks.to_set().contains(k) {
                let i = choose|i: int| 0 <= i < ks.len() && ks[i] == k;
                assert(has_key(s, k));
            }
        }
        assert(self@.dom() =~= ks.to_set());
        ks.unique_seq_to_set();
        assert forall|k: u64| #[trigger] self@.contains_key(k) implies self.value_ids().contains(self@[k].id) by {
            let i = key_pos(s, k);
            assert(self.value_ids()[i] == self@[k].id);
        }
        if self.coherent() {
            assert forall|i: int| 0 <= i < s.len() implies #[trigger] self.value_ids()[i] == ks[i] by {
                lemma_key_pos(s, i);
            }
            assert(self.value_ids() =~= ks);
            assert forall|k: u64| self.value_ids().contains(k) <==> #[trigger] self@.contains_key(k) by {
                assert(ks.to_set().contains(k) == ks.contains(k));
            }
        }
    }

    /// In a coherent registry, looking a definition up by the id it carries is looking it up by key.
    pub proof fn lemma_by_id_coherent(&self, id: u64)
        requires
            self.wf(),
            self.coherent(),
        ensures
            self.by_id(id) == (if self@.contains_key(id) { Some(self@[id]) } else { None::<ClassDefView> }),
    {
        let s = self.entries();
        if self@.contains_key(id) {
            let i = key_pos(s, id);
            assert forall|j: int| 0 <= j < i implies s[j].1.id != id by {
                lemma_key_pos(s, j);
            }
            lemma_first_with_id(s, id, i);
        } else {
            assert forall|j: int| 0 <= j < s.len() implies s[j].1.id != id by {
                lemma_key_pos(s, j);
            }
            lemma_first_with_id(s, id, s.len() as int);
        }
    }

    /// An empty registry.
    pub fn new() -> (r: Self)
        ensures
            r.wf(),
            r.entries() == Seq::<(u64, ClassDefView)>::empty(),
            r@ == Map::<u64, ClassDefView>::empty(),
    {
        let r = ClassDefinitionRegistry { definitions: Vec::new() };
        assert(r.entries() =~= Seq::<(u64, ClassDefView)>::empty());
        assert(r@ =~= Map::<u64, ClassDefView>::empty());
        r
    }

    /// Registers (or replaces) a definition under its id.
    pub fn register(&mut self, class_def: ClassDefinition)
        requires
            old(self).wf(),
        ensures
            final(self).wf(),
            final(self).entries() == entries_insert(old(self).entries(), class_def.id, class_def@),
            final(self)@ == old(self)@.insert(class_def.id, class_def@),
    {
        let ghost d = class_def@;
        let k = class_def.id;
        proof { lemma_vmap(self.definitions@); }
        keyed_insert(&mut self.definitions, k, class_def);
        proof {
            lemma_vmap(self.definitions@);
            lemma_insert_map(old(self).entries(), k, d);
        }
    }

    /// The definition registered under `id`.
    pub fn get(&self, id: u64) -> (r: Option<&ClassDefinition>)
        requires
            self.wf(),
        ensures
            match r {
                Some(d) => self@.contains_key(id) && d@ == self@[id],
                None => !self@.contains_key(id),
            },
    {
        proof { lemma_vmap(self.definitions@); }
        match find_key(&self.definitions, id) {
            Some(i) => {
                proof { self.lemma_at(i as int); }
                Some(&self.definitions[i].1)
            },
            None => None,
        }
    }

    /// Mutable access to the definition registered under `id`.
    pub fn get_mut(&mut self, id: u64) -> (r: Option<&mut ClassDefinition>)
        requires
            old(self).wf(),
        ensures
            final(self).wf(),
            match r {
                Some(d) => {
                    &&& old(self)@.contains_key(id)
                    &&& d@ == old(self)@[id]
                    &&& final(self).entries() == old(self).entries().update(key_pos(old(self).entries(), id), (id, final(d)@))
                    &&& final(self).entries() == entries_insert(old(self).entries(), id, final(d)@)
                    &&& final(self)@ == old(self)@.insert(id, final(d)@)
                },
                None => !old(self)@.contains_key(id) && final(self).entries() == old(self).entries(),
            },
    {
        proof { lemma_vmap(self.definitions@); }
        match find_key(&self.definitions, id) {
            Some(i) => {
                proof { self.lemma_at(i as int); }
                let ghost s0 = self.definitions@;
                let entry = &mut self.definitions[i];
                let d = &mut entry.1;
                proof {
                    let s1 = s0.update(i as int, (id, *final(d)));
                    assert(after_borrow(self.definitions)@ == s1);
                    lemma_vmap(s1);
                    assert(vmap(s1) =~= vmap(s0).update(i as int, (id, final(d)@)));
                    lemma_insert_map(vmap(s0), id, final(d)@);
                }
                Some(d)
            },
            None => None,
        }
    }

    /// Whether a definition is registered under `id`.
    pub fn contains(&self, id: u64) -> (r: bool)
        requires
            self.wf(),
        ensures
            r == self@.contains_key(id),
    {
        proof { lemma_vmap(self.definitions@); }
        match find_key(&self.definitions, id) {
            Some(i) => {
                proof { self.lemma_at(i as int); }
                true
            },
            None => false,
        }
    }

    /// Whether some registered definition carries the name.
    pub fn contains_name(&self, name: &str) -> (r: bool)
        requires
            self.wf(),
        ensures
            r == self.has_name(name@),
    {
        let target = name.to_owned();
        let mut i: usize = 0;
        while i < self.definitions.len()
            invariant
                self.wf(),
                i <= self.definitions@.len(),
                target@ == name@,
                forall|j: int| 0 <= j < i ==> self.definitions@[j].1.name@ != name@,
            decreases self.definitions@.len() - i,
        {
            if self.definitions[i].1.name == target {
                proof {
                    self.lemma_at(i as int);
                    let k = self.definitions@[i as int].0;
                    assert(self@.contains_key(k) && self@[k].name == name@);
                }
                return true;
            }
            i = i + 1;
        }
        proof {
            assert forall|k: u64| #[trigger] self@.contains_key(k) implies self@[k].name != name@ by {
                self.lemma_has(k);
            }
        }
        false
    }

    /// The names of the registered definitions, in registry order.
    pub(crate) fn names(&self) -> (r: Vec<String>)
        requires
            self.wf(),
        ensures
            forall|name: Seq<char>| self.has_name(name) <==> exists|i: int| 0 <= i < r@.len() && (#[trigger] r@[i])@ == name,
    {
        let mut r: Vec<String> = Vec::new();
        let mut i: usize = 0;
        while i < self.definitions.len()
            invariant
                self.wf(),
                i <= self.definitions@.len(),
                r@.len() == i,
                forall|j: int| 0 <= j < i ==> (#[trigger] r@[j])@ == self.definitions@[j].1.name@,
            decreases self.definitions@.len() - i,
        {
            r.push(self.definitions[i].1.name.clone());
            i = i + 1;
        }
        proof {
            assert forall|name: Seq<char>| self.has_name(name) <==> exists|j: int| 0 <= j < r@.len() && (#[trigger] r@[j])@ == name by {
                if self.has_name(name) {
                    let k = choose|k: u64| #[trigger] self@.contains_key(k) && self@[k].name == name;
                    self.lemma_has(k);
                    let j = key_pos(self.entries(), k);
                    assert(r@[j]@ == name);
                }
                if exists|j: int| 0 <= j < r@.len() && (#[trigger] r@[j])@ == name {
                    let j = choose|j: int| 0 <= j < r@.len() && (#[trigger] r@[j])@ == name;
                    self.lemma_at(j);
                    let k = self.definitions@[j].0;
                    assert(self@.contains_key(k) && self@[k].name == name);
                }
            }
        }
        r
    }

    /// The ids carried by the registered definitions, in registry order.
    pub fn get_class_ids(&self) -> (r: Vec<u64>)
        ensures
            r@ == self.value_ids(),
    {
        proof { lemma_vmap(self.definitions@); }
        let mut r: Vec<u64> = Vec::new();
        let mut i: usize = 0;
        while i < self.definitions.len()
            invariant
                i <= self.definitions@.len(),
                self.entries().len() == self.definitions@.len(),
                forall|j: int| 0 <= j < self.definitions@.len() ==> #[trigger] self.entries()[j] == (self.definitions@[j].0, self.definitions@[j].1@),
                r@ == self.value_ids().take(i as int),
            decreases self.definitions@.len() - i,
        {
            r.push(self.definitions[i].1.id);
            i = i + 1;
            assert(r@ =~= self.value_ids().take(i as int));
        }
        assert(r@ =~= self.value_ids());
        r
    }

    /// Removes the definition registered under `id`.
    pub fn remove(&mut self, id: u64) -> (r: Option<ClassDefinition>)
        requires
            old(self).wf(),
        ensures
            final(self).wf(),
            final(self).entries() == entries_remove(old(self).entries(), id),
            final(self)@ == old(self)@.remove(id),
            match r {
                Some(d) => old(self)@.contains_key(id) && d@ == old(self)@[id],
                None => !old(self)@.contains_key(id),
            },
    {
        proof { lemma_vmap(self.definitions@); }
        let r = keyed_remove(&mut self.definitions, id);
        proof {
            lemma_vmap(self.definitions@);
            lemma_remove_map(old(self).entries(), id);
        }
        r
    }

    /// The first registered definition that carries id `id`.
    pub fn get_by_id(&self, id: u64) -> (r: Option<&ClassDefinition>)
        ensures
            match r {
                Some(d) => self.by_id(id) == Some(d@),
                None => self.by_id(id) is None,
            },
    {
        proof { lemma_vmap(self.definitions@); }
        let mut i: usize = 0;
        while i < self.definitions.len()
            invariant
                i <= self.definitions@.len(),
                self.entries().len() == self.definitions@.len(),
                forall|j: int| 0 <= j < self.definitions@.len() ==> #[trigger] self.entries()[j] == (self.definitions@[j].0, self.definitions@[j].1@),
                forall|j: int| 0 <= j < i ==> self.definitions@[j].1.id != id,
            decreases self.definitions@.len() - i,
        {
            if self.definitions[i].1.id == id {
                proof {
                    assert forall|j: int| 0 <= j < i implies self.entries()[j].1.id != id by {
                        assert(self.entries()[j].1 == self.definitions@[j].1@);
                    }
                    lemma_first_with_id(self.entries(), id, i as int);
                }
                return Some(&self.definitions[i].1);
            }
            i = i + 1;
        }
        proof {
            assert forall|j: int| 0 <= j < i implies self.entries()[j].1.id != id by {
                assert(self.entries()[j].1 == self.definitions@[j].1@);
            }
            lemma_first_with_id(self.entries(), id, i as int);
        }
        None
    }

    /// Moves the field and class id counters past every id in use (and past 1).
    pub fn reseed_id_counters(&self, ids: &mut IdCounters)
        requires
            self.wf(),
        ensures
            exists|m: u64| #[trigger] self.max_field_id_is(m) && final(ids).next_field_id == sat_add(m, 1),
            exists|m: u64| #[trigger] self.max_class_id_is(m) && final(ids).next_class_def_id == sat_add(m, 1),
            final(ids).next_enum_def_id == old(ids).next_enum_def_id,
    {
        let mut max_field_id: u64 = 1;
        let mut max_class_id: u64 = 1;
        let mut i: usize = 0;
        while i < self.definitions.len()
            invariant
                self.wf(),
                i <= self.definitions@.len(),
                1 <= max_class_id,
                1 <= max_field_id,
                forall|a: int| 0 <= a < i ==> #[trigger] self.definitions@[a].1.id <= max_class_id,
                max_class_id == 1 || exists|a: int| 0 <= a < i && #[trigger] self.definitions@[a].1.id == max_class_id,
                forall|a: int, b: int| 0 <= a < i && 0 <= b < self.definitions@[a].1.fields@.len()
                    ==> #[trigger] self.definitions@[a].1.fields@[b].id <= max_field_id,
                max_field_id == 1 || exists|a: int, b: int| 0 <= a < i && 0 <= b < self.definitions@[a].1.fields@.len()
                    && #[trigger] self.definitions@[a].1.fields@[b].id == max_field_id,
            decreases self.definitions@.len() - i,
        {
            let def = &self.definitions[i].1;
            if def.id > max_class_id {
                max_class_id = def.id;
            }
            let mut j: usize = 0;
            while j < def.fields.len()
                invariant
                    def == self.definitions@[i as int].1,
                    i < self.definitions@.len(),
                    j <= def.fields@.len(),
                    1 <= max_field_id,
                    forall|a: int, b: int| 0 <= a < i && 0 <= b < self.definitions@[a].1.fields@.len()
                        ==> #[trigger] self.definitions@[a].1.fields@[b].id <= max_field_id,
                    forall|b: int| 0 <= b < j ==> #[trigger] def.fields@[b].id <= max_field_id,
                    max_field_id == 1 || (exists|a: int, b: int| 0 <= a < i && 0 <= b < self.definitions@[a].1.fields@.len()
                        && #[trigger] self.definitions@[a].1.fields@[b].id == max_field_id)
                        || (exists|b: int| 0 <= b < j && #[trigger] def.fields@[b].id == max_field_id),
                decreases def.fields@.len() - j,
            {
                if def.fields[j].id > max_field_id {
                    max_field_id = def.fields[j].id;
                }
                j = j + 1;
            }
            i = i + 1;
        }
        ids.next_field_id = max_field_id.saturating_add(1);
        ids.next_class_def_id = max_class_id.saturating_add(1);
        proof {
            let s = self.definitions@;
            assert forall|k: u64, j: int| #[trigger] self@.contains_key(k) && 0 <= j < self@[k].fields.len()
                implies #[trigger] self@[k].fields[j].id <= max_field_id by {
                self.lemma_has(k);
            }
            if max_field_id != 1 {
                let (a, b) = choose|a: int, b: int| 0 <= a < s.len() && 0 <= b < s[a].1.fields@.len()
                    && #[trigger] s[a].1.fields@[b].id == max_field_id;
                self.lemma_at(a);
                assert(self@.contains_key(s[a].0) && 0 <= b < self@[s[a].0].fields.len()
                    && self@[s[a].0].fields[b].id == max_field_id);
            }
            assert forall|k: u64| #[trigger] self@.contains_key(k) implies self@[k].id <= max_class_id by {
                self.lemma_has(k);
            }
            if max_class_id != 1 {
                let a = choose|a: int| 0 <= a < s.len() && #[trigger] s[a].1.id == max_class_id;
                self.lemma_at(a);
                assert(self@.contains_key(s[a].0) && self@[s[a].0].id == max_class_id);
            }
            assert(self.max_field_id_is(max_field_id));
            assert(self.max_class_id_is(max_class_id));
        }
    }
}

impl Clone for ClassDefinitionRegistry {
    fn clone(&self) -> (r: Self)
        ensures
            r.entries() == self.entries(),
    {
        let mut v: Vec<(u64, ClassDefinition)> = Vec::new();
        let mut i: usize = 0;
        while i < self.definitions.len()
            invariant
                i <= self.definitions@.len(),
                v@.len() == i,
                forall|j: int| 0 <= j < i ==> (#[trigger] v@[j]).0 == self.definitions@[j].0 && v@[j].1@ == self.definitions@[j].1@,
            decreases self.definitions@.len() - i,
        {
            let e = &self.definitions[i];
            v.push((e.0, e.1.clone()));
            i = i + 1;
        }
        let r = ClassDefinitionRegistry { definitions: v };
        proof {
            lemma_vmap(v@);
            lemma_vmap(self.definitions@);
            assert(r.entries() =~= self.entries());
        }
        r
    }
}

impl Default for ClassDefinitionRegistry {
    fn default() -> (r: Self)
        ensures
            r.wf(),
            r.entries() == Seq::<(u64, ClassDefView)>::empty(),
    {
        Self::new()
    }
}

/// Registry for enum definitions, keyed by id.
#[derive(Debug)]
pub struct EnumDefinitionRegistry {
    definitions: Vec<(u64, EnumDefinition)>,
}

impl View for EnumDefinitionRegistry {
    type V = Map<u64, EnumDefView>;

    open spec fn view(&self) -> Map<u64, EnumDefView> {
        key_map(self.entries())
    }
}

impl EnumDefinitionRegistry {
    /// The registered entries (key and definition), in registry order.
    pub closed spec fn entries(&self) -> Seq<(u64, EnumDefView)> {
        vmap(self.definitions@)
    }

    /// No key is registered twice.
    pub open spec fn wf(&self) -> bool {
        keys_distinct(self.entries())
    }

    /// The registered keys, in registry order.
    pub open spec fn keys(&self) -> Seq<u64> {
        self.entries().map_values(|e: (u64, EnumDefView)| e.0)
    }

    /// Some registered enum carries the name.
    pub open spec fn has_name(&self, name: Seq<char>) -> bool {
        exists|k: u64| #[trigger] self@.contains_key(k) && self@[k].name == name
    }

    /// `m` is the largest id carried by a registered enum, or 1 when none is larger.
    pub open spec fn max_enum_id_is(&self, m: u64) -> bool {
        &&& 1 <= m
        &&& forall|k: u64| #[trigger] self@.contains_key(k) ==> self@[k].id <= m
        &&& (m == 1 || exists|k: u64| #[trigger] self@.contains_key(k) && self@[k].id == m)
    }

    proof fn lemma_at(&self, i: int)
        requires
            0 <= i < self.definitions@.len(),
        ensures
            self.entries()[i] == (self.definitions@[i].0, self.definitions@[i].1@),
            self.entries().len() == self.definitions@.len(),
            self.wf() ==> self@.contains_key(self.definitions@[i].0),
            self.wf() ==> self@[self.definitions@[i].0] == self.definitions@[i].1@,
    {
        lemma_vmap(self.definitions@);
        if self.wf() {
            lemma_key_pos(self.entries(), i);
        }
    }

    proof fn lemma_has(&self, k: u64)
        requires
            self.wf(),
            self@.contains_key(k),
        ensures
            0 <= key_pos(self.entries(), k) < self.definitions@.len(),
            self.definitions@[key_pos(self.entries(), k)].0 == k,
            self@[k] == self.definitions@[key_pos(self.entries(), k)].1@,
    {
        lemma_vmap(self.definitions@);
    }

    /// The keys list each registered enum once.
    pub proof fn lemma_keys(&self)
        requires
            self.wf(),
        ensures
            self.keys().no_duplicates(),
            self.keys().len() == self@.dom().len(),
            forall|k: u64| self.keys().contains(k) <==> #[trigger] self@.contains_key(k),
    {
        let s = self.entries();
        let ks = self.keys();
        assert forall|i: int, j: int| 0 <= i < j < ks.len() implies ks[i] != ks[j] by {}
        assert forall|k: u64| self@.dom().contains(k) <==> ks.to_set().contains(k) by {
            if self@.dom().contains(k) {
                let i = choose|i: int| 0 <= i < s.len() && s[i].0 == k;
                assert(ks[i] == k);
            }
            if ks.to_set().contains(k) {
                let i = choose|i: int| 0 <= i < ks.len() && ks[i] == k;
                assert(has_key(s, k));
            }
        }
        assert(self@.dom() =~= ks.to_set());
        ks.unique_seq_to_set();
        assert forall|k: u64| self.keys().contains(k) <==> #[trigger] self@.contains_key(k) by {
            assert(ks.to_set().contains(k) == ks.contains(k));
        }
    }

    /// An empty registry.
    pub fn new() -> (r: Self)
        ensures
            r.wf(),
            r.entries() == Seq::<(u64, EnumDefView)>::empty(),
            r@ == Map::<u64, EnumDefView>::empty(),
    {
        let r = EnumDefinitionRegistry { definitions: Vec::new() };
        assert(r.entries() =~= Seq::<(u64, EnumDefView)>::empty());
        assert(r@ =~= Map::<u64, EnumDefView>::empty());
        r
    }

    /// Registers (or replaces) an enum under its id.
    pub fn register(&mut self, enum_def: EnumDefinition)
        requires
            old(self).wf(),
        ensures
            final(self).wf(),
            final(self).entries() == entries_insert(old(self).entries(), enum_def.id, enum_def@),
            final(self)@ == old(self)@.insert(enum_def.id, enum_def@),
    {
        let ghost d = enum_def@;
        let k = enum_def.id;
        proof { lemma_vmap(self.definitions@); }
        keyed_insert(&mut self.definitions, k, enum_def);
        proof {
            lemma_vmap(self.definitions@);
            lemma_insert_map(old(self).entries(), k, d);
        }
    }

    /// The enum registered under `id`.
    pub fn get(&self, id: u64) -> (r: Option<&EnumDefinition>)
        requires
            self.wf(),
        ensures
            match r {
                Some(d) => self@.contains_key(id) && d@ == self@[id],
                None => !self@.contains_key(id),
            },
    {
        proof { lemma_vmap(self.definitions@); }
        match find_key(&self.definitions, id) {
            Some(i) => {
                proof { self.lemma_at(i as int); }
                Some(&self.definitions[i].1)
            },
            None => None,
        }
    }

    /// Mutable access to the enum registered under `id`.
    pub fn get_mut(&mut self, id: u64) -> (r: Option<&mut EnumDefinition>)
        requires
            old(self).wf(),
        ensures
            final(self).wf(),
            match r {
                Some(d) => {
                    &&& old(self)@.contains_key(id)
                    &&& d@ == old(self)@[id]
                    &&& final(self).entries() == entries_insert(old(self).entries(), id, final(d)@)
                    &&& final(self)@ == old(self)@.insert(id, final(d)@)
                },
                None => !old(self)@.contains_key(id) && final(self).entries() == old(self).entries(),
            },
    {
        proof { lemma_vmap(self.definitions@); }
        match find_key(&self.definitions, id) {
            Some(i) => {
                proof { self.lemma_at(i as int); }
                let ghost s0 = self.definitions@;
                let entry = &mut self.definitions[i];
                let d = &mut entry.1;
                proof {
                    let s1 = s0.update(i as int, (id, *final(d)));
                    assert(after_borrow(self.definitions)@ == s1);
                    lemma_vmap(s1);
                    assert(vmap(s1) =~= vmap(s0).update(i as int, (id, final(d)@)));
                    lemma_insert_map(vmap(s0), id, final(d)@);
                }
                Some(d)
            },
            None => None,
        }
    }

    /// Whether an enum is registered under `id`.
    pub fn contains(&self, id: u64) -> (r: bool)
        requires
            self.wf(),
        ensures
            r == self@.contains_key(id),
    {
        proof { lemma_vmap(self.definitions@); }
        match find_key(&self.definitions, id) {
            Some(i) => {
                proof { self.lemma_at(i as int); }
                true
            },
            None => false,
        }
    }

    /// Whether some registered enum carries the name.
    pub fn contains_name(&self, name: &str) -> (r: bool)
        requires
            self.wf(),
        ensures
            r == self.has_name(name@),
    {
        let target = name.to_owned();
        let mut i: usize = 0;
        while i < self.definitions.len()
            invariant
                self.wf(),
                i <= self.definitions@.len(),
                target@ == name@,
                forall|j: int| 0 <= j < i ==> self.definitions@[j].1.name@ != name@,
            decreases self.definitions@.len() - i,
        {
            if self.definitions[i].1.name == target {
                proof {
                    self.lemma_at(i as int);
                    let k = self.definitions@[i as int].0;
                    assert(self@.contains_key(k) && self@[k].name == name@);
                }
                return true;
            }
            i = i + 1;
        }
        proof {
            assert forall|k: u64| #[trigger] self@.contains_key(k) implies self@[k].name != name@ by {
                self.lemma_has(k);
            }
        }
        false
    }

    /// The names of the registered definitions, in registry order.
    pub(crate) fn names(&self) -> (r: Vec<String>)
        requires
            self.wf(),
        ensures
            forall|name: Seq<char>| self.has_name(name) <==> exists|i: int| 0 <= i < r@.len() && (#[trigger] r@[i])@ == name,
    {
        let mut r: Vec<String> = Vec::new();
        let mut i: usize = 0;
        while i < self.definitions.len()
            invariant
                self.wf(),
                i <= self.definitions@.len(),
                r@.len() == i,
                forall|j: int| 0 <= j < i ==> (#[trigger] r@[j])@ == self.definitions@[j].1.name@,
            decreases self.definitions@.len() - i,
        {
            r.push(self.definitions[i].1.name.clone());
            i = i + 1;
        }
        proof {
            assert forall|name: Seq<char>| self.has_name(name) <==> exists|j: int| 0 <= j < r@.len() && (#[trigger] r@[j])@ == name by {
                if self.has_name(name) {
                    let k = choose|k: u64| #[trigger] self@.contains_key(k) && self@[k].name == name;
                    self.lemma_has(k);
                    let j = key_pos(self.entries(), k);
                    assert(r@[j]@ == name);
                }
                if exists|j: int| 0 <= j < r@.len() && (#[trigger] r@[j])@ == name {
                    let j = choose|j: int| 0 <= j < r@.len() && (#[trigger] r@[j])@ == name;
                    self.lemma_at(j);
                    let k = self.definitions@[j].0;
                    assert(self@.contains_key(k) && self@[k].name == name);
                }
            }
        }
        r
    }

    /// The registered keys, in registry order.
    pub fn get_enum_ids(&self) -> (r: Vec<u64>)
        ensures
            r@ == self.keys(),
    {
        proof { lemma_vmap(self.definitions@); }
        let mut r: Vec<u64> = Vec::new();
        let mut i: usize = 0;
        while i < self.definitions.len()
            invariant
                i <= self.definitions@.len(),
                self.entries().len() == self.definitions@.len(),
                forall|j: int| 0 <= j < self.definitions@.len() ==> #[trigger] self.entries()[j] == (self.definitions@[j].0, self.definitions@[j].1@),
                r@ == self.keys().take(i as int),
            decreases self.definitions@.len() - i,
        {
            r.push(self.definitions[i].0);
            i = i + 1;
            assert(r@ =~= self.keys().take(i as int));
        }
        assert(r@ =~= self.keys());
        r
    }

    /// Removes the enum registered under `id`.
    pub fn remove(&mut self, id: u64) -> (r: Option<EnumDefinition>)
        requires
            old(self).wf(),
        ensures
            final(self).wf(),
            final(self).entries() == entries_remove(old(self).entries(), id),
            final(self)@ == old(self)@.remove(id),
            match r {
                Some(d) => old(self)@.contains_key(id) && d@ == old(self)@[id],
                None => !old(self)@.contains_key(id),
            },
    {
        proof { lemma_vmap(self.definitions@); }
        let r = keyed_remove(&mut self.definitions, id);
        proof {
            lemma_vmap(self.definitions@);
            lemma_remove_map(old(self).entries(), id);
        }
        r
    }

    /// The enum registered under `id`.
    pub fn get_by_id(&self, id: u64) -> (r: Option<&EnumDefinition>)
        requires
            self.wf(),
        ensures
            match r {
                Some(d) => self@.contains_key(id) && d@ == self@[id],
                None => !self@.contains_key(id),
            },
    {
        self.get(id)
    }

    /// Moves the enum id counter past every enum id in use (and past 1).
    pub fn reseed_id_counters(&self, ids: &mut IdCounters)
        requires
            self.wf(),
        ensures
            exists|m: u64| #[trigger] self.max_enum_id_is(m) && final(ids).next_enum_def_id == sat_add(m, 1),
            final(ids).next_field_id == old(ids).next_field_id,
            final(ids).next_class_def_id == old(ids).next_class_def_id,
    {
        let mut max_enum_id: u64 = 1;
        let mut i: usize = 0;
        while i < self.definitions.len()
            invariant
                i <= self.definitions@.len(),
                1 <= max_enum_id,
                forall|a: int| 0 <= a < i ==> #[trigger] self.definitions@[a].1.id <= max_enum_id,
                max_enum_id == 1 || exists|a: int| 0 <= a < i && #[trigger] self.definitions@[a].1.id == max_enum_id,
            decreases self.definitions@.len() - i,
        {
            if self.definitions[i].1.id > max_enum_id {
                max_enum_id = self.definitions[i].1.id;
            }
            i = i + 1;
        }
        ids.next_enum_def_id = max_enum_id.saturating_add(1);
        proof {
            let s = self.definitions@;
            assert forall|k: u64| #[trigger] self@.contains_key(k) implies self@[k].id <= max_enum_id by {
                self.lemma_has(k);
            }
            if max_enum_id != 1 {
                let a = choose|a: int| 0 <= a < s.len() && #[trigger] s[a].1.id == max_enum_id;
                self.lemma_at(a);
                assert(self@.contains_key(s[a].0) && self@[s[a].0].id == max_enum_id);
            }
            assert(self.max_enum_id_is(max_enum_id));
        }
    }
}

impl Clone for EnumDefinitionRegistry {
    fn clone(&self) -> (r: Self)
        ensures
            r.entries() == self.entries(),
    {
        let mut v: Vec<(u64, EnumDefinition)> = Vec::new();
        let mut i: usize = 0;
        while i < self.definitions.len()
            invariant
                i <= self.definitions@.len(),
                v@.len() == i,
                forall|j: int| 0 <= j < i ==> (#[trigger] v@[j]).0 == self.definitions@[j].0 && v@[j].1@ == self.definitions@[j].1@,
            decreases self.definitions@.len() - i,
        {
            let e = &self.definitions[i];
            v.push((e.0, e.1.clone()));
            i = i + 1;
        }
        let r = EnumDefinitionRegistry { definitions: v };
        proof {
            lemma_vmap(v@);
            lemma_vmap(self.definitions@);
            assert(r.entries() =~= self.entries());
        }
        r
    }
}

impl Default for EnumDefinitionRegistry {
    fn default() -> (r: Self)
        ensures
            r.wf(),
            r.entries() == Seq::<(u64, EnumDefView)>::empty(),
    {
        Self::new()
    }
}

} // verus!
