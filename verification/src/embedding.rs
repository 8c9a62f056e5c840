//! Changing the class an embedded-instance field holds, refused when it would make a class
//! embed itself.
use vstd::prelude::*;

use crate::cycle::{closes_cycle, embeds, embeds_field, nesting_acyclic, reaches, reaches_within};
use crate::definitions::{ClassDefView, FieldDefinition};
use crate::registry::ClassDefinitionRegistry;
use crate::structure::MemoryStructure;

verus! {

/// The position of the first field with id `id`.
pub open spec fn field_index_of(fs: Seq<FieldDefinition>, id: u64) -> Option<int>
    decreases fs.len(),
{
    if fs.len() == 0 {
        None
    } else if fs[0].id == id {
        Some(0)
    } else {
        match field_index_of(fs.drop_first(), id) {
            Some(i) => Some(i + 1),
            None => None,
        }
    }
}

proof fn lemma_field_index_of(fs: Seq<FieldDefinition>, id: u64, i: int)
    requires
        0 <= i <= fs.len(),
        forall|j: int| 0 <= j < i ==> fs[j].id != id,
    ensures
        i < fs.len() && fs[i].id == id ==> field_index_of(fs, id) == Some(i),
        i == fs.len() ==> field_index_of(fs, id) is None,
    decreases i,
{
    if i > 0 {
        let t = fs.drop_first();
        assert forall|j: int| 0 <= j < i - 1 implies t[j].id != id by {
            assert(t[j] == fs[j + 1]);
        }
        lemma_field_index_of(t, id, i - 1);
    }
}

/// The definition with field `j` embedding class `class_id`.
pub open spec fn embedding_in(d: ClassDefView, j: int, class_id: u64) -> ClassDefView {
    ClassDefView { fields: d.fields.update(j, FieldDefinition { class_id: Some(class_id), ..d.fields[j] }), ..d }
}

/// What became of a request to change the class a field embeds.
#[derive(Debug, PartialEq, Eq, Structural)]
pub enum EmbedChange {
    /// Refused: the owner would embed itself.
    Cycle,
    /// Refused: no class is registered under that id.
    UnknownClass,
    /// The field now embeds the class.
    Changed,
    /// Nothing to change: no definition carries the id, or the owner or its field is missing.
    Unchanged,
}

impl MemoryStructure {
    /// Makes the field with definition id `field_def_id` of class `owner_class_id` embed class
    /// `class_id`, unless that would make the owner embed itself (see `would_create_cycle`) or
    /// no class is registered under `class_id`.
    pub fn change_embedded_class(&mut self, owner_class_id: u64, field_def_id: u64, class_id: u64) -> (r: EmbedChange)
        requires
            old(self).wf(),
        ensures
            final(self).wf(),
            final(self).enum_registry == old(self).enum_registry,
            final(self).root_class == old(self).root_class,
            (owner_class_id == class_id || reaches(old(self).class_registry.lookup(), class_id, owner_class_id)) <==> r
                == EmbedChange::Cycle,
            r == EmbedChange::UnknownClass <==> (r != EmbedChange::Cycle && !old(self).class_registry@.contains_key(class_id)),
            r == EmbedChange::Changed <==> (r != EmbedChange::Cycle && old(self).class_registry@.contains_key(class_id)
                && old(self).class_registry.by_id(class_id) is Some && old(self).class_registry@.contains_key(owner_class_id)
                && field_index_of(old(self).class_registry@[owner_class_id].fields, field_def_id) is Some),
            r == EmbedChange::Changed ==> final(self).class_registry@ == old(self).class_registry@.insert(
                owner_class_id,
                embedding_in(
                    old(self).class_registry@[owner_class_id],
                    field_index_of(old(self).class_registry@[owner_class_id].fields, field_def_id)->0,
                    class_id,
                ),
            ),
            r != EmbedChange::Changed ==> final(self).class_registry@ == old(self).class_registry@,
    {
        if self.would_create_cycle(owner_class_id, class_id) {
            return EmbedChange::Cycle;
        }
        if !self.class_registry.contains(class_id) {
            return EmbedChange::UnknownClass;
        }
        if self.class_registry.get_by_id(class_id).is_none() {
            return EmbedChange::Unchanged;
        }
        match self.class_registry.get_mut(owner_class_id) {
            Some(def) => {
                let mut j: usize = 0;
                while j < def.fields.len() && def.fields[j].id != field_def_id
                    invariant
                        j <= def.fields@.len(),
                        forall|m: int| 0 <= m < j ==> def.fields@[m].id != field_def_id,
                    decreases def.fields@.len() - j,
                {
                    j = j + 1;
                }
                proof {
                    lemma_field_index_of(def.fields@, field_def_id, j as int);
                }
                if j < def.fields.len() {
                    let ghost d0 = def@;
                    let mut g = def.fields[j].clone();
                    g.class_id = Some(class_id);
                    def.set_field_at(j, g);
                    proof {
                        assert(def@ == embedding_in(d0, j as int, class_id));
                    }
                    EmbedChange::Changed
                } else {
                    EmbedChange::Unchanged
                }
            },
            None => EmbedChange::Unchanged,
        }
    }
}

/// An embedding followed by a path is a path one step longer.
proof fn lemma_reach_extend(look: spec_fn(u64) -> Option<ClassDefView>, a: u64, b: u64, y: u64, n: nat)
    requires
        embeds(look, a, b),
        reaches_within(look, b, y, n),
    ensures
        reaches_within(look, a, y, n + 1),
{
}

/// Paths join: reaching `y` from `x` and `z` from `y` reaches `z` from `x`.
proof fn lemma_reach_trans(look: spec_fn(u64) -> Option<ClassDefView>, x: u64, y: u64, z: u64, n: nat, m: nat)
    requires
        reaches_within(look, x, y, n),
        reaches_within(look, y, z, m),
    ensures
        reaches_within(look, x, z, n + m),
    decreases n,
{
    if embeds(look, x, y) {
        lemma_reach_extend(look, x, y, z, m);
        lemma_reach_within_mono(look, x, z, m + 1, n + m);
    } else {
        let w = choose|w: u64| #[trigger] embeds(look, x, w) && reaches_within(look, w, y, (n - 1) as nat);
        lemma_reach_trans(look, w, y, z, (n - 1) as nat, m);
        lemma_reach_extend(look, x, w, z, (n - 1 + m) as nat);
    }
}

/// More steps allowed reach at least as far.
proof fn lemma_reach_within_mono(look: spec_fn(u64) -> Option<ClassDefView>, x: u64, y: u64, n: nat, m: nat)
    requires
        reaches_within(look, x, y, n),
        n <= m,
    ensures
        reaches_within(look, x, y, m),
    decreases n,
{
    if !embeds(look, x, y) {
        let w = choose|w: u64| #[trigger] embeds(look, x, w) && reaches_within(look, w, y, (n - 1) as nat);
        lemma_reach_within_mono(look, w, y, (n - 1) as nat, (m - 1) as nat);
    }
}

/// In a registry whose definitions sit under the ids they carry, the lookup is the map.
pub(crate) proof fn lemma_lookup_is_map(reg: ClassDefinitionRegistry)
    requires
        reg.wf(),
        reg.coherent(),
    ensures
        forall|x: u64| #[trigger] (reg.lookup())(x) == (if reg@.contains_key(x) { Some(reg@[x]) } else { None::<ClassDefView> }),
{
    assert forall|x: u64| #[trigger] (reg.lookup())(x) == (if reg@.contains_key(x) { Some(reg@[x]) } else { None::<ClassDefView> }) by {
        reg.lemma_by_id_coherent(x);
    }
}

/// After the change, every embedding is an old one or the new one, from `owner` to `c`.
proof fn lemma_new_edges(
    l0: spec_fn(u64) -> Option<ClassDefView>,
    l1: spec_fn(u64) -> Option<ClassDefView>,
    owner: u64,
    j: int,
    c: u64,
)
    requires
        l0(owner) is Some,
        0 <= j < l0(owner)->0.fields.len(),
        l1(owner) == Some(embedding_in(l0(owner)->0, j, c)),
        forall|x: u64| x != owner ==> #[trigger] l1(x) == l0(x),
    ensures
        forall|a: u64, b: u64| #[trigger] embeds(l1, a, b) ==> embeds(l0, a, b) || (a == owner && b == c),
{
    assert forall|a: u64, b: u64| #[trigger] embeds(l1, a, b) implies embeds(l0, a, b) || (a == owner && b == c) by {
        if a == owner {
            let d = l0(owner)->0;
            let e = embedding_in(d, j, c);
            let m = choose|m: int| 0 <= m < e.fields.len() && #[trigger] embeds_field(e.fields[m], b);
            if m != j {
                assert(e.fields[m] == d.fields[m]);
                assert(embeds_field(d.fields[m], b));
            }
        } else {
            assert(l1(a) == l0(a));
        }
    }
}

/// A path after the change either existed before, or leads from a class reaching `owner`
/// before the change through the new embedding and on from `c`.
proof fn lemma_new_paths(
    l0: spec_fn(u64) -> Option<ClassDefView>,
    l1: spec_fn(u64) -> Option<ClassDefView>,
    owner: u64,
    c: u64,
    x: u64,
    y: u64,
    n: nat,
)
    requires
        forall|a: u64, b: u64| #[trigger] embeds(l1, a, b) ==> embeds(l0, a, b) || (a == owner && b == c),
        reaches_within(l1, x, y, n),
    ensures
        reaches_within(l0, x, y, n) || ((x == owner || reaches(l0, x, owner)) && (c == y || reaches(l1, c, y))),
    decreases n,
{
    if embeds(l1, x, y) {
    } else {
        let z = choose|z: u64| #[trigger] embeds(l1, x, z) && reaches_within(l1, z, y, (n - 1) as nat);
        lemma_new_paths(l0, l1, owner, c, z, y, (n - 1) as nat);
        if embeds(l0, x, z) {
            if reaches_within(l0, z, y, (n - 1) as nat) {
                lemma_reach_extend(l0, x, z, y, (n - 1) as nat);
            } else if z == owner {
                assert(reaches_within(l0, x, owner, 1));
            } else {
                let k = choose|k: nat| #[trigger] reaches_within(l0, z, owner, k);
                lemma_reach_extend(l0, x, z, owner, k);
            }
        } else {
            assert(reaches_within(l1, c, y, (n - 1) as nat));
        }
    }
}

/// No embedding closes a cycle: no class embeds one that is itself or reaches it.
pub open spec fn edges_acyclic(look: spec_fn(u64) -> Option<ClassDefView>) -> bool {
    forall|k: u64, t: u64| #[trigger] embeds(look, k, t) ==> !(k == t || reaches(look, t, k))
}

/// For definitions registered under the ids they carry, `nesting_acyclic` says that no
/// embedding closes a cycle.
pub(crate) proof fn lemma_nesting_acyclic_edges(ms: MemoryStructure)
    requires
        ms.wf(),
        ms.class_registry.coherent(),
    ensures
        nesting_acyclic(ms) <==> edges_acyclic(ms.class_registry.lookup()),
{
    let r = ms.class_registry;
    let l = r.lookup();
    lemma_lookup_is_map(r);
    r.lemma_value_ids();
    if nesting_acyclic(ms) {
        assert forall|k: u64, t: u64| #[trigger] embeds(l, k, t) implies !(k == t || reaches(l, t, k)) by {
            assert(l(k) == Some(r@[k]));
            let m = choose|m: int| 0 <= m < r@[k].fields.len() && #[trigger] embeds_field(r@[k].fields[m], t);
            assert(r.value_ids().contains(k));
            let i = choose|i: int| 0 <= i < r.value_ids().len() && r.value_ids()[i] == k;
            assert(r@[r.value_ids()[i]].fields[m] == r@[k].fields[m]);
            assert(!closes_cycle(ms, r.value_ids()[i], m));
        }
    }
    if edges_acyclic(l) {
        assert forall|i: int, m: int|
            #![trigger r.value_ids()[i], r@[r.value_ids()[i]].fields[m]]
            0 <= i < r.value_ids().len() && r@.contains_key(r.value_ids()[i]) && 0 <= m < r@[r.value_ids()[i]].fields.len()
                implies !closes_cycle(ms, r.value_ids()[i], m) by {
            let k = r.value_ids()[i];
            if closes_cycle(ms, k, m) {
                let t = r@[k].fields[m].class_id->0;
                assert(embeds_field(r@[k].fields[m], t));
                assert(embeds(l, k, t));
            }
        }
    }
}

/// Adding the one embedding from `owner` to `c`, where `c` is not `owner` and does not reach
/// it, to embeddings without cycles leaves them without cycles.
pub(crate) proof fn lemma_new_edge_acyclic(
    l0: spec_fn(u64) -> Option<ClassDefView>,
    l1: spec_fn(u64) -> Option<ClassDefView>,
    owner: u64,
    c: u64,
)
    requires
        edges_acyclic(l0),
        forall|a: u64, b: u64| #[trigger] embeds(l1, a, b) ==> embeds(l0, a, b) || (a == owner && b == c),
        c != owner,
        !reaches(l0, c, owner),
    ensures
        edges_acyclic(l1),
{
    assert forall|k: u64, t: u64| #[trigger] embeds(l1, k, t) implies !(k == t || reaches(l1, t, k)) by {
        if k == t || reaches(l1, t, k) {
            if embeds(l0, k, t) {
                assert(k != t);
                let n = choose|n: nat| #[trigger] reaches_within(l1, t, k, n);
                lemma_new_paths(l0, l1, owner, c, t, k, n);
                if reaches_within(l0, t, k, n) {
                    assert(reaches(l0, t, k));
                } else {
                    let to_owner: nat = if t == owner {
                        assert(reaches_within(l0, k, owner, 1));
                        1
                    } else {
                        let q = choose|q: nat| #[trigger] reaches_within(l0, t, owner, q);
                        lemma_reach_extend(l0, k, t, owner, q);
                        q + 1
                    };
                    if c == k {
                        assert(reaches(l0, c, owner));
                    } else {
                        let p = choose|p: nat| #[trigger] reaches_within(l1, c, k, p);
                        lemma_new_paths(l0, l1, owner, c, c, k, p);
                        if reaches_within(l0, c, k, p) {
                            lemma_reach_trans(l0, c, k, owner, p, to_owner);
                            assert(reaches(l0, c, owner));
                        }
                    }
                }
            } else {
                assert(k == owner && t == c);
                let n = choose|n: nat| #[trigger] reaches_within(l1, c, owner, n);
                lemma_new_paths(l0, l1, owner, c, c, owner, n);
                if reaches_within(l0, c, owner, n) {
                    assert(reaches(l0, c, owner));
                }
            }
        }
    }
}

/// A change the cycle check lets through keeps the nesting free of cycles: when no class
/// embedded itself before, none does after making a field of `owner` embed class `c`.
/// (The definitions are registered under the ids they carry.)
pub proof fn law_accepted_embedding_keeps_nesting_acyclic(
    before: MemoryStructure,
    after: MemoryStructure,
    owner: u64,
    field_def_id: u64,
    c: u64,
)
    requires
        before.wf(),
        after.wf(),
        before.class_registry.coherent(),
        nesting_acyclic(before),
        !(owner == c || reaches(before.class_registry.lookup(), c, owner)),
        before.class_registry@.contains_key(owner),
        field_index_of(before.class_registry@[owner].fields, field_def_id) is Some,
        after.class_registry@ == before.class_registry@.insert(
            owner,
            embedding_in(
                before.class_registry@[owner],
                field_index_of(before.class_registry@[owner].fields, field_def_id)->0,
                c,
            ),
        ),
    ensures
        nesting_acyclic(after),
{
    let b = before.class_registry;
    let a = after.class_registry;
    let j = field_index_of(b@[owner].fields, field_def_id)->0;
    lemma_field_index_bounds(b@[owner].fields, field_def_id);
    assert(a.coherent());
    let l0 = b.lookup();
    let l1 = a.lookup();
    lemma_lookup_is_map(b);
    lemma_lookup_is_map(a);
    assert(l0(owner) == Some(b@[owner]));
    assert(l1(owner) == Some(embedding_in(b@[owner], j, c)));
    assert forall|x: u64| x != owner implies #[trigger] l1(x) == l0(x) by {}
    lemma_new_edges(l0, l1, owner, j, c);
    lemma_nesting_acyclic_edges(before);
    lemma_new_edge_acyclic(l0, l1, owner, c);
    lemma_nesting_acyclic_edges(after);
}

proof fn lemma_field_index_bounds(fs: Seq<FieldDefinition>, id: u64)
    ensures
        field_index_of(fs, id) matches Some(i) ==> 0 <= i < fs.len() && fs[i].id == id,
    decreases fs.len(),
{
    if fs.len() > 0 && fs[0].id != id {
        lemma_field_index_bounds(fs.drop_first(), id);
        if let Some(i) = field_index_of(fs.drop_first(), id) {
            assert(fs.drop_first()[i] == fs[i + 1]);
        }
    }
}

} // verus!
