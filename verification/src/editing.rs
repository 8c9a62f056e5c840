//! Edits made to a memory structure from a field's context menu: changing a field's type,
//! creating a fresh class for a field to embed or point at, choosing what a pointer points at,
//! an array's element and length, and an enum field's enum.
use vstd::prelude::*;

use crate::definitions::{
    laid_out, plain_field, relaid, renamed_for_type, retyped, with_type_default, ClassDefView, ClassDefinition,
    FieldDefinition, IdCounters,
};
use crate::cycle::{embeds, embeds_field, nesting_acyclic, reaches, reaches_within};
use crate::embedding::{lemma_lookup_is_map, lemma_nesting_acyclic_edges, lemma_new_edge_acyclic};
use crate::naming::{fresh_class_name, generate_unique_class_name};
use crate::registry::EnumDefinitionRegistry;
use crate::structure::MemoryStructure;
use crate::types::{FieldType, PointerTarget};

verus! {

/// A class with one unnamed eight-byte hex field at offset 0.
pub open spec fn placeholder_class(id: u64, name: Seq<char>, field_id: u64) -> ClassDefView {
    ClassDefView {
        id,
        name,
        fields: seq![plain_field(field_id, None, FieldType::Hex64, 0)],
        total_size: 8,
        entry_offset: None,
    }
}

/// The first registered enum, in registry order.
pub open spec fn first_enum(registry: EnumDefinitionRegistry) -> Option<u64> {
    if registry.keys().len() > 0 {
        Some(registry.keys()[0])
    } else {
        None
    }
}

/// `after` is `before` with field `index` retyped to `t` and then changed by the given
/// class, pointer and enum settings.
pub open spec fn field_retyped(
    before: ClassDefView,
    after: ClassDefView,
    index: int,
    t: FieldType,
    default_enum: Option<u64>,
) -> bool {
    let f = before.fields[index];
    let g = after.fields[index];
    &&& after.fields.len() == before.fields.len()
    &&& renamed_for_type(f.name, t, index, g.name)
    &&& after.fields == relaid(
        before.fields.update(
            index,
            with_type_default(FieldDefinition { name: g.name, ..retyped(f, t, index) }, t, default_enum),
        ),
    )
    &&& after.id == before.id
    &&& after.name == before.name
    &&& after.entry_offset == before.entry_offset
    &&& laid_out(after)
}

/// `after` is `before` with field `index` turned into an embedded instance of class `class_id`.
pub open spec fn field_embeds(before: ClassDefView, after: ClassDefView, index: int, class_id: u64) -> bool {
    let f = before.fields[index];
    let g = after.fields[index];
    &&& after.fields.len() == before.fields.len()
    &&& renamed_for_type(f.name, FieldType::ClassInstance, index, g.name)
    &&& after.fields == relaid(
        before.fields.update(
            index,
            FieldDefinition { name: g.name, class_id: Some(class_id), ..retyped(f, FieldType::ClassInstance, index) },
        ),
    )
    &&& after.id == before.id
    &&& after.name == before.name
    &&& after.entry_offset == before.entry_offset
    &&& laid_out(after)
}

impl MemoryStructure {
    /// Changes the type of field `index` of class `owner_id`; a new pointer field points at
    /// `Hex64` and a new enum field takes the first registered enum. `false`, with nothing
    /// changed, when there is no such class.
    pub fn change_field_type(&mut self, owner_id: u64, index: usize, new_type: FieldType) -> (found: bool)
        requires
            old(self).wf(),
        ensures
            final(self).wf(),
            final(self).enum_registry == old(self).enum_registry,
            final(self).root_class == old(self).root_class,
            found == old(self).class_registry@.contains_key(owner_id),
            !found ==> final(self).class_registry@ == old(self).class_registry@,
            found && index < old(self).class_registry@[owner_id].fields.len() ==> {
                &&& final(self).class_registry@ == old(self).class_registry@.insert(
                    owner_id,
                    final(self).class_registry@[owner_id],
                )
                &&& field_retyped(
                    old(self).class_registry@[owner_id],
                    final(self).class_registry@[owner_id],
                    index as int,
                    new_type,
                    first_enum(old(self).enum_registry),
                )
            },
            found && index >= old(self).class_registry@[owner_id].fields.len() ==> final(self).class_registry@
                == old(self).class_registry@,
    {
        let enum_ids = self.enum_registry.get_enum_ids();
        let default_enum = if enum_ids.len() > 0 {
            Some(enum_ids[0])
        } else {
            None
        };
        match self.class_registry.get_mut(owner_id) {
            Some(def) => {
                def.change_field_type_at(index, new_type, default_enum);
                true
            },
            None => false,
        }
    }

    /// A fresh class named after `NewClass` holding one `Hex64` field.
    fn new_placeholder_class(&self, ids: &mut IdCounters) -> (r: ClassDefinition)
        requires
            self.wf(),
        ensures
            r@ == placeholder_class(
                old(ids).next_class_def_id,
                fresh_class_name(self.class_registry, "NewClass"@),
                old(ids).next_field_id,
            ),
            !self.class_registry.has_name(r.name@),
            final(ids).next_class_def_id == crate::definitions::bump(old(ids).next_class_def_id),
            final(ids).next_field_id == crate::definitions::bump(old(ids).next_field_id),
            final(ids).next_enum_def_id == old(ids).next_enum_def_id,
    {
        let name = generate_unique_class_name(&self.class_registry, "NewClass");
        let mut def = ClassDefinition::new(ids, name);
        def.add_hex_field(ids, FieldType::Hex64);
        proof {
            assert(def.fields@ =~= seq![plain_field(old(ids).next_field_id, None, FieldType::Hex64, 0)]);
        }
        def
    }

    /// Registers a fresh class named after `NewClass` with one `Hex64` field and makes field
    /// `index` of class `owner_id` an embedded instance of it; the new class is registered
    /// even when there is no such field. Returns the new class's id.
    pub fn create_class_from_field(&mut self, ids: &mut IdCounters, owner_id: u64, index: usize) -> (new_id: u64)
        requires
            old(self).wf(),
        ensures
            final(self).wf(),
            final(self).enum_registry == old(self).enum_registry,
            final(self).root_class == old(self).root_class,
            new_id == old(ids).next_class_def_id,
            !old(self).class_registry.has_name(fresh_class_name(old(self).class_registry, "NewClass"@)),
            final(ids).next_class_def_id == crate::definitions::bump(old(ids).next_class_def_id),
            final(ids).next_field_id == crate::definitions::bump(old(ids).next_field_id),
            final(ids).next_enum_def_id == old(ids).next_enum_def_id,
            ({
                let mid = old(self).class_registry@.insert(
                    new_id,
                    placeholder_class(new_id, fresh_class_name(old(self).class_registry, "NewClass"@), old(ids).next_field_id),
                );
                if mid.contains_key(owner_id) && index < mid[owner_id].fields.len() {
                    &&& final(self).class_registry@ == mid.insert(owner_id, final(self).class_registry@[owner_id])
                    &&& field_embeds(mid[owner_id], final(self).class_registry@[owner_id], index as int, new_id)
                } else {
                    final(self).class_registry@ == mid
                }
            }),
    {
        let def = self.new_placeholder_class(ids);
        let new_id = def.id;
        self.class_registry.register(def);
        let ghost mid = self.class_registry@;
        match self.class_registry.get_mut(owner_id) {
            Some(owner) => {
                if index < owner.fields.len() {
                    let ghost before = owner.fields@;
                    owner.set_field_type_at(index, FieldType::ClassInstance);
                    let mut g = owner.fields[index].clone();
                    g.class_id = Some(new_id);
                    let ghost mid_fields = owner.fields@;
                    owner.replace_field_in_place(index, g);
                    proof {
                        let y = before.update(
                            index as int,
                            FieldDefinition {
                                name: mid_fields[index as int].name,
                                ..retyped(before[index as int], FieldType::ClassInstance, index as int)
                            },
                        );
                        let h = FieldDefinition { class_id: Some(new_id), ..y[index as int] };
                        crate::definitions::lemma_relaid_same_type_update(y, index as int, h);
                        assert(relaid(y.update(index as int, h)) == owner.fields@);
                        assert(y.update(index as int, h) == before.update(
                            index as int,
                            FieldDefinition {
                                name: owner.fields@[index as int].name,
                                class_id: Some(new_id),
                                ..retyped(before[index as int], FieldType::ClassInstance, index as int)
                            },
                        ));
                    }
                }
            },
            None => {},
        }
        new_id
    }

    /// Registers a fresh class named after `NewClass` with one `Hex64` field and makes field
    /// `index` of class `owner_id` (a pointer field) point at it; the new class is registered
    /// even when there is no such field. Returns the new class's id.
    pub fn create_pointer_target_class(&mut self, ids: &mut IdCounters, owner_id: u64, index: usize) -> (new_id: u64)
        requires
            old(self).wf(),
        ensures
            final(self).wf(),
            final(self).enum_registry == old(self).enum_registry,
            final(self).root_class == old(self).root_class,
            new_id == old(ids).next_class_def_id,
            !old(self).class_registry.has_name(fresh_class_name(old(self).class_registry, "NewClass"@)),
            final(ids).next_class_def_id == crate::definitions::bump(old(ids).next_class_def_id),
            final(ids).next_field_id == crate::definitions::bump(old(ids).next_field_id),
            final(ids).next_enum_def_id == old(ids).next_enum_def_id,
            ({
                let mid = old(self).class_registry@.insert(
                    new_id,
                    placeholder_class(new_id, fresh_class_name(old(self).class_registry, "NewClass"@), old(ids).next_field_id),
                );
                if mid.contains_key(owner_id) && index < mid[owner_id].fields.len() {
                    let d = mid[owner_id];
                    final(self).class_registry@ == mid.insert(
                        owner_id,
                        ClassDefView {
                            fields: d.fields.update(
                                index as int,
                                FieldDefinition { pointer_target: Some(PointerTarget::ClassId(new_id)), ..d.fields[index as int] },
                            ),
                            ..d
                        },
                    )
                } else {
                    final(self).class_registry@ == mid
                }
            }),
    {
        let def = self.new_placeholder_class(ids);
        let new_id = def.id;
        self.class_registry.register(def);
        match self.class_registry.get_mut(owner_id) {
            Some(owner) => {
                if index < owner.fields.len() {
                    let mut g = owner.fields[index].clone();
                    g.pointer_target = Some(PointerTarget::ClassId(new_id));
                    owner.set_field_at(index, g);
                }
            },
            None => {},
        }
        new_id
    }
}

/// Creating a class for a field to embed keeps the nesting free of cycles: the new class
/// embeds nothing, so the one new embedding, from `owner` to it, closes no cycle. (The
/// definitions are registered under the ids they carry, the new id is not in use, and it is
/// not the owner's.)
pub proof fn law_created_class_keeps_nesting_acyclic(
    before: MemoryStructure,
    after: MemoryStructure,
    owner: u64,
    index: int,
    new_id: u64,
    name: Seq<char>,
    field_id: u64,
)
    requires
        before.wf(),
        after.wf(),
        before.class_registry.coherent(),
        nesting_acyclic(before),
        !before.class_registry@.contains_key(new_id),
        owner != new_id,
        ({
            let mid = before.class_registry@.insert(new_id, placeholder_class(new_id, name, field_id));
            if mid.contains_key(owner) && 0 <= index < mid[owner].fields.len() {
                &&& after.class_registry@ == mid.insert(owner, after.class_registry@[owner])
                &&& field_embeds(mid[owner], after.class_registry@[owner], index, new_id)
            } else {
                after.class_registry@ == mid
            }
        }),
    ensures
        nesting_acyclic(after),
{
    let b = before.class_registry;
    let a = after.class_registry;
    let mid = b@.insert(new_id, placeholder_class(new_id, name, field_id));
    assert(a.coherent());
    let l0 = b.lookup();
    let l1 = a.lookup();
    lemma_lookup_is_map(b);
    lemma_lookup_is_map(a);
    assert forall|x: u64, y: u64| #[trigger] embeds(l1, x, y) implies embeds(l0, x, y) || (x == owner && y == new_id) by {
        assert(l1(x) == Some(a@[x]));
        let m = choose|m: int| 0 <= m < a@[x].fields.len() && #[trigger] embeds_field(a@[x].fields[m], y);
        if x == new_id {
            assert(a@[x] == placeholder_class(new_id, name, field_id));
        } else if x == owner && mid.contains_key(owner) && 0 <= index < mid[owner].fields.len() {
            if m != index {
                let d = mid[owner];
                let upd = d.fields.update(
                    index,
                    FieldDefinition {
                        name: a@[owner].fields[index].name,
                        class_id: Some(new_id),
                        ..retyped(d.fields[index], FieldType::ClassInstance, index)
                    },
                );
                assert(a@[owner].fields[m] == relaid(upd)[m]);
                assert(upd[m] == d.fields[m]);
                assert(embeds_field(b@[owner].fields[m], y));
                assert(l0(owner) == Some(b@[owner]));
            }
        } else {
            assert(a@[x] == b@[x]);
            assert(l0(x) == Some(b@[x]));
        }
    }
    assert(!reaches(l0, new_id, owner)) by {
        assert forall|n: nat| !#[trigger] reaches_within(l0, new_id, owner, n) by {
            assert(l0(new_id) is None);
        }
    }
    lemma_nesting_acyclic_edges(before);
    lemma_new_edge_acyclic(l0, l1, owner, new_id);
    lemma_nesting_acyclic_edges(after);
}


/// `reg` with field `index` of class `owner` replaced by `edit` of it, when that class has a
/// field at `index` of type `kind`; `reg` itself otherwise.
pub open spec fn field_edited(
    reg: Map<u64, ClassDefView>,
    owner: u64,
    index: int,
    kind: FieldType,
    edit: spec_fn(FieldDefinition) -> FieldDefinition,
) -> Map<u64, ClassDefView> {
    if field_of_kind(reg, owner, index, kind) {
        let d = reg[owner];
        reg.insert(owner, ClassDefView { fields: d.fields.update(index, edit(d.fields[index])), ..d })
    } else {
        reg
    }
}

/// Class `owner` is registered in `reg` and has a field of type `kind` at `index`.
pub open spec fn field_of_kind(reg: Map<u64, ClassDefView>, owner: u64, index: int, kind: FieldType) -> bool {
    &&& reg.contains_key(owner)
    &&& 0 <= index < reg[owner].fields.len()
    &&& reg[owner].fields[index].field_type == kind
}

/// What choosing primitive `t` as a pointer or array target sets: the first registered enum
/// for `Enum` (a `UInt32` when there is none), `t` itself otherwise.
pub open spec fn primitive_target(t: FieldType, default_enum: Option<u64>) -> PointerTarget {
    if t == FieldType::Enum {
        match default_enum {
            Some(e) => PointerTarget::EnumId(e),
            None => PointerTarget::FieldType(FieldType::UInt32),
        }
    } else {
        PointerTarget::FieldType(t)
    }
}

impl MemoryStructure {
    /// Replaces field `index` of class `owner_id` by `g` when that field has type `kind`;
    /// `g` keeps the field's type and offset.
    fn edit_field_of_kind(&mut self, owner_id: u64, index: usize, kind: FieldType, g: FieldDefinition) -> (edited: bool)
        requires
            old(self).wf(),
            field_of_kind(old(self).class_registry@, owner_id, index as int, kind) ==> {
                let f = old(self).class_registry@[owner_id].fields[index as int];
                g.field_type == f.field_type && g.offset == f.offset && g.id == f.id
            },
        ensures
            final(self).wf(),
            final(self).enum_registry == old(self).enum_registry,
            final(self).root_class == old(self).root_class,
            edited == field_of_kind(old(self).class_registry@, owner_id, index as int, kind),
            edited ==> ({
                let d = old(self).class_registry@[owner_id];
                final(self).class_registry@ == old(self).class_registry@.insert(
                    owner_id,
                    ClassDefView { fields: d.fields.update(index as int, g), ..d },
                )
            }),
            !edited ==> final(self).class_registry@ == old(self).class_registry@,
    {
        match self.class_registry.get_mut(owner_id) {
            Some(owner) => {
                if index < owner.fields.len() && owner.fields[index].field_type == kind {
                    owner.set_field_at(index, g);
                    true
                } else {
                    false
                }
            },
            None => false,
        }
    }

    /// The field at `index` of class `owner_id`, when there is one.
    fn field_at(&self, owner_id: u64, index: usize) -> (r: Option<FieldDefinition>)
        requires
            self.wf(),
        ensures
            match r {
                Some(f) => self.class_registry@.contains_key(owner_id) && index < self.class_registry@[owner_id].fields.len()
                    && f == self.class_registry@[owner_id].fields[index as int],
                None => !(self.class_registry@.contains_key(owner_id) && index < self.class_registry@[owner_id].fields.len()),
            },
    {
        match self.class_registry.get(owner_id) {
            Some(d) => {
                if index < d.fields.len() {
                    Some(d.fields[index].clone())
                } else {
                    None
                }
            },
            None => None,
        }
    }

    /// Points pointer field `index` of class `owner_id` at `target`. `false`, with nothing
    /// changed, when there is no such pointer field.
    pub fn set_pointer_target(&mut self, owner_id: u64, index: usize, target: PointerTarget) -> (edited: bool)
        requires
            old(self).wf(),
        ensures
            final(self).wf(),
            final(self).enum_registry == old(self).enum_registry,
            final(self).root_class == old(self).root_class,
            edited == field_of_kind(old(self).class_registry@, owner_id, index as int, FieldType::Pointer),
            final(self).class_registry@ == field_edited(
                old(self).class_registry@,
                owner_id,
                index as int,
                FieldType::Pointer,
                (|f: FieldDefinition| FieldDefinition { pointer_target: Some(target), ..f }),
            ),
    {
        match self.field_at(owner_id, index) {
            Some(f) => {
                let g = FieldDefinition { pointer_target: Some(target), ..f };
                self.edit_field_of_kind(owner_id, index, FieldType::Pointer, g)
            },
            None => false,
        }
    }

    /// The first registered enum, if any.
    fn default_enum(&self) -> (r: Option<u64>)
        requires
            self.wf(),
        ensures
            r == first_enum(self.enum_registry),
    {
        let enum_ids = self.enum_registry.get_enum_ids();
        if enum_ids.len() > 0 {
            Some(enum_ids[0])
        } else {
            None
        }
    }

    /// Points pointer field `index` of class `owner_id` at primitive `t`; choosing `Enum`
    /// points it at the first registered enum, or at a `UInt32` when there is none. `false`,
    /// with nothing changed, when there is no such pointer field.
    pub fn set_pointer_primitive(&mut self, owner_id: u64, index: usize, t: FieldType) -> (edited: bool)
        requires
            old(self).wf(),
        ensures
            final(self).wf(),
            final(self).enum_registry == old(self).enum_registry,
            final(self).root_class == old(self).root_class,
            edited == field_of_kind(old(self).class_registry@, owner_id, index as int, FieldType::Pointer),
            final(self).class_registry@ == field_edited(
                old(self).class_registry@,
                owner_id,
                index as int,
                FieldType::Pointer,
                (|f: FieldDefinition|
                    FieldDefinition {
                        pointer_target: Some(primitive_target(t, first_enum(old(self).enum_registry))),
                        ..f
                    }),
            ),
    {
        let target = primitive_of(t, self.default_enum());
        self.set_pointer_target(owner_id, index, target)
    }

    /// Makes `element` the element of array field `index` of class `owner_id`. `false`, with
    /// nothing changed, when there is no such array field.
    pub fn set_array_element(&mut self, owner_id: u64, index: usize, element: PointerTarget) -> (edited: bool)
        requires
            old(self).wf(),
        ensures
            final(self).wf(),
            final(self).enum_registry == old(self).enum_registry,
            final(self).root_class == old(self).root_class,
            edited == field_of_kind(old(self).class_registry@, owner_id, index as int, FieldType::Array),
            final(self).class_registry@ == field_edited(
                old(self).class_registry@,
                owner_id,
                index as int,
                FieldType::Array,
                (|f: FieldDefinition| FieldDefinition { array_element: Some(element), ..f }),
            ),
    {
        match self.field_at(owner_id, index) {
            Some(f) => {
                let g = FieldDefinition { array_element: Some(element), ..f };
                self.edit_field_of_kind(owner_id, index, FieldType::Array, g)
            },
            None => false,
        }
    }

    /// Makes primitive `t` the element of array field `index` of class `owner_id`; choosing
    /// `Enum` takes the first registered enum, or a `UInt32` when there is none. `false`, with
    /// nothing changed, when there is no such array field.
    pub fn set_array_primitive(&mut self, owner_id: u64, index: usize, t: FieldType) -> (edited: bool)
        requires
            old(self).wf(),
        ensures
            final(self).wf(),
            final(self).enum_registry == old(self).enum_registry,
            final(self).root_class == old(self).root_class,
            edited == field_of_kind(old(self).class_registry@, owner_id, index as int, FieldType::Array),
            final(self).class_registry@ == field_edited(
                old(self).class_registry@,
                owner_id,
                index as int,
                FieldType::Array,
                (|f: FieldDefinition|
                    FieldDefinition {
                        array_element: Some(primitive_target(t, first_enum(old(self).enum_registry))),
                        ..f
                    }),
            ),
    {
        let element = primitive_of(t, self.default_enum());
        self.set_array_element(owner_id, index, element)
    }

    /// Sets the length of array field `index` of class `owner_id`. `false`, with nothing
    /// changed, when there is no such array field.
    pub fn set_array_length(&mut self, owner_id: u64, index: usize, length: u32) -> (edited: bool)
        requires
            old(self).wf(),
        ensures
            final(self).wf(),
            final(self).enum_registry == old(self).enum_registry,
            final(self).root_class == old(self).root_class,
            edited == field_of_kind(old(self).class_registry@, owner_id, index as int, FieldType::Array),
            final(self).class_registry@ == field_edited(
                old(self).class_registry@,
                owner_id,
                index as int,
                FieldType::Array,
                (|f: FieldDefinition| FieldDefinition { array_length: Some(length), ..f }),
            ),
    {
        match self.field_at(owner_id, index) {
            Some(f) => {
                let g = FieldDefinition { array_length: Some(length), ..f };
                self.edit_field_of_kind(owner_id, index, FieldType::Array, g)
            },
            None => false,
        }
    }

    /// Makes enum field `index` of class `owner_id` take enum `enum_id`. Nothing changes, and
    /// the answer is `false`, unless there is such an enum field, `enum_id` is registered and
    /// the field does not take it already.
    pub fn set_field_enum(&mut self, owner_id: u64, index: usize, enum_id: u64) -> (edited: bool)
        requires
            old(self).wf(),
        ensures
            final(self).wf(),
            final(self).enum_registry == old(self).enum_registry,
            final(self).root_class == old(self).root_class,
            edited == (field_of_kind(old(self).class_registry@, owner_id, index as int, FieldType::Enum)
                && old(self).enum_registry@.contains_key(enum_id)
                && old(self).class_registry@[owner_id].fields[index as int].enum_id != Some(enum_id)),
            final(self).class_registry@ == if edited {
                field_edited(
                    old(self).class_registry@,
                    owner_id,
                    index as int,
                    FieldType::Enum,
                    (|f: FieldDefinition| FieldDefinition { enum_id: Some(enum_id), ..f }),
                )
            } else {
                old(self).class_registry@
            },
    {
        if !self.enum_registry.contains(enum_id) {
            return false;
        }
        match self.field_at(owner_id, index) {
            Some(f) => {
                let same = match f.enum_id {
                    Some(e) => e == enum_id,
                    None => false,
                };
                if same {
                    false
                } else {
                    let g = FieldDefinition { enum_id: Some(enum_id), ..f };
                    self.edit_field_of_kind(owner_id, index, FieldType::Enum, g)
                }
            },
            None => false,
        }
    }
}

/// The target that choosing primitive `t` sets, given the first registered enum.
fn primitive_of(t: FieldType, default_enum: Option<u64>) -> (r: PointerTarget)
    ensures
        r == primitive_target(t, default_enum),
{
    if t == FieldType::Enum {
        match default_enum {
            Some(e) => PointerTarget::EnumId(e),
            None => PointerTarget::FieldType(FieldType::UInt32),
        }
    } else {
        PointerTarget::FieldType(t)
    }
}

} // verus!
