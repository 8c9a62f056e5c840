//! A memory structure: the root instance and the definitions it is built from, and keeping
//! the root in step with them.
use vstd::prelude::*;

use crate::definitions::{ClassDefView, ClassDefinition, EnumDefView, FieldDefinition};
use crate::types::{FieldType, PointerTarget};
use crate::keyed::{entries_insert, entries_remove, key_map};
use crate::nodes::{
    bind_inst, build_nested_for_instance, clone_instance, layout_inst, layout_size, lemma_bind_inst_unique, new_instance_fits,
    try_build_nested, lemma_layout_inst_address, lemma_layout_keeps, new_instance,
    recalc_instance_layout, ClassInstance, InstanceView,
};
use crate::registry::{lookup_in, ClassDefinitionRegistry, EnumDefinitionRegistry};

verus! {

/// A pointer or array target names enum `enum_id`: directly, or as the element of an array.
pub open spec fn target_names_enum(t: Option<PointerTarget>, enum_id: u64) -> bool {
    match t {
        Some(PointerTarget::EnumId(e)) => e == enum_id,
        Some(PointerTarget::Array { element, .. }) => match *element {
            PointerTarget::EnumId(e) => e == enum_id,
            _ => false,
        },
        _ => false,
    }
}

/// A field refers to enum `enum_id`: an enum field of that enum, or a field whose pointer
/// target or array element names it.
pub open spec fn refers_to_enum(f: FieldDefinition, enum_id: u64) -> bool {
    ||| f.field_type == FieldType::Enum && f.enum_id == Some(enum_id)
    ||| target_names_enum(f.pointer_target, enum_id)
    ||| target_names_enum(f.array_element, enum_id)
}

/// Whether the target names enum `enum_id` (see `target_names_enum`).
fn names_enum(t: &Option<PointerTarget>, enum_id: u64) -> (r: bool)
    ensures
        r == target_names_enum(*t, enum_id),
{
    match t {
        Some(PointerTarget::EnumId(e)) => *e == enum_id,
        Some(PointerTarget::Array { element, .. }) => match &**element {
            PointerTarget::EnumId(e) => *e == enum_id,
            _ => false,
        },
        _ => false,
    }
}

/// The instance with all nested class instances bound, when the nesting ends.
pub open spec fn bound(look: spec_fn(u64) -> Option<ClassDefView>, inst: InstanceView) -> Option<InstanceView> {
    if exists|fuel: nat| #[trigger] bind_inst(look, inst, fuel) is Some {
        bind_inst(look, inst, choose|fuel: nat| #[trigger] bind_inst(look, inst, fuel) is Some)
    } else {
        None
    }
}

/// Binds the nested instances of `inst` and lays it out with the enum sizes of `er`.
pub open spec fn bound_and_laid_out(
    er: Map<u64, EnumDefView>,
    look: spec_fn(u64) -> Option<ClassDefView>,
    inst: InstanceView,
) -> Option<InstanceView> {
    match bound(look, inst) {
        Some(b) => layout_inst(er, look, b, inst.address),
        None => None,
    }
}

/// A fresh instance of `d` named `name` at `address`, with its nesting bound and laid out.
pub open spec fn rebuilt(
    er: Map<u64, EnumDefView>,
    look: spec_fn(u64) -> Option<ClassDefView>,
    name: Seq<char>,
    address: u64,
    d: ClassDefView,
) -> Option<InstanceView> {
    match new_instance(name, address, d) {
        Some(i0) => bound_and_laid_out(er, look, i0),
        None => None,
    }
}

/// The registry entries after the class under `id` has been taken out, renamed and
/// registered again under the id it carries.
pub open spec fn class_renamed(s: Seq<(u64, ClassDefView)>, id: u64, name: Seq<char>) -> Seq<(u64, ClassDefView)> {
    let d = key_map(s)[id];
    entries_insert(entries_remove(s, id), d.id, ClassDefView { name, ..d })
}

/// The enum definitions after the enum under `id` has been taken out, renamed and
/// registered again under the id it carries.
pub open spec fn enum_renamed(m: Map<u64, EnumDefView>, id: u64, name: Seq<char>) -> Map<u64, EnumDefView> {
    let d = m[id];
    m.remove(id).insert(d.id, EnumDefView { name, ..d })
}

/// A fresh root of class `class_id`, with the root's name and address, fits: its fields fit
/// in `u64`, its nested instances bind within `u64::MAX` levels, and the bound instance lays
/// out within `u64`.
pub open spec fn fresh_root_fits(ms: MemoryStructure, class_id: u64) -> bool {
    match new_instance(ms.root_class.name@, ms.root_class.address, ms.class_registry@[class_id]) {
        Some(i0) => match bind_inst(ms.class_registry.lookup(), i0, u64::MAX as nat) {
            Some(b) => layout_inst(ms.enum_registry@, ms.class_registry.lookup(), b, ms.root_class.address) is Some,
            None => false,
        },
        None => false,
    }
}

/// The root memory structure: the root instance and the class and enum definitions.
#[derive(Debug)]
pub struct MemoryStructure {
    pub root_class: ClassInstance,
    pub class_registry: ClassDefinitionRegistry,
    pub enum_registry: EnumDefinitionRegistry,
}

impl MemoryStructure {
    /// Both registries hold each key once.
    pub open spec fn wf(&self) -> bool {
        self.class_registry.wf() && self.enum_registry.wf()
    }

    /// Renaming class `id` to `name` is allowed: the class exists, the name is new and not
    /// empty, and the class had a name.
    pub open spec fn class_rename_allowed(&self, id: u64, name: Seq<char>) -> bool {
        &&& self.class_registry@.contains_key(id)
        &&& !self.class_registry.has_name(name)
        &&& self.class_registry@[id].name != name
        &&& self.class_registry@[id].name.len() > 0
        &&& name.len() > 0
    }

    /// Renaming enum `id` to `name` is allowed: the enum exists, the name is new and not
    /// empty, and the enum had a name.
    pub open spec fn enum_rename_allowed(&self, id: u64, name: Seq<char>) -> bool {
        &&& self.enum_registry@.contains_key(id)
        &&& !self.enum_registry.has_name(name)
        &&& self.enum_registry@[id].name != name
        &&& self.enum_registry@[id].name.len() > 0
        &&& name.len() > 0
    }

    /// The root laid out again against the given definitions.
    pub open spec fn relaid_root(&self, er: Map<u64, EnumDefView>, look: spec_fn(u64) -> Option<ClassDefView>) -> Option<InstanceView> {
        layout_inst(er, look, self.root_class@, self.root_class.address)
    }

    /// A structure whose root is a new instance of `root_class_def`, the only registered class.
    pub fn new(root_name: String, root_address: u64, root_class_def: ClassDefinition) -> (r: Self)
        requires
            new_instance(root_name@, root_address, root_class_def@) is Some,
        ensures
            r.wf(),
            r.root_class@ == new_instance(root_name@, root_address, root_class_def@)->0,
            r.class_registry.entries() == seq![(root_class_def.id, root_class_def@)],
            r.class_registry@ == map![root_class_def.id => root_class_def@],
            r.enum_registry@ == Map::<u64, EnumDefView>::empty(),
    {
        let root_class = ClassInstance::new(root_name, root_address, root_class_def.clone());
        let mut class_registry = ClassDefinitionRegistry::new();
        let ghost d = root_class_def@;
        let ghost k = root_class_def.id;
        class_registry.register(root_class_def);
        proof {
            assert(class_registry.entries() =~= seq![(k, d)]);
            assert(class_registry@ =~= map![k => d]);
        }
        MemoryStructure { root_class, class_registry, enum_registry: EnumDefinitionRegistry::new() }
    }

    /// Renames class `id` and lays the root out again; `false`, with nothing changed, when the
    /// rename is not allowed.
    pub fn rename_class(&mut self, id: u64, new_name: &str) -> (r: bool)
        requires
            old(self).wf(),
            old(self).class_rename_allowed(id, new_name@) ==> old(self).relaid_root(
                old(self).enum_registry@,
                lookup_in(class_renamed(old(self).class_registry.entries(), id, new_name@)),
            ) is Some,
        ensures
            final(self).wf(),
            r == old(self).class_rename_allowed(id, new_name@),
            r ==> final(self).class_registry.entries() == class_renamed(old(self).class_registry.entries(), id, new_name@),
            r ==> final(self).root_class@ == old(self).relaid_root(
                old(self).enum_registry@,
                lookup_in(class_renamed(old(self).class_registry.entries(), id, new_name@)),
            )->0,
            r ==> final(self).enum_registry == old(self).enum_registry,
            !r ==> *final(self) == *old(self),
    {
        if !self.class_registry.contains(id) {
            return false;
        }
        if self.class_registry.contains_name(new_name) {
            return false;
        }
        let old_name = match self.class_registry.get(id) {
            Some(d) => d.name.clone(),
            None => String::new(),
        };
        let target = new_name.to_owned();
        if old_name == target || old_name.as_str().is_empty() || new_name.is_empty() {
            return false;
        }
        let ghost s0 = self.class_registry.entries();
        let moved = self.class_registry.remove(id);
        if let Some(mut def) = moved {
            def.rename(new_name.to_owned());
            self.class_registry.register(def);
        }
        proof {
            assert(self.class_registry.entries() == class_renamed(s0, id, new_name@));
        }
        recalc_instance_layout(&self.enum_registry, &self.class_registry, &mut self.root_class);
        true
    }
    /// Renames enum `id` and lays the root out again; `false`, with nothing changed, when the
    /// rename is not allowed.
    pub fn rename_enum(&mut self, id: u64, new_name: &str) -> (r: bool)
        requires
            old(self).wf(),
            old(self).enum_rename_allowed(id, new_name@) ==> old(self).relaid_root(
                enum_renamed(old(self).enum_registry@, id, new_name@),
                old(self).class_registry.lookup(),
            ) is Some,
        ensures
            final(self).wf(),
            r == old(self).enum_rename_allowed(id, new_name@),
            r ==> final(self).enum_registry@ == enum_renamed(old(self).enum_registry@, id, new_name@),
            r ==> final(self).root_class@ == old(self).relaid_root(
                enum_renamed(old(self).enum_registry@, id, new_name@),
                old(self).class_registry.lookup(),
            )->0,
            r ==> final(self).class_registry == old(self).class_registry,
            !r ==> *final(self) == *old(self),
    {
        if !self.enum_registry.contains(id) {
            return false;
        }
        if self.enum_registry.contains_name(new_name) {
            return false;
        }
        let old_name = match self.enum_registry.get(id) {
            Some(d) => d.name.clone(),
            None => String::new(),
        };
        let target = new_name.to_owned();
        if old_name == target || old_name.as_str().is_empty() || new_name.is_empty() {
            return false;
        }
        let ghost m0 = self.enum_registry@;
        let moved = self.enum_registry.remove(id);
        if let Some(mut ed) = moved {
            ed.rename(new_name.to_owned());
            self.enum_registry.register(ed);
        }
        proof {
            assert(self.enum_registry@ =~= enum_renamed(m0, id, new_name@));
        }
        recalc_instance_layout(&self.enum_registry, &self.class_registry, &mut self.root_class);
        true
    }

    /// Whether a registered class has a field that refers to enum `enum_id` (see `refers_to_enum`).
    pub open spec fn enum_referenced(&self, enum_id: u64) -> bool {
        exists|i: int, j: int|
            0 <= i < self.class_registry.value_ids().len()
            && self.class_registry@.contains_key(#[trigger] self.class_registry.value_ids()[i])
            && 0 <= j < self.class_registry@[self.class_registry.value_ids()[i]].fields.len()
            && refers_to_enum(#[trigger] self.class_registry@[self.class_registry.value_ids()[i]].fields[j], enum_id)
    }

    /// Whether any class definition has a field that refers to enum `enum_id` (see
    /// `refers_to_enum`).
    pub fn is_enum_referenced(&self, enum_id: u64) -> (r: bool)
        requires
            self.wf(),
        ensures
            r == self.enum_referenced(enum_id),
    {
        let ids = self.class_registry.get_class_ids();
        let mut i: usize = 0;
        while i < ids.len()
            invariant
                self.wf(),
                ids@ == self.class_registry.value_ids(),
                i <= ids@.len(),
                forall|a: int, j: int|
                    0 <= a < i && self.class_registry@.contains_key(#[trigger] ids@[a])
                    && 0 <= j < self.class_registry@[ids@[a]].fields.len()
                    ==> !refers_to_enum(#[trigger] self.class_registry@[ids@[a]].fields[j], enum_id),
            decreases ids@.len() - i,
        {
            let cid = ids[i];
            if let Some(def) = self.class_registry.get(cid) {
                let mut j: usize = 0;
                while j < def.fields.len()
                    invariant
                        self.class_registry@.contains_key(cid),
                        def@ == self.class_registry@[cid],
                        ids@ == self.class_registry.value_ids(),
                        i < ids@.len(),
                        cid == ids@[i as int],
                        j <= def.fields@.len(),
                        forall|b: int| 0 <= b < j ==> !refers_to_enum(#[trigger] def.fields@[b], enum_id),
                    decreases def.fields@.len() - j,
                {
                    let f = &def.fields[j];
                    if (f.field_type == FieldType::Enum && f.enum_id == Some(enum_id)) || names_enum(&f.pointer_target, enum_id)
                        || names_enum(&f.array_element, enum_id) {
                        proof {
                            assert(refers_to_enum(self.class_registry@[ids@[i as int]].fields[j as int], enum_id));
                        }
                        return true;
                    }
                    j = j + 1;
                }
            }
            i = i + 1;
        }
        false
    }

    /// Registers (or replaces) a class definition under its id.
    pub fn register_class(&mut self, class_def: ClassDefinition)
        requires
            old(self).wf(),
        ensures
            final(self).wf(),
            final(self).class_registry.entries() == entries_insert(old(self).class_registry.entries(), class_def.id, class_def@),
            final(self).class_registry@ == old(self).class_registry@.insert(class_def.id, class_def@),
            final(self).root_class == old(self).root_class,
            final(self).enum_registry == old(self).enum_registry,
    {
        self.class_registry.register(class_def);
    }

    /// The class definition registered under `id`.
    pub fn get_class_definition(&self, id: u64) -> (r: Option<&ClassDefinition>)
        requires
            self.wf(),
        ensures
            match r {
                Some(d) => self.class_registry@.contains_key(id) && d@ == self.class_registry@[id],
                None => !self.class_registry@.contains_key(id),
            },
    {
        self.class_registry.get(id)
    }

    /// A new instance of the class registered under `class_id`, if there is one.
    pub fn create_class_instance(&mut self, name: String, address: u64, class_id: u64) -> (r: Option<ClassInstance>)
        requires
            old(self).wf(),
            old(self).class_registry@.contains_key(class_id) ==> new_instance(name@, address, old(self).class_registry@[class_id]) is Some,
        ensures
            *final(self) == *old(self),
            match r {
                Some(inst) => old(self).class_registry@.contains_key(class_id)
                    && inst@ == new_instance(name@, address, old(self).class_registry@[class_id])->0,
                None => !old(self).class_registry@.contains_key(class_id),
            },
    {
        match self.class_registry.get(class_id) {
            Some(class_def) => Some(ClassInstance::new(name, address, class_def.clone())),
            None => None,
        }
    }

    /// Binds the nested class instances of `instance` (see `bound`) and lays it out.
    fn bind_and_lay_out(&self, instance: &mut ClassInstance)
        requires
            self.wf(),
            bound_and_laid_out(self.enum_registry@, self.class_registry.lookup(), old(instance)@) is Some,
        ensures
            final(instance)@ == bound_and_laid_out(self.enum_registry@, self.class_registry.lookup(), old(instance)@)->0,
    {
        let ghost look = self.class_registry.lookup();
        let ghost i0 = instance@;
        let ghost fuel = choose|fuel: nat| #[trigger] bind_inst(look, i0, fuel) is Some;
        let registry = self.class_registry.clone();
        build_nested_for_instance(&registry, instance, Ghost(fuel));
        proof {
            let fs = crate::nodes::bind_fields(look, i0.class_id, i0.fields, fuel)->0;
            lemma_layout_keeps(Map::empty(), look, InstanceView { fields: fs, ..i0 }, i0.address);
        }
        recalc_instance_layout(&self.enum_registry, &self.class_registry, instance);
    }

    /// Binds the nested class instances of the root and lays it out.
    pub fn create_nested_instances(&mut self)
        requires
            old(self).wf(),
            bound_and_laid_out(old(self).enum_registry@, old(self).class_registry.lookup(), old(self).root_class@) is Some,
        ensures
            final(self).wf(),
            final(self).root_class@ == bound_and_laid_out(
                old(self).enum_registry@,
                old(self).class_registry.lookup(),
                old(self).root_class@,
            )->0,
            final(self).class_registry == old(self).class_registry,
            final(self).enum_registry == old(self).enum_registry,
    {
        let mut root = self.take_root();
        self.bind_and_lay_out(&mut root);
        self.root_class = root;
    }

    /// Binds the nested class instances of the root and lays it out, as
    /// `create_nested_instances` does, when that binding ends within `u64::MAX` levels and
    /// every address stays within `u64`; otherwise changes nothing. Says whether it did.
    pub fn try_create_nested_instances(&mut self) -> (ok: bool)
        requires
            old(self).wf(),
        ensures
            final(self).wf(),
            ok == (match bind_inst(old(self).class_registry.lookup(), old(self).root_class@, u64::MAX as nat) {
                Some(b) => layout_inst(old(self).enum_registry@, old(self).class_registry.lookup(), b, old(self).root_class.address) is Some,
                None => false,
            }),
            ok ==> bound_and_laid_out(old(self).enum_registry@, old(self).class_registry.lookup(), old(self).root_class@) is Some
                && final(self).root_class@ == bound_and_laid_out(
                old(self).enum_registry@,
                old(self).class_registry.lookup(),
                old(self).root_class@,
            )->0,
            !ok ==> final(self).root_class == old(self).root_class,
            final(self).class_registry == old(self).class_registry,
            final(self).enum_registry == old(self).enum_registry,
    {
        let ghost look = self.class_registry.lookup();
        let ghost i0 = self.root_class@;
        let mut root = clone_instance(&self.root_class);
        if !try_build_nested(&self.class_registry, &mut root, u64::MAX) {
            return false;
        }
        proof {
            let fs = crate::nodes::bind_fields(look, i0.class_id, i0.fields, u64::MAX as nat)->0;
            lemma_layout_keeps(Map::empty(), look, InstanceView { fields: fs, ..i0 }, i0.address);
            let f = choose|fuel: nat| #[trigger] bind_inst(look, i0, fuel) is Some;
            assert(bind_inst(look, i0, u64::MAX as nat) is Some);
            lemma_bind_inst_unique(look, i0, f, u64::MAX as nat);
        }
        if layout_size(&self.enum_registry, &self.class_registry, &root, root.address).is_none() {
            return false;
        }
        recalc_instance_layout(&self.enum_registry, &self.class_registry, &mut root);
        self.root_class = root;
        true
    }

    /// Binds the nested class instances of `instance` and lays it out.
    pub fn bind_nested_for_instance(&self, instance: &mut ClassInstance)
        requires
            self.wf(),
            bound_and_laid_out(self.enum_registry@, self.class_registry.lookup(), old(instance)@) is Some,
        ensures
            final(instance)@ == bound_and_laid_out(self.enum_registry@, self.class_registry.lookup(), old(instance)@)->0,
    {
        self.bind_and_lay_out(instance);
    }

    /// Moves the root out, leaving an empty instance in its place.
    fn take_root(&mut self) -> (r: ClassInstance)
        ensures
            r == old(self).root_class,
            final(self).class_registry == old(self).class_registry,
            final(self).enum_registry == old(self).enum_registry,
    {
        let mut root = ClassInstance { name: String::new(), address: 0, class_id: 0, fields: Vec::new(), total_size: 0 };
        std::mem::swap(&mut root, &mut self.root_class);
        root
    }

    /// Replaces the root by a fresh, bound and laid-out instance of the class registered under
    /// `class_id`, keeping the root's name and address.
    fn replace_root(&mut self, class_id: u64)
        requires
            old(self).wf(),
            old(self).class_registry@.contains_key(class_id),
            rebuilt(
                old(self).enum_registry@,
                old(self).class_registry.lookup(),
                old(self).root_class.name@,
                old(self).root_class.address,
                old(self).class_registry@[class_id],
            ) is Some,
        ensures
            final(self).wf(),
            final(self).root_class@ == rebuilt(
                old(self).enum_registry@,
                old(self).class_registry.lookup(),
                old(self).root_class.name@,
                old(self).root_class.address,
                old(self).class_registry@[class_id],
            )->0,
            final(self).class_registry == old(self).class_registry,
            final(self).enum_registry == old(self).enum_registry,
    {
        let def = match self.class_registry.get(class_id) {
            Some(d) => d.clone(),
            None => ClassDefinition { id: 0, name: String::new(), fields: Vec::new(), total_size: 0, entry_offset: None },
        };
        let name = self.root_class.name.clone();
        let address = self.root_class.address;
        let mut root = ClassInstance::new(name, address, def);
        self.bind_and_lay_out(&mut root);
        self.root_class = root;
    }

    /// A fresh instance of class `class_id` with the root's name and address, bound and laid
    /// out, when that binding ends within `u64::MAX` levels and every address fits in `u64`.
    fn checked_fresh_root(&self, class_id: u64) -> (r: Option<ClassInstance>)
        requires
            self.wf(),
            self.class_registry@.contains_key(class_id),
        ensures
            r is Some == fresh_root_fits(*self, class_id),
            r matches Some(x) ==> rebuilt(
                self.enum_registry@,
                self.class_registry.lookup(),
                self.root_class.name@,
                self.root_class.address,
                self.class_registry@[class_id],
            ) == Some(x@),
    {
        let ghost look = self.class_registry.lookup();
        let def = match self.class_registry.get(class_id) {
            Some(d) => d.clone(),
            None => return None,
        };
        let address = self.root_class.address;
        if !new_instance_fits(address, &def) {
            return None;
        }
        let name = self.root_class.name.clone();
        let mut root = ClassInstance::new(name, address, def);
        let ghost i0 = root@;
        if !try_build_nested(&self.class_registry, &mut root, u64::MAX) {
            return None;
        }
        proof {
            let fs = crate::nodes::bind_fields(look, i0.class_id, i0.fields, u64::MAX as nat)->0;
            lemma_layout_keeps(Map::empty(), look, InstanceView { fields: fs, ..i0 }, i0.address);
            let f = choose|fuel: nat| #[trigger] bind_inst(look, i0, fuel) is Some;
            assert(bind_inst(look, i0, u64::MAX as nat) is Some);
            lemma_bind_inst_unique(look, i0, f, u64::MAX as nat);
        }
        if layout_size(&self.enum_registry, &self.class_registry, &root, root.address).is_none() {
            return None;
        }
        recalc_instance_layout(&self.enum_registry, &self.class_registry, &mut root);
        Some(root)
    }

    /// Makes a fresh instance of class `class_id` the root, as `set_root_class_by_id` does, when
    /// the class is registered and the new root fits (see `fresh_root_fits`); otherwise changes
    /// nothing. Says whether it replaced the root.
    pub fn try_set_root_class_by_id(&mut self, class_id: u64) -> (r: bool)
        requires
            old(self).wf(),
        ensures
            final(self).wf(),
            r == (old(self).class_registry@.contains_key(class_id) && fresh_root_fits(*old(self), class_id)),
            r ==> final(self).root_class@ == rebuilt(
                old(self).enum_registry@,
                old(self).class_registry.lookup(),
                old(self).root_class.name@,
                old(self).root_class.address,
                old(self).class_registry@[class_id],
            )->0,
            !r ==> final(self).root_class == old(self).root_class,
            final(self).class_registry == old(self).class_registry,
            final(self).enum_registry == old(self).enum_registry,
    {
        if !self.class_registry.contains(class_id) {
            return false;
        }
        match self.checked_fresh_root(class_id) {
            Some(root) => {
                self.root_class = root;
                true
            },
            None => false,
        }
    }

    /// Rebuilds the root from the current definition of its class, as
    /// `rebuild_root_from_registry` does, when the class is registered and the new root fits;
    /// otherwise changes nothing. Says whether it rebuilt the root.
    pub fn try_rebuild_root_from_registry(&mut self) -> (r: bool)
        requires
            old(self).wf(),
        ensures
            final(self).wf(),
            r == (old(self).class_registry@.contains_key(old(self).root_class.class_id) && fresh_root_fits(
                *old(self),
                old(self).root_class.class_id,
            )),
            r ==> final(self).root_class@ == rebuilt(
                old(self).enum_registry@,
                old(self).class_registry.lookup(),
                old(self).root_class.name@,
                old(self).root_class.address,
                old(self).class_registry@[old(self).root_class.class_id],
            )->0,
            !r ==> final(self).root_class == old(self).root_class,
            final(self).class_registry == old(self).class_registry,
            final(self).enum_registry == old(self).enum_registry,
    {
        let id = self.root_class.class_id;
        self.try_set_root_class_by_id(id)
    }

    /// Rebuilds the root from the current definition of its class, if that class is registered.
    pub fn rebuild_root_from_registry(&mut self)
        requires
            old(self).wf(),
            old(self).class_registry@.contains_key(old(self).root_class.class_id) ==> rebuilt(
                old(self).enum_registry@,
                old(self).class_registry.lookup(),
                old(self).root_class.name@,
                old(self).root_class.address,
                old(self).class_registry@[old(self).root_class.class_id],
            ) is Some,
        ensures
            final(self).wf(),
            old(self).class_registry@.contains_key(old(self).root_class.class_id) ==> final(self).root_class@ == rebuilt(
                old(self).enum_registry@,
                old(self).class_registry.lookup(),
                old(self).root_class.name@,
                old(self).root_class.address,
                old(self).class_registry@[old(self).root_class.class_id],
            )->0,
            !old(self).class_registry@.contains_key(old(self).root_class.class_id) ==> final(self).root_class == old(self).root_class,
            final(self).class_registry == old(self).class_registry,
            final(self).enum_registry == old(self).enum_registry,
    {
        let root_type = self.root_class.class_id;
        if self.class_registry.contains(root_type) {
            self.replace_root(root_type);
        }
    }

    /// Makes a fresh instance of class `class_id` the root, keeping the root's name and address;
    /// `false`, with nothing changed, when no such class is registered.
    pub fn set_root_class_by_id(&mut self, class_id: u64) -> (r: bool)
        requires
            old(self).wf(),
            old(self).class_registry@.contains_key(class_id) ==> rebuilt(
                old(self).enum_registry@,
                old(self).class_registry.lookup(),
                old(self).root_class.name@,
                old(self).root_class.address,
                old(self).class_registry@[class_id],
            ) is Some,
        ensures
            final(self).wf(),
            r == old(self).class_registry@.contains_key(class_id),
            r ==> final(self).root_class@ == rebuilt(
                old(self).enum_registry@,
                old(self).class_registry.lookup(),
                old(self).root_class.name@,
                old(self).root_class.address,
                old(self).class_registry@[class_id],
            )->0,
            !r ==> final(self).root_class == old(self).root_class,
            final(self).class_registry == old(self).class_registry,
            final(self).enum_registry == old(self).enum_registry,
    {
        if self.class_registry.contains(class_id) {
            self.replace_root(class_id);
            true
        } else {
            false
        }
    }

    /// Moves the root to `new_address` as `set_root_address` does when every address below
    /// it stays within `u64`; otherwise changes nothing. Says whether it moved the root.
    pub fn try_set_root_address(&mut self, new_address: u64) -> (moved: bool)
        requires
            old(self).wf(),
        ensures
            final(self).wf(),
            moved == layout_inst(old(self).enum_registry@, old(self).class_registry.lookup(), old(self).root_class@, new_address) is Some,
            moved ==> final(self).root_class@ == layout_inst(
                old(self).enum_registry@,
                old(self).class_registry.lookup(),
                old(self).root_class@,
                new_address,
            )->0,
            !moved ==> final(self).root_class == old(self).root_class,
            final(self).class_registry == old(self).class_registry,
            final(self).enum_registry == old(self).enum_registry,
    {
        if layout_size(&self.enum_registry, &self.class_registry, &self.root_class, new_address).is_some() {
            self.set_root_address(new_address);
            true
        } else {
            false
        }
    }

    /// Moves the root to `new_address` and recomputes every address and size below it.
    pub fn set_root_address(&mut self, new_address: u64)
        requires
            old(self).wf(),
            layout_inst(old(self).enum_registry@, old(self).class_registry.lookup(), old(self).root_class@, new_address) is Some,
        ensures
            final(self).wf(),
            final(self).root_class@ == layout_inst(
                old(self).enum_registry@,
                old(self).class_registry.lookup(),
                old(self).root_class@,
                new_address,
            )->0,
            final(self).class_registry == old(self).class_registry,
            final(self).enum_registry == old(self).enum_registry,
    {
        let ghost i0 = self.root_class@;
        self.root_class.address = new_address;
        proof {
            lemma_layout_inst_address(
                self.enum_registry@,
                self.class_registry.lookup(),
                i0,
                new_address,
                new_address,
            );
            assert(self.root_class@ == InstanceView { address: new_address, ..i0 });
        }
        recalc_instance_layout(&self.enum_registry, &self.class_registry, &mut self.root_class);
    }

    /// The root's total size.
    pub fn get_total_size(&self) -> (r: u64)
        ensures
            r == self.root_class.total_size,
    {
        self.root_class.get_size()
    }

    /// The ids carried by the registered classes, in registry order.
    pub fn get_available_classes(&self) -> (r: Vec<u64>)
        ensures
            r@ == self.class_registry.value_ids(),
    {
        self.class_registry.get_class_ids()
    }

}

} // verus!
