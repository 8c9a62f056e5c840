//! Class instances placed in memory: their fields' addresses and sizes, and the instances
//! nested in them.
use vstd::prelude::*;
use vstd::string::StringExecFns;

use crate::definitions::{
    advance, clone_opt_string, clone_opt_target, laid_out, offset_before, relaid, sat_add, ClassDefView, ClassDefinition,
    EnumDefView, FieldDefinition,
};
use crate::registry::{ClassDefinitionRegistry, EnumDefinitionRegistry};
use crate::text::{decimal, u64_to_decimal};
use crate::types::{is_dynamic, type_size, FieldType, PointerTarget};

verus! {

broadcast use vstd::std_specs::vec::group_vec_axioms;

/// A field of a class instance, placed at an address in the target process.
#[derive(Debug)]
pub struct MemoryField {
    pub def_id: u64,
    pub name: Option<String>,
    pub field_type: FieldType,
    pub address: u64,
    pub data: Option<Vec<u8>>,
    pub error: Option<String>,
    pub is_editing: bool,
    pub nested_instance: Option<ClassInstance>,
    pub pointer_target: Option<PointerTarget>,
    pub enum_size: Option<u8>,
}

/// An instance of a class definition, placed at an address.
#[derive(Debug)]
pub struct ClassInstance {
    pub name: String,
    pub address: u64,
    pub class_id: u64,
    pub fields: Vec<MemoryField>,
    pub total_size: u64,
}

/// The mathematical content of a memory field.
pub struct FieldView {
    pub def_id: u64,
    pub name: Option<Seq<char>>,
    pub field_type: FieldType,
    pub address: u64,
    pub data: Option<Seq<u8>>,
    pub error: Option<Seq<char>>,
    pub is_editing: bool,
    pub nested: Option<InstanceView>,
    pub pointer_target: Option<PointerTarget>,
    pub enum_size: Option<u8>,
}

/// The mathematical content of a class instance.
pub struct InstanceView {
    pub name: Seq<char>,
    pub address: u64,
    pub class_id: u64,
    pub fields: Seq<FieldView>,
    pub total_size: u64,
}

pub open spec fn opt_str_view(s: Option<String>) -> Option<Seq<char>> {
    match s {
        Some(x) => Some(x@),
        None => None,
    }
}

pub open spec fn opt_bytes_view(s: Option<Vec<u8>>) -> Option<Seq<u8>> {
    match s {
        Some(x) => Some(x@),
        None => None,
    }
}

pub open spec fn field_view(f: MemoryField) -> FieldView
    decreases f,
{
    FieldView {
        def_id: f.def_id,
        name: opt_str_view(f.name),
        field_type: f.field_type,
        address: f.address,
        data: opt_bytes_view(f.data),
        error: opt_str_view(f.error),
        is_editing: f.is_editing,
        nested: match f.nested_instance {
            Some(n) => Some(inst_view(n)),
            None => None,
        },
        pointer_target: f.pointer_target,
        enum_size: f.enum_size,
    }
}

pub open spec fn inst_view(i: ClassInstance) -> InstanceView
    decreases i,
{
    InstanceView {
        name: i.name@,
        address: i.address,
        class_id: i.class_id,
        fields: fields_view(i.fields@),
        total_size: i.total_size,
    }
}

pub open spec fn fields_view(fs: Seq<MemoryField>) -> Seq<FieldView>
    decreases fs,
{
    if fs.len() == 0 {
        Seq::empty()
    } else {
        seq![field_view(fs[0])] + fields_view(fs.drop_first())
    }
}

impl View for MemoryField {
    type V = FieldView;

    open spec fn view(&self) -> FieldView {
        field_view(*self)
    }
}

impl View for ClassInstance {
    type V = InstanceView;

    open spec fn view(&self) -> InstanceView {
        inst_view(*self)
    }
}

pub proof fn lemma_fields_view(fs: Seq<MemoryField>)
    ensures
        fields_view(fs).len() == fs.len(),
        forall|j: int| 0 <= j < fs.len() ==> #[trigger] fields_view(fs)[j] == field_view(fs[j]),
    decreases fs.len(),
{
    if fs.len() > 0 {
        lemma_fields_view(fs.drop_first());
        assert forall|j: int| 0 <= j < fs.len() implies #[trigger] fields_view(fs)[j] == field_view(fs[j]) by {
            if j > 0 {
                assert(fs.drop_first()[j - 1] == fs[j]);
            }
        }
    }
}

pub proof fn lemma_fields_view_ext(a: Seq<MemoryField>, b: Seq<MemoryField>)
    requires
        a.len() == b.len(),
        forall|j: int| 0 <= j < a.len() ==> #[trigger] field_view(a[j]) == field_view(b[j]),
    ensures
        fields_view(a) == fields_view(b),
{
    lemma_fields_view(a);
    lemma_fields_view(b);
    assert(fields_view(a) =~= fields_view(b));
}

/// A fresh field with no data, error, nesting or pointer target.
pub open spec fn fresh_field(def_id: u64, name: Option<Seq<char>>, t: FieldType, address: u64) -> FieldView {
    FieldView {
        def_id,
        name,
        field_type: t,
        address,
        data: None,
        error: None,
        is_editing: false,
        nested: None,
        pointer_target: None,
        enum_size: None,
    }
}

impl MemoryField {
    /// A named field at `address`.
    pub fn new_named(name: String, field_type: FieldType, address: u64) -> (r: Self)
        ensures
            r@ == fresh_field(0, Some(name@), field_type, address),
    {
        MemoryField {
            def_id: 0,
            name: Some(name),
            field_type,
            address,
            data: None,
            error: None,
            is_editing: false,
            nested_instance: None,
            pointer_target: None,
            enum_size: None,
        }
    }

    /// An unnamed (hex) field at `address`.
    pub fn new_hex(field_type: FieldType, address: u64) -> (r: Self)
        ensures
            r@ == fresh_field(0, None, field_type, address),
    {
        MemoryField {
            def_id: 0,
            name: None,
            field_type,
            address,
            data: None,
            error: None,
            is_editing: false,
            nested_instance: None,
            pointer_target: None,
            enum_size: None,
        }
    }

    /// The fixed size of the field's type.
    pub fn get_size(&self) -> (r: u64)
        ensures
            r == type_size(self.field_type),
    {
        self.field_type.get_size()
    }
}

/// Sum of the fixed sizes of the first `n` field definitions.
pub open spec fn size_sum(fields: Seq<crate::definitions::FieldDefinition>, n: int) -> int
    decreases n,
{
    if n <= 0 {
        0
    } else {
        size_sum(fields, n - 1) + if is_dynamic(fields[n - 1].field_type) { 0 } else { type_size(fields[n - 1].field_type) as int }
    }
}

/// The fields of a new instance of `d` at `address` (offsets taken from the definition).
pub open spec fn fields_from_definition(d: ClassDefView, address: u64) -> Seq<FieldView> {
    Seq::new(
        d.fields.len(),
        |j: int| {
            let fd = d.fields[j];
            FieldView {
                def_id: fd.id,
                pointer_target: if fd.field_type == FieldType::Pointer { fd.pointer_target } else { None },
                ..fresh_field(0, opt_str_view(fd.name), fd.field_type, (address + fd.offset) as u64)
            }
        },
    )
}

/// The instance that placing `d` at `address` yields, or `None` when an address or the size
/// would leave the range of `u64`.
pub open spec fn new_instance(name: Seq<char>, address: u64, d: ClassDefView) -> Option<InstanceView> {
    if (forall|j: int| 0 <= j < d.fields.len() ==> address + #[trigger] d.fields[j].offset <= u64::MAX)
        && size_sum(d.fields, d.fields.len() as int) <= u64::MAX {
        Some(InstanceView {
            name,
            address,
            class_id: d.id,
            fields: fields_from_definition(d, address),
            total_size: size_sum(d.fields, d.fields.len() as int) as u64,
        })
    } else {
        None
    }
}

proof fn lemma_size_sum_mono(fields: Seq<crate::definitions::FieldDefinition>, a: int, b: int)
    requires
        0 <= a <= b <= fields.len(),
    ensures
        size_sum(fields, a) <= size_sum(fields, b),
    decreases b - a,
{
    if a < b {
        lemma_size_sum_mono(fields, a, b - 1);
    }
}

proof fn lemma_offsets_exact(fields: Seq<FieldDefinition>, n: int)
    requires
        0 <= n <= fields.len(),
        offset_before(fields, n) < u64::MAX,
    ensures
        forall|i: int| 0 <= i <= n ==> offset_before(fields, i) == size_sum(fields, i),
        forall|i: int| 0 <= i <= n ==> size_sum(fields, i) <= size_sum(fields, n),
    decreases n,
{
    if n > 0 {
        assert(advance(fields[n - 1].field_type) == (if is_dynamic(fields[n - 1].field_type) { 0 } else { type_size(fields[n - 1].field_type) }));
        lemma_offsets_exact(fields, n - 1);
        assert(offset_before(fields, n - 1) == size_sum(fields, n - 1));
        assert(offset_before(fields, n) == sat_add(offset_before(fields, n - 1), advance(fields[n - 1].field_type)));
        assert(offset_before(fields, n) == size_sum(fields, n));
    }
}

/// Placing a laid-out class at an address succeeds when the class ends before the top of
/// the address space.
pub proof fn lemma_new_instance_fits(name: Seq<char>, address: u64, d: ClassDefView)
    requires
        laid_out(d),
        address + d.total_size < u64::MAX,
    ensures
        new_instance(name, address, d) is Some,
        new_instance(name, address, d)->0.total_size == d.total_size,
        new_instance(name, address, d)->0.fields.len() == d.fields.len(),
{
    let n = d.fields.len() as int;
    lemma_offsets_exact(d.fields, n);
    assert forall|j: int| 0 <= j < d.fields.len() implies address + #[trigger] d.fields[j].offset <= u64::MAX by {
        assert(d.fields[j] == relaid(d.fields)[j]);
        assert(d.fields[j].offset == offset_before(d.fields, j));
    }
}

/// In a laid-out class that ends before the top of the address space, every field starts
/// within the class.
pub proof fn lemma_offsets_within(d: ClassDefView)
    requires
        laid_out(d),
        d.total_size < u64::MAX,
    ensures
        forall|j: int| 0 <= j < d.fields.len() ==> #[trigger] d.fields[j].offset <= d.total_size,
{
    let n = d.fields.len() as int;
    lemma_offsets_exact(d.fields, n);
    assert forall|j: int| 0 <= j < d.fields.len() implies #[trigger] d.fields[j].offset <= d.total_size by {
        assert(d.fields[j] == relaid(d.fields)[j]);
    }
}

/// What the field lookup finds is one of the fields.
pub proof fn lemma_first_field_member(fs: Seq<FieldDefinition>, id: u64)
    ensures
        first_field_with_id(fs, id) matches Some(fd) ==> exists|k: int| 0 <= k < fs.len() && fs[k] == fd,
    decreases fs.len(),
{
    if fs.len() > 0 && fs[0].id != id {
        lemma_first_field_member(fs.drop_first(), id);
        if let Some(fd) = first_field_with_id(fs, id) {
            let k = choose|k: int| 0 <= k < fs.drop_first().len() && fs.drop_first()[k] == fd;
            assert(fs[k + 1] == fd);
        }
    }
}

/// A memory field carries exactly the given name.
pub open spec fn mfield_named(f: MemoryField, name: Seq<char>) -> bool {
    match f.name {
        Some(n) => n@ == name,
        None => false,
    }
}

impl ClassInstance {
    /// Places a new instance of `class_definition` at `address`.
    pub fn new(name: String, address: u64, class_definition: ClassDefinition) -> (r: Self)
        requires
            new_instance(name@, address, class_definition@) is Some,
        ensures
            r@ == new_instance(name@, address, class_definition@)->0,
    {
        let ghost d = class_definition@;
        let ghost nm = name@;
        let mut fields: Vec<MemoryField> = Vec::new();
        let mut current_offset: u64 = 0;
        let mut i: usize = 0;
        while i < class_definition.fields.len()
            invariant
                d == class_definition@,
                new_instance(nm, address, d) is Some,
                i <= d.fields.len(),
                fields@.len() == i,
                current_offset == size_sum(d.fields, i as int),
                forall|j: int| 0 <= j < i ==> field_view(#[trigger] fields@[j]) == fields_from_definition(d, address)[j],
            decreases d.fields.len() - i,
        {
            let field_def = &class_definition.fields[i];
            assert(address + d.fields[i as int].offset <= u64::MAX);
            let field_address = address + field_def.offset;
            let mut memory_field = match &field_def.name {
                Some(n) => MemoryField::new_named(n.clone(), field_def.field_type, field_address),
                None => MemoryField::new_hex(field_def.field_type, field_address),
            };
            memory_field.def_id = field_def.id;
            if field_def.field_type == FieldType::Pointer {
                memory_field.pointer_target = clone_opt_target(&field_def.pointer_target);
            }
            fields.push(memory_field);
            proof {
                lemma_size_sum_mono(d.fields, i as int + 1, d.fields.len() as int);
            }
            if !field_def.field_type.is_dynamic_size() {
                current_offset = current_offset + field_def.get_size();
            }
            i = i + 1;
        }
        let r = ClassInstance { name, address, class_id: class_definition.id, fields, total_size: current_offset };
        proof {
            lemma_fields_view(r.fields@);
            assert(fields_view(r.fields@) =~= fields_from_definition(d, address));
        }
        r
    }

    /// The first field carrying the given name.
    pub fn get_field_by_name(&self, name: &str) -> (r: Option<&MemoryField>)
        ensures
            match r {
                Some(f) => exists|i: int|
                    0 <= i < self.fields@.len() && self.fields@[i] == *f && mfield_named(self.fields@[i], name@)
                        && forall|j: int| 0 <= j < i ==> !mfield_named(#[trigger] self.fields@[j], name@),
                None => forall|j: int| 0 <= j < self.fields@.len() ==> !mfield_named(#[trigger] self.fields@[j], name@),
            },
    {
        let target = name.to_owned();
        let mut i: usize = 0;
        while i < self.fields.len()
            invariant
                i <= self.fields@.len(),
                target@ == name@,
                forall|j: int| 0 <= j < i ==> !mfield_named(#[trigger] self.fields@[j], name@),
            decreases self.fields@.len() - i,
        {
            let f = &self.fields[i];
            let hit = match &f.name {
                Some(n) => *n == target,
                None => false,
            };
            if hit {
                return Some(f);
            }
            i = i + 1;
        }
        None
    }

    /// The field at position `index`.
    pub fn get_field_by_index(&self, index: usize) -> (r: Option<&MemoryField>)
        ensures
            match r {
                Some(f) => index < self.fields@.len() && *f == self.fields@[index as int],
                None => index >= self.fields@.len(),
            },
    {
        if index < self.fields.len() {
            Some(&self.fields[index])
        } else {
            None
        }
    }

    /// The instance's total size.
    pub fn get_size(&self) -> (r: u64)
        ensures
            r == self.total_size,
    {
        self.total_size
    }

    /// `name: class`, where the class is named by its registered definition, or as `#<id>`
    /// when none is registered under the instance's class id.
    pub fn get_display_name_with_registry(&self, reg: &ClassDefinitionRegistry) -> (r: String)
        requires
            reg.wf(),
        ensures
            r@ == self.name@ + ": "@ + (if reg@.contains_key(self.class_id) {
                reg@[self.class_id].name
            } else {
                "#"@ + decimal(self.class_id as nat)
            }),
    {
        let cname = match reg.get(self.class_id) {
            Some(d) => d.name.clone(),
            None => {
                proof { reveal_strlit("#"); }
                let mut c = String::from_str("#");
                let digits = u64_to_decimal(self.class_id);
                c.append(digits.as_str());
                c
            },
        };
        proof { reveal_strlit(": "); }
        let mut s = self.name.clone();
        s.append(": ");
        s.append(cname.as_str());
        s
    }
}

/// The first field definition, in order, with id `id`.
pub open spec fn first_field_with_id(fs: Seq<FieldDefinition>, id: u64) -> Option<FieldDefinition>
    decreases fs.len(),
{
    if fs.len() == 0 {
        None
    } else if fs[0].id == id {
        Some(fs[0])
    } else {
        first_field_with_id(fs.drop_first(), id)
    }
}

proof fn lemma_first_field_with_id(fs: Seq<FieldDefinition>, id: u64, i: int)
    requires
        0 <= i <= fs.len(),
        forall|j: int| 0 <= j < i ==> fs[j].id != id,
    ensures
        i < fs.len() && fs[i].id == id ==> first_field_with_id(fs, id) == Some(fs[i]),
        i == fs.len() ==> first_field_with_id(fs, id) is None,
    decreases i,
{
    if i > 0 {
        let t = fs.drop_first();
        assert forall|j: int| 0 <= j < i - 1 implies t[j].id != id by {
            assert(t[j] == fs[j + 1]);
        }
        lemma_first_field_with_id(t, id, i - 1);
    }
}

/// The first field of `def` with id `id`.
pub fn find_field_def(def: &ClassDefinition, id: u64) -> (r: Option<&FieldDefinition>)
    ensures
        match r {
            Some(f) => first_field_with_id(def.fields@, id) == Some(*f),
            None => first_field_with_id(def.fields@, id) is None,
        },
{
    let mut i: usize = 0;
    while i < def.fields.len()
        invariant
            i <= def.fields@.len(),
            forall|j: int| 0 <= j < i ==> def.fields@[j].id != id,
        decreases def.fields@.len() - i,
    {
        if def.fields[i].id == id {
            proof { lemma_first_field_with_id(def.fields@, id, i as int); }
            return Some(&def.fields[i]);
        }
        i = i + 1;
    }
    proof { lemma_first_field_with_id(def.fields@, id, i as int); }
    None
}

/// The definition of field `def_id` of class `class_id`, found the way the layout code finds it.
pub open spec fn field_def_of(look: spec_fn(u64) -> Option<ClassDefView>, class_id: u64, def_id: u64) -> Option<FieldDefinition> {
    match look(class_id) {
        Some(d) => first_field_with_id(d.fields, def_id),
        None => None,
    }
}

/// `a * b`, stopping at `u64::MAX`.
pub open spec fn sat_mul(a: u64, b: u64) -> u64 {
    if a * b > u64::MAX {
        u64::MAX
    } else {
        (a * b) as u64
    }
}

/// The byte size of one array element of the given kind.
pub open spec fn element_size(er: Map<u64, EnumDefView>, look: spec_fn(u64) -> Option<ClassDefView>, e: Option<PointerTarget>) -> u64 {
    match e {
        Some(PointerTarget::FieldType(t)) => type_size(t),
        Some(PointerTarget::EnumId(eid)) => if er.contains_key(eid) { er[eid].default_size as u64 } else { 0 },
        Some(PointerTarget::ClassId(cid)) => match look(cid) {
            Some(cd) => cd.total_size,
            None => 0,
        },
        _ => 0,
    }
}

/// The bytes an array field occupies.
pub open spec fn array_bytes(er: Map<u64, EnumDefView>, look: spec_fn(u64) -> Option<ClassDefView>, class_id: u64, def_id: u64) -> u64 {
    match field_def_of(look, class_id, def_id) {
        Some(fd) => sat_mul(
            element_size(er, look, fd.array_element),
            match fd.array_length {
                Some(n) => n as u64,
                None => 0,
            },
        ),
        None => 0,
    }
}

/// The bytes an enum field occupies (four unless its enum says otherwise).
pub open spec fn enum_bytes(er: Map<u64, EnumDefView>, look: spec_fn(u64) -> Option<ClassDefView>, class_id: u64, def_id: u64) -> u64 {
    match field_def_of(look, class_id, def_id) {
        Some(fd) => match fd.enum_id {
            Some(eid) => if er.contains_key(eid) { er[eid].default_size as u64 } else { 4 },
            None => 4,
        },
        None => 4,
    }
}

/// The largest size a nested instance contributes to its parent's layout.
pub open spec fn nested_size_cap() -> u64 {
    1048576
}

/// Lays out an instance placed at `address`: every field gets the address of the running
/// offset, nested instances are laid out in turn, and the total size is the final offset.
/// `None` when an address would leave the range of `u64`.
pub open spec fn layout_inst(er: Map<u64, EnumDefView>, look: spec_fn(u64) -> Option<ClassDefView>, inst: InstanceView, address: u64) -> Option<InstanceView>
    decreases inst,
{
    match layout_fields(er, look, inst.class_id, address, inst.fields, 0) {
        Some(r) => Some(InstanceView { address, fields: r.0, total_size: r.1, ..inst }),
        None => None,
    }
}

/// Lays out one field at `addr`: the laid-out field and how far it moves the running offset.
pub open spec fn layout_step(
    er: Map<u64, EnumDefView>,
    look: spec_fn(u64) -> Option<ClassDefView>,
    class_id: u64,
    f: FieldView,
    addr: u64,
) -> Option<(FieldView, u64)>
    decreases f,
{
    if f.field_type == FieldType::ClassInstance {
        match f.nested {
            Some(n) => match layout_inst(er, look, n, addr) {
                Some(n2) => Some((
                    FieldView { address: addr, nested: Some(n2), ..f },
                    if n2.total_size < nested_size_cap() { n2.total_size } else { nested_size_cap() },
                )),
                None => None,
            },
            None => Some((FieldView { address: addr, ..f }, 0u64)),
        }
    } else if f.field_type == FieldType::Array {
        Some((FieldView { address: addr, ..f }, array_bytes(er, look, class_id, f.def_id)))
    } else if f.field_type == FieldType::Enum {
        Some((FieldView { address: addr, ..f }, enum_bytes(er, look, class_id, f.def_id)))
    } else {
        Some((FieldView { address: addr, ..f }, type_size(f.field_type)))
    }
}

/// Lays out `fields` starting at offset `cur` from `base`, giving the laid-out fields and the
/// final offset.
pub open spec fn layout_fields(
    er: Map<u64, EnumDefView>,
    look: spec_fn(u64) -> Option<ClassDefView>,
    class_id: u64,
    base: u64,
    fields: Seq<FieldView>,
    cur: u64,
) -> Option<(Seq<FieldView>, u64)>
    decreases fields,
{
    if fields.len() == 0 {
        Some((Seq::empty(), cur))
    } else if base + cur > u64::MAX {
        None
    } else {
        match layout_step(er, look, class_id, fields[0], (base + cur) as u64) {
            Some(st) => match layout_fields(er, look, class_id, base, fields.drop_first(), sat_add(cur, st.1)) {
                Some(rest) => Some((seq![st.0] + rest.0, rest.1)),
                None => None,
            },
            None => None,
        }
    }
}

pub proof fn lemma_layout_inst_address(er: Map<u64, EnumDefView>, look: spec_fn(u64) -> Option<ClassDefView>, n: InstanceView, a: u64, addr: u64)
    ensures
        layout_inst(er, look, InstanceView { address: a, ..n }, addr) == layout_inst(er, look, n, addr),
        height_inst(InstanceView { address: a, ..n }) == height_inst(n),
{
}

/// Nesting depth of an instance.
pub open spec fn height_inst(i: InstanceView) -> nat
    decreases i,
{
    1 + height_fields(i.fields)
}

pub open spec fn height_fields(fs: Seq<FieldView>) -> nat
    decreases fs,
{
    if fs.len() == 0 {
        0
    } else {
        let h = match fs[0].nested {
            Some(n) => height_inst(n),
            None => 0,
        };
        let t = height_fields(fs.drop_first());
        if h > t { h } else { t }
    }
}

proof fn lemma_height_fields(fs: Seq<FieldView>, i: int)
    requires
        0 <= i < fs.len(),
        fs[i].nested is Some,
    ensures
        height_inst(fs[i].nested->0) <= height_fields(fs),
    decreases i,
{
    if i > 0 {
        assert(fs.drop_first()[i - 1] == fs[i]);
        lemma_height_fields(fs.drop_first(), i - 1);
    }
}

proof fn lemma_layout_fields_step(
    er: Map<u64, EnumDefView>,
    look: spec_fn(u64) -> Option<ClassDefView>,
    class_id: u64,
    base: u64,
    fields: Seq<FieldView>,
    i: int,
)
    requires
        0 <= i < fields.len(),
    ensures
        fields.skip(i).drop_first() == fields.skip(i + 1),
        fields.skip(i)[0] == fields[i],
        fields.skip(i).len() > 0,
{
    assert(fields.skip(i).drop_first() =~= fields.skip(i + 1));
}

/// The bytes an array field occupies; see `array_bytes`.
fn array_bytes_of(enum_registry: &EnumDefinitionRegistry, class_registry: &ClassDefinitionRegistry, class_id: u64, def_id: u64) -> (r: u64)
    requires
        enum_registry.wf(),
    ensures
        r == array_bytes(enum_registry@, class_registry.lookup(), class_id, def_id),
{
    let mut bytes: u64 = 0;
    if let Some(def) = class_registry.get_by_id(class_id) {
        if let Some(fd) = find_field_def(def, def_id) {
            let len: u64 = match fd.array_length {
                Some(n) => n as u64,
                None => 0,
            };
            let elem_size: u64 = match &fd.array_element {
                Some(PointerTarget::FieldType(t)) => t.get_size(),
                Some(PointerTarget::EnumId(eid)) => match enum_registry.get_by_id(*eid) {
                    Some(ed) => ed.default_size as u64,
                    None => 0,
                },
                Some(PointerTarget::ClassId(c)) => match class_registry.get_by_id(*c) {
                    Some(cd) => cd.total_size,
                    None => 0,
                },
                _ => 0,
            };
            bytes = match elem_size.checked_mul(len) {
                Some(v) => v,
                None => u64::MAX,
            };
        }
    }
    bytes
}

/// The bytes an enum field occupies; see `enum_bytes`.
fn enum_bytes_of(enum_registry: &EnumDefinitionRegistry, class_registry: &ClassDefinitionRegistry, class_id: u64, def_id: u64) -> (r: u64)
    requires
        enum_registry.wf(),
    ensures
        r == enum_bytes(enum_registry@, class_registry.lookup(), class_id, def_id),
{
    let mut size_bytes: u64 = 4;
    if let Some(def) = class_registry.get_by_id(class_id) {
        if let Some(fd) = find_field_def(def, def_id) {
            if let Some(eid) = fd.enum_id {
                if let Some(ed) = enum_registry.get_by_id(eid) {
                    size_bytes = ed.default_size as u64;
                }
            }
        }
    }
    size_bytes
}

/// The total size of an instance laid out at `address`, or `None` when the layout does not
/// fit (see `layout_inst`).
pub(crate) fn layout_size(
    enum_registry: &EnumDefinitionRegistry,
    class_registry: &ClassDefinitionRegistry,
    instance: &ClassInstance,
    address: u64,
) -> (r: Option<u64>)
    requires
        enum_registry.wf(),
    ensures
        r == match layout_inst(enum_registry@, class_registry.lookup(), instance@, address) {
            Some(v) => Some(v.total_size),
            None => None::<u64>,
        },
    decreases height_inst(instance@),
{
    let ghost er = enum_registry@;
    let ghost look = class_registry.lookup();
    let ghost orig = instance@.fields;
    let ghost cid = instance.class_id;
    proof {
        lemma_fields_view(instance.fields@);
        assert(orig.skip(0) =~= orig);
    }
    let mut current_offset: u64 = 0;
    let mut i: usize = 0;
    while i < instance.fields.len()
        invariant
            enum_registry.wf(),
            er == enum_registry@,
            look == class_registry.lookup(),
            orig == instance@.fields,
            cid == instance.class_id,
            orig.len() == instance.fields@.len(),
            i <= orig.len(),
            forall|j: int| 0 <= j < orig.len() ==> #[trigger] orig[j] == field_view(instance.fields@[j]),
            height_fields(orig) < height_inst(instance@),
            (match layout_fields(er, look, cid, address, orig, 0) {
                Some(v) => Some(v.1),
                None => None::<u64>,
            }) == (match layout_fields(er, look, cid, address, orig.skip(i as int), current_offset) {
                Some(v) => Some(v.1),
                None => None::<u64>,
            }),
        decreases orig.len() - i,
    {
        proof {
            lemma_layout_fields_step(er, look, cid, address, orig, i as int);
        }
        if current_offset > u64::MAX - address {
            return None;
        }
        let addr = address + current_offset;
        let ghost f0 = orig[i as int];
        let ft = instance.fields[i].field_type;
        let advance: u64 = if ft == FieldType::ClassInstance {
            match &instance.fields[i].nested_instance {
                Some(nested) => {
                    proof {
                        lemma_height_fields(orig, i as int);
                    }
                    match layout_size(enum_registry, class_registry, nested, addr) {
                        Some(t) => if t < 1048576 { t } else { 1048576 },
                        None => return None,
                    }
                },
                None => 0,
            }
        } else if ft == FieldType::Array {
            array_bytes_of(enum_registry, class_registry, instance.class_id, instance.fields[i].def_id)
        } else if ft == FieldType::Enum {
            enum_bytes_of(enum_registry, class_registry, instance.class_id, instance.fields[i].def_id)
        } else {
            instance.fields[i].get_size()
        };
        proof {
            assert(layout_step(er, look, cid, f0, addr) matches Some(st) && st.1 == advance);
        }
        current_offset = current_offset.saturating_add(advance);
        i = i + 1;
    }
    proof {
        assert(orig.skip(i as int) =~= Seq::<FieldView>::empty());
    }
    Some(current_offset)
}

/// Lays out an instance in place; see `layout_inst`.
pub(crate) fn recalc_instance_layout(
    enum_registry: &EnumDefinitionRegistry,
    class_registry: &ClassDefinitionRegistry,
    instance: &mut ClassInstance,
)
    requires
        enum_registry.wf(),
        layout_inst(enum_registry@, class_registry.lookup(), old(instance)@, old(instance).address) is Some,
    ensures
        final(instance)@ == layout_inst(enum_registry@, class_registry.lookup(), old(instance)@, old(instance).address)->0,
    decreases height_inst(old(instance)@),
{
    let ghost er = enum_registry@;
    let ghost look = class_registry.lookup();
    let ghost iv = instance@;
    let ghost base = instance.address;
    let ghost cid = instance.class_id;
    let ghost orig = iv.fields;
    proof { lemma_fields_view(instance.fields@); }
    let mut current_offset: u64 = 0;
    let mut i: usize = 0;
    proof {
        assert(orig.skip(0) =~= orig);
        let r = layout_fields(er, look, cid, base, orig, 0)->0;
        assert(fields_view(instance.fields@).take(0) + r.0 =~= r.0);
    }
    while i < instance.fields.len()
        invariant
            enum_registry.wf(),
            er == enum_registry@,
            look == class_registry.lookup(),
            instance.address == base,
            instance.class_id == cid,
            instance.name@ == iv.name,
            instance.total_size == iv.total_size,
            instance.fields@.len() == orig.len(),
            i <= orig.len(),
            iv == old(instance)@,
            orig == iv.fields,
            height_fields(orig) < height_inst(old(instance)@),
            forall|j: int| i <= j < orig.len() ==> field_view(#[trigger] instance.fields@[j]) == orig[j],
            layout_fields(er, look, cid, base, orig, 0) is Some,
            layout_fields(er, look, cid, base, orig, 0) == match layout_fields(er, look, cid, base, orig.skip(i as int), current_offset) {
                Some(rest) => Some((fields_view(instance.fields@).take(i as int) + rest.0, rest.1)),
                None => None::<(Seq<FieldView>, u64)>,
            },
        decreases orig.len() - i,
    {
        proof {
            lemma_layout_fields_step(er, look, cid, base, orig, i as int);
            lemma_fields_view(instance.fields@);
        }
        let ghost before = instance.fields@;
        let ghost f0 = orig[i as int];
        let ghost suffix = layout_fields(er, look, cid, base, orig.skip(i as int), current_offset);
        assert(suffix is Some);
        assert(base + current_offset <= u64::MAX);
        let addr = instance.address + current_offset;
        let ghost st = layout_step(er, look, cid, f0, addr)->0;
        let ghost rest2 = layout_fields(er, look, cid, base, orig.skip(i as int + 1), sat_add(current_offset, st.1))->0;
        assert(layout_step(er, look, cid, f0, addr) is Some);
        assert(suffix == Some((seq![st.0] + rest2.0, rest2.1)));
        instance.fields[i].address = addr;
        let ft = instance.fields[i].field_type;
        let advance: u64 = if ft == FieldType::ClassInstance {
            let taken = instance.fields[i].nested_instance.take();
            match taken {
                Some(nested) => {
                    let mut nested = nested;
                    proof {
                        lemma_height_fields(orig, i as int);
                        lemma_layout_inst_address(er, look, f0.nested->0, addr, addr);
                    }
                    nested.address = addr;
                    assert(nested@ == InstanceView { address: addr, ..f0.nested->0 });
                    recalc_instance_layout(enum_registry, class_registry, &mut nested);
                    let a = if nested.total_size < 1048576 { nested.total_size } else { 1048576 };
                    instance.fields[i].nested_instance = Some(nested);
                    a
                },
                None => 0,
            }
        } else if ft == FieldType::Array {
            array_bytes_of(enum_registry, class_registry, instance.class_id, instance.fields[i].def_id)
        } else if ft == FieldType::Enum {
            enum_bytes_of(enum_registry, class_registry, instance.class_id, instance.fields[i].def_id)
        } else {
            instance.fields[i].get_size()
        };
        proof {
            assert(field_view(instance.fields@[i as int]) == st.0);
            assert(advance == st.1);
        }
        current_offset = current_offset.saturating_add(advance);
        i = i + 1;
        proof {
            lemma_fields_view(instance.fields@);
            lemma_fields_view(before);
            assert forall|j: int| i <= j < orig.len() implies field_view(#[trigger] instance.fields@[j]) == orig[j] by {
                assert(instance.fields@[j] == before[j]);
            }
            assert(fields_view(instance.fields@).take(i as int) =~= fields_view(before).take(i - 1) + seq![st.0]);
            assert(fields_view(before).take(i - 1) + (seq![st.0] + rest2.0) =~= fields_view(instance.fields@).take(i as int) + rest2.0);
        }
    }
    instance.total_size = current_offset;
    proof {
        lemma_fields_view(instance.fields@);
        assert(orig.skip(i as int) =~= Seq::<FieldView>::empty());
        assert(fields_view(instance.fields@).take(i as int) =~= fields_view(instance.fields@));
    }
}

/// The name a nested instance takes from its field.
pub open spec fn nested_name(name: Option<Seq<char>>) -> Seq<char> {
    match name {
        Some(n) => n,
        None => Seq::empty(),
    }
}

/// Binds the nested instance of one field: a class-instance field whose definition names a
/// known class gets a fresh, recursively bound and laid-out instance of that class; other
/// class-instance fields stay as they are; every other field loses any nested instance.
/// `None` when the nesting does not end within `fuel` levels or an address leaves `u64`.
pub open spec fn bind_field(look: spec_fn(u64) -> Option<ClassDefView>, owner: u64, f: FieldView, fuel: nat) -> Option<FieldView>
    decreases fuel, 0nat,
{
    if f.field_type == FieldType::ClassInstance {
        match field_def_of(look, owner, f.def_id) {
            Some(fd) => match fd.class_id {
                Some(cid) => match look(cid) {
                    Some(cd) => match new_instance(nested_name(f.name), f.address, cd) {
                        Some(n0) => if fuel == 0 {
                            None
                        } else {
                            match bind_inst(look, n0, (fuel - 1) as nat) {
                                Some(n1) => match layout_inst(Map::empty(), look, n1, n1.address) {
                                    Some(n2) => Some(FieldView { nested: Some(n2), ..f }),
                                    None => None,
                                },
                                None => None,
                            }
                        },
                        None => None,
                    },
                    None => Some(f),
                },
                None => Some(f),
            },
            None => Some(f),
        }
    } else {
        Some(FieldView { nested: None, ..f })
    }
}

/// Binds the nested instances of all fields of an instance of class `owner`.
pub open spec fn bind_fields(look: spec_fn(u64) -> Option<ClassDefView>, owner: u64, fields: Seq<FieldView>, fuel: nat) -> Option<Seq<FieldView>>
    decreases fuel, fields.len(),
{
    if fields.len() == 0 {
        Some(Seq::empty())
    } else {
        match bind_field(look, owner, fields[0], fuel) {
            Some(f) => match bind_fields(look, owner, fields.drop_first(), fuel) {
                Some(rest) => Some(seq![f] + rest),
                None => None,
            },
            None => None,
        }
    }
}

/// Binds the nested instances of an instance and lays it out (with no enum definitions).
pub open spec fn bind_inst(look: spec_fn(u64) -> Option<ClassDefView>, inst: InstanceView, fuel: nat) -> Option<InstanceView>
    decreases fuel, inst.fields.len() + 1,
{
    match bind_fields(look, inst.class_id, inst.fields, fuel) {
        Some(fs) => layout_inst(Map::empty(), look, InstanceView { fields: fs, ..inst }, inst.address),
        None => None,
    }
}

pub proof fn lemma_layout_keeps(er: Map<u64, EnumDefView>, look: spec_fn(u64) -> Option<ClassDefView>, inst: InstanceView, address: u64)
    requires
        layout_inst(er, look, inst, address) is Some,
    ensures
        layout_inst(er, look, inst, address)->0.address == address,
        layout_inst(er, look, inst, address)->0.class_id == inst.class_id,
        layout_inst(er, look, inst, address)->0.name == inst.name,
{
}

/// Binds the nested instances of `instance` from the registry; see `bind_inst`.
pub(crate) fn build_nested_for_instance(registry: &ClassDefinitionRegistry, instance: &mut ClassInstance, Ghost(fuel): Ghost<nat>)
    requires
        bind_inst(registry.lookup(), old(instance)@, fuel) is Some,
    ensures
        final(instance)@ == bind_inst(registry.lookup(), old(instance)@, fuel)->0,
    decreases fuel, old(instance).fields@.len() + 1,
{
    let ghost look = registry.lookup();
    let ghost iv = instance@;
    let ghost orig = iv.fields;
    let ghost cid = instance.class_id;
    proof {
        lemma_fields_view(instance.fields@);
        assert(orig.skip(0) =~= orig);
        let r = bind_fields(look, cid, orig, fuel)->0;
        assert(fields_view(instance.fields@).take(0) + r =~= r);
    }
    let mut i: usize = 0;
    while i < instance.fields.len()
        invariant
            look == registry.lookup(),
            iv == old(instance)@,
            orig == iv.fields,
            instance.address == iv.address,
            instance.class_id == cid,
            cid == iv.class_id,
            instance.name@ == iv.name,
            instance.total_size == iv.total_size,
            instance.fields@.len() == orig.len(),
            i <= orig.len(),
            forall|j: int| i <= j < orig.len() ==> field_view(#[trigger] instance.fields@[j]) == orig[j],
            bind_fields(look, cid, orig, fuel) is Some,
            bind_fields(look, cid, orig, fuel) == match bind_fields(look, cid, orig.skip(i as int), fuel) {
                Some(rest) => Some(fields_view(instance.fields@).take(i as int) + rest),
                None => None::<Seq<FieldView>>,
            },
        decreases orig.len() - i,
    {
        proof {
            lemma_fields_view(instance.fields@);
            assert(orig.skip(i as int).drop_first() =~= orig.skip(i as int + 1));
            assert(orig.skip(i as int)[0] == orig[i as int]);
        }
        let ghost before = instance.fields@;
        let ghost f0 = orig[i as int];
        let ghost nf = bind_field(look, cid, f0, fuel)->0;
        let ghost rest2 = bind_fields(look, cid, orig.skip(i as int + 1), fuel)->0;
        assert(bind_field(look, cid, f0, fuel) is Some);
        assert(bind_fields(look, cid, orig.skip(i as int), fuel) == Some(seq![nf] + rest2));
        if instance.fields[i].field_type == FieldType::ClassInstance {
            let mut target: Option<ClassDefinition> = None;
            if let Some(def) = registry.get_by_id(instance.class_id) {
                if let Some(field_def) = find_field_def(def, instance.fields[i].def_id) {
                    if let Some(c) = field_def.class_id {
                        if let Some(class_def) = registry.get_by_id(c) {
                            target = Some(class_def.clone());
                        }
                    }
                }
            }
            match target {
                Some(class_def) => {
                    instance.fields[i].nested_instance = None;
                    let nested_name_s = match &instance.fields[i].name {
                        Some(n) => n.clone(),
                        None => String::new(),
                    };
                    let faddr = instance.fields[i].address;
                    assert(new_instance(nested_name(f0.name), f0.address, class_def@) is Some);
                    let mut nested_instance = ClassInstance::new(nested_name_s, faddr, class_def);
                    let ghost n0 = nested_instance@;
                    build_nested_for_instance(registry, &mut nested_instance, Ghost((fuel - 1) as nat));
                    let empty_enums = EnumDefinitionRegistry::new();
                    proof {
                        lemma_layout_keeps(
                            Map::empty(),
                            look,
                            InstanceView { fields: bind_fields(look, n0.class_id, n0.fields, (fuel - 1) as nat)->0, ..n0 },
                            n0.address,
                        );
                    }
                    recalc_instance_layout(&empty_enums, registry, &mut nested_instance);
                    instance.fields[i].nested_instance = Some(nested_instance);
                },
                None => {},
            }
        } else {
            instance.fields[i].nested_instance = None;
        }
        proof {
            assert(field_view(instance.fields@[i as int]) == nf);
        }
        i = i + 1;
        proof {
            lemma_fields_view(instance.fields@);
            lemma_fields_view(before);
            assert forall|j: int| i <= j < orig.len() implies field_view(#[trigger] instance.fields@[j]) == orig[j] by {
                assert(instance.fields@[j] == before[j]);
            }
            assert(fields_view(instance.fields@).take(i as int) =~= fields_view(before).take(i - 1) + seq![nf]);
            assert(fields_view(before).take(i - 1) + (seq![nf] + rest2) =~= fields_view(instance.fields@).take(i as int) + rest2);
        }
    }
    proof {
        lemma_fields_view(instance.fields@);
        assert(orig.skip(i as int) =~= Seq::<FieldView>::empty());
        assert(fields_view(instance.fields@).take(i as int) =~= fields_view(instance.fields@));
        assert(instance@ == InstanceView { fields: bind_fields(look, cid, orig, fuel)->0, ..iv });
    }
    let empty_enums = EnumDefinitionRegistry::new();
    recalc_instance_layout(&empty_enums, registry, instance);
}

/// Whether placing `def` at `address` keeps every field address and the size within `u64`
/// (see `new_instance`).
pub(crate) fn new_instance_fits(address: u64, def: &ClassDefinition) -> (r: bool)
    ensures
        r == new_instance(Seq::empty(), address, def@) is Some,
{
    let ghost d = def@;
    let mut sum: u64 = 0;
    let mut i: usize = 0;
    while i < def.fields.len()
        invariant
            d == def@,
            i <= d.fields.len(),
            sum == size_sum(d.fields, i as int),
            forall|j: int| 0 <= j < i ==> address + #[trigger] d.fields[j].offset <= u64::MAX,
        decreases d.fields.len() - i,
    {
        let f = &def.fields[i];
        if f.offset > u64::MAX - address {
            assert(address + d.fields[i as int].offset > u64::MAX);
            return false;
        }
        if !f.field_type.is_dynamic_size() {
            let size = f.get_size();
            if size > u64::MAX - sum {
                proof {
                    lemma_size_sum_mono(d.fields, i as int + 1, d.fields.len() as int);
                }
                return false;
            }
            sum = sum + size;
        }
        i = i + 1;
    }
    true
}

/// Binding with more fuel than needed gives the same field.
proof fn lemma_bind_field_mono(look: spec_fn(u64) -> Option<ClassDefView>, owner: u64, f: FieldView, f1: nat, f2: nat)
    requires
        f1 <= f2,
        bind_field(look, owner, f, f1) is Some,
    ensures
        bind_field(look, owner, f, f2) == bind_field(look, owner, f, f1),
    decreases f1, 0nat,
{
    if f.field_type == FieldType::ClassInstance {
        if let Some(fd) = field_def_of(look, owner, f.def_id) {
            if let Some(cid) = fd.class_id {
                if let Some(cd) = look(cid) {
                    if let Some(n0) = new_instance(nested_name(f.name), f.address, cd) {
                        lemma_bind_inst_mono(look, n0, (f1 - 1) as nat, (f2 - 1) as nat);
                    }
                }
            }
        }
    }
}

/// Binding a run of fields with more fuel than needed gives the same fields.
proof fn lemma_bind_fields_mono(look: spec_fn(u64) -> Option<ClassDefView>, owner: u64, fields: Seq<FieldView>, f1: nat, f2: nat)
    requires
        f1 <= f2,
        bind_fields(look, owner, fields, f1) is Some,
    ensures
        bind_fields(look, owner, fields, f2) == bind_fields(look, owner, fields, f1),
    decreases f1, fields.len(),
{
    if fields.len() > 0 {
        lemma_bind_field_mono(look, owner, fields[0], f1, f2);
        lemma_bind_fields_mono(look, owner, fields.drop_first(), f1, f2);
    }
}

/// Binding an instance with more fuel than needed gives the same instance.
proof fn lemma_bind_inst_mono(look: spec_fn(u64) -> Option<ClassDefView>, inst: InstanceView, f1: nat, f2: nat)
    requires
        f1 <= f2,
        bind_inst(look, inst, f1) is Some,
    ensures
        bind_inst(look, inst, f2) == bind_inst(look, inst, f1),
    decreases f1, inst.fields.len() + 1,
{
    lemma_bind_fields_mono(look, inst.class_id, inst.fields, f1, f2);
}

/// Every amount of fuel that binds an instance gives the same result.
pub(crate) proof fn lemma_bind_inst_unique(look: spec_fn(u64) -> Option<ClassDefView>, inst: InstanceView, f1: nat, f2: nat)
    requires
        bind_inst(look, inst, f1) is Some,
        bind_inst(look, inst, f2) is Some,
    ensures
        bind_inst(look, inst, f1) == bind_inst(look, inst, f2),
{
    if f1 <= f2 {
        lemma_bind_inst_mono(look, inst, f1, f2);
    } else {
        lemma_bind_inst_mono(look, inst, f2, f1);
    }
}

/// Binds the nested instances of `instance` as `bind_inst` does with `fuel`, checking every
/// step; `false` when that binding fails (the instance is then left in an unspecified state).
pub(crate) fn try_build_nested(registry: &ClassDefinitionRegistry, instance: &mut ClassInstance, fuel: u64) -> (ok: bool)
    ensures
        ok == bind_inst(registry.lookup(), old(instance)@, fuel as nat) is Some,
        ok ==> final(instance)@ == bind_inst(registry.lookup(), old(instance)@, fuel as nat)->0,
    decreases fuel,
{
    let ghost look = registry.lookup();
    let ghost iv = instance@;
    let ghost orig = iv.fields;
    let ghost cid = instance.class_id;
    let ghost fl = fuel as nat;
    proof {
        lemma_fields_view(instance.fields@);
        assert(orig.skip(0) =~= orig);
        assert forall|r: Seq<FieldView>| fields_view(instance.fields@).take(0) + r =~= r by {}
    }
    let mut i: usize = 0;
    while i < instance.fields.len()
        invariant
            look == registry.lookup(),
            fl == fuel as nat,
            iv == old(instance)@,
            orig == iv.fields,
            instance.address == iv.address,
            instance.class_id == cid,
            cid == iv.class_id,
            instance.name@ == iv.name,
            instance.total_size == iv.total_size,
            instance.fields@.len() == orig.len(),
            i <= orig.len(),
            forall|j: int| i <= j < orig.len() ==> field_view(#[trigger] instance.fields@[j]) == orig[j],
            bind_fields(look, cid, orig, fl) == match bind_fields(look, cid, orig.skip(i as int), fl) {
                Some(rest) => Some(fields_view(instance.fields@).take(i as int) + rest),
                None => None::<Seq<FieldView>>,
            },
        decreases orig.len() - i,
    {
        proof {
            lemma_fields_view(instance.fields@);
            assert(orig.skip(i as int).drop_first() =~= orig.skip(i as int + 1));
            assert(orig.skip(i as int)[0] == orig[i as int]);
        }
        let ghost before = instance.fields@;
        let ghost f0 = orig[i as int];
        if instance.fields[i].field_type == FieldType::ClassInstance {
            let mut target: Option<ClassDefinition> = None;
            if let Some(def) = registry.get_by_id(instance.class_id) {
                if let Some(field_def) = find_field_def(def, instance.fields[i].def_id) {
                    if let Some(c) = field_def.class_id {
                        if let Some(class_def) = registry.get_by_id(c) {
                            target = Some(class_def.clone());
                        }
                    }
                }
            }
            match target {
                Some(class_def) => {
                    let faddr = instance.fields[i].address;
                    if !new_instance_fits(faddr, &class_def) || fuel == 0 {
                        return false;
                    }
                    let nested_name_s = match &instance.fields[i].name {
                        Some(n) => n.clone(),
                        None => String::new(),
                    };
                    let mut nested_instance = ClassInstance::new(nested_name_s, faddr, class_def);
                    let ghost n0 = nested_instance@;
                    if !try_build_nested(registry, &mut nested_instance, fuel - 1) {
                        return false;
                    }
                    let empty_enums = EnumDefinitionRegistry::new();
                    proof {
                        lemma_layout_keeps(
                            Map::empty(),
                            look,
                            InstanceView { fields: bind_fields(look, n0.class_id, n0.fields, (fuel - 1) as nat)->0, ..n0 },
                            n0.address,
                        );
                    }
                    if layout_size(&empty_enums, registry, &nested_instance, nested_instance.address).is_none() {
                        return false;
                    }
                    recalc_instance_layout(&empty_enums, registry, &mut nested_instance);
                    instance.fields[i].nested_instance = Some(nested_instance);
                },
                None => {},
            }
        } else {
            instance.fields[i].nested_instance = None;
        }
        let ghost nf = bind_field(look, cid, f0, fl)->0;
        let ghost rest2 = bind_fields(look, cid, orig.skip(i as int + 1), fl);
        proof {
            assert(bind_field(look, cid, f0, fl) == Some(field_view(instance.fields@[i as int])));
        }
        i = i + 1;
        proof {
            lemma_fields_view(instance.fields@);
            lemma_fields_view(before);
            assert forall|j: int| i <= j < orig.len() implies field_view(#[trigger] instance.fields@[j]) == orig[j] by {
                assert(instance.fields@[j] == before[j]);
            }
            assert(fields_view(instance.fields@).take(i as int) =~= fields_view(before).take(i - 1) + seq![nf]);
            if let Some(r2) = rest2 {
                assert(fields_view(before).take(i - 1) + (seq![nf] + r2) =~= fields_view(instance.fields@).take(i as int) + r2);
            }
        }
    }
    proof {
        lemma_fields_view(instance.fields@);
        assert(orig.skip(i as int) =~= Seq::<FieldView>::empty());
        assert(fields_view(instance.fields@).take(i as int) =~= fields_view(instance.fields@));
        assert(instance@ == InstanceView { fields: bind_fields(look, cid, orig, fl)->0, ..iv });
    }
    let empty_enums = EnumDefinitionRegistry::new();
    if layout_size(&empty_enums, registry, instance, instance.address).is_none() {
        return false;
    }
    recalc_instance_layout(&empty_enums, registry, instance);
    true
}

/// A copy of a field, nested instance included.
pub fn clone_field(f: &MemoryField) -> (r: MemoryField)
    ensures
        r@ == f@,
    decreases f, 1nat,
{
    let nested_instance = match &f.nested_instance {
        Some(n) => Some(clone_instance(n)),
        None => None,
    };
    let data = match &f.data {
        Some(d) => Some(d.clone()),
        None => None,
    };
    proof {
        if let Some(d) = &f.data {
            assert(data->0@ =~= d@);
        }
    }
    MemoryField {
        def_id: f.def_id,
        name: clone_opt_string(&f.name),
        field_type: f.field_type,
        address: f.address,
        data,
        error: clone_opt_string(&f.error),
        is_editing: f.is_editing,
        nested_instance,
        pointer_target: clone_opt_target(&f.pointer_target),
        enum_size: f.enum_size,
    }
}

/// A copy of an instance, nested instances included.
pub fn clone_instance(inst: &ClassInstance) -> (r: ClassInstance)
    ensures
        r@ == inst@,
    decreases inst, 0nat,
{
    let mut fields: Vec<MemoryField> = Vec::new();
    let mut i: usize = 0;
    while i < inst.fields.len()
        invariant
            i <= inst.fields@.len(),
            fields@.len() == i,
            forall|j: int| 0 <= j < i ==> field_view(#[trigger] fields@[j]) == field_view(inst.fields@[j]),
        decreases inst.fields@.len() - i,
    {
        proof {
            assert(decreases_to!(inst => inst.fields));
            assert(decreases_to!(inst.fields => inst.fields@));
            assert(decreases_to!(inst.fields@ => inst.fields@[i as int]));
        }
        let f = clone_field(&inst.fields[i]);
        fields.push(f);
        i = i + 1;
    }
    let r = ClassInstance {
        name: inst.name.clone(),
        address: inst.address,
        class_id: inst.class_id,
        fields,
        total_size: inst.total_size,
    };
    proof {
        lemma_fields_view_ext(r.fields@, inst.fields@);
    }
    r
}

impl Clone for MemoryField {
    fn clone(&self) -> (r: Self)
        ensures
            r@ == self@,
    {
        clone_field(self)
    }
}

impl Clone for ClassInstance {
    fn clone(&self) -> (r: Self)
        ensures
            r@ == self@,
    {
        clone_instance(self)
    }
}


/// The fields a layout gives (none when it fails).
spec fn laid_fields(
    er: Map<u64, EnumDefView>,
    look: spec_fn(u64) -> Option<ClassDefView>,
    class_id: u64,
    base: u64,
    fields: Seq<FieldView>,
    cur: u64,
) -> Seq<FieldView> {
    match layout_fields(er, look, class_id, base, fields, cur) {
        Some(r) => r.0,
        None => Seq::empty(),
    }
}

/// How far laying out one field moves the running offset.
spec fn step_bytes(er: Map<u64, EnumDefView>, look: spec_fn(u64) -> Option<ClassDefView>, class_id: u64, f: FieldView, addr: u64) -> u64 {
    match layout_step(er, look, class_id, f, addr) {
        Some(st) => st.1,
        None => 0,
    }
}

/// Laying out fields keeps their number.
proof fn lemma_layout_fields_len(
    er: Map<u64, EnumDefView>,
    look: spec_fn(u64) -> Option<ClassDefView>,
    class_id: u64,
    base: u64,
    fields: Seq<FieldView>,
    cur: u64,
)
    requires
        layout_fields(er, look, class_id, base, fields, cur) is Some,
    ensures
        laid_fields(er, look, class_id, base, fields, cur).len() == fields.len(),
    decreases fields.len(),
{
    if fields.len() > 0 {
        let b = step_bytes(er, look, class_id, fields[0], (base + cur) as u64);
        lemma_layout_fields_len(er, look, class_id, base, fields.drop_first(), sat_add(cur, b));
    }
}

/// In laid-out fields, each field after the first starts where the one before it starts plus
/// the bytes the one before it occupies (while addresses stay within 64 bits).
proof fn lemma_layout_fields_next(
    er: Map<u64, EnumDefView>,
    look: spec_fn(u64) -> Option<ClassDefView>,
    class_id: u64,
    base: u64,
    fields: Seq<FieldView>,
    cur: u64,
    i: int,
)
    requires
        layout_fields(er, look, class_id, base, fields, cur) is Some,
        0 <= i,
        i + 1 < fields.len(),
    ensures
        ({
            let r = laid_fields(er, look, class_id, base, fields, cur);
            let b = step_bytes(er, look, class_id, fields[i], r[i].address);
            r[i].address + b <= u64::MAX ==> r[i + 1].address == r[i].address + b
        }),
    decreases i,
{
    let st0 = layout_step(er, look, class_id, fields[0], (base + cur) as u64)->0;
    let cur1 = sat_add(cur, st0.1);
    let rest = laid_fields(er, look, class_id, base, fields.drop_first(), cur1);
    let r = laid_fields(er, look, class_id, base, fields, cur);
    assert(r == seq![st0.0] + rest);
    if i == 0 {
        assert(st0.0.address == base + cur);
        let st1 = layout_step(er, look, class_id, fields.drop_first()[0], (base + cur1) as u64)->0;
        assert(st1.0.address == base + cur1);
        assert(rest[0] == st1.0);
        assert(r[1] == rest[0]);
    } else {
        lemma_layout_fields_next(er, look, class_id, base, fields.drop_first(), cur1, i - 1);
        lemma_layout_fields_len(er, look, class_id, base, fields.drop_first(), cur1);
        assert(fields.drop_first()[i - 1] == fields[i]);
        assert(r[i] == rest[i - 1]);
        assert(r[i + 1] == rest[i]);
    }
}

/// The bytes one element of an array occupies: a primitive's size, an enum's size when the
/// enum is registered, a class's total size when the class is found, and nothing otherwise.
pub open spec fn element_bytes(er: Map<u64, EnumDefView>, look: spec_fn(u64) -> Option<ClassDefView>, fd: FieldDefinition) -> int {
    match fd.array_element {
        Some(PointerTarget::FieldType(t)) => type_size(t) as int,
        Some(PointerTarget::EnumId(e)) => if er.contains_key(e) { er[e].default_size as int } else { 0 },
        Some(PointerTarget::ClassId(c)) => match look(c) {
            Some(cd) => cd.total_size as int,
            None => 0,
        },
        _ => 0,
    }
}

/// In a laid-out instance, the field after an array field starts the bytes of one element
/// (see `element_bytes`) times the array's length after the array field, while addresses stay
/// within 64 bits; an array of a registered class `C` spans `C`'s total size per element.
pub proof fn law_array_spans_its_elements(
    er: Map<u64, EnumDefView>,
    look: spec_fn(u64) -> Option<ClassDefView>,
    inst: InstanceView,
    address: u64,
    i: int,
    fd: FieldDefinition,
)
    requires
        layout_inst(er, look, inst, address) is Some,
        0 <= i,
        i + 1 < inst.fields.len(),
        inst.fields[i].field_type == FieldType::Array,
        field_def_of(look, inst.class_id, inst.fields[i].def_id) == Some(fd),
    ensures
        ({
            let out = layout_inst(er, look, inst, address)->0;
            let bytes = element_bytes(er, look, fd) * match fd.array_length {
                Some(n) => n as int,
                None => 0,
            };
            &&& out.fields.len() == inst.fields.len()
            &&& out.fields[i].address + bytes <= u64::MAX ==> out.fields[i + 1].address == out.fields[i].address + bytes
        }),
{
    lemma_layout_fields_len(er, look, inst.class_id, address, inst.fields, 0);
    lemma_layout_fields_next(er, look, inst.class_id, address, inst.fields, 0, i);
    let r = laid_fields(er, look, inst.class_id, address, inst.fields, 0);
    assert(layout_inst(er, look, inst, address)->0.fields == r);
    let b = step_bytes(er, look, inst.class_id, inst.fields[i], r[i].address);
    assert(b == array_bytes(er, look, inst.class_id, inst.fields[i].def_id));
    let e = element_size(er, look, fd.array_element);
    let l: u64 = match fd.array_length {
        Some(n) => n as u64,
        None => 0,
    };
    assert(e == element_bytes(er, look, fd));
    if e * l > u64::MAX {
        assert(b == u64::MAX);
    }
}


/// In a laid-out instance, the field after a field of fixed size (not an embedded instance,
/// an array or an enum) starts that size after it, and the field after an enum field starts
/// its enum's size after it (four bytes when the field names no registered enum), while
/// addresses stay within 64 bits.
pub proof fn law_fields_follow_each_other(
    er: Map<u64, EnumDefView>,
    look: spec_fn(u64) -> Option<ClassDefView>,
    inst: InstanceView,
    address: u64,
    i: int,
)
    requires
        layout_inst(er, look, inst, address) is Some,
        0 <= i,
        i + 1 < inst.fields.len(),
        inst.fields[i].field_type != FieldType::Array,
        inst.fields[i].field_type != FieldType::ClassInstance,
    ensures
        ({
            let out = layout_inst(er, look, inst, address)->0;
            let t = inst.fields[i].field_type;
            let bytes: int = if t == FieldType::Enum {
                match field_def_of(look, inst.class_id, inst.fields[i].def_id) {
                    Some(fd) => match fd.enum_id {
                        Some(e) => if er.contains_key(e) { er[e].default_size as int } else { 4 },
                        None => 4,
                    },
                    None => 4,
                }
            } else {
                type_size(t) as int
            };
            &&& out.fields.len() == inst.fields.len()
            &&& out.fields[i].address + bytes <= u64::MAX ==> out.fields[i + 1].address == out.fields[i].address + bytes
        }),
{
    lemma_layout_fields_len(er, look, inst.class_id, address, inst.fields, 0);
    lemma_layout_fields_next(er, look, inst.class_id, address, inst.fields, 0, i);
    let r = laid_fields(er, look, inst.class_id, address, inst.fields, 0);
    assert(layout_inst(er, look, inst, address)->0.fields == r);
}

} // verus!
