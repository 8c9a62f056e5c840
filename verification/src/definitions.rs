//! Class, field and enum definitions, their ids, and how a class lays its fields out.
use vstd::prelude::*;
use vstd::string::StringExecFns;

use crate::keyed::vec_contains;
use crate::text::{decimal, u64_to_decimal};
use crate::types::{is_dynamic, is_hex, type_size, FieldType, PointerTarget};

verus! {

/// The counter step of an id source: the next value, wrapping at the top of `u64`.
pub open spec fn bump(x: u64) -> u64 {
    if x == u64::MAX {
        0
    } else {
        (x + 1) as u64
    }
}

/// Sources of fresh ids for field, class and enum definitions.
///
/// Each counter hands out its current value and moves on by one.
#[derive(Debug, Clone, Copy, PartialEq, Eq, Structural)]
pub struct IdCounters {
    pub next_field_id: u64,
    pub next_class_def_id: u64,
    pub next_enum_def_id: u64,
}

impl IdCounters {
    /// All counters start at 1.
    pub fn new() -> (r: Self)
        ensures
            r.next_field_id == 1,
            r.next_class_def_id == 1,
            r.next_enum_def_id == 1,
    {
        IdCounters { next_field_id: 1, next_class_def_id: 1, next_enum_def_id: 1 }
    }

    /// Hands out a fresh field id.
    pub fn next_field_id(&mut self) -> (id: u64)
        ensures
            id == old(self).next_field_id,
            final(self).next_field_id == bump(id),
            final(self).next_class_def_id == old(self).next_class_def_id,
            final(self).next_enum_def_id == old(self).next_enum_def_id,
    {
        let id = self.next_field_id;
        self.next_field_id = id.wrapping_add(1);
        id
    }

    /// Hands out a fresh class definition id.
    pub fn next_class_def_id(&mut self) -> (id: u64)
        ensures
            id == old(self).next_class_def_id,
            final(self).next_class_def_id == bump(id),
            final(self).next_field_id == old(self).next_field_id,
            final(self).next_enum_def_id == old(self).next_enum_def_id,
    {
        let id = self.next_class_def_id;
        self.next_class_def_id = id.wrapping_add(1);
        id
    }

    /// Hands out a fresh enum definition id.
    pub fn next_enum_def_id(&mut self) -> (id: u64)
        ensures
            id == old(self).next_enum_def_id,
            final(self).next_enum_def_id == bump(id),
            final(self).next_field_id == old(self).next_field_id,
            final(self).next_class_def_id == old(self).next_class_def_id,
    {
        let id = self.next_enum_def_id;
        self.next_enum_def_id = id.wrapping_add(1);
        id
    }
}

pub fn clone_opt_string(s: &Option<String>) -> (r: Option<String>)
    ensures
        r == *s,
{
    match s {
        Some(x) => Some(x.clone()),
        None => None,
    }
}

pub fn clone_opt_target(t: &Option<PointerTarget>) -> (r: Option<PointerTarget>)
    ensures
        r == *t,
{
    match t {
        Some(x) => Some(x.clone()),
        None => None,
    }
}

/// Represents a field in a class definition
#[derive(Debug)]
pub struct FieldDefinition {
    pub id: u64,
    pub name: Option<String>,
    pub field_type: FieldType,
    pub offset: u64,
    pub class_id: Option<u64>,
    pub pointer_target: Option<PointerTarget>,
    pub enum_id: Option<u64>,
    pub enum_size: Option<u8>,
    pub array_element: Option<PointerTarget>,
    pub array_length: Option<u32>,
}

impl Clone for FieldDefinition {
    fn clone(&self) -> (r: Self)
        ensures
            r == *self,
    {
        FieldDefinition {
            id: self.id,
            name: clone_opt_string(&self.name),
            field_type: self.field_type,
            offset: self.offset,
            class_id: self.class_id,
            pointer_target: clone_opt_target(&self.pointer_target),
            enum_id: self.enum_id,
            enum_size: self.enum_size,
            array_element: clone_opt_target(&self.array_element),
            array_length: self.array_length,
        }
    }
}

/// A field with the given id, name, type and offset and no further metadata.
pub open spec fn plain_field(id: u64, name: Option<String>, t: FieldType, offset: u64) -> FieldDefinition {
    FieldDefinition {
        id,
        name,
        field_type: t,
        offset,
        class_id: None,
        pointer_target: None,
        enum_id: None,
        enum_size: None,
        array_element: None,
        array_length: None,
    }
}

impl FieldDefinition {
    /// A field with a fresh id.
    pub fn new(ids: &mut IdCounters, name: Option<String>, field_type: FieldType, offset: u64) -> (r: Self)
        ensures
            r == plain_field(old(ids).next_field_id, name, field_type, offset),
            final(ids).next_field_id == bump(old(ids).next_field_id),
            final(ids).next_class_def_id == old(ids).next_class_def_id,
            final(ids).next_enum_def_id == old(ids).next_enum_def_id,
    {
        let id = ids.next_field_id();
        FieldDefinition {
            id,
            name,
            field_type,
            offset,
            class_id: None,
            pointer_target: None,
            enum_id: None,
            enum_size: None,
            array_element: None,
            array_length: None,
        }
    }

    /// A named field with a fresh id.
    pub fn new_named(ids: &mut IdCounters, name: String, field_type: FieldType, offset: u64) -> (r: Self)
        ensures
            r == plain_field(old(ids).next_field_id, Some(name), field_type, offset),
            final(ids).next_field_id == bump(old(ids).next_field_id),
            final(ids).next_class_def_id == old(ids).next_class_def_id,
            final(ids).next_enum_def_id == old(ids).next_enum_def_id,
    {
        Self::new(ids, Some(name), field_type, offset)
    }

    /// An unnamed (hex) field with a fresh id.
    pub fn new_hex(ids: &mut IdCounters, field_type: FieldType, offset: u64) -> (r: Self)
        ensures
            r == plain_field(old(ids).next_field_id, None, field_type, offset),
            final(ids).next_field_id == bump(old(ids).next_field_id),
            final(ids).next_class_def_id == old(ids).next_class_def_id,
            final(ids).next_enum_def_id == old(ids).next_enum_def_id,
    {
        Self::new(ids, None, field_type, offset)
    }

    /// The fixed size of the field's type.
    pub fn get_size(&self) -> (r: u64)
        ensures
            r == type_size(self.field_type),
    {
        self.field_type.get_size()
    }
}

/// `a + b`, stopping at `u64::MAX`.
pub open spec fn sat_add(a: u64, b: u64) -> u64 {
    if a + b > u64::MAX {
        u64::MAX
    } else {
        (a + b) as u64
    }
}

/// How far a field moves the running offset of a class layout.
pub open spec fn advance(t: FieldType) -> u64 {
    if is_dynamic(t) {
        0
    } else {
        type_size(t)
    }
}

/// The offset at which field `i` starts: the (saturating) sum of the fixed sizes before it.
pub open spec fn offset_before(fields: Seq<FieldDefinition>, i: int) -> u64
    decreases i,
{
    if i <= 0 {
        0
    } else {
        sat_add(offset_before(fields, i - 1), advance(fields[i - 1].field_type))
    }
}

/// The same field placed at another offset.
pub open spec fn at_offset(f: FieldDefinition, offset: u64) -> FieldDefinition {
    FieldDefinition { offset, ..f }
}

/// The fields with every offset recomputed from the sizes before it.
pub open spec fn relaid(fields: Seq<FieldDefinition>) -> Seq<FieldDefinition> {
    Seq::new(fields.len(), |i: int| at_offset(fields[i], offset_before(fields, i)))
}

/// Offsets only depend on the field types, so laying out twice changes nothing.
pub proof fn lemma_offset_before_types(a: Seq<FieldDefinition>, b: Seq<FieldDefinition>, i: int)
    requires
        a.len() == b.len(),
        0 <= i <= a.len(),
        forall|j: int| 0 <= j < a.len() ==> a[j].field_type == b[j].field_type,
    ensures
        offset_before(a, i) == offset_before(b, i),
    decreases i,
{
    if i > 0 {
        lemma_offset_before_types(a, b, i - 1);
    }
}

proof fn lemma_offset_before_prefix(a: Seq<FieldDefinition>, b: Seq<FieldDefinition>, i: int)
    requires
        0 <= i <= a.len(),
        i <= b.len(),
        forall|j: int| 0 <= j < i ==> a[j].field_type == b[j].field_type,
    ensures
        offset_before(a, i) == offset_before(b, i),
    decreases i,
{
    if i > 0 {
        lemma_offset_before_prefix(a, b, i - 1);
    }
}

/// Fields that differ only in their offsets lay out the same.
proof fn lemma_relaid_ignores_offsets(a: Seq<FieldDefinition>, b: Seq<FieldDefinition>)
    requires
        a.len() == b.len(),
        forall|j: int| 0 <= j < a.len() ==> #[trigger] at_offset(a[j], 0) == at_offset(b[j], 0),
    ensures
        relaid(a) == relaid(b),
{
    assert forall|j: int| 0 <= j < a.len() implies a[j].field_type == b[j].field_type by {
        assert(at_offset(a[j], 0).field_type == at_offset(b[j], 0).field_type);
    }
    assert forall|j: int| 0 <= j < a.len() implies #[trigger] relaid(a)[j] == relaid(b)[j] by {
        lemma_offset_before_types(a, b, j);
        assert(at_offset(a[j], 0) == at_offset(b[j], 0));
    }
    assert(relaid(a) =~= relaid(b));
}

/// Appending a field moves the total size of a class on by the field's fixed size (stopping
/// at `u64::MAX`); class-instance and array fields add nothing.
pub proof fn law_append_grows_total(d: ClassDefView, f: FieldDefinition)
    requires
        laid_out(d),
    ensures
        offset_before(d.fields.push(f), d.fields.len() + 1int) == sat_add(d.total_size, advance(f.field_type)),
{
    let s = d.fields.push(f);
    lemma_offset_before_prefix(s, d.fields, d.fields.len() as int);
    lemma_offset_before_types(d.fields, relaid(d.fields), d.fields.len() as int);
}

/// Inserting a hex field into a laid-out class and removing it again gives back the fields.
pub proof fn law_insert_then_remove(d: ClassDefView, index: int, f: FieldDefinition)
    requires
        laid_out(d),
        0 <= index <= d.fields.len(),
    ensures
        relaid(relaid(d.fields.insert(index, f)).remove(index)) == d.fields,
{
    let x = d.fields.insert(index, f);
    let y = relaid(x).remove(index);
    assert(x.remove(index) =~= d.fields);
    assert forall|j: int| 0 <= j < y.len() implies #[trigger] at_offset(y[j], 0) == at_offset(d.fields[j], 0) by {
        if j < index {
            assert(y[j] == relaid(x)[j]);
            assert(x[j] == d.fields[j]);
        } else {
            assert(y[j] == relaid(x)[j + 1]);
            assert(x[j + 1] == d.fields[j]);
        }
    }
    lemma_relaid_ignores_offsets(y, d.fields);
}

/// The hex field types that fill `n` bytes: eight-byte fields while eight or more bytes
/// remain, then four-, two- and one-byte fields.
pub open spec fn hex_fill(n: nat) -> Seq<FieldType>
    decreases n,
{
    if n >= 8 {
        seq![FieldType::Hex64] + hex_fill((n - 8) as nat)
    } else if n >= 4 {
        seq![FieldType::Hex32] + hex_fill((n - 4) as nat)
    } else if n >= 2 {
        seq![FieldType::Hex16] + hex_fill((n - 2) as nat)
    } else if n >= 1 {
        seq![FieldType::Hex8] + hex_fill((n - 1) as nat)
    } else {
        Seq::empty()
    }
}

/// The id counter after handing out `k` ids.
pub open spec fn bumps(x: u64, k: nat) -> u64
    decreases k,
{
    if k == 0 {
        x
    } else {
        bump(bumps(x, (k - 1) as nat))
    }
}

/// Unnamed fields of the given types with consecutive fresh ids from `start`.
pub open spec fn hex_run(start: u64, ts: Seq<FieldType>) -> Seq<FieldDefinition> {
    Seq::new(ts.len(), |j: int| plain_field(bumps(start, j as nat), None, ts[j], 0))
}

/// The total size of fields of the given fixed-size types.
pub open spec fn types_size(ts: Seq<FieldType>) -> nat
    decreases ts.len(),
{
    if ts.len() == 0 {
        0
    } else {
        types_size(ts.drop_last()) + type_size(ts.last()) as nat
    }
}

proof fn lemma_hex_fill_size(n: nat)
    ensures
        types_size(hex_fill(n)) == n,
        forall|j: int| 0 <= j < hex_fill(n).len() ==> is_hex(#[trigger] hex_fill(n)[j]),
    decreases n,
{
    if n >= 1 {
        let step: nat = if n >= 8 { 8 } else if n >= 4 { 4 } else if n >= 2 { 2 } else { 1 };
        let t = if n >= 8 { FieldType::Hex64 } else if n >= 4 { FieldType::Hex32 } else if n >= 2 { FieldType::Hex16 } else { FieldType::Hex8 };
        let rest = hex_fill((n - step) as nat);
        lemma_hex_fill_size((n - step) as nat);
        assert(hex_fill(n) == seq![t] + rest);
        lemma_types_size_prepend(t, rest);
        assert forall|j: int| 0 <= j < hex_fill(n).len() implies is_hex(#[trigger] hex_fill(n)[j]) by {
            if j > 0 {
                assert(hex_fill(n)[j] == rest[j - 1]);
            }
        }
    }
}

proof fn lemma_types_size_prepend(t: FieldType, ts: Seq<FieldType>)
    ensures
        types_size(seq![t] + ts) == type_size(t) + types_size(ts),
    decreases ts.len(),
{
    let s = seq![t] + ts;
    if ts.len() > 0 {
        assert(s.drop_last() =~= seq![t] + ts.drop_last());
        assert(s.last() == ts.last());
        lemma_types_size_prepend(t, ts.drop_last());
    } else {
        assert(s.drop_last() =~= Seq::<FieldType>::empty());
        assert(s.last() == t);
        assert(types_size(Seq::<FieldType>::empty()) == 0);
    }
}

proof fn lemma_insert_step(
    f0: Seq<FieldDefinition>,
    p: int,
    start: u64,
    added: Seq<FieldType>,
    before: Seq<FieldDefinition>,
    t: FieldType,
    id: u64,
)
    requires
        0 <= p <= f0.len(),
        added.len() > 0 ==> before == relaid(f0.take(p) + hex_run(start, added) + f0.skip(p)),
        added.len() == 0 ==> before == f0,
        before.len() == f0.len() + added.len(),
        id == bumps(start, added.len()),
    ensures
        relaid(before.insert(p + added.len(), plain_field(id, None, t, 0)))
            == relaid(f0.take(p) + hex_run(start, added.push(t)) + f0.skip(p)),
{
    let q = p + added.len();
    let run1 = hex_run(start, added.push(t));
    assert(run1 =~= hex_run(start, added).push(plain_field(id, None, t, 0)));
    let a = before.insert(q, plain_field(id, None, t, 0));
    let b = f0.take(p) + run1 + f0.skip(p);
    assert(a.len() == b.len());
    assert forall|j: int| 0 <= j < a.len() implies #[trigger] at_offset(a[j], 0) == at_offset(b[j], 0) by {
        if added.len() > 0 {
            let c = f0.take(p) + hex_run(start, added) + f0.skip(p);
            if j < q {
                assert(a[j] == before[j]);
                assert(before[j] == relaid(c)[j]);
                assert(c[j] == b[j]);
            } else if j > q {
                assert(a[j] == before[j - 1]);
                assert(before[j - 1] == relaid(c)[j - 1]);
                assert(c[j - 1] == b[j]);
            }
        } else {
            if j < q {
                assert(a[j] == f0[j]);
                assert(b[j] == f0[j]);
            } else if j > q {
                assert(a[j] == f0[j - 1]);
                assert(b[j] == f0[j - 1]);
            }
        }
    }
    lemma_relaid_ignores_offsets(a, b);
}

proof fn lemma_offset_append(a: Seq<FieldDefinition>, ts: Seq<FieldType>, start: u64)
    requires
        forall|j: int| 0 <= j < ts.len() ==> !is_dynamic(#[trigger] ts[j]),
        offset_before(a, a.len() as int) + types_size(ts) <= u64::MAX,
    ensures
        offset_before(a + hex_run(start, ts), (a.len() + ts.len()) as int) == offset_before(a, a.len() as int) + types_size(ts),
    decreases ts.len(),
{
    let x = a + hex_run(start, ts);
    if ts.len() > 0 {
        let t0 = ts.drop_last();
        let y = a + hex_run(start, t0);
        assert forall|j: int| 0 <= j < a.len() + t0.len() implies x[j].field_type == y[j].field_type by {
            if j >= a.len() {
                assert(x[j] == hex_run(start, ts)[j - a.len()]);
                assert(y[j] == hex_run(start, t0)[j - a.len()]);
            }
        }
        lemma_offset_before_prefix(x, y, (a.len() + t0.len()) as int);
        assert forall|j: int| 0 <= j < t0.len() implies !is_dynamic(#[trigger] t0[j]) by {
            assert(t0[j] == ts[j]);
        }
        assert(types_size(ts) == types_size(t0) + type_size(ts.last()));
        lemma_offset_append(a, t0, start);
        assert(x[(a.len() + t0.len()) as int].field_type == ts.last());
        assert(!is_dynamic(ts[ts.len() - 1]));
    } else {
        assert(x =~= a);
    }
}

/// Adding hex fields for `n` bytes to a laid-out class grows its total size by exactly `n`
/// (when that stays within 64 bits).
pub proof fn law_hex_bytes_grow_total(d: ClassDefView, start: u64, n: nat)
    requires
        laid_out(d),
        d.total_size + n <= u64::MAX,
    ensures
        offset_before(
            relaid(d.fields + hex_run(start, hex_fill(n))),
            (d.fields.len() + hex_fill(n).len()) as int,
        ) == d.total_size + n,
{
    let ts = hex_fill(n);
    lemma_hex_fill_size(n);
    let x = d.fields + hex_run(start, ts);
    lemma_offset_append(d.fields, ts, start);
    lemma_offset_before_types(x, relaid(x), x.len() as int);
}

/// The mathematical content of a class definition.
pub struct ClassDefView {
    pub id: u64,
    pub name: Seq<char>,
    pub fields: Seq<FieldDefinition>,
    pub total_size: u64,
    pub entry_offset: Option<u64>,
}

/// Represents a class definition that can be reused for multiple instances
#[derive(Debug)]
pub struct ClassDefinition {
    pub id: u64,
    pub name: String,
    pub fields: Vec<FieldDefinition>,
    pub total_size: u64,
    pub entry_offset: Option<u64>,
}

impl View for ClassDefinition {
    type V = ClassDefView;

    open spec fn view(&self) -> ClassDefView {
        ClassDefView {
            id: self.id,
            name: self.name@,
            fields: self.fields@,
            total_size: self.total_size,
            entry_offset: self.entry_offset,
        }
    }
}

impl Clone for ClassDefinition {
    fn clone(&self) -> (r: Self)
        ensures
            r@ == self@,
    {
        let fields = self.fields.clone();
        assert(fields@ =~= self.fields@);
        ClassDefinition {
            id: self.id,
            name: self.name.clone(),
            fields,
            total_size: self.total_size,
            entry_offset: self.entry_offset,
        }
    }
}

/// The fields whose id is not among `ids`, in their order.
pub open spec fn without_ids(fields: Seq<FieldDefinition>, ids: Seq<u64>) -> Seq<FieldDefinition>
    decreases fields.len(),
{
    if fields.len() == 0 {
        Seq::empty()
    } else {
        let rest = without_ids(fields.drop_last(), ids);
        if ids.contains(fields.last().id) {
            rest
        } else {
            rest.push(fields.last())
        }
    }
}

/// The definition with its field offsets and total size recomputed from its field types.
pub open spec fn laid_out(d: ClassDefView) -> bool {
    &&& d.fields == relaid(d.fields)
    &&& d.total_size == offset_before(d.fields, d.fields.len() as int)
}

/// A field carries exactly the given name.
pub open spec fn field_named(f: FieldDefinition, name: Seq<char>) -> bool {
    match f.name {
        Some(n) => n@ == name,
        None => false,
    }
}

/// The metadata a field keeps after its type has been set to `t` at position `index`.
pub open spec fn retyped(f: FieldDefinition, t: FieldType, index: int) -> FieldDefinition {
    FieldDefinition {
        field_type: t,
        class_id: if t == FieldType::ClassInstance { f.class_id } else { None },
        pointer_target: if t == FieldType::Pointer { f.pointer_target } else { None },
        enum_id: if t == FieldType::Enum { f.enum_id } else { None },
        array_element: if t == FieldType::Array {
            if f.array_element is None { Some(PointerTarget::FieldType(FieldType::Hex8)) } else { f.array_element }
        } else {
            None
        },
        array_length: if t == FieldType::Array {
            if f.array_length is None { Some(1u32) } else { f.array_length }
        } else {
            None
        },
        ..f
    }
}

/// Whether the retyped field keeps, gets or loses its name.
pub open spec fn renamed_for_type(name: Option<String>, t: FieldType, index: int, new_name: Option<String>) -> bool {
    if !is_hex(t) && name is None {
        new_name matches Some(n) && n@ == "var_"@ + decimal(index as nat)
    } else if is_hex(t) {
        new_name is None
    } else {
        new_name == name
    }
}

impl ClassDefinition {
    /// A class with a fresh id and no fields.
    pub fn new(ids: &mut IdCounters, name: String) -> (r: Self)
        ensures
            r.id == old(ids).next_class_def_id,
            r.name == name,
            r.fields@.len() == 0,
            r.total_size == 0,
            r.entry_offset is None,
            laid_out(r@),
            final(ids).next_class_def_id == bump(old(ids).next_class_def_id),
            final(ids).next_field_id == old(ids).next_field_id,
            final(ids).next_enum_def_id == old(ids).next_enum_def_id,
    {
        let id = ids.next_class_def_id();
        let r = ClassDefinition { id, name, fields: Vec::new(), total_size: 0, entry_offset: None };
        assert(r.fields@ =~= relaid(r.fields@));
        r
    }

    /// Recomputes every field offset and the total size from the field types.
    fn recalculate_size(&mut self)
        ensures
            final(self).fields@ == relaid(old(self).fields@),
            final(self).total_size == offset_before(old(self).fields@, old(self).fields@.len() as int),
            final(self).id == old(self).id,
            final(self).name == old(self).name,
            final(self).entry_offset == old(self).entry_offset,
            laid_out(final(self)@),
    {
        let ghost orig = self.fields@;
        let mut running_offset: u64 = 0;
        let mut i: usize = 0;
        while i < self.fields.len()
            invariant
                i <= self.fields@.len(),
                self.fields@.len() == orig.len(),
                running_offset == offset_before(orig, i as int),
                forall|j: int| 0 <= j < i ==> self.fields@[j] == at_offset(orig[j], offset_before(orig, j)),
                forall|j: int| i <= j < orig.len() ==> self.fields@[j] == orig[j],
                self.id == old(self).id,
                self.name == old(self).name,
                self.entry_offset == old(self).entry_offset,
                self.entry_offset == old(self).entry_offset,
            decreases orig.len() - i,
        {
            self.fields[i].offset = running_offset;
            if !self.fields[i].field_type.is_dynamic_size() {
                running_offset = running_offset.saturating_add(self.fields[i].get_size());
            }
            i = i + 1;
        }
        self.total_size = running_offset;
        proof {
            assert(self.fields@ =~= relaid(orig));
            lemma_offset_before_types(self.fields@, orig, orig.len() as int);
            assert forall|j: int| 0 <= j < orig.len() implies offset_before(self.fields@, j) == offset_before(orig, j) by {
                lemma_offset_before_types(self.fields@, orig, j);
            }
            assert(self.fields@ =~= relaid(self.fields@));
        }
    }

    /// Appends a field and lays the class out again.
    pub fn add_field(&mut self, field: FieldDefinition)
        ensures
            final(self).fields@ == relaid(old(self).fields@.push(field)),
            final(self).total_size == offset_before(old(self).fields@.push(field), old(self).fields@.len() + 1int),
            final(self).id == old(self).id,
            final(self).name == old(self).name,
            final(self).entry_offset == old(self).entry_offset,
            laid_out(final(self)@),
            laid_out(old(self)@) ==> final(self).total_size == sat_add(old(self).total_size, advance(field.field_type)),
    {
        proof {
            if laid_out(self@) {
                law_append_grows_total(self@, field);
            }
        }
        self.fields.push(field);
        self.recalculate_size();
    }

    /// Appends a named field at the end of the class.
    pub fn add_named_field(&mut self, ids: &mut IdCounters, name: String, field_type: FieldType)
        ensures
            final(self).fields@ == relaid(
                old(self).fields@.push(plain_field(old(ids).next_field_id, Some(name), field_type, old(self).total_size)),
            ),
            final(self).id == old(self).id,
            final(self).name == old(self).name,
            final(self).entry_offset == old(self).entry_offset,
            laid_out(final(self)@),
            laid_out(old(self)@) ==> final(self).total_size == sat_add(old(self).total_size, advance(field_type)),
            final(ids).next_field_id == bump(old(ids).next_field_id),
            final(ids).next_class_def_id == old(ids).next_class_def_id,
            final(ids).next_enum_def_id == old(ids).next_enum_def_id,
    {
        let offset = self.total_size;
        let field = FieldDefinition::new_named(ids, name, field_type, offset);
        self.add_field(field);
    }

    /// Appends an unnamed (hex) field at the end of the class.
    pub fn add_hex_field(&mut self, ids: &mut IdCounters, field_type: FieldType)
        ensures
            final(self).fields@ == relaid(
                old(self).fields@.push(plain_field(old(ids).next_field_id, None, field_type, old(self).total_size)),
            ),
            final(self).id == old(self).id,
            final(self).name == old(self).name,
            laid_out(final(self)@),
            laid_out(old(self)@) ==> final(self).total_size == sat_add(old(self).total_size, advance(field_type)),
            final(self).entry_offset == old(self).entry_offset,
            final(ids).next_field_id == bump(old(ids).next_field_id),
            final(ids).next_class_def_id == old(ids).next_class_def_id,
            final(ids).next_enum_def_id == old(ids).next_enum_def_id,
    {
        let offset = self.total_size;
        let field = FieldDefinition::new_hex(ids, field_type, offset);
        self.add_field(field);
    }

    /// Appends a named field that embeds an instance of `class_def`.
    pub fn add_class_instance(&mut self, ids: &mut IdCounters, name: String, class_def: &ClassDefinition)
        ensures
            final(self).fields@ == relaid(
                old(self).fields@.push(
                    FieldDefinition {
                        class_id: Some(class_def.id),
                        ..plain_field(old(ids).next_field_id, Some(name), FieldType::ClassInstance, old(self).total_size)
                    },
                ),
            ),
            final(self).id == old(self).id,
            final(self).name == old(self).name,
            final(self).entry_offset == old(self).entry_offset,
            laid_out(final(self)@),
            laid_out(old(self)@) ==> final(self).total_size == old(self).total_size,
            final(ids).next_field_id == bump(old(ids).next_field_id),
            final(ids).next_class_def_id == old(ids).next_class_def_id,
            final(ids).next_enum_def_id == old(ids).next_enum_def_id,
    {
        let offset = self.total_size;
        let mut field = FieldDefinition::new_named(ids, name, FieldType::ClassInstance, offset);
        field.class_id = Some(class_def.id);
        self.add_field(field);
    }

    /// Gives the class a new name.
    pub fn rename(&mut self, new_name: String)
        ensures
            final(self)@ == (ClassDefView { name: new_name@, ..old(self)@ }),
    {
        self.name = new_name;
    }

    /// The first field carrying the given name.
    pub fn get_field_by_name(&self, name: &str) -> (r: Option<&FieldDefinition>)
        ensures
            match r {
                Some(f) => exists|i: int|
                    0 <= i < self.fields@.len() && self.fields@[i] == *f && field_named(self.fields@[i], name@)
                        && forall|j: int| 0 <= j < i ==> !field_named(#[trigger] self.fields@[j], name@),
                None => forall|j: int| 0 <= j < self.fields@.len() ==> !field_named(#[trigger] self.fields@[j], name@),
            },
    {
        let target = name.to_owned();
        let mut i: usize = 0;
        while i < self.fields.len()
            invariant
                i <= self.fields@.len(),
                target@ == name@,
                forall|j: int| 0 <= j < i ==> !field_named(#[trigger] self.fields@[j], name@),
            decreases self.fields@.len() - i,
        {
            let f = &self.fields[i];
            let hit = match &f.name {
                Some(n) => *n == target,
                None => false,
            };
            if hit {
                return Some(f);
            }
            i = i + 1;
        }
        None
    }

    /// The field at position `index`.
    pub fn get_field_by_index(&self, index: usize) -> (r: Option<&FieldDefinition>)
        ensures
            match r {
                Some(f) => index < self.fields@.len() && *f == self.fields@[index as int],
                None => index >= self.fields@.len(),
            },
    {
        if index < self.fields.len() {
            Some(&self.fields[index])
        } else {
            None
        }
    }

    /// Inserts a fresh hex field before position `index` (at the end when `index` is past it).
    pub fn insert_hex_field_at(&mut self, ids: &mut IdCounters, index: usize, field_type: FieldType)
        ensures
            final(self).fields@ == relaid(
                old(self).fields@.insert(
                    if index < old(self).fields@.len() { index as int } else { old(self).fields@.len() as int },
                    plain_field(old(ids).next_field_id, None, field_type, 0),
                ),
            ),
            final(self).id == old(self).id,
            final(self).name == old(self).name,
            final(self).entry_offset == old(self).entry_offset,
            laid_out(final(self)@),
            final(ids).next_field_id == bump(old(ids).next_field_id),
            final(ids).next_class_def_id == old(ids).next_class_def_id,
            final(ids).next_enum_def_id == old(ids).next_enum_def_id,
    {
        let field = FieldDefinition::new_hex(ids, field_type, 0);
        let idx = if index < self.fields.len() { index } else { self.fields.len() };
        self.fields.insert(idx, field);
        self.recalculate_size();
    }

    /// Removes the field at `index`, if there is one, and lays the class out again.
    pub fn remove_field_at(&mut self, index: usize)
        ensures
            index < old(self).fields@.len() ==> {
                &&& final(self).fields@ == relaid(old(self).fields@.remove(index as int))
                &&& final(self).id == old(self).id
                &&& final(self).name == old(self).name
                &&& final(self).entry_offset == old(self).entry_offset
                &&& laid_out(final(self)@)
            },
            index >= old(self).fields@.len() ==> final(self)@ == old(self)@,
    {
        if index < self.fields.len() {
            self.fields.remove(index);
            self.recalculate_size();
        }
    }

    /// Removes every field whose id is among `ids` and lays the class out again. Nothing
    /// changes when no field has such an id or when no field would be left.
    pub fn remove_fields_with_ids(&mut self, ids: &Vec<u64>)
        ensures
            ({
                let n = without_ids(old(self).fields@, ids@).len();
                n == 0 || n == old(self).fields@.len()
            }) ==> final(self)@ == old(self)@,
            ({
                let n = without_ids(old(self).fields@, ids@).len();
                0 < n < old(self).fields@.len()
            }) ==> {
                &&& final(self).fields@ == relaid(without_ids(old(self).fields@, ids@))
                &&& final(self).id == old(self).id
                &&& final(self).name == old(self).name
                &&& final(self).entry_offset == old(self).entry_offset
                &&& laid_out(final(self)@)
            },
    {
        let mut kept: Vec<FieldDefinition> = Vec::new();
        let mut i: usize = 0;
        while i < self.fields.len()
            invariant
                i <= self.fields@.len(),
                kept@ == without_ids(self.fields@.take(i as int), ids@),
            decreases self.fields@.len() - i,
        {
            proof {
                assert(self.fields@.take(i + 1).drop_last() =~= self.fields@.take(i as int));
            }
            if !vec_contains(ids, self.fields[i].id) {
                kept.push(self.fields[i].clone());
            }
            i = i + 1;
        }
        proof {
            assert(self.fields@.take(self.fields@.len() as int) =~= self.fields@);
        }
        if kept.len() == 0 || kept.len() == self.fields.len() {
            return;
        }
        self.fields = kept;
        self.recalculate_size();
    }

    /// The hex type that fills the next bytes when `remaining` (above zero) are left.
    fn next_fill_type(remaining: usize) -> (t: FieldType)
        requires
            remaining > 0,
        ensures
            hex_fill(remaining as nat) == seq![t] + hex_fill((remaining - type_size(t)) as nat),
            1 <= type_size(t) <= remaining,
    {
        if remaining >= 8 {
            FieldType::Hex64
        } else if remaining >= 4 {
            FieldType::Hex32
        } else if remaining >= 2 {
            FieldType::Hex16
        } else {
            FieldType::Hex8
        }
    }

    /// Appends unnamed hex fields covering `num_bytes` bytes (see `hex_fill`).
    pub fn add_hex_bytes(&mut self, ids: &mut IdCounters, num_bytes: usize)
        ensures
            num_bytes == 0 ==> *final(self) == *old(self) && *final(ids) == *old(ids),
            num_bytes > 0 ==> final(self).fields@ == relaid(
                old(self).fields@ + hex_run(old(ids).next_field_id, hex_fill(num_bytes as nat)),
            ),
            num_bytes > 0 ==> laid_out(final(self)@),
            final(self).id == old(self).id,
            final(self).name == old(self).name,
            final(self).entry_offset == old(self).entry_offset,
            final(ids).next_field_id == bumps(old(ids).next_field_id, hex_fill(num_bytes as nat).len()),
            final(ids).next_class_def_id == old(ids).next_class_def_id,
            final(ids).next_enum_def_id == old(ids).next_enum_def_id,
    {
        let ghost start = ids.next_field_id;
        let ghost f0 = self.fields@;
        let ghost mut added: Seq<FieldType> = Seq::empty();
        let mut remaining = num_bytes;
        assert(hex_fill(num_bytes as nat) =~= added + hex_fill(remaining as nat));
        while remaining > 0
            invariant
                hex_fill(num_bytes as nat) == added + hex_fill(remaining as nat),
                added.len() == 0 ==> *self == *old(self) && *ids == *old(ids),
                added.len() > 0 ==> self.fields@ == relaid(f0 + hex_run(start, added)),
                added.len() > 0 ==> laid_out(self@),
                f0 == old(self).fields@,
                start == old(ids).next_field_id,
                self.id == old(self).id,
                self.name == old(self).name,
                self.entry_offset == old(self).entry_offset,
                ids.next_field_id == bumps(start, added.len()),
                ids.next_class_def_id == old(ids).next_class_def_id,
                ids.next_enum_def_id == old(ids).next_enum_def_id,
            decreases remaining,
        {
            let t = Self::next_fill_type(remaining);
            let ghost before = self.fields@;
            let ghost id = ids.next_field_id;
            let ghost off = self.total_size;
            self.add_hex_field(ids, t);
            proof {
                let run1 = hex_run(start, added.push(t));
                assert(run1 =~= hex_run(start, added).push(plain_field(id, None, t, 0)));
                let a = before.push(plain_field(id, None, t, off));
                let b = f0 + run1;
                assert(a.len() == b.len());
                assert forall|j: int| 0 <= j < a.len() implies #[trigger] at_offset(a[j], 0) == at_offset(b[j], 0) by {
                    if j < before.len() {
                        if added.len() > 0 {
                            assert(before[j] == relaid(f0 + hex_run(start, added))[j]);
                            assert((f0 + hex_run(start, added))[j] == b[j]);
                        } else {
                            assert(before[j] == f0[j]);
                            assert(b[j] == f0[j]);
                        }
                    }
                }
                lemma_relaid_ignores_offsets(a, b);
                assert(added.push(t) + hex_fill((remaining - type_size(t)) as nat) =~= added + hex_fill(remaining as nat));
                added = added.push(t);
            }
            remaining = remaining - t.get_size() as usize;
        }
        proof {
            assert(added =~= hex_fill(num_bytes as nat));
        }
    }

    /// Inserts unnamed hex fields covering `num_bytes` bytes (see `hex_fill`) before position
    /// `index` (at the end when `index` is past it).
    #[verifier::rlimit(60)]
    pub fn insert_hex_bytes_at(&mut self, ids: &mut IdCounters, index: usize, num_bytes: usize)
        requires
            num_bytes > 0 ==> index + hex_fill(num_bytes as nat).len() <= usize::MAX,
        ensures
            num_bytes == 0 ==> *final(self) == *old(self) && *final(ids) == *old(ids),
            num_bytes > 0 ==> ({
                let p = if index < old(self).fields@.len() { index as int } else { old(self).fields@.len() as int };
                final(self).fields@ == relaid(
                    old(self).fields@.take(p) + hex_run(old(ids).next_field_id, hex_fill(num_bytes as nat))
                        + old(self).fields@.skip(p),
                )
            }),
            num_bytes > 0 ==> laid_out(final(self)@),
            final(self).id == old(self).id,
            final(self).name == old(self).name,
            final(self).entry_offset == old(self).entry_offset,
            final(ids).next_field_id == bumps(old(ids).next_field_id, hex_fill(num_bytes as nat).len()),
            final(ids).next_class_def_id == old(ids).next_class_def_id,
            final(ids).next_enum_def_id == old(ids).next_enum_def_id,
    {
        let ghost start = ids.next_field_id;
        let ghost f0 = self.fields@;
        let ghost p: int = if index < f0.len() { index as int } else { f0.len() as int };
        let ghost mut added: Seq<FieldType> = Seq::empty();
        let mut remaining = num_bytes;
        let mut insert_index = index;
        assert(hex_fill(num_bytes as nat) =~= added + hex_fill(remaining as nat));
        while remaining > 0
            invariant
                hex_fill(num_bytes as nat) == added + hex_fill(remaining as nat),
                num_bytes > 0 ==> index + hex_fill(num_bytes as nat).len() <= usize::MAX,
                insert_index == index + added.len(),
                added.len() == 0 ==> *self == *old(self) && *ids == *old(ids),
                added.len() > 0 ==> self.fields@ == relaid(f0.take(p) + hex_run(start, added) + f0.skip(p)),
                added.len() > 0 ==> laid_out(self@),
                self.fields@.len() == f0.len() + added.len(),
                f0 == old(self).fields@,
                0 <= p <= f0.len(),
                p == (if index < f0.len() { index as int } else { f0.len() as int }),
                start == old(ids).next_field_id,
                self.id == old(self).id,
                self.name == old(self).name,
                self.entry_offset == old(self).entry_offset,
                ids.next_field_id == bumps(start, added.len()),
                ids.next_class_def_id == old(ids).next_class_def_id,
                ids.next_enum_def_id == old(ids).next_enum_def_id,
            decreases remaining,
        {
            let t = Self::next_fill_type(remaining);
            let ghost before = self.fields@;
            let ghost id = ids.next_field_id;
            proof {
                assert(hex_fill(num_bytes as nat).len() == added.len() + 1 + hex_fill((remaining - type_size(t)) as nat).len());
            }
            self.insert_hex_field_at(ids, insert_index, t);
            proof {
                let q = if insert_index < before.len() { insert_index as int } else { before.len() as int };
                assert(q == p + added.len());
                lemma_insert_step(f0, p, start, added, before, t, id);
                assert(added.push(t) + hex_fill((remaining - type_size(t)) as nat) =~= added + hex_fill(remaining as nat));
                added = added.push(t);
            }
            insert_index = insert_index + 1;
            remaining = remaining - t.get_size() as usize;
        }
        proof {
            assert(added =~= hex_fill(num_bytes as nat));
        }
    }

    /// Changes the type of the field at `index`, dropping metadata that no longer applies,
    /// naming a newly named field `var_<index>` and unnaming a hex field.
    pub fn set_field_type_at(&mut self, index: usize, new_type: FieldType)
        ensures
            index < old(self).fields@.len() ==> {
                let f = old(self).fields@[index as int];
                let g = final(self).fields@[index as int];
                &&& final(self).fields@.len() == old(self).fields@.len()
                &&& renamed_for_type(f.name, new_type, index as int, g.name)
                &&& final(self).fields@ == relaid(
                    old(self).fields@.update(
                        index as int,
                        FieldDefinition { name: g.name, ..retyped(f, new_type, index as int) },
                    ),
                )
                &&& final(self).id == old(self).id
                &&& final(self).name == old(self).name
                &&& final(self).entry_offset == old(self).entry_offset
                &&& laid_out(final(self)@)
            },
            index >= old(self).fields@.len() ==> final(self)@ == old(self)@,
    {
        if index < self.fields.len() {
            let ghost f0 = self.fields@[index as int];
            let mut f = self.fields[index].clone();
            f.field_type = new_type;
            if new_type != FieldType::ClassInstance {
                f.class_id = None;
            }
            if new_type != FieldType::Pointer {
                f.pointer_target = None;
            }
            if new_type != FieldType::Enum {
                f.enum_id = None;
            }
            if new_type != FieldType::Array {
                f.array_element = None;
                f.array_length = None;
            } else {
                if f.array_element.is_none() {
                    f.array_element = Some(PointerTarget::FieldType(FieldType::Hex8));
                }
                if f.array_length.is_none() {
                    f.array_length = Some(1);
                }
            }
            if !new_type.is_hex_type() && f.name.is_none() {
                let mut n = String::from_str("var_");
                proof { reveal_strlit("var_"); }
                let digits = u64_to_decimal(index as u64);
                n.append(digits.as_str());
                f.name = Some(n);
            } else if new_type.is_hex_type() {
                f.name = None;
            }
            let ghost g = f;
            assert(g == FieldDefinition { name: g.name, ..retyped(f0, new_type, index as int) });
            self.fields.set(index, f);
            self.recalculate_size();
        }
    }

    /// Replaces the field at `index`, leaving every other part of the class as it is.
    pub(crate) fn set_field_at(&mut self, index: usize, g: FieldDefinition)
        requires
            index < old(self).fields@.len(),
        ensures
            final(self).fields@ == old(self).fields@.update(index as int, g),
            final(self).id == old(self).id,
            final(self).name == old(self).name,
            final(self).total_size == old(self).total_size,
            final(self).entry_offset == old(self).entry_offset,
    {
        self.fields.set(index, g);
    }

    /// Replaces the field at `index` by one of the same type at the same offset.
    pub(crate) fn replace_field_in_place(&mut self, index: usize, g: FieldDefinition)
        requires
            index < old(self).fields@.len(),
            laid_out(old(self)@),
            g.field_type == old(self).fields@[index as int].field_type,
            g.offset == old(self).fields@[index as int].offset,
        ensures
            final(self).fields@ == old(self).fields@.update(index as int, g),
            final(self).id == old(self).id,
            final(self).name == old(self).name,
            final(self).total_size == old(self).total_size,
            final(self).entry_offset == old(self).entry_offset,
            laid_out(final(self)@),
    {
        let ghost x = self.fields@;
        self.fields.set(index, g);
        proof {
            let y = x.update(index as int, g);
            assert forall|j: int| 0 <= j < y.len() implies #[trigger] relaid(y)[j] == y[j] by {
                lemma_offset_before_types(y, x, j);
                assert(x[j] == relaid(x)[j]);
            }
            assert(relaid(y) =~= y);
            lemma_offset_before_types(y, x, y.len() as int);
        }
    }

    /// Changes the type of the field at `index` as `set_field_type_at` does, then gives a
    /// pointer field a `Hex64` target and an enum field the enum `default_enum`.
    pub fn change_field_type_at(&mut self, index: usize, new_type: FieldType, default_enum: Option<u64>)
        ensures
            index < old(self).fields@.len() ==> {
                let f = old(self).fields@[index as int];
                let g = final(self).fields@[index as int];
                &&& final(self).fields@.len() == old(self).fields@.len()
                &&& renamed_for_type(f.name, new_type, index as int, g.name)
                &&& final(self).fields@ == relaid(
                    old(self).fields@.update(
                        index as int,
                        with_type_default(
                            FieldDefinition { name: g.name, ..retyped(f, new_type, index as int) },
                            new_type,
                            default_enum,
                        ),
                    ),
                )
                &&& final(self).id == old(self).id
                &&& final(self).name == old(self).name
                &&& final(self).entry_offset == old(self).entry_offset
                &&& laid_out(final(self)@)
            },
            index >= old(self).fields@.len() ==> final(self)@ == old(self)@,
    {
        let ghost f0 = self.fields@;
        self.set_field_type_at(index, new_type);
        if index < self.fields.len() && (new_type == FieldType::Pointer || new_type == FieldType::Enum) {
            let ghost mid = self.fields@;
            let ghost y = f0.update(
                index as int,
                FieldDefinition { name: mid[index as int].name, ..retyped(f0[index as int], new_type, index as int) },
            );
            let mut g = self.fields[index].clone();
            if new_type == FieldType::Pointer {
                g.pointer_target = Some(PointerTarget::FieldType(FieldType::Hex64));
            } else {
                g.enum_id = default_enum;
            }
            let ghost h = with_type_default(y[index as int], new_type, default_enum);
            proof {
                lemma_relaid_same_type_update(y, index as int, h);
                assert(g == at_offset(h, offset_before(y, index as int)));
                assert(y.update(index as int, h) == f0.update(
                    index as int,
                    with_type_default(
                        FieldDefinition { name: mid[index as int].name, ..retyped(f0[index as int], new_type, index as int) },
                        new_type,
                        default_enum,
                    ),
                ));
            }
            self.replace_field_in_place(index, g);
        }
    }
}

impl ClassDefinition {
    /// Changes the type of every field whose id is among `ids`, one after another, as
    /// `change_field_type_at` does; nothing changes when no field has such an id.
    pub fn change_fields_type_with_ids(&mut self, ids: &Vec<u64>, new_type: FieldType, default_enum: Option<u64>)
        ensures
            final(self).fields@.len() == old(self).fields@.len(),
            final(self).id == old(self).id,
            final(self).name == old(self).name,
            final(self).entry_offset == old(self).entry_offset,
            (forall|i: int| 0 <= i < old(self).fields@.len() ==> !ids@.contains(#[trigger] old(self).fields@[i].id))
                ==> final(self)@ == old(self)@,
            (exists|i: int| 0 <= i < old(self).fields@.len() && ids@.contains(#[trigger] old(self).fields@[i].id))
                ==> laid_out(final(self)@),
            forall|i: int|
                0 <= i < old(self).fields@.len() ==> #[trigger] retyped_if_listed(
                    old(self).fields@[i],
                    final(self).fields@[i],
                    i,
                    ids@,
                    new_type,
                    default_enum,
                ),
    {
        let ghost orig = self.fields@;
        let ghost changed = false;
        let mut i: usize = 0;
        while i < self.fields.len()
            invariant
                self.fields@.len() == orig.len(),
                orig == old(self).fields@,
                self.id == old(self).id,
                self.name == old(self).name,
                self.entry_offset == old(self).entry_offset,
                i <= orig.len(),
                forall|j: int| 0 <= j < i ==> #[trigger] retyped_if_listed(orig[j], self.fields@[j], j, ids@, new_type, default_enum),
                forall|j: int| i <= j < orig.len() ==> at_offset(#[trigger] self.fields@[j], 0) == at_offset(orig[j], 0),
                changed <==> exists|j: int| 0 <= j < i && ids@.contains(#[trigger] orig[j].id),
                changed ==> laid_out(self@),
                !changed ==> self@ == old(self)@,
            decreases orig.len() - i,
        {
            assert(at_offset(self.fields@[i as int], 0).id == at_offset(orig[i as int], 0).id);
            if vec_contains(ids, self.fields[i].id) {
                let ghost before = self.fields@;
                self.change_field_type_at(i, new_type, default_enum);
                proof {
                    let f = before[i as int];
                    let g = self.fields@[i as int];
                    let h = with_type_default(FieldDefinition { name: g.name, ..retyped(f, new_type, i as int) }, new_type, default_enum);
                    let y = before.update(i as int, h);
                    assert(self.fields@ == relaid(y));
                    assert(at_offset(f, 0) == at_offset(orig[i as int], 0));
                    assert(f.name == orig[i as int].name);
                    assert(at_offset(g, 0) == at_offset(h, 0));
                    assert(at_offset(h, 0) == at_offset(
                        with_type_default(FieldDefinition { name: g.name, ..retyped(orig[i as int], new_type, i as int) }, new_type, default_enum),
                        0,
                    ));
                    assert forall|j: int| 0 <= j < orig.len() && j != i implies at_offset(#[trigger] self.fields@[j], 0) == at_offset(before[j], 0) by {
                        assert(self.fields@[j] == at_offset(y[j], offset_before(y, j)));
                    }
                    assert(retyped_if_listed(orig[i as int], self.fields@[i as int], i as int, ids@, new_type, default_enum));
                    assert forall|j: int| 0 <= j < i + 1 implies #[trigger] retyped_if_listed(orig[j], self.fields@[j], j, ids@, new_type, default_enum) by {
                        if j < i {
                            assert(retyped_if_listed(orig[j], before[j], j, ids@, new_type, default_enum));
                        }
                    }
                    changed = true;
                }
            } else {
                proof {
                    assert(retyped_if_listed(orig[i as int], self.fields@[i as int], i as int, ids@, new_type, default_enum));
                }
            }
            i = i + 1;
        }
    }
}

/// `after` is field `i` after a multi-field type change: retyped as `change_field_type_at`
/// does when its id is among `ids`, the same field otherwise (offsets aside).
pub open spec fn retyped_if_listed(
    before: FieldDefinition,
    after: FieldDefinition,
    i: int,
    ids: Seq<u64>,
    t: FieldType,
    default_enum: Option<u64>,
) -> bool {
    if ids.contains(before.id) {
        &&& renamed_for_type(before.name, t, i, after.name)
        &&& at_offset(after, 0) == at_offset(
            with_type_default(FieldDefinition { name: after.name, ..retyped(before, t, i) }, t, default_enum),
            0,
        )
    } else {
        at_offset(after, 0) == at_offset(before, 0)
    }
}

/// A retyped field with the target a new pointer or enum field starts with.
pub open spec fn with_type_default(f: FieldDefinition, t: FieldType, default_enum: Option<u64>) -> FieldDefinition {
    if t == FieldType::Pointer {
        FieldDefinition { pointer_target: Some(PointerTarget::FieldType(FieldType::Hex64)), ..f }
    } else if t == FieldType::Enum {
        FieldDefinition { enum_id: default_enum, ..f }
    } else {
        f
    }
}

/// Changing a field without changing its type moves no offset.
pub(crate) proof fn lemma_relaid_same_type_update(x: Seq<FieldDefinition>, i: int, g: FieldDefinition)
    requires
        0 <= i < x.len(),
        g.field_type == x[i].field_type,
    ensures
        relaid(x.update(i, g)) == relaid(x).update(i, at_offset(g, offset_before(x, i))),
{
    let y = x.update(i, g);
    assert forall|j: int| 0 <= j < y.len() implies #[trigger] relaid(y)[j] == relaid(x).update(i, at_offset(g, offset_before(x, i)))[j] by {
        lemma_offset_before_types(y, x, j);
    }
    assert(relaid(y) =~= relaid(x).update(i, at_offset(g, offset_before(x, i))));
}

/// The mathematical content of an enum definition.
pub struct EnumDefView {
    pub id: u64,
    pub name: Seq<char>,
    pub is_flags: bool,
    pub default_size: u8,
    pub variants: Seq<EnumVariant>,
}

/// Represents an enum definition
#[derive(Debug)]
pub struct EnumDefinition {
    pub id: u64,
    pub name: String,
    pub is_flags: bool,
    pub default_size: u8,
    pub variants: Vec<EnumVariant>,
}

/// A named value of an enum.
#[derive(Debug)]
pub struct EnumVariant {
    pub name: String,
    pub value: u32,
}

impl Clone for EnumVariant {
    fn clone(&self) -> (r: Self)
        ensures
            r == *self,
    {
        EnumVariant { name: self.name.clone(), value: self.value }
    }
}

impl View for EnumDefinition {
    type V = EnumDefView;

    open spec fn view(&self) -> EnumDefView {
        EnumDefView {
            id: self.id,
            name: self.name@,
            is_flags: self.is_flags,
            default_size: self.default_size,
            variants: self.variants@,
        }
    }
}

impl Clone for EnumDefinition {
    fn clone(&self) -> (r: Self)
        ensures
            r@ == self@,
    {
        let variants = self.variants.clone();
        assert(variants@ =~= self.variants@);
        EnumDefinition {
            id: self.id,
            name: self.name.clone(),
            is_flags: self.is_flags,
            default_size: self.default_size,
            variants,
        }
    }
}

impl EnumDefinition {
    /// A four-byte, non-flag enum with a fresh id and no variants.
    pub fn new(ids: &mut IdCounters, name: String) -> (r: Self)
        ensures
            r.id == old(ids).next_enum_def_id,
            r.name == name,
            !r.is_flags,
            r.default_size == 4,
            r.variants@.len() == 0,
            final(ids).next_enum_def_id == bump(old(ids).next_enum_def_id),
            final(ids).next_field_id == old(ids).next_field_id,
            final(ids).next_class_def_id == old(ids).next_class_def_id,
    {
        let id = ids.next_enum_def_id();
        EnumDefinition { id, name, is_flags: false, default_size: 4, variants: Vec::new() }
    }

    /// Gives the enum a new name.
    pub fn rename(&mut self, new_name: String)
        ensures
            final(self)@ == (EnumDefView { name: new_name@, ..old(self)@ }),
    {
        self.name = new_name;
    }
}

} // verus!
