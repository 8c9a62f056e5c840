//! What a row of the memory view shows beside a field: the value the bytes read at its
//! address come to, enum values and suffixes, target names and the row's position.
use vstd::prelude::*;
use vstd::string::StringExecFns;
use vstd::utf8::{decode_utf8, valid_utf8};

use crate::bytes::{hex_prefixed, hex_prefixed_string, le_i64, le_u64, le_value, signed_n, until_nul, until_nul_bytes, utf8_text};
use crate::definitions::{ClassDefinition, EnumDefView, EnumDefinition, EnumVariant};
use crate::nodes::{find_field_def, first_field_with_id, MemoryField};
use crate::registry::{ClassDefinitionRegistry, EnumDefinitionRegistry};
use crate::text::{decimal, hex_padded, i64_to_decimal, signed_decimal, u64_to_decimal, u64_to_hex_padded};
use crate::types::{display_name, type_size, FieldType, PointerTarget};

verus! {

/// The little-endian value of the first `n` bytes.
pub open spec fn le_first(b: Seq<u8>, n: nat) -> nat {
    le_value(b.subrange(0, n as int))
}

/// The bytes as two-digit upper-case hex numbers separated by single spaces.
pub open spec fn spaced_hex(b: Seq<u8>) -> Seq<char>
    decreases b.len(),
{
    if b.len() == 0 {
        Seq::empty()
    } else if b.len() == 1 {
        hex_padded(b[0] as nat, 2)
    } else {
        spaced_hex(b.drop_last()) + " "@ + hex_padded(b.last() as nat, 2)
    }
}

/// How many bytes the preview of a field of type `t` reads at the field's address.
pub open spec fn preview_read_len(t: FieldType) -> nat {
    match t {
        FieldType::Pointer | FieldType::Array | FieldType::ClassInstance | FieldType::Enum | FieldType::Text => 0,
        _ => type_size(t) as nat,
    }
}

/// The preview of a field of type `t` (not a floating-point type), given the bytes read at its
/// address (`None` when that read failed) and, for text and text pointers, the text read (at
/// the field itself, or where the pointer points; `None` when that read failed).
pub open spec fn value_preview(t: FieldType, read: Option<Seq<u8>>, text: Option<Seq<char>>) -> Option<Seq<char>> {
    let n = type_size(t) as nat;
    match t {
        FieldType::Text => text,
        FieldType::Pointer | FieldType::Array | FieldType::ClassInstance | FieldType::Enum => None,
        _ => match read {
            None => None,
            Some(b) => match t {
                FieldType::Hex64 | FieldType::Hex32 | FieldType::Hex16 | FieldType::Hex8 => Some(
                    hex_prefixed(le_first(b, n), 2 * n),
                ),
                FieldType::UInt64 | FieldType::UInt32 | FieldType::UInt16 | FieldType::UInt8 => Some(
                    decimal(le_first(b, n)),
                ),
                FieldType::Int64 | FieldType::Int32 | FieldType::Int16 | FieldType::Int8 => Some(
                    signed_decimal(signed_n(le_first(b, n), n)),
                ),
                FieldType::Bool => Some(if b[0] != 0 { "true"@ } else { "false"@ }),
                FieldType::Vector2 | FieldType::Vector3 | FieldType::Vector4 => Some(spaced_hex(b.subrange(0, n as int))),
                FieldType::TextPointer => if le_first(b, 8) == 0 {
                    Some("(null)"@)
                } else {
                    text
                },
                _ => None,
            },
        },
    }
}

/// The bytes of an optional read.
pub open spec fn read_view(read: Option<Vec<u8>>) -> Option<Seq<u8>> {
    match read {
        Some(b) => Some(b@),
        None => None,
    }
}

/// The characters of an optional text.
pub open spec fn text_view(text: Option<String>) -> Option<Seq<char>> {
    match text {
        Some(t) => Some(t@),
        None => None,
    }
}

/// Writes the bytes as two-digit upper-case hex numbers separated by single spaces.
pub fn spaced_hex_string(data: &[u8]) -> (s: String)
    ensures
        s@ == spaced_hex(data@),
{
    let mut s = String::new();
    let mut i: usize = 0;
    proof {
        assert(data@.subrange(0, 0) =~= Seq::<u8>::empty());
    }
    while i < data.len()
        invariant
            i <= data@.len(),
            s@ == spaced_hex(data@.subrange(0, i as int)),
        decreases data@.len() - i,
    {
        let h = u64_to_hex_padded(data[i] as u64, 2);
        let ghost cur = data@.subrange(0, i + 1);
        proof {
            assert(cur.drop_last() =~= data@.subrange(0, i as int));
        }
        if i > 0 {
            proof { reveal_strlit(" "); }
            s.append(" ");
        }
        s.append(h.as_str());
        i = i + 1;
    }
    proof {
        assert(data@.subrange(0, data@.len() as int) =~= data@);
    }
    s
}

fn lit(s: &str) -> (r: String)
    ensures
        r@ == s@,
{
    String::from_str(s)
}

/// The preview text of a field of type `field_type` (see `value_preview`). `read` holds the
/// bytes read at the field's address, `text` the text read for text and text-pointer fields.
/// Floating-point fields are previewed elsewhere.
pub fn field_value_text(field_type: FieldType, read: Option<Vec<u8>>, text: Option<String>) -> (r: Option<String>)
    requires
        field_type != FieldType::Float,
        field_type != FieldType::Double,
        read matches Some(b) ==> b@.len() >= preview_read_len(field_type),
    ensures
        r matches Some(s) ==> value_preview(field_type, read_view(read), text_view(text)) == Some(s@),
        r is None ==> value_preview(field_type, read_view(read), text_view(text)) is None,
{
    let n = field_type.get_size() as usize;
    match field_type {
        FieldType::Text => return text,
        FieldType::Pointer | FieldType::Array | FieldType::ClassInstance | FieldType::Enum => return None,
        _ => {},
    }
    let b = match read {
        None => return None,
        Some(b) => b,
    };
    match field_type {
        FieldType::Hex64 | FieldType::Hex32 | FieldType::Hex16 | FieldType::Hex8 => {
            Some(hex_prefixed_string(le_u64(b.as_slice(), n), 2 * n))
        },
        FieldType::UInt64 | FieldType::UInt32 | FieldType::UInt16 | FieldType::UInt8 => {
            Some(u64_to_decimal(le_u64(b.as_slice(), n)))
        },
        FieldType::Int64 | FieldType::Int32 | FieldType::Int16 | FieldType::Int8 => {
            Some(i64_to_decimal(le_i64(b.as_slice(), n)))
        },
        FieldType::Bool => {
            if b[0] != 0 {
                proof { reveal_strlit("true"); }
                Some(lit("true"))
            } else {
                proof { reveal_strlit("false"); }
                Some(lit("false"))
            }
        },
        FieldType::Vector2 | FieldType::Vector3 | FieldType::Vector4 => {
            let v = slice_prefix(b.as_slice(), n);
            Some(spaced_hex_string(v.as_slice()))
        },
        FieldType::TextPointer => {
            if le_u64(b.as_slice(), 8) == 0 {
                proof { reveal_strlit("(null)"); }
                Some(lit("(null)"))
            } else {
                text
            }
        },
        _ => None,
    }
}

/// The first `n` bytes of `data`.
fn slice_prefix(data: &[u8], n: usize) -> (r: Vec<u8>)
    requires
        n <= data@.len(),
    ensures
        r@ == data@.subrange(0, n as int),
{
    let mut r: Vec<u8> = Vec::new();
    let mut i: usize = 0;
    while i < n
        invariant
            i <= n,
            n <= data@.len(),
            r@ == data@.subrange(0, i as int),
        decreases n - i,
    {
        r.push(data[i]);
        proof {
            assert(r@ =~= data@.subrange(0, i + 1));
        }
        i = i + 1;
    }
    r
}

/// Where one read of a NUL-terminated string stands.
pub enum TextRead {
    /// The bytes before the first NUL, as text.
    Text(String),
    /// The bytes before the first NUL are not UTF-8.
    Invalid,
    /// No NUL yet: read again, this many bytes.
    ReadMore(usize),
}

/// How many bytes the first read of a string takes: the expected length, or 8.
pub fn first_text_read_len(expected_length: Option<usize>) -> (n: usize)
    ensures
        n == (match expected_length {
            Some(l) => l,
            None => 8,
        }),
{
    match expected_length {
        Some(l) => l,
        None => 8,
    }
}

/// Whether `data` holds a zero byte.
fn has_nul(data: &[u8]) -> (r: bool)
    ensures
        r == data@.contains(0u8),
{
    let mut i: usize = 0;
    while i < data.len()
        invariant
            i <= data@.len(),
            forall|j: int| 0 <= j < i ==> data@[j] != 0u8,
        decreases data@.len() - i,
    {
        if data[i] == 0 {
            assert(data@[i as int] == 0u8);
            return true;
        }
        i = i + 1;
    }
    false
}

/// Decides, from the bytes of one read at a string's address, whether the string is complete:
/// its text up to the first NUL, `Invalid` when that is not UTF-8, or another read eight
/// bytes longer when there is no NUL yet.
pub fn text_read_step(buffer: &[u8]) -> (r: TextRead)
    requires
        buffer@.len() + 8 <= usize::MAX,
    ensures
        !buffer@.contains(0u8) ==> r == TextRead::ReadMore((buffer@.len() + 8) as usize),
        buffer@.contains(0u8) && valid_utf8(until_nul(buffer@)) ==> (r matches TextRead::Text(t) && t@ == decode_utf8(
            until_nul(buffer@),
        )),
        buffer@.contains(0u8) && !valid_utf8(until_nul(buffer@)) ==> r is Invalid,
{
    if !has_nul(buffer) {
        return TextRead::ReadMore(buffer.len() + 8);
    }
    match utf8_text(until_nul_bytes(buffer)) {
        Some(t) => TextRead::Text(t),
        None => TextRead::Invalid,
    }
}

/// How many bytes an enum value takes: the enum's default size when that is 1, 2 or 8, else 4.
pub open spec fn enum_read_len(d: EnumDefView) -> nat {
    if d.default_size == 1 {
        1
    } else if d.default_size == 2 {
        2
    } else if d.default_size == 8 {
        8
    } else {
        4
    }
}

/// The name of the first variant with value `v`.
pub open spec fn variant_name_for(vs: Seq<EnumVariant>, v: nat) -> Option<Seq<char>>
    decreases vs.len(),
{
    if vs.len() == 0 {
        None
    } else if vs[0].value as nat == v {
        Some(vs[0].name@)
    } else {
        variant_name_for(vs.drop_first(), v)
    }
}

/// An enum value read as `b`: the name of the first variant with that value, else the
/// value in decimal.
pub open spec fn enum_value_shown(d: EnumDefView, b: Seq<u8>) -> Seq<char> {
    let v = le_first(b, enum_read_len(d));
    match variant_name_for(d.variants, v) {
        Some(n) => n,
        None => decimal(v),
    }
}

/// How many bytes to read for a value of this enum.
pub fn enum_read_size(def: &EnumDefinition) -> (n: usize)
    ensures
        n == enum_read_len(def@),
{
    if def.default_size == 1 {
        1
    } else if def.default_size == 2 {
        2
    } else if def.default_size == 8 {
        8
    } else {
        4
    }
}

/// Shows an enum value read as `data`: the first variant with that value, by name, or the
/// value in decimal.
pub fn enum_value_text(def: &EnumDefinition, data: &[u8]) -> (s: String)
    requires
        data@.len() >= enum_read_len(def@),
    ensures
        s@ == enum_value_shown(def@, data@),
{
    let n = enum_read_size(def);
    let v = le_u64(data, n);
    let mut i: usize = 0;
    assert(def.variants@.skip(0) =~= def.variants@);
    while i < def.variants.len()
        invariant
            i <= def.variants@.len(),
            v == le_first(data@, enum_read_len(def@)),
            variant_name_for(def.variants@, v as nat) == variant_name_for(def.variants@.skip(i as int), v as nat),
        decreases def.variants@.len() - i,
    {
        proof {
            assert(def.variants@.skip(i as int).drop_first() =~= def.variants@.skip(i + 1));
        }
        if def.variants[i].value as u64 == v {
            return def.variants[i].name.clone();
        }
        i = i + 1;
    }
    proof {
        assert(def.variants@.skip(i as int) =~= Seq::<EnumVariant>::empty());
    }
    u64_to_decimal(v)
}

/// The enum a field refers to: the first field definition of `class_def` with the field's
/// definition id, its enum id, and the enum registered under that id.
pub open spec fn enum_of(class_def: Seq<crate::definitions::FieldDefinition>, def_id: u64, enums: Map<u64, EnumDefView>) -> Option<u64> {
    match first_field_with_id(class_def, def_id) {
        Some(f) => match f.enum_id {
            Some(e) => if enums.contains_key(e) {
                Some(e)
            } else {
                None
            },
            None => None,
        },
        None => None,
    }
}

/// The enum definition that field `field` of `class_def` refers to.
pub fn enum_of_field<'a>(class_def: &ClassDefinition, field: &MemoryField, enums: &'a EnumDefinitionRegistry) -> (r: Option<
    &'a EnumDefinition,
>)
    requires
        enums.wf(),
    ensures
        match enum_of(class_def.fields@, field.def_id, enums@) {
            Some(e) => r matches Some(d) && d@ == enums@[e],
            None => r is None,
        },
{
    let def = match find_field_def(class_def, field.def_id) {
        Some(d) => d,
        None => return None,
    };
    let eid = match def.enum_id {
        Some(e) => e,
        None => return None,
    };
    enums.get_by_id(eid)
}

/// The suffix an enum field's type shows: ` -> ` and the enum's name, ` -> <enum?>` when the
/// field names no registered enum, and nothing for a field that is not of enum type.
pub open spec fn enum_suffix(class_def: Seq<crate::definitions::FieldDefinition>, def_id: u64, enums: Map<u64, EnumDefView>) -> Seq<char> {
    match first_field_with_id(class_def, def_id) {
        Some(f) => if f.field_type != FieldType::Enum {
            Seq::empty()
        } else {
            match enum_of(class_def, def_id, enums) {
                Some(e) => " -> "@ + enums[e].name,
                None => " -> <enum?>"@,
            }
        },
        None => Seq::empty(),
    }
}

/// The suffix shown after an enum field's type.
pub fn enum_suffix_for_field(class_def: &ClassDefinition, field: &MemoryField, enums: &EnumDefinitionRegistry) -> (s: String)
    requires
        enums.wf(),
    ensures
        s@ == enum_suffix(class_def.fields@, field.def_id, enums@),
{
    let def = match find_field_def(class_def, field.def_id) {
        Some(d) => d,
        None => return String::new(),
    };
    if def.field_type != FieldType::Enum {
        return String::new();
    }
    match enum_of_field(class_def, field, enums) {
        Some(ed) => {
            proof { reveal_strlit(" -> "); }
            let mut s = lit(" -> ");
            s.append(ed.name.as_str());
            s
        },
        None => {
            proof { reveal_strlit(" -> <enum?>"); }
            lit(" -> <enum?>")
        },
    }
}

/// How many bytes a field of type `t` shows: an enum field takes its enum's default size,
/// every other field the size of its type.
pub open spec fn display_size(
    t: FieldType,
    class_def: Seq<crate::definitions::FieldDefinition>,
    def_id: u64,
    enums: Map<u64, EnumDefView>,
) -> u64 {
    if t == FieldType::Enum {
        match enum_of(class_def, def_id, enums) {
            Some(e) => enums[e].default_size as u64,
            None => type_size(t),
        }
    } else {
        type_size(t)
    }
}

/// How many bytes field `field` of `class_def`, shown as type `field_type`, covers.
pub fn display_size_for(
    field_type: FieldType,
    class_def: &ClassDefinition,
    field: &MemoryField,
    enums: &EnumDefinitionRegistry,
) -> (n: u64)
    requires
        enums.wf(),
    ensures
        n == display_size(field_type, class_def.fields@, field.def_id, enums@),
{
    if field_type == FieldType::Enum {
        if let Some(ed) = enum_of_field(class_def, field, enums) {
            return ed.default_size as u64;
        }
    }
    field_type.get_size()
}

/// `#` and the id in decimal: how a definition that is not registered is named.
pub open spec fn unknown_label(id: u64) -> Seq<char> {
    "#"@ + decimal(id as nat)
}

/// How a pointer or array target is named: a type by its name, a class or enum by the name
/// of its definition (or `#` and its id when there is none), a nested array as `Array`.
pub open spec fn target_label(
    target: PointerTarget,
    classes: ClassDefinitionRegistry,
    enums: Map<u64, EnumDefView>,
) -> Seq<char> {
    match target {
        PointerTarget::FieldType(t) => display_name(t),
        PointerTarget::ClassId(c) => match classes.by_id(c) {
            Some(d) => d.name,
            None => unknown_label(c),
        },
        PointerTarget::EnumId(e) => if enums.contains_key(e) {
            enums[e].name
        } else {
            unknown_label(e)
        },
        PointerTarget::Array { .. } => "Array"@,
    }
}

fn unknown_label_string(id: u64) -> (s: String)
    ensures
        s@ == unknown_label(id),
{
    proof { reveal_strlit("#"); }
    let mut s = lit("#");
    let d = u64_to_decimal(id);
    s.append(d.as_str());
    s
}

/// The name shown for a pointer or array target.
pub fn target_label_text(target: &PointerTarget, classes: &ClassDefinitionRegistry, enums: &EnumDefinitionRegistry) -> (s: String)
    requires
        enums.wf(),
    ensures
        s@ == target_label(*target, *classes, enums@),
{
    match target {
        PointerTarget::FieldType(t) => t.to_string(),
        PointerTarget::ClassId(c) => match classes.get_by_id(*c) {
            Some(d) => d.name.clone(),
            None => unknown_label_string(*c),
        },
        PointerTarget::EnumId(e) => match enums.get_by_id(*e) {
            Some(d) => d.name.clone(),
            None => unknown_label_string(*e),
        },
        PointerTarget::Array { .. } => {
            proof { reveal_strlit("Array"); }
            lit("Array")
        },
    }
}

/// Where a row sits: `+0x` and its offset in the instance (at least four hex digits, 0 when
/// the field lies before the instance), two spaces, `0x` and its address (at least eight).
pub open spec fn row_position(instance_address: u64, field_address: u64) -> Seq<char> {
    let offset: nat = if field_address >= instance_address { (field_address - instance_address) as nat } else { 0 };
    "+"@ + hex_prefixed(offset, 4) + "  "@ + hex_prefixed(field_address as nat, 8)
}

/// The position text at the start of a row.
pub fn row_position_text(instance_address: u64, field_address: u64) -> (s: String)
    ensures
        s@ == row_position(instance_address, field_address),
{
    let offset = field_address.saturating_sub(instance_address);
    proof {
        reveal_strlit("+");
        reveal_strlit("  ");
    }
    let mut s = lit("+");
    let o = hex_prefixed_string(offset, 4);
    s.append(o.as_str());
    s.append("  ");
    let a = hex_prefixed_string(field_address, 8);
    s.append(a.as_str());
    s
}

/// What a pointer row says after its name: `Pointer`, and what it points at (` -> ` and the
/// target's name, or ` -> Array [n] ` and the element's name).
pub open spec fn pointer_label(
    target: Option<PointerTarget>,
    classes: ClassDefinitionRegistry,
    enums: Map<u64, EnumDefView>,
) -> Seq<char> {
    match target {
        None => "Pointer"@,
        Some(PointerTarget::Array { element, length }) => match *element {
            PointerTarget::Array { .. } => "Pointer -> Array [..] Array"@,
            e => "Pointer -> Array ["@ + decimal(length as nat) + "] "@ + target_label(e, classes, enums),
        },
        Some(t) => "Pointer -> "@ + target_label(t, classes, enums),
    }
}

/// The type label of a pointer row, after `: ` when the field has a name.
pub fn pointer_label_text(
    target: &Option<PointerTarget>,
    named: bool,
    classes: &ClassDefinitionRegistry,
    enums: &EnumDefinitionRegistry,
) -> (s: String)
    requires
        enums.wf(),
    ensures
        s@ == (if named { ": "@ } else { Seq::<char>::empty() }) + pointer_label(*target, *classes, enums@),
{
    let mut s = if named {
        proof { reveal_strlit(": "); }
        lit(": ")
    } else {
        String::new()
    };
    let ghost s0 = s@;
    match target {
        None => {
            proof { reveal_strlit("Pointer"); }
            s.append("Pointer");
        },
        Some(PointerTarget::Array { element, length }) => match &**element {
            PointerTarget::Array { .. } => {
                proof { reveal_strlit("Pointer -> Array [..] Array"); }
                s.append("Pointer -> Array [..] Array");
            },
            e => {
                proof {
                    reveal_strlit("Pointer -> Array [");
                    reveal_strlit("] ");
                }
                s.append("Pointer -> Array [");
                let d = u64_to_decimal(*length as u64);
                s.append(d.as_str());
                s.append("] ");
                let l = target_label_text(e, classes, enums);
                s.append(l.as_str());
                proof {
                    assert(s@ =~= s0 + ("Pointer -> Array ["@ + decimal(*length as nat) + "] "@ + target_label(*e, *classes, enums@)));
                }
            },
        },
        Some(t) => {
            proof { reveal_strlit("Pointer -> "); }
            s.append("Pointer -> ");
            let l = target_label_text(t, classes, enums);
            s.append(l.as_str());
        },
    }
    s
}

/// The header of an inline array row: its address, the field's name, the element count and
/// the element's name (`<elem?>` when unset); just the address, name and `Array` when the
/// class has no field at that index.
pub open spec fn array_header(
    address: u64,
    field: Option<crate::definitions::FieldDefinition>,
    classes: ClassDefinitionRegistry,
    enums: Map<u64, EnumDefView>,
) -> Seq<char> {
    match field {
        Some(fd) => hex_prefixed(address as nat, 8) + "    "@ + name_or_empty(fd.name) + ": Array -> ["@ + decimal(
            match fd.array_length {
                Some(n) => n as nat,
                None => 0,
            },
        ) + "] "@ + match fd.array_element {
            Some(e) => target_label(e, classes, enums),
            None => "<elem?>"@,
        },
        None => hex_prefixed(address as nat, 8) + "    "@ + ": Array"@,
    }
}

/// A name, or nothing.
pub open spec fn name_or_empty(name: Option<String>) -> Seq<char> {
    match name {
        Some(n) => n@,
        None => Seq::empty(),
    }
}

/// The header of the inline array row for field `index` of `class_def` at `address`.
pub fn array_header_text(
    address: u64,
    class_def: &ClassDefinition,
    index: usize,
    classes: &ClassDefinitionRegistry,
    enums: &EnumDefinitionRegistry,
) -> (s: String)
    requires
        enums.wf(),
    ensures
        s@ == array_header(
            address,
            if index < class_def.fields@.len() { Some(class_def.fields@[index as int]) } else { None },
            *classes,
            enums@,
        ),
{
    let mut s = hex_prefixed_string(address, 8);
    proof {
        reveal_strlit("    ");
        reveal_strlit(": Array");
        reveal_strlit(": Array -> [");
        reveal_strlit("] ");
        reveal_strlit("<elem?>");
    }
    s.append("    ");
    if index >= class_def.fields.len() {
        s.append(": Array");
        return s;
    }
    let fd = &class_def.fields[index];
    let ghost s0 = s@;
    match &fd.name {
        Some(n) => s.append(n.as_str()),
        None => {},
    }
    s.append(": Array -> [");
    let len: u64 = match fd.array_length {
        Some(n) => n as u64,
        None => 0,
    };
    let d = u64_to_decimal(len);
    s.append(d.as_str());
    s.append("] ");
    let ghost s1 = s@;
    match &fd.array_element {
        Some(e) => {
            let l = target_label_text(e, classes, enums);
            s.append(l.as_str());
        },
        None => s.append("<elem?>"),
    }
    proof {
        assert(s@ =~= array_header(address, Some(class_def.fields@[index as int]), *classes, enums@));
    }
    s
}


/// The little-endian number in the first one, two, four or eight bytes, written out.
proof fn lemma_le_first_bytes(b: Seq<u8>)
    ensures
        b.len() >= 1 ==> le_first(b, 1) == b[0] as nat,
        b.len() >= 2 ==> le_first(b, 2) == b[0] + 256 * b[1],
        b.len() >= 4 ==> le_first(b, 4) == b[0] + 256 * b[1] + 65536 * b[2] + 16777216 * b[3],
        b.len() >= 8 ==> le_first(b, 8) == b[0] + 256 * b[1] + 65536 * b[2] + 16777216 * b[3] + 4294967296 * b[4]
            + 1099511627776 * b[5] + 281474976710656 * b[6] + 72057594037927936 * b[7],
{
    reveal_with_fuel(le_value, 9);
    if b.len() >= 1 {
        let s1 = b.subrange(0, 1);
        assert(s1.drop_first() =~= Seq::<u8>::empty());
    }
    if b.len() >= 2 {
        let s2 = b.subrange(0, 2);
        assert(s2.drop_first() =~= b.subrange(1, 2));
        assert(b.subrange(1, 2).drop_first() =~= Seq::<u8>::empty());
    }
    if b.len() >= 4 {
        let s4 = b.subrange(0, 4);
        assert(s4.drop_first() =~= b.subrange(1, 4));
        assert(b.subrange(1, 4).drop_first() =~= b.subrange(2, 4));
        assert(b.subrange(2, 4).drop_first() =~= b.subrange(3, 4));
        assert(b.subrange(3, 4).drop_first() =~= Seq::<u8>::empty());
    }
    if b.len() >= 8 {
        assert(b.subrange(0, 8).drop_first() =~= b.subrange(1, 8));
        assert(b.subrange(1, 8).drop_first() =~= b.subrange(2, 8));
        assert(b.subrange(2, 8).drop_first() =~= b.subrange(3, 8));
        assert(b.subrange(3, 8).drop_first() =~= b.subrange(4, 8));
        assert(b.subrange(4, 8).drop_first() =~= b.subrange(5, 8));
        assert(b.subrange(5, 8).drop_first() =~= b.subrange(6, 8));
        assert(b.subrange(6, 8).drop_first() =~= b.subrange(7, 8));
        assert(b.subrange(7, 8).drop_first() =~= Seq::<u8>::empty());
    }
}

/// Integer fields show the little-endian number in their first one, two, four or eight bytes:
/// unsigned kinds in decimal, signed kinds as its two's-complement reading in decimal (so a
/// set top bit gives a negative number), and hex kinds as `0x` and upper-case hex digits, two
/// per byte.
pub proof fn law_integer_previews(b: Seq<u8>, text: Option<Seq<char>>)
    ensures
        b.len() >= 1 ==> {
            let v = b[0] as int;
            &&& value_preview(FieldType::UInt8, Some(b), text) == Some(decimal(v as nat))
            &&& value_preview(FieldType::Int8, Some(b), text) == Some(signed_decimal(if v >= 0x80 { v - 0x100 } else { v }))
            &&& value_preview(FieldType::Hex8, Some(b), text) == Some(hex_prefixed(v as nat, 2))
        },
        b.len() >= 2 ==> {
            let v = b[0] + 256 * b[1];
            &&& value_preview(FieldType::UInt16, Some(b), text) == Some(decimal(v as nat))
            &&& value_preview(FieldType::Int16, Some(b), text) == Some(signed_decimal(if v >= 0x8000 { v - 0x1_0000 } else { v }))
            &&& value_preview(FieldType::Hex16, Some(b), text) == Some(hex_prefixed(v as nat, 4))
        },
        b.len() >= 4 ==> {
            let v = b[0] + 256 * b[1] + 65536 * b[2] + 16777216 * b[3];
            &&& value_preview(FieldType::UInt32, Some(b), text) == Some(decimal(v as nat))
            &&& value_preview(FieldType::Int32, Some(b), text) == Some(
                signed_decimal(if v >= 0x8000_0000 { v - 0x1_0000_0000 } else { v }),
            )
            &&& value_preview(FieldType::Hex32, Some(b), text) == Some(hex_prefixed(v as nat, 8))
        },
        b.len() >= 8 ==> {
            let v = b[0] + 256 * b[1] + 65536 * b[2] + 16777216 * b[3] + 4294967296 * b[4] + 1099511627776 * b[5]
                + 281474976710656 * b[6] + 72057594037927936 * b[7];
            &&& value_preview(FieldType::UInt64, Some(b), text) == Some(decimal(v as nat))
            &&& value_preview(FieldType::Int64, Some(b), text) == Some(
                signed_decimal(if v >= 0x8000_0000_0000_0000 { v - 0x1_0000_0000_0000_0000 } else { v }),
            )
            &&& value_preview(FieldType::Hex64, Some(b), text) == Some(hex_prefixed(v as nat, 16))
        },
{
    lemma_le_first_bytes(b);
}


/// A boolean field shows `true` exactly when its first byte is not zero, and a text pointer
/// that is zero shows `(null)`; a text field shows the text read for it.
pub proof fn law_bool_and_text_previews(b: Seq<u8>, text: Option<Seq<char>>)
    ensures
        b.len() >= 1 ==> value_preview(FieldType::Bool, Some(b), text) == Some(if b[0] == 0 { "false"@ } else { "true"@ }),
        b.len() >= 8 && (forall|i: int| 0 <= i < 8 ==> #[trigger] b[i] == 0) ==> value_preview(FieldType::TextPointer, Some(b), text)
            == Some("(null)"@),
        value_preview(FieldType::Text, Some(b), text) == text,
{
    lemma_le_first_bytes(b);
    if b.len() >= 8 && (forall|i: int| 0 <= i < 8 ==> #[trigger] b[i] == 0) {
        assert(b[0] == 0 && b[1] == 0 && b[2] == 0 && b[3] == 0 && b[4] == 0 && b[5] == 0 && b[6] == 0 && b[7] == 0);
    }
}

} // verus!
