//! Flat memory elements of the list view: a row per class header or field.
use vstd::prelude::*;
use vstd::string::StringExecFns;
use vstd::utf8::{decode_utf8, valid_utf8};

use crate::bytes::{
    byte_list, byte_list_string, hex_prefixed, hex_prefixed_string, le_u64, le_value, signed16, signed32, signed64,
    signed8, until_nul, until_nul_bytes, utf8_text,
};
use crate::numbers::{hex_or_decimal, law_decimal_text_round_trip, law_hex_text_round_trip};
use crate::text::{decimal, i64_to_decimal, signed_decimal, u64_to_decimal};

verus! {

/// What a row of the flat view stands for.
#[derive(Debug, Clone, Copy, PartialEq, Eq, Structural)]
pub enum ClassElement {
    Root,
    Pointer,
    Field,
}

/// The value kinds a row of the flat view can show.
#[derive(Debug, Clone, Copy, PartialEq, Eq, Structural)]
pub enum FieldType {
    Hex64,
    Hex32,
    Hex16,
    Hex8,
    Int64,
    Int32,
    Int16,
    Int8,
    UInt64,
    UInt32,
    UInt16,
    UInt8,
    Bool,
    Float,
    Double,
    Vector4,
    Vector3,
    Vector2,
    Text,
    TextPointer,
}

impl Default for FieldType {
    fn default() -> (r: Self)
        ensures
            r == FieldType::Hex64,
    {
        FieldType::Hex64
    }
}

/// The size in bytes of each kind.
pub open spec fn kind_size(t: FieldType) -> u64 {
    match t {
        FieldType::Hex64 | FieldType::Int64 | FieldType::UInt64 | FieldType::Double => 8,
        FieldType::Hex32 | FieldType::Int32 | FieldType::UInt32 | FieldType::Float | FieldType::Vector2 => 4,
        FieldType::Hex16 | FieldType::Int16 | FieldType::UInt16 => 2,
        FieldType::Hex8 | FieldType::Int8 | FieldType::UInt8 | FieldType::Bool => 1,
        FieldType::Vector3 => 12,
        FieldType::Vector4 => 16,
        FieldType::Text => 32,
        FieldType::TextPointer => 8,
    }
}

/// The kinds shown as raw hex.
pub open spec fn kind_is_hex(t: FieldType) -> bool {
    t == FieldType::Hex64 || t == FieldType::Hex32 || t == FieldType::Hex16 || t == FieldType::Hex8
}

/// The kinds whose value is floating point.
pub open spec fn kind_is_float(t: FieldType) -> bool {
    t == FieldType::Float || t == FieldType::Double || t == FieldType::Vector4 || t == FieldType::Vector3
        || t == FieldType::Vector2
}

/// The name under which each kind is shown.
pub open spec fn kind_name(t: FieldType) -> Seq<char> {
    match t {
        FieldType::Hex64 => "Hex64"@,
        FieldType::Hex32 => "Hex32"@,
        FieldType::Hex16 => "Hex16"@,
        FieldType::Hex8 => "Hex8"@,
        FieldType::Int64 => "Int64"@,
        FieldType::Int32 => "Int32"@,
        FieldType::Int16 => "Int16"@,
        FieldType::Int8 => "Int8"@,
        FieldType::UInt64 => "UInt64"@,
        FieldType::UInt32 => "UInt32"@,
        FieldType::UInt16 => "UInt16"@,
        FieldType::UInt8 => "UInt8"@,
        FieldType::Bool => "Bool"@,
        FieldType::Float => "Float"@,
        FieldType::Double => "Double"@,
        FieldType::Vector4 => "Vector4"@,
        FieldType::Vector3 => "Vector3"@,
        FieldType::Vector2 => "Vector2"@,
        FieldType::Text => "Text"@,
        FieldType::TextPointer => "Text*"@,
    }
}

/// The first `n` bytes read as a little-endian unsigned value.
pub open spec fn le_prefix(d: Seq<u8>, n: int) -> nat {
    le_value(d.subrange(0, n))
}

/// Raw hex of the first `n` bytes, or the bytes listed when there are fewer.
pub open spec fn hex_shown(d: Seq<u8>, n: int) -> Seq<char> {
    if d.len() >= n {
        hex_prefixed(le_prefix(d, n), (2 * n) as nat)
    } else {
        "0x"@ + byte_list(d)
    }
}

/// A signed value of `n` bytes, or `Invalid` when there are fewer bytes.
pub open spec fn signed_shown(d: Seq<u8>, n: int, v: int) -> Seq<char> {
    if d.len() >= n {
        signed_decimal(v)
    } else {
        "Invalid"@
    }
}

/// An unsigned value of `n` bytes, or `Invalid` when there are fewer bytes.
pub open spec fn unsigned_shown(d: Seq<u8>, n: int) -> Seq<char> {
    if d.len() >= n {
        decimal(le_prefix(d, n))
    } else {
        "Invalid"@
    }
}

/// Inline text: the bytes before the first zero, quoted, when they are UTF-8.
pub open spec fn text_shown(d: Seq<u8>) -> Seq<char> {
    let t = until_nul(d);
    if valid_utf8(t) {
        "\""@ + decode_utf8(t) + "\""@
    } else {
        "Invalid text: "@ + byte_list(d)
    }
}

/// A text pointer: `null`, or its address followed by what was read there.
/// `pointee` is `None` when nothing could be asked, `Some(None)` when the read failed.
pub open spec fn pointer_shown(ptr: nat, pointee: Option<Option<Seq<u8>>>) -> Seq<char> {
    if ptr == 0 {
        "null"@
    } else {
        let h = hex_prefixed(ptr, 16);
        match pointee {
            None => h,
            Some(None) => h + " -> Failed to read"@,
            Some(Some(buf)) => {
                let t = until_nul(buf);
                if valid_utf8(t) {
                    h + " -> \""@ + decode_utf8(t) + "\""@
                } else {
                    h + " -> Invalid text"@
                }
            },
        }
    }
}

/// How a value of kind `t` with bytes `d` is shown. A floating-point kind with fewer bytes
/// than its size shows `Invalid`; with a full value it is formatted as floating point, which
/// this function does not describe.
pub open spec fn formatted(t: FieldType, d: Seq<u8>, pointee: Option<Option<Seq<u8>>>) -> Seq<char> {
    if d.len() == 0 {
        "No data"@
    } else {
        match t {
            FieldType::Hex64 => hex_shown(d, 8),
            FieldType::Hex32 => hex_shown(d, 4),
            FieldType::Hex16 => hex_shown(d, 2),
            FieldType::Hex8 => hex_prefixed(d[0] as nat, 2),
            FieldType::Int64 => signed_shown(d, 8, signed64(le_prefix(d, 8))),
            FieldType::Int32 => signed_shown(d, 4, signed32(le_prefix(d, 4))),
            FieldType::Int16 => signed_shown(d, 2, signed16(le_prefix(d, 2))),
            FieldType::Int8 => signed_decimal(signed8(d[0] as nat)),
            FieldType::UInt64 => unsigned_shown(d, 8),
            FieldType::UInt32 => unsigned_shown(d, 4),
            FieldType::UInt16 => unsigned_shown(d, 2),
            FieldType::UInt8 => decimal(d[0] as nat),
            FieldType::Bool => if d[0] != 0 { "true"@ } else { "false"@ },
            FieldType::Text => text_shown(d),
            FieldType::TextPointer => if d.len() >= 8 {
                pointer_shown(le_prefix(d, 8), pointee)
            } else {
                "Invalid"@
            },
            _ => if d.len() < kind_size(t) {
                "Invalid"@
            } else {
                Seq::empty()
            },
        }
    }
}

pub open spec fn opt_bytes(p: Option<Option<Vec<u8>>>) -> Option<Option<Seq<u8>>> {
    match p {
        None => None,
        Some(None) => Some(None),
        Some(Some(v)) => Some(Some(v@)),
    }
}

fn lit(s: &str) -> (r: String)
    ensures
        r@ == s@,
{
    String::from_str(s)
}

fn hex_of(data: &[u8], n: usize) -> (s: String)
    requires
        1 <= n <= 8,
    ensures
        s@ == hex_shown(data@, n as int),
{
    if data.len() >= n {
        let v = le_u64(data, n);
        hex_prefixed_string(v, 2 * n)
    } else {
        proof { reveal_strlit("0x"); }
        let mut s = lit("0x");
        let l = byte_list_string(data);
        s.append(l.as_str());
        s
    }
}

fn unsigned_of(data: &[u8], n: usize) -> (s: String)
    requires
        1 <= n <= 8,
    ensures
        s@ == unsigned_shown(data@, n as int),
{
    if data.len() >= n {
        let v = le_u64(data, n);
        u64_to_decimal(v)
    } else {
        proof { reveal_strlit("Invalid"); }
        lit("Invalid")
    }
}

/// Reads the first `n` bytes as a two's-complement value of `8 * n` bits.
fn signed_of(data: &[u8], n: usize) -> (s: String)
    requires
        n == 8 || n == 4 || n == 2,
    ensures
        n == 8 ==> s@ == signed_shown(data@, 8, signed64(le_prefix(data@, 8))),
        n == 4 ==> s@ == signed_shown(data@, 4, signed32(le_prefix(data@, 4))),
        n == 2 ==> s@ == signed_shown(data@, 2, signed16(le_prefix(data@, 2))),
{
    if data.len() >= n {
        let v = le_u64(data, n);
        proof {
            crate::bytes::lemma_le_bound(data@.subrange(0, n as int));
            reveal_with_fuel(crate::bytes::pow256, 9);
        }
        let i: i64 = if n == 8 {
            if v >= 0x8000_0000_0000_0000 {
                (v as i128 - 0x1_0000_0000_0000_0000i128) as i64
            } else {
                v as i64
            }
        } else if n == 4 {
            if v >= 0x8000_0000 {
                v as i64 - 0x1_0000_0000i64
            } else {
                v as i64
            }
        } else {
            if v >= 0x8000 {
                v as i64 - 0x1_0000i64
            } else {
                v as i64
            }
        };
        i64_to_decimal(i)
    } else {
        proof { reveal_strlit("Invalid"); }
        lit("Invalid")
    }
}

/// Quotes `text` when the bytes are valid UTF-8; `None` otherwise.
fn quoted_text(bytes: Vec<u8>) -> (r: Option<String>)
    ensures
        r is Some <==> valid_utf8(bytes@),
        r matches Some(s) ==> s@ == "\""@ + decode_utf8(bytes@) + "\""@,
{
    match utf8_text(bytes) {
        Some(t) => {
            proof { reveal_strlit("\""); }
            let mut s = lit("\"");
            s.append(t.as_str());
            s.append("\"");
            Some(s)
        },
        None => None,
    }
}

impl FieldType {
    /// The size in bytes of this kind.
    pub fn get_size(&self) -> (r: u64)
        ensures
            r == kind_size(*self),
    {
        match self {
            FieldType::Hex64 | FieldType::Int64 | FieldType::UInt64 | FieldType::Double => 8,
            FieldType::Hex32 | FieldType::Int32 | FieldType::UInt32 | FieldType::Float | FieldType::Vector2 => 4,
            FieldType::Hex16 | FieldType::Int16 | FieldType::UInt16 => 2,
            FieldType::Hex8 | FieldType::Int8 | FieldType::UInt8 | FieldType::Bool => 1,
            FieldType::Vector3 => 12,
            FieldType::Vector4 => 16,
            FieldType::Text => 32,
            FieldType::TextPointer => 8,
        }
    }

    /// Whether this kind is shown as raw hex.
    pub fn is_hex_type(&self) -> (r: bool)
        ensures
            r == kind_is_hex(*self),
    {
        matches!(self, FieldType::Hex64 | FieldType::Hex32 | FieldType::Hex16 | FieldType::Hex8)
    }

    /// Whether this kind holds floating-point values.
    pub fn is_float_kind(&self) -> (r: bool)
        ensures
            r == kind_is_float(*self),
    {
        matches!(self, FieldType::Float | FieldType::Double | FieldType::Vector4 | FieldType::Vector3 | FieldType::Vector2)
    }

    /// The name under which this kind is shown.
    pub fn get_display_name(&self) -> (r: &'static str)
        ensures
            r@ == kind_name(*self),
    {
        match self {
            FieldType::Hex64 => { proof { reveal_strlit("Hex64"); } "Hex64" },
            FieldType::Hex32 => { proof { reveal_strlit("Hex32"); } "Hex32" },
            FieldType::Hex16 => { proof { reveal_strlit("Hex16"); } "Hex16" },
            FieldType::Hex8 => { proof { reveal_strlit("Hex8"); } "Hex8" },
            FieldType::Int64 => { proof { reveal_strlit("Int64"); } "Int64" },
            FieldType::Int32 => { proof { reveal_strlit("Int32"); } "Int32" },
            FieldType::Int16 => { proof { reveal_strlit("Int16"); } "Int16" },
            FieldType::Int8 => { proof { reveal_strlit("Int8"); } "Int8" },
            FieldType::UInt64 => { proof { reveal_strlit("UInt64"); } "UInt64" },
            FieldType::UInt32 => { proof { reveal_strlit("UInt32"); } "UInt32" },
            FieldType::UInt16 => { proof { reveal_strlit("UInt16"); } "UInt16" },
            FieldType::UInt8 => { proof { reveal_strlit("UInt8"); } "UInt8" },
            FieldType::Bool => { proof { reveal_strlit("Bool"); } "Bool" },
            FieldType::Float => { proof { reveal_strlit("Float"); } "Float" },
            FieldType::Double => { proof { reveal_strlit("Double"); } "Double" },
            FieldType::Vector4 => { proof { reveal_strlit("Vector4"); } "Vector4" },
            FieldType::Vector3 => { proof { reveal_strlit("Vector3"); } "Vector3" },
            FieldType::Vector2 => { proof { reveal_strlit("Vector2"); } "Vector2" },
            FieldType::Text => { proof { reveal_strlit("Text"); } "Text" },
            FieldType::TextPointer => { proof { reveal_strlit("Text*"); } "Text*" },
        }
    }

    /// The address a text pointer with bytes `data` points to, when it is not null.
    pub fn text_pointer_address(&self, data: &[u8]) -> (r: Option<u64>)
        ensures
            r == (if *self == FieldType::TextPointer && data@.len() >= 8 && le_prefix(data@, 8) != 0 {
                Some(le_prefix(data@, 8) as u64)
            } else {
                None
            }),
    {
        if *self == FieldType::TextPointer && data.len() >= 8 {
            let ptr = le_u64(data, 8);
            if ptr != 0 {
                return Some(ptr);
            }
        }
        None
    }

    /// Shows a value of this kind read from `data`. For a text pointer, `pointee` holds what
    /// was read at the address it points to (`Some(None)` when the read failed, `None` when
    /// there was nothing to read with). A floating-point kind shows `Invalid` when `data`
    /// holds fewer bytes than its size; a full floating-point value is not accepted here.
    pub fn format_value(&self, data: &[u8], pointee: Option<Option<Vec<u8>>>) -> (s: String)
        requires
            data@.len() == 0 || !kind_is_float(*self) || data@.len() < kind_size(*self),
        ensures
            s@ == formatted(*self, data@, opt_bytes(pointee)),
    {
        if data.len() == 0 {
            proof { reveal_strlit("No data"); }
            return lit("No data");
        }
        match self {
            FieldType::Hex64 => hex_of(data, 8),
            FieldType::Hex32 => hex_of(data, 4),
            FieldType::Hex16 => hex_of(data, 2),
            FieldType::Hex8 => hex_prefixed_string(data[0] as u64, 2),
            FieldType::Int64 => signed_of(data, 8),
            FieldType::Int32 => signed_of(data, 4),
            FieldType::Int16 => signed_of(data, 2),
            FieldType::Int8 => {
                let b = data[0];
                let i: i64 = if b >= 0x80 { b as i64 - 0x100 } else { b as i64 };
                i64_to_decimal(i)
            },
            FieldType::UInt64 => unsigned_of(data, 8),
            FieldType::UInt32 => unsigned_of(data, 4),
            FieldType::UInt16 => unsigned_of(data, 2),
            FieldType::UInt8 => u64_to_decimal(data[0] as u64),
            FieldType::Bool => {
                if data[0] != 0 {
                    proof { reveal_strlit("true"); }
                    lit("true")
                } else {
                    proof { reveal_strlit("false"); }
                    lit("false")
                }
            },
            FieldType::Text => {
                let t = until_nul_bytes(data);
                match quoted_text(t) {
                    Some(q) => q,
                    None => {
                        proof { reveal_strlit("Invalid text: "); }
                        let mut s = lit("Invalid text: ");
                        let l = byte_list_string(data);
                        s.append(l.as_str());
                        s
                    },
                }
            },
            FieldType::TextPointer => {
                if data.len() < 8 {
                    proof { reveal_strlit("Invalid"); }
                    return lit("Invalid");
                }
                let ptr = le_u64(data, 8);
                if ptr == 0 {
                    proof { reveal_strlit("null"); }
                    return lit("null");
                }
                let mut h = hex_prefixed_string(ptr, 16);
                match pointee {
                    None => h,
                    Some(None) => {
                        proof { reveal_strlit(" -> Failed to read"); }
                        h.append(" -> Failed to read");
                        h
                    },
                    Some(Some(buf)) => {
                        let t = until_nul_bytes(buf.as_slice());
                        match quoted_text(t) {
                            Some(q) => {
                                let ghost h0 = h@;
                                proof {
                                    reveal_strlit(" -> ");
                                    reveal_strlit(" -> \"");
                                    reveal_strlit("\"");
                                    let dec = decode_utf8(until_nul(buf@));
                                    assert(h0 + " -> "@ + ("\""@ + dec + "\""@) =~= h0 + " -> \""@ + dec + "\""@);
                                }
                                h.append(" -> ");
                                h.append(q.as_str());
                                h
                            },
                            None => {
                                proof { reveal_strlit(" -> Invalid text"); }
                                h.append(" -> Invalid text");
                                h
                            },
                        }
                    },
                }
            },
            _ => {
                if data.len() < self.get_size() as usize {
                    proof { reveal_strlit("Invalid"); }
                    lit("Invalid")
                } else {
                    String::new()
                }
            },
        }
    }
}

proof fn lemma_le_prefix_fits(d: Seq<u8>, n: int)
    requires
        0 <= n <= 8,
        d.len() >= n,
    ensures
        le_prefix(d, n) <= u64::MAX,
{
    crate::bytes::lemma_le_bound(d.subrange(0, n));
    assert(crate::bytes::pow256(8) == 0x1_0000_0000_0000_0000) by {
        reveal_with_fuel(crate::bytes::pow256, 9);
    }
    crate::bytes::lemma_pow256_le(n as nat, 8);
}

/// The text a hex row shows for a full value reads back, with `parse_hex_u64`, as that value.
pub proof fn law_hex_row_text_parses_back(t: FieldType, d: Seq<u8>, pointee: Option<Option<Seq<u8>>>)
    requires
        t == FieldType::Hex64 || t == FieldType::Hex32 || t == FieldType::Hex16,
        d.len() >= kind_size(t),
    ensures
        hex_or_decimal(formatted(t, d, pointee)) == Some(le_prefix(d, kind_size(t) as int) as u64),
{
    let n = kind_size(t) as int;
    lemma_le_prefix_fits(d, n);
    reveal_strlit("0x");
    law_hex_text_round_trip(le_prefix(d, n) as u64, (2 * n) as nat);
}

/// The text an unsigned row shows for a full value reads back, with `parse_hex_u64`, as that
/// value.
pub proof fn law_unsigned_row_text_parses_back(t: FieldType, d: Seq<u8>, pointee: Option<Option<Seq<u8>>>)
    requires
        t == FieldType::UInt64 || t == FieldType::UInt32 || t == FieldType::UInt16,
        d.len() >= kind_size(t),
    ensures
        hex_or_decimal(formatted(t, d, pointee)) == Some(le_prefix(d, kind_size(t) as int) as u64),
{
    let n = kind_size(t) as int;
    lemma_le_prefix_fits(d, n);
    law_decimal_text_round_trip(le_prefix(d, n) as u64);
}

/// One row of the flat view.
#[derive(Debug, Clone)]
pub struct MemoryElement {
    pub address: u64,
    pub size: u64,
    pub name: String,
    pub data: Option<Vec<u8>>,
    pub error: Option<String>,
    pub class_type: Option<ClassElement>,
    pub field_type: Option<FieldType>,
    pub is_editing: bool,
}

/// How a row is labelled.
pub open spec fn element_label(class_type: Option<ClassElement>, field_type: Option<FieldType>, name: Seq<char>) -> Seq<char> {
    match class_type {
        Some(ClassElement::Root) => "[ROOT] "@ + name,
        Some(ClassElement::Pointer) => "[PTR] "@ + name,
        Some(ClassElement::Field) => match field_type {
            Some(t) => "[FLD] "@ + name + ": "@ + kind_name(t),
            None => "[FLD] "@ + name,
        },
        None => name,
    }
}

/// How a row's value is shown: its bytes formatted by its kind, listed when it has no kind.
pub open spec fn element_value(data: Option<Vec<u8>>, field_type: Option<FieldType>, pointee: Option<Option<Seq<u8>>>) -> Seq<char> {
    match data {
        Some(d) => match field_type {
            Some(t) => formatted(t, d@, pointee),
            None => "Data: "@ + byte_list(d@),
        },
        None => "No data"@,
    }
}

impl MemoryElement {
    /// A plain row with no data, error, class role or kind.
    pub fn new(address: u64, size: u64, name: String) -> (r: Self)
        ensures
            r == (MemoryElement {
                address,
                size,
                name,
                data: None,
                error: None,
                class_type: None,
                field_type: None,
                is_editing: false,
            }),
    {
        MemoryElement { address, size, name, data: None, error: None, class_type: None, field_type: None, is_editing: false }
    }

    /// A row with a class role.
    pub fn new_class(address: u64, size: u64, name: String, class_type: ClassElement) -> (r: Self)
        ensures
            r == (MemoryElement {
                address,
                size,
                name,
                data: None,
                error: None,
                class_type: Some(class_type),
                field_type: None,
                is_editing: false,
            }),
    {
        MemoryElement {
            address,
            size,
            name,
            data: None,
            error: None,
            class_type: Some(class_type),
            field_type: None,
            is_editing: false,
        }
    }

    /// A field row of the given kind, sized by the kind.
    pub fn new_field(address: u64, name: String, field_type: FieldType) -> (r: Self)
        ensures
            r == (MemoryElement {
                address,
                size: kind_size(field_type),
                name,
                data: None,
                error: None,
                class_type: Some(ClassElement::Field),
                field_type: Some(field_type),
                is_editing: false,
            }),
    {
        let size = field_type.get_size();
        MemoryElement {
            address,
            size,
            name,
            data: None,
            error: None,
            class_type: Some(ClassElement::Field),
            field_type: Some(field_type),
            is_editing: false,
        }
    }

    /// Field rows and plain rows can be clicked; class headers cannot.
    pub fn is_clickable(&self) -> (r: bool)
        ensures
            r == !(self.class_type == Some(ClassElement::Root) || self.class_type == Some(ClassElement::Pointer)),
    {
        match &self.class_type {
            Some(ClassElement::Field) => true,
            Some(ClassElement::Root) | Some(ClassElement::Pointer) => false,
            None => true,
        }
    }

    /// The row's label: its role, its name and, for a field, its kind.
    pub fn get_display_name(&self) -> (r: String)
        ensures
            r@ == element_label(self.class_type, self.field_type, self.name@),
    {
        match &self.class_type {
            Some(ClassElement::Root) => {
                proof { reveal_strlit("[ROOT] "); }
                let mut s = lit("[ROOT] ");
                s.append(self.name.as_str());
                s
            },
            Some(ClassElement::Pointer) => {
                proof { reveal_strlit("[PTR] "); }
                let mut s = lit("[PTR] ");
                s.append(self.name.as_str());
                s
            },
            Some(ClassElement::Field) => {
                proof { reveal_strlit("[FLD] "); }
                let mut s = lit("[FLD] ");
                s.append(self.name.as_str());
                if let Some(t) = &self.field_type {
                    proof { reveal_strlit(": "); }
                    s.append(": ");
                    s.append(t.get_display_name());
                }
                s
            },
            None => self.name.clone(),
        }
    }

    /// The row's value as shown; see `FieldType::format_value` for `pointee`.
    pub fn get_formatted_value(&self, pointee: Option<Option<Vec<u8>>>) -> (r: String)
        requires
            self.data matches Some(d) && self.field_type matches Some(t) ==> d@.len() == 0 || !kind_is_float(t)
                || d@.len() < kind_size(t),
        ensures
            r@ == element_value(self.data, self.field_type, opt_bytes(pointee)),
    {
        match &self.data {
            Some(d) => match &self.field_type {
                Some(t) => t.format_value(d.as_slice(), pointee),
                None => {
                    proof { reveal_strlit("Data: "); }
                    let mut s = lit("Data: ");
                    let l = byte_list_string(d.as_slice());
                    s.append(l.as_str());
                    s
                },
            },
            None => {
                proof { reveal_strlit("No data"); }
                lit("No data")
            },
        }
    }
}

} // verus!
