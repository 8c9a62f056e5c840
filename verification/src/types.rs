//! Field types, their sizes and names, and the targets a pointer can have.
use vstd::prelude::*;
use vstd::string::StringExecFns;

verus! {

/// Represents all possible field types in the memory structure
#[derive(Debug, Clone, Copy, PartialEq, Eq, Structural, Hash)]
pub enum FieldType {
    Hex64,
    Hex32,
    Hex16,
    Hex8,
    Int64,
    Int32,
    Int16,
    Int8,
    UInt64,
    UInt32,
    UInt16,
    UInt8,
    Bool,
    Float,
    Double,
    Vector4,
    Vector3,
    Vector2,
    Text,
    TextPointer,
    ClassInstance,
    Pointer,
    Enum,
    Array,
}

/// The fixed size, in bytes, of each field type (0 for the dynamically sized ones).
pub open spec fn type_size(t: FieldType) -> u64 {
    match t {
        FieldType::Hex64 | FieldType::Int64 | FieldType::UInt64 | FieldType::Double => 8,
        FieldType::Hex32 | FieldType::Int32 | FieldType::UInt32 | FieldType::Float
        | FieldType::Vector2 => 4,
        FieldType::Hex16 | FieldType::Int16 | FieldType::UInt16 => 2,
        FieldType::Hex8 | FieldType::Int8 | FieldType::UInt8 | FieldType::Bool => 1,
        FieldType::Vector3 => 12,
        FieldType::Vector4 => 16,
        FieldType::Text => 32,
        FieldType::TextPointer => 8,
        FieldType::Pointer => 8,
        FieldType::Enum => 4,
        FieldType::Array => 0,
        FieldType::ClassInstance => 0,
    }
}

impl FieldType {
    /// Get the fixed size of the field type in bytes
    pub fn get_size(&self) -> (r: u64)
        ensures
            r == type_size(*self),
    {
        match self {
            FieldType::Hex64 | FieldType::Int64 | FieldType::UInt64 | FieldType::Double => 8,
            FieldType::Hex32 | FieldType::Int32 | FieldType::UInt32 | FieldType::Float
            | FieldType::Vector2 => 4,
            FieldType::Hex16 | FieldType::Int16 | FieldType::UInt16 => 2,
            FieldType::Hex8 | FieldType::Int8 | FieldType::UInt8 | FieldType::Bool => 1,
            FieldType::Vector3 => 12,
            FieldType::Vector4 => 16,
            FieldType::Text => 32,
            FieldType::TextPointer => 8,
            FieldType::Pointer => 8,
            FieldType::Enum => 4,
            FieldType::Array => 0,
            FieldType::ClassInstance => 0,
        }
    }
}

/// True for the raw hex types, which carry no field name.
pub open spec fn is_hex(t: FieldType) -> bool {
    t == FieldType::Hex64 || t == FieldType::Hex32 || t == FieldType::Hex16 || t == FieldType::Hex8
}

/// True for the types whose size depends on other definitions.
pub open spec fn is_dynamic(t: FieldType) -> bool {
    t == FieldType::ClassInstance || t == FieldType::Array
}

/// The name under which each field type is shown.
pub open spec fn display_name(t: FieldType) -> Seq<char> {
    match t {
        FieldType::Hex64 => "Hex64"@,
        FieldType::Hex32 => "Hex32"@,
        FieldType::Hex16 => "Hex16"@,
        FieldType::Hex8 => "Hex8"@,
        FieldType::Int64 => "Int64"@,
        FieldType::Int32 => "Int32"@,
        FieldType::Int16 => "Int16"@,
        FieldType::Int8 => "Int8"@,
        FieldType::UInt64 => "UInt64"@,
        FieldType::UInt32 => "UInt32"@,
        FieldType::UInt16 => "UInt16"@,
        FieldType::UInt8 => "UInt8"@,
        FieldType::Bool => "Bool"@,
        FieldType::Float => "Float"@,
        FieldType::Double => "Double"@,
        FieldType::Vector4 => "Vector4"@,
        FieldType::Vector3 => "Vector3"@,
        FieldType::Vector2 => "Vector2"@,
        FieldType::Text => "Text"@,
        FieldType::TextPointer => "TextPointer"@,
        FieldType::ClassInstance => "ClassInstance"@,
        FieldType::Pointer => "Pointer"@,
        FieldType::Enum => "Enum"@,
        FieldType::Array => "Array"@,
    }
}

impl FieldType {
    /// Check if this is a hex type (which don't have names)
    pub fn is_hex_type(&self) -> (r: bool)
        ensures
            r == is_hex(*self),
    {
        matches!(self, FieldType::Hex64 | FieldType::Hex32 | FieldType::Hex16 | FieldType::Hex8)
    }

    /// Check if this field type has a dynamic size
    pub fn is_dynamic_size(&self) -> (r: bool)
        ensures
            r == is_dynamic(*self),
    {
        matches!(self, FieldType::ClassInstance | FieldType::Array)
    }

    /// Get the display name for this field type
    pub fn get_display_name(&self) -> (r: &'static str)
        ensures
            r@ == display_name(*self),
    {
        match self {
            FieldType::Hex64 => {
                proof { reveal_strlit("Hex64"); }
                "Hex64"
            }
            FieldType::Hex32 => {
                proof { reveal_strlit("Hex32"); }
                "Hex32"
            }
            FieldType::Hex16 => {
                proof { reveal_strlit("Hex16"); }
                "Hex16"
            }
            FieldType::Hex8 => {
                proof { reveal_strlit("Hex8"); }
                "Hex8"
            }
            FieldType::Int64 => {
                proof { reveal_strlit("Int64"); }
                "Int64"
            }
            FieldType::Int32 => {
                proof { reveal_strlit("Int32"); }
                "Int32"
            }
            FieldType::Int16 => {
                proof { reveal_strlit("Int16"); }
                "Int16"
            }
            FieldType::Int8 => {
                proof { reveal_strlit("Int8"); }
                "Int8"
            }
            FieldType::UInt64 => {
                proof { reveal_strlit("UInt64"); }
                "UInt64"
            }
            FieldType::UInt32 => {
                proof { reveal_strlit("UInt32"); }
                "UInt32"
            }
            FieldType::UInt16 => {
                proof { reveal_strlit("UInt16"); }
                "UInt16"
            }
            FieldType::UInt8 => {
                proof { reveal_strlit("UInt8"); }
                "UInt8"
            }
            FieldType::Bool => {
                proof { reveal_strlit("Bool"); }
                "Bool"
            }
            FieldType::Float => {
                proof { reveal_strlit("Float"); }
                "Float"
            }
            FieldType::Double => {
                proof { reveal_strlit("Double"); }
                "Double"
            }
            FieldType::Vector4 => {
                proof { reveal_strlit("Vector4"); }
                "Vector4"
            }
            FieldType::Vector3 => {
                proof { reveal_strlit("Vector3"); }
                "Vector3"
            }
            FieldType::Vector2 => {
                proof { reveal_strlit("Vector2"); }
                "Vector2"
            }
            FieldType::Text => {
                proof { reveal_strlit("Text"); }
                "Text"
            }
            FieldType::TextPointer => {
                proof { reveal_strlit("TextPointer"); }
                "TextPointer"
            }
            FieldType::ClassInstance => {
                proof { reveal_strlit("ClassInstance"); }
                "ClassInstance"
            }
            FieldType::Pointer => {
                proof { reveal_strlit("Pointer"); }
                "Pointer"
            }
            FieldType::Enum => {
                proof { reveal_strlit("Enum"); }
                "Enum"
            }
            FieldType::Array => {
                proof { reveal_strlit("Array"); }
                "Array"
            }
        }
    }

    /// The display name as an owned string.
    pub fn to_string(&self) -> (r: String)
        ensures
            r@ == display_name(*self),
    {
        String::from_str(self.get_display_name())
    }
}

/// Target information for a pointer or array field
#[derive(Debug, PartialEq, Eq)]
pub enum PointerTarget {
    FieldType(FieldType),
    ClassId(u64),
    EnumId(u64),
    Array { element: Box<PointerTarget>, length: u32 },
}

impl Clone for PointerTarget {
    fn clone(&self) -> (r: Self)
        ensures
            r == *self,
        decreases self,
    {
        match self {
            PointerTarget::FieldType(t) => PointerTarget::FieldType(*t),
            PointerTarget::ClassId(c) => PointerTarget::ClassId(*c),
            PointerTarget::EnumId(e) => PointerTarget::EnumId(*e),
            PointerTarget::Array { element, length } => PointerTarget::Array {
                element: Box::new((**element).clone()),
                length: *length,
            },
        }
    }
}

} // verus!
