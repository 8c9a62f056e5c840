use reclass::{
    array_header_text, display_size_for, enum_of_field, pointer_label_text, enum_read_size, enum_suffix_for_field, enum_value_text, field_value_text,
    first_text_read_len, row_position_text, target_label_text, text_read_step, ClassDefinition, ClassDefinitionRegistry,
    EnumDefinition, EnumDefinitionRegistry, EnumVariant, FieldType, IdCounters, MemoryField, PointerTarget, TextRead,
};

fn preview(t: FieldType, bytes: &[u8]) -> Option<String> {
    field_value_text(t, Some(bytes.to_vec()), None)
}

#[test]
fn hex_previews_are_zero_padded_upper_case() {
    assert_eq!(preview(FieldType::Hex64, &[0xef, 0xbe, 0xad, 0xde, 0, 0, 0, 0]).as_deref(), Some("0x00000000DEADBEEF"));
    assert_eq!(preview(FieldType::Hex32, &[0x0a, 0, 0, 0]).as_deref(), Some("0x0000000A"));
    assert_eq!(preview(FieldType::Hex16, &[0x34, 0x12]).as_deref(), Some("0x1234"));
    assert_eq!(preview(FieldType::Hex8, &[0x7]).as_deref(), Some("0x07"));
}

#[test]
fn integer_previews_read_little_endian() {
    assert_eq!(preview(FieldType::UInt32, &[0x10, 0x27, 0, 0]).as_deref(), Some("10000"));
    assert_eq!(preview(FieldType::UInt8, &[255]).as_deref(), Some("255"));
    assert_eq!(preview(FieldType::Int16, &[0xff, 0xff]).as_deref(), Some("-1"));
    assert_eq!(preview(FieldType::Int8, &[0x80]).as_deref(), Some("-128"));
    assert_eq!(
        preview(FieldType::Int64, &[0, 0, 0, 0, 0, 0, 0, 0x80]).as_deref(),
        Some("-9223372036854775808")
    );
    assert_eq!(preview(FieldType::Int32, &[42, 0, 0, 0]).as_deref(), Some("42"));
}

#[test]
fn bool_vector_and_pointer_previews() {
    assert_eq!(preview(FieldType::Bool, &[2]).as_deref(), Some("true"));
    assert_eq!(preview(FieldType::Bool, &[0]).as_deref(), Some("false"));
    assert_eq!(preview(FieldType::Vector2, &[1, 0xab, 0, 0xff]).as_deref(), Some("01 AB 00 FF"));
    assert_eq!(preview(FieldType::Pointer, &[1, 2, 3, 4, 5, 6, 7, 8]), None);
    assert_eq!(preview(FieldType::ClassInstance, &[]), None);
    assert_eq!(field_value_text(FieldType::Hex64, None, None), None);
}

#[test]
fn text_previews_use_the_text_read() {
    assert_eq!(
        field_value_text(FieldType::Text, None, Some("hello".to_string())).as_deref(),
        Some("hello")
    );
    assert_eq!(field_value_text(FieldType::TextPointer, Some(vec![0; 8]), None).as_deref(), Some("(null)"));
    assert_eq!(
        field_value_text(FieldType::TextPointer, Some(vec![0x10, 0, 0, 0, 0, 0, 0, 0]), Some("name".to_string()))
            .as_deref(),
        Some("name")
    );
    assert_eq!(field_value_text(FieldType::TextPointer, Some(vec![0x10, 0, 0, 0, 0, 0, 0, 0]), None), None);
}

#[test]
fn string_reads_grow_until_a_nul_appears() {
    assert_eq!(first_text_read_len(None), 8);
    assert_eq!(first_text_read_len(Some(32)), 32);
    match text_read_step(b"abcdefgh") {
        TextRead::ReadMore(n) => assert_eq!(n, 16),
        _ => panic!("expected another read"),
    }
    match text_read_step(b"abc\0defg") {
        TextRead::Text(t) => assert_eq!(t, "abc"),
        _ => panic!("expected text"),
    }
    assert!(matches!(text_read_step(&[0xff, 0xfe, 0, 0]), TextRead::Invalid));
}

fn color_enum(ids: &mut IdCounters, size: u8) -> EnumDefinition {
    let mut e = EnumDefinition::new(ids, "Color".to_string());
    e.default_size = size;
    e.variants = vec![
        EnumVariant { name: "Red".to_string(), value: 1 },
        EnumVariant { name: "Green".to_string(), value: 2 },
        EnumVariant { name: "AlsoRed".to_string(), value: 1 },
    ];
    e
}

#[test]
fn enum_values_show_the_first_matching_variant() {
    let mut ids = IdCounters::new();
    let e = color_enum(&mut ids, 4);
    assert_eq!(enum_read_size(&e), 4);
    assert_eq!(enum_value_text(&e, &[1, 0, 0, 0]), "Red");
    assert_eq!(enum_value_text(&e, &[2, 0, 0, 0]), "Green");
    assert_eq!(enum_value_text(&e, &[7, 1, 0, 0]), "263");
    let small = color_enum(&mut ids, 1);
    assert_eq!(enum_read_size(&small), 1);
    assert_eq!(enum_value_text(&small, &[2]), "Green");
    let odd = color_enum(&mut ids, 3);
    assert_eq!(enum_read_size(&odd), 4);
    let wide = color_enum(&mut ids, 8);
    assert_eq!(enum_value_text(&wide, &[0, 0, 0, 0, 1, 0, 0, 0]), "4294967296");
}

#[test]
fn enum_suffixes_name_the_enum() {
    let mut ids = IdCounters::new();
    let mut enums = EnumDefinitionRegistry::new();
    let e = color_enum(&mut ids, 4);
    let e_id = e.id;
    enums.register(e);
    let mut c = ClassDefinition::new(&mut ids, "C".to_string());
    c.add_named_field(&mut ids, "kind".to_string(), FieldType::Enum);
    c.add_named_field(&mut ids, "count".to_string(), FieldType::Int32);
    let mut kind = MemoryField::new_named("kind".to_string(), FieldType::Enum, 0x100);
    kind.def_id = c.fields[0].id;
    let mut count = MemoryField::new_named("count".to_string(), FieldType::Int32, 0x104);
    count.def_id = c.fields[1].id;
    assert_eq!(enum_suffix_for_field(&c, &kind, &enums), " -> <enum?>");
    assert!(enum_of_field(&c, &kind, &enums).is_none());
    c.fields[0].enum_id = Some(e_id);
    assert_eq!(enum_suffix_for_field(&c, &kind, &enums), " -> Color");
    assert_eq!(enum_of_field(&c, &kind, &enums).unwrap().name, "Color");
    assert_eq!(enum_suffix_for_field(&c, &count, &enums), "");
}

#[test]
fn display_sizes_follow_the_enum() {
    let mut ids = IdCounters::new();
    let mut enums = EnumDefinitionRegistry::new();
    let e = color_enum(&mut ids, 2);
    let e_id = e.id;
    enums.register(e);
    let mut c = ClassDefinition::new(&mut ids, "C".to_string());
    c.add_named_field(&mut ids, "kind".to_string(), FieldType::Enum);
    let mut kind = MemoryField::new_named("kind".to_string(), FieldType::Enum, 0);
    kind.def_id = c.fields[0].id;
    assert_eq!(display_size_for(FieldType::Enum, &c, &kind, &enums), 4);
    c.fields[0].enum_id = Some(e_id);
    assert_eq!(display_size_for(FieldType::Enum, &c, &kind, &enums), 2);
    assert_eq!(display_size_for(FieldType::Hex64, &c, &kind, &enums), 8);
}

#[test]
fn targets_are_labelled_by_name_or_id() {
    let mut ids = IdCounters::new();
    let mut classes = ClassDefinitionRegistry::new();
    let mut enums = EnumDefinitionRegistry::new();
    let c = ClassDefinition::new(&mut ids, "Player".to_string());
    let c_id = c.id;
    classes.register(c);
    let e = color_enum(&mut ids, 4);
    let e_id = e.id;
    enums.register(e);
    assert_eq!(target_label_text(&PointerTarget::ClassId(c_id), &classes, &enums), "Player");
    assert_eq!(target_label_text(&PointerTarget::ClassId(77), &classes, &enums), "#77");
    assert_eq!(target_label_text(&PointerTarget::EnumId(e_id), &classes, &enums), "Color");
    assert_eq!(target_label_text(&PointerTarget::EnumId(9), &classes, &enums), "#9");
    assert_eq!(target_label_text(&PointerTarget::FieldType(FieldType::UInt16), &classes, &enums), "UInt16");
    let arr = PointerTarget::Array { element: Box::new(PointerTarget::FieldType(FieldType::Hex8)), length: 4 };
    assert_eq!(target_label_text(&arr, &classes, &enums), "Array");
}

#[test]
fn row_positions_show_offset_and_address() {
    assert_eq!(row_position_text(0x1000, 0x1010), "+0x0010  0x00001010");
    assert_eq!(row_position_text(0x2000, 0x1000), "+0x0000  0x00001000");
    assert_eq!(row_position_text(0, 0x1_0000_0000), "+0x100000000  0x100000000");
}

#[test]
fn pointer_labels_name_their_target() {
    let mut ids = IdCounters::new();
    let mut classes = ClassDefinitionRegistry::new();
    let enums = EnumDefinitionRegistry::new();
    let c = ClassDefinition::new(&mut ids, "Node".to_string());
    let c_id = c.id;
    classes.register(c);
    assert_eq!(pointer_label_text(&None, false, &classes, &enums), "Pointer");
    assert_eq!(pointer_label_text(&Some(PointerTarget::ClassId(c_id)), true, &classes, &enums), ": Pointer -> Node");
    assert_eq!(
        pointer_label_text(&Some(PointerTarget::FieldType(FieldType::Hex32)), false, &classes, &enums),
        "Pointer -> Hex32"
    );
    let arr = PointerTarget::Array { element: Box::new(PointerTarget::ClassId(c_id)), length: 3 };
    assert_eq!(pointer_label_text(&Some(arr), true, &classes, &enums), ": Pointer -> Array [3] Node");
    let nested = PointerTarget::Array {
        element: Box::new(PointerTarget::Array { element: Box::new(PointerTarget::EnumId(1)), length: 2 }),
        length: 3,
    };
    assert_eq!(pointer_label_text(&Some(nested), false, &classes, &enums), "Pointer -> Array [..] Array");
}

#[test]
fn array_headers_describe_length_and_element() {
    let mut ids = IdCounters::new();
    let classes = ClassDefinitionRegistry::new();
    let mut enums = EnumDefinitionRegistry::new();
    let e = color_enum(&mut ids, 4);
    let e_id = e.id;
    enums.register(e);
    let mut c = ClassDefinition::new(&mut ids, "C".to_string());
    c.add_named_field(&mut ids, "colors".to_string(), FieldType::Array);
    c.fields[0].array_element = Some(PointerTarget::EnumId(e_id));
    c.fields[0].array_length = Some(6);
    assert_eq!(array_header_text(0x2000, &c, 0, &classes, &enums), "0x00002000    colors: Array -> [6] Color");
    c.fields[0].array_element = None;
    c.fields[0].array_length = None;
    assert_eq!(array_header_text(0x2000, &c, 0, &classes, &enums), "0x00002000    colors: Array -> [0] <elem?>");
    assert_eq!(array_header_text(0x2000, &c, 3, &classes, &enums), "0x00002000    : Array");
}
