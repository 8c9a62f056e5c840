use reclass::elements::{ClassElement, FieldType as Kind, MemoryElement};
use reclass::{
    EmbedChange,
    eval_address_expr, parse_hex_u64, AddressEval, AppSignature, ClassDefinition, ClassDefinitionRegistry,
    ClassInstance, EnumDefinition, EnumDefinitionRegistry, FieldType, IdCounters, MemoryDetailsPanel, MemoryNode,
    MemoryStructure, MemoryStructureDisplay, ModuleInfo, ModuleList, PointerTarget, SelectionManager, WindowManager,
};

fn flat_class(ids: &mut IdCounters, name: &str) -> ClassDefinition {
    let mut c = ClassDefinition::new(ids, name.to_string());
    c.add_named_field(ids, "a".to_string(), FieldType::Int32);
    c.add_hex_field(ids, FieldType::Hex64);
    c
}

#[test]
fn ids_are_handed_out_in_order() {
    let mut ids = IdCounters::new();
    let a = ClassDefinition::new(&mut ids, "A".to_string());
    let b = ClassDefinition::new(&mut ids, "B".to_string());
    assert_eq!(a.id, 1);
    assert_eq!(b.id, 2);
    let e = EnumDefinition::new(&mut ids, "E".to_string());
    assert_eq!(e.id, 1);
    assert_eq!(e.default_size, 4);
    assert!(!e.is_flags);
}

#[test]
fn register_get_remove_round_trip() {
    let mut ids = IdCounters::new();
    let mut reg = ClassDefinitionRegistry::new();
    let a = flat_class(&mut ids, "A");
    reg.register(a.clone());
    assert_eq!(reg.get(a.id).unwrap().fields.len(), 2);
    let mut renamed = a.clone();
    renamed.rename("A2".to_string());
    reg.register(renamed);
    assert_eq!(reg.get_class_ids(), vec![a.id]);
    assert_eq!(reg.get(a.id).unwrap().name, "A2");
    assert!(reg.contains_name("A2"));
    assert!(!reg.contains_name("A"));
    assert_eq!(reg.get_by_id(a.id).unwrap().name, "A2");
    assert!(reg.remove(a.id).is_some());
    assert!(reg.remove(a.id).is_none());
    assert!(!reg.contains(a.id));
}

#[test]
fn reseed_moves_counters_past_ids_in_use() {
    let mut ids = IdCounters::new();
    let mut reg = ClassDefinitionRegistry::new();
    reg.register(flat_class(&mut ids, "A"));
    reg.register(flat_class(&mut ids, "B"));
    let mut fresh = IdCounters::new();
    reg.reseed_id_counters(&mut fresh);
    assert_eq!(fresh.next_class_def_id, 3);
    assert_eq!(fresh.next_field_id, 5);
    assert_eq!(fresh.next_enum_def_id, 1);

    let mut enums = EnumDefinitionRegistry::new();
    enums.register(EnumDefinition::new(&mut ids, "E".to_string()));
    enums.register(EnumDefinition::new(&mut ids, "F".to_string()));
    enums.reseed_id_counters(&mut fresh);
    assert_eq!(fresh.next_enum_def_id, 3);
    assert_eq!(enums.get_enum_ids(), vec![1, 2]);

    let empty = ClassDefinitionRegistry::new();
    let mut again = IdCounters::new();
    empty.reseed_id_counters(&mut again);
    assert_eq!(again.next_class_def_id, 2);
    assert_eq!(again.next_field_id, 2);
}

#[test]
fn set_field_type_names_and_defaults() {
    let mut ids = IdCounters::new();
    let mut def = ClassDefinition::new(&mut ids, "C".to_string());
    def.add_hex_field(&mut ids, FieldType::Hex32);
    def.add_hex_field(&mut ids, FieldType::Hex32);
    def.set_field_type_at(1, FieldType::Array);
    assert_eq!(def.fields[1].name, Some("var_1".to_string()));
    assert_eq!(def.fields[1].array_length, Some(1));
    assert_eq!(def.fields[1].array_element, Some(PointerTarget::FieldType(FieldType::Hex8)));
    assert_eq!(def.fields[1].offset, 4);
    assert_eq!(def.total_size, 4);
    def.set_field_type_at(1, FieldType::Int16);
    assert_eq!(def.fields[1].name, Some("var_1".to_string()));
    assert_eq!(def.fields[1].array_length, None);
    assert_eq!(def.total_size, 6);
    def.set_field_type_at(7, FieldType::Int64);
    assert_eq!(def.fields.len(), 2);
}

#[test]
fn insert_and_remove_keep_the_layout() {
    let mut ids = IdCounters::new();
    let mut def = flat_class(&mut ids, "C");
    def.insert_hex_field_at(&mut ids, 1, FieldType::Hex16);
    assert_eq!(def.fields.len(), 3);
    assert_eq!(def.fields[1].field_type, FieldType::Hex16);
    assert_eq!(def.fields[1].offset, 4);
    assert_eq!(def.fields[2].offset, 6);
    assert_eq!(def.total_size, 14);
    def.insert_hex_field_at(&mut ids, 99, FieldType::Hex8);
    assert_eq!(def.fields[3].field_type, FieldType::Hex8);
    assert_eq!(def.total_size, 15);
    def.remove_field_at(0);
    assert_eq!(def.fields[0].offset, 0);
    assert_eq!(def.total_size, 11);
    def.remove_field_at(42);
    assert_eq!(def.fields.len(), 3);
}

#[test]
fn rename_class_refusals() {
    let mut ids = IdCounters::new();
    let a = flat_class(&mut ids, "A");
    let b = flat_class(&mut ids, "B");
    let mut ms = MemoryStructure::new("root".to_string(), 0x1000, a.clone());
    ms.register_class(b.clone());
    assert!(!ms.rename_class(999, "X"));
    assert!(!ms.rename_class(a.id, "B"));
    assert!(!ms.rename_class(a.id, "A"));
    assert!(!ms.rename_class(a.id, ""));
    assert!(ms.rename_class(a.id, "Z"));
    assert_eq!(ms.class_registry.get(a.id).unwrap().name, "Z");
}

#[test]
fn rename_enum_and_references() {
    let mut ids = IdCounters::new();
    let mut a = ClassDefinition::new(&mut ids, "A".to_string());
    a.add_hex_field(&mut ids, FieldType::Hex32);
    let e = EnumDefinition::new(&mut ids, "Color".to_string());
    a.set_field_type_at(0, FieldType::Enum);
    a.fields[0].enum_id = Some(e.id);
    let mut ms = MemoryStructure::new("root".to_string(), 0x10, a);
    assert!(ms.is_enum_referenced(e.id));
    ms.enum_registry.register(e.clone());
    assert!(!ms.is_enum_referenced(e.id + 1));
    assert!(ms.rename_enum(e.id, "Shade"));
    assert_eq!(ms.enum_registry.get(e.id).unwrap().name, "Shade");
    assert!(!ms.rename_enum(e.id, "Shade"));
    assert!(!ms.rename_enum(77, "Other"));
}

#[test]
fn enum_size_sets_field_layout() {
    let mut ids = IdCounters::new();
    let mut a = ClassDefinition::new(&mut ids, "A".to_string());
    a.add_hex_field(&mut ids, FieldType::Hex32);
    a.add_hex_field(&mut ids, FieldType::Hex32);
    let mut e = EnumDefinition::new(&mut ids, "Small".to_string());
    e.default_size = 1;
    a.set_field_type_at(0, FieldType::Enum);
    a.fields[0].enum_id = Some(e.id);
    let mut ms = MemoryStructure::new("root".to_string(), 0x100, a);
    ms.enum_registry.register(e);
    ms.set_root_address(0x200);
    assert_eq!(ms.root_class.fields[0].address, 0x200);
    assert_eq!(ms.root_class.fields[1].address, 0x201);
    assert_eq!(ms.get_total_size(), 5);
}

#[test]
fn array_field_takes_element_size_times_length() {
    let mut ids = IdCounters::new();
    let mut a = ClassDefinition::new(&mut ids, "A".to_string());
    a.add_hex_field(&mut ids, FieldType::Hex8);
    a.add_hex_field(&mut ids, FieldType::Hex8);
    a.set_field_type_at(0, FieldType::Array);
    a.fields[0].array_element = Some(PointerTarget::FieldType(FieldType::Int32));
    a.fields[0].array_length = Some(3);
    let mut ms = MemoryStructure::new("root".to_string(), 0x1000, a);
    ms.set_root_address(0x1000);
    assert_eq!(ms.root_class.fields[1].address, 0x100C);
    assert_eq!(ms.get_total_size(), 13);
}

#[test]
fn cycle_detection_through_a_chain() {
    let mut ids = IdCounters::new();
    let c = flat_class(&mut ids, "C");
    let mut b = ClassDefinition::new(&mut ids, "B".to_string());
    b.add_class_instance(&mut ids, "c".to_string(), &c);
    let mut a = ClassDefinition::new(&mut ids, "A".to_string());
    a.add_class_instance(&mut ids, "b".to_string(), &b);
    let mut ms = MemoryStructure::new("root".to_string(), 0, a.clone());
    ms.register_class(b.clone());
    ms.register_class(c.clone());
    assert!(ms.would_create_cycle(c.id, a.id));
    assert!(ms.would_create_cycle(b.id, a.id));
    assert!(!ms.would_create_cycle(a.id, c.id));
    assert!(!ms.would_create_cycle(a.id, 12345));
}

#[test]
fn nested_instances_follow_the_registry() {
    let mut ids = IdCounters::new();
    let child = flat_class(&mut ids, "Child");
    let mut root = ClassDefinition::new(&mut ids, "Root".to_string());
    root.add_hex_field(&mut ids, FieldType::Hex32);
    root.add_class_instance(&mut ids, "child".to_string(), &child);
    root.add_hex_field(&mut ids, FieldType::Hex16);
    let mut ms = MemoryStructure::new("r".to_string(), 0x1000, root);
    ms.register_class(child.clone());
    ms.create_nested_instances();
    let nested = ms.root_class.fields[1].nested_instance.as_ref().unwrap();
    assert_eq!(nested.name, "child");
    assert_eq!(nested.address, 0x1004);
    assert_eq!(nested.total_size, 12);
    assert_eq!(ms.root_class.fields[2].address, 0x1010);
    assert_eq!(ms.get_total_size(), 18);
    let mut other = ClassInstance::new("other".to_string(), 0x5000, ms.class_registry.get(ms.root_class.class_id).unwrap().clone());
    ms.bind_nested_for_instance(&mut other);
    assert_eq!(other.fields[1].nested_instance.as_ref().unwrap().address, 0x5004);
    assert_eq!(ms.create_class_instance("x".to_string(), 0, 4242).is_none(), true);
}

#[test]
fn display_name_without_registered_class() {
    let mut ids = IdCounters::new();
    let def = ClassDefinition::new(&mut ids, "T".to_string());
    let inst = ClassInstance::new("inst".to_string(), 0, def.clone());
    let reg = ClassDefinitionRegistry::new();
    assert_eq!(inst.get_display_name_with_registry(&reg), "inst: #1");
}

#[test]
fn element_values_are_formatted() {
    assert_eq!(Kind::Hex64.format_value(&[0x34, 0x12, 0, 0, 0, 0, 0, 0], None), "0x0000000000001234");
    assert_eq!(Kind::Hex32.format_value(&[0x0A, 0xFF], None), "0x[0A, FF]");
    assert_eq!(Kind::Hex16.format_value(&[0xCD, 0xAB], None), "0xABCD");
    assert_eq!(Kind::Hex8.format_value(&[7], None), "0x07");
    assert_eq!(Kind::Int8.format_value(&[0xFF], None), "-1");
    assert_eq!(Kind::Int32.format_value(&[0xFE, 0xFF, 0xFF, 0xFF], None), "-2");
    assert_eq!(Kind::Int64.format_value(&[1, 0, 0, 0, 0, 0, 0, 0x80], None), "-9223372036854775807");
    assert_eq!(Kind::Int16.format_value(&[1], None), "Invalid");
    assert_eq!(Kind::UInt16.format_value(&[0x34, 0x12], None), "4660");
    assert_eq!(Kind::UInt64.format_value(&[0xFF; 8], None), "18446744073709551615");
    assert_eq!(Kind::UInt8.format_value(&[200], None), "200");
    assert_eq!(Kind::Bool.format_value(&[2], None), "true");
    assert_eq!(Kind::Bool.format_value(&[0], None), "false");
    assert_eq!(Kind::Text.format_value(b"hi\0xyz", None), "\"hi\"");
    assert_eq!(Kind::Text.format_value(&[0xFF, 0], None), "Invalid text: [FF, 00]");
    assert_eq!(Kind::UInt32.format_value(&[], None), "No data");
    assert_eq!(Kind::TextPointer.format_value(&[0; 8], None), "null");
    assert_eq!(Kind::TextPointer.format_value(&[1, 2, 3], None), "Invalid");
    let ptr = [0x00, 0x10, 0, 0, 0, 0, 0, 0];
    assert_eq!(Kind::TextPointer.format_value(&ptr, None), "0x0000000000001000");
    assert_eq!(Kind::TextPointer.format_value(&ptr, Some(None)), "0x0000000000001000 -> Failed to read");
    assert_eq!(
        Kind::TextPointer.format_value(&ptr, Some(Some(b"name\0\0".to_vec()))),
        "0x0000000000001000 -> \"name\""
    );
    assert_eq!(
        Kind::TextPointer.format_value(&ptr, Some(Some(vec![0xC3]))),
        "0x0000000000001000 -> Invalid text"
    );
    assert_eq!(Kind::TextPointer.text_pointer_address(&ptr), Some(0x1000));
    assert_eq!(Kind::TextPointer.text_pointer_address(&[0; 8]), None);
    assert_eq!(Kind::Hex64.text_pointer_address(&ptr), None);
}

#[test]
fn element_labels_and_kinds() {
    assert_eq!(Kind::TextPointer.get_display_name(), "Text*");
    assert_eq!(Kind::default(), Kind::Hex64);
    assert_eq!(Kind::Vector3.get_size(), 12);
    assert!(Kind::Double.is_float_kind());
    assert!(!Kind::Hex8.is_float_kind());
    let root = MemoryElement::new_class(0x1000, 16, "Player".to_string(), ClassElement::Root);
    assert_eq!(root.get_display_name(), "[ROOT] Player");
    assert!(!root.is_clickable());
    let ptr = MemoryElement::new_class(0x1000, 8, "next".to_string(), ClassElement::Pointer);
    assert_eq!(ptr.get_display_name(), "[PTR] next");
    let mut field = MemoryElement::new_field(0x1008, "hp".to_string(), Kind::Int32);
    assert_eq!(field.size, 4);
    assert_eq!(field.get_display_name(), "[FLD] hp: Int32");
    assert!(field.is_clickable());
    assert_eq!(field.get_formatted_value(None), "No data");
    field.data = Some(vec![100, 0, 0, 0]);
    assert_eq!(field.get_formatted_value(None), "100");
    let mut plain = MemoryElement::new(0, 2, "raw".to_string());
    assert_eq!(plain.get_display_name(), "raw");
    plain.data = Some(vec![1, 2]);
    assert_eq!(plain.get_formatted_value(None), "Data: [01, 02]");
}

fn rows() -> Vec<MemoryElement> {
    vec![
        MemoryElement::new_class(0, 16, "A".to_string(), ClassElement::Root),
        MemoryElement::new_field(0, "a0".to_string(), Kind::Int32),
        MemoryElement::new_field(4, "a1".to_string(), Kind::Int32),
        MemoryElement::new_field(8, "a2".to_string(), Kind::Int32),
        MemoryElement::new_class(16, 8, "B".to_string(), ClassElement::Pointer),
        MemoryElement::new_field(16, "b0".to_string(), Kind::Hex64),
    ]
}

#[test]
fn selection_clicks() {
    let rows = rows();
    let mut sel = SelectionManager::new();
    assert_eq!(sel.find_container_for_field(&rows, 3), Some(0));
    assert_eq!(sel.find_container_for_field(&rows, 5), Some(4));
    assert_eq!(sel.find_container_for_field(&rows, 0), None);
    sel.handle_field_selection(&rows, 0, false, false);
    assert!(sel.selected_fields.is_empty());
    sel.handle_field_selection(&rows, 1, false, false);
    assert_eq!(sel.selected_fields, vec![1]);
    assert_eq!(sel.last_selected_container, Some(0));
    sel.handle_field_selection(&rows, 3, true, false);
    assert_eq!(sel.selected_fields, vec![1, 3]);
    sel.handle_field_selection(&rows, 3, true, false);
    assert_eq!(sel.selected_fields, vec![1]);
    sel.handle_field_selection(&rows, 3, false, true);
    assert_eq!(sel.selected_fields, vec![1, 2, 3]);
    assert!(sel.is_field_selected(2));
    sel.handle_field_selection(&rows, 5, true, true);
    assert_eq!(sel.selected_fields, vec![1, 2, 3]);
    sel.handle_field_selection(&rows, 5, true, false);
    assert_eq!(sel.selected_fields, vec![5]);
    assert_eq!(sel.last_selected_container, Some(4));
    sel.clear_selections();
    assert!(sel.selected_fields.is_empty());
    assert_eq!(sel.last_selected_container, None);
}

#[test]
fn numbers_are_parsed() {
    assert_eq!(parse_hex_u64("0x1A"), Some(26));
    assert_eq!(parse_hex_u64("  0XfF \n"), Some(255));
    assert_eq!(parse_hex_u64("42"), Some(42));
    assert_eq!(parse_hex_u64("+7"), Some(7));
    assert_eq!(parse_hex_u64("0x+10"), Some(16));
    assert_eq!(parse_hex_u64("0x"), None);
    assert_eq!(parse_hex_u64(""), None);
    assert_eq!(parse_hex_u64("-1"), None);
    assert_eq!(parse_hex_u64("12a"), None);
    assert_eq!(parse_hex_u64("18446744073709551615"), Some(u64::MAX));
    assert_eq!(parse_hex_u64("18446744073709551616"), None);
    assert_eq!(parse_hex_u64("0x10000000000000000"), None);
    assert_eq!(parse_hex_u64("\u{3000}9\u{2003}"), Some(9));
}

fn game_modules() -> Vec<ModuleInfo> {
    vec![
        ModuleInfo { name: Some("Game.dll".to_string()), base_address: 0x40_0000, module_size: 0x1000 },
        ModuleInfo { name: None, base_address: 0x90_0000, module_size: 0x10 },
    ]
}

#[test]
fn address_expressions_evaluate() {
    let mods = game_modules();
    assert_eq!(eval_address_expr("0x10 + 0x20", &mods, &[]), AddressEval::Value(0x30));
    assert_eq!(eval_address_expr(" <game.DLL> + 8 ", &mods, &[]), AddressEval::Value(0x40_0008));
    assert_eq!(eval_address_expr("(1 + 2) - 4", &mods, &[]), AddressEval::Value(u64::MAX));
    assert_eq!(eval_address_expr("(1 + 2", &mods, &[]), AddressEval::Invalid);
    assert_eq!(eval_address_expr("5 x", &mods, &[]), AddressEval::Invalid);
    assert_eq!(eval_address_expr("", &mods, &[]), AddressEval::Invalid);
    assert_eq!(eval_address_expr("<missing.dll> 5", &mods, &[]), AddressEval::Value(5));
    assert_eq!(eval_address_expr("<>", &mods, &[]), AddressEval::Value(0x90_0000));
    assert_eq!(eval_address_expr("[0x1000] + 1", &mods, &[]), AddressEval::NeedsRead(0x1000));
    assert_eq!(eval_address_expr("[0x1000] + 1", &mods, &[Some(0x50)]), AddressEval::Value(0x51));
    assert_eq!(eval_address_expr("[0x1000] + 1", &mods, &[None]), AddressEval::Invalid);
    assert_eq!(eval_address_expr("$Player + [4]", &mods, &[]), AddressEval::NeedsSignature("Player".to_string()));
    assert_eq!(eval_address_expr("$Player + [4]", &mods, &[Some(100)]), AddressEval::NeedsRead(4));
    assert_eq!(eval_address_expr("$Player + [4]", &mods, &[Some(100), Some(1)]), AddressEval::Value(101));
    assert_eq!(eval_address_expr("$Player", &mods, &[None]), AddressEval::Invalid);
}

#[test]
fn modules_are_looked_up() {
    let list = ModuleList { modules: game_modules() };
    assert_eq!(list.get_module_by_name("GAME.dll").unwrap().base_address, 0x40_0000);
    assert!(list.get_module_by_name("other.dll").is_none());
    assert_eq!(list.get_module_by_address(0x40_0FFF).unwrap().base_address, 0x40_0000);
    assert!(list.get_module_by_address(0x40_1000).is_none());
    assert_eq!(list.module_address("game.dll", 0x40_0010), Some(0x10));
    assert_eq!(list.module_address("game.dll", 0x50_0000), None);
    assert_eq!(list.memory_address("game.dll", 0x20), Ok(0x40_0020));
    assert_eq!(list.memory_address("x.dll", 0x20), Err("missing module x.dll".to_string()));
    assert_eq!(list.module_size("game.dll"), Ok(0x1000));
    assert_eq!(list.module_size("y"), Err("missing module y".to_string()));
}

#[test]
fn tree_nodes() {
    let mut ids = IdCounters::new();
    let child = flat_class(&mut ids, "Child");
    let mut root = ClassDefinition::new(&mut ids, "Root".to_string());
    root.add_class_instance(&mut ids, "child".to_string(), &child);
    root.add_named_field(&mut ids, "hp".to_string(), FieldType::Int16);
    let mut ms = MemoryStructure::new("r".to_string(), 0x1000, root.clone());
    ms.register_class(child);
    ms.create_nested_instances();

    let node = MemoryNode::Root(ms.root_class.clone());
    assert_eq!(node.get_address(), Some(0x1000));
    assert_eq!(node.get_size(), Some(14));
    assert!(node.is_expandable());
    let children = node.get_children(&ms);
    assert_eq!(children.len(), 2);
    let display = MemoryStructureDisplay::new();
    assert_eq!(display.get_node_id(&children[0]), "instance_child_4096");
    assert_eq!(display.get_node_id(&children[1]), "field_hp_4108");
    assert_eq!(display.get_node_id(&node), "root_r");
    assert_eq!(children[1].get_field_type(), Some(&FieldType::Int16));
    assert_eq!(children[0].get_children(&ms).len(), 2);

    let def_node = MemoryNode::ClassDefinition(root);
    assert_eq!(def_node.get_address(), None);
    assert_eq!(display.get_node_id(&def_node), "def_Root");
    let def_children = def_node.get_children(&ms);
    assert_eq!(def_children.len(), 2);
    assert_eq!(def_children[1].get_address(), Some(0));
    assert!(!def_children[1].is_expandable());
    assert_eq!(display.get_node_id(&def_children[0]), "field_child_0");
    assert_eq!(display.get_available_field_types().len(), 21);
    assert!(display.get_selected_node().is_none());

    let mut panel = MemoryDetailsPanel::new();
    panel.set_selected_node(Some(node));
    assert!(panel.selected_node.is_some());
}

#[test]
fn window_and_signature_defaults() {
    let w = WindowManager::new();
    assert!(!w.show_process_window && !w.show_modules_window);
    assert!(w.process_filter.is_empty());
    let s = AppSignature::default();
    assert!(s.name.is_empty());
    assert_eq!(s.offset, 0);
    assert!(!s.is_relative);
    assert!(s.last_value.is_none());
}

#[test]
fn unique_enum_names_count_up_without_separator() {
    let mut ids = IdCounters::new();
    let mut reg = EnumDefinitionRegistry::new();
    assert_eq!(reclass::generate_unique_enum_name(&reg, "NewEnum"), "NewEnum");
    reg.register(EnumDefinition::new(&mut ids, "NewEnum".to_string()));
    assert_eq!(reclass::generate_unique_enum_name(&reg, "NewEnum"), "NewEnum1");
    reg.register(EnumDefinition::new(&mut ids, "NewEnum1".to_string()));
    assert_eq!(reclass::generate_unique_enum_name(&reg, "NewEnum"), "NewEnum2");
}

#[test]
fn unique_class_names_fill_the_first_gap() {
    let mut ids = IdCounters::new();
    let mut reg = ClassDefinitionRegistry::new();
    assert_eq!(reclass::generate_unique_class_name(&reg, "Node"), "Node");
    reg.register(ClassDefinition::new(&mut ids, "Node".to_string()));
    reg.register(ClassDefinition::new(&mut ids, "Node_2".to_string()));
    assert_eq!(reclass::generate_unique_class_name(&reg, "Node"), "Node_1");
    reg.register(ClassDefinition::new(&mut ids, "Node_1".to_string()));
    assert_eq!(reclass::generate_unique_class_name(&reg, "Node"), "Node_3");
    assert_eq!(reclass::generate_unique_class_name(&reg, "Other"), "Other");
}

#[test]
fn removing_fields_by_id_relays_what_is_left() {
    let mut ids = IdCounters::new();
    let mut c = flat_class(&mut ids, "A");
    c.add_hex_field(&mut ids, FieldType::Hex32);
    let first = c.fields[0].id;
    let last = c.fields[2].id;
    c.remove_fields_with_ids(&vec![first, last]);
    assert_eq!(c.fields.len(), 1);
    assert_eq!(c.fields[0].field_type, FieldType::Hex64);
    assert_eq!(c.fields[0].offset, 0);
    assert_eq!(c.total_size, 8);
    // Removing every field, or none, leaves the class alone.
    let only = c.fields[0].id;
    c.remove_fields_with_ids(&vec![only]);
    assert_eq!(c.fields.len(), 1);
    c.remove_fields_with_ids(&vec![9999]);
    assert_eq!(c.fields.len(), 1);
    c.remove_fields_with_ids(&vec![]);
    assert_eq!(c.total_size, 8);
}

#[test]
fn changing_a_field_type_sets_pointer_and_enum_defaults() {
    let mut ids = IdCounters::new();
    let mut c = flat_class(&mut ids, "A");
    c.change_field_type_at(1, FieldType::Pointer, Some(7));
    assert_eq!(c.fields[1].field_type, FieldType::Pointer);
    assert_eq!(c.fields[1].pointer_target, Some(PointerTarget::FieldType(FieldType::Hex64)));
    assert_eq!(c.fields[1].name.as_deref(), Some("var_1"));
    assert_eq!(c.fields[1].enum_id, None);
    c.change_field_type_at(1, FieldType::Enum, Some(7));
    assert_eq!(c.fields[1].pointer_target, None);
    assert_eq!(c.fields[1].enum_id, Some(7));
    assert_eq!(c.fields[1].offset, 4);
    c.change_field_type_at(5, FieldType::Int8, None);
    assert_eq!(c.fields.len(), 2);
}

#[test]
fn structure_type_change_uses_the_first_enum() {
    let mut ids = IdCounters::new();
    let a = flat_class(&mut ids, "A");
    let a_id = a.id;
    let mut ms = MemoryStructure::new("root".to_string(), 0x1000, a);
    let e = EnumDefinition::new(&mut ids, "Color".to_string());
    let e_id = e.id;
    ms.enum_registry.register(e);
    assert!(ms.change_field_type(a_id, 1, FieldType::Enum));
    assert_eq!(ms.class_registry.get(a_id).unwrap().fields[1].enum_id, Some(e_id));
    assert!(!ms.change_field_type(a_id + 100, 0, FieldType::Enum));
}

#[test]
fn creating_classes_for_fields_registers_fresh_placeholders() {
    let mut ids = IdCounters::new();
    let a = flat_class(&mut ids, "A");
    let a_id = a.id;
    let mut ms = MemoryStructure::new("root".to_string(), 0x1000, a);
    let c1 = ms.create_class_from_field(&mut ids, a_id, 1);
    let new_def = ms.class_registry.get(c1).unwrap();
    assert_eq!(new_def.name, "NewClass");
    assert_eq!(new_def.fields.len(), 1);
    assert_eq!(new_def.fields[0].field_type, FieldType::Hex64);
    assert_eq!(new_def.total_size, 8);
    let owner = ms.class_registry.get(a_id).unwrap();
    assert_eq!(owner.fields[1].field_type, FieldType::ClassInstance);
    assert_eq!(owner.fields[1].class_id, Some(c1));
    ms.change_field_type(a_id, 1, FieldType::Pointer);
    let c2 = ms.create_pointer_target_class(&mut ids, a_id, 1);
    assert_eq!(ms.class_registry.get(c2).unwrap().name, "NewClass_1");
    assert_eq!(ms.class_registry.get(a_id).unwrap().fields[1].pointer_target, Some(PointerTarget::ClassId(c2)));
    // Without a matching field the class is still registered.
    let c3 = ms.create_class_from_field(&mut ids, a_id, 40);
    assert_eq!(ms.class_registry.get(c3).unwrap().name, "NewClass_2");
}

#[test]
fn unused_classes_are_found_and_deleted() {
    let mut ids = IdCounters::new();
    let root = flat_class(&mut ids, "Root");
    let root_id = root.id;
    let mut ms = MemoryStructure::new("root".to_string(), 0x1000, root);
    // A class embedded by the root is referenced.
    let embedded = ms.create_class_from_field(&mut ids, root_id, 1);
    // A fresh class nobody refers to is unused.
    let mut spare = ClassDefinition::new(&mut ids, "Spare".to_string());
    spare.add_hex_field(&mut ids, FieldType::Hex64);
    let spare_id = spare.id;
    ms.class_registry.register(spare);
    // A class with more than the default field is kept.
    let busy = flat_class(&mut ids, "Busy");
    let busy_id = busy.id;
    ms.class_registry.register(busy);
    assert!(ms.is_class_referenced(embedded));
    assert!(!ms.is_class_referenced(spare_id));
    assert!(!ms.can_remove_class(root_id));
    assert!(!ms.can_remove_class(embedded));
    assert!(ms.can_remove_class(busy_id));
    assert_eq!(ms.unused_class_ids(), vec![spare_id]);
    assert_eq!(ms.delete_unused_classes(), vec![spare_id]);
    assert!(!ms.class_registry.contains(spare_id));
    assert!(ms.class_registry.contains(embedded));
    assert!(ms.unused_class_ids().is_empty());
    assert!(!ms.remove_class_if_unreferenced(embedded));
    assert!(ms.remove_class_if_unreferenced(busy_id));
    assert!(!ms.class_registry.contains(busy_id));
}

#[test]
fn pointer_and_array_targets_count_as_references() {
    let mut ids = IdCounters::new();
    let root = flat_class(&mut ids, "Root");
    let root_id = root.id;
    let mut ms = MemoryStructure::new("root".to_string(), 0x1000, root);
    ms.change_field_type(root_id, 1, FieldType::Pointer);
    let target = ms.create_pointer_target_class(&mut ids, root_id, 1);
    assert!(ms.is_class_referenced(target));
    let mut elem = ClassDefinition::new(&mut ids, "Elem".to_string());
    elem.add_hex_field(&mut ids, FieldType::Hex64);
    let elem_id = elem.id;
    ms.class_registry.register(elem);
    assert!(!ms.is_class_referenced(elem_id));
    ms.class_registry.get_mut(root_id).unwrap().fields[1].pointer_target =
        Some(PointerTarget::Array { element: Box::new(PointerTarget::ClassId(elem_id)), length: 3 });
    assert!(ms.is_class_referenced(elem_id));
    assert!(!ms.is_class_referenced(target));
    assert_eq!(ms.unused_class_ids(), vec![target]);
}

#[test]
fn nesting_cycles_are_detected_across_the_registry() {
    let mut ids = IdCounters::new();
    let root = flat_class(&mut ids, "Root");
    let root_id = root.id;
    let mut ms = MemoryStructure::new("root".to_string(), 0x1000, root);
    assert!(ms.nesting_is_acyclic());
    let child = ms.create_class_from_field(&mut ids, root_id, 1);
    assert!(ms.nesting_is_acyclic());
    // Make the child embed the root: root -> child -> root.
    ms.class_registry.get_mut(child).unwrap().fields[0].field_type = FieldType::ClassInstance;
    ms.class_registry.get_mut(child).unwrap().fields[0].class_id = Some(root_id);
    assert!(!ms.nesting_is_acyclic());
}

#[test]
fn nested_instances_are_built_when_the_layout_fits() {
    fn structure_at(address: u64, child_fields: usize) -> (MemoryStructure, u64) {
        let mut ids = IdCounters::new();
        let mut child = ClassDefinition::new(&mut ids, "Child".to_string());
        for _ in 0..child_fields {
            child.add_hex_field(&mut ids, FieldType::Hex64);
        }
        let child_id = child.id;
        let mut root = ClassDefinition::new(&mut ids, "Root".to_string());
        root.add_named_field(&mut ids, "a".to_string(), FieldType::Int32);
        root.add_class_instance(&mut ids, "child".to_string(), &child);
        let mut ms = MemoryStructure::new("root".to_string(), address, root);
        ms.class_registry.register(child);
        (ms, child_id)
    }
    let (mut ms, child) = structure_at(0x1000, 1);
    assert!(ms.try_create_nested_instances());
    let nested = ms.root_class.fields[1].nested_instance.as_ref().unwrap();
    assert_eq!(nested.class_id, child);
    assert_eq!(nested.address, 0x1004);
    assert_eq!(ms.root_class.total_size, 12);
    // At the very top of the address space the nested fields no longer fit.
    let (mut high, _) = structure_at(u64::MAX - 11, 2);
    assert!(!high.try_create_nested_instances());
    assert!(high.root_class.fields[1].nested_instance.is_none());
}

#[test]
fn checked_root_changes_keep_the_root_when_it_does_not_fit() {
    let mut ids = IdCounters::new();
    let small = flat_class(&mut ids, "Small");
    let mut big = ClassDefinition::new(&mut ids, "Big".to_string());
    for _ in 0..4 {
        big.add_hex_field(&mut ids, FieldType::Hex64);
    }
    let big_id = big.id;
    let small_id = small.id;
    let mut ms = MemoryStructure::new("root".to_string(), u64::MAX - 15, small);
    ms.class_registry.register(big);
    assert!(!ms.try_set_root_class_by_id(big_id));
    assert_eq!(ms.root_class.class_id, small_id);
    assert!(!ms.try_set_root_class_by_id(4242));
    assert!(ms.try_rebuild_root_from_registry());
    assert_eq!(ms.root_class.fields.len(), 2);
    assert!(ms.try_set_root_address(0x2000));
    assert!(ms.try_set_root_class_by_id(big_id));
    assert_eq!(ms.root_class.class_id, big_id);
    assert_eq!(ms.root_class.address, 0x2000);
    assert_eq!(ms.root_class.total_size, 32);
    assert!(!ms.try_set_root_address(u64::MAX - 8));
    assert_eq!(ms.root_class.address, 0x2000);
}

#[test]
fn changing_the_type_of_several_fields_retypes_each() {
    let mut ids = IdCounters::new();
    let mut c = flat_class(&mut ids, "A");
    c.add_hex_field(&mut ids, FieldType::Hex32);
    let x = c.fields[1].id;
    let y = c.fields[2].id;
    c.change_fields_type_with_ids(&vec![x, y], FieldType::Int16, None);
    assert_eq!(c.fields[0].field_type, FieldType::Int32);
    assert_eq!(c.fields[1].field_type, FieldType::Int16);
    assert_eq!(c.fields[2].field_type, FieldType::Int16);
    assert_eq!(c.fields[1].name.as_deref(), Some("var_1"));
    assert_eq!(c.fields[2].name.as_deref(), Some("var_2"));
    assert_eq!(c.fields[2].offset, 6);
    assert_eq!(c.total_size, 8);
    c.change_fields_type_with_ids(&vec![999], FieldType::Bool, None);
    assert_eq!(c.fields[1].field_type, FieldType::Int16);
    c.change_fields_type_with_ids(&vec![y], FieldType::Pointer, None);
    assert_eq!(c.fields[2].pointer_target, Some(PointerTarget::FieldType(FieldType::Hex64)));
    assert_eq!(c.total_size, 14);
}

#[test]
fn adding_bytes_fills_with_the_widest_hex_fields() {
    let mut ids = IdCounters::new();
    let mut c = flat_class(&mut ids, "A");
    assert_eq!(c.total_size, 12);
    c.add_hex_bytes(&mut ids, 13);
    let types: Vec<FieldType> = c.fields.iter().map(|f| f.field_type).collect();
    assert_eq!(types, vec![FieldType::Int32, FieldType::Hex64, FieldType::Hex64, FieldType::Hex32, FieldType::Hex8]);
    assert_eq!(c.total_size, 25);
    assert_eq!(c.fields[4].offset, 24);
    c.add_hex_bytes(&mut ids, 0);
    assert_eq!(c.fields.len(), 5);
}

#[test]
fn inserting_bytes_places_hex_fields_at_the_index() {
    let mut ids = IdCounters::new();
    let mut c = flat_class(&mut ids, "A");
    c.insert_hex_bytes_at(&mut ids, 1, 6);
    let types: Vec<FieldType> = c.fields.iter().map(|f| f.field_type).collect();
    assert_eq!(types, vec![FieldType::Int32, FieldType::Hex32, FieldType::Hex16, FieldType::Hex64]);
    assert_eq!(c.fields[3].offset, 10);
    assert_eq!(c.total_size, 18);
    // Past the end, the bytes go at the end.
    c.insert_hex_bytes_at(&mut ids, 99, 1);
    assert_eq!(c.fields.last().unwrap().field_type, FieldType::Hex8);
    assert_eq!(c.total_size, 19);
}

#[test]
fn row_texts_read_back_as_their_values() {
    let bytes = [0xef, 0xcd, 0xab, 0x89, 0x67, 0x45, 0x23, 0x01];
    let hex = Kind::Hex64.format_value(&bytes, None);
    assert_eq!(parse_hex_u64(&hex), Some(0x0123_4567_89ab_cdef));
    let dec = Kind::UInt32.format_value(&bytes, None);
    assert_eq!(parse_hex_u64(&dec), Some(0x89ab_cdef));
}

#[test]
fn embedded_class_changes_refuse_cycles() {
    let mut ids = IdCounters::new();
    let root = flat_class(&mut ids, "Root");
    let root_id = root.id;
    let mut ms = MemoryStructure::new("root".to_string(), 0x1000, root);
    let b = ms.create_class_from_field(&mut ids, root_id, 1);
    let b_field = ms.class_registry.get(b).unwrap().fields[0].id;
    let root_field = ms.class_registry.get(root_id).unwrap().fields[1].id;
    // Making the embedded class embed the root would close a cycle.
    assert_eq!(ms.change_embedded_class(b, b_field, root_id), EmbedChange::Cycle);
    assert_eq!(ms.change_embedded_class(b, b_field, b), EmbedChange::Cycle);
    assert_eq!(ms.change_embedded_class(root_id, root_field, 777), EmbedChange::UnknownClass);
    let mut other = ClassDefinition::new(&mut ids, "Other".to_string());
    other.add_hex_field(&mut ids, FieldType::Hex64);
    let other_id = other.id;
    ms.class_registry.register(other);
    assert_eq!(ms.change_embedded_class(root_id, 424242, other_id), EmbedChange::Unchanged);
    assert_eq!(ms.change_embedded_class(root_id, root_field, other_id), EmbedChange::Changed);
    assert_eq!(ms.class_registry.get(root_id).unwrap().fields[1].class_id, Some(other_id));
    assert!(ms.nesting_is_acyclic());
}

#[test]
fn whole_address_expressions_follow_their_parts() {
    let mods = game_modules();
    assert_eq!(eval_address_expr("<game.dll>", &mods, &[]), AddressEval::Value(0x40_0000));
    assert_eq!(eval_address_expr("<nothing.dll>", &mods, &[]), AddressEval::Invalid);
    assert_eq!(eval_address_expr("[<game.dll>]", &mods, &[]), AddressEval::NeedsRead(0x40_0000));
    assert_eq!(eval_address_expr("[<game.dll>]", &mods, &[Some(0x1234)]), AddressEval::Value(0x1234));
    assert_eq!(eval_address_expr("[<game.dll>]", &mods, &[None]), AddressEval::Invalid);
    assert_eq!(eval_address_expr("$Player_1", &mods, &[]), AddressEval::NeedsSignature("Player_1".to_string()));
    assert_eq!(eval_address_expr("$Player_1", &mods, &[Some(7)]), AddressEval::Value(7));
    assert_eq!(eval_address_expr("$Player_1", &mods, &[None]), AddressEval::Invalid);
    assert_eq!(eval_address_expr("<game.dll>+0x10", &mods, &[]), AddressEval::Value(0x40_0010));
}

#[test]
fn pointer_and_array_targets_refer_to_enums() {
    let mut ids = IdCounters::new();
    let root = flat_class(&mut ids, "Root");
    let root_id = root.id;
    let mut ms = MemoryStructure::new("root".to_string(), 0x1000, root);
    let e = EnumDefinition::new(&mut ids, "Mode".to_string());
    let e_id = e.id;
    ms.enum_registry.register(e);
    assert!(!ms.is_enum_referenced(e_id));
    ms.class_registry.get_mut(root_id).unwrap().fields[1].pointer_target = Some(PointerTarget::EnumId(e_id));
    assert!(ms.is_enum_referenced(e_id));
    ms.class_registry.get_mut(root_id).unwrap().fields[1].pointer_target = None;
    ms.class_registry.get_mut(root_id).unwrap().fields[1].array_element =
        Some(PointerTarget::Array { element: Box::new(PointerTarget::EnumId(e_id)), length: 2 });
    assert!(ms.is_enum_referenced(e_id));
}

#[test]
fn array_elements_keep_their_class_in_use() {
    let mut ids = IdCounters::new();
    let root = flat_class(&mut ids, "Root");
    let root_id = root.id;
    let mut ms = MemoryStructure::new("root".to_string(), 0x1000, root);
    let mut elem = ClassDefinition::new(&mut ids, "Elem".to_string());
    elem.add_hex_field(&mut ids, FieldType::Hex64);
    let elem_id = elem.id;
    ms.class_registry.register(elem);
    assert_eq!(ms.unused_class_ids(), vec![elem_id]);
    let owner = ms.class_registry.get_mut(root_id).unwrap();
    owner.fields[1].field_type = FieldType::Array;
    owner.fields[1].array_element = Some(PointerTarget::ClassId(elem_id));
    owner.fields[1].array_length = Some(4);
    assert!(ms.is_class_referenced(elem_id));
    assert!(ms.delete_unused_classes().is_empty());
    assert!(ms.class_registry.contains(elem_id));
}

#[test]
fn short_floating_point_values_are_invalid() {
    assert_eq!(Kind::Float.format_value(&[1, 2, 3], None), "Invalid");
    assert_eq!(Kind::Double.format_value(&[1, 2, 3, 4, 5, 6, 7], None), "Invalid");
    assert_eq!(Kind::Vector3.format_value(&[1, 2, 3, 4], None), "Invalid");
    assert_eq!(Kind::Float.format_value(&[], None), "No data");
}

#[test]
fn pointer_targets_are_chosen_from_the_menu() {
    let mut ids = IdCounters::new();
    let root = flat_class(&mut ids, "Root");
    let root_id = root.id;
    let mut ms = MemoryStructure::new("root".to_string(), 0x1000, root);
    // field 1 is a hex field, not a pointer: nothing changes
    assert!(!ms.set_pointer_target(root_id, 1, PointerTarget::ClassId(root_id)));
    assert!(ms.class_registry.get(root_id).unwrap().fields[1].pointer_target.is_none());
    assert!(ms.change_field_type(root_id, 1, FieldType::Pointer));
    assert!(ms.set_pointer_target(root_id, 1, PointerTarget::ClassId(root_id)));
    assert_eq!(ms.class_registry.get(root_id).unwrap().fields[1].pointer_target, Some(PointerTarget::ClassId(root_id)));
    // an enum primitive with no enum registered falls back to UInt32
    assert!(ms.set_pointer_primitive(root_id, 1, FieldType::Enum));
    assert_eq!(
        ms.class_registry.get(root_id).unwrap().fields[1].pointer_target,
        Some(PointerTarget::FieldType(FieldType::UInt32))
    );
    let e = EnumDefinition::new(&mut ids, "Mode".to_string());
    let e_id = e.id;
    ms.enum_registry.register(e);
    assert!(ms.set_pointer_primitive(root_id, 1, FieldType::Enum));
    assert_eq!(ms.class_registry.get(root_id).unwrap().fields[1].pointer_target, Some(PointerTarget::EnumId(e_id)));
    assert!(ms.set_pointer_primitive(root_id, 1, FieldType::Float));
    assert_eq!(
        ms.class_registry.get(root_id).unwrap().fields[1].pointer_target,
        Some(PointerTarget::FieldType(FieldType::Float))
    );
    assert!(!ms.set_pointer_target(root_id, 7, PointerTarget::EnumId(e_id)));
    assert!(!ms.set_pointer_target(root_id + 100, 1, PointerTarget::EnumId(e_id)));
}

#[test]
fn array_element_and_length_are_chosen_from_the_menu() {
    let mut ids = IdCounters::new();
    let root = flat_class(&mut ids, "Root");
    let root_id = root.id;
    let mut ms = MemoryStructure::new("root".to_string(), 0x1000, root);
    assert!(!ms.set_array_length(root_id, 1, 3));
    assert!(ms.change_field_type(root_id, 1, FieldType::Array));
    assert!(ms.set_array_length(root_id, 1, 3));
    assert_eq!(ms.class_registry.get(root_id).unwrap().fields[1].array_length, Some(3));
    assert!(ms.set_array_primitive(root_id, 1, FieldType::Int16));
    assert_eq!(
        ms.class_registry.get(root_id).unwrap().fields[1].array_element,
        Some(PointerTarget::FieldType(FieldType::Int16))
    );
    assert!(ms.set_array_element(root_id, 1, PointerTarget::ClassId(root_id)));
    assert_eq!(ms.class_registry.get(root_id).unwrap().fields[1].array_element, Some(PointerTarget::ClassId(root_id)));
    assert_eq!(ms.class_registry.get(root_id).unwrap().fields[1].array_length, Some(3));
}

#[test]
fn enum_fields_take_only_registered_enums() {
    let mut ids = IdCounters::new();
    let root = flat_class(&mut ids, "Root");
    let root_id = root.id;
    let mut ms = MemoryStructure::new("root".to_string(), 0x1000, root);
    let a = EnumDefinition::new(&mut ids, "A".to_string());
    let a_id = a.id;
    let b = EnumDefinition::new(&mut ids, "B".to_string());
    let b_id = b.id;
    ms.enum_registry.register(a);
    ms.enum_registry.register(b);
    assert!(!ms.set_field_enum(root_id, 1, b_id));
    assert!(ms.change_field_type(root_id, 1, FieldType::Enum));
    assert_eq!(ms.class_registry.get(root_id).unwrap().fields[1].enum_id, Some(a_id));
    assert!(!ms.set_field_enum(root_id, 1, a_id));
    assert!(!ms.set_field_enum(root_id, 1, b_id + 100));
    assert!(ms.set_field_enum(root_id, 1, b_id));
    assert_eq!(ms.class_registry.get(root_id).unwrap().fields[1].enum_id, Some(b_id));
}

#[test]
fn dereferencing_reads_at_the_inner_value() {
    let mods = game_modules();
    assert_eq!(eval_address_expr("0x10+0x20", &mods, &[]), AddressEval::Value(0x30));
    assert_eq!(eval_address_expr("[0x10+0x20]", &mods, &[]), AddressEval::NeedsRead(0x30));
    assert_eq!(eval_address_expr("[0x10+0x20]", &mods, &[Some(7)]), AddressEval::Value(7));
    assert_eq!(eval_address_expr("[0x10+0x20]", &mods, &[None]), AddressEval::Invalid);
    // the inner expression's own question comes first
    assert_eq!(eval_address_expr("[[<game.dll>]+8]", &mods, &[]), AddressEval::NeedsRead(0x40_0000));
    assert_eq!(eval_address_expr("[[<game.dll>]+8]", &mods, &[Some(0x100)]), AddressEval::NeedsRead(0x108));
    assert_eq!(eval_address_expr("[[<game.dll>]+8]", &mods, &[Some(0x100), Some(9)]), AddressEval::Value(9));
    assert_eq!(eval_address_expr("[$Player_1]", &mods, &[]), AddressEval::NeedsSignature("Player_1".to_string()));
    assert_eq!(eval_address_expr("[$Player_1]", &mods, &[Some(0x20), Some(3)]), AddressEval::Value(3));
}
