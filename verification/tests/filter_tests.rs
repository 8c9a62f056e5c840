use reclass::{
    module_name_matches, module_row_text, process_name_matches, ClassDefinition, FieldType, IdCounters, MemoryStructure,
    ModuleInfo,
};

#[test]
fn process_filter_is_case_insensitive_substring() {
    assert!(process_name_matches("Notepad.exe", ""));
    assert!(process_name_matches("Notepad.exe", "PAD"));
    assert!(process_name_matches("Notepad.exe", "notepad.exe"));
    assert!(!process_name_matches("Notepad.exe", "calc"));
    assert!(!process_name_matches("ab", "abc"));
}

#[test]
fn module_filter_is_case_insensitive_substring() {
    assert!(module_name_matches("KERNEL32.DLL", "kernel"));
    assert!(module_name_matches("client.dll", ""));
    assert!(!module_name_matches("client.dll", "server"));
}

#[test]
fn module_rows_show_name_base_and_size() {
    let m = ModuleInfo { name: Some("game.dll".to_string()), base_address: 0x7ff6_1000, module_size: 5000 };
    assert_eq!(module_row_text(&m), "game.dll @ 0x7FF61000 (4 KB)");
    let unnamed = ModuleInfo { name: None, base_address: 0, module_size: 1023 };
    assert_eq!(module_row_text(&unnamed), "Unknown @ 0x0 (0 KB)");
}

#[test]
fn class_list_filter_keeps_registry_order() {
    let mut ids = IdCounters::new();
    let mut root = ClassDefinition::new(&mut ids, "PlayerRoot".to_string());
    root.add_hex_field(&mut ids, FieldType::Hex64);
    let root_id = root.id;
    let mut ms = MemoryStructure::new("root".to_string(), 0x1000, root);
    let mut w = ClassDefinition::new(&mut ids, "Weapon".to_string());
    w.add_hex_field(&mut ids, FieldType::Hex64);
    let w_id = w.id;
    ms.class_registry.register(w);
    let mut p = ClassDefinition::new(&mut ids, "playerStats".to_string());
    p.add_hex_field(&mut ids, FieldType::Hex64);
    let p_id = p.id;
    ms.class_registry.register(p);
    assert_eq!(ms.class_ids_matching("  "), vec![root_id, w_id, p_id]);
    assert_eq!(ms.class_ids_matching("PLAYER"), vec![root_id, p_id]);
    assert_eq!(ms.class_ids_matching("weap"), vec![w_id]);
    assert!(ms.class_ids_matching("zzz").is_empty());
}
