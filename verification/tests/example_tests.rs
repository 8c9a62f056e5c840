use reclass::{create_complex_memory_structure, create_example_memory_structure, FieldType, IdCounters, MemoryStructure};

fn class_names(memory: &MemoryStructure) -> Vec<String> {
    memory
        .get_available_classes()
        .iter()
        .map(|id| memory.get_class_definition(*id).unwrap().name.clone())
        .collect()
}

#[test]
fn test_create_example_memory_structure() {
    let mut ids = IdCounters::new();
    let memory = create_example_memory_structure(&mut ids);
    assert_eq!(memory.root_class.name, "RootClass");
    assert_eq!(memory.get_class_definition(memory.root_class.class_id).unwrap().name, "class_name1");
    assert!(class_names(&memory).contains(&"class_name1".to_string()));
    assert!(class_names(&memory).contains(&"class_name2".to_string()));
}

#[test]
fn test_complex_memory_structure() {
    let mut ids = IdCounters::new();
    let memory = create_complex_memory_structure(&mut ids);
    assert_eq!(memory.root_class.name, "GameMemory");
    assert_eq!(memory.get_class_definition(memory.root_class.class_id).unwrap().name, "GameState");

    let available_classes = class_names(&memory);
    assert!(available_classes.contains(&"GameState".to_string()));
    assert!(available_classes.contains(&"Player".to_string()));
    assert!(available_classes.contains(&"Weapon".to_string()));
}

#[test]
fn example_nesting_and_layout() {
    let mut ids = IdCounters::new();
    let memory = create_example_memory_structure(&mut ids);
    let root = &memory.root_class;
    assert_eq!(root.address, 0x1000);
    let addresses: Vec<u64> = root.fields.iter().map(|f| f.address).collect();
    assert_eq!(addresses, vec![0x1000, 0x1008, 0x1010, 0x101C, 0x1024]);
    let nested = root.fields[2].nested_instance.as_ref().unwrap();
    assert_eq!(nested.name, "var_name2");
    assert_eq!(nested.total_size, 12);
    assert_eq!(nested.fields[1].address, 0x1014);
    assert!(root.fields[4].nested_instance.is_some());
    assert_eq!(root.total_size, 48);
    assert!(root.fields[3].nested_instance.is_none());
    assert_eq!(root.fields[3].field_type, FieldType::TextPointer);
}

#[test]
fn complex_example_layout() {
    let mut ids = IdCounters::new();
    let memory = create_complex_memory_structure(&mut ids);
    assert_eq!(memory.root_class.address, 0x2000);
    assert_eq!(memory.get_total_size(), 20);
    let player = memory.get_class_definition(1).unwrap();
    assert_eq!(player.name, "Player");
    assert_eq!(player.total_size, 33);
    assert_eq!(player.fields[5].offset, 25);
    assert!(memory.root_class.fields[1].nested_instance.is_none());
}
