use reclass::{
    ClassDefinition, ClassDefinitionRegistry, ClassInstance, FieldDefinition, FieldType, IdCounters, MemoryField,
    MemoryStructure,
};

#[test]
fn test_field_type_sizes() {
    assert_eq!(FieldType::Hex64.get_size(), 8);
    assert_eq!(FieldType::Hex32.get_size(), 4);
    assert_eq!(FieldType::Hex16.get_size(), 2);
    assert_eq!(FieldType::Hex8.get_size(), 1);

    assert_eq!(FieldType::Int64.get_size(), 8);
    assert_eq!(FieldType::Int32.get_size(), 4);
    assert_eq!(FieldType::Int16.get_size(), 2);
    assert_eq!(FieldType::Int8.get_size(), 1);

    assert_eq!(FieldType::UInt64.get_size(), 8);
    assert_eq!(FieldType::UInt32.get_size(), 4);
    assert_eq!(FieldType::UInt16.get_size(), 2);
    assert_eq!(FieldType::UInt8.get_size(), 1);

    assert_eq!(FieldType::Bool.get_size(), 1);
    assert_eq!(FieldType::Float.get_size(), 4);
    assert_eq!(FieldType::Double.get_size(), 8);

    assert_eq!(FieldType::Vector2.get_size(), 4);
    assert_eq!(FieldType::Vector3.get_size(), 12);
    assert_eq!(FieldType::Vector4.get_size(), 16);

    assert_eq!(FieldType::Text.get_size(), 32);
    assert_eq!(FieldType::TextPointer.get_size(), 8);

    assert_eq!(FieldType::ClassInstance.get_size(), 0);
    assert_eq!(FieldType::Array.get_size(), 0);
}

#[test]
fn test_hex_type_detection() {
    assert!(FieldType::Hex64.is_hex_type());
    assert!(FieldType::Hex32.is_hex_type());
    assert!(FieldType::Hex16.is_hex_type());
    assert!(FieldType::Hex8.is_hex_type());

    assert!(!FieldType::Int64.is_hex_type());
    assert!(!FieldType::Bool.is_hex_type());
    assert!(!FieldType::ClassInstance.is_hex_type());
}

#[test]
fn test_dynamic_size_detection() {
    assert!(FieldType::ClassInstance.is_dynamic_size());
    assert!(FieldType::Array.is_dynamic_size());

    assert!(!FieldType::Hex64.is_dynamic_size());
    assert!(!FieldType::Int32.is_dynamic_size());
    assert!(!FieldType::Bool.is_dynamic_size());
}

#[test]
fn test_display_names() {
    assert_eq!(FieldType::Hex64.get_display_name(), "Hex64");
    assert_eq!(FieldType::Int32.get_display_name(), "Int32");
    assert_eq!(FieldType::Bool.get_display_name(), "Bool");
    assert_eq!(FieldType::ClassInstance.get_display_name(), "ClassInstance");
    assert_eq!(FieldType::Array.get_display_name(), "Array");
}

#[test]
fn test_field_type_display() {
    assert_eq!(FieldType::Hex64.to_string(), "Hex64");
    assert_eq!(FieldType::Int32.to_string(), "Int32");
    assert_eq!(FieldType::ClassInstance.to_string(), "ClassInstance");
    assert_eq!(FieldType::Array.to_string(), "Array");
}

#[test]
fn test_field_definition_creation() {
    let mut ids = IdCounters::new();
    let named_field = FieldDefinition::new_named(&mut ids, "test_field".to_string(), FieldType::Int32, 0);
    assert_eq!(named_field.name, Some("test_field".to_string()));
    assert_eq!(named_field.field_type, FieldType::Int32);
    assert_eq!(named_field.offset, 0);
    assert_eq!(named_field.get_size(), 4);

    let hex_field = FieldDefinition::new_hex(&mut ids, FieldType::Hex64, 8);
    assert_eq!(hex_field.name, None);
    assert_eq!(hex_field.field_type, FieldType::Hex64);
    assert_eq!(hex_field.offset, 8);
    assert_eq!(hex_field.get_size(), 8);
}

#[test]
fn test_class_definition_creation() {
    let mut ids = IdCounters::new();
    let class = ClassDefinition::new(&mut ids, "TestClass".to_string());
    assert_eq!(class.name, "TestClass");
    assert!(class.fields.is_empty());
    assert_eq!(class.total_size, 0);
}

#[test]
fn test_add_named_field() {
    let mut ids = IdCounters::new();
    let mut class = ClassDefinition::new(&mut ids, "TestClass".to_string());
    class.add_named_field(&mut ids, "health".to_string(), FieldType::Int32);

    assert_eq!(class.fields.len(), 1);
    assert_eq!(class.total_size, 4);

    let field = &class.fields[0];
    assert_eq!(field.name, Some("health".to_string()));
    assert_eq!(field.field_type, FieldType::Int32);
    assert_eq!(field.offset, 0);
}

#[test]
fn test_add_hex_field() {
    let mut ids = IdCounters::new();
    let mut class = ClassDefinition::new(&mut ids, "TestClass".to_string());
    class.add_hex_field(&mut ids, FieldType::Hex64);

    assert_eq!(class.fields.len(), 1);
    assert_eq!(class.total_size, 8);

    let field = &class.fields[0];
    assert_eq!(field.name, None);
    assert_eq!(field.field_type, FieldType::Hex64);
    assert_eq!(field.offset, 0);
}

#[test]
fn test_add_class_instance() {
    let mut ids = IdCounters::new();
    let mut class = ClassDefinition::new(&mut ids, "TestClass".to_string());
    let target_class = ClassDefinition::new(&mut ids, "TargetClass".to_string());

    class.add_class_instance(&mut ids, "instance".to_string(), &target_class);

    assert_eq!(class.fields.len(), 1);
    assert_eq!(class.total_size, 0);

    let field = &class.fields[0];
    assert_eq!(field.name, Some("instance".to_string()));
    assert_eq!(field.field_type, FieldType::ClassInstance);
    assert_eq!(field.offset, 0);
}

#[test]
fn test_multiple_fields() {
    let mut ids = IdCounters::new();
    let mut class = ClassDefinition::new(&mut ids, "TestClass".to_string());
    class.add_named_field(&mut ids, "health".to_string(), FieldType::Int32);
    class.add_hex_field(&mut ids, FieldType::Hex64);
    class.add_named_field(&mut ids, "name".to_string(), FieldType::TextPointer);

    assert_eq!(class.fields.len(), 3);
    assert_eq!(class.total_size, 20);

    assert_eq!(class.fields[0].offset, 0);
    assert_eq!(class.fields[1].offset, 4);
    assert_eq!(class.fields[2].offset, 12);
}

#[test]
fn test_get_field_by_name() {
    let mut ids = IdCounters::new();
    let mut class = ClassDefinition::new(&mut ids, "TestClass".to_string());
    class.add_named_field(&mut ids, "health".to_string(), FieldType::Int32);
    class.add_named_field(&mut ids, "name".to_string(), FieldType::TextPointer);

    let health_field = class.get_field_by_name("health");
    assert!(health_field.is_some());
    assert_eq!(health_field.unwrap().field_type, FieldType::Int32);

    let name_field = class.get_field_by_name("name");
    assert!(name_field.is_some());
    assert_eq!(name_field.unwrap().field_type, FieldType::TextPointer);

    let non_existent = class.get_field_by_name("non_existent");
    assert!(non_existent.is_none());
}

#[test]
fn test_get_field_by_index() {
    let mut ids = IdCounters::new();
    let mut class = ClassDefinition::new(&mut ids, "TestClass".to_string());
    class.add_named_field(&mut ids, "health".to_string(), FieldType::Int32);
    class.add_named_field(&mut ids, "name".to_string(), FieldType::TextPointer);

    let first_field = class.get_field_by_index(0);
    assert!(first_field.is_some());
    assert_eq!(first_field.unwrap().field_type, FieldType::Int32);

    let second_field = class.get_field_by_index(1);
    assert!(second_field.is_some());
    assert_eq!(second_field.unwrap().field_type, FieldType::TextPointer);

    let out_of_bounds = class.get_field_by_index(2);
    assert!(out_of_bounds.is_none());
}

#[test]
fn test_registry_creation() {
    let registry = ClassDefinitionRegistry::new();
    assert!(registry.get_class_ids().is_empty());
}

#[test]
fn test_register_and_get_class() {
    let mut ids = IdCounters::new();
    let mut registry = ClassDefinitionRegistry::new();
    let mut class = ClassDefinition::new(&mut ids, "TestClass".to_string());
    class.add_named_field(&mut ids, "health".to_string(), FieldType::Int32);

    registry.register(class.clone());

    assert!(registry.contains(class.id));
    assert!(!registry.contains(9999));

    let retrieved = registry.get(class.id);
    assert!(retrieved.is_some());
    assert_eq!(retrieved.unwrap().name, "TestClass");
}

#[test]
fn test_get_class_names() {
    let mut ids = IdCounters::new();
    let mut registry = ClassDefinitionRegistry::new();
    let class1 = ClassDefinition::new(&mut ids, "Class1".to_string());
    let class2 = ClassDefinition::new(&mut ids, "Class2".to_string());
    registry.register(class1.clone());
    registry.register(class2.clone());

    let class_ids = registry.get_class_ids();
    assert_eq!(class_ids.len(), 2);
    assert!(class_ids.contains(&class1.id));
    assert!(class_ids.contains(&class2.id));
}

#[test]
fn test_remove_class() {
    let mut ids = IdCounters::new();
    let mut registry = ClassDefinitionRegistry::new();
    let class = ClassDefinition::new(&mut ids, "TestClass".to_string());
    registry.register(class.clone());

    assert!(registry.contains(class.id));

    let removed = registry.remove(class.id);
    assert!(removed.is_some());
    assert_eq!(removed.unwrap().name, "TestClass");

    assert!(!registry.contains(class.id));
    assert!(registry.get(class.id).is_none());
}

#[test]
fn test_memory_field_creation() {
    let hex_field = MemoryField::new_hex(FieldType::Hex64, 0x1000);
    assert_eq!(hex_field.address, 0x1000);
    assert!(hex_field.data.is_none());
    assert!(hex_field.error.is_none());
    assert!(!hex_field.is_editing);
}

#[test]
fn test_memory_field_size() {
    let field = MemoryField::new_hex(FieldType::Hex64, 0x1000);
    assert_eq!(field.address, 0x1000);
}

#[test]
fn test_class_instance_creation() {
    let mut ids = IdCounters::new();
    let mut class_def = ClassDefinition::new(&mut ids, "TestClass".to_string());
    class_def.add_named_field(&mut ids, "health".to_string(), FieldType::Int32);
    class_def.add_hex_field(&mut ids, FieldType::Hex64);

    let instance = ClassInstance::new("TestInstance".to_string(), 0x1000, class_def.clone());

    assert_eq!(instance.name, "TestInstance");
    assert_eq!(instance.address, 0x1000);
    assert_eq!(instance.fields.len(), 2);
    assert_eq!(instance.total_size, 12);
}

#[test]
fn test_field_addresses() {
    let mut ids = IdCounters::new();
    let mut class_def = ClassDefinition::new(&mut ids, "TestClass".to_string());
    class_def.add_named_field(&mut ids, "health".to_string(), FieldType::Int32);
    class_def.add_hex_field(&mut ids, FieldType::Hex64);

    let instance = ClassInstance::new("TestInstance".to_string(), 0x1000, class_def);

    assert_eq!(instance.fields[0].address, 0x1000);
    assert_eq!(instance.fields[1].address, 0x1004);
}

#[test]
fn tests_test_get_field_by_name() {
    let mut ids = IdCounters::new();
    let mut class_def = ClassDefinition::new(&mut ids, "TestClass".to_string());
    class_def.add_named_field(&mut ids, "health".to_string(), FieldType::Int32);
    class_def.add_named_field(&mut ids, "name".to_string(), FieldType::TextPointer);

    let instance = ClassInstance::new("TestInstance".to_string(), 0x1000, class_def.clone());

    let idx = class_def.fields.iter().position(|fd| fd.name.as_deref() == Some("health")).unwrap();
    assert_eq!(instance.fields[idx].address, 0x1000);
}

#[test]
fn tests_test_get_field_by_index() {
    let mut ids = IdCounters::new();
    let mut class_def = ClassDefinition::new(&mut ids, "TestClass".to_string());
    class_def.add_named_field(&mut ids, "health".to_string(), FieldType::Int32);
    class_def.add_named_field(&mut ids, "name".to_string(), FieldType::TextPointer);

    let instance = ClassInstance::new("TestInstance".to_string(), 0x1000, class_def);

    let first_field = instance.get_field_by_index(0);
    assert!(first_field.is_some());
    assert_eq!(first_field.unwrap().address, 0x1000);

    let out_of_bounds = instance.get_field_by_index(2);
    assert!(out_of_bounds.is_none());
}

#[test]
fn test_display_name() {
    let mut ids = IdCounters::new();
    let class_def = ClassDefinition::new(&mut ids, "TestClass".to_string());
    let instance = ClassInstance::new("TestInstance".to_string(), 0x1000, class_def.clone());
    let mut registry = ClassDefinitionRegistry::new();
    registry.register(class_def.clone());
    assert_eq!(instance.get_display_name_with_registry(&registry), "TestInstance: TestClass");
}

#[test]
fn test_memory_structure_creation() {
    let mut ids = IdCounters::new();
    let mut class_def = ClassDefinition::new(&mut ids, "TestClass".to_string());
    class_def.add_named_field(&mut ids, "health".to_string(), FieldType::Int32);

    let structure = MemoryStructure::new("RootInstance".to_string(), 0x1000, class_def.clone());

    assert_eq!(structure.root_class.name, "RootInstance");
    assert_eq!(structure.root_class.address, 0x1000);
    assert_eq!(structure.class_registry.get(class_def.id).unwrap().name, "TestClass");
    assert!(structure.class_registry.contains(class_def.id));
}

#[test]
fn test_register_class() {
    let mut ids = IdCounters::new();
    let mut structure = MemoryStructure::new(
        "RootInstance".to_string(),
        0x1000,
        ClassDefinition::new(&mut ids, "RootClass".to_string()),
    );

    let mut new_class = ClassDefinition::new(&mut ids, "NewClass".to_string());
    new_class.add_named_field(&mut ids, "test".to_string(), FieldType::Int32);

    structure.register_class(new_class.clone());

    assert!(structure.class_registry.contains(new_class.id));
    assert!(structure.get_class_definition(new_class.id).is_some());
}

#[test]
fn test_create_class_instance() {
    let mut ids = IdCounters::new();
    let mut structure = MemoryStructure::new(
        "RootInstance".to_string(),
        0x1000,
        ClassDefinition::new(&mut ids, "RootClass".to_string()),
    );

    let mut class_def = ClassDefinition::new(&mut ids, "TestClass".to_string());
    class_def.add_named_field(&mut ids, "health".to_string(), FieldType::Int32);
    structure.register_class(class_def.clone());

    let instance = structure.create_class_instance("TestInstance".to_string(), 0x2000, class_def.id);
    assert!(instance.is_some());

    let instance = instance.unwrap();
    assert_eq!(instance.name, "TestInstance");
    assert_eq!(instance.address, 0x2000);
    assert_eq!(structure.class_registry.get(instance.class_id).unwrap().name, "TestClass");
}

#[test]
fn test_create_class_instance_nonexistent() {
    let mut ids = IdCounters::new();
    let structure = MemoryStructure::new(
        "RootInstance".to_string(),
        0x1000,
        ClassDefinition::new(&mut ids, "RootClass".to_string()),
    );

    assert_eq!(structure.root_class.name, "RootInstance");
    assert_eq!(structure.root_class.address, 0x1000);
}

#[test]
fn test_get_available_classes() {
    let mut ids = IdCounters::new();
    let root_def = ClassDefinition::new(&mut ids, "RootClass".to_string());
    let mut structure = MemoryStructure::new("RootInstance".to_string(), 0x1000, root_def.clone());

    let class1 = ClassDefinition::new(&mut ids, "Class1".to_string());
    let class2 = ClassDefinition::new(&mut ids, "Class2".to_string());
    structure.register_class(class1.clone());
    structure.register_class(class2.clone());

    let classes = structure.get_available_classes();
    assert_eq!(classes.len(), 3);
    assert!(classes.contains(&root_def.id));
    assert!(classes.contains(&class1.id));
    assert!(classes.contains(&class2.id));
}

#[test]
fn test_set_root_class_by_name_preserves_name_and_address() {
    let mut ids = IdCounters::new();
    let mut structure = MemoryStructure::new(
        "RootInstance".to_string(),
        0x1234,
        ClassDefinition::new(&mut ids, "RootClass".to_string()),
    );
    let mut other = ClassDefinition::new(&mut ids, "Other".to_string());
    other.add_named_field(&mut ids, "v".to_string(), FieldType::Int32);
    structure.register_class(other.clone());

    let ok = structure.set_root_class_by_id(other.id);
    assert!(ok);
    assert_eq!(structure.root_class.name, "RootInstance");
    assert_eq!(structure.root_class.address, 0x1234);
    assert_eq!(structure.class_registry.get(structure.root_class.class_id).unwrap().name, "Other");
    assert_eq!(structure.root_class.fields.len(), 1);
}

#[test]
fn test_rebuild_root_from_registry_after_definition_change() {
    let mut ids = IdCounters::new();
    let mut def = ClassDefinition::new(&mut ids, "Root".to_string());
    def.add_named_field(&mut ids, "a".to_string(), FieldType::Int32);
    let mut structure = MemoryStructure::new("inst".to_string(), 0x0, def.clone());
    assert_eq!(structure.root_class.fields.len(), 1);

    if let Some(d) = structure.class_registry.get_mut(def.id) {
        d.add_hex_field(&mut ids, FieldType::Hex32);
    }
    structure.rebuild_root_from_registry();
    assert_eq!(structure.root_class.fields.len(), 2);
}

#[test]
fn test_convert_field_to_class_instance_and_bind_nested() {
    let mut ids = IdCounters::new();
    let mut target = ClassDefinition::new(&mut ids, "Target".to_string());
    target.add_named_field(&mut ids, "x".to_string(), FieldType::Int32);

    let mut root = ClassDefinition::new(&mut ids, "Root".to_string());
    root.add_hex_field(&mut ids, FieldType::Hex32);

    let mut ms = MemoryStructure::new("inst".to_string(), 0x1000, root.clone());
    ms.register_class(target.clone());

    if let Some(root_def) = ms.class_registry.get_mut(root.id) {
        root_def.set_field_type_at(0, FieldType::ClassInstance);
        if let Some(fd) = root_def.fields.get_mut(0) {
            fd.class_id = Some(target.id);
        }
    }
    ms.rebuild_root_from_registry();
    ms.create_nested_instances();

    assert_eq!(ms.root_class.fields.len(), 1);
    let f = &ms.root_class.fields[0];
    assert!(f.nested_instance.is_some());
    assert_eq!(ms.class_registry.get(f.nested_instance.as_ref().unwrap().class_id).unwrap().name, "Target");
}

#[test]
fn test_set_field_type_back_to_hex_clears_name() {
    let mut ids = IdCounters::new();
    let mut def = ClassDefinition::new(&mut ids, "C".to_string());
    def.add_named_field(&mut ids, "n".to_string(), FieldType::Int32);
    def.set_field_type_at(0, FieldType::Hex32);
    assert!(def.fields[0].name.is_none());
    assert_eq!(def.fields[0].field_type, FieldType::Hex32);
}

#[test]
fn test_set_root_address_recalculates_layout() {
    let mut ids = IdCounters::new();
    let mut def = ClassDefinition::new(&mut ids, "R".to_string());
    def.add_named_field(&mut ids, "a".to_string(), FieldType::Int32);
    def.add_hex_field(&mut ids, FieldType::Hex64);
    let mut ms = MemoryStructure::new("i".to_string(), 0x1000, def);
    assert_eq!(ms.root_class.fields[0].address, 0x1000);
    assert_eq!(ms.root_class.fields[1].address, 0x1004);
    ms.set_root_address(0x2000);
    assert_eq!(ms.root_class.fields[0].address, 0x2000);
    assert_eq!(ms.root_class.fields[1].address, 0x2004);
}

#[test]
fn test_rename_updates_references_and_instances() {
    let mut ids = IdCounters::new();
    let mut root_def = ClassDefinition::new(&mut ids, "Root".to_string());
    let mut mid_def = ClassDefinition::new(&mut ids, "Mid".to_string());
    mid_def.add_named_field(&mut ids, "value".to_string(), FieldType::Int32);
    root_def.add_class_instance(&mut ids, "mid".to_string(), &mid_def);

    let mut ms = MemoryStructure::new("root".to_string(), 0x1000, root_def);
    ms.register_class(mid_def.clone());
    ms.create_nested_instances();

    assert_eq!(ms.class_registry.get(ms.root_class.class_id).unwrap().fields.len(), 1);
    let f = &ms.root_class.fields[0];
    let nested_before = f.nested_instance.as_ref().expect("nested before rename");
    assert_eq!(ms.class_registry.get(nested_before.class_id).unwrap().name, "Mid");

    let ok = ms.rename_class(mid_def.id, "MidRenamed");
    assert!(ok);

    let f_after = &ms.root_class.fields[0];
    let nested_after = f_after.nested_instance.as_ref().expect("nested after rename");
    assert_eq!(ms.class_registry.get(nested_after.class_id).unwrap().name, "MidRenamed");
}

#[test]
fn test_cycle_detection() {
    let mut ids = IdCounters::new();
    let mut a = ClassDefinition::new(&mut ids, "A".to_string());
    let b = ClassDefinition::new(&mut ids, "B".to_string());
    a.add_class_instance(&mut ids, "b_field".to_string(), &b);

    let mut ms = MemoryStructure::new("root".to_string(), 0x0, a.clone());
    ms.register_class(b.clone());

    assert!(ms.would_create_cycle(a.id, a.id));
    assert!(!ms.would_create_cycle(a.id, b.id));

    let a_def = ms.class_registry.get(a.id).unwrap().clone();
    if let Some(bmut) = ms.class_registry.get_mut(b.id) {
        bmut.add_class_instance(&mut ids, "a_field".to_string(), &a_def);
    }
    assert!(ms.would_create_cycle(a.id, b.id));
}

#[test]
fn test_field_lookup_and_access() {
    let mut ids = IdCounters::new();
    let mut class_def = ClassDefinition::new(&mut ids, "TestClass".to_string());
    class_def.add_named_field(&mut ids, "health".to_string(), FieldType::Int32);
    class_def.add_named_field(&mut ids, "name".to_string(), FieldType::TextPointer);
    class_def.add_hex_field(&mut ids, FieldType::Hex64);

    let structure = MemoryStructure::new("RootInstance".to_string(), 0x1000, class_def);

    let first_field = structure.root_class.get_field_by_index(0);
    assert!(first_field.is_some());
    assert_eq!(first_field.unwrap().address, 0x1000);

    let second_field = structure.root_class.get_field_by_index(1);
    assert!(second_field.is_some());
    assert_eq!(second_field.unwrap().address, 0x1004);

    let third_field = structure.root_class.get_field_by_index(2);
    assert!(third_field.is_some());
    let root_def = structure.class_registry.get(structure.root_class.class_id).unwrap();
    assert_eq!(root_def.fields[2].field_type, FieldType::Hex64);
}

#[test]
fn test_size_calculations() {
    let mut ids = IdCounters::new();
    let mut class_def = ClassDefinition::new(&mut ids, "TestClass".to_string());
    class_def.add_named_field(&mut ids, "health".to_string(), FieldType::Int32);
    class_def.add_hex_field(&mut ids, FieldType::Hex64);
    class_def.add_named_field(&mut ids, "name".to_string(), FieldType::TextPointer);

    let structure = MemoryStructure::new("RootInstance".to_string(), 0x1000, class_def);

    let def = structure.class_registry.get(structure.root_class.class_id).unwrap();
    assert_eq!(def.fields[0].get_size(), 4);
    assert_eq!(def.fields[1].get_size(), 8);
    assert_eq!(def.fields[2].get_size(), 8);

    assert_eq!(structure.root_class.get_size(), 20);
}
