use reclass::elements::{ClassElement, MemoryElement};
use reclass::{
    class_header_sizes, context_menu_action, eval_address_expr, resolve_signature_step, AddressEval,
    ClassDefinition, ClassDefinitionRegistry, ContextMenuAction, EnumDefinition, EnumDefinitionRegistry, FieldType,
    IdCounters, MenuButton, ModuleInfo, ModuleList, SignatureStep,
};

fn row(address: u64, size: u64, class_type: Option<ClassElement>) -> MemoryElement {
    let mut e = MemoryElement::new(address, size, "row".to_string());
    e.class_type = class_type;
    e
}

fn rows() -> Vec<MemoryElement> {
    vec![
        row(0x1000, 0, Some(ClassElement::Root)),
        row(0x1000, 8, Some(ClassElement::Field)),
        row(0x1008, 4, Some(ClassElement::Field)),
        row(0x2000, 0, Some(ClassElement::Pointer)),
        row(0x2000, 2, Some(ClassElement::Field)),
        row(0x3000, 16, None),
        row(0x3010, 1, Some(ClassElement::Field)),
    ]
}

#[test]
fn class_headers_show_the_size_of_their_fields() {
    assert_eq!(class_header_sizes(&rows()), vec![12, 0, 0, 2, 0, 0, 0]);
    assert_eq!(class_header_sizes(&[]), Vec::<u64>::new());
    assert_eq!(class_header_sizes(&[row(0, 0, Some(ClassElement::Root))]), vec![0]);
}

#[test]
fn menu_clicks_give_actions() {
    let elems = rows();
    let one: Vec<usize> = vec![1];
    let many: Vec<usize> = vec![1, 2];
    let act = |b: MenuButton, i: Option<usize>, sel: &Vec<usize>| format!("{:?}", context_menu_action(b, i, sel, &elems));
    assert_eq!(act(MenuButton::DeleteElement, None, &one), "None");
    assert_eq!(act(MenuButton::AddElementAfter, Some(1), &many), "Some(AddElementAfter(1))");
    assert_eq!(act(MenuButton::DeleteElement, Some(1), &one), "Some(DeleteElement(1))");
    assert_eq!(act(MenuButton::DeleteElement, Some(1), &many), "Some(DeleteMultipleElements([1, 2]))");
    assert_eq!(act(MenuButton::ChangeType, Some(2), &many), "Some(ChangeMultipleTypes([1, 2]))");
    assert_eq!(act(MenuButton::ChangeType, Some(2), &one), "Some(ChangeType(2))");
    assert_eq!(act(MenuButton::CopyAddress, Some(2), &many), "None");
    assert_eq!(act(MenuButton::CopyAddress, Some(2), &one), "Some(CopyAddress(2))");
    // row 2 holds no data
    assert_eq!(act(MenuButton::CopyData, Some(2), &one), "None");
    assert_eq!(act(MenuButton::SetAsPointer, Some(2), &one), "Some(SetAsPointer(2))");
    assert_eq!(act(MenuButton::FollowPointer, Some(2), &many), "None");
    assert_eq!(act(MenuButton::NewClass, Some(3), &one), "Some(NewClass(8192, \"Class_7\"))");
    assert_eq!(act(MenuButton::NewClass, Some(30), &one), "None");
    let mut with_data = rows();
    with_data[2].data = Some(vec![1, 2, 3, 4]);
    match context_menu_action(MenuButton::CopyData, Some(2), &one, &with_data) {
        Some(ContextMenuAction::CopyData(2)) => {}
        other => panic!("unexpected {:?}", other),
    }
}

#[test]
fn signatures_resolve_step_by_step() {
    let mods = ModuleList {
        modules: vec![ModuleInfo { name: Some("Game.dll".to_string()), base_address: 0x1000, module_size: 8 }],
    };
    let pattern = [Some(0xAAu8), None, Some(0xCC)];
    let bytes: Vec<u8> = vec![0, 0xAA, 0x11, 0xCC, 0, 0, 0, 0];
    assert_eq!(
        resolve_signature_step(&mods, "other.dll", &pattern, 0, false, 0, None, None),
        SignatureStep::MissingModule
    );
    assert_eq!(
        resolve_signature_step(&mods, "game.dll", &pattern, 3, false, 0, None, None),
        SignatureStep::ReadModule(0x1000, 8)
    );
    assert_eq!(
        resolve_signature_step(&mods, "game.dll", &pattern, 3, false, 0, Some(&bytes), None),
        SignatureStep::ReadValue(0x1004)
    );
    assert_eq!(
        resolve_signature_step(&mods, "game.dll", &pattern, 3, false, 0, Some(&bytes), Some(0x20)),
        SignatureStep::Resolved(0x20)
    );
    assert_eq!(
        resolve_signature_step(&mods, "game.dll", &pattern, 3, true, 7, Some(&bytes), Some(0x20)),
        SignatureStep::Resolved(0x1001 + 0x20 + 7)
    );
    assert_eq!(
        resolve_signature_step(&mods, "game.dll", &[Some(0xEEu8)], 0, false, 0, Some(&bytes), None),
        SignatureStep::PatternNotFound
    );
}

#[test]
fn address_expressions_allow_spaces_between_parts() {
    let mods = vec![ModuleInfo { name: Some("Game.dll".to_string()), base_address: 0x40_0000, module_size: 0x1000 }];
    assert_eq!(eval_address_expr("  <game.dll> ", &mods, &[]), AddressEval::Value(0x40_0000));
    assert_eq!(eval_address_expr(" <game.dll>  +  0x10 ", &mods, &[]), AddressEval::Value(0x40_0010));
    assert_eq!(eval_address_expr("<nothing.dll> + 0x10", &mods, &[]), AddressEval::Invalid);
    assert_eq!(eval_address_expr(" $  Player_1 ", &mods, &[Some(5)]), AddressEval::Value(5));
    assert_eq!(eval_address_expr(" $ Player_1", &mods, &[]), AddressEval::NeedsSignature("Player_1".to_string()));
}

#[test]
fn ids_created_after_a_reseed_are_all_new() {
    let mut ids = IdCounters::new();
    let mut reg = ClassDefinitionRegistry::new();
    let mut a = ClassDefinition::new(&mut ids, "A".to_string());
    a.add_hex_field(&mut ids, FieldType::Hex64);
    reg.register(a);
    let mut enums = EnumDefinitionRegistry::new();
    enums.register(EnumDefinition::new(&mut ids, "E".to_string()));
    let mut fresh = IdCounters::new();
    reg.reseed_id_counters(&mut fresh);
    enums.reseed_id_counters(&mut fresh);
    for _ in 0..5 {
        let mut c = ClassDefinition::new(&mut fresh, "N".to_string());
        c.add_hex_field(&mut fresh, FieldType::Hex8);
        assert!(!reg.contains(c.id));
        let e = EnumDefinition::new(&mut fresh, "M".to_string());
        assert!(!enums.contains(e.id));
        assert!(e.id > 1);
    }
}
