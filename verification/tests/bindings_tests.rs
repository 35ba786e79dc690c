use my_penrose::bindings::{
    Action, Binding, BindingError, BindingTable, KeyBindingRegistry, Transition,
};
use my_penrose::chord::parse_chord;
use my_penrose::keys::{KeyCode, KeyMap};

fn keyboard() -> KeyMap {
    let mut codes = KeyMap::new();
    codes.insert("space", 65);
    codes.insert("Return", 36);
    codes.insert("j", 44);
    codes.insert("k", 45);
    codes.insert("e", 26);
    codes.insert("Delete", 119);
    codes.insert("XF86AudioRaiseVolume", 123);
    codes
}

fn launch(command: &str) -> Action {
    Action::Spawn(command.to_string())
}

#[test]
fn key_map_knows_what_was_inserted() {
    let codes = keyboard();
    assert_eq!(codes.get("space"), Some(65));
    assert_eq!(codes.get("XF86AudioRaiseVolume"), Some(123));
    assert_eq!(codes.get("Space"), None);
    assert_eq!(codes.get(""), None);
    assert_eq!(KeyMap::new().get("space"), None);
}

#[test]
fn key_map_insert_replaces_the_code() {
    let mut codes = keyboard();
    codes.insert("space", 66);
    assert_eq!(codes.get("space"), Some(66));
    assert_eq!(codes.get("Return"), Some(36));
}

#[test]
fn chord_without_modifiers() {
    let chord = parse_chord("XF86AudioRaiseVolume").unwrap();
    assert_eq!(chord.mask, 0);
    assert_eq!(chord.key, "XF86AudioRaiseVolume");
}

fn mask(descriptor: &str) -> u16 {
    parse_chord(descriptor).unwrap().mask
}

fn key(descriptor: &str) -> String {
    parse_chord(descriptor).unwrap().key
}

#[test]
fn chord_masks_follow_the_modifier_bits() {
    assert_eq!(mask("S-j"), 1);
    assert_eq!(mask("C-j"), 4);
    assert_eq!(mask("A-j"), 8);
    assert_eq!(mask("M-j"), 64);
    assert_eq!(mask("M-S-j"), 65);
    assert_eq!(mask("S-M-j"), 65);
    assert_eq!(mask("C-A-Delete"), 12);
    assert_eq!(mask("C-A-S-M-j"), 77);
    assert_eq!(mask("M-M-j"), 64);
}

#[test]
fn chord_key_is_the_last_field() {
    assert_eq!(key("M-S-j"), "j");
    assert_eq!(key("M-Return"), "Return");
    assert_eq!(key("M-"), "");
    assert_eq!(key(""), "");
    assert_eq!(key("S"), "S");
    assert_eq!(mask("S"), 0);
}

#[test]
fn tokens_that_name_no_modifier_leave_no_chord() {
    assert_eq!(parse_chord("Q-j"), None);
    assert_eq!(parse_chord("m-j"), None);
    assert_eq!(parse_chord("MS-j"), None);
    assert_eq!(parse_chord("M--j"), None);
    assert_eq!(parse_chord("-j"), None);
    assert_eq!(parse_chord("Ctrl-S-j"), None);
    assert_eq!(parse_chord("M-Q-j"), None);
    assert_eq!(parse_chord("Q-M-j"), None);
}

#[test]
fn resolve_joins_mask_and_hardware_code() {
    let registry = KeyBindingRegistry::new(keyboard());
    assert_eq!(registry.resolve("M-space"), Some(KeyCode { mask: 64, code: 65 }));
    assert_eq!(registry.resolve("M-S-j"), Some(KeyCode { mask: 65, code: 44 }));
    assert_eq!(registry.resolve("XF86AudioRaiseVolume"), Some(KeyCode { mask: 0, code: 123 }));
    assert_eq!(registry.resolve("M-nokey"), None);
    assert_eq!(registry.resolve("M-"), None);
    assert_eq!(registry.resolve(""), None);
}

#[test]
fn resolve_refuses_tokens_that_name_no_modifier() {
    let registry = KeyBindingRegistry::new(keyboard());
    assert_eq!(registry.resolve("space"), Some(KeyCode { mask: 0, code: 65 }));
    assert_eq!(registry.resolve("Q-space"), None);
    assert_eq!(registry.resolve("Ctrl-S-j"), None);
    assert_eq!(registry.resolve("M--j"), None);
    assert_eq!(registry.resolve("-j"), None);
}

#[test]
fn register_refuses_tokens_that_name_no_modifier() {
    let registry = KeyBindingRegistry::new(keyboard());
    let mut table = BindingTable::new();
    registry.register("M-space", launch("rofi"), &mut table).unwrap();
    assert_eq!(
        registry.register("Q-space", launch("alacritty"), &mut table),
        Err(BindingError::UnknownKey("Q-space".to_string()))
    );
    assert_eq!(
        registry.register("Ctrl-S-j", Action::Exit, &mut table),
        Err(BindingError::UnknownKey("Ctrl-S-j".to_string()))
    );
    assert_eq!(
        registry.register("M--j", Action::Exit, &mut table),
        Err(BindingError::UnknownKey("M--j".to_string()))
    );
    assert_eq!(table.len(), 1);
    assert!(!table.contains(KeyCode { mask: 0, code: 65 }));
    assert!(!table.contains(KeyCode { mask: 1, code: 44 }));
    assert!(!table.contains(KeyCode { mask: 64, code: 44 }));
    assert_eq!(table.get(KeyCode { mask: 64, code: 65 }), Some(&launch("rofi")));
}

#[test]
fn register_known_key_adds_one_entry() {
    let registry = KeyBindingRegistry::new(keyboard());
    let mut table = BindingTable::new();
    assert!(table.is_empty());
    assert_eq!(registry.register("M-space", launch("rofi -show run"), &mut table), Ok(()));
    assert_eq!(table.len(), 1);
    assert!(!table.is_empty());
    let code = KeyCode { mask: 64, code: 65 };
    assert!(table.contains(code));
    assert_eq!(table.get(code), Some(&launch("rofi -show run")));
}

#[test]
fn register_keeps_the_entries_made_before() {
    let registry = KeyBindingRegistry::new(keyboard());
    let mut table = BindingTable::new();
    registry.register("M-j", Action::Transition(Transition::FocusDown), &mut table).unwrap();
    registry.register("M-S-j", Action::Transition(Transition::SwapDown), &mut table).unwrap();
    registry.register("M-S-e", Action::Exit, &mut table).unwrap();
    assert_eq!(table.len(), 3);
    assert_eq!(
        table.get(KeyCode { mask: 64, code: 44 }),
        Some(&Action::Transition(Transition::FocusDown))
    );
    assert_eq!(
        table.get(KeyCode { mask: 65, code: 44 }),
        Some(&Action::Transition(Transition::SwapDown))
    );
    assert_eq!(table.get(KeyCode { mask: 65, code: 26 }), Some(&Action::Exit));
    assert_eq!(table.get(KeyCode { mask: 0, code: 44 }), None);
}

#[test]
fn register_unknown_key_fails_and_changes_nothing() {
    let registry = KeyBindingRegistry::new(keyboard());
    let mut table = BindingTable::new();
    registry.register("M-space", launch("rofi"), &mut table).unwrap();
    assert_eq!(
        registry.register("M-nokey", launch("alacritty"), &mut table),
        Err(BindingError::UnknownKey("M-nokey".to_string()))
    );
    assert_eq!(
        registry.register("", Action::Exit, &mut table),
        Err(BindingError::UnknownKey("".to_string()))
    );
    assert_eq!(table.len(), 1);
    assert_eq!(table.get(KeyCode { mask: 64, code: 65 }), Some(&launch("rofi")));
}

#[test]
fn register_same_code_twice_keeps_the_first_action() {
    let registry = KeyBindingRegistry::new(keyboard());
    let mut table = BindingTable::new();
    assert_eq!(registry.register("M-S-j", launch("first"), &mut table), Ok(()));
    assert_eq!(
        registry.register("S-M-j", launch("second"), &mut table),
        Err(BindingError::DuplicateBinding("S-M-j".to_string()))
    );
    assert_eq!(table.len(), 1);
    assert_eq!(table.get(KeyCode { mask: 65, code: 44 }), Some(&launch("first")));
}

#[test]
fn two_names_of_one_key_collide() {
    let mut codes = keyboard();
    codes.insert("KP_Enter", 36);
    let registry = KeyBindingRegistry::new(codes);
    let mut table = BindingTable::new();
    assert_eq!(registry.register("M-Return", launch("alacritty"), &mut table), Ok(()));
    assert_eq!(
        registry.register("M-KP_Enter", launch("xterm"), &mut table),
        Err(BindingError::DuplicateBinding("M-KP_Enter".to_string()))
    );
    assert_eq!(table.get(KeyCode { mask: 64, code: 36 }), Some(&launch("alacritty")));
}

#[test]
fn duplicate_descriptor_is_reported_once() {
    let registry = KeyBindingRegistry::new(keyboard());
    let mut table = BindingTable::new();
    let mut errors: Vec<BindingError> = Vec::new();
    let wanted = vec![
        ("M-space", launch("rofi -no-lazy-grab -show run")),
        ("M-Return", launch("alacritty")),
        ("M-space", launch("xsecurelock")),
    ];
    for (descriptor, action) in wanted {
        if let Err(e) = registry.register(descriptor, action, &mut table) {
            errors.push(e);
        }
    }
    assert_eq!(table.len(), 2);
    assert_eq!(errors, vec![BindingError::DuplicateBinding("M-space".to_string())]);
    assert_eq!(
        table.get(KeyCode { mask: 64, code: 65 }),
        Some(&launch("rofi -no-lazy-grab -show run"))
    );
    assert_eq!(table.get(KeyCode { mask: 64, code: 36 }), Some(&launch("alacritty")));
}

#[test]
fn table_insert_binds_only_free_codes() {
    let mut table = BindingTable::new();
    let code = KeyCode { mask: 0, code: 9 };
    assert!(table.insert(code, Action::Exit));
    assert!(!table.insert(code, launch("late")));
    assert_eq!(table.get(code), Some(&Action::Exit));
    assert_eq!(table.len(), 1);
}

#[test]
fn into_bindings_hands_out_every_entry() {
    let registry = KeyBindingRegistry::new(keyboard());
    let mut table = BindingTable::new();
    registry.register("M-k", Action::Transition(Transition::FocusUp), &mut table).unwrap();
    registry.register("M-e", Action::Exit, &mut table).unwrap();
    assert_eq!(
        table.into_bindings(),
        vec![
            Binding {
                code: KeyCode { mask: 64, code: 45 },
                action: Action::Transition(Transition::FocusUp),
            },
            Binding { code: KeyCode { mask: 64, code: 26 }, action: Action::Exit },
        ]
    );
}

#[test]
fn register_all_reports_every_descriptor_that_failed() {
    let registry = KeyBindingRegistry::new(keyboard());
    let mut table = BindingTable::new();
    let errors = registry.register_all(
        vec![
            ("M-space".to_string(), launch("rofi -no-lazy-grab -show run")),
            ("M-Return".to_string(), launch("alacritty")),
            ("M-space".to_string(), launch("xsecurelock")),
            ("M-F13".to_string(), Action::Exit),
            ("M-k".to_string(), Action::Transition(Transition::FocusUp)),
        ],
        &mut table,
    );
    assert_eq!(
        errors,
        vec![
            BindingError::DuplicateBinding("M-space".to_string()),
            BindingError::UnknownKey("M-F13".to_string()),
        ]
    );
    assert_eq!(table.len(), 3);
    assert_eq!(
        table.get(KeyCode { mask: 64, code: 65 }),
        Some(&launch("rofi -no-lazy-grab -show run"))
    );
    assert_eq!(
        table.get(KeyCode { mask: 64, code: 45 }),
        Some(&Action::Transition(Transition::FocusUp))
    );
}

#[test]
fn register_all_of_nothing_changes_nothing() {
    let registry = KeyBindingRegistry::new(keyboard());
    let mut table = BindingTable::new();
    registry.register("M-j", Action::Exit, &mut table).unwrap();
    assert!(registry.register_all(Vec::new(), &mut table).is_empty());
    assert_eq!(table.len(), 1);
}
