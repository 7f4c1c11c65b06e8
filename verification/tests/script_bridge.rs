use editcfg::keybinds::{Key, Keybind, Modifier};

#[test]
fn key_wraps_its_string() {
    let key = Key::new(String::from("k"));
    assert_eq!(key.0, String::from("k"));
}

#[test]
fn keys_are_equal_exactly_when_their_strings_are() {
    assert_eq!(Key::new(String::from("k")), Key::new(String::from("k")));
    assert_ne!(Key::new(String::from("k")), Key::new(String::from("K")));
    assert_eq!(Modifier::Ctrl.sentinel_key(), Key::new(String::from("Ctrl")));
}

#[test]
fn sentinels_resolve_to_their_modifier() {
    assert_eq!(
        Key::new(String::from("Super")).as_modifier(),
        Some(Modifier::Super)
    );
    assert_eq!(
        Key::new(String::from("Ctrl")).as_modifier(),
        Some(Modifier::Ctrl)
    );
    assert_eq!(
        Key::new(String::from("Alt")).as_modifier(),
        Some(Modifier::Alt)
    );
    assert_eq!(
        Key::new(String::from("Shift")).as_modifier(),
        Some(Modifier::Shift)
    );
}

#[test]
fn sentinel_key_matches_its_name() {
    assert_eq!(Modifier::Ctrl.sentinel_key().0, String::from("Ctrl"));
    assert_eq!(
        Modifier::Super.sentinel_key().as_modifier(),
        Some(Modifier::Super)
    );
}

#[test]
fn unrelated_key_is_not_a_modifier() {
    assert_eq!(Key::new(String::from("Banana")).as_modifier(), None);
    assert_eq!(Key::new(String::from("ctrl")).as_modifier(), None);
    assert_eq!(Key::new(String::new()).as_modifier(), None);
}

#[test]
fn keybind_drops_elements_that_are_no_keys() {
    let trigger = Key::new(String::from("k"));
    let list: rhai::Array = vec![
        rhai::Dynamic::from(Modifier::Ctrl.sentinel_key()),
        rhai::Dynamic::from(42i64),
        rhai::Dynamic::from("BadMod"),
    ];
    let bind = Keybind::new(trigger, list);
    assert_eq!(bind.key.0, String::from("k"));
    assert_eq!(bind.modifiers.len(), 1);
    assert_eq!(bind.modifiers[0].0, String::from("Ctrl"));
    assert_eq!(bind.resolved_modifiers(), vec![Modifier::Ctrl]);
}

#[test]
fn keybind_keeps_cast_keys_in_order() {
    let trigger = Key::new(String::from("s"));
    let list: rhai::Array = vec![
        rhai::Dynamic::from(Modifier::Ctrl.sentinel_key()),
        rhai::Dynamic::from(Modifier::Shift.sentinel_key()),
    ];
    let bind = Keybind::new(trigger, list);
    assert_eq!(bind.modifiers.len(), 2);
    assert_eq!(bind.modifiers[0].0, String::from("Ctrl"));
    assert_eq!(bind.modifiers[1].0, String::from("Shift"));
    assert_eq!(
        bind.resolved_modifiers(),
        vec![Modifier::Ctrl, Modifier::Shift]
    );
}

#[test]
fn unresolved_modifier_keys_are_dropped_from_the_set() {
    let trigger = Key::new(String::from("k"));
    let list: rhai::Array = vec![
        rhai::Dynamic::from(Key::new(String::from("NotAModifier"))),
        rhai::Dynamic::from(Modifier::Alt.sentinel_key()),
    ];
    let bind = Keybind::new(trigger, list);
    // both are keys, so both are kept in the binding ...
    assert_eq!(bind.modifiers.len(), 2);
    // ... but only the sentinel resolves to a modifier
    assert_eq!(bind.resolved_modifiers(), vec![Modifier::Alt]);
}

#[test]
fn empty_modifier_list_gives_empty_set() {
    let bind = Keybind::new(Key::new(String::from("q")), rhai::Array::new());
    assert!(bind.modifiers.is_empty());
    assert!(bind.resolved_modifiers().is_empty());
}
