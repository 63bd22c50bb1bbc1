use whkd::mode::{filter_matches, ModeManager};
use whkd::normalize::{key_code_from_string, modifier_from_string, HkmData, ModKeys, NormalizeError};
use whkd::parser::parser;

fn window_manager() -> ModeManager {
    let src = ".shell pwsh\nalt + h ; window\nwindow > escape ; default\nwindow > m : echo \"Hello\"\nwindow > c : echo \"Test\" ; default";
    let w = parser(src).unwrap();
    ModeManager::new(&w.bindings).unwrap()
}

fn handles_of(m: &ModeManager, mode: &Option<String>) -> Vec<usize> {
    (0..m.descriptors.len()).filter(|h| m.descriptors[*h].mode == *mode).collect()
}

#[test]
fn test_mode_graph() {
    let m = window_manager();
    assert_eq!(m.descriptors.len(), 4);
    let modes: Vec<Option<String>> = m.descriptors.iter().map(|d| d.mode.clone()).collect();
    assert_eq!(
        modes,
        vec![
            None,
            Some(String::from("window")),
            Some(String::from("window")),
            Some(String::from("window")),
        ]
    );
    let actions: Vec<Option<Option<String>>> =
        m.descriptors.iter().map(|d| d.internal_action.clone()).collect();
    assert_eq!(
        actions,
        vec![Some(Some(String::from("window"))), Some(None), None, Some(None)]
    );
}

#[test]
fn test_new_starts_unregistered_in_default_mode() {
    let m = window_manager();
    assert_eq!(m.mode, None);
    assert_eq!(m.registered, Vec::<usize>::new());
}

#[test]
fn test_activate_registers_current_mode_handles() {
    let mut m = window_manager();
    let acts = m.activate_mode(&None);
    assert_eq!(acts.register, vec![0]);
    assert_eq!(m.registered, vec![0]);
    let acts = m.activate_mode(&Some(String::from("window")));
    assert_eq!(acts.unregister, vec![0]);
    assert_eq!(acts.register, vec![1, 2, 3]);
    assert_eq!(m.registered, vec![1, 2, 3]);
}

#[test]
fn test_activate_default_is_idempotent() {
    let mut m = window_manager();
    m.activate_mode(&None);
    let before = m.registered.clone();
    let acts = m.activate_mode(&None);
    // unregister-then-register of the same set yields the same set
    assert_eq!(acts.unregister, acts.register);
    assert_eq!(m.registered, before);
    assert_eq!(m.mode, None);
}

#[test]
fn test_registration_invariant_across_transitions() {
    let mut m = window_manager();
    let script: Vec<Option<String>> = vec![
        None,
        Some(String::from("window")),
        Some(String::from("window")),
        None,
        Some(String::from("ghost")),
        Some(String::from("window")),
    ];
    for target in script {
        m.activate_mode(&target);
        assert_eq!(m.mode, target);
        assert_eq!(m.registered, handles_of(&m, &target));
    }
}

#[test]
fn test_unknown_mode_activation_registers_nothing() {
    let mut m = window_manager();
    m.activate_mode(&None);
    let acts = m.activate_mode(&Some(String::from("ghost")));
    assert_eq!(acts.register, Vec::<usize>::new());
    assert_eq!(m.registered, Vec::<usize>::new());
    assert_eq!(m.mode, Some(String::from("ghost")));
}

#[test]
fn test_duplicate_combo_last_write_wins() {
    let w = parser("alt + h : one\nalt + h : two").unwrap();
    let m = ModeManager::new(&w.bindings).unwrap();
    assert_eq!(m.descriptors.len(), 1);
    assert_eq!(m.descriptors[0].command, Some(String::from("two")));
}

#[test]
fn test_same_combo_in_other_mode_is_distinct() {
    let w = parser("alt + h : one\nwindow > alt + h : two").unwrap();
    let m = ModeManager::new(&w.bindings).unwrap();
    assert_eq!(m.descriptors.len(), 2);
}

#[test]
fn test_unknown_trigger_key_aborts_build() {
    let w = parser("alt + notakey : echo x").unwrap();
    let e = ModeManager::new(&w.bindings).unwrap_err();
    assert_eq!(e, NormalizeError::UnknownKey(String::from("notakey")));
}

#[test]
fn test_try_from_splits_modifiers_and_trigger() {
    let w = parser("ctrl + super + h : echo x").unwrap();
    let d = HkmData::try_from(&w.bindings[0]).unwrap();
    assert_eq!(
        d.mod_keys,
        Some(ModKeys { ctrl: true, alt: false, shift: false, super_key: true })
    );
    assert_eq!(d.vkey.name, String::from("KeyH"));
    assert_eq!(d.command, Some(String::from("echo x")));
}

#[test]
fn test_try_from_no_modifiers() {
    let w = parser("escape ; default").unwrap();
    let d = HkmData::try_from(&w.bindings[0]).unwrap();
    assert_eq!(d.mod_keys, None);
    assert_eq!(d.vkey.name, String::from("Escape"));
    assert_eq!(d.internal_action, Some(None));
}

#[test]
fn test_unrecognized_modifier_is_ignored() {
    let w = parser("foo + h : echo x").unwrap();
    let d = HkmData::try_from(&w.bindings[0]).unwrap();
    assert_eq!(d.mod_keys, None);
    assert_eq!(d.vkey.name, String::from("KeyH"));
}

#[test]
fn test_modifier_table() {
    assert_eq!(
        modifier_from_string("ctrl"),
        ModKeys { ctrl: true, alt: false, shift: false, super_key: false }
    );
    assert_eq!(
        modifier_from_string("alt"),
        ModKeys { ctrl: false, alt: true, shift: false, super_key: false }
    );
    assert_eq!(
        modifier_from_string("shift"),
        ModKeys { ctrl: false, alt: false, shift: true, super_key: false }
    );
    assert_eq!(
        modifier_from_string("super"),
        ModKeys { ctrl: false, alt: false, shift: false, super_key: true }
    );
    assert_eq!(
        modifier_from_string("hyper"),
        ModKeys { ctrl: false, alt: false, shift: false, super_key: false }
    );
}

#[test]
fn test_key_code_table() {
    assert_eq!(key_code_from_string("a").unwrap().name, String::from("KeyA"));
    assert_eq!(key_code_from_string("Z").unwrap().name, String::from("KeyZ"));
    assert_eq!(key_code_from_string("ESCAPE").unwrap().name, String::from("Escape"));
    assert_eq!(key_code_from_string("1").unwrap().name, String::from("Digit1"));
    // a platform key-code name passes through
    assert_eq!(key_code_from_string("F11").unwrap().name, String::from("F11"));
    // anything else names no key
    assert!(key_code_from_string("notakey").is_none());
    assert!(key_code_from_string("").is_none());
}

#[test]
fn test_resolve_event() {
    let m = window_manager();
    let d = m.resolve_event(2).unwrap();
    assert_eq!(d.command, Some(String::from("echo \"Hello\"")));
    assert!(m.resolve_event(99).is_none());
}

#[test]
fn test_filter_matches() {
    assert!(filter_matches(&None, &None));
    assert!(filter_matches(&None, &Some(String::from("Firefox"))));
    assert!(filter_matches(
        &Some(String::from("Firefox")),
        &Some(String::from("Firefox"))
    ));
    assert!(!filter_matches(
        &Some(String::from("Firefox")),
        &Some(String::from("Chrome"))
    ));
    assert!(!filter_matches(&Some(String::from("Firefox")), &None));
}
