use shoji_wm::ordered_map::OrderedMap;
use shoji_wm::runtime_key_binding::{
    compile_runtime_key_bindings, known_keysym, parse_runtime_key_shortcut, shortcut_key_name, Modifiers,
    RuntimeKeyBindingEntry, RuntimeKeyBindingParseError, RuntimeKeyBindingPhase,
    RuntimeKeyShortcut,
};

const KEY_A: u32 = 0x61;

fn modifiers(ctrl: bool, alt: bool, shift: bool, logo: bool) -> Modifiers {
    Modifiers { ctrl, alt, shift, logo }
}

fn parsed(shortcut: &str) -> RuntimeKeyShortcut {
    match parse_runtime_key_shortcut(shortcut, Some(KEY_A)) {
        Ok(shortcut) => shortcut,
        Err(error) => panic!("{}", error.message()),
    }
}

fn refused(shortcut: &str, keysym: Option<u32>) -> RuntimeKeyBindingParseError {
    match parse_runtime_key_shortcut(shortcut, keysym) {
        Ok(_) => panic!("{} was accepted", shortcut),
        Err(error) => error,
    }
}

#[test]
fn reads_modifiers_and_key() {
    let shortcut = parsed("Ctrl+Shift+a");
    assert!(shortcut.ctrl);
    assert!(shortcut.shift);
    assert!(!shortcut.alt);
    assert!(!shortcut.logo);
    assert_eq!(shortcut.keysym, KEY_A);
}

#[test]
fn ignores_space_and_case_around_parts() {
    let shortcut = parsed("  CONTROL + aLt+ A ");
    assert!(shortcut.ctrl);
    assert!(shortcut.alt);
    assert_eq!(shortcut_key_name("  CONTROL + aLt+ A "), Some("a".to_string()));
    assert_eq!(shortcut_key_name("Ctrl+XF86AudioMute"), Some("XF86AudioMute".to_string()));
    assert_eq!(shortcut_key_name("Ctrl+Shift"), None);
}

#[test]
fn logo_has_several_names() {
    for name in ["Super", "logo", "Meta", "WIN", "mod4"] {
        let shortcut = parse_runtime_key_shortcut(&format!("{}+a", name), Some(KEY_A));
        assert!(matches!(shortcut, Ok(shortcut) if shortcut.logo), "{}", name);
    }
}

#[test]
fn empty_shortcut_is_refused() {
    for text in ["", "   ", "+", " + "] {
        let error = refused(text, Some(KEY_A));
        assert!(matches!(error, RuntimeKeyBindingParseError::EmptyShortcut), "{:?}", error);
        assert_eq!(error.message(), "shortcut must not be empty");
    }
}

#[test]
fn shortcut_without_key_is_refused() {
    let error = refused("Ctrl+Alt", Some(KEY_A));
    assert!(matches!(error, RuntimeKeyBindingParseError::MissingKey(_)));
    assert_eq!(
        error.message(),
        "shortcut `Ctrl+Alt` must include exactly one non-modifier key"
    );
}

#[test]
fn repeated_modifier_is_refused() {
    let error = refused("Ctrl+control+a", Some(KEY_A));
    assert_eq!(
        error.message(),
        "shortcut `Ctrl+control+a` contains duplicate modifier `control`"
    );
}

#[test]
fn second_key_is_refused() {
    let error = refused("Ctrl+a+b", Some(KEY_A));
    assert!(matches!(error, RuntimeKeyBindingParseError::MultipleKeys { .. }));
    assert_eq!(error.message(), "shortcut `Ctrl+a+b` contains multiple non-modifier keys");
}

#[test]
fn key_without_symbol_is_refused() {
    let error = refused("Ctrl+nonsense", None);
    assert!(matches!(error, RuntimeKeyBindingParseError::UnknownKey { .. }));
    assert_eq!(
        error.message(),
        "shortcut `Ctrl+nonsense` contains unknown key `nonsense`"
    );
}

#[test]
fn unknown_modifier_has_words() {
    let error = RuntimeKeyBindingParseError::UnknownModifier {
        shortcut: "Hyper+a".to_string(),
        modifier: "Hyper".to_string(),
    };
    assert_eq!(error.message(), "shortcut `Hyper+a` contains unknown modifier `Hyper`");
}

#[test]
fn shortcut_needs_exactly_its_modifiers() {
    let shortcut = parsed("Ctrl+a");
    assert!(shortcut.matches(&modifiers(true, false, false, false), Some(KEY_A)));
    assert!(!shortcut.matches(&modifiers(true, true, false, false), Some(KEY_A)));
    assert!(!shortcut.matches(&modifiers(false, false, false, false), Some(KEY_A)));
    assert!(!shortcut.matches(&modifiers(true, false, false, false), Some(KEY_A + 1)));
    assert!(!shortcut.matches(&modifiers(true, false, false, false), None));
}

fn entry(id: &str, shortcut: &str, on: RuntimeKeyBindingPhase) -> RuntimeKeyBindingEntry {
    RuntimeKeyBindingEntry { id: id.to_string(), shortcut: shortcut.to_string(), on }
}

#[test]
fn binding_answers_in_its_phase() {
    let binding = entry("open", "Logo+a", RuntimeKeyBindingPhase::Release);
    let compiled = match binding.compile(Some(KEY_A)) {
        Ok(compiled) => compiled,
        Err(error) => panic!("{}", error.message()),
    };
    assert_eq!(compiled.id, "open");
    let held = modifiers(false, false, false, true);
    assert!(compiled.matches(RuntimeKeyBindingPhase::Release, &held, Some(KEY_A)));
    assert!(!compiled.matches(RuntimeKeyBindingPhase::Press, &held, Some(KEY_A)));
}

#[test]
fn bad_bindings_are_left_out() {
    let mut entries = OrderedMap::new();
    for (key, shortcut) in [("d", "Alt+a"), ("c", "Alt+nonsense"), ("a", "Ctrl+a"), ("b", "")] {
        entries.insert(key.to_string(), entry(key, shortcut, RuntimeKeyBindingPhase::Press));
    }
    let compiled =
        compile_runtime_key_bindings(&entries, &vec![Some(KEY_A), None, None, Some(KEY_A)]);
    let ids: Vec<&str> = compiled.iter().map(|binding| binding.id.as_str()).collect();
    assert_eq!(ids, vec!["a", "d"]);
    // A key has one binding, the last that it was given.
    entries.insert("d".to_string(), entry("again", "Alt+a", RuntimeKeyBindingPhase::Release));
    assert_eq!(entries.len(), 4);
    let compiled =
        compile_runtime_key_bindings(&entries, &vec![Some(KEY_A), None, None, Some(KEY_A)]);
    let ids: Vec<&str> = compiled.iter().map(|binding| binding.id.as_str()).collect();
    assert_eq!(ids, vec!["a", "again"]);
}

#[test]
fn keys_of_a_map_are_ordered() {
    let mut ordered = std::collections::BTreeMap::new();
    let mut map = OrderedMap::new();
    let keys = ["b", "ab", "", "B", "\u{ffff}", "a", "\u{10000}", "b", "\u{e9}", "aa", "ab"];
    for (i, key) in keys.iter().enumerate() {
        ordered.insert(key.to_string(), i);
        map.insert(key.to_string(), i);
    }
    assert_eq!(map.len(), ordered.len());
    for (i, value) in ordered.values().enumerate() {
        assert_eq!(map.value(i), value);
    }
}

#[test]
fn number_zero_is_no_key() {
    assert_eq!(known_keysym(0), None);
    assert_eq!(known_keysym(KEY_A), Some(KEY_A));
    assert_eq!(known_keysym(u32::MAX), Some(u32::MAX));
}

#[test]
fn rewritten_shortcuts_read_alike() {
    let shortcut = parsed("Ctrl+Shift+a");
    for other in [
        "a+Shift+Ctrl",
        "Shift+a+Ctrl",
        " Ctrl +\tShift+ a ",
        "+Ctrl++Shift+ +a+",
        "CTRL+sHiFt+a",
        "control+Shift+A",
        " +A+ SHIFT+control",
    ] {
        assert_eq!(parsed(other), shortcut, "{}", other);
        assert_eq!(shortcut_key_name(other), shortcut_key_name("Ctrl+Shift+a"), "{}", other);
    }
    assert_ne!(parsed("Ctrl+a"), shortcut);
    assert_ne!(shortcut_key_name("Ctrl+f1"), shortcut_key_name("Ctrl+F1"));
}
