use squeek_layout::action::{create_action, Action, KeySym, KeysymSet};
use squeek_layout::document::{Action as Declared, ButtonMeta, Layout, Bounds};
use squeek_layout::table::Table;
use squeek_layout::util::{CollectWarnings, Sink, WarningHandler};

struct PanicWarn;

impl WarningHandler for PanicWarn {
    fn handle(&mut self, warning: &str) {
        panic!("{}", warning);
    }
}

fn keysyms(names: &[&str]) -> KeysymSet {
    let mut set = KeysymSet::new();
    for name in names {
        set.insert((*name).into());
    }
    set
}

fn meta() -> ButtonMeta {
    ButtonMeta::default()
}

fn one_button(name: &str, meta: ButtonMeta) -> Table<ButtonMeta> {
    let mut buttons = Table::new();
    buttons.insert(name.into(), meta);
    buttons
}

fn resolve_with_warnings(
    buttons: &Table<ButtonMeta>,
    name: &str,
    views: &[String],
    known: &KeysymSet,
) -> (Action, Vec<String>) {
    let mut sink = Sink::new(CollectWarnings::new());
    let action = create_action(buttons, name, views.iter().collect(), known, &mut sink);
    (action, sink.into_inner().messages)
}

#[test]
fn test_key_unicode() {
    let mut buttons = Table::new();
    buttons.insert(
        ".".into(),
        ButtonMeta {
            icon: None,
            keysym: None,
            text: None,
            action: None,
            label: Some("test".into()),
            outline: None,
        },
    );
    assert_eq!(
        create_action(
            &buttons,
            ".",
            Vec::new(),
            &keysyms(&["space", "a", "period"]),
            &mut Sink::new(PanicWarn),
        ),
        Action::Submit {
            text: Some(".".into()),
            keys: vec!(KeySym("U002E".into())),
        },
    );
}

#[test]
fn button_without_entry_submits_its_id() {
    let buttons: Table<ButtonMeta> = Table::new();
    let action = create_action(
        &buttons,
        "aå",
        Vec::new(),
        &keysyms(&["a"]),
        &mut Sink::new(PanicWarn),
    );
    assert_eq!(
        action,
        Action::Submit {
            text: Some("aå".into()),
            keys: vec![KeySym("a".into()), KeySym("U00E5".into())],
        }
    );
}

#[test]
fn explicit_text_is_submitted() {
    let buttons = one_button("key", ButtonMeta { text: Some("€".into()), ..meta() });
    let action =
        create_action(&buttons, "key", Vec::new(), &KeysymSet::new(), &mut Sink::new(PanicWarn));
    assert_eq!(
        action,
        Action::Submit { text: Some("€".into()), keys: vec![KeySym("U20AC".into())] }
    );
}

#[test]
fn keysym_and_text_conflict() {
    let buttons = one_button(
        "key",
        ButtonMeta { keysym: Some("a".into()), text: Some("b".into()), ..meta() },
    );
    let (action, warnings) = resolve_with_warnings(&buttons, "key", &[], &keysyms(&["a", "b"]));
    assert_eq!(action, Action::Submit { text: Some("".into()), keys: vec![] });
    assert_eq!(
        warnings,
        vec!["Button key has more than one of (action, keysym, text)".to_string()]
    );
}

#[test]
fn action_and_text_conflict() {
    let buttons = one_button(
        "key",
        ButtonMeta { action: Some(Declared::ShowPrefs), text: Some("b".into()), ..meta() },
    );
    let (action, warnings) = resolve_with_warnings(&buttons, "key", &[], &KeysymSet::new());
    assert_eq!(action, Action::Submit { text: Some("".into()), keys: vec![] });
    assert_eq!(warnings.len(), 1);
}

#[test]
fn set_view_to_existing_view() {
    let buttons = one_button(
        "up",
        ButtonMeta { action: Some(Declared::SetView("upper".into())), ..meta() },
    );
    let views = vec!["base".to_string(), "upper".to_string()];
    let (action, warnings) = resolve_with_warnings(&buttons, "up", &views, &KeysymSet::new());
    assert_eq!(action, Action::SetLevel("upper".into()));
    assert!(warnings.is_empty());
}

#[test]
fn set_view_to_missing_view() {
    let buttons = one_button(
        "up",
        ButtonMeta { action: Some(Declared::SetView("upper".into())), ..meta() },
    );
    let views = vec!["lower".to_string()];
    let (action, warnings) = resolve_with_warnings(&buttons, "up", &views, &KeysymSet::new());
    assert_eq!(action, Action::SetLevel("base".into()));
    assert_eq!(warnings, vec!["Button up switches to missing view upper".to_string()]);
}

#[test]
fn locking_checks_each_side() {
    let buttons = one_button(
        "shift",
        ButtonMeta {
            action: Some(Declared::Locking {
                lock_view: "upper".into(),
                unlock_view: "nowhere".into(),
            }),
            ..meta()
        },
    );
    let views = vec!["base".to_string(), "upper".to_string()];
    let (action, warnings) = resolve_with_warnings(&buttons, "shift", &views, &KeysymSet::new());
    assert_eq!(action, Action::LockLevel { lock: "upper".into(), unlock: "base".into() });
    assert_eq!(warnings, vec!["Button shift switches to missing view nowhere".to_string()]);
}

#[test]
fn locking_with_both_sides_missing() {
    let buttons = one_button(
        "shift",
        ButtonMeta {
            action: Some(Declared::Locking { lock_view: "a".into(), unlock_view: "b".into() }),
            ..meta()
        },
    );
    let (action, warnings) = resolve_with_warnings(&buttons, "shift", &[], &KeysymSet::new());
    assert_eq!(action, Action::LockLevel { lock: "base".into(), unlock: "base".into() });
    assert_eq!(
        warnings,
        vec![
            "Button shift switches to missing view a".to_string(),
            "Button shift switches to missing view b".to_string(),
        ]
    );
}

#[test]
fn show_prefs() {
    let buttons =
        one_button("prefs", ButtonMeta { action: Some(Declared::ShowPrefs), ..meta() });
    let (action, warnings) = resolve_with_warnings(&buttons, "prefs", &[], &KeysymSet::new());
    assert_eq!(action, Action::ShowPreferences);
    assert!(warnings.is_empty());
}

#[test]
fn valid_keysym_is_kept() {
    let buttons = one_button("bs", ButtonMeta { keysym: Some("BackSpace".into()), ..meta() });
    let (action, warnings) =
        resolve_with_warnings(&buttons, "bs", &[], &keysyms(&["BackSpace"]));
    assert_eq!(action, Action::Submit { text: None, keys: vec![KeySym("BackSpace".into())] });
    assert!(warnings.is_empty());
}

#[test]
fn invalid_keysym_becomes_space() {
    let buttons = one_button("bs", ButtonMeta { keysym: Some("Bogus".into()), ..meta() });
    let (action, warnings) =
        resolve_with_warnings(&buttons, "bs", &[], &keysyms(&["BackSpace"]));
    assert_eq!(action, Action::Submit { text: None, keys: vec![KeySym("space".into())] });
    assert_eq!(warnings, vec!["Keysym name invalid: Bogus".to_string()]);
}

#[test]
fn text_with_nul_is_dropped_but_keys_are_made() {
    let buttons = one_button("key", ButtonMeta { text: Some("a\0".into()), ..meta() });
    let (action, warnings) = resolve_with_warnings(&buttons, "key", &[], &keysyms(&["a"]));
    assert_eq!(
        action,
        Action::Submit { text: None, keys: vec![KeySym("a".into()), KeySym("U0000".into())] }
    );
    assert_eq!(
        warnings,
        vec!["Text a\0 contains problems: NulError(1, [97, 0])".to_string()]
    );
}

fn small_layout() -> Layout {
    let mut views = Table::new();
    views.insert("base".into(), vec!["a b  shift".to_string(), "b .".to_string()]);
    views.insert("upper".into(), vec!["A shift".to_string()]);
    let mut buttons = Table::new();
    buttons.insert(
        "shift".into(),
        ButtonMeta {
            action: Some(Declared::Locking {
                lock_view: "upper".into(),
                unlock_view: "base".into(),
            }),
            ..meta()
        },
    );
    buttons.insert("b".into(), ButtonMeta { keysym: Some("b".into()), ..meta() });
    Layout {
        bounds: Bounds { x: 0, y: 0, width: 0, height: 0 },
        views,
        buttons,
        outlines: Table::new(),
    }
}

#[test]
fn button_names_are_unique_in_first_occurrence_order() {
    let layout = small_layout();
    assert_eq!(layout.button_ids(), vec!["a", "b", "shift", "b", ".", "A", "shift"]);
    assert_eq!(layout.button_names(), vec!["a", "b", "shift", ".", "A"]);
}

#[test]
fn keysym_candidates_of_a_layout() {
    let layout = small_layout();
    assert_eq!(layout.keysym_candidates(), vec!["a", "b", ".", "A"]);
}

#[test]
fn resolve_actions_resolves_each_id_once() {
    let layout = small_layout();
    let mut sink = Sink::new(PanicWarn);
    let actions = layout.resolve_actions(&keysyms(&["a", "b", "A"]), &mut sink);
    assert_eq!(actions.len(), 5);
    assert_eq!(
        actions.get("a"),
        Some(&Action::Submit { text: Some("a".into()), keys: vec![KeySym("a".into())] })
    );
    assert_eq!(
        actions.get("b"),
        Some(&Action::Submit { text: None, keys: vec![KeySym("b".into())] })
    );
    assert_eq!(
        actions.get("shift"),
        Some(&Action::LockLevel { lock: "upper".into(), unlock: "base".into() })
    );
    assert_eq!(
        actions.get("."),
        Some(&Action::Submit { text: Some(".".into()), keys: vec![KeySym("U002E".into())] })
    );
    assert_eq!(actions.key(4), "A");
}

#[test]
fn candidates_decide_the_actions() {
    let layout = small_layout();
    let narrow = keysyms(&["a", "b"]);
    let wide = keysyms(&["a", "b", "unrelated", "space"]);
    let first = layout.resolve_actions(&narrow, &mut Sink::new(PanicWarn));
    let second = layout.resolve_actions(&wide, &mut Sink::new(PanicWarn));
    assert_eq!(first, second);
}

/// A keysym table for the tests: it knows the letters and a few names.
fn keysym_from_name(name: &str) -> u32 {
    assert!(!name.contains('\0'), "the table takes no NUL");
    match name {
        "space" => 0x20,
        "BackSpace" => 0xff08,
        _ => {
            let mut chars = name.chars();
            match (chars.next(), chars.next()) {
                (Some(c), None) if c.is_ascii_alphabetic() => c as u32,
                _ => 0,
            }
        },
    }
}

#[test]
fn keysyms_are_looked_up() {
    let candidates: Vec<String> =
        ["a", ".", "BackSpace", "a\0", "\0", "Bogus", "a", "Z"].iter().map(|s| s.to_string()).collect();
    let known = KeysymSet::from_lookup(&candidates, keysym_from_name);
    for name in ["a", "BackSpace", "Z"] {
        assert!(known.contains(name), "{} resolves", name);
    }
    for name in [".", "a\0", "\0", "Bogus", "space", "b"] {
        assert!(!known.contains(name), "{:?} does not resolve", name);
    }
}

#[test]
fn recorded_answers() {
    let mut known = KeysymSet::new();
    known.record("a".into(), 0x61);
    known.record("Bogus".into(), 0);
    assert!(known.contains("a"));
    assert!(!known.contains("Bogus"));
}

#[test]
fn the_keysyms_of_a_layout_are_looked_up() {
    let layout = small_layout();
    let known = layout.known_keysyms(keysym_from_name);
    // The candidates are a, b, "." and A.
    assert!(known.contains("a"));
    assert!(known.contains("b"));
    assert!(known.contains("A"));
    assert!(!known.contains("."));
    assert!(!known.contains("space"));
    let actions = layout.resolve_actions(&known, &mut Sink::new(PanicWarn));
    assert_eq!(
        actions.get("."),
        Some(&Action::Submit { text: Some(".".into()), keys: vec![KeySym("U002E".into())] })
    );
    assert_eq!(
        actions.get("A"),
        Some(&Action::Submit { text: Some("A".into()), keys: vec![KeySym("A".into())] })
    );
}

#[test]
fn a_collector_holds_what_was_reported() {
    let mut sink = Sink::new(CollectWarnings::new());
    sink.warn("first");
    sink.warn("second");
    assert_eq!(sink.into_inner().messages, vec!["first", "second"]);
}
