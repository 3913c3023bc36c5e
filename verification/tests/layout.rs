use squeek_layout::action::{Action, KeySym, KeysymSet};
use squeek_layout::document::{Action as Declared, Bounds, ButtonMeta, Layout, Outline, ONE, ZERO};
use squeek_layout::keymap::{bind_keycodes, collect_keysyms, FormattingError, MissingKeycode};
use squeek_layout::layout::{create_button, Button, KeyState, Label, LayoutData};
use squeek_layout::shared::{CellError, KeyTable};
use squeek_layout::table::Table;
use squeek_layout::util::{CollectWarnings, Sink, WarningHandler};

struct PanicWarn;

impl WarningHandler for PanicWarn {
    fn handle(&mut self, warning: &str) {
        panic!("{}", warning);
    }
}

fn bounds(x: f64, y: f64, width: f64, height: f64) -> Bounds {
    Bounds { x: x.to_bits(), y: y.to_bits(), width: width.to_bits(), height: height.to_bits() }
}

fn keysyms(names: &[&str]) -> KeysymSet {
    let mut set = KeysymSet::new();
    for name in names {
        set.insert((*name).into());
    }
    set
}

/// Allocates keycodes from 9 on, one for each distinct keysym.
fn generate_keycodes(names: Vec<String>) -> Table<u32> {
    let mut keymap = Table::new();
    let mut next = 9;
    for name in names {
        if !keymap.contains_key(&name) {
            keymap.insert(name, next);
            next += 1;
        }
    }
    keymap
}

fn generate_keymap(states: &Table<KeyState>) -> Result<String, FormattingError> {
    let mut text = String::from("xkb_keymap {");
    for i in 0..states.len() {
        text.push_str(&format!(" {}:{:?}", states.key(i), states.value(i).keycodes));
    }
    text.push_str(" }");
    Ok(text)
}

fn no_keymap(_states: &Table<KeyState>) -> Result<String, FormattingError> {
    Err(FormattingError { message: "no keymap".into() })
}

fn layout_with_one_button(meta: ButtonMeta) -> Layout {
    let mut views = Table::new();
    views.insert("base".into(), vec!["test".to_string()]);
    let mut buttons = Table::new();
    buttons.insert("test".into(), meta);
    let mut outlines = Table::new();
    outlines.insert("default".into(), Outline { bounds: bounds(0.0, 0.0, 0.0, 0.0) });
    Layout { bounds: bounds(0.0, 0.0, 0.0, 0.0), views, buttons, outlines }
}

/// A keysym table that knows the names of a list. It takes no name with a
/// NUL in it.
fn table(names: &[&'static str]) -> impl Fn(&str) -> u32 {
    let names: Vec<&'static str> = names.to_vec();
    move |name: &str| {
        assert!(!name.contains('\0'), "the keysym table was asked about {:?}", name);
        match names.iter().position(|known| *known == name) {
            Some(place) => 0x100 + place as u32,
            None => 0,
        }
    }
}

fn build(layout: Layout, names: &[&'static str]) -> LayoutData {
    layout.build(table(names), generate_keycodes, generate_keymap, Sink::new(PanicWarn)).0.unwrap()
}

fn first_button(data: &LayoutData) -> &Button {
    &data.views.get("base").unwrap().rows[0].buttons[0]
}

#[test]
fn test_layout_punctuation() {
    let out = build(
        layout_with_one_button(ButtonMeta {
            label: Some("test".into()),
            text: Some(".".into()),
            ..ButtonMeta::default()
        }),
        &["space"],
    );
    assert_eq!(first_button(&out).label, Label::Text("test".into()));
}

#[test]
fn test_layout_unicode() {
    let out = build(
        layout_with_one_button(ButtonMeta {
            label: Some("test".into()),
            text: Some("å".into()),
            ..ButtonMeta::default()
        }),
        &["space"],
    );
    assert_eq!(first_button(&out).label, Label::Text("test".into()));
}

/// Test multiple codepoints
#[test]
fn test_layout_unicode_multi() {
    let out = build(
        layout_with_one_button(ButtonMeta {
            label: Some("test".into()),
            text: Some("åŧ".into()),
            ..ButtonMeta::default()
        }),
        &["space"],
    );
    assert_eq!(out.states.get(&first_button(&out).state).unwrap().keycodes.len(), 2);
}

fn keyboard() -> Layout {
    let mut views = Table::new();
    views.insert("base".into(), vec!["a b shift".to_string(), "b . b".to_string()]);
    views.insert("upper".into(), vec!["A shift".to_string(), "".to_string()]);
    let mut buttons = Table::new();
    buttons.insert(
        "shift".into(),
        ButtonMeta {
            action: Some(Declared::Locking {
                lock_view: "upper".into(),
                unlock_view: "base".into(),
            }),
            icon: Some("key-shift".into()),
            outline: Some("wide".into()),
            ..ButtonMeta::default()
        },
    );
    buttons.insert(
        "b".into(),
        ButtonMeta { keysym: Some("b".into()), label: Some("B!".into()), ..ButtonMeta::default() },
    );
    buttons.insert(
        ".".into(),
        ButtonMeta { text: Some(".a".into()), ..ButtonMeta::default() },
    );
    let mut outlines = Table::new();
    outlines.insert("default".into(), Outline { bounds: bounds(0.0, 0.0, 10.0, 20.0) });
    outlines.insert("wide".into(), Outline { bounds: bounds(1.0, 2.0, 30.0, 20.0) });
    Layout { bounds: bounds(0.0, 0.0, 100.0, 50.5), views, buttons, outlines }
}

#[test]
fn build_keeps_views_rows_and_buttons_in_order() {
    let data = build(keyboard(), &["a", "b", "A"]);
    assert_eq!(data.views.len(), 2);
    assert_eq!(data.views.key(0), "base");
    assert_eq!(data.views.key(1), "upper");
    let base = data.views.get("base").unwrap();
    assert_eq!(base.bounds, bounds(0.0, 0.0, 100.0, 50.5));
    assert_eq!(base.rows.len(), 2);
    assert_eq!(base.rows[0].angle, 0);
    assert_eq!(base.rows[0].bounds, None);
    let names: Vec<&str> = base.rows[0].buttons.iter().map(|b| b.name.as_str()).collect();
    assert_eq!(names, vec!["a", "b", "shift"]);
    let names: Vec<&str> = base.rows[1].buttons.iter().map(|b| b.name.as_str()).collect();
    assert_eq!(names, vec!["b", ".", "b"]);
    let upper = data.views.get("upper").unwrap();
    assert_eq!(upper.rows.len(), 2);
    assert_eq!(upper.rows[0].buttons.len(), 2);
    assert!(upper.rows[1].buttons.is_empty());
}

#[test]
fn build_resolves_labels_and_outlines() {
    let data = build(keyboard(), &["a", "b", "A"]);
    let row = &data.views.get("base").unwrap().rows[0];
    assert_eq!(row.buttons[0].label, Label::Text("a".into()));
    assert_eq!(row.buttons[0].outline_name, "default");
    assert_eq!(row.buttons[0].bounds, bounds(0.0, 0.0, 10.0, 20.0));
    assert_eq!(row.buttons[1].label, Label::Text("B!".into()));
    assert_eq!(row.buttons[2].label, Label::IconName("key-shift".into()));
    assert_eq!(row.buttons[2].outline_name, "wide");
    assert_eq!(row.buttons[2].bounds, bounds(1.0, 2.0, 30.0, 20.0));
    let dot = &data.views.get("base").unwrap().rows[1].buttons[1];
    assert_eq!(dot.label, Label::Text(".a".into()));
}

#[test]
fn build_binds_keycodes() {
    let data = build(keyboard(), &["a", "b", "A"]);
    // Keysyms in the order of first use: a, b, U002E, a (again), A.
    let base = data.views.get("base").unwrap();
    let state_of = |button: &Button| data.states.get(&button.state).unwrap();
    let a = state_of(&base.rows[0].buttons[0]);
    assert_eq!(a.keycodes, vec![9]);
    assert_eq!(
        a.action,
        Action::Submit { text: Some("a".into()), keys: vec![KeySym("a".into())] }
    );
    assert!(!a.pressed);
    assert!(!a.locked);
    assert_eq!(state_of(&base.rows[0].buttons[1]).keycodes, vec![10]);
    let shift = state_of(&base.rows[0].buttons[2]);
    assert_eq!(shift.keycodes, Vec::<u32>::new());
    assert_eq!(shift.action, Action::LockLevel { lock: "upper".into(), unlock: "base".into() });
    assert_eq!(state_of(&base.rows[1].buttons[1]).keycodes, vec![11, 9]);
    let upper = data.views.get("upper").unwrap();
    assert_eq!(state_of(&upper.rows[0].buttons[0]).keycodes, vec![12]);
    assert_eq!(
        data.keymap_str,
        "xkb_keymap { a:[9] b:[10] shift:[] .:[11, 9] A:[12] }"
    );
}

#[test]
fn buttons_of_one_id_share_one_state() {
    let data = build(keyboard(), &["a", "b", "A"]);
    let base = data.views.get("base").unwrap();
    let upper = data.views.get("upper").unwrap();
    assert_eq!(base.rows[0].buttons[1].state, base.rows[1].buttons[0].state);
    assert_eq!(base.rows[0].buttons[1].state, base.rows[1].buttons[2].state);
    assert_eq!(base.rows[0].buttons[2].state, upper.rows[0].buttons[1].state);
    assert_ne!(base.rows[0].buttons[0].state, base.rows[0].buttons[1].state);
    // One holder for each button that shows the key.
    assert_eq!(data.states.len(), 5);
    assert_eq!(data.states.holders(&base.rows[0].buttons[0].state), 1);
    assert_eq!(data.states.holders(&base.rows[0].buttons[1].state), 3);
    assert_eq!(data.states.holders(&base.rows[0].buttons[2].state), 2);
}

#[test]
fn a_change_is_seen_through_every_button() {
    let mut data = build(keyboard(), &["a", "b", "A"]);
    let first = data.views.get("base").unwrap().rows[0].buttons[1].state.as_ptr().unwrap();
    let mut state = data.states.begin_write(&first).unwrap();
    state.pressed = true;
    data.states.end_write(&first, state).unwrap();
    let other = &data.views.get("base").unwrap().rows[1].buttons[2].state;
    assert!(data.states.get(other).unwrap().pressed);
}

#[test]
fn a_state_is_freed_with_its_last_button() {
    let data = build(keyboard(), &["a", "b", "A"]);
    let LayoutData { views, keymap_str: _, states: mut cells } = data;
    let mut freed: Vec<String> = Vec::new();
    for (_name, view) in views.into_entries() {
        for row in view.rows {
            for button in row.buttons {
                let token = button.state.as_ptr();
                let before = cells.holders(&button.state);
                match cells.release(button.state).unwrap() {
                    Some(_state) => {
                        assert_eq!(before, 1);
                        freed.push(button.name);
                    },
                    None => assert!(before > 1),
                }
                assert_eq!(cells.holders(&token.unwrap()), before - 1);
            }
        }
    }
    freed.sort();
    assert_eq!(freed, vec![".", "A", "a", "b", "shift"]);
    // Nothing is left, and nothing can be freed again.
    let mut table: KeyTable<u32> = KeyTable::new();
    let key = table.insert(1);
    let token = key.as_ptr();
    assert_eq!(table.release(key), Ok(Some(1)));
    assert_eq!(table.release(token.unwrap()), Err(CellError::Dangling));
}

#[test]
fn building_twice_gives_the_same_layout() {
    let first = build(keyboard(), &["a", "b", "A"]);
    let second = build(keyboard(), &["A", "b", "a"]);
    assert_eq!(first.views, second.views);
    assert_eq!(first.keymap_str, second.keymap_str);
    assert_eq!(first.states.len(), second.states.len());
    for view in 0..first.views.len() {
        for row in &first.views.value(view).rows {
            for button in &row.buttons {
                assert_eq!(first.states.get(&button.state), second.states.get(&button.state));
                assert_eq!(
                    first.states.holders(&button.state),
                    second.states.holders(&button.state)
                );
            }
        }
    }
}

#[test]
fn a_failing_keymap_generator_fails_the_build() {
    let (built, sink) = keyboard().build(
        table(&["a", "b", "A"]),
        generate_keycodes,
        no_keymap,
        Sink::new(CollectWarnings::new()),
    );
    assert_eq!(built.err(), Some(FormattingError { message: "no keymap".into() }));
    assert!(sink.into_inner().messages.is_empty());
}

#[test]
fn build_reports_warnings_in_order() {
    let mut layout = keyboard();
    layout.views.insert("upper".into(), vec!["A shift a\0".to_string()]);
    layout.buttons.insert(
        "A".into(),
        ButtonMeta {
            keysym: Some("Bogus".into()),
            outline: Some("round".into()),
            ..ButtonMeta::default()
        },
    );
    layout.outlines = Table::new();
    let (built, sink) = layout.build(
        table(&["a", "b"]),
        generate_keycodes,
        generate_keymap,
        Sink::new(CollectWarnings::new()),
    );
    let data = built.unwrap();
    assert_eq!(
        sink.into_inner().messages,
        vec![
            // Resolving the actions, each id once.
            "Keysym name invalid: Bogus",
            "Text a\0 contains problems: NulError(1, [97, 0])",
            // Making the buttons: a, b, shift, b, ., b, A, shift, a\0.
            "No default outline defined! Using 1x1!",
            "No default outline defined! Using 1x1!",
            "Outline named wide does not exist! Using default for button shift",
            "No default outline defined! Using 1x1!",
            "No default outline defined! Using 1x1!",
            "No default outline defined! Using 1x1!",
            "No default outline defined! Using 1x1!",
            "Outline named round does not exist! Using default for button A",
            "No default outline defined! Using 1x1!",
            "Outline named wide does not exist! Using default for button shift",
            "No default outline defined! Using 1x1!",
            "No default outline defined! Using 1x1!",
        ]
    );
    let button = &data.views.get("upper").unwrap().rows[0].buttons[0];
    assert_eq!(button.outline_name, "default");
    assert_eq!(button.bounds, Bounds { x: ZERO, y: ZERO, width: ONE, height: ONE });
    assert_eq!(button.bounds, bounds(0.0, 0.0, 1.0, 1.0));
    assert_eq!(data.states.get(&button.state).unwrap().keycodes.len(), 1);
}

#[test]
fn button_label_falls_back_in_order() {
    let outlines: Table<Outline> = {
        let mut outlines = Table::new();
        outlines.insert("default".into(), Outline { bounds: bounds(0.0, 0.0, 1.0, 1.0) });
        outlines
    };
    let make = |meta: ButtonMeta| {
        let mut buttons = Table::new();
        buttons.insert("id".into(), meta);
        let mut cells: KeyTable<u32> = KeyTable::new();
        let state = cells.insert(0);
        let mut sink = Sink::new(CollectWarnings::new());
        let button = create_button(&buttons, &outlines, "id", state, &mut sink);
        (button.label, sink.into_inner().messages)
    };
    let all = ButtonMeta {
        label: Some("label".into()),
        icon: Some("icon".into()),
        text: Some("text".into()),
        ..ButtonMeta::default()
    };
    // The icon wins over the label.
    assert_eq!(make(all), (Label::IconName("icon".into()), vec![]));
    let label_and_text = ButtonMeta {
        label: Some("label".into()),
        text: Some("text".into()),
        ..ButtonMeta::default()
    };
    assert_eq!(make(label_and_text).0, Label::Text("label".into()));
    let icon_and_text = ButtonMeta {
        icon: Some("icon".into()),
        text: Some("text".into()),
        ..ButtonMeta::default()
    };
    assert_eq!(make(icon_and_text).0, Label::IconName("icon".into()));
    let text = ButtonMeta { text: Some("text".into()), ..ButtonMeta::default() };
    assert_eq!(make(text).0, Label::Text("text".into()));
    assert_eq!(make(ButtonMeta::default()).0, Label::Text("id".into()));
    let bad = ButtonMeta { text: Some("te\0xt".into()), ..ButtonMeta::default() };
    assert_eq!(
        make(bad),
        (
            Label::Text("".into()),
            vec![
                "Text te\0xt is invalid: nul byte found in provided data at position: 2"
                    .to_string()
            ]
        )
    );
}

#[test]
fn keysyms_are_collected_with_duplicates() {
    let mut sink = Sink::new(PanicWarn);
    let actions = keyboard().resolve_actions(&keysyms(&["a", "b", "A"]), &mut sink);
    assert_eq!(collect_keysyms(&actions), vec!["a", "b", "U002E", "a", "A"]);
}

#[test]
fn a_missing_keycode_is_found() {
    let mut sink = Sink::new(PanicWarn);
    let actions = keyboard().resolve_actions(&keysyms(&["a", "b", "A"]), &mut sink);
    let mut keymap = Table::new();
    keymap.insert("a".to_string(), 9);
    keymap.insert("b".to_string(), 10);
    keymap.insert("A".to_string(), 11);
    let missing = bind_keycodes(actions, &keymap).unwrap_err();
    assert_eq!(missing, MissingKeycode { keysym: "U002E".into(), button: ".".into() });
    assert_eq!(missing.message(), "keycode U002E in key . missing from keymap");
}

#[test]
fn states_can_be_checked_before_assembling() {
    let layout = keyboard();
    let mut sink = Sink::new(PanicWarn);
    let actions = layout.resolve_actions(&keysyms(&["a", "b", "A"]), &mut sink);
    let keymap = generate_keycodes(collect_keysyms(&actions));
    let states = bind_keycodes(actions, &keymap).unwrap();
    assert!(layout.has_states_in(&states));
    assert!(!layout.has_states_in(&Table::new()));
    let (built, _sink) = layout.assemble(states, Ok("keymap".into()), sink);
    assert_eq!(built.unwrap().keymap_str, "keymap");
}

#[test]
fn compiling_with_known_keysyms() {
    let (built, _sink) = keyboard().compile(
        &keysyms(&["a", "b", "A"]),
        generate_keycodes,
        generate_keymap,
        Sink::new(PanicWarn),
    );
    let data = built.unwrap();
    let looked_up = build(keyboard(), &["a", "b", "A"]);
    assert_eq!(data.views, looked_up.views);
    assert_eq!(data.keymap_str, looked_up.keymap_str);
    // With no keysym known, every character gets the name of its code point.
    let (built, _sink) = keyboard().compile(
        &KeysymSet::new(),
        generate_keycodes,
        generate_keymap,
        Sink::new(CollectWarnings::new()),
    );
    assert_eq!(
        built.unwrap().keymap_str,
        "xkb_keymap { a:[9] b:[10] shift:[] .:[11, 9] A:[12] }"
    );
}
