use squeek_layout::action::Action;
use squeek_layout::keyboard::{
    squeek_key_add_symbol, squeek_key_free, squeek_key_get_action_name, squeek_key_get_keycode,
    squeek_key_get_symbol, squeek_key_is_locked, squeek_key_is_pressed, squeek_key_new,
    squeek_key_set_keycode, squeek_key_set_locked, squeek_key_set_pressed,
    squeek_key_takes_element, squeek_key_to_keymap_entry, CText, KeyState, Symbol,
};
use squeek_layout::layout::Label;
use squeek_layout::shared::{CKeyState, CellError, KeyTable};
use squeek_layout::util::{CollectWarnings, Sink};

fn text(t: &str) -> CText {
    CText::Text(t.into())
}

fn sink() -> Sink<CollectWarnings> {
    Sink::new(CollectWarnings::new())
}

#[test]
fn a_new_key_is_released_and_unlocked() {
    let mut keys = KeyTable::new();
    let key = squeek_key_new(&mut keys, 42);
    assert_eq!(squeek_key_is_pressed(&keys, key), Ok(0));
    assert_eq!(squeek_key_is_locked(&keys, key), Ok(0));
    assert_eq!(squeek_key_get_keycode(&keys, key), Ok(42));
    assert_eq!(squeek_key_get_symbol(&keys, key), Ok(None));
    assert_eq!(
        key.to_owned(&keys),
        Ok(KeyState { pressed: false, locked: false, keycode: 42, symbol: None })
    );
}

#[test]
fn flags_and_keycode_can_be_set() {
    let mut keys = KeyTable::new();
    let key = squeek_key_new(&mut keys, 1);
    let other = squeek_key_new(&mut keys, 2);
    assert_eq!(squeek_key_set_pressed(&mut keys, key, 7), Ok(()));
    assert_eq!(squeek_key_is_pressed(&keys, key), Ok(1));
    assert_eq!(squeek_key_is_locked(&keys, key), Ok(0));
    assert_eq!(squeek_key_set_locked(&mut keys, key, 1), Ok(()));
    assert_eq!(squeek_key_is_locked(&keys, key), Ok(1));
    assert_eq!(squeek_key_set_pressed(&mut keys, key, 0), Ok(()));
    assert_eq!(squeek_key_is_pressed(&keys, key), Ok(0));
    assert_eq!(squeek_key_is_locked(&keys, key), Ok(1));
    assert_eq!(squeek_key_set_keycode(&mut keys, key, 99), Ok(()));
    assert_eq!(squeek_key_get_keycode(&keys, key), Ok(99));
    // The other key is untouched.
    assert_eq!(squeek_key_is_pressed(&keys, other), Ok(0));
    assert_eq!(squeek_key_is_locked(&keys, other), Ok(0));
    assert_eq!(squeek_key_get_keycode(&keys, other), Ok(2));
}

#[test]
fn a_freed_key_is_gone() {
    let mut keys = KeyTable::new();
    let key = squeek_key_new(&mut keys, 1);
    assert_eq!(squeek_key_free(&mut keys, key), Ok(()));
    assert_eq!(squeek_key_free(&mut keys, key), Err(CellError::Dangling));
    assert_eq!(squeek_key_is_pressed(&keys, key), Err(CellError::Dangling));
    assert_eq!(squeek_key_set_pressed(&mut keys, key, 1), Err(CellError::Dangling));
    assert_eq!(squeek_key_get_keycode(&keys, key), Err(CellError::Dangling));
    assert_eq!(squeek_key_get_symbol(&keys, key), Err(CellError::Dangling));
    // The place is not used again.
    let next = squeek_key_new(&mut keys, 2);
    assert_ne!(next, key);
    assert_eq!(squeek_key_get_keycode(&keys, next), Ok(2));
}

#[test]
fn a_second_writer_is_refused() {
    let mut keys = KeyTable::new();
    let key = squeek_key_new(&mut keys, 1);
    let holder = key.unwrap();
    let state = keys.begin_write(&holder).unwrap();
    assert_eq!(squeek_key_set_pressed(&mut keys, key, 1), Err(CellError::Borrowed));
    assert_eq!(squeek_key_set_locked(&mut keys, key, 1), Err(CellError::Borrowed));
    assert_eq!(squeek_key_set_keycode(&mut keys, key, 1), Err(CellError::Borrowed));
    assert_eq!(squeek_key_is_pressed(&keys, key), Err(CellError::Borrowed));
    assert_eq!(squeek_key_free(&mut keys, key), Err(CellError::Borrowed));
    assert_eq!(keys.begin_write(&holder), Err(CellError::Borrowed));
    assert_eq!(keys.begin_read(&holder), Err(CellError::Borrowed));
    assert_eq!(keys.end_write(&holder, state), Ok(()));
    let stray = KeyState { pressed: true, locked: true, keycode: 0, symbol: None };
    assert_eq!(keys.end_write(&holder, Box::new(stray)), Err(CellError::NotBorrowed));
    assert_eq!(squeek_key_set_pressed(&mut keys, key, 1), Ok(()));
    assert_eq!(squeek_key_is_pressed(&keys, key), Ok(1));
}

#[test]
fn readers_share_and_keep_writers_out() {
    let mut keys = KeyTable::new();
    let key = squeek_key_new(&mut keys, 1);
    let holder = key.unwrap();
    assert_eq!(keys.begin_read(&holder), Ok(()));
    assert_eq!(keys.begin_read(&holder), Ok(()));
    assert_eq!(squeek_key_is_pressed(&keys, key), Ok(0));
    assert_eq!(squeek_key_set_pressed(&mut keys, key, 1), Err(CellError::Borrowed));
    assert_eq!(squeek_key_get_symbol(&keys, key), Err(CellError::Borrowed));
    assert_eq!(keys.end_read(&holder), Ok(()));
    assert_eq!(squeek_key_set_pressed(&mut keys, key, 1), Err(CellError::Borrowed));
    assert_eq!(keys.end_read(&holder), Ok(()));
    assert_eq!(keys.end_read(&holder), Err(CellError::NotBorrowed));
    assert_eq!(squeek_key_set_pressed(&mut keys, key, 1), Ok(()));
}

#[test]
fn references_are_counted() {
    let mut keys: KeyTable<u32> = KeyTable::new();
    let first = keys.insert(5);
    let token = first.as_ptr();
    let n = 10;
    let mut others = Vec::new();
    for _ in 0..n {
        others.push(keys.share(&first).unwrap());
    }
    assert_eq!(keys.holders(&first), n + 1);
    assert_eq!(keys.release(first), Ok(None));
    let mut freed = 0;
    for (i, other) in others.into_iter().enumerate() {
        match keys.release(other).unwrap() {
            Some(state) => {
                assert_eq!(state, 5);
                assert_eq!(i, n - 1);
                freed += 1;
            },
            None => assert!(i < n - 1),
        }
    }
    assert_eq!(freed, 1);
    assert_eq!(keys.holders(&token.unwrap()), 0);
    assert_eq!(keys.release(token.unwrap()), Err(CellError::Dangling));
    assert_eq!(keys.share(&token.unwrap()), Err(CellError::Dangling));
    assert_eq!(keys.get(&token.unwrap()), Err(CellError::Dangling));
}

#[test]
fn wrapping_keeps_the_cell() {
    let mut keys: KeyTable<u32> = KeyTable::new();
    let _zero = keys.insert(0);
    let one = keys.insert(1);
    let token = CKeyState::wrap(one);
    let copy = token;
    assert_eq!(keys.get(&copy.unwrap()), Ok(&1));
    assert_eq!(keys.release(token.unwrap()), Ok(Some(1)));
}

#[test]
fn a_symbol_is_attached_once() {
    let mut keys = KeyTable::new();
    let key = squeek_key_new(&mut keys, 1);
    let mut warnings = sink();
    let added = squeek_key_add_symbol(
        &mut keys,
        key,
        "symbol",
        text("a"),
        97,
        text("A"),
        CText::Null,
        text("the first letter"),
        &mut warnings,
    );
    assert_eq!(added, Ok(true));
    let expected = Symbol {
        action: Action::Submit { text: Some("a".into()), keys: vec![] },
        label: Label::Text("A".into()),
        tooltip: Some("the first letter".into()),
    };
    assert_eq!(squeek_key_get_symbol(&keys, key), Ok(Some(&expected)));
    let again = squeek_key_add_symbol(
        &mut keys,
        key,
        "symbol",
        text("b"),
        98,
        text("B"),
        CText::Null,
        CText::Null,
        &mut warnings,
    );
    assert_eq!(again, Ok(false));
    assert_eq!(squeek_key_get_symbol(&keys, key), Ok(Some(&expected)));
    assert_eq!(warnings.into_inner().messages, vec!["Key b already has a symbol defined"]);
}

#[test]
fn a_symbol_from_poor_input() {
    let mut keys = KeyTable::new();
    let key = squeek_key_new(&mut keys, 1);
    let mut warnings = sink();
    let added = squeek_key_add_symbol(
        &mut keys,
        key,
        "symbol",
        text(""),
        0,
        CText::Null,
        CText::Unreadable,
        CText::Unreadable,
        &mut warnings,
    );
    assert_eq!(added, Ok(true));
    let expected = Symbol {
        action: Action::Submit { text: None, keys: vec![] },
        label: Label::Text(" ".into()),
        tooltip: None,
    };
    assert_eq!(squeek_key_get_symbol(&keys, key), Ok(Some(&expected)));
    let again = squeek_key_add_symbol(
        &mut keys,
        key,
        "symbol",
        CText::Unreadable,
        0,
        CText::Unreadable,
        text("icon"),
        CText::Null,
        &mut warnings,
    );
    assert_eq!(again, Ok(false));
    assert_eq!(
        warnings.into_inner().messages,
        vec![
            "Icon name unreadable",
            "Label missing",
            "Tooltip unreadable",
            "Text unreadable",
            "Key already has a symbol defined",
        ]
    );
}

#[test]
fn an_icon_wins_over_the_label() {
    let mut keys = KeyTable::new();
    let key = squeek_key_new(&mut keys, 1);
    let mut warnings = sink();
    let added = squeek_key_add_symbol(
        &mut keys,
        key,
        "symbol",
        CText::Null,
        0,
        CText::Unreadable,
        text("go-next"),
        CText::Null,
        &mut warnings,
    );
    assert_eq!(added, Ok(true));
    assert_eq!(
        squeek_key_get_symbol(&keys, key).unwrap().unwrap().label,
        Label::IconName("go-next".into())
    );
    assert!(warnings.into_inner().messages.is_empty());
}

#[test]
fn only_symbols_can_be_attached() {
    let mut keys = KeyTable::new();
    let key = squeek_key_new(&mut keys, 1);
    let mut warnings = sink();
    // A key that can take a symbol takes no other element.
    assert!(!squeek_key_takes_element(&keys, key, "keysym"));
    assert!(!squeek_key_takes_element(&keys, key, ""));
    assert!(squeek_key_takes_element(&keys, key, "symbol"));
    let added = squeek_key_add_symbol(
        &mut keys,
        key,
        "symbol",
        text("a"),
        0,
        text("A"),
        CText::Null,
        CText::Null,
        &mut warnings,
    );
    assert_eq!(added, Ok(true));
    // A key that has its symbol takes none, whatever the element.
    assert!(squeek_key_takes_element(&keys, key, "keysym"));
    let again = squeek_key_add_symbol(
        &mut keys,
        key,
        "keysym",
        text("b"),
        0,
        text("B"),
        CText::Null,
        CText::Null,
        &mut warnings,
    );
    assert_eq!(again, Ok(false));
    assert_eq!(
        squeek_key_get_symbol(&keys, key).unwrap().unwrap().label,
        Label::Text("A".into())
    );
    assert_eq!(warnings.into_inner().messages, vec!["Key b already has a symbol defined"]);
}

#[test]
fn a_key_in_use_takes_no_symbol() {
    let mut keys = KeyTable::new();
    let key = squeek_key_new(&mut keys, 1);
    let mut warnings = sink();
    let holder = key.unwrap();
    let state = keys.begin_write(&holder).unwrap();
    assert!(squeek_key_takes_element(&keys, key, "keysym"));
    let added = squeek_key_add_symbol(
        &mut keys,
        key,
        "keysym",
        text("a"),
        0,
        CText::Unreadable,
        CText::Null,
        CText::Null,
        &mut warnings,
    );
    assert_eq!(added, Err(CellError::Borrowed));
    keys.end_write(&holder, state).unwrap();
    assert_eq!(squeek_key_get_symbol(&keys, key), Ok(None));
    squeek_key_free(&mut keys, key).unwrap();
    assert!(squeek_key_takes_element(&keys, key, "keysym"));
    let added = squeek_key_add_symbol(
        &mut keys,
        key,
        "keysym",
        CText::Null,
        0,
        text("A"),
        CText::Null,
        CText::Null,
        &mut warnings,
    );
    assert_eq!(added, Err(CellError::Dangling));
    assert_eq!(warnings.into_inner().messages, vec!["Label unreadable"]);
}

#[test]
fn keymap_entries() {
    let mut keys = KeyTable::new();
    let key = squeek_key_new(&mut keys, 1);
    let mut warnings = sink();
    assert_eq!(
        squeek_key_to_keymap_entry("AD01", &keys, key, &mut warnings),
        Ok("        key <AD01> { [ ] };\n".to_string())
    );
    squeek_key_add_symbol(
        &mut keys,
        key,
        "symbol",
        text("q"),
        0,
        text("Q"),
        CText::Null,
        CText::Null,
        &mut warnings,
    )
    .unwrap();
    assert_eq!(
        squeek_key_to_keymap_entry("AD01", &keys, key, &mut warnings),
        Ok("        key <AD01> { [ q ] };\n".to_string())
    );
    assert_eq!(
        squeek_key_get_action_name("AD01", &keys, key, &mut warnings),
        Ok("        key <AD01> { [ q ] };\n".to_string())
    );
    let silent = squeek_key_new(&mut keys, 2);
    squeek_key_add_symbol(
        &mut keys,
        silent,
        "symbol",
        CText::Null,
        0,
        text("S"),
        CText::Null,
        CText::Null,
        &mut warnings,
    )
    .unwrap();
    assert_eq!(
        squeek_key_to_keymap_entry("AD02", &keys, silent, &mut warnings),
        Ok("        key <AD02> { [ ] };\n".to_string())
    );
    squeek_key_free(&mut keys, silent).unwrap();
    assert_eq!(
        squeek_key_to_keymap_entry("AD02", &keys, silent, &mut warnings),
        Err(CellError::Dangling)
    );
    assert_eq!(warnings.into_inner().messages, vec!["Key AD01 has no symbol"]);
}

#[test]
fn a_symbol_stays_where_it_is() {
    let mut keys = KeyTable::new();
    let key = squeek_key_new(&mut keys, 1);
    let mut warnings = sink();
    squeek_key_add_symbol(
        &mut keys,
        key,
        "symbol",
        text("a"),
        0,
        text("A"),
        CText::Null,
        CText::Null,
        &mut warnings,
    )
    .unwrap();
    let place = format!("{:p}", squeek_key_get_symbol(&keys, key).unwrap().unwrap());
    // Neither more keys nor changes to this one move its symbol.
    for code in 0..1000 {
        squeek_key_new(&mut keys, code);
    }
    squeek_key_set_pressed(&mut keys, key, 1).unwrap();
    squeek_key_set_locked(&mut keys, key, 1).unwrap();
    squeek_key_set_keycode(&mut keys, key, 7).unwrap();
    let again = format!("{:p}", squeek_key_get_symbol(&keys, key).unwrap().unwrap());
    assert_eq!(place, again);
}
