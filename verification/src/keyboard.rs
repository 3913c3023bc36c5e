//! Key objects as they are handled across the foreign boundary: a key
//! state with one keycode, to which a symbol is attached once.

use vstd::prelude::*;
use crate::action::{Action, ActionModel};
use crate::layout::{Label, LabelModel};
use crate::shared::{cell_at, with_cell, CKeyState, CellError, CellModel, KeyTable};
use crate::util::{Sink, WarningHandler};

verus! {

/// What a key means: what it does, what it shows, and what it says of
/// itself.
#[derive(Debug, PartialEq, Eq)]
pub struct Symbol {
    pub action: Action,
    pub label: Label,
    pub tooltip: Option<String>,
}

/// The mathematical model of a [`Symbol`].
pub struct SymbolModel {
    pub action: ActionModel,
    pub label: LabelModel,
    pub tooltip: Option<Seq<char>>,
}

impl View for Symbol {
    type V = SymbolModel;

    open spec fn view(&self) -> SymbolModel {
        SymbolModel {
            action: self.action@,
            label: self.label@,
            tooltip: match self.tooltip {
                Some(t) => Some(t@),
                None => None,
            },
        }
    }
}

impl Clone for Symbol {
    fn clone(&self) -> (copy: Symbol)
        ensures
            copy@ == self@,
    {
        Symbol {
            action: self.action.clone(),
            label: self.label.clone(),
            tooltip: match &self.tooltip {
                Some(t) => Some(t.clone()),
                None => None,
            },
        }
    }
}

/// The state of a key object.
#[derive(Debug, PartialEq, Eq)]
pub struct KeyState {
    pub pressed: bool,
    pub locked: bool,
    pub keycode: u32,
    /// The symbol, once one was attached.
    pub symbol: Option<Symbol>,
}

/// The mathematical model of a [`KeyState`].
pub struct KeyStateModel {
    pub pressed: bool,
    pub locked: bool,
    pub keycode: u32,
    pub symbol: Option<SymbolModel>,
}

impl View for KeyState {
    type V = KeyStateModel;

    open spec fn view(&self) -> KeyStateModel {
        KeyStateModel {
            pressed: self.pressed,
            locked: self.locked,
            keycode: self.keycode,
            symbol: match self.symbol {
                Some(s) => Some(s@),
                None => None,
            },
        }
    }
}

impl Clone for KeyState {
    fn clone(&self) -> (copy: KeyState)
        ensures
            copy@ == self@,
    {
        KeyState {
            pressed: self.pressed,
            locked: self.locked,
            keycode: self.keycode,
            symbol: match &self.symbol {
                Some(s) => Some(s.clone()),
                None => None,
            },
        }
    }
}

/// A string that was handed over the boundary: there may be none, and what
/// is there may be unreadable.
#[derive(Debug, PartialEq, Eq)]
pub enum CText {
    Null,
    Unreadable,
    Text(String),
}

/// The text that was handed over, if one was and it is readable.
pub open spec fn readable(text: CText) -> Option<Seq<char>> {
    match text {
        CText::Text(t) => Some(t@),
        _ => None,
    }
}

/// The error with which a cell refuses to be read.
pub open spec fn read_error(cell: CellModel<KeyState>) -> CellError {
    if cell.is_live() {
        CellError::Borrowed
    } else {
        CellError::Dangling
    }
}

/// The cell with another state in it.
pub open spec fn with_state(cell: CellModel<KeyState>, state: KeyState) -> CellModel<KeyState> {
    CellModel { state: Some(state), ..cell }
}

impl CKeyState {
    /// A copy of the key's state as it is now.
    pub fn to_owned(self, keys: &KeyTable<KeyState>) -> (state: Result<KeyState, CellError>)
        ensures
            match state {
                Ok(s) => cell_at(keys@, self.index()).can_read() && Some(s@) == match cell_at(
                    keys@,
                    self.index(),
                ).state {
                    Some(t) => Some(t@),
                    None => None,
                },
                Err(e) => !cell_at(keys@, self.index()).can_read() && e == read_error(
                    cell_at(keys@, self.index()),
                ),
            },
    {
        let holder = self.unwrap();
        match keys.get(&holder) {
            Ok(state) => Ok(state.clone()),
            Err(e) => Err(e),
        }
    }
}

/// Makes a key: released, unlocked, without a symbol. The caller gets the
/// one reference to it.
pub fn squeek_key_new(keys: &mut KeyTable<KeyState>, keycode: u32) -> (key: CKeyState)
    ensures
        final(keys)@ == old(keys)@.push(
            CellModel::fresh(KeyState { pressed: false, locked: false, keycode, symbol: None }),
        ),
        key.index() == old(keys)@.len(),
{
    let state = keys.insert(KeyState { pressed: false, locked: false, keycode, symbol: None });
    CKeyState::wrap(state)
}

/// Gives up the reference that `key` stands for: the key has one holder
/// less, and is freed if and only if that was the last one. A key that was
/// freed cannot be freed again, and the last reference to a key cannot be
/// given up while the key is read or written. What follows for a key with
/// any number of holders is stated by
/// [`crate::shared::lemma_released_to_the_last`].
pub fn squeek_key_free(keys: &mut KeyTable<KeyState>, key: CKeyState) -> (freed: Result<
    (),
    CellError,
>)
    ensures
        match freed {
            Ok(_) => {
                &&& cell_at(old(keys)@, key.index()).can_release()
                &&& final(keys)@ == with_cell(
                    old(keys)@,
                    key.index(),
                    cell_at(old(keys)@, key.index()).released(),
                )
                &&& cell_at(final(keys)@, key.index()).holders == cell_at(
                    old(keys)@,
                    key.index(),
                ).holders - 1
                &&& !cell_at(final(keys)@, key.index()).is_live() <==> cell_at(
                    old(keys)@,
                    key.index(),
                ).holders == 1
            },
            Err(e) => {
                &&& !cell_at(old(keys)@, key.index()).can_release()
                &&& final(keys)@ == old(keys)@
                &&& e == read_error(cell_at(old(keys)@, key.index()))
            },
        },
        cell_at(old(keys)@, key.index()).is_live() && cell_at(old(keys)@, key.index()).is_idle()
            ==> freed is Ok,
        !cell_at(old(keys)@, key.index()).is_live() ==> freed == Err::<(), CellError>(
            CellError::Dangling,
        ),
{
    match keys.release(key.unwrap()) {
        Ok(_) => Ok(()),
        Err(e) => Err(e),
    }
}

/// Whether the key is pressed: 1 if it is, 0 if not.
pub fn squeek_key_is_pressed(keys: &KeyTable<KeyState>, key: CKeyState) -> (pressed: Result<
    u32,
    CellError,
>)
    ensures
        match pressed {
            Ok(p) => cell_at(keys@, key.index()).can_read() && p == (if cell_at(
                keys@,
                key.index(),
            ).state->0.pressed {
                1u32
            } else {
                0u32
            }),
            Err(e) => !cell_at(keys@, key.index()).can_read() && e == read_error(
                cell_at(keys@, key.index()),
            ),
        },
{
    match keys.get(&key.unwrap()) {
        Ok(state) => Ok(
            if state.pressed {
                1
            } else {
                0
            },
        ),
        Err(e) => Err(e),
    }
}

/// Presses the key if `pressed` is not 0, and releases it if it is.
pub fn squeek_key_set_pressed(keys: &mut KeyTable<KeyState>, key: CKeyState, pressed: u32) -> (set:
    Result<(), CellError>)
    ensures
        match set {
            Ok(_) => {
                &&& cell_at(old(keys)@, key.index()).can_write()
                &&& final(keys)@ == with_cell(
                    old(keys)@,
                    key.index(),
                    with_state(
                        cell_at(old(keys)@, key.index()),
                        KeyState {
                            pressed: pressed != 0,
                            ..cell_at(old(keys)@, key.index()).state->0
                        },
                    ),
                )
            },
            Err(e) => {
                &&& !cell_at(old(keys)@, key.index()).can_write()
                &&& final(keys)@ == old(keys)@
                &&& e == read_error(cell_at(old(keys)@, key.index()))
            },
        },
{
    keys.cells_are_well_formed();
    let holder = key.unwrap();
    match keys.begin_write(&holder) {
        Ok(state) => {
            let mut state = state;
            state.pressed = pressed != 0;
            let _ = keys.end_write(&holder, state);
            proof {
                assert(keys@ =~= with_cell(
                    old(keys)@,
                    key.index(),
                    with_state(
                        cell_at(old(keys)@, key.index()),
                        KeyState {
                            pressed: pressed != 0,
                            ..cell_at(old(keys)@, key.index()).state->0
                        },
                    ),
                ));
            }
            Ok(())
        },
        Err(e) => Err(e),
    }
}

/// Whether the key is locked: 1 if it is, 0 if not.
pub fn squeek_key_is_locked(keys: &KeyTable<KeyState>, key: CKeyState) -> (locked: Result<
    u32,
    CellError,
>)
    ensures
        match locked {
            Ok(l) => cell_at(keys@, key.index()).can_read() && l == (if cell_at(
                keys@,
                key.index(),
            ).state->0.locked {
                1u32
            } else {
                0u32
            }),
            Err(e) => !cell_at(keys@, key.index()).can_read() && e == read_error(
                cell_at(keys@, key.index()),
            ),
        },
{
    match keys.get(&key.unwrap()) {
        Ok(state) => Ok(
            if state.locked {
                1
            } else {
                0
            },
        ),
        Err(e) => Err(e),
    }
}

/// Locks the key if `locked` is not 0, and unlocks it if it is.
pub fn squeek_key_set_locked(keys: &mut KeyTable<KeyState>, key: CKeyState, locked: u32) -> (set:
    Result<(), CellError>)
    ensures
        match set {
            Ok(_) => {
                &&& cell_at(old(keys)@, key.index()).can_write()
                &&& final(keys)@ == with_cell(
                    old(keys)@,
                    key.index(),
                    with_state(
                        cell_at(old(keys)@, key.index()),
                        KeyState {
                            locked: locked != 0,
                            ..cell_at(old(keys)@, key.index()).state->0
                        },
                    ),
                )
            },
            Err(e) => {
                &&& !cell_at(old(keys)@, key.index()).can_write()
                &&& final(keys)@ == old(keys)@
                &&& e == read_error(cell_at(old(keys)@, key.index()))
            },
        },
{
    keys.cells_are_well_formed();
    let holder = key.unwrap();
    match keys.begin_write(&holder) {
        Ok(state) => {
            let mut state = state;
            state.locked = locked != 0;
            let _ = keys.end_write(&holder, state);
            proof {
                assert(keys@ =~= with_cell(
                    old(keys)@,
                    key.index(),
                    with_state(
                        cell_at(old(keys)@, key.index()),
                        KeyState {
                            locked: locked != 0,
                            ..cell_at(old(keys)@, key.index()).state->0
                        },
                    ),
                ));
            }
            Ok(())
        },
        Err(e) => Err(e),
    }
}

/// The keycode of the key.
pub fn squeek_key_get_keycode(keys: &KeyTable<KeyState>, key: CKeyState) -> (keycode: Result<
    u32,
    CellError,
>)
    ensures
        match keycode {
            Ok(code) => cell_at(keys@, key.index()).can_read() && code == cell_at(
                keys@,
                key.index(),
            ).state->0.keycode,
            Err(e) => !cell_at(keys@, key.index()).can_read() && e == read_error(
                cell_at(keys@, key.index()),
            ),
        },
{
    match keys.get(&key.unwrap()) {
        Ok(state) => Ok(state.keycode),
        Err(e) => Err(e),
    }
}

/// Gives the key another keycode.
pub fn squeek_key_set_keycode(keys: &mut KeyTable<KeyState>, key: CKeyState, code: u32) -> (set:
    Result<(), CellError>)
    ensures
        match set {
            Ok(_) => {
                &&& cell_at(old(keys)@, key.index()).can_write()
                &&& final(keys)@ == with_cell(
                    old(keys)@,
                    key.index(),
                    with_state(
                        cell_at(old(keys)@, key.index()),
                        KeyState { keycode: code, ..cell_at(old(keys)@, key.index()).state->0 },
                    ),
                )
            },
            Err(e) => {
                &&& !cell_at(old(keys)@, key.index()).can_write()
                &&& final(keys)@ == old(keys)@
                &&& e == read_error(cell_at(old(keys)@, key.index()))
            },
        },
{
    keys.cells_are_well_formed();
    let holder = key.unwrap();
    match keys.begin_write(&holder) {
        Ok(state) => {
            let mut state = state;
            state.keycode = code;
            let _ = keys.end_write(&holder, state);
            proof {
                assert(keys@ =~= with_cell(
                    old(keys)@,
                    key.index(),
                    with_state(
                        cell_at(old(keys)@, key.index()),
                        KeyState { keycode: code, ..cell_at(old(keys)@, key.index()).state->0 },
                    ),
                ));
            }
            Ok(())
        },
        Err(e) => Err(e),
    }
}

/// The kind of element that a symbol can be made of.
pub open spec fn symbol_element() -> Seq<char> {
    "symbol"@
}

/// The text that a symbol submits: what was handed over, unless that is
/// nothing, unreadable or empty.
pub open spec fn symbol_text(text: CText) -> Option<Seq<char>> {
    match text {
        CText::Text(t) => if t@.len() == 0 {
            None
        } else {
            Some(t@)
        },
        _ => None,
    }
}

/// What a key shows: its icon; without one its label, or a blank where the
/// label is missing or unreadable.
pub open spec fn symbol_label(label: CText, icon: CText) -> LabelModel {
    match icon {
        CText::Text(name) => LabelModel::IconName(name@),
        _ => LabelModel::Text(
            match label {
                CText::Text(l) => l@,
                _ => " "@,
            },
        ),
    }
}

/// The symbol that is made of what was handed over.
pub open spec fn new_symbol(text: CText, label: CText, icon: CText, tooltip: CText) -> SymbolModel {
    SymbolModel {
        action: ActionModel::Submit { text: symbol_text(text), keys: Seq::empty() },
        label: symbol_label(label, icon),
        tooltip: readable(tooltip),
    }
}

/// The warning about one string, if it is unreadable.
pub open spec fn unreadable_warning(what: Seq<char>, text: CText) -> Seq<Seq<char>> {
    if text is Unreadable {
        seq![what + " unreadable"@]
    } else {
        Seq::empty()
    }
}

/// The warnings about the label: none if there is an icon; else that the
/// label is unreadable or missing, if it is.
pub open spec fn label_warnings(label: CText, icon: CText) -> Seq<Seq<char>> {
    if icon is Text {
        Seq::empty()
    } else {
        match label {
            CText::Unreadable => seq!["Label unreadable"@],
            CText::Null => seq!["Label missing"@],
            CText::Text(_) => Seq::empty(),
        }
    }
}

/// The warnings about what was handed over, in order.
pub open spec fn symbol_warnings(text: CText, label: CText, icon: CText, tooltip: CText) -> Seq<
    Seq<char>,
> {
    unreadable_warning("Text"@, text) + unreadable_warning("Icon name"@, icon) + label_warnings(
        label,
        icon,
    ) + unreadable_warning("Tooltip"@, tooltip)
}

/// The warning that a key has its symbol already.
pub open spec fn already_defined_warning(text: Option<Seq<char>>) -> Seq<char> {
    match text {
        Some(t) => "Key"@ + " "@ + t + " already has a symbol defined"@,
        None => "Key"@ + " already has a symbol defined"@,
    }
}

fn warn_unreadable<H: WarningHandler>(what: &str, text: &CText, warning_handler: &mut Sink<H>)
    ensures
        final(warning_handler).seen() == old(warning_handler).seen() + unreadable_warning(
            what@,
            *text,
        ),
{
    if let CText::Unreadable = text {
        let mut message: String = what.to_owned();
        message.append(" unreadable");
        warning_handler.warn(message.as_str());
        proof {
            assert(old(warning_handler).seen().push(message@) =~= old(warning_handler).seen()
                + seq![message@]);
        }
    } else {
        proof {
            assert(warning_handler.seen() + Seq::<Seq<char>>::empty() =~= warning_handler.seen());
        }
    }
}

/// Whether an element can be handed to [`squeek_key_add_symbol`] for a key:
/// a key that can take a symbol takes none but an element of the kind
/// `symbol`.
pub open spec fn takes_element(cell: CellModel<KeyState>, element: Seq<char>) -> bool {
    cell.can_write() && cell.state->0.symbol is None ==> element == symbol_element()
}

/// Tests whether an element can be handed to [`squeek_key_add_symbol`] for
/// a key.
pub fn squeek_key_takes_element(keys: &KeyTable<KeyState>, key: CKeyState, element: &str) -> (taken:
    bool)
    ensures
        taken == takes_element(cell_at(keys@, key.index()), element@),
{
    match keys.get_exclusive(&key.unwrap()) {
        Ok(state) => {
            if state.symbol.is_some() {
                true
            } else {
                let wanted: String = "symbol".to_owned();
                element.to_owned() == wanted
            }
        },
        Err(_) => true,
    }
}

/// Attaches a symbol to a key that has none. A key that has its symbol
/// keeps it, and a warning is raised. The result tells whether the symbol
/// was attached.
///
/// The symbol submits `text`, shows the icon or else the label, and has the
/// tooltip. Only an element of the kind `symbol` can be attached: no other
/// may be handed over for a key that can take a symbol.
pub fn squeek_key_add_symbol<H: WarningHandler>(
    keys: &mut KeyTable<KeyState>,
    key: CKeyState,
    element: &str,
    text: CText,
    keyval: u32,
    label: CText,
    icon: CText,
    tooltip: CText,
    warning_handler: &mut Sink<H>,
) -> (added: Result<bool, CellError>)
    requires
        takes_element(cell_at(old(keys)@, key.index()), element@),
    ensures
        ({
            let cell = cell_at(old(keys)@, key.index());
            let after = cell_at(final(keys)@, key.index());
            let raised = symbol_warnings(text, label, icon, tooltip);
            &&& final(keys)@.len() == old(keys)@.len()
            &&& forall|j: int|
                0 <= j < old(keys)@.len() && j != key.index() ==> final(keys)@[j] == old(keys)@[j]
            &&& match added {
                Ok(attached) => {
                    &&& cell.can_write()
                    &&& attached == (cell.state->0.symbol is None)
                    &&& attached ==> element@ == symbol_element()
                    &&& after.holders == cell.holders
                    &&& after.can_write()
                    &&& after.state is Some
                    &&& after.state->0@ == if attached {
                        KeyStateModel {
                            symbol: Some(new_symbol(text, label, icon, tooltip)),
                            ..cell.state->0@
                        }
                    } else {
                        cell.state->0@
                    }
                    &&& final(warning_handler).seen() == old(warning_handler).seen() + raised
                        + if attached {
                        Seq::<Seq<char>>::empty()
                    } else {
                        seq![already_defined_warning(symbol_text(text))]
                    }
                },
                Err(e) => {
                    &&& !cell.can_write()
                    &&& e == read_error(cell)
                    &&& after == cell
                    &&& final(warning_handler).seen() == old(warning_handler).seen() + raised
                },
            }
        }),
{
    let ghost seen = warning_handler.seen();
    let ghost nothing = Seq::<Seq<char>>::empty();
    let ghost given = (text, label, icon, tooltip);
    warn_unreadable("Text", &text, warning_handler);
    let text: Option<String> = match text {
        CText::Text(t) => if t.as_str().unicode_len() == 0 {
            None
        } else {
            Some(t)
        },
        _ => None,
    };
    warn_unreadable("Icon name", &icon, warning_handler);
    let symbol_label = match icon {
        CText::Text(name) => {
            proof {
                assert(warning_handler.seen() + nothing =~= warning_handler.seen());
            }
            Label::IconName(name)
        },
        _ => Label::Text(
            match label {
                CText::Text(l) => {
                    proof {
                        assert(warning_handler.seen() + nothing =~= warning_handler.seen());
                    }
                    l
                },
                CText::Unreadable => {
                    let ghost before = warning_handler.seen();
                    warning_handler.warn("Label unreadable");
                    proof {
                        assert(before.push("Label unreadable"@) =~= before
                            + seq!["Label unreadable"@]);
                    }
                    " ".to_owned()
                },
                CText::Null => {
                    let ghost before = warning_handler.seen();
                    warning_handler.warn("Label missing");
                    proof {
                        assert(before.push("Label missing"@) =~= before + seq!["Label missing"@]);
                    }
                    " ".to_owned()
                },
            },
        ),
    };
    warn_unreadable("Tooltip", &tooltip, warning_handler);
    let tooltip: Option<String> = match tooltip {
        CText::Text(t) => Some(t),
        _ => None,
    };
    let ghost raised = symbol_warnings(given.0, given.1, given.2, given.3);
    proof {
        assert(warning_handler.seen() =~= seen + raised);
    }

    keys.cells_are_well_formed();
    let holder = key.unwrap();
    let mut state = match keys.begin_write(&holder) {
        Ok(state) => state,
        Err(e) => {
            return Err(e);
        },
    };
    if state.symbol.is_some() {
        let mut message: String = "Key".to_owned();
        if let Some(t) = &text {
            message.append(" ");
            message.append(t.as_str());
        }
        message.append(" already has a symbol defined");
        proof {
            assert(message@ =~= already_defined_warning(symbol_text(given.0)));
        }
        warning_handler.warn(message.as_str());
        let _ = keys.end_write(&holder, state);
        proof {
            assert((seen + raised).push(message@) =~= seen + raised + seq![message@]);
        }
        return Ok(false);
    }
    let wanted: String = "symbol".to_owned();
    if element.to_owned() != wanted {
        vstd::pervasive::unreached()
    }
    state.symbol = Some(
        Symbol { action: Action::Submit { text, keys: Vec::new() }, label: symbol_label, tooltip },
    );
    proof {
        assert(state.symbol->0@.action == new_symbol(given.0, given.1, given.2, given.3).action)
            by {
            assert(Seq::<crate::action::KeySym>::empty().len() == 0);
            assert(state.symbol->0.action->Submit_keys.deep_view() =~= Seq::<Seq<char>>::empty());
        }
        assert(seen + raised + nothing =~= seen + raised);
    }
    let _ = keys.end_write(&holder, state);
    Ok(true)
}

/// The symbol of the key, if it has one. Nobody else may access the key
/// meanwhile.
pub fn squeek_key_get_symbol(keys: &KeyTable<KeyState>, key: CKeyState) -> (symbol: Result<
    Option<&Symbol>,
    CellError,
>)
    ensures
        match symbol {
            Ok(found) => {
                &&& cell_at(keys@, key.index()).can_write()
                &&& match found {
                    Some(s) => cell_at(keys@, key.index()).state->0.symbol == Some(*s),
                    None => cell_at(keys@, key.index()).state->0.symbol is None,
                }
            },
            Err(e) => !cell_at(keys@, key.index()).can_write() && e == read_error(
                cell_at(keys@, key.index()),
            ),
        },
{
    match keys.get_exclusive(&key.unwrap()) {
        Ok(state) => Ok(
            match &state.symbol {
                Some(symbol) => Some(symbol),
                None => None,
            },
        ),
        Err(e) => Err(e),
    }
}

/// The text that the key's symbol submits, if the key has a symbol and the
/// symbol submits a text.
pub open spec fn symbol_name(state: KeyStateModel) -> Option<Seq<char>> {
    match state.symbol {
        Some(symbol) => match symbol.action {
            ActionModel::Submit { text: Some(text), keys } => Some(text),
            _ => None,
        },
        None => None,
    }
}

/// The line of a keymap that binds a key to the text of its symbol.
pub open spec fn keymap_entry(key_name: Seq<char>, state: KeyStateModel) -> Seq<char> {
    "        key <"@ + key_name + "> { "@ + (match symbol_name(state) {
        Some(name) => "[ "@ + name + " ]"@,
        None => "[ ]"@,
    }) + " };\n"@
}

/// The warning that a key has no symbol.
pub open spec fn no_symbol_warning(key_name: Seq<char>) -> Seq<char> {
    "Key "@ + key_name + " has no symbol"@
}

/// Renders the line of a keymap for one key. A key without a symbol gets a
/// line without one, and a warning is raised.
pub fn squeek_key_to_keymap_entry<H: WarningHandler>(
    key_name: &str,
    keys: &KeyTable<KeyState>,
    key: CKeyState,
    warning_handler: &mut Sink<H>,
) -> (entry: Result<String, CellError>)
    ensures
        match entry {
            Ok(line) => {
                &&& cell_at(keys@, key.index()).can_read()
                &&& line@ == keymap_entry(key_name@, cell_at(keys@, key.index()).state->0@)
                &&& final(warning_handler).seen() == old(warning_handler).seen() + if cell_at(
                    keys@,
                    key.index(),
                ).state->0.symbol is None {
                    seq![no_symbol_warning(key_name@)]
                } else {
                    Seq::<Seq<char>>::empty()
                }
            },
            Err(e) => {
                &&& !cell_at(keys@, key.index()).can_read()
                &&& e == read_error(cell_at(keys@, key.index()))
                &&& final(warning_handler).seen() == old(warning_handler).seen()
            },
        },
{
    let ghost seen = warning_handler.seen();
    let state = match keys.get(&key.unwrap()) {
        Ok(state) => state,
        Err(e) => {
            return Err(e);
        },
    };
    let mut line: String = "        key <".to_owned();
    line.append(key_name);
    line.append("> { ");
    match &state.symbol {
        Some(symbol) => {
            proof {
                assert(seen + Seq::<Seq<char>>::empty() =~= seen);
            }
            match &symbol.action {
                Action::Submit { text: Some(text), keys: _ } => {
                    line.append("[ ");
                    line.append(text.as_str());
                    line.append(" ]");
                },
                _ => {
                    line.append("[ ]");
                },
            }
        },
        None => {
            let mut message: String = "Key ".to_owned();
            message.append(key_name);
            message.append(" has no symbol");
            warning_handler.warn(message.as_str());
            proof {
                assert(seen.push(message@) =~= seen + seq![message@]);
            }
            line.append("[ ]");
        },
    }
    line.append(" };\n");
    proof {
        assert(line@ =~= keymap_entry(key_name@, state@));
    }
    Ok(line)
}

/// Renders the line of a keymap for one key, as
/// [`squeek_key_to_keymap_entry`] does.
pub fn squeek_key_get_action_name<H: WarningHandler>(
    key_name: &str,
    keys: &KeyTable<KeyState>,
    key: CKeyState,
    warning_handler: &mut Sink<H>,
) -> (entry: Result<String, CellError>)
    ensures
        match entry {
            Ok(line) => {
                &&& cell_at(keys@, key.index()).can_read()
                &&& line@ == keymap_entry(key_name@, cell_at(keys@, key.index()).state->0@)
                &&& final(warning_handler).seen() == old(warning_handler).seen() + if cell_at(
                    keys@,
                    key.index(),
                ).state->0.symbol is None {
                    seq![no_symbol_warning(key_name@)]
                } else {
                    Seq::<Seq<char>>::empty()
                }
            },
            Err(e) => {
                &&& !cell_at(keys@, key.index()).can_read()
                &&& e == read_error(cell_at(keys@, key.index()))
                &&& final(warning_handler).seen() == old(warning_handler).seen()
            },
        },
{
    squeek_key_to_keymap_entry(key_name, keys, key, warning_handler)
}

} // verus!
