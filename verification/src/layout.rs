//! The compiled layout: views of rows of buttons, each button bound to the
//! shared state of its key.

use vstd::prelude::*;
use crate::action::{button_meta, Action, ActionModel};
use crate::document::{Bounds, ButtonMeta, ButtonMetaModel, Outline};
use crate::shared::{CellModel, KeyRef, KeyTable};
use crate::table::{lemma_lookup_deep, lookup, Table};
use crate::text::{is_c_string, is_c_text, nul_error_display, nul_error_display_string};
use crate::util::{Sink, WarningHandler};

verus! {

/// The state of one key of a compiled layout, shared by every button that
/// shows the key.
#[derive(Debug, PartialEq, Eq)]
pub struct KeyState {
    pub pressed: bool,
    pub locked: bool,
    /// The keycodes that emit the key's keysyms; none unless the action
    /// submits something.
    pub keycodes: Vec<u32>,
    pub action: Action,
}

/// The mathematical model of a [`KeyState`].
pub struct KeyStateModel {
    pub pressed: bool,
    pub locked: bool,
    pub keycodes: Seq<u32>,
    pub action: ActionModel,
}

impl View for KeyState {
    type V = KeyStateModel;

    open spec fn view(&self) -> KeyStateModel {
        KeyStateModel {
            pressed: self.pressed,
            locked: self.locked,
            keycodes: self.keycodes@,
            action: self.action@,
        }
    }
}

impl DeepView for KeyState {
    type V = KeyStateModel;

    open spec fn deep_view(&self) -> KeyStateModel {
        self@
    }
}

impl Clone for KeyState {
    fn clone(&self) -> (copy: KeyState)
        ensures
            copy@ == self@,
    {
        let mut keycodes: Vec<u32> = Vec::new();
        let n = self.keycodes.len();
        let mut i: usize = 0;
        while i < n
            invariant
                n == self.keycodes@.len(),
                i <= n,
                keycodes@ == self.keycodes@.take(i as int),
            decreases n - i,
        {
            keycodes.push(self.keycodes[i]);
            proof {
                assert(keycodes@ =~= self.keycodes@.take(i + 1));
            }
            i += 1;
        }
        proof {
            assert(self.keycodes@.take(n as int) =~= self.keycodes@);
        }
        KeyState {
            pressed: self.pressed,
            locked: self.locked,
            keycodes,
            action: self.action.clone(),
        }
    }
}

/// What a button shows.
#[derive(Debug, PartialEq, Eq)]
pub enum Label {
    /// Text to show.
    Text(String),
    /// The name of an icon to show.
    IconName(String),
}

/// The mathematical model of a [`Label`].
pub enum LabelModel {
    Text(Seq<char>),
    IconName(Seq<char>),
}

impl View for Label {
    type V = LabelModel;

    open spec fn view(&self) -> LabelModel {
        match *self {
            Label::Text(text) => LabelModel::Text(text@),
            Label::IconName(name) => LabelModel::IconName(name@),
        }
    }
}

impl Clone for Label {
    fn clone(&self) -> (copy: Label)
        ensures
            copy@ == self@,
    {
        match self {
            Label::Text(text) => Label::Text(text.clone()),
            Label::IconName(name) => Label::IconName(name.clone()),
        }
    }
}

/// One button in a row. Buttons with the same name share one key state.
#[derive(Debug, PartialEq, Eq)]
pub struct Button {
    /// The button id.
    pub name: String,
    pub outline_name: String,
    /// The bounds of the button's outline.
    pub bounds: Bounds,
    pub label: Label,
    /// The button's reference to the state of its key.
    pub state: KeyRef,
}

/// The mathematical model of a [`Button`].
pub struct ButtonModel {
    pub name: Seq<char>,
    pub outline_name: Seq<char>,
    pub bounds: Bounds,
    pub label: LabelModel,
    /// The place of the key's cell in the layout's table of states.
    pub state: int,
}

impl View for Button {
    type V = ButtonModel;

    open spec fn view(&self) -> ButtonModel {
        ButtonModel {
            name: self.name@,
            outline_name: self.outline_name@,
            bounds: self.bounds,
            label: self.label@,
            state: self.state.index(),
        }
    }
}

impl DeepView for Button {
    type V = ButtonModel;

    open spec fn deep_view(&self) -> ButtonModel {
        self@
    }
}

/// The buttons that lie side by side.
#[derive(Debug, PartialEq, Eq)]
pub struct Row {
    /// The angle of the row; compiled rows are level.
    pub angle: i32,
    /// Bounds given to the row itself; compiled rows have none.
    pub bounds: Option<Bounds>,
    pub buttons: Vec<Button>,
}

/// The mathematical model of a [`Row`].
pub struct RowModel {
    pub angle: i32,
    pub bounds: Option<Bounds>,
    pub buttons: Seq<ButtonModel>,
}

impl View for Row {
    type V = RowModel;

    open spec fn view(&self) -> RowModel {
        RowModel { angle: self.angle, bounds: self.bounds, buttons: self.buttons.deep_view() }
    }
}

impl DeepView for Row {
    type V = RowModel;

    open spec fn deep_view(&self) -> RowModel {
        self@
    }
}

/// One level of the keyboard: rows of buttons.
#[derive(Debug, PartialEq, Eq)]
pub struct KeyboardView {
    pub bounds: Bounds,
    pub rows: Vec<Row>,
}

/// The mathematical model of a [`KeyboardView`].
pub struct KeyboardViewModel {
    pub bounds: Bounds,
    pub rows: Seq<RowModel>,
}

impl View for KeyboardView {
    type V = KeyboardViewModel;

    open spec fn view(&self) -> KeyboardViewModel {
        KeyboardViewModel { bounds: self.bounds, rows: self.rows.deep_view() }
    }
}

impl DeepView for KeyboardView {
    type V = KeyboardViewModel;

    open spec fn deep_view(&self) -> KeyboardViewModel {
        self@
    }
}

/// A compiled layout: the views by name, the keymap text that gives the
/// keycodes their meaning, and the cells of the key states that the buttons
/// refer to.
pub struct LayoutData {
    pub views: Table<KeyboardView>,
    pub keymap_str: String,
    pub states: KeyTable<KeyState>,
}

/// The model of a cell, with the model of the state in it.
pub open spec fn cell_model(cell: CellModel<KeyState>) -> CellModel<KeyStateModel> {
    CellModel {
        holders: cell.holders,
        readers: cell.readers,
        writing: cell.writing,
        state: match cell.state {
            Some(state) => Some(state@),
            None => None,
        },
    }
}

/// The mathematical model of a [`LayoutData`].
pub struct LayoutDataModel {
    pub views: Seq<(Seq<char>, KeyboardViewModel)>,
    pub keymap_str: Seq<char>,
    pub states: Seq<CellModel<KeyStateModel>>,
}

impl View for LayoutData {
    type V = LayoutDataModel;

    open spec fn view(&self) -> LayoutDataModel {
        LayoutDataModel {
            views: self.views.deep_view(),
            keymap_str: self.keymap_str@,
            states: Seq::new(self.states@.len(), |i: int| cell_model(self.states@[i])),
        }
    }
}

/// The outline that buttons get unless they name another.
pub open spec fn default_outline() -> Seq<char> {
    "default"@
}

/// What a button shows: its icon, which wins over a label; else its label;
/// else the text it submits, or nothing where that text cannot be shown;
/// else its id.
pub open spec fn label_for(meta: ButtonMetaModel, name: Seq<char>) -> LabelModel {
    if meta.icon is Some {
        LabelModel::IconName(meta.icon->0)
    } else if meta.label is Some {
        LabelModel::Text(meta.label->0)
    } else if meta.text is Some {
        LabelModel::Text(
            if is_c_text(meta.text->0) {
                meta.text->0
            } else {
                Seq::empty()
            },
        )
    } else {
        LabelModel::Text(name)
    }
}

/// A button that declares an icon shows the icon, whatever label and text
/// it declares beside it, and its label raises no warning.
pub proof fn lemma_icon_wins(meta: ButtonMetaModel, name: Seq<char>)
    requires
        meta.icon is Some,
    ensures
        label_for(meta, name) == LabelModel::IconName(meta.icon->0),
        label_warnings(meta) == Seq::<Seq<char>>::empty(),
{
}

/// The name of a button's outline: the one it names, where that exists,
/// else the default outline.
pub open spec fn outline_name_for(
    meta: ButtonMetaModel,
    outlines: Seq<(Seq<char>, Outline)>,
) -> Seq<char> {
    if meta.outline is Some && lookup(outlines, meta.outline->0) is Some {
        meta.outline->0
    } else {
        default_outline()
    }
}

/// The bounds of a button: those of its outline, or the unit square where
/// the layout has not even the default outline.
pub open spec fn bounds_for(meta: ButtonMetaModel, outlines: Seq<(Seq<char>, Outline)>) -> Bounds {
    match lookup(outlines, outline_name_for(meta, outlines)) {
        Some(outline) => outline.bounds,
        None => Bounds::unit(),
    }
}

pub open spec fn invalid_text_warning(text: Seq<char>) -> Seq<char> {
    "Text "@ + text + " is invalid: "@ + nul_error_display(text)
}

pub open spec fn missing_outline_warning(outline: Seq<char>, name: Seq<char>) -> Seq<char> {
    "Outline named "@ + outline + " does not exist! Using default for button "@ + name
}

pub open spec fn no_default_outline_warning() -> Seq<char> {
    "No default outline defined! Using 1x1!"@
}

/// The warning about a text that cannot be shown as a label, if the button
/// shows its text and the text is such.
pub open spec fn label_warnings(meta: ButtonMetaModel) -> Seq<Seq<char>> {
    if meta.label is None && meta.icon is None && meta.text is Some && !is_c_text(meta.text->0) {
        seq![invalid_text_warning(meta.text->0)]
    } else {
        Seq::empty()
    }
}

/// The warnings about a button's outline: that the one it names is
/// missing, and that the one it gets is missing too.
pub open spec fn outline_warnings(
    meta: ButtonMetaModel,
    name: Seq<char>,
    outlines: Seq<(Seq<char>, Outline)>,
) -> Seq<Seq<char>> {
    let named: Seq<Seq<char>> = if meta.outline is Some && lookup(outlines, meta.outline->0)
        is None {
        seq![missing_outline_warning(meta.outline->0, name)]
    } else {
        Seq::empty()
    };
    let fallback: Seq<Seq<char>> = if lookup(outlines, outline_name_for(meta, outlines)) is None {
        seq![no_default_outline_warning()]
    } else {
        Seq::empty()
    };
    named + fallback
}

/// The warnings that making a button raises, in order.
pub open spec fn button_warnings(
    meta: ButtonMetaModel,
    name: Seq<char>,
    outlines: Seq<(Seq<char>, Outline)>,
) -> Seq<Seq<char>> {
    label_warnings(meta) + outline_warnings(meta, name, outlines)
}

/// The button `name` with the declaration `meta`, bound to the cell
/// `state`.
pub open spec fn button_for(
    meta: ButtonMetaModel,
    name: Seq<char>,
    outlines: Seq<(Seq<char>, Outline)>,
    state: int,
) -> ButtonModel {
    ButtonModel {
        name,
        outline_name: outline_name_for(meta, outlines),
        bounds: bounds_for(meta, outlines),
        label: label_for(meta, name),
        state,
    }
}

/// Makes one button of a row: resolves what it shows and which outline it
/// has, and binds it to the state of its key. A missing outline is
/// reported to the warning handler and replaced.
pub fn create_button<H: WarningHandler>(
    button_info: &Table<ButtonMeta>,
    outlines: &Table<Outline>,
    name: &str,
    state: KeyRef,
    warning_handler: &mut Sink<H>,
) -> (button: Button)
    ensures
        button@ == button_for(
            button_meta(button_info.deep_view(), name@),
            name@,
            outlines.deep_view(),
            state.index(),
        ),
        final(warning_handler).seen() == old(warning_handler).seen() + button_warnings(
            button_meta(button_info.deep_view(), name@),
            name@,
            outlines.deep_view(),
        ),
{
    let default_meta = ButtonMeta::default();
    let button_meta = match button_info.get(name) {
        Some(meta) => meta,
        None => &default_meta,
    };
    proof {
        lemma_lookup_deep(button_info, name@);
    }
    let ghost meta = button_meta@;
    let ghost shapes = outlines.deep_view();
    let ghost seen = warning_handler.seen();

    let label = if let Some(icon) = &button_meta.icon {
        Label::IconName(icon.clone())
    } else if let Some(label) = &button_meta.label {
        Label::Text(label.clone())
    } else if let Some(text) = &button_meta.text {
        if is_c_string(text.as_str()) {
            Label::Text(text.clone())
        } else {
            let mut message: String = "Text ".to_owned();
            message.append(text.as_str());
            message.append(" is invalid: ");
            message.append(nul_error_display_string(text.as_str()).as_str());
            warning_handler.warn(message.as_str());
            Label::Text(String::new())
        }
    } else {
        Label::Text(name.to_owned())
    };
    proof {
        assert(label@ == label_for(meta, name@));
        assert(warning_handler.seen() =~= seen + label_warnings(meta));
    }

    let outline_name: String = match &button_meta.outline {
        Some(outline) => {
            proof {
                lemma_lookup_deep(outlines, outline@);
            }
            if outlines.contains_key(outline.as_str()) {
                outline.clone()
            } else {
                let mut message: String = "Outline named ".to_owned();
                message.append(outline.as_str());
                message.append(" does not exist! Using default for button ");
                message.append(name);
                warning_handler.warn(message.as_str());
                "default".to_owned()
            }
        },
        None => "default".to_owned(),
    };
    proof {
        assert(outline_name@ == outline_name_for(meta, shapes));
        lemma_lookup_deep(outlines, outline_name@);
    }
    let ghost named = warning_handler.seen();

    let bounds = match outlines.get(outline_name.as_str()) {
        Some(outline) => outline.bounds,
        None => {
            warning_handler.warn("No default outline defined! Using 1x1!");
            Bounds::unit_square()
        },
    };
    proof {
        assert(bounds == bounds_for(meta, shapes));
        assert(warning_handler.seen() =~= seen + button_warnings(meta, name@, shapes));
    }

    Button { name: name.to_owned(), outline_name, bounds, label, state }
}

} // verus!
