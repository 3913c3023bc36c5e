//! The layout document: what a layout file declares, before any of it is
//! resolved.

use vstd::prelude::*;
use crate::seqs::{flat_map, lemma_flat_map_empty, lemma_flat_map_take};
use crate::table::{distinct_keys, Table};
use crate::text::{split_ascii_whitespace, words};

verus! {

/// A rectangle. Each field holds the bit pattern of a binary64 number, so
/// that coordinates pass through the compiler unchanged.
#[derive(Clone, Copy, Debug, PartialEq, Eq, Structural)]
pub struct Bounds {
    pub x: u64,
    pub y: u64,
    pub width: u64,
    pub height: u64,
}

/// The bit pattern of the number zero.
pub const ZERO: u64 = 0;

/// The bit pattern of the number one.
pub const ONE: u64 = 0x3FF0_0000_0000_0000;

impl Bounds {
    /// The square of side one at the origin.
    pub open spec fn unit() -> Bounds {
        Bounds { x: ZERO, y: ZERO, width: ONE, height: ONE }
    }

    pub fn unit_square() -> (bounds: Bounds)
        ensures
            bounds == Bounds::unit(),
    {
        Bounds { x: ZERO, y: ZERO, width: ONE, height: ONE }
    }
}

impl DeepView for Bounds {
    type V = Bounds;

    open spec fn deep_view(&self) -> Bounds {
        *self
    }
}

/// A named shape that buttons refer to.
#[derive(Clone, Copy, Debug, PartialEq, Eq, Structural)]
pub struct Outline {
    pub bounds: Bounds,
}

impl DeepView for Outline {
    type V = Outline;

    open spec fn deep_view(&self) -> Outline {
        *self
    }
}

/// A special action that a button declares.
#[derive(Debug, PartialEq, Eq)]
pub enum Action {
    /// Switch to `lock_view` and stay there; switch to `unlock_view` when
    /// the button is used again.
    Locking { lock_view: String, unlock_view: String },
    /// Switch to the named view.
    SetView(String),
    /// Open the preferences.
    ShowPrefs,
}

/// The mathematical model of a declared [`Action`].
pub enum ActionModel {
    Locking { lock_view: Seq<char>, unlock_view: Seq<char> },
    SetView(Seq<char>),
    ShowPrefs,
}

impl View for Action {
    type V = ActionModel;

    open spec fn view(&self) -> ActionModel {
        match *self {
            Action::Locking { lock_view, unlock_view } => ActionModel::Locking {
                lock_view: lock_view@,
                unlock_view: unlock_view@,
            },
            Action::SetView(name) => ActionModel::SetView(name@),
            Action::ShowPrefs => ActionModel::ShowPrefs,
        }
    }
}

impl DeepView for Action {
    type V = ActionModel;

    open spec fn deep_view(&self) -> ActionModel {
        self@
    }
}

impl Clone for Action {
    fn clone(&self) -> (copy: Action)
        ensures
            copy@ == self@,
    {
        match self {
            Action::Locking { lock_view, unlock_view } => Action::Locking {
                lock_view: lock_view.clone(),
                unlock_view: unlock_view.clone(),
            },
            Action::SetView(name) => Action::SetView(name.clone()),
            Action::ShowPrefs => Action::ShowPrefs,
        }
    }
}

/// The text of an optional string.
pub open spec fn opt_text(text: Option<String>) -> Option<Seq<char>> {
    match text {
        Some(t) => Some(t@),
        None => None,
    }
}

/// Everything a layout says about one button id. A button id may stand in
/// many places; all of them share this.
#[derive(Debug, PartialEq, Eq)]
pub struct ButtonMeta {
    /// Special action to perform on activation. Conflicts with `keysym`
    /// and `text`.
    pub action: Option<Action>,
    /// The name of the keysym to emit on activation. Conflicts with
    /// `action` and `text`.
    pub keysym: Option<String>,
    /// The text to submit on activation. Conflicts with `action` and
    /// `keysym`.
    pub text: Option<String>,
    /// What the button shows, unless it has an icon.
    pub label: Option<String>,
    /// The icon that the button shows; it wins over a label.
    pub icon: Option<String>,
    /// The name of the button's outline.
    pub outline: Option<String>,
}

/// The mathematical model of a [`ButtonMeta`].
pub struct ButtonMetaModel {
    pub action: Option<ActionModel>,
    pub keysym: Option<Seq<char>>,
    pub text: Option<Seq<char>>,
    pub label: Option<Seq<char>>,
    pub icon: Option<Seq<char>>,
    pub outline: Option<Seq<char>>,
}

impl ButtonMetaModel {
    /// What holds of a button that the layout says nothing about.
    pub open spec fn empty() -> ButtonMetaModel {
        ButtonMetaModel {
            action: None,
            keysym: None,
            text: None,
            label: None,
            icon: None,
            outline: None,
        }
    }
}

impl View for ButtonMeta {
    type V = ButtonMetaModel;

    open spec fn view(&self) -> ButtonMetaModel {
        ButtonMetaModel {
            action: match self.action {
                Some(a) => Some(a@),
                None => None,
            },
            keysym: opt_text(self.keysym),
            text: opt_text(self.text),
            label: opt_text(self.label),
            icon: opt_text(self.icon),
            outline: opt_text(self.outline),
        }
    }
}

impl DeepView for ButtonMeta {
    type V = ButtonMetaModel;

    open spec fn deep_view(&self) -> ButtonMetaModel {
        self@
    }
}

impl Default for ButtonMeta {
    fn default() -> (meta: ButtonMeta)
        ensures
            meta@ == ButtonMetaModel::empty(),
    {
        ButtonMeta { action: None, keysym: None, text: None, label: None, icon: None, outline: None }
    }
}

/// The root element describing an entire keyboard.
#[derive(Debug, PartialEq, Eq)]
pub struct Layout {
    pub bounds: Bounds,
    /// Each view is a list of rows; each row names its buttons, separated
    /// by white space.
    pub views: Table<Vec<String>>,
    pub buttons: Table<ButtonMeta>,
    pub outlines: Table<Outline>,
}

/// The mathematical model of a [`Layout`].
pub struct LayoutModel {
    pub bounds: Bounds,
    pub views: Seq<(Seq<char>, Seq<Seq<char>>)>,
    pub buttons: Seq<(Seq<char>, ButtonMetaModel)>,
    pub outlines: Seq<(Seq<char>, Outline)>,
}

impl View for Layout {
    type V = LayoutModel;

    open spec fn view(&self) -> LayoutModel {
        LayoutModel {
            bounds: self.bounds,
            views: self.views.deep_view(),
            buttons: self.buttons.deep_view(),
            outlines: self.outlines.deep_view(),
        }
    }
}

/// The button ids of some rows, row by row, as often as they occur.
pub open spec fn row_ids(rows: Seq<Seq<char>>) -> Seq<Seq<char>> {
    flat_map(rows, |row: Seq<char>| words(row))
}

/// The button ids of all views, view by view, as often as they occur.
pub open spec fn all_ids(views: Seq<(Seq<char>, Seq<Seq<char>>)>) -> Seq<Seq<char>> {
    flat_map(views, |view: (Seq<char>, Seq<Seq<char>>)| row_ids(view.1))
}

/// The names of a list without repetitions, each at the place of its first
/// occurrence.
pub open spec fn unique(names: Seq<Seq<char>>) -> Seq<Seq<char>>
    decreases names.len(),
{
    if names.len() == 0 {
        Seq::empty()
    } else {
        let before = unique(names.drop_last());
        if before.contains(names.last()) {
            before
        } else {
            before.push(names.last())
        }
    }
}

/// `unique` keeps every name, adds none, and repeats none.
pub proof fn lemma_unique(names: Seq<Seq<char>>)
    ensures
        distinct_keys(unique(names)),
        forall|name: Seq<char>| unique(names).contains(name) <==> names.contains(name),
        unique(names).len() <= names.len(),
    decreases names.len(),
{
    if names.len() > 0 {
        let init = names.drop_last();
        let last = names.last();
        let before = unique(init);
        lemma_unique(init);
        assert forall|name: Seq<char>| unique(names).contains(name) <==> names.contains(
            name,
        ) by {
            if names.contains(name) {
                let i = choose|i: int| 0 <= i < names.len() && names[i] == name;
                if i < init.len() {
                    assert(init[i] == name);
                    assert(init.contains(name));
                    assert(before.contains(name));
                    let j = choose|j: int| 0 <= j < before.len() && before[j] == name;
                    assert(unique(names)[j] == name);
                } else if !before.contains(last) {
                    assert(unique(names)[before.len() as int] == name);
                }
            }
            if unique(names).contains(name) {
                let j = choose|j: int| 0 <= j < unique(names).len() && unique(names)[j] == name;
                if j < before.len() {
                    assert(before[j] == name);
                    assert(init.contains(name));
                    let i = choose|i: int| 0 <= i < init.len() && init[i] == name;
                    assert(names[i] == name);
                } else {
                    assert(names[names.len() - 1] == name);
                }
            }
        }
    }
}

/// Whether a name stands in a list.
pub fn contains_name(names: &Vec<String>, name: &String) -> (found: bool)
    ensures
        found == names.deep_view().contains(name@),
{
    let n = names.len();
    let mut i: usize = 0;
    while i < n
        invariant
            n == names@.len(),
            i <= n,
            forall|j: int| 0 <= j < i ==> names.deep_view()[j] != name@,
        decreases n - i,
    {
        if names[i] == *name {
            proof {
                assert(names.deep_view()[i as int] == name@);
            }
            return true;
        }
        i += 1;
    }
    false
}

/// Drops every name that stood in the list before.
pub fn unique_names(names: Vec<String>) -> (kept: Vec<String>)
    ensures
        kept.deep_view() == unique(names.deep_view()),
{
    let ghost all = names.deep_view();
    let mut kept: Vec<String> = Vec::new();
    proof {
        assert(kept.deep_view() =~= Seq::<Seq<char>>::empty());
        assert(all.take(0) =~= Seq::<Seq<char>>::empty());
    }
    for name in it: names
        invariant
            it.seq().len() == all.len(),
            forall|j: int| 0 <= j < all.len() ==> (#[trigger] it.seq()[j])@ == all[j],
            kept.deep_view() == unique(all.take(it.index())),
    {
        proof {
            assert(all.take(it.index() + 1).drop_last() =~= all.take(it.index()));
            assert(all.take(it.index() + 1).last() == name@);
        }
        if !contains_name(&kept, &name) {
            let ghost before = kept.deep_view();
            kept.push(name);
            proof {
                assert(kept.deep_view() =~= before.push(name@));
            }
        }
    }
    proof {
        assert(all.take(all.len() as int) =~= all);
    }
    kept
}

/// The button ids of some rows, row by row, as often as they occur.
pub fn row_button_ids(rows: &Vec<String>) -> (ids: Vec<String>)
    ensures
        ids.deep_view() == row_ids(rows.deep_view()),
{
    let ghost texts = rows.deep_view();
    let ghost f = |row: Seq<char>| words(row);
    let mut ids: Vec<String> = Vec::new();
    let n = rows.len();
    let mut i: usize = 0;
    proof {
        assert(ids.deep_view() =~= Seq::<Seq<char>>::empty());
        assert(texts.take(0) =~= Seq::<Seq<char>>::empty());
        lemma_flat_map_empty(f);
    }
    while i < n
        invariant
            n == rows@.len(),
            texts == rows.deep_view(),
            f == (|row: Seq<char>| words(row)),
            i <= n,
            ids.deep_view() == flat_map(texts.take(i as int), f),
        decreases n - i,
    {
        let mut found = split_ascii_whitespace(rows[i].as_str());
        let ghost before = ids.deep_view();
        let ghost added = found.deep_view();
        ids.append(&mut found);
        proof {
            assert(ids.deep_view() =~= before + added);
            lemma_flat_map_take(texts, i as int, f);
        }
        i += 1;
    }
    proof {
        assert(texts.take(n as int) =~= texts);
    }
    ids
}

impl Layout {
    /// The button ids of all views, view by view and row by row, as often
    /// as they occur.
    pub fn button_ids(&self) -> (ids: Vec<String>)
        ensures
            ids.deep_view() == all_ids(self@.views),
    {
        let ghost views = self@.views;
        let ghost f = |view: (Seq<char>, Seq<Seq<char>>)| row_ids(view.1);
        let mut ids: Vec<String> = Vec::new();
        let n = self.views.len();
        let mut i: usize = 0;
        proof {
            assert(ids.deep_view() =~= Seq::<Seq<char>>::empty());
            assert(views.take(0) =~= Seq::<(Seq<char>, Seq<Seq<char>>)>::empty());
            lemma_flat_map_empty(f);
        }
        while i < n
            invariant
                n == self.views@.len(),
                views == self@.views,
                f == (|view: (Seq<char>, Seq<Seq<char>>)| row_ids(view.1)),
                i <= n,
                ids.deep_view() == flat_map(views.take(i as int), f),
            decreases n - i,
        {
            let mut found = row_button_ids(self.views.value(i));
            let ghost before = ids.deep_view();
            let ghost added = found.deep_view();
            ids.append(&mut found);
            proof {
                assert(ids.deep_view() =~= before + added);
                assert(views[i as int].1 == self.views@[i as int].1.deep_view());
                lemma_flat_map_take(views, i as int, f);
            }
            i += 1;
        }
        proof {
            assert(views.take(n as int) =~= views);
        }
        ids
    }

    /// The button ids that the views use, each once, in the order in which
    /// they first occur.
    pub fn button_names(&self) -> (names: Vec<String>)
        ensures
            names.deep_view() == unique(all_ids(self@.views)),
    {
        unique_names(self.button_ids())
    }
}

} // verus!
