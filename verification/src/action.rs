//! Canonical actions, and how a button's declaration resolves to one.

use vstd::prelude::*;
use crate::document::{
    all_ids, lemma_unique, unique, Action as Declared, ActionModel as DeclaredModel, ButtonMeta,
    ButtonMetaModel, Layout, LayoutModel,
};
use crate::seqs::{flat_map, lemma_flat_map_contains, lemma_flat_map_empty, lemma_flat_map_take};
use crate::table::{keys_of, lemma_lookup_deep, lookup, Table};
use crate::text::{
    char_at, is_c_string, is_c_text, nul_error_debug, nul_error_debug_string, unicode_keysym,
    unicode_keysym_name,
};
use crate::util::{Sink, WarningHandler};

verus! {

/// The name of a keysym.
#[derive(Debug, PartialEq, Eq)]
pub struct KeySym(pub String);

impl View for KeySym {
    type V = Seq<char>;

    open spec fn view(&self) -> Seq<char> {
        self.0@
    }
}

impl DeepView for KeySym {
    type V = Seq<char>;

    open spec fn deep_view(&self) -> Seq<char> {
        self.0@
    }
}

impl Clone for KeySym {
    fn clone(&self) -> (copy: KeySym)
        ensures
            copy@ == self@,
    {
        KeySym(self.0.clone())
    }
}

/// What a button does when it is activated.
#[derive(Debug, PartialEq, Eq)]
pub enum Action {
    /// Switch to this view.
    SetLevel(String),
    /// Switch to `lock` and stay; switch to `unlock` on the next use.
    LockLevel { lock: String, unlock: String },
    /// Open the preferences.
    ShowPreferences,
    /// Submit some text, by input method where `text` is there, else
    /// through the listed keysyms.
    Submit { text: Option<String>, keys: Vec<KeySym> },
}

/// The mathematical model of an [`Action`].
pub enum ActionModel {
    SetLevel(Seq<char>),
    LockLevel { lock: Seq<char>, unlock: Seq<char> },
    ShowPreferences,
    Submit { text: Option<Seq<char>>, keys: Seq<Seq<char>> },
}

impl View for Action {
    type V = ActionModel;

    open spec fn view(&self) -> ActionModel {
        match *self {
            Action::SetLevel(view) => ActionModel::SetLevel(view@),
            Action::LockLevel { lock, unlock } => ActionModel::LockLevel {
                lock: lock@,
                unlock: unlock@,
            },
            Action::ShowPreferences => ActionModel::ShowPreferences,
            Action::Submit { text, keys } => ActionModel::Submit {
                text: match text {
                    Some(t) => Some(t@),
                    None => None,
                },
                keys: keys.deep_view(),
            },
        }
    }
}

impl DeepView for Action {
    type V = ActionModel;

    open spec fn deep_view(&self) -> ActionModel {
        self@
    }
}

impl Clone for Action {
    fn clone(&self) -> (copy: Action)
        ensures
            copy@ == self@,
    {
        match self {
            Action::SetLevel(view) => Action::SetLevel(view.clone()),
            Action::LockLevel { lock, unlock } => Action::LockLevel {
                lock: lock.clone(),
                unlock: unlock.clone(),
            },
            Action::ShowPreferences => Action::ShowPreferences,
            Action::Submit { text, keys } => {
                let mut copies: Vec<KeySym> = Vec::new();
                let n = keys.len();
                let mut i: usize = 0;
                while i < n
                    invariant
                        n == keys@.len(),
                        i <= n,
                        copies@.len() == i,
                        forall|j: int| 0 <= j < i ==> copies@[j]@ == keys@[j]@,
                    decreases n - i,
                {
                    copies.push(keys[i].clone());
                    i += 1;
                }
                proof {
                    assert(copies.deep_view() =~= keys.deep_view());
                }
                let text = match text {
                    Some(t) => Some(t.clone()),
                    None => None,
                };
                Action::Submit { text, keys: copies }
            },
        }
    }
}

impl ActionModel {
    /// The keysyms that the action needs a keycode for.
    pub open spec fn keys(self) -> Seq<Seq<char>> {
        match self {
            ActionModel::Submit { text, keys } => keys,
            _ => Seq::empty(),
        }
    }

    /// An action is well formed when the text it submits can be carried by
    /// a C string.
    pub open spec fn well_formed(self) -> bool {
        match self {
            ActionModel::Submit { text: Some(t), keys } => is_c_text(t),
            _ => true,
        }
    }
}

/// The keysym names that the keysym table resolves. A name that is not in
/// the set counts as unknown.
#[derive(Debug)]
pub struct KeysymSet {
    names: Vec<String>,
}

impl View for KeysymSet {
    type V = Set<Seq<char>>;

    closed spec fn view(&self) -> Set<Seq<char>> {
        Set::new(|name: Seq<char>| self.names.deep_view().contains(name))
    }
}

impl KeysymSet {
    pub fn new() -> (set: Self)
        ensures
            set@ == Set::<Seq<char>>::empty(),
    {
        let set = KeysymSet { names: Vec::new() };
        proof {
            assert(set@ =~= Set::<Seq<char>>::empty());
        }
        set
    }

    /// Records that a name resolves.
    pub fn insert(&mut self, name: String)
        ensures
            final(self)@ == old(self)@.insert(name@),
    {
        let ghost before = self.names.deep_view();
        self.names.push(name);
        proof {
            assert(self.names.deep_view() =~= before.push(name@));
            assert forall|n: Seq<char>| self@.contains(n) == old(self)@.insert(name@).contains(
                n,
            ) by {
                if before.push(name@).contains(n) {
                    let i = choose|i: int|
                        0 <= i < before.push(name@).len() && before.push(name@)[i] == n;
                    if i < before.len() {
                        assert(before[i] == n);
                    }
                } else {
                    assert(before.push(name@)[before.len() as int] == name@);
                    if before.contains(n) {
                        let i = choose|i: int| 0 <= i < before.len() && before[i] == n;
                        assert(before.push(name@)[i] == n);
                    }
                }
            }
            assert(self@ =~= old(self)@.insert(name@));
        }
    }

    /// Whether a name resolves.
    pub fn contains(&self, name: &str) -> (known: bool)
        ensures
            known == self@.contains(name@),
    {
        let wanted: String = name.to_owned();
        let n = self.names.len();
        let mut i: usize = 0;
        while i < n
            invariant
                n == self.names@.len(),
                wanted@ == name@,
                i <= n,
                forall|j: int| 0 <= j < i ==> self.names.deep_view()[j] != name@,
            decreases n - i,
        {
            if self.names[i] == wanted {
                proof {
                    assert(self.names.deep_view()[i as int] == name@);
                }
                return true;
            }
            i += 1;
        }
        false
    }

    /// Records what the keysym table answered for a name: the name
    /// resolves unless the answer is [`NO_SYMBOL`].
    pub fn record(&mut self, name: String, keysym: u32)
        ensures
            final(self)@ == if keysym != NO_SYMBOL {
                old(self)@.insert(name@)
            } else {
                old(self)@
            },
    {
        if keysym != NO_SYMBOL {
            self.insert(name);
        }
    }

    /// Finds out which of the candidates resolve, by looking each of them
    /// up in the keysym table. The table takes C strings, so a candidate
    /// with a NUL character in it is not looked up and does not resolve.
    ///
    /// Whatever the table answers: a name is in the set only if it is a
    /// candidate and the table gave a keysym for it, and a candidate is
    /// left out only if it could not be asked or the table gave none.
    pub fn from_lookup<F: Fn(&str) -> u32>(candidates: &Vec<String>, keysym_from_name: F) -> (set:
        KeysymSet)
        requires
            forall|name: &str| is_c_text(name@) ==> keysym_from_name.requires((name,)),
        ensures
            looked_up(set@, candidates.deep_view(), keysym_from_name),
    {
        let mut set = KeysymSet::new();
        let n = candidates.len();
        let mut i: usize = 0;
        while i < n
            invariant
                n == candidates@.len(),
                i <= n,
                forall|name: &str| is_c_text(name@) ==> keysym_from_name.requires((name,)),
                forall|name: Seq<char>| #[trigger]
                    set@.contains(name) ==> candidates.deep_view().contains(name) && is_c_text(
                        name,
                    ) && was_answered(keysym_from_name, name, true),
                forall|j: int|
                    0 <= j < i && !set@.contains(#[trigger] candidates.deep_view()[j])
                        && is_c_text(candidates.deep_view()[j]) ==> was_answered(
                        keysym_from_name,
                        candidates.deep_view()[j],
                        false,
                    ),
            decreases n - i,
        {
            let name = candidates[i].as_str();
            let ghost before = set@;
            proof {
                assert(candidates.deep_view()[i as int] == name@);
                assert(candidates.deep_view().contains(name@));
            }
            if is_c_string(name) {
                let keysym = keysym_from_name(name);
                proof {
                    assert(answer_for(keysym_from_name, name@, name, keysym));
                    assert(was_answered(keysym_from_name, name@, keysym != NO_SYMBOL));
                }
                set.record(candidates[i].clone(), keysym);
            }
            proof {
                assert forall|known: Seq<char>| #[trigger]
                    set@.contains(known) implies candidates.deep_view().contains(known)
                    && is_c_text(known) && was_answered(keysym_from_name, known, true) by {
                    if !before.contains(known) {
                        assert(known == name@);
                    }
                }
                assert forall|j: int|
                    0 <= j < i + 1 && !set@.contains(#[trigger] candidates.deep_view()[j])
                        && is_c_text(candidates.deep_view()[j]) implies was_answered(
                    keysym_from_name,
                    candidates.deep_view()[j],
                    false,
                ) by {
                    if j < i {
                        assert(!before.contains(candidates.deep_view()[j]));
                    }
                }
            }
            i += 1;
        }
        set
    }
}

/// The answer of the keysym table for a name that is no keysym.
pub const NO_SYMBOL: u32 = 0;

/// `keysym` is what a call of the lookup with `asked` returned, and `asked`
/// holds the text `name`.
pub open spec fn answer_for<F: Fn(&str) -> u32>(
    lookup: F,
    name: Seq<char>,
    asked: &str,
    keysym: u32,
) -> bool {
    asked@ == name && lookup.ensures((asked,), keysym)
}

/// The lookup was asked for `name`, and answered with a keysym (`found`) or
/// with none.
pub open spec fn was_answered<F: Fn(&str) -> u32>(lookup: F, name: Seq<char>, found: bool) -> bool {
    exists|asked: &str, keysym: u32| #[trigger]
        answer_for(lookup, name, asked, keysym) && found == (keysym != NO_SYMBOL)
}

/// `known` is what looking the candidates up has given, whatever the
/// lookup answered: a name is known only if it is a candidate that is a C
/// string and the lookup gave a keysym for it, and a candidate that is a C
/// string is unknown only if the lookup gave none for it.
pub open spec fn looked_up<F: Fn(&str) -> u32>(
    known: Set<Seq<char>>,
    candidates: Seq<Seq<char>>,
    lookup: F,
) -> bool {
    &&& forall|name: Seq<char>| #[trigger]
        known.contains(name) ==> candidates.contains(name) && is_c_text(name) && was_answered(
            lookup,
            name,
            true,
        )
    &&& forall|i: int|
        0 <= i < candidates.len() && !known.contains(#[trigger] candidates[i]) && is_c_text(
            candidates[i],
        ) ==> was_answered(lookup, candidates[i], false)
}

/// The view that a button switches to when the one it names does not exist.
pub open spec fn default_view() -> Seq<char> {
    "base"@
}

/// The keysym that stands in for one whose name does not resolve.
pub open spec fn placeholder_keysym() -> Seq<char> {
    "space"@
}

/// What a button declares, as one value: exactly one of a special action,
/// a keysym or a text. A button that declares none submits its own id; a
/// button that declares more than one submits the empty text.
pub enum Submission {
    Action(DeclaredModel),
    Keysym(Seq<char>),
    Text(Seq<char>),
}

/// Whether a button declares more than one of `action`, `keysym`, `text`.
pub open spec fn declares_too_much(meta: ButtonMetaModel) -> bool {
    ||| meta.action is Some && meta.keysym is Some
    ||| meta.action is Some && meta.text is Some
    ||| meta.keysym is Some && meta.text is Some
}

pub open spec fn submission(meta: ButtonMetaModel, name: Seq<char>) -> Submission {
    if declares_too_much(meta) {
        Submission::Text(Seq::empty())
    } else if meta.action is Some {
        Submission::Action(meta.action->0)
    } else if meta.keysym is Some {
        Submission::Keysym(meta.keysym->0)
    } else if meta.text is Some {
        Submission::Text(meta.text->0)
    } else {
        Submission::Text(name)
    }
}

/// A view name as an action may carry it: itself where the view exists,
/// else the default view.
pub open spec fn checked_view(view: Seq<char>, views: Seq<Seq<char>>) -> Seq<char> {
    if views.contains(view) {
        view
    } else {
        default_view()
    }
}

/// The keysym for one character of a text: the character itself where that
/// is a keysym name, else the name of its code point.
pub open spec fn char_keysym(c: char, keysyms: Set<Seq<char>>) -> Seq<char> {
    if keysyms.contains(seq![c]) {
        seq![c]
    } else {
        unicode_keysym(c)
    }
}

/// One keysym for each character of a text.
pub open spec fn text_keys(text: Seq<char>, keysyms: Set<Seq<char>>) -> Seq<Seq<char>> {
    Seq::new(text.len(), |i: int| char_keysym(text[i], keysyms))
}

/// The action that submits a text.
pub open spec fn text_submission(text: Seq<char>, keysyms: Set<Seq<char>>) -> ActionModel {
    ActionModel::Submit {
        text: if is_c_text(text) {
            Some(text)
        } else {
            None
        },
        keys: text_keys(text, keysyms),
    }
}

/// The canonical action of the button `name` with the declaration `meta`,
/// in a layout with the views `views`.
pub open spec fn resolve(
    meta: ButtonMetaModel,
    name: Seq<char>,
    views: Seq<Seq<char>>,
    keysyms: Set<Seq<char>>,
) -> ActionModel {
    match submission(meta, name) {
        Submission::Action(DeclaredModel::SetView(view)) => ActionModel::SetLevel(
            checked_view(view, views),
        ),
        Submission::Action(DeclaredModel::Locking { lock_view, unlock_view }) => {
            ActionModel::LockLevel {
                lock: checked_view(lock_view, views),
                unlock: checked_view(unlock_view, views),
            }
        },
        Submission::Action(DeclaredModel::ShowPrefs) => ActionModel::ShowPreferences,
        Submission::Keysym(keysym) => ActionModel::Submit {
            text: None,
            keys: seq![
                if keysyms.contains(keysym) {
                    keysym
                } else {
                    placeholder_keysym()
                },
            ],
        },
        Submission::Text(text) => text_submission(text, keysyms),
    }
}

pub open spec fn conflict_warning(name: Seq<char>) -> Seq<char> {
    "Button "@ + name + " has more than one of (action, keysym, text)"@
}

pub open spec fn missing_view_warning(name: Seq<char>, view: Seq<char>) -> Seq<char> {
    "Button "@ + name + " switches to missing view "@ + view
}

pub open spec fn invalid_keysym_warning(keysym: Seq<char>) -> Seq<char> {
    "Keysym name invalid: "@ + keysym
}

pub open spec fn bad_text_warning(text: Seq<char>) -> Seq<char> {
    "Text "@ + text + " contains problems: "@ + nul_error_debug(text)
}

/// The warnings that checking one view name raises.
pub open spec fn view_warnings(name: Seq<char>, view: Seq<char>, views: Seq<Seq<char>>) -> Seq<
    Seq<char>,
> {
    if views.contains(view) {
        Seq::empty()
    } else {
        seq![missing_view_warning(name, view)]
    }
}

/// The warnings that resolving a button raises, in the order in which they
/// are raised.
pub open spec fn resolve_warnings(
    meta: ButtonMetaModel,
    name: Seq<char>,
    views: Seq<Seq<char>>,
    keysyms: Set<Seq<char>>,
) -> Seq<Seq<char>> {
    let first: Seq<Seq<char>> = if declares_too_much(meta) {
        seq![conflict_warning(name)]
    } else {
        Seq::empty()
    };
    first + match submission(meta, name) {
        Submission::Action(DeclaredModel::SetView(view)) => view_warnings(name, view, views),
        Submission::Action(DeclaredModel::Locking { lock_view, unlock_view }) => view_warnings(
            name,
            lock_view,
            views,
        ) + view_warnings(name, unlock_view, views),
        Submission::Action(DeclaredModel::ShowPrefs) => Seq::empty(),
        Submission::Keysym(keysym) => if keysyms.contains(keysym) {
            Seq::empty()
        } else {
            seq![invalid_keysym_warning(keysym)]
        },
        Submission::Text(text) => if is_c_text(text) {
            Seq::empty()
        } else {
            seq![bad_text_warning(text)]
        },
    }
}

/// What a layout says about a button id: its entry, or nothing at all.
pub open spec fn button_meta(
    buttons: Seq<(Seq<char>, ButtonMetaModel)>,
    name: Seq<char>,
) -> ButtonMetaModel {
    match lookup(buttons, name) {
        Some(meta) => meta,
        None => ButtonMetaModel::empty(),
    }
}

/// A button that the layout says nothing about submits its own id, with
/// one keysym for each character of the id, and raises no warning. The id
/// must be a text that can be submitted: one without a NUL character.
pub proof fn lemma_undeclared_button(
    buttons: Seq<(Seq<char>, ButtonMetaModel)>,
    name: Seq<char>,
    views: Seq<Seq<char>>,
    keysyms: Set<Seq<char>>,
)
    requires
        lookup(buttons, name) is None,
        is_c_text(name),
    ensures
        resolve(button_meta(buttons, name), name, views, keysyms) == (ActionModel::Submit {
            text: Some(name),
            keys: text_keys(name, keysyms),
        }),
        text_keys(name, keysyms).len() == name.len(),
        forall|i: int|
            0 <= i < name.len() ==> #[trigger] text_keys(name, keysyms)[i] == char_keysym(
                name[i],
                keysyms,
            ),
        resolve_warnings(button_meta(buttons, name), name, views, keysyms) == Seq::<
            Seq<char>,
        >::empty(),
{
    assert(resolve_warnings(button_meta(buttons, name), name, views, keysyms) =~= Seq::<
        Seq<char>,
    >::empty());
}

/// A button that declares both a keysym and a text raises the warning
/// about conflicting declarations, and no other, and submits the empty
/// text without any keysym.
pub proof fn lemma_keysym_and_text(
    meta: ButtonMetaModel,
    name: Seq<char>,
    views: Seq<Seq<char>>,
    keysyms: Set<Seq<char>>,
)
    requires
        meta.keysym is Some,
        meta.text is Some,
    ensures
        resolve(meta, name, views, keysyms) == (ActionModel::Submit {
            text: Some(Seq::<char>::empty()),
            keys: Seq::<Seq<char>>::empty(),
        }),
        resolve_warnings(meta, name, views, keysyms) == seq![conflict_warning(name)],
{
    assert(is_c_text(Seq::<char>::empty()));
    assert(text_keys(Seq::<char>::empty(), keysyms) =~= Seq::<Seq<char>>::empty());
    assert(resolve_warnings(meta, name, views, keysyms) =~= seq![conflict_warning(name)]);
}

/// Every action that a declaration resolves to is well formed, and names
/// only views that exist or the default view.
pub proof fn lemma_resolve_is_valid(
    meta: ButtonMetaModel,
    name: Seq<char>,
    views: Seq<Seq<char>>,
    keysyms: Set<Seq<char>>,
)
    ensures
        resolve(meta, name, views, keysyms).well_formed(),
        match resolve(meta, name, views, keysyms) {
            ActionModel::SetLevel(view) => views.contains(view) || view == default_view(),
            ActionModel::LockLevel { lock, unlock } => (views.contains(lock) || lock
                == default_view()) && (views.contains(unlock) || unlock == default_view()),
            _ => true,
        },
{
}

/// Keeps a view name that exists, and replaces one that does not by the
/// default view, with a warning.
fn filter_view_name<H: WarningHandler>(
    button_name: &str,
    view_name: String,
    view_names: &Vec<&String>,
    warning_handler: &mut Sink<H>,
) -> (checked: String)
    ensures
        checked@ == checked_view(view_name@, view_names.deep_view()),
        final(warning_handler).seen() == old(warning_handler).seen() + view_warnings(
            button_name@,
            view_name@,
            view_names.deep_view(),
        ),
{
    let n = view_names.len();
    let mut i: usize = 0;
    while i < n
        invariant
            n == view_names@.len(),
            i <= n,
            forall|j: int| 0 <= j < i ==> view_names.deep_view()[j] != view_name@,
        decreases n - i,
    {
        if *view_names[i] == view_name {
            proof {
                assert(view_names.deep_view()[i as int] == view_name@);
                assert(warning_handler.seen() + Seq::<Seq<char>>::empty()
                    =~= warning_handler.seen());
            }
            return view_name;
        }
        i += 1;
    }
    let mut message: String = "Button ".to_owned();
    message.append(button_name);
    message.append(" switches to missing view ");
    message.append(view_name.as_str());
    warning_handler.warn(message.as_str());
    proof {
        assert(old(warning_handler).seen().push(message@) =~= old(warning_handler).seen()
            + seq![message@]);
    }
    "base".to_owned()
}

/// One keysym for each character of a text.
fn text_keysyms(text: &str, keysyms: &KeysymSet) -> (keys: Vec<KeySym>)
    ensures
        keys.deep_view() == text_keys(text@, keysyms@),
{
    let n: usize = text.unicode_len();
    let mut keys: Vec<KeySym> = Vec::new();
    let mut i: usize = 0;
    while i < n
        invariant
            n == text@.len(),
            i <= n,
            keys@.len() == i,
            forall|j: int| 0 <= j < i ==> keys@[j]@ == char_keysym(text@[j], keysyms@),
        decreases n - i,
    {
        let codepoint_string = char_at(text, i);
        let key = if keysyms.contains(codepoint_string.as_str()) {
            codepoint_string
        } else {
            unicode_keysym_name(text.get_char(i))
        };
        keys.push(KeySym(key));
        i += 1;
    }
    proof {
        assert(keys.deep_view() =~= text_keys(text@, keysyms@));
    }
    keys
}

/// The action that submits a text, with a warning where the text cannot be
/// carried.
fn submit_text<H: WarningHandler>(
    text: String,
    keysyms: &KeysymSet,
    warning_handler: &mut Sink<H>,
) -> (action: Action)
    ensures
        action@ == text_submission(text@, keysyms@),
        final(warning_handler).seen() == old(warning_handler).seen() + (if is_c_text(text@) {
            Seq::<Seq<char>>::empty()
        } else {
            seq![bad_text_warning(text@)]
        }),
{
    let keys = text_keysyms(text.as_str(), keysyms);
    if is_c_string(text.as_str()) {
        proof {
            assert(warning_handler.seen() + Seq::<Seq<char>>::empty() =~= warning_handler.seen());
        }
        Action::Submit { text: Some(text), keys }
    } else {
        let mut message: String = "Text ".to_owned();
        message.append(text.as_str());
        message.append(" contains problems: ");
        message.append(nul_error_debug_string(text.as_str()).as_str());
        warning_handler.warn(message.as_str());
        proof {
            assert(old(warning_handler).seen().push(message@) =~= old(warning_handler).seen()
                + seq![message@]);
        }
        Action::Submit { text: None, keys }
    }
}

/// Resolves what the layout declares about a button into its canonical
/// action. Anomalies in the declaration are reported to the warning handler
/// and replaced by defaults; an action always results.
pub fn create_action<H: WarningHandler>(
    button_info: &Table<ButtonMeta>,
    name: &str,
    view_names: Vec<&String>,
    keysyms: &KeysymSet,
    warning_handler: &mut Sink<H>,
) -> (action: Action)
    ensures
        action@ == resolve(
            button_meta(button_info.deep_view(), name@),
            name@,
            view_names.deep_view(),
            keysyms@,
        ),
        action@.well_formed(),
        final(warning_handler).seen() == old(warning_handler).seen() + resolve_warnings(
            button_meta(button_info.deep_view(), name@),
            name@,
            view_names.deep_view(),
            keysyms@,
        ),
{
    let default_meta = ButtonMeta::default();
    let symbol_meta = match button_info.get(name) {
        Some(meta) => meta,
        None => &default_meta,
    };
    proof {
        lemma_lookup_deep(button_info, name@);
        assert(symbol_meta@ == button_meta(button_info.deep_view(), name@));
    }
    let ghost meta = symbol_meta@;
    let ghost views = view_names.deep_view();
    let ghost seen = warning_handler.seen();
    let ghost nothing = Seq::<Seq<char>>::empty();

    match (&symbol_meta.action, &symbol_meta.keysym, &symbol_meta.text) {
        (Some(Declared::SetView(view_name)), None, None) => {
            proof {
                assert(nothing + view_warnings(name@, view_name@, views) =~= view_warnings(
                    name@,
                    view_name@,
                    views,
                ));
            }
            Action::SetLevel(
                filter_view_name(name, view_name.clone(), &view_names, warning_handler),
            )
        },
        (Some(Declared::Locking { lock_view, unlock_view }), None, None) => {
            let lock = filter_view_name(name, lock_view.clone(), &view_names, warning_handler);
            let unlock = filter_view_name(
                name,
                unlock_view.clone(),
                &view_names,
                warning_handler,
            );
            proof {
                let w1 = view_warnings(name@, lock_view@, views);
                let w2 = view_warnings(name@, unlock_view@, views);
                assert((seen + w1) + w2 =~= seen + (nothing + (w1 + w2)));
            }
            Action::LockLevel { lock, unlock }
        },
        (Some(Declared::ShowPrefs), None, None) => {
            proof {
                assert(seen + (nothing + nothing) =~= seen);
            }
            Action::ShowPreferences
        },
        (None, Some(keysym), None) => {
            let key = if keysyms.contains(keysym.as_str()) {
                proof {
                    assert(seen + (nothing + nothing) =~= seen);
                }
                keysym.clone()
            } else {
                let mut message: String = "Keysym name invalid: ".to_owned();
                message.append(keysym.as_str());
                warning_handler.warn(message.as_str());
                proof {
                    assert(seen.push(message@) =~= seen + (nothing + seq![message@]));
                }
                "space".to_owned()
            };
            let mut keys: Vec<KeySym> = Vec::new();
            keys.push(KeySym(key));
            proof {
                assert(keys.deep_view() =~= seq![key@]);
            }
            Action::Submit { text: None, keys }
        },
        (None, None, Some(text)) => {
            let action = submit_text(text.clone(), keysyms, warning_handler);
            proof {
                assert(forall|w: Seq<Seq<char>>| seen + w =~= seen + (nothing + w));
            }
            action
        },
        (None, None, None) => {
            let action = submit_text(name.to_owned(), keysyms, warning_handler);
            proof {
                assert(forall|w: Seq<Seq<char>>| seen + w =~= seen + (nothing + w));
            }
            action
        },
        _ => {
            let mut message: String = "Button ".to_owned();
            message.append(name);
            message.append(" has more than one of (action, keysym, text)");
            warning_handler.warn(message.as_str());
            let action = submit_text(String::new(), keysyms, warning_handler);
            proof {
                assert(declares_too_much(meta));
                assert(is_c_text(Seq::<char>::empty()));
                assert((seen.push(message@)) + nothing =~= seen + (seq![message@] + nothing));
            }
            action
        },
    }
}

/// The canonical action of every button id that the views of a layout use,
/// each id once, in the order in which the ids first occur.
pub open spec fn resolved_actions(layout: LayoutModel, keysyms: Set<Seq<char>>) -> Seq<
    (Seq<char>, ActionModel),
> {
    let ids = unique(all_ids(layout.views));
    Seq::new(
        ids.len(),
        |i: int|
            (
                ids[i],
                resolve(
                    button_meta(layout.buttons, ids[i]),
                    ids[i],
                    keys_of(layout.views),
                    keysyms,
                ),
            ),
    )
}

/// The warnings that resolving the buttons of a layout raises, in order.
pub open spec fn resolution_warnings(layout: LayoutModel, keysyms: Set<Seq<char>>) -> Seq<
    Seq<char>,
> {
    flat_map(
        unique(all_ids(layout.views)),
        |id: Seq<char>|
            resolve_warnings(
                button_meta(layout.buttons, id),
                id,
                keys_of(layout.views),
                keysyms,
            ),
    )
}

impl Layout {
    /// The names of the views, in order.
    pub fn view_names(&self) -> (names: Vec<&String>)
        ensures
            names.deep_view() == keys_of(self@.views),
    {
        let n = self.views.len();
        let mut names: Vec<&String> = Vec::new();
        let mut i: usize = 0;
        while i < n
            invariant
                n == self.views@.len(),
                i <= n,
                names@.len() == i,
                forall|j: int| 0 <= j < i ==> names@[j]@ == self.views@[j].0,
            decreases n - i,
        {
            names.push(self.views.key(i));
            i += 1;
        }
        proof {
            assert(names.deep_view() =~= keys_of(self@.views));
        }
        names
    }

    /// Resolves every button id that the views use into its canonical
    /// action. Each id is resolved once, however often it occurs.
    pub fn resolve_actions<H: WarningHandler>(
        &self,
        keysyms: &KeysymSet,
        warning_handler: &mut Sink<H>,
    ) -> (actions: Table<Action>)
        ensures
            actions.deep_view() == resolved_actions(self@, keysyms@),
            final(warning_handler).seen() == old(warning_handler).seen() + resolution_warnings(
                self@,
                keysyms@,
            ),
    {
        let names = self.button_names();
        let ghost ids = names.deep_view();
        let ghost views = keys_of(self@.views);
        let ghost buttons = self@.buttons;
        let ghost f = |id: Seq<char>|
            resolve_warnings(button_meta(buttons, id), id, views, keysyms@);
        let ghost seen = warning_handler.seen();
        let mut entries: Vec<(String, Action)> = Vec::new();
        proof {
            lemma_flat_map_empty(f);
            assert(ids.take(0) =~= Seq::<Seq<char>>::empty());
            assert(seen + Seq::<Seq<char>>::empty() =~= seen);
        }
        for name in it: names
            invariant
                it.seq().len() == ids.len(),
                forall|j: int| 0 <= j < ids.len() ==> (#[trigger] it.seq()[j])@ == ids[j],
                views == keys_of(self@.views),
                buttons == self@.buttons,
                buttons == self.buttons.deep_view(),
                f == (|id: Seq<char>|
                    resolve_warnings(button_meta(buttons, id), id, views, keysyms@)),
                entries@.len() == it.index(),
                forall|j: int|
                    0 <= j < it.index() ==> (#[trigger] entries@[j]).0@ == ids[j] && entries@[j].1@
                        == resolve(button_meta(buttons, ids[j]), ids[j], views, keysyms@),
                warning_handler.seen() == seen + flat_map(ids.take(it.index()), f),
        {
            let action = create_action(
                &self.buttons,
                name.as_str(),
                self.view_names(),
                keysyms,
                warning_handler,
            );
            proof {
                lemma_flat_map_take(ids, it.index(), f);
                assert((seen + flat_map(ids.take(it.index()), f)) + f(name@) =~= seen + (flat_map(
                    ids.take(it.index()),
                    f,
                ) + f(name@)));
            }
            entries.push((name, action));
        }
        proof {
            assert(ids.take(ids.len() as int) =~= ids);
            lemma_unique(all_ids(self@.views));
            assert(Seq::new(entries@.len(), |i: int| entries@[i].0@) =~= ids);
        }
        let actions = Table::from_distinct(entries);
        proof {
            assert(actions.deep_view() =~= resolved_actions(self@, keysyms@));
        }
        actions
    }
}

/// The names whose standing as keysyms decides how a button resolves: the
/// keysym that the button declares, or each character of the text that it
/// submits.
pub open spec fn candidates_of(meta: ButtonMetaModel, name: Seq<char>) -> Seq<Seq<char>> {
    match submission(meta, name) {
        Submission::Keysym(keysym) => seq![keysym],
        Submission::Text(text) => Seq::new(text.len(), |i: int| seq![text[i]]),
        Submission::Action(_) => Seq::empty(),
    }
}

/// The names whose standing as keysyms decides how the buttons of a layout
/// resolve.
pub open spec fn keysym_candidates(layout: LayoutModel) -> Seq<Seq<char>> {
    flat_map(
        unique(all_ids(layout.views)),
        |id: Seq<char>| candidates_of(button_meta(layout.buttons, id), id),
    )
}

/// A button resolves alike under two sets of keysyms that agree on the
/// button's candidates.
pub proof fn lemma_candidates_decide(
    meta: ButtonMetaModel,
    name: Seq<char>,
    views: Seq<Seq<char>>,
    first: Set<Seq<char>>,
    second: Set<Seq<char>>,
)
    requires
        forall|i: int|
            0 <= i < candidates_of(meta, name).len() ==> first.contains(
                #[trigger] candidates_of(meta, name)[i],
            ) == second.contains(candidates_of(meta, name)[i]),
    ensures
        resolve(meta, name, views, first) == resolve(meta, name, views, second),
        resolve_warnings(meta, name, views, first) == resolve_warnings(meta, name, views, second),
{
    match submission(meta, name) {
        Submission::Keysym(keysym) => {
            assert(candidates_of(meta, name)[0] == keysym);
        },
        Submission::Text(text) => {
            assert forall|i: int| 0 <= i < text.len() implies char_keysym(text[i], first)
                == char_keysym(text[i], second) by {
                assert(candidates_of(meta, name)[i] == seq![text[i]]);
            }
            assert(text_keys(text, first) =~= text_keys(text, second));
        },
        Submission::Action(_) => {},
    }
}

/// To resolve the buttons of a layout, it is enough to know of each
/// candidate whether it is a keysym: two sets of keysyms that agree on the
/// layout's candidates give the same actions and raise the same warnings.
pub proof fn lemma_candidates_suffice(
    layout: LayoutModel,
    first: Set<Seq<char>>,
    second: Set<Seq<char>>,
)
    requires
        forall|name: Seq<char>|
            keysym_candidates(layout).contains(name) ==> first.contains(name) == second.contains(
                name,
            ),
    ensures
        resolved_actions(layout, first) == resolved_actions(layout, second),
        resolution_warnings(layout, first) == resolution_warnings(layout, second),
{
    let ids = unique(all_ids(layout.views));
    let views = keys_of(layout.views);
    let c = |id: Seq<char>| candidates_of(button_meta(layout.buttons, id), id);
    let w1 = |id: Seq<char>| resolve_warnings(button_meta(layout.buttons, id), id, views, first);
    let w2 = |id: Seq<char>| resolve_warnings(button_meta(layout.buttons, id), id, views, second);
    assert forall|k: int| 0 <= k < ids.len() implies resolve(
        button_meta(layout.buttons, ids[k]),
        ids[k],
        views,
        first,
    ) == resolve(button_meta(layout.buttons, ids[k]), ids[k], views, second) && w1(ids[k]) == w2(
        ids[k],
    ) by {
        lemma_flat_map_contains(ids, k, c);
        let meta = button_meta(layout.buttons, ids[k]);
        assert forall|i: int| 0 <= i < candidates_of(meta, ids[k]).len() implies first.contains(
            #[trigger] candidates_of(meta, ids[k])[i],
        ) == second.contains(candidates_of(meta, ids[k])[i]) by {
            assert(keysym_candidates(layout).contains(c(ids[k])[i]));
        }
        lemma_candidates_decide(meta, ids[k], views, first, second);
    }
    assert(resolved_actions(layout, first) =~= resolved_actions(layout, second));
    assert(ids.map_values(w1) =~= ids.map_values(w2));
}

impl Layout {
    /// Finds out which keysyms the compiler must know of: looks up, in the
    /// keysym table, each name that decides how the buttons resolve.
    pub fn known_keysyms<F: Fn(&str) -> u32>(&self, keysym_from_name: F) -> (known: KeysymSet)
        requires
            forall|name: &str| is_c_text(name@) ==> keysym_from_name.requires((name,)),
        ensures
            looked_up(known@, keysym_candidates(self@), keysym_from_name),
    {
        let candidates = self.keysym_candidates();
        KeysymSet::from_lookup(&candidates, keysym_from_name)
    }

    /// Lists the names of which the compiler must know whether they are
    /// keysyms: those that decide how the buttons resolve.
    pub fn keysym_candidates(&self) -> (candidates: Vec<String>)
        ensures
            candidates.deep_view() == keysym_candidates(self@),
    {
        let names = self.button_names();
        let ghost ids = names.deep_view();
        let ghost buttons = self@.buttons;
        let ghost f = |id: Seq<char>| candidates_of(button_meta(buttons, id), id);
        let mut candidates: Vec<String> = Vec::new();
        let n = names.len();
        let mut i: usize = 0;
        proof {
            lemma_flat_map_empty(f);
            assert(ids.take(0) =~= Seq::<Seq<char>>::empty());
            assert(candidates.deep_view() =~= Seq::<Seq<char>>::empty());
        }
        while i < n
            invariant
                ids == names.deep_view(),
                n == names@.len(),
                i <= n,
                buttons == self.buttons.deep_view(),
                f == (|id: Seq<char>| candidates_of(button_meta(buttons, id), id)),
                candidates.deep_view() == flat_map(ids.take(i as int), f),
            decreases n - i,
        {
            let name = names[i].as_str();
            let default_meta = ButtonMeta::default();
            let meta = match self.buttons.get(name) {
                Some(meta) => meta,
                None => &default_meta,
            };
            let ghost before = candidates.deep_view();
            proof {
                lemma_lookup_deep(&self.buttons, name@);
                lemma_flat_map_take(ids, i as int, f);
                assert(meta@ == button_meta(buttons, name@));
            }
            match (&meta.action, &meta.keysym, &meta.text) {
                (None, Some(keysym), None) => {
                    candidates.push(keysym.clone());
                    proof {
                        assert(candidates.deep_view() =~= before + seq![keysym@]);
                    }
                },
                (None, None, Some(text)) => {
                    push_characters(&mut candidates, text.as_str());
                },
                (None, None, None) => {
                    push_characters(&mut candidates, name);
                },
                (Some(_), None, None) => {
                    proof {
                        assert(before + Seq::<Seq<char>>::empty() =~= before);
                    }
                },
                _ => {
                    proof {
                        assert(declares_too_much(meta@));
                        assert(before + Seq::new(0, |i: int| seq![Seq::<char>::empty()[i]])
                            =~= before);
                    }
                },
            }
            i += 1;
        }
        proof {
            assert(ids.take(n as int) =~= ids);
        }
        candidates
    }
}

/// Adds each character of a text, as a string of its own.
fn push_characters(candidates: &mut Vec<String>, text: &str)
    ensures
        final(candidates).deep_view() == old(candidates).deep_view() + Seq::new(
            text@.len(),
            |i: int| seq![text@[i]],
        ),
{
    let ghost before = candidates.deep_view();
    let n: usize = text.unicode_len();
    let mut i: usize = 0;
    proof {
        assert(before + Seq::new(0, |i: int| seq![text@[i]]) =~= before);
    }
    while i < n
        invariant
            n == text@.len(),
            i <= n,
            candidates.deep_view() == before + Seq::new(i as nat, |i: int| seq![text@[i]]),
        decreases n - i,
    {
        let ghost so_far = candidates.deep_view();
        let one = char_at(text, i);
        candidates.push(one);
        proof {
            assert(candidates.deep_view() =~= so_far.push(seq![text@[i as int]]));
            assert(so_far.push(seq![text@[i as int]]) =~= before + Seq::new(
                (i + 1) as nat,
                |i: int| seq![text@[i]],
            ));
        }
        i += 1;
    }
}

} // verus!
