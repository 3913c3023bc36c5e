//! The two halves of keymap compilation that stand around the keycode
//! generator: listing the keysyms that need a keycode, and binding the
//! keycodes that were allocated back into the state of each key.

use vstd::prelude::*;
use crate::action::{Action, ActionModel};
use crate::layout::{KeyState, KeyStateModel};
use crate::seqs::{flat_map, lemma_flat_map_empty, lemma_flat_map_take};
use crate::table::{keys_of, lemma_lookup_deep, lookup, Table};

verus! {

/// The keymap text could not be generated.
#[derive(Debug, PartialEq, Eq)]
pub struct FormattingError {
    /// What the generator said.
    pub message: String,
}

/// The keycode generator left out a keysym that it was asked for.
#[derive(Debug, PartialEq, Eq)]
pub struct MissingKeycode {
    /// The keysym without a keycode.
    pub keysym: String,
    /// The button that needs it.
    pub button: String,
}

impl MissingKeycode {
    pub open spec fn message_text(keysym: Seq<char>, button: Seq<char>) -> Seq<char> {
        "keycode "@ + keysym + " in key "@ + button + " missing from keymap"@
    }

    /// The error in words.
    pub fn message(&self) -> (text: String)
        ensures
            text@ == Self::message_text(self.keysym@, self.button@),
    {
        let mut text: String = "keycode ".to_owned();
        text.append(self.keysym.as_str());
        text.append(" in key ");
        text.append(self.button.as_str());
        text.append(" missing from keymap");
        text
    }
}

/// The keysyms that need a keycode: those of every action, in order, each
/// as often as it occurs.
pub open spec fn required_keysyms(actions: Seq<(Seq<char>, ActionModel)>) -> Seq<Seq<char>> {
    flat_map(actions, |entry: (Seq<char>, ActionModel)| entry.1.keys())
}

/// Lists the keysyms that the keycode generator must allocate keycodes for.
pub fn collect_keysyms(actions: &Table<Action>) -> (keysyms: Vec<String>)
    ensures
        keysyms.deep_view() == required_keysyms(actions.deep_view()),
{
    let ghost all = actions.deep_view();
    let ghost f = |entry: (Seq<char>, ActionModel)| entry.1.keys();
    let mut keysyms: Vec<String> = Vec::new();
    let n = actions.len();
    let mut i: usize = 0;
    proof {
        lemma_flat_map_empty(f);
        assert(all.take(0) =~= Seq::<(Seq<char>, ActionModel)>::empty());
        assert(keysyms.deep_view() =~= Seq::<Seq<char>>::empty());
    }
    while i < n
        invariant
            n == actions@.len(),
            all == actions.deep_view(),
            f == (|entry: (Seq<char>, ActionModel)| entry.1.keys()),
            i <= n,
            keysyms.deep_view() == flat_map(all.take(i as int), f),
        decreases n - i,
    {
        let ghost before = keysyms.deep_view();
        proof {
            lemma_flat_map_take(all, i as int, f);
            assert(all[i as int].1 == actions@[i as int].1@);
        }
        match actions.value(i) {
            Action::Submit { text: _, keys } => {
                let m = keys.len();
                let mut j: usize = 0;
                proof {
                    assert(before + keys.deep_view().take(0) =~= before);
                }
                while j < m
                    invariant
                        m == keys@.len(),
                        j <= m,
                        keysyms.deep_view() == before + keys.deep_view().take(j as int),
                    decreases m - j,
                {
                    let ghost so_far = keysyms.deep_view();
                    keysyms.push(keys[j].0.clone());
                    proof {
                        assert(keysyms.deep_view() =~= so_far.push(keys@[j as int]@));
                        assert(keys.deep_view().take(j + 1) =~= keys.deep_view().take(
                            j as int,
                        ).push(keys@[j as int]@));
                        assert(before + keys.deep_view().take(j + 1) =~= so_far.push(
                            keys@[j as int]@,
                        ));
                    }
                    j += 1;
                }
                proof {
                    assert(keys.deep_view().take(m as int) =~= keys.deep_view());
                }
            },
            _ => {
                proof {
                    assert(before + Seq::<Seq<char>>::empty() =~= before);
                }
            },
        }
        i += 1;
    }
    proof {
        assert(all.take(n as int) =~= all);
    }
    keysyms
}

/// Whether every keysym of the list has a keycode.
pub open spec fn has_keycodes(keys: Seq<Seq<char>>, keymap: Seq<(Seq<char>, u32)>) -> bool {
    forall|j: int| 0 <= j < keys.len() ==> lookup(keymap, #[trigger] keys[j]) is Some
}

/// Whether every keysym of every action has a keycode.
pub open spec fn covers(keymap: Seq<(Seq<char>, u32)>, actions: Seq<(Seq<char>, ActionModel)>) -> bool {
    forall|i: int| 0 <= i < actions.len() ==> has_keycodes((#[trigger] actions[i]).1.keys(), keymap)
}

/// The keycodes of some keysyms, one for one.
pub open spec fn keycodes_of(keys: Seq<Seq<char>>, keymap: Seq<(Seq<char>, u32)>) -> Seq<u32> {
    Seq::new(
        keys.len(),
        |j: int|
            match lookup(keymap, keys[j]) {
                Some(code) => code,
                None => 0,
            },
    )
}

/// The state that a key starts in: released, unlocked, with the keycodes
/// of its action's keysyms.
pub open spec fn initial_state(action: ActionModel, keymap: Seq<(Seq<char>, u32)>) -> KeyStateModel {
    KeyStateModel {
        pressed: false,
        locked: false,
        keycodes: keycodes_of(action.keys(), keymap),
        action,
    }
}

/// The initial state of every key, under the name of its button.
pub open spec fn initial_states(
    actions: Seq<(Seq<char>, ActionModel)>,
    keymap: Seq<(Seq<char>, u32)>,
) -> Seq<(Seq<char>, KeyStateModel)> {
    Seq::new(actions.len(), |i: int| (actions[i].0, initial_state(actions[i].1, keymap)))
}

/// The keysym at place `j` of action `i` is the first one without a
/// keycode.
pub open spec fn is_first_missing(
    actions: Seq<(Seq<char>, ActionModel)>,
    keymap: Seq<(Seq<char>, u32)>,
    i: int,
    j: int,
) -> bool {
    &&& 0 <= i < actions.len()
    &&& 0 <= j < actions[i].1.keys().len()
    &&& lookup(keymap, actions[i].1.keys()[j]) is None
    &&& has_keycodes(actions[i].1.keys().take(j), keymap)
    &&& covers(keymap, actions.take(i))
}

/// Looks up the keycode of each keysym; stops at the first that has none
/// and returns its place.
fn find_keycodes(keys: &Vec<crate::action::KeySym>, keymap: &Table<u32>) -> (found: Result<
    Vec<u32>,
    usize,
>)
    ensures
        match found {
            Ok(codes) => has_keycodes(keys.deep_view(), keymap.deep_view()) && codes@
                == keycodes_of(keys.deep_view(), keymap.deep_view()),
            Err(j) => j < keys@.len() && lookup(keymap.deep_view(), keys.deep_view()[j as int])
                is None && has_keycodes(keys.deep_view().take(j as int), keymap.deep_view()),
        },
{
    let n = keys.len();
    let mut codes: Vec<u32> = Vec::new();
    let mut j: usize = 0;
    while j < n
        invariant
            n == keys@.len(),
            j <= n,
            codes@.len() == j,
            forall|k: int|
                0 <= k < j ==> lookup(keymap.deep_view(), #[trigger] keys.deep_view()[k]) == Some(
                    codes@[k],
                ),
        decreases n - j,
    {
        proof {
            lemma_lookup_deep(keymap, keys@[j as int]@);
        }
        match keymap.get(keys[j].0.as_str()) {
            Some(code) => {
                codes.push(*code);
            },
            None => {
                proof {
                    assert forall|k: int| 0 <= k < j implies lookup(
                        keymap.deep_view(),
                        #[trigger] keys.deep_view().take(j as int)[k],
                    ) is Some by {
                        assert(keys.deep_view().take(j as int)[k] == keys.deep_view()[k]);
                    }
                }
                return Err(j);
            },
        }
        j += 1;
    }
    proof {
        assert(codes@ =~= keycodes_of(keys.deep_view(), keymap.deep_view()));
    }
    Ok(codes)
}

/// Gives every key its initial state, with the keycodes that the generator
/// allocated. Fails at the first keysym that the generator left out.
pub fn bind_keycodes(actions: Table<Action>, keymap: &Table<u32>) -> (bound: Result<
    Table<KeyState>,
    MissingKeycode,
>)
    ensures
        match bound {
            Ok(states) => {
                &&& covers(keymap.deep_view(), actions.deep_view())
                &&& states.deep_view() == initial_states(actions.deep_view(), keymap.deep_view())
            },
            Err(missing) => exists|i: int, j: int|
                {
                    &&& is_first_missing(actions.deep_view(), keymap.deep_view(), i, j)
                    &&& missing.button@ == actions.deep_view()[i].0
                    &&& missing.keysym@ == actions.deep_view()[i].1.keys()[j]
                },
        },
{
    let ghost all = actions.deep_view();
    let ghost codes = keymap.deep_view();
    let entries = actions.into_entries();
    let mut states: Vec<(String, KeyState)> = Vec::new();
    for entry in it: entries
        invariant
            it.seq().len() == all.len(),
            forall|i: int|
                0 <= i < all.len() ==> (#[trigger] it.seq()[i]).0@ == all[i].0 && it.seq()[i].1@
                    == all[i].1,
            codes == keymap.deep_view(),
            all == actions.deep_view(),
            states@.len() == it.index(),
            forall|i: int|
                0 <= i < it.index() ==> (#[trigger] states@[i]).0@ == all[i].0 && states@[i].1@
                    == initial_state(all[i].1, codes),
            forall|i: int| 0 <= i < it.index() ==> has_keycodes((#[trigger] all[i]).1.keys(), codes),
    {
        let (name, action) = entry;
        let ghost i = it.index();
        let keycodes = match &action {
            Action::Submit { text: _, keys } => {
                match find_keycodes(keys, keymap) {
                    Ok(found) => found,
                    Err(j) => {
                        proof {
                            assert forall|k: int| 0 <= k < all.take(i).len() implies has_keycodes(
                                (#[trigger] all.take(i)[k]).1.keys(),
                                codes,
                            ) by {
                                assert(all.take(i)[k] == all[k]);
                            }
                            assert(all[i].1.keys() == keys.deep_view());
                            assert(is_first_missing(all, codes, i, j as int));
                        }
                        let missing = MissingKeycode { keysym: keys[j].0.clone(), button: name };
                        proof {
                            assert(missing.button@ == all[i].0);
                            assert(missing.keysym@ == all[i].1.keys()[j as int]);
                        }
                        return Err(missing);
                    },
                }
            },
            _ => Vec::new(),
        };
        proof {
            assert(keycodes@ =~= keycodes_of(all[i].1.keys(), codes));
        }
        states.push((name, KeyState { pressed: false, locked: false, keycodes, action }));
    }
    proof {
        assert(Seq::new(states@.len(), |i: int| states@[i].0@) =~= keys_of(all));
        assert(keys_of(all) =~= keys_of(actions@));
    }
    let table = Table::from_distinct(states);
    proof {
        assert(table.deep_view() =~= initial_states(all, codes));
    }
    Ok(table)
}

} // verus!
