//! Assembling the compiled layout: one button for each place at which a
//! button id stands in a row, all buttons of one id bound to one cell.

use vstd::prelude::*;
use crate::action::{
    button_meta, keysym_candidates, looked_up, resolution_warnings, resolved_actions, ActionModel,
    KeysymSet,
};
use crate::document::{all_ids, lemma_unique, row_ids, unique, Layout, LayoutModel};
use crate::keymap::{
    bind_keycodes, collect_keysyms, covers, has_keycodes, initial_states, required_keysyms,
    FormattingError,
};
use crate::layout::{
    button_for, button_warnings, cell_model, create_button, Button, ButtonModel, KeyState,
    KeyStateModel, KeyboardView, KeyboardViewModel, LayoutData, LayoutDataModel, Row, RowModel,
};
use crate::seqs::{
    flat_map, lemma_flat_map_concat, lemma_flat_map_contains, lemma_flat_map_empty,
    lemma_flat_map_take,
};
use crate::shared::{CKeyState, CellModel, KeyRef, KeyTable};
use crate::table::{find_name, keys_of, lemma_position, lookup, position, Table};
use crate::text::{is_c_text, split_ascii_whitespace, words};
use crate::util::{Sink, WarningHandler};

verus! {

/// The place of the state that a button id is bound to.
pub open spec fn place_of(keys: Seq<Seq<char>>, id: Seq<char>) -> int {
    match position(keys, id) {
        Some(place) => place,
        None => -1,
    }
}

/// One button for each id, in order.
pub open spec fn buttons_for(layout: LayoutModel, keys: Seq<Seq<char>>, ids: Seq<Seq<char>>) -> Seq<
    ButtonModel,
> {
    Seq::new(
        ids.len(),
        |k: int|
            button_for(
                button_meta(layout.buttons, ids[k]),
                ids[k],
                layout.outlines,
                place_of(keys, ids[k]),
            ),
    )
}

/// The row that a row of the document compiles to.
pub open spec fn row_for(layout: LayoutModel, keys: Seq<Seq<char>>, row: Seq<char>) -> RowModel {
    RowModel { angle: 0, bounds: None, buttons: buttons_for(layout, keys, words(row)) }
}

/// The view that the rows of a view of the document compile to.
pub open spec fn view_for(
    layout: LayoutModel,
    keys: Seq<Seq<char>>,
    rows: Seq<Seq<char>>,
) -> KeyboardViewModel {
    KeyboardViewModel {
        bounds: layout.bounds,
        rows: Seq::new(rows.len(), |j: int| row_for(layout, keys, rows[j])),
    }
}

/// The views of the compiled layout, under their names and in the order of
/// the document.
pub open spec fn views_for(layout: LayoutModel, keys: Seq<Seq<char>>) -> Seq<
    (Seq<char>, KeyboardViewModel),
> {
    Seq::new(
        layout.views.len(),
        |i: int| (layout.views[i].0, view_for(layout, keys, layout.views[i].1)),
    )
}

/// The warnings that making the buttons of these ids raises, in order.
pub open spec fn ids_warnings(layout: LayoutModel, ids: Seq<Seq<char>>) -> Seq<Seq<char>> {
    flat_map(
        ids,
        |id: Seq<char>| button_warnings(button_meta(layout.buttons, id), id, layout.outlines),
    )
}

/// The warnings that assembling a layout raises, in order.
pub open spec fn assembly_warnings(layout: LayoutModel) -> Seq<Seq<char>> {
    ids_warnings(layout, all_ids(layout.views))
}

/// How many of the ids are bound to the state at `place`.
pub open spec fn references(ids: Seq<Seq<char>>, keys: Seq<Seq<char>>, place: int) -> nat
    decreases ids.len(),
{
    if ids.len() == 0 {
        0
    } else {
        references(ids.drop_last(), keys, place) + if position(keys, ids.last()) == Some(place) {
            1nat
        } else {
            0nat
        }
    }
}

/// The cell of a state in a compiled layout: held once by each button that
/// refers to it, accessed by nobody; free if no button refers to it.
pub open spec fn built_cell(state: KeyStateModel, holders: nat) -> CellModel<KeyStateModel> {
    if holders == 0 {
        CellModel::free()
    } else {
        CellModel { holders, readers: 0, writing: false, state: Some(state) }
    }
}

/// The cells of a compiled layout, one for each state, in order.
pub open spec fn built_cells(states: Seq<(Seq<char>, KeyStateModel)>, ids: Seq<Seq<char>>) -> Seq<
    CellModel<KeyStateModel>,
> {
    Seq::new(
        states.len(),
        |place: int| built_cell(states[place].1, references(ids, keys_of(states), place)),
    )
}

/// Whether there is a state for every button id that the views use.
pub open spec fn has_states(layout: LayoutModel, keys: Seq<Seq<char>>) -> bool {
    forall|id: Seq<char>| all_ids(layout.views).contains(id) ==> position(keys, id) is Some
}

/// The compiled layout of a document, given the states of its keys and the
/// keymap text.
pub open spec fn layout_data(
    layout: LayoutModel,
    states: Seq<(Seq<char>, KeyStateModel)>,
    keymap_str: Seq<char>,
) -> LayoutDataModel {
    LayoutDataModel {
        views: views_for(layout, keys_of(states)),
        keymap_str,
        states: built_cells(states, all_ids(layout.views)),
    }
}

/// The layout that a document compiles to, given the keysyms that resolve,
/// the keycodes that were allocated and the keymap text.
pub open spec fn compiled(
    layout: LayoutModel,
    keysyms: Set<Seq<char>>,
    keymap: Seq<(Seq<char>, u32)>,
    keymap_str: Seq<char>,
) -> LayoutDataModel {
    layout_data(
        layout,
        crate::keymap::initial_states(crate::action::resolved_actions(layout, keysyms), keymap),
        keymap_str,
    )
}

pub proof fn lemma_references_push(ids: Seq<Seq<char>>, id: Seq<char>, keys: Seq<Seq<char>>, place: int)
    ensures
        references(ids.push(id), keys, place) == references(ids, keys, place) + if position(
            keys,
            id,
        ) == Some(place) {
            1nat
        } else {
            0nat
        },
{
    assert(ids.push(id).drop_last() =~= ids);
}

/// No more ids are bound to a state than there are ids.
pub proof fn lemma_references_bound(ids: Seq<Seq<char>>, keys: Seq<Seq<char>>, place: int)
    ensures
        references(ids, keys, place) <= ids.len(),
    decreases ids.len(),
{
    if ids.len() > 0 {
        lemma_references_bound(ids.drop_last(), keys, place);
    }
}

pub proof fn lemma_ids_warnings_concat(layout: LayoutModel, a: Seq<Seq<char>>, b: Seq<Seq<char>>)
    ensures
        ids_warnings(layout, a + b) == ids_warnings(layout, a) + ids_warnings(layout, b),
{
    lemma_flat_map_concat(
        a,
        b,
        |id: Seq<char>| button_warnings(button_meta(layout.buttons, id), id, layout.outlines),
    );
}

/// The cell of a state that `n` buttons refer to stays live, with the state
/// in it, while fewer than `n` of the buttons have let go; the `n`-th
/// release, and no other, frees it; and after that nothing more can be
/// released.
pub proof fn lemma_built_cell_freed_once(state: KeyStateModel, n: nat, k: nat)
    requires
        n > 0,
    ensures
        ({
            let after = built_cell(state, n).released_times(k);
            &&& k < n ==> after.is_live() && after.state == Some(state) && after.can_release()
            &&& k < n ==> (after.frees() <==> k + 1 == n)
            &&& k >= n ==> after == CellModel::<KeyStateModel>::free() && !after.can_release()
        }),
{
    crate::shared::lemma_released_times(built_cell(state, n), k);
}

/// Compiling is a function of the document, of the keysyms that resolve
/// and of the keycode that each keysym gets: two documents with the same
/// model, compiled with keysym sets that hold the same names and with
/// keycode tables that give every keysym the same keycode, yield the same
/// layout, whatever the order in which the tables list their keysyms.
pub proof fn lemma_compiling_is_deterministic(
    first: LayoutModel,
    second: LayoutModel,
    keysyms_first: Set<Seq<char>>,
    keysyms_second: Set<Seq<char>>,
    keymap_first: Seq<(Seq<char>, u32)>,
    keymap_second: Seq<(Seq<char>, u32)>,
    keymap_str: Seq<char>,
)
    requires
        first == second,
        forall|name: Seq<char>| keysyms_first.contains(name) == keysyms_second.contains(name),
        forall|name: Seq<char>|
            crate::table::lookup(keymap_first, name) == crate::table::lookup(keymap_second, name),
    ensures
        compiled(first, keysyms_first, keymap_first, keymap_str) == compiled(
            second,
            keysyms_second,
            keymap_second,
            keymap_str,
        ),
{
    assert(keysyms_first =~= keysyms_second);
    let actions = crate::action::resolved_actions(first, keysyms_first);
    assert forall|i: int| 0 <= i < actions.len() implies crate::keymap::initial_state(
        actions[i].1,
        keymap_first,
    ) == crate::keymap::initial_state(actions[i].1, keymap_second) by {
        assert(crate::keymap::keycodes_of(actions[i].1.keys(), keymap_first)
            =~= crate::keymap::keycodes_of(actions[i].1.keys(), keymap_second));
    }
    assert(crate::keymap::initial_states(actions, keymap_first) =~= crate::keymap::initial_states(
        actions,
        keymap_second,
    ));
}

/// The buttons of a view, row by row.
pub open spec fn view_buttons(view: KeyboardViewModel) -> Seq<ButtonModel> {
    flat_map(view.rows, |row: RowModel| row.buttons)
}

/// The buttons of all views, view by view.
pub open spec fn all_buttons(views: Seq<(Seq<char>, KeyboardViewModel)>) -> Seq<ButtonModel> {
    flat_map(views, |view: (Seq<char>, KeyboardViewModel)| view_buttons(view.1))
}

/// How many of the buttons refer to the cell at `place`.
pub open spec fn buttons_at(buttons: Seq<ButtonModel>, place: int) -> nat
    decreases buttons.len(),
{
    if buttons.len() == 0 {
        0
    } else {
        buttons_at(buttons.drop_last(), place) + if buttons.last().state == place {
            1nat
        } else {
            0nat
        }
    }
}

proof fn lemma_buttons_for_concat(
    layout: LayoutModel,
    keys: Seq<Seq<char>>,
    a: Seq<Seq<char>>,
    b: Seq<Seq<char>>,
)
    ensures
        buttons_for(layout, keys, a + b) == buttons_for(layout, keys, a) + buttons_for(
            layout,
            keys,
            b,
        ),
{
    assert(buttons_for(layout, keys, a + b) =~= buttons_for(layout, keys, a) + buttons_for(
        layout,
        keys,
        b,
    ));
}

proof fn lemma_view_buttons(
    layout: LayoutModel,
    keys: Seq<Seq<char>>,
    rows: Seq<Seq<char>>,
    n: int,
)
    requires
        0 <= n <= rows.len(),
    ensures
        flat_map(view_for(layout, keys, rows).rows.take(n), |row: RowModel| row.buttons)
            == buttons_for(layout, keys, row_ids(rows.take(n))),
    decreases n,
{
    let built = view_for(layout, keys, rows).rows;
    let g = |row: RowModel| row.buttons;
    let f = |row: Seq<char>| words(row);
    if n == 0 {
        assert(built.take(0) =~= Seq::<RowModel>::empty());
        assert(rows.take(0) =~= Seq::<Seq<char>>::empty());
        lemma_flat_map_empty(g);
        lemma_flat_map_empty(f);
        assert(buttons_for(layout, keys, Seq::<Seq<char>>::empty()) =~= Seq::<
            ButtonModel,
        >::empty());
    } else {
        lemma_view_buttons(layout, keys, rows, n - 1);
        lemma_flat_map_take(built, n - 1, g);
        lemma_flat_map_take(rows, n - 1, f);
        lemma_buttons_for_concat(layout, keys, row_ids(rows.take(n - 1)), words(rows[n - 1]));
    }
}

proof fn lemma_all_buttons(layout: LayoutModel, keys: Seq<Seq<char>>, n: int)
    requires
        0 <= n <= layout.views.len(),
    ensures
        all_buttons(views_for(layout, keys).take(n)) == buttons_for(
            layout,
            keys,
            all_ids(layout.views.take(n)),
        ),
    decreases n,
{
    let built = views_for(layout, keys);
    let g = |view: (Seq<char>, KeyboardViewModel)| view_buttons(view.1);
    let f = |view: (Seq<char>, Seq<Seq<char>>)| row_ids(view.1);
    if n == 0 {
        assert(built.take(0) =~= Seq::<(Seq<char>, KeyboardViewModel)>::empty());
        assert(layout.views.take(0) =~= Seq::<(Seq<char>, Seq<Seq<char>>)>::empty());
        lemma_flat_map_empty(g);
        lemma_flat_map_empty(f);
        assert(buttons_for(layout, keys, Seq::<Seq<char>>::empty()) =~= Seq::<
            ButtonModel,
        >::empty());
    } else {
        lemma_all_buttons(layout, keys, n - 1);
        lemma_flat_map_take(built, n - 1, g);
        lemma_flat_map_take(layout.views, n - 1, f);
        let rows = layout.views[n - 1].1;
        lemma_view_buttons(layout, keys, rows, rows.len() as int);
        assert(rows.take(rows.len() as int) =~= rows);
        assert(view_for(layout, keys, rows).rows.take(rows.len() as int) =~= view_for(
            layout,
            keys,
            rows,
        ).rows);
        lemma_buttons_for_concat(
            layout,
            keys,
            all_ids(layout.views.take(n - 1)),
            row_ids(rows),
        );
    }
}

proof fn lemma_buttons_at(
    layout: LayoutModel,
    keys: Seq<Seq<char>>,
    ids: Seq<Seq<char>>,
    place: int,
)
    requires
        0 <= place,
    ensures
        buttons_at(buttons_for(layout, keys, ids), place) == references(ids, keys, place),
    decreases ids.len(),
{
    if ids.len() > 0 {
        lemma_buttons_at(layout, keys, ids.drop_last(), place);
        assert(buttons_for(layout, keys, ids).drop_last() =~= buttons_for(
            layout,
            keys,
            ids.drop_last(),
        ));
    }
}

/// In a compiled layout every cell has one holder for each button that
/// refers to it, and no other: the buttons of the views, taken together,
/// are the buttons of all the ids that the document's views use, and the
/// cell at each place counts those among them that are bound to it.
pub proof fn lemma_one_holder_per_button(
    layout: LayoutModel,
    states: Seq<(Seq<char>, KeyStateModel)>,
    keymap_str: Seq<char>,
    place: int,
)
    requires
        0 <= place < states.len(),
    ensures
        all_buttons(layout_data(layout, states, keymap_str).views) == buttons_for(
            layout,
            keys_of(states),
            all_ids(layout.views),
        ),
        layout_data(layout, states, keymap_str).states[place].holders == buttons_at(
            all_buttons(layout_data(layout, states, keymap_str).views),
            place,
        ),
        layout_data(layout, states, keymap_str).states[place].is_idle(),
{
    let keys = keys_of(states);
    lemma_all_buttons(layout, keys, layout.views.len() as int);
    assert(layout.views.take(layout.views.len() as int) =~= layout.views);
    assert(views_for(layout, keys).take(layout.views.len() as int) =~= views_for(layout, keys));
    lemma_buttons_at(layout, keys, all_ids(layout.views), place);
}

/// A keycode table that has every keysym of the list that was handed to the
/// generator has the keysyms of every action.
pub proof fn lemma_keycodes_cover(
    actions: Seq<(Seq<char>, ActionModel)>,
    keymap: Seq<(Seq<char>, u32)>,
)
    requires
        has_keycodes(required_keysyms(actions), keymap),
    ensures
        covers(keymap, actions),
{
    let f = |entry: (Seq<char>, ActionModel)| entry.1.keys();
    let all = required_keysyms(actions);
    assert forall|i: int| 0 <= i < actions.len() implies has_keycodes(
        (#[trigger] actions[i]).1.keys(),
        keymap,
    ) by {
        lemma_flat_map_contains(actions, i, f);
        assert forall|j: int| 0 <= j < actions[i].1.keys().len() implies lookup(
            keymap,
            #[trigger] actions[i].1.keys()[j],
        ) is Some by {
            assert(all.contains(f(actions[i])[j]));
            let k = choose|k: int| 0 <= k < all.len() && all[k] == actions[i].1.keys()[j];
            assert(lookup(keymap, all[k]) is Some);
        }
    }
}

/// The states that are made of the resolved actions of a layout hold one
/// for every button id that the layout's views use.
pub proof fn lemma_states_are_complete(
    layout: LayoutModel,
    keysyms: Set<Seq<char>>,
    keymap: Seq<(Seq<char>, u32)>,
)
    ensures
        has_states(layout, keys_of(initial_states(resolved_actions(layout, keysyms), keymap))),
{
    let ids = unique(all_ids(layout.views));
    let keys = keys_of(initial_states(resolved_actions(layout, keysyms), keymap));
    assert(keys =~= ids);
    lemma_unique(all_ids(layout.views));
    assert forall|id: Seq<char>| all_ids(layout.views).contains(id) implies position(keys, id)
        is Some by {
        lemma_position(keys, id);
        if position(keys, id) is None {
            assert(ids.contains(id));
            let k = choose|k: int| 0 <= k < ids.len() && ids[k] == id;
            assert(keys[k] != id);
        }
    }
}

/// What holds of one state while the buttons are made, `taken` of them for
/// this state: until a button takes it, the state is held by `owned`;
/// after that it is held by its buttons alone.
spec fn assembling_at(
    cell: CellModel<KeyState>,
    owned: Option<KeyRef>,
    token: CKeyState,
    state: KeyStateModel,
    taken: nat,
    place: int,
) -> bool {
    &&& token.index() == place
    &&& cell.holders == if taken == 0 {
        1
    } else {
        taken
    }
    &&& cell.readers == 0
    &&& !cell.writing
    &&& cell.state is Some
    &&& cell.state->0@ == state
    &&& (owned is Some <==> taken == 0)
    &&& (owned is Some ==> owned->0.index() == place)
}

/// What holds while the buttons are made: `done` lists the ids that have
/// their button.
spec fn assembling(
    cells: Seq<CellModel<KeyState>>,
    owned: Seq<Option<KeyRef>>,
    keys: Seq<Seq<char>>,
    tokens: Seq<CKeyState>,
    states: Seq<KeyStateModel>,
    done: Seq<Seq<char>>,
) -> bool {
    &&& cells.len() == keys.len()
    &&& owned.len() == keys.len()
    &&& tokens.len() == keys.len()
    &&& states.len() == keys.len()
    &&& forall|p: int|
        0 <= p < keys.len() ==> #[trigger] assembling_at(
            cells[p],
            owned[p],
            tokens[p],
            states[p],
            references(done, keys, p),
            p,
        )
}

fn build_row<H: WarningHandler>(
    layout: &Layout,
    names: &Vec<String>,
    tokens: &Vec<CKeyState>,
    cells: &mut KeyTable<KeyState>,
    owned: &mut Vec<Option<KeyRef>>,
    row: &str,
    warning_handler: &mut Sink<H>,
    Ghost(states): Ghost<Seq<KeyStateModel>>,
    Ghost(done): Ghost<Seq<Seq<char>>>,
) -> (built: Row)
    requires
        assembling(old(cells)@, old(owned)@, names.deep_view(), tokens@, states, done),
        forall|k: int|
            0 <= k < words(row@).len() ==> position(names.deep_view(), #[trigger] words(row@)[k])
                is Some,
        done.len() + words(row@).len() <= usize::MAX,
    ensures
        built@ == row_for(layout@, names.deep_view(), row@),
        assembling(
            final(cells)@,
            final(owned)@,
            names.deep_view(),
            tokens@,
            states,
            done + words(row@),
        ),
        final(warning_handler).seen() == old(warning_handler).seen() + ids_warnings(
            layout@,
            words(row@),
        ),
{
    let ids = split_ascii_whitespace(row);
    let ghost idv = ids.deep_view();
    let ghost keys = names.deep_view();
    let ghost seen = warning_handler.seen();
    let ghost f = |id: Seq<char>|
        button_warnings(button_meta(layout@.buttons, id), id, layout@.outlines);
    let n = ids.len();
    let mut buttons: Vec<Button> = Vec::new();
    let mut k: usize = 0;
    proof {
        assert(idv.take(0) =~= Seq::<Seq<char>>::empty());
        assert(done + idv.take(0) =~= done);
        lemma_flat_map_empty(f);
        assert(seen + Seq::<Seq<char>>::empty() =~= seen);
    }
    while k < n
        invariant
            idv == ids.deep_view(),
            idv == words(row@),
            keys == names.deep_view(),
            n == ids@.len(),
            k <= n,
            done.len() + n <= usize::MAX,
            f == (|id: Seq<char>|
                button_warnings(button_meta(layout@.buttons, id), id, layout@.outlines)),
            forall|j: int| 0 <= j < n ==> position(keys, #[trigger] idv[j]) is Some,
            assembling(cells@, owned@, keys, tokens@, states, done + idv.take(k as int)),
            buttons@.len() == k,
            forall|j: int|
                0 <= j < k ==> (#[trigger] buttons@[j])@ == button_for(
                    button_meta(layout@.buttons, idv[j]),
                    idv[j],
                    layout@.outlines,
                    place_of(keys, idv[j]),
                ),
            warning_handler.seen() == seen + flat_map(idv.take(k as int), f),
        decreases n - k,
    {
        let ghost before = done + idv.take(k as int);
        let ghost id = idv[k as int];
        let p: usize = match find_name(names, ids[k].as_str()) {
            Some(place) => place,
            None => {
                proof {
                    assert(position(keys, idv[k as int]) is Some);
                }
                vstd::pervasive::unreached()
            },
        };
        proof {
            assert(done + idv.take(k + 1) =~= before.push(id));
            assert forall|q: int| 0 <= q < keys.len() implies references(
                before.push(id),
                keys,
                q,
            ) == references(before, keys, q) + if q == p {
                1nat
            } else {
                0nat
            } by {
                lemma_references_push(before, id, keys, q);
            }
            lemma_references_bound(before, keys, p as int);
            assert(assembling_at(
                cells@[p as int],
                owned@[p as int],
                tokens@[p as int],
                states[p as int],
                references(before, keys, p as int),
                p as int,
            ));
        }
        let ghost cells_before = cells@;
        let ghost owned_before = owned@;
        let ghost taken = references(before, keys, p as int);
        let state = match owned[p].take() {
            Some(first) => first,
            None => {
                let holder = tokens[p].unwrap();
                proof {
                    assert(cells_before[p as int].holders == taken);
                    assert(taken <= before.len());
                }
                match cells.share(&holder) {
                    Ok(other) => other,
                    Err(_) => vstd::pervasive::unreached(),
                }
            },
        };
        proof {
            assert(state.index() == p);
            assert(owned@ =~= owned_before.update(p as int, None));
            if owned_before[p as int] is Some {
                assert(cells@ == cells_before);
                assert(taken == 0);
            } else {
                assert(cells@ =~= cells_before.update(
                    p as int,
                    cells_before[p as int].shared(),
                ));
                assert(taken > 0);
            }
            assert forall|q: int| 0 <= q < keys.len() implies #[trigger] assembling_at(
                cells@[q],
                owned@[q],
                tokens@[q],
                states[q],
                references(before.push(id), keys, q),
                q,
            ) by {
                assert(assembling_at(
                    cells_before[q],
                    owned_before[q],
                    tokens@[q],
                    states[q],
                    references(before, keys, q),
                    q,
                ));
                if q == p {
                    assert(references(before.push(id), keys, q) == taken + 1);
                } else {
                    assert(references(before.push(id), keys, q) == references(before, keys, q));
                    assert(cells@[q] == cells_before[q]);
                    assert(owned@[q] == owned_before[q]);
                }
            }
            assert(assembling(cells@, owned@, keys, tokens@, states, before.push(id)));
        }
        let button = create_button(
            &layout.buttons,
            &layout.outlines,
            ids[k].as_str(),
            state,
            warning_handler,
        );
        buttons.push(button);
        proof {
            lemma_flat_map_take(idv, k as int, f);
            assert((seen + flat_map(idv.take(k as int), f)) + f(id) =~= seen + (flat_map(
                idv.take(k as int),
                f,
            ) + f(id)));
        }
        k += 1;
    }
    proof {
        assert(idv.take(n as int) =~= idv);
        assert(buttons.deep_view() =~= buttons_for(layout@, keys, idv));
    }
    Row { angle: 0, bounds: None, buttons }
}

fn build_view<H: WarningHandler>(
    layout: &Layout,
    names: &Vec<String>,
    tokens: &Vec<CKeyState>,
    cells: &mut KeyTable<KeyState>,
    owned: &mut Vec<Option<KeyRef>>,
    rows: &Vec<String>,
    warning_handler: &mut Sink<H>,
    Ghost(states): Ghost<Seq<KeyStateModel>>,
    Ghost(done): Ghost<Seq<Seq<char>>>,
) -> (built: KeyboardView)
    requires
        assembling(old(cells)@, old(owned)@, names.deep_view(), tokens@, states, done),
        forall|id: Seq<char>|
            row_ids(rows.deep_view()).contains(id) ==> position(names.deep_view(), id) is Some,
        done.len() + row_ids(rows.deep_view()).len() <= usize::MAX,
    ensures
        built@ == view_for(layout@, names.deep_view(), rows.deep_view()),
        assembling(
            final(cells)@,
            final(owned)@,
            names.deep_view(),
            tokens@,
            states,
            done + row_ids(rows.deep_view()),
        ),
        final(warning_handler).seen() == old(warning_handler).seen() + ids_warnings(
            layout@,
            row_ids(rows.deep_view()),
        ),
{
    let ghost texts = rows.deep_view();
    let ghost keys = names.deep_view();
    let ghost seen = warning_handler.seen();
    let ghost f = |row: Seq<char>| words(row);
    let n = rows.len();
    let mut built_rows: Vec<Row> = Vec::new();
    let mut j: usize = 0;
    proof {
        assert(texts.take(0) =~= Seq::<Seq<char>>::empty());
        lemma_flat_map_empty(f);
        assert(done + flat_map(texts.take(0), f) =~= done);
        lemma_flat_map_empty(
            |id: Seq<char>| button_warnings(button_meta(layout@.buttons, id), id, layout@.outlines),
        );
        assert(seen + ids_warnings(layout@, flat_map(texts.take(0), f)) =~= seen);
    }
    while j < n
        invariant
            texts == rows.deep_view(),
            keys == names.deep_view(),
            n == rows@.len(),
            j <= n,
            f == (|row: Seq<char>| words(row)),
            done.len() + flat_map(texts, f).len() <= usize::MAX,
            forall|id: Seq<char>| flat_map(texts, f).contains(id) ==> position(keys, id) is Some,
            assembling(
                cells@,
                owned@,
                keys,
                tokens@,
                states,
                done + flat_map(texts.take(j as int), f),
            ),
            built_rows@.len() == j,
            forall|i: int|
                0 <= i < j ==> (#[trigger] built_rows@[i])@ == row_for(layout@, keys, texts[i]),
            warning_handler.seen() == seen + ids_warnings(
                layout@,
                flat_map(texts.take(j as int), f),
            ),
        decreases n - j,
    {
        let ghost before = flat_map(texts.take(j as int), f);
        let ghost row = texts[j as int];
        proof {
            lemma_flat_map_take(texts, j as int, f);
            lemma_flat_map_contains(texts, j as int, f);
            assert(f(texts[j as int]) == words(row));
            assert forall|k: int| 0 <= k < words(row).len() implies position(
                keys,
                #[trigger] words(row)[k],
            ) is Some by {
                assert(flat_map(texts, f).contains(f(texts[j as int])[k]));
            }
        }
        let built = build_row(
            layout,
            names,
            tokens,
            cells,
            owned,
            rows[j].as_str(),
            warning_handler,
            Ghost(states),
            Ghost(done + before),
        );
        built_rows.push(built);
        proof {
            assert((done + before) + words(row) =~= done + (before + words(row)));
            lemma_ids_warnings_concat(layout@, before, words(row));
            assert((seen + ids_warnings(layout@, before)) + ids_warnings(layout@, words(row))
                =~= seen + (ids_warnings(layout@, before) + ids_warnings(layout@, words(row))));
        }
        j += 1;
    }
    proof {
        assert(texts.take(n as int) =~= texts);
        assert(built_rows.deep_view() =~= view_for(layout@, keys, texts).rows);
    }
    KeyboardView { bounds: layout.bounds, rows: built_rows }
}

impl Layout {
    /// Whether there is a state for every button id that the views use.
    pub fn has_states_in(&self, button_states: &Table<KeyState>) -> (complete: bool)
        ensures
            complete == has_states(self@, button_states.keys()),
    {
        let ids = self.button_ids();
        let ghost idv = ids.deep_view();
        let ghost keys = button_states.keys();
        let n = ids.len();
        let mut i: usize = 0;
        while i < n
            invariant
                idv == ids.deep_view(),
                idv == all_ids(self@.views),
                keys == button_states.keys(),
                n == ids@.len(),
                i <= n,
                forall|j: int| 0 <= j < i ==> position(keys, #[trigger] idv[j]) is Some,
            decreases n - i,
        {
            if !button_states.contains_key(ids[i].as_str()) {
                proof {
                    assert(idv.contains(idv[i as int]));
                }
                return false;
            }
            i += 1;
        }
        true
    }

    /// Assembles the compiled layout from the document, the states of its
    /// keys and the keymap text that was generated for them.
    ///
    /// Where no keymap text could be generated, the failure is handed on
    /// and nothing is assembled. Else every place at which a button id
    /// stands in a row gets a button, and all buttons of one id share the
    /// cell of that id's state. A state that no button refers to is
    /// dropped.
    pub fn assemble<H: WarningHandler>(
        self,
        button_states: Table<KeyState>,
        keymap_str: Result<String, FormattingError>,
        warning_handler: Sink<H>,
    ) -> (built: (Result<LayoutData, FormattingError>, Sink<H>))
        requires
            has_states(self@, button_states.keys()),
        ensures
            match keymap_str {
                Ok(text) => {
                    &&& built.0 is Ok
                    &&& built.0->Ok_0@ == layout_data(self@, button_states.deep_view(), text@)
                    &&& built.1.seen() == warning_handler.seen() + assembly_warnings(self@)
                },
                Err(error) => {
                    &&& built.0 == Err::<LayoutData, FormattingError>(error)
                    &&& built.1.seen() == warning_handler.seen()
                },
            },
    {
        let mut warning_handler = warning_handler;
        let keymap_str = match keymap_str {
            Err(error) => {
                return (Err(error), warning_handler);
            },
            Ok(text) => text,
        };
        let ghost seen = warning_handler.seen();
        let ghost layout = self@;
        let ghost bound = button_states.deep_view();
        let ghost keys = keys_of(bound);
        let ghost all = all_ids(layout.views);
        let ghost f = |view: (Seq<char>, Seq<Seq<char>>)| row_ids(view.1);

        // One cell for each state, held by `owned` until a button takes it.
        let entries = button_states.into_entries();
        let mut names: Vec<String> = Vec::new();
        let mut tokens: Vec<CKeyState> = Vec::new();
        let mut owned: Vec<Option<KeyRef>> = Vec::new();
        let mut cells: KeyTable<KeyState> = KeyTable::new();
        let ghost mut states: Seq<KeyStateModel> = Seq::empty();
        for entry in it: entries
            invariant
                it.seq().len() == bound.len(),
                forall|p: int|
                    0 <= p < bound.len() ==> (#[trigger] it.seq()[p]).0@ == bound[p].0
                        && it.seq()[p].1@ == bound[p].1,
                names@.len() == it.index(),
                tokens@.len() == it.index(),
                owned@.len() == it.index(),
                cells@.len() == it.index(),
                states.len() == it.index(),
                forall|p: int|
                    0 <= p < it.index() ==> {
                        &&& (#[trigger] names@[p])@ == bound[p].0
                        &&& states[p] == bound[p].1
                    },
                forall|p: int|
                    0 <= p < it.index() ==> {
                        &&& (#[trigger] tokens@[p]).index() == p
                        &&& cells@[p].holders == 1
                        &&& cells@[p].readers == 0
                        &&& !cells@[p].writing
                        &&& cells@[p].state is Some
                        &&& cells@[p].state->0@ == states[p]
                        &&& owned@[p] is Some
                        &&& owned@[p]->0.index() == p
                    },
        {
            let (name, state) = entry;
            proof {
                states = states.push(state@);
            }
            let key = cells.insert(state);
            names.push(name);
            tokens.push(key.as_ptr());
            owned.push(Some(key));
        }
        proof {
            assert(names.deep_view() =~= keys);
            assert forall|q: int| 0 <= q < keys.len() implies states[q] == (#[trigger] bound[q]).1 by {
                assert(names@[q]@ == bound[q].0);
            }
            assert(keys =~= keys_of(button_states@));
            assert forall|p: int| 0 <= p < keys.len() implies #[trigger] assembling_at(
                cells@[p],
                owned@[p],
                tokens@[p],
                states[p],
                references(Seq::<Seq<char>>::empty(), keys, p),
                p,
            ) by {
                assert(tokens@[p].index() == p);
            }
            assert(assembling(
                cells@,
                owned@,
                keys,
                tokens@,
                states,
                Seq::<Seq<char>>::empty(),
            ));
            assert(all_ids(layout.views) == flat_map(layout.views, f));
        }

        // The ids fit in a vector, so no cell gets more holders than it can
        // count.
        let total = self.button_ids().len();
        assert(all.len() == total);

        // The views, row by row and button by button.
        let n = self.views.len();
        let mut views: Vec<(String, KeyboardView)> = Vec::new();
        let mut i: usize = 0;
        proof {
            assert(layout.views.take(0) =~= Seq::<(Seq<char>, Seq<Seq<char>>)>::empty());
            lemma_flat_map_empty(f);
            lemma_flat_map_empty(
                |id: Seq<char>|
                    button_warnings(button_meta(layout.buttons, id), id, layout.outlines),
            );
            assert(seen + ids_warnings(layout, flat_map(layout.views.take(0), f)) =~= seen);
        }
        while i < n
            invariant
                layout == self@,
                keys == names.deep_view(),
                keys == keys_of(bound),
                forall|q: int| 0 <= q < keys.len() ==> states[q] == (#[trigger] bound[q]).1,
                all == flat_map(layout.views, f),
                all.len() <= usize::MAX,
                f == (|view: (Seq<char>, Seq<Seq<char>>)| row_ids(view.1)),
                n == self.views@.len(),
                n == layout.views.len(),
                i <= n,
                forall|id: Seq<char>| all.contains(id) ==> position(keys, id) is Some,
                assembling(
                    cells@,
                    owned@,
                    keys,
                    tokens@,
                    states,
                    flat_map(layout.views.take(i as int), f),
                ),
                views@.len() == i,
                forall|v: int|
                    0 <= v < i ==> (#[trigger] views@[v]).0@ == layout.views[v].0 && views@[v].1@
                        == view_for(layout, keys, layout.views[v].1),
                warning_handler.seen() == seen + ids_warnings(
                    layout,
                    flat_map(layout.views.take(i as int), f),
                ),
            decreases n - i,
        {
            let ghost before = flat_map(layout.views.take(i as int), f);
            let rows = self.views.value(i);
            proof {
                assert(layout.views[i as int].1 == rows.deep_view());
                assert(layout.views[i as int].0 == self.views@[i as int].0);
                lemma_flat_map_take(layout.views, i as int, f);
                lemma_flat_map_contains(layout.views, i as int, f);
                assert(f(layout.views[i as int]) == row_ids(rows.deep_view()));
                assert forall|id: Seq<char>| row_ids(rows.deep_view()).contains(id) implies position(
                    keys,
                    id,
                ) is Some by {
                    let k = choose|k: int|
                        0 <= k < row_ids(rows.deep_view()).len() && row_ids(rows.deep_view())[k]
                            == id;
                    assert(all.contains(f(layout.views[i as int])[k]));
                }
            }
            let view = build_view(
                &self,
                &names,
                &tokens,
                &mut cells,
                &mut owned,
                rows,
                &mut warning_handler,
                Ghost(states),
                Ghost(before),
            );
            views.push((self.views.key(i).clone(), view));
            proof {
                lemma_ids_warnings_concat(layout, before, row_ids(rows.deep_view()));
                assert((seen + ids_warnings(layout, before)) + ids_warnings(
                    layout,
                    row_ids(rows.deep_view()),
                ) =~= seen + (ids_warnings(layout, before) + ids_warnings(
                    layout,
                    row_ids(rows.deep_view()),
                )));
            }
            i += 1;
        }
        proof {
            assert(layout.views.take(n as int) =~= layout.views);
        }

        // A state that no button took is let go.
        let m = owned.len();
        let mut p: usize = 0;
        proof {
            assert forall|q: int| 0 <= q < m implies {
                let r = references(all, keys, q);
                &&& (#[trigger] cells@[q]).holders == if r == 0 {
                    1
                } else {
                    r
                }
                &&& cells@[q].readers == 0
                &&& !cells@[q].writing
                &&& cells@[q].state is Some
                &&& cells@[q].state->0@ == states[q]
                &&& (owned@[q] is Some <==> r == 0)
                &&& (owned@[q] is Some ==> owned@[q]->0.index() == q)
            } by {
                assert(assembling_at(
                    cells@[q],
                    owned@[q],
                    tokens@[q],
                    states[q],
                    references(all, keys, q),
                    q,
                ));
            }
        }
        while p < m
            invariant
                m == keys.len(),
                keys == keys_of(bound),
                forall|q: int| 0 <= q < m ==> states[q] == (#[trigger] bound[q]).1,
                cells@.len() == m,
                owned@.len() == m,
                states.len() == m,
                p <= m,
                forall|q: int|
                    0 <= q < p ==> cell_model(#[trigger] cells@[q]) == built_cell(
                        states[q],
                        references(all, keys, q),
                    ),
                forall|q: int|
                    p <= q < m ==> {
                        let r = references(all, keys, q);
                        &&& (#[trigger] cells@[q]).holders == if r == 0 {
                            1
                        } else {
                            r
                        }
                        &&& cells@[q].readers == 0
                        &&& !cells@[q].writing
                        &&& cells@[q].state is Some
                        &&& cells@[q].state->0@ == states[q]
                        &&& (owned@[q] is Some <==> r == 0)
                        &&& (owned@[q] is Some ==> owned@[q]->0.index() == q)
                    },
            decreases m - p,
        {
            let ghost cells_before = cells@;
            let ghost owned_before = owned@;
            proof {
                assert(cells_before[p as int].readers == 0);
            }
            match owned[p].take() {
                Some(unused) => {
                    proof {
                        assert(unused.index() == p);
                        assert(cells_before[p as int].frees());
                    }
                    let _ = cells.release(unused);
                    proof {
                        assert(cells@ =~= cells_before.update(p as int, CellModel::free()));
                    }
                },
                None => {},
            }
            proof {
                assert(cell_model(cells@[p as int]) == built_cell(
                    states[p as int],
                    references(all, keys, p as int),
                ));
                assert forall|q: int| 0 <= q < p implies cell_model(#[trigger] cells@[q])
                    == built_cell(states[q], references(all, keys, q)) by {
                    assert(cells@[q] == cells_before[q]);
                }
                assert forall|q: int| p < q < m implies (#[trigger] cells@[q]) == cells_before[q]
                    && owned@[q] == owned_before[q] by {}
            }
            p += 1;
        }

        self.views.keys_are_distinct();
        proof {
            assert(Seq::new(views@.len(), |v: int| views@[v].0@) =~= self.views.keys());
        }
        let data = LayoutData { views: Table::from_distinct(views), keymap_str, states: cells };
        proof {
            assert(data@.views =~= views_for(layout, keys));
            assert(data@.states =~= built_cells(bound, all));
        }
        (Ok(data), warning_handler)
    }
}

/// What compiling a layout gives, for the keysyms that are known: with the
/// keycodes that the keycode generator returned for the keysyms of the
/// resolved actions, and with what the keymap generator returned for the
/// states made of them, `built` holds the compiled layout, or the keymap
/// generator's failure, and the sink with the warnings that were raised.
pub open spec fn compiles_to<H, K, M>(
    layout: LayoutModel,
    keysyms: Set<Seq<char>>,
    generate_keycodes: K,
    generate_keymap: M,
    before: Sink<H>,
    built: (Result<LayoutData, FormattingError>, Sink<H>),
) -> bool where
    H: WarningHandler,
    K: FnOnce(Vec<String>) -> Table<u32>,
    M: FnOnce(&Table<KeyState>) -> Result<String, FormattingError>,
{
    exists|
        names: Vec<String>,
        keymap: Table<u32>,
        states: Table<KeyState>,
        keymap_str: Result<String, FormattingError>,
    |
        {
            &&& names.deep_view() == required_keysyms(resolved_actions(layout, keysyms))
            &&& generate_keycodes.ensures((names,), keymap)
            &&& states.deep_view() == initial_states(
                resolved_actions(layout, keysyms),
                keymap.deep_view(),
            )
            &&& generate_keymap.ensures((&states,), keymap_str)
            &&& match keymap_str {
                Ok(text) => {
                    &&& built.0 is Ok
                    &&& built.0->Ok_0@ == compiled(
                        layout,
                        keysyms,
                        keymap.deep_view(),
                        text@,
                    )
                    &&& built.1.seen() == before.seen() + resolution_warnings(
                        layout,
                        keysyms,
                    ) + assembly_warnings(layout)
                    &&& H::keeps_record() ==> built.1.handler().received()
                        == before.handler().received() + resolution_warnings(
                        layout,
                        keysyms,
                    ) + assembly_warnings(layout)
                },
                Err(error) => {
                    &&& built.0 == Err::<LayoutData, FormattingError>(error)
                    &&& built.1.seen() == before.seen() + resolution_warnings(
                        layout,
                        keysyms,
                    )
                    &&& H::keeps_record() ==> built.1.handler().received()
                        == before.handler().received() + resolution_warnings(
                        layout,
                        keysyms,
                    )
                },
            }
        }
}

impl Layout {
    /// Compiles the layout, given the keysyms that are known: resolves the
    /// action of every button, has a keycode allocated for every keysym
    /// that the actions need, has the keymap text generated for the states
    /// of the keys, and assembles the views.
    ///
    /// The keycode generator must return a keycode for every keysym that it
    /// is handed. Where the keymap generator fails, its failure is handed
    /// on, after the warnings about the actions were raised. The handler
    /// comes back in the sink; if it keeps a record, it has received the
    /// warnings about the actions and then those about the buttons.
    pub fn compile<H, K, M>(
        self,
        keysyms: &KeysymSet,
        generate_keycodes: K,
        generate_keymap: M,
        warning_handler: Sink<H>,
    ) -> (built: (Result<LayoutData, FormattingError>, Sink<H>)) where
        H: WarningHandler,
        K: FnOnce(Vec<String>) -> Table<u32>,
        M: FnOnce(&Table<KeyState>) -> Result<String, FormattingError>,

        requires
            forall|names: Vec<String>| generate_keycodes.requires((names,)),
            forall|names: Vec<String>, keymap: Table<u32>|
                generate_keycodes.ensures((names,), keymap) ==> has_keycodes(
                    names.deep_view(),
                    keymap.deep_view(),
                ),
            forall|states: &Table<KeyState>| generate_keymap.requires((states,)),
        ensures
            compiles_to(
                self@,
                keysyms@,
                generate_keycodes,
                generate_keymap,
                warning_handler,
                built,
            ),
    {
        let mut warning_handler = warning_handler;
        let ghost seen = warning_handler.seen();
        let actions = self.resolve_actions(keysyms, &mut warning_handler);
        let ghost resolved = actions.deep_view();
        let names = collect_keysyms(&actions);
        let keymap = generate_keycodes(names);
        proof {
            lemma_keycodes_cover(resolved, keymap.deep_view());
        }
        let states = match bind_keycodes(actions, &keymap) {
            Ok(states) => states,
            Err(_) => vstd::pervasive::unreached(),
        };
        let keymap_str = generate_keymap(&states);
        proof {
            lemma_states_are_complete(self@, keysyms@, keymap.deep_view());
            assert(keys_of(states.deep_view()) =~= states.keys());
            assert(generate_keycodes.ensures((names,), keymap));
            assert(generate_keymap.ensures((&states,), keymap_str));
        }
        match keymap_str {
            Ok(text) => {
                let built = self.assemble(states, Ok(text), warning_handler);
                proof {
                    assert(built.1.seen() =~= seen + resolution_warnings(self@, keysyms@)
                        + assembly_warnings(self@));
                }
                built
            },
            Err(error) => (Err(error), warning_handler),
        }
    }

    /// Compiles the layout: asks the keysym table which of the names that
    /// decide how the buttons resolve are keysyms, and compiles the layout
    /// with the answers, as [`Layout::compile`] does.
    ///
    /// The lookup is not asked about a name with a NUL character in it;
    /// such a name is no keysym. The keycode generator must return a
    /// keycode for every keysym that it is handed.
    pub fn build<H, L, K, M>(
        self,
        keysym_from_name: L,
        generate_keycodes: K,
        generate_keymap: M,
        warning_handler: Sink<H>,
    ) -> (built: (Result<LayoutData, FormattingError>, Sink<H>)) where
        H: WarningHandler,
        L: Fn(&str) -> u32,
        K: FnOnce(Vec<String>) -> Table<u32>,
        M: FnOnce(&Table<KeyState>) -> Result<String, FormattingError>,

        requires
            forall|name: &str| is_c_text(name@) ==> keysym_from_name.requires((name,)),
            forall|names: Vec<String>| generate_keycodes.requires((names,)),
            forall|names: Vec<String>, keymap: Table<u32>|
                generate_keycodes.ensures((names,), keymap) ==> has_keycodes(
                    names.deep_view(),
                    keymap.deep_view(),
                ),
            forall|states: &Table<KeyState>| generate_keymap.requires((states,)),
        ensures
            exists|known: Set<Seq<char>>|
                {
                    &&& looked_up(known, keysym_candidates(self@), keysym_from_name)
                    &&& #[trigger] compiles_to(
                        self@,
                        known,
                        generate_keycodes,
                        generate_keymap,
                        warning_handler,
                        built,
                    )
                },
    {
        let known = self.known_keysyms(keysym_from_name);
        let ghost layout = self@;
        let built = self.compile(&known, generate_keycodes, generate_keymap, warning_handler);
        proof {
            assert(compiles_to(
                layout,
                known@,
                generate_keycodes,
                generate_keymap,
                warning_handler,
                built,
            ));
        }
        built
    }
}

} // verus!
