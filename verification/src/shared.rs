//! Shared key states.
//!
//! A key state is held by every button that shows the key, and by whoever
//! was handed the key across a foreign boundary. The states live in the
//! cells of a [`KeyTable`]; each cell counts its holders and tracks who reads
//! or writes it at the moment, so that a second writer is found out when it
//! arrives and a cell is freed when its last holder lets go, not before and
//! not twice.

use vstd::prelude::*;

verus! {

/// Why a cell refused an operation.
#[derive(Clone, Copy, Debug, PartialEq, Eq, Structural)]
pub enum CellError {
    /// The cell does not exist, or was freed.
    Dangling,
    /// The state is being written, or being read while a writer asked for it.
    Borrowed,
    /// The state is not being read or written, so no access can end.
    NotBorrowed,
    /// The cell cannot count another holder.
    TooManyHolders,
}

/// The mathematical model of one cell.
pub struct CellModel<S> {
    /// How many references to the cell exist. A cell without holders is
    /// free.
    pub holders: nat,
    /// How many read accesses are in progress.
    pub readers: nat,
    /// Whether a write access is in progress.
    pub writing: bool,
    /// The state, unless the cell is free or a writer has it.
    pub state: Option<S>,
}

impl<S> CellModel<S> {
    /// The cell that holds a new state for its first holder.
    pub open spec fn fresh(state: S) -> Self {
        CellModel { holders: 1, readers: 0, writing: false, state: Some(state) }
    }

    /// The cell after it was freed.
    pub open spec fn free() -> Self {
        CellModel { holders: 0, readers: 0, writing: false, state: None }
    }

    /// What holds of every cell: a free cell holds nothing and nobody
    /// accesses it; a live cell holds its state unless a writer has it; and
    /// nobody reads while somebody writes.
    pub open spec fn well_formed(self) -> bool {
        &&& self.holders == 0 ==> self == Self::free()
        &&& self.holders > 0 ==> (self.writing <==> self.state is None)
        &&& self.writing ==> self.readers == 0
    }

    pub open spec fn is_live(self) -> bool {
        self.holders > 0
    }

    /// Whether nobody reads or writes the state.
    pub open spec fn is_idle(self) -> bool {
        self.readers == 0 && !self.writing
    }

    /// Whether the state can be read.
    pub open spec fn can_read(self) -> bool {
        self.is_live() && !self.writing
    }

    /// Whether the state can be written.
    pub open spec fn can_write(self) -> bool {
        self.is_live() && self.is_idle()
    }

    /// Whether letting go of one reference frees the cell.
    pub open spec fn frees(self) -> bool {
        self.holders == 1 && self.is_idle()
    }

    /// Whether one reference can be let go: the cell is live, and is not
    /// accessed if this is the last reference.
    pub open spec fn can_release(self) -> bool {
        self.holders > 1 || self.frees()
    }

    /// The cell with one more holder.
    pub open spec fn shared(self) -> Self {
        CellModel { holders: self.holders + 1, ..self }
    }

    /// The cell with one holder less, freed if that was the last.
    pub open spec fn released(self) -> Self {
        if self.holders > 1 {
            CellModel { holders: (self.holders - 1) as nat, ..self }
        } else {
            Self::free()
        }
    }

    /// The cell with one more reader.
    pub open spec fn reading(self) -> Self {
        CellModel { readers: self.readers + 1, ..self }
    }

    /// The cell with one reader less.
    pub open spec fn read(self) -> Self {
        CellModel { readers: (self.readers - 1) as nat, ..self }
    }

    /// The cell while a writer has the state.
    pub open spec fn written(self) -> Self {
        CellModel { writing: true, state: None, ..self }
    }

    /// The cell after the writer has put a state back.
    pub open spec fn stored(self, state: S) -> Self {
        CellModel { writing: false, state: Some(state), ..self }
    }

    /// The cell after `n` more references to it were made.
    pub open spec fn shared_times(self, n: nat) -> Self
        decreases n,
    {
        if n == 0 {
            self
        } else {
            self.shared().shared_times((n - 1) as nat)
        }
    }

    /// The cell after `n` references to it were let go.
    pub open spec fn released_times(self, n: nat) -> Self
        decreases n,
    {
        if n == 0 {
            self
        } else {
            self.released().released_times((n - 1) as nat)
        }
    }
}

/// Making `n` references adds `n` holders and changes nothing else.
pub proof fn lemma_shared_times<S>(cell: CellModel<S>, n: nat)
    ensures
        cell.shared_times(n) == (CellModel { holders: cell.holders + n, ..cell }),
    decreases n,
{
    if n > 0 {
        lemma_shared_times(cell.shared(), (n - 1) as nat);
    }
}

/// Letting go of `n` references, of a cell that nobody accesses, takes `n`
/// holders away while more than `n` are there, and frees the cell
/// otherwise.
pub proof fn lemma_released_times<S>(cell: CellModel<S>, n: nat)
    requires
        cell.well_formed(),
    ensures
        n < cell.holders ==> cell.released_times(n) == (CellModel {
            holders: (cell.holders - n) as nat,
            ..cell
        }),
        n >= cell.holders ==> cell.released_times(n) == CellModel::<S>::free(),
    decreases n,
{
    if n > 0 {
        lemma_released_times(cell.released(), (n - 1) as nat);
    }
}

/// Of a live cell that nobody accesses, whatever the number `n` of its
/// holders: each of the first `n` releases is accepted and takes one holder
/// away; the state stays in the cell until the `n`-th release, which is the
/// one that frees the cell; every later release is refused. So the cell is
/// freed once, not before its last holder lets go, and not twice.
pub proof fn lemma_released_to_the_last<S>(cell: CellModel<S>, k: nat)
    requires
        cell.well_formed(),
        cell.is_live(),
        cell.is_idle(),
    ensures
        ({
            let after = cell.released_times(k);
            &&& k < cell.holders ==> after.can_release() && after.holders == cell.holders - k
                && after.state == cell.state && after.state is Some
            &&& k < cell.holders ==> (after.frees() <==> k + 1 == cell.holders)
            &&& k >= cell.holders ==> after == CellModel::<S>::free() && !after.can_release()
        }),
{
    lemma_released_times(cell, k);
}

/// A cell that was made for one holder and then shared with `n` buttons is
/// freed by exactly one release: the last of the `n + 1`. Every earlier
/// release leaves the state in place, and a later one is refused.
pub proof fn lemma_freed_exactly_once<S>(state: S, n: nat, k: nat)
    ensures
        ({
            let cell = CellModel::fresh(state).shared_times(n);
            let after = cell.released_times(k);
            &&& cell.holders == n + 1
            &&& k <= n ==> after.is_live() && after.state == Some(state) && after.can_release()
            &&& k <= n ==> (after.frees() <==> k == n)
            &&& k > n ==> after == CellModel::<S>::free() && !after.can_release()
        }),
{
    let cell = CellModel::fresh(state).shared_times(n);
    lemma_shared_times(CellModel::fresh(state), n);
    lemma_released_times(cell, k);
}

/// A reference to a cell, owned by whoever holds it. It is made by
/// [`KeyTable::insert`] or [`KeyTable::share`], and given up by
/// [`KeyTable::release`].
#[derive(Debug, PartialEq, Eq)]
pub struct KeyRef {
    index: usize,
}

impl KeyRef {
    /// The place of the cell in its table.
    pub closed spec fn index(&self) -> int {
        self.index as int
    }
}

/// The name of a cell as it crosses a foreign boundary, where ownership
/// cannot be tracked: it can be copied at will. Whoever wraps a reference
/// hands the reference over with it; whoever unwraps one takes it back, and
/// has to see that this happens once for each reference that was wrapped.
#[derive(Clone, Copy, Debug, PartialEq, Eq, Structural)]
pub struct CKeyState {
    index: usize,
}

impl CKeyState {
    /// The place of the cell in its table.
    pub closed spec fn index(&self) -> int {
        self.index as int
    }

    /// The name as a number, for a caller that can hold nothing else.
    pub fn into_raw(self) -> (number: usize)
        ensures
            number == self.index(),
    {
        self.index
    }

    /// The name that a number stands for.
    pub fn from_raw(number: usize) -> (key: CKeyState)
        ensures
            key.index() == number,
    {
        CKeyState { index: number }
    }

    /// Hands a reference over to the boundary.
    pub fn wrap(state: KeyRef) -> (key: CKeyState)
        ensures
            key.index() == state.index(),
    {
        CKeyState { index: state.index }
    }

    /// Takes a reference back from the boundary.
    pub fn unwrap(self) -> (state: KeyRef)
        ensures
            state.index() == self.index(),
    {
        KeyRef { index: self.index }
    }
}

impl KeyRef {
    /// The name of the cell, without the reference.
    pub fn as_ptr(&self) -> (key: CKeyState)
        ensures
            key.index() == self.index(),
    {
        CKeyState { index: self.index }
    }
}

struct Slot<S> {
    holders: usize,
    readers: usize,
    writing: bool,
    /// The state, in a place of its own that does not move.
    state: Option<Box<S>>,
}

impl<S> Slot<S> {
    spec fn model(self) -> CellModel<S> {
        CellModel {
            holders: self.holders as nat,
            readers: self.readers as nat,
            writing: self.writing,
            state: match self.state {
                Some(state) => Some(*state),
                None => None,
            },
        }
    }
}

/// The cells of the key states that belong together: those of one layout,
/// or those handed out across one boundary. A cell is never used again
/// after it was freed. A state stays at its place in memory while its cell
/// lives, unless a writer puts another state into the cell.
pub struct KeyTable<S> {
    slots: Vec<Slot<S>>,
}

impl<S> View for KeyTable<S> {
    type V = Seq<CellModel<S>>;

    closed spec fn view(&self) -> Seq<CellModel<S>> {
        Seq::new(self.slots@.len(), |i: int| self.slots@[i].model())
    }
}

/// The cell that a reference points to, or a free cell if there is none.
pub open spec fn cell_at<S>(cells: Seq<CellModel<S>>, index: int) -> CellModel<S> {
    if 0 <= index < cells.len() {
        cells[index]
    } else {
        CellModel::free()
    }
}

/// The cells with one of them replaced.
pub open spec fn with_cell<S>(cells: Seq<CellModel<S>>, index: int, cell: CellModel<S>) -> Seq<
    CellModel<S>,
> {
    if 0 <= index < cells.len() {
        cells.update(index, cell)
    } else {
        cells
    }
}

impl<S> KeyTable<S> {
    #[verifier::type_invariant]
    spec fn well_formed(&self) -> bool {
        forall|i: int| 0 <= i < self.slots@.len() ==> (#[trigger] self.slots@[i]).model().well_formed()
    }

    /// Recalls that every cell of a table is well formed.
    pub fn cells_are_well_formed(&self)
        ensures
            forall|i: int| 0 <= i < self@.len() ==> (#[trigger] self@[i]).well_formed(),
    {
        proof {
            use_type_invariant(self);
        }
    }

    pub fn new() -> (table: Self)
        ensures
            table@ == Seq::<CellModel<S>>::empty(),
    {
        let table = KeyTable { slots: Vec::new() };
        proof {
            assert(table@ =~= Seq::<CellModel<S>>::empty());
        }
        table
    }

    /// The number of cells, free ones included.
    pub fn len(&self) -> (n: usize)
        ensures
            n == self@.len(),
    {
        self.slots.len()
    }

    /// Puts a state into a new cell and returns the first reference to it.
    pub fn insert(&mut self, state: S) -> (key: KeyRef)
        ensures
            final(self)@ == old(self)@.push(CellModel::fresh(state)),
            key.index() == old(self)@.len(),
    {
        proof {
            use_type_invariant(&*self);
        }
        let mut slots: Vec<Slot<S>> = Vec::new();
        core::mem::swap(&mut self.slots, &mut slots);
        let index = slots.len();
        slots.push(
            Slot { holders: 1, readers: 0, writing: false, state: Some(Box::new(state)) },
        );
        core::mem::swap(&mut self.slots, &mut slots);
        proof {
            assert(self@ =~= old(self)@.push(CellModel::fresh(state)));
        }
        KeyRef { index }
    }

    /// How many references to the cell exist; none if the cell is free.
    pub fn holders(&self, key: &KeyRef) -> (n: usize)
        ensures
            n == cell_at(self@, key.index()).holders,
    {
        if key.index < self.slots.len() {
            self.slots[key.index].holders
        } else {
            0
        }
    }

    /// Makes another reference to the cell.
    pub fn share(&mut self, key: &KeyRef) -> (shared: Result<KeyRef, CellError>)
        ensures
            match shared {
                Ok(other) => {
                    &&& cell_at(old(self)@, key.index()).is_live()
                    &&& other.index() == key.index()
                    &&& final(self)@ == with_cell(
                        old(self)@,
                        key.index(),
                        cell_at(old(self)@, key.index()).shared(),
                    )
                },
                Err(e) => {
                    &&& final(self)@ == old(self)@
                    &&& e == if cell_at(old(self)@, key.index()).is_live() {
                        CellError::TooManyHolders
                    } else {
                        CellError::Dangling
                    }
                    &&& e == CellError::TooManyHolders ==> cell_at(old(self)@, key.index()).holders
                        == usize::MAX
                },
            },
    {
        proof {
            use_type_invariant(&*self);
        }
        let i = key.index;
        if i >= self.slots.len() || self.slots[i].holders == 0 {
            return Err(CellError::Dangling);
        }
        if self.slots[i].holders == usize::MAX {
            return Err(CellError::TooManyHolders);
        }
        let mut slots: Vec<Slot<S>> = Vec::new();
        core::mem::swap(&mut self.slots, &mut slots);
        slots[i].holders = slots[i].holders + 1;
        core::mem::swap(&mut self.slots, &mut slots);
        proof {
            assert(self@ =~= old(self)@.update(i as int, old(self)@[i as int].shared()));
        }
        Ok(KeyRef { index: i })
    }

    /// Gives a reference up. The cell is freed with its last reference, and
    /// its state is handed back then.
    pub fn release(&mut self, key: KeyRef) -> (freed: Result<Option<S>, CellError>)
        ensures
            match freed {
                Ok(state) => {
                    &&& cell_at(old(self)@, key.index()).can_release()
                    &&& final(self)@ == with_cell(
                        old(self)@,
                        key.index(),
                        cell_at(old(self)@, key.index()).released(),
                    )
                    &&& state == if cell_at(old(self)@, key.index()).frees() {
                        cell_at(old(self)@, key.index()).state
                    } else {
                        None
                    }
                    &&& state is Some <==> cell_at(old(self)@, key.index()).frees()
                },
                Err(e) => {
                    &&& final(self)@ == old(self)@
                    &&& !cell_at(old(self)@, key.index()).can_release()
                    &&& e == if cell_at(old(self)@, key.index()).is_live() {
                        CellError::Borrowed
                    } else {
                        CellError::Dangling
                    }
                },
            },
    {
        proof {
            use_type_invariant(&*self);
        }
        let i = key.index;
        if i >= self.slots.len() || self.slots[i].holders == 0 {
            return Err(CellError::Dangling);
        }
        if self.slots[i].holders == 1 && (self.slots[i].writing || self.slots[i].readers > 0) {
            return Err(CellError::Borrowed);
        }
        let mut slots: Vec<Slot<S>> = Vec::new();
        core::mem::swap(&mut self.slots, &mut slots);
        let state = if slots[i].holders == 1 {
            slots[i].holders = 0;
            match slots[i].state.take() {
                Some(state) => Some(*state),
                None => None,
            }
        } else {
            slots[i].holders = slots[i].holders - 1;
            None
        };
        core::mem::swap(&mut self.slots, &mut slots);
        proof {
            assert(self@ =~= old(self)@.update(i as int, old(self)@[i as int].released()));
        }
        Ok(state)
    }

    /// The state, unless the cell is free or being written.
    pub fn get(&self, key: &KeyRef) -> (state: Result<&S, CellError>)
        ensures
            match state {
                Ok(s) => cell_at(self@, key.index()).can_read() && cell_at(
                    self@,
                    key.index(),
                ).state == Some(*s),
                Err(e) => !cell_at(self@, key.index()).can_read() && e == if cell_at(
                    self@,
                    key.index(),
                ).is_live() {
                    CellError::Borrowed
                } else {
                    CellError::Dangling
                },
            },
    {
        proof {
            use_type_invariant(self);
        }
        let i = key.index;
        if i >= self.slots.len() || self.slots[i].holders == 0 {
            return Err(CellError::Dangling);
        }
        match &self.slots[i].state {
            Some(state) => Ok(&**state),
            None => Err(CellError::Borrowed),
        }
    }

    /// The state, if nobody else reads or writes it.
    pub fn get_exclusive(&self, key: &KeyRef) -> (state: Result<&S, CellError>)
        ensures
            match state {
                Ok(s) => cell_at(self@, key.index()).can_write() && cell_at(
                    self@,
                    key.index(),
                ).state == Some(*s),
                Err(e) => !cell_at(self@, key.index()).can_write() && e == if cell_at(
                    self@,
                    key.index(),
                ).is_live() {
                    CellError::Borrowed
                } else {
                    CellError::Dangling
                },
            },
    {
        proof {
            use_type_invariant(self);
        }
        let i = key.index;
        if i >= self.slots.len() || self.slots[i].holders == 0 {
            return Err(CellError::Dangling);
        }
        if self.slots[i].readers > 0 {
            return Err(CellError::Borrowed);
        }
        match &self.slots[i].state {
            Some(state) => Ok(&**state),
            None => Err(CellError::Borrowed),
        }
    }

    /// Starts a read access that lasts until [`KeyTable::end_read`].
    pub fn begin_read(&mut self, key: &KeyRef) -> (started: Result<(), CellError>)
        ensures
            match started {
                Ok(_) => {
                    &&& cell_at(old(self)@, key.index()).can_read()
                    &&& final(self)@ == with_cell(
                        old(self)@,
                        key.index(),
                        cell_at(old(self)@, key.index()).reading(),
                    )
                },
                Err(e) => {
                    &&& final(self)@ == old(self)@
                    &&& e == if !cell_at(old(self)@, key.index()).is_live() {
                        CellError::Dangling
                    } else if cell_at(old(self)@, key.index()).writing {
                        CellError::Borrowed
                    } else {
                        CellError::TooManyHolders
                    }
                    &&& e == CellError::TooManyHolders ==> cell_at(old(self)@, key.index()).readers
                        == usize::MAX
                },
            },
    {
        proof {
            use_type_invariant(&*self);
        }
        let i = key.index;
        if i >= self.slots.len() || self.slots[i].holders == 0 {
            return Err(CellError::Dangling);
        }
        if self.slots[i].writing {
            return Err(CellError::Borrowed);
        }
        if self.slots[i].readers == usize::MAX {
            return Err(CellError::TooManyHolders);
        }
        let mut slots: Vec<Slot<S>> = Vec::new();
        core::mem::swap(&mut self.slots, &mut slots);
        slots[i].readers = slots[i].readers + 1;
        core::mem::swap(&mut self.slots, &mut slots);
        proof {
            assert(self@ =~= old(self)@.update(i as int, old(self)@[i as int].reading()));
        }
        Ok(())
    }

    /// Ends a read access.
    pub fn end_read(&mut self, key: &KeyRef) -> (ended: Result<(), CellError>)
        ensures
            match ended {
                Ok(_) => {
                    &&& cell_at(old(self)@, key.index()).readers > 0
                    &&& final(self)@ == with_cell(
                        old(self)@,
                        key.index(),
                        cell_at(old(self)@, key.index()).read(),
                    )
                },
                Err(e) => {
                    &&& final(self)@ == old(self)@
                    &&& cell_at(old(self)@, key.index()).readers == 0
                    &&& e == if cell_at(old(self)@, key.index()).is_live() {
                        CellError::NotBorrowed
                    } else {
                        CellError::Dangling
                    }
                },
            },
    {
        proof {
            use_type_invariant(&*self);
        }
        let i = key.index;
        if i >= self.slots.len() || self.slots[i].holders == 0 {
            return Err(CellError::Dangling);
        }
        if self.slots[i].readers == 0 {
            return Err(CellError::NotBorrowed);
        }
        let mut slots: Vec<Slot<S>> = Vec::new();
        core::mem::swap(&mut self.slots, &mut slots);
        slots[i].readers = slots[i].readers - 1;
        core::mem::swap(&mut self.slots, &mut slots);
        proof {
            assert(self@ =~= old(self)@.update(i as int, old(self)@[i as int].read()));
        }
        Ok(())
    }

    /// Starts a write access: hands the state out until
    /// [`KeyTable::end_write`] puts one back. Refused while the state is
    /// read or written. The state is handed out in its place, so that a
    /// writer who changes it there and puts it back leaves it where it was.
    pub fn begin_write(&mut self, key: &KeyRef) -> (taken: Result<Box<S>, CellError>)
        ensures
            match taken {
                Ok(state) => {
                    &&& cell_at(old(self)@, key.index()).can_write()
                    &&& cell_at(old(self)@, key.index()).state == Some(*state)
                    &&& final(self)@ == with_cell(
                        old(self)@,
                        key.index(),
                        cell_at(old(self)@, key.index()).written(),
                    )
                },
                Err(e) => {
                    &&& final(self)@ == old(self)@
                    &&& !cell_at(old(self)@, key.index()).can_write()
                    &&& e == if cell_at(old(self)@, key.index()).is_live() {
                        CellError::Borrowed
                    } else {
                        CellError::Dangling
                    }
                },
            },
    {
        proof {
            use_type_invariant(&*self);
        }
        let i = key.index;
        if i >= self.slots.len() || self.slots[i].holders == 0 {
            return Err(CellError::Dangling);
        }
        if self.slots[i].writing || self.slots[i].readers > 0 {
            return Err(CellError::Borrowed);
        }
        let mut slots: Vec<Slot<S>> = Vec::new();
        core::mem::swap(&mut self.slots, &mut slots);
        slots[i].writing = true;
        let state = slots[i].state.take();
        core::mem::swap(&mut self.slots, &mut slots);
        proof {
            assert(self@ =~= old(self)@.update(i as int, old(self)@[i as int].written()));
        }
        match state {
            Some(state) => Ok(state),
            None => {
                proof {
                    assert(false);
                }
                Err(CellError::Borrowed)
            },
        }
    }

    /// Ends a write access by putting a state back.
    pub fn end_write(&mut self, key: &KeyRef, state: Box<S>) -> (ended: Result<(), CellError>)
        ensures
            match ended {
                Ok(_) => {
                    &&& cell_at(old(self)@, key.index()).is_live()
                    &&& cell_at(old(self)@, key.index()).writing
                    &&& final(self)@ == with_cell(
                        old(self)@,
                        key.index(),
                        cell_at(old(self)@, key.index()).stored(*state),
                    )
                },
                Err(e) => {
                    &&& final(self)@ == old(self)@
                    &&& !cell_at(old(self)@, key.index()).writing
                    &&& e == if cell_at(old(self)@, key.index()).is_live() {
                        CellError::NotBorrowed
                    } else {
                        CellError::Dangling
                    }
                },
            },
    {
        proof {
            use_type_invariant(&*self);
        }
        let i = key.index;
        if i >= self.slots.len() || self.slots[i].holders == 0 {
            return Err(CellError::Dangling);
        }
        if !self.slots[i].writing {
            return Err(CellError::NotBorrowed);
        }
        let mut slots: Vec<Slot<S>> = Vec::new();
        core::mem::swap(&mut self.slots, &mut slots);
        slots[i].writing = false;
        slots[i].state = Some(state);
        core::mem::swap(&mut self.slots, &mut slots);
        proof {
            assert(self@ =~= old(self)@.update(i as int, old(self)@[i as int].stored(*state)));
        }
        Ok(())
    }
}

} // verus!
