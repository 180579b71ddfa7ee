//! Who holds which cell of readiness.
//!
//! A cell is held from when a source takes it until the source and its registrations have all
//! let go of it; then the next source can take it. Cells are never removed, so a cell that
//! someone holds is always one of the cells.
use vstd::prelude::*;
use crate::readiness::{armed, Readiness};
use crate::registrations::{live, Registration};

verus! {

/// The cells that are held, and those that can be taken again.
#[derive(Debug)]
pub struct Pool {
    /// For each cell whether it is held.
    taken: Vec<bool>,
    /// The cells that are not held, each once.
    vacant: Vec<usize>,
}

/// What taking `cell` makes of a pool and its cells: the cell was held by no one and is armed,
/// nothing else changes, and a cell is added only where none was vacant.
pub open spec fn takes(
    before: Pool,
    cells: Seq<Readiness>,
    after: Pool,
    now: Seq<Readiness>,
    cell: usize,
) -> bool {
    &&& after.wf()
    &&& after.size() == now.len()
    &&& !before.held().contains(cell)
    &&& after.held() == before.held().insert(cell)
    &&& if cell < cells.len() {
        now == cells.update(cell as int, armed())
    } else {
        &&& cell == cells.len()
        &&& now == cells.push(armed())
        &&& forall|c: usize| c < cells.len() ==> #[trigger] before.held().contains(c)
    }
}

impl Pool {
    /// The vacant cells are exactly those that are not held, each once.
    pub closed spec fn wf(self) -> bool {
        &&& self.vacant@.no_duplicates()
        &&& forall|i: int|
            0 <= i < self.vacant@.len() ==> (#[trigger] self.vacant@[i]) < self.taken@.len()
                && !self.taken@[self.vacant@[i] as int]
        &&& forall|c: usize|
            c < self.taken@.len() && !(#[trigger] self.taken@[c as int]) ==> self.vacant@.contains(
                c,
            )
    }

    /// The number of cells.
    pub closed spec fn size(self) -> nat {
        self.taken@.len()
    }

    /// The cells that are held.
    pub closed spec fn held(self) -> Set<usize> {
        Set::new(|c: usize| c < self.taken@.len() && self.taken@[c as int])
    }

    /// A pool of no cells.
    pub fn new() -> (pool: Pool)
        ensures
            pool.wf(),
            pool.size() == 0,
            pool.held() == Set::<usize>::empty(),
    {
        let pool = Pool { taken: Vec::new(), vacant: Vec::new() };
        assert(pool.held() =~= Set::<usize>::empty());
        pool
    }

    /// The number of cells.
    pub fn len(&self) -> (len: usize)
        ensures
            len == self.size(),
    {
        self.taken.len()
    }

    /// Whether `cell` is held.
    pub fn holds(&self, cell: usize) -> (b: bool)
        ensures
            b == self.held().contains(cell),
    {
        cell < self.taken.len() && self.taken[cell]
    }

    /// Takes a cell that no one holds and arms it; one is added if there is none.
    pub fn take(&mut self, cells: &mut Vec<Readiness>) -> (cell: usize)
        requires
            old(self).wf(),
            old(self).size() == old(cells)@.len(),
        ensures
            takes(*old(self), old(cells)@, *final(self), final(cells)@, cell),
    {
        let ghost before = *self;
        match self.vacant.pop() {
            Some(cell) => {
                let ghost last = before.vacant@.len() - 1;
                assert(before.vacant@[last] == cell);
                self.taken.set(cell, true);
                cells.set(cell, Readiness::new());
                proof {
                    assert(self.vacant@ =~= before.vacant@.drop_last());
                    assert forall|i: int| 0 <= i < self.vacant@.len() implies (
                    #[trigger] self.vacant@[i]) < self.taken@.len()
                        && !self.taken@[self.vacant@[i] as int] by {
                        assert(self.vacant@[i] == before.vacant@[i]);
                        assert(before.vacant@[i] != before.vacant@[last]);
                    }
                    assert forall|c: usize|
                        c < self.taken@.len() && !(
                        #[trigger] self.taken@[c as int]) implies self.vacant@.contains(c) by {
                        assert(!before.taken@[c as int]);
                        assert(before.vacant@.contains(c));
                        let i = before.vacant@.index_of(c);
                        assert(self.vacant@[i] == c);
                    }
                    assert(self.held() =~= before.held().insert(cell));
                }
                cell
            },
            None => {
                let cell: usize = cells.len();
                self.taken.push(true);
                cells.push(Readiness::new());
                proof {
                    assert(before.vacant@.len() == 0);
                    assert(self.vacant@ =~= before.vacant@);
                    assert forall|c: usize| c < before.taken@.len() implies #[trigger] before.taken@[
                        c as int
                    ] by {
                        if !before.taken@[c as int] {
                            assert(before.vacant@.contains(c));
                        }
                    }
                    assert forall|c: usize| c < cell implies #[trigger] before.held().contains(
                        c,
                    ) by {
                        assert(before.taken@[c as int]);
                    }
                    assert forall|c: usize|
                        c < self.taken@.len() && !(
                        #[trigger] self.taken@[c as int]) implies self.vacant@.contains(c) by {
                        if c < cell {
                            assert(before.taken@[c as int]);
                        }
                    }
                    assert(self.held() =~= before.held().insert(cell));
                }
                cell
            },
        }
    }

    /// Lets go of `cell`, which can then be taken again; a cell that is not held stays as it is.
    pub fn release(&mut self, cell: usize)
        requires
            old(self).wf(),
        ensures
            final(self).wf(),
            final(self).size() == old(self).size(),
            final(self).held() == old(self).held().remove(cell),
    {
        let ghost before = *self;
        if self.holds(cell) {
            self.taken.set(cell, false);
            self.vacant.push(cell);
            proof {
                let last = before.vacant@.len() as int;
                assert(self.vacant@[last] == cell);
                assert forall|i: int| 0 <= i < last implies #[trigger] self.vacant@[i]
                    == before.vacant@[i] && self.vacant@[i] != cell by {}
                assert forall|c: usize|
                    c < self.taken@.len() && !(
                    #[trigger] self.taken@[c as int]) implies self.vacant@.contains(c) by {
                    if c != cell {
                        assert(!before.taken@[c as int]);
                        assert(before.vacant@.contains(c));
                        assert(self.vacant@[before.vacant@.index_of(c)] == c);
                    }
                }
            }
        }
        assert(self.held() =~= before.held().remove(cell));
    }
}

/// Where each registration's cell is held, it is one of the cells.
pub proof fn law_held_is_live(pool: Pool, cells: Seq<Readiness>, regs: Map<u32, Registration>)
    requires
        pool.size() == cells.len(),
        forall|fd: u32| #[trigger]
            regs.contains_key(fd) ==> pool.held().contains(regs[fd].cell),
    ensures
        live(regs, cells),
{
}

/// Taking a cell leaves alone what others hold, and there are never fewer cells than before:
/// a cell that is held stays held and keeps its readiness, and the cells of the registrations
/// stay among the cells.
pub proof fn law_taking_disturbs_no_one(
    before: Pool,
    cells: Seq<Readiness>,
    after: Pool,
    now: Seq<Readiness>,
    cell: usize,
    other: usize,
    regs: Map<u32, Registration>,
)
    requires
        before.size() == cells.len(),
        takes(before, cells, after, now, cell),
        before.held().contains(other),
        live(regs, cells),
    ensures
        other != cell,
        after.held().contains(other),
        now[other as int] == cells[other as int],
        now[cell as int] == armed(),
        now.len() >= cells.len(),
        live(regs, now),
{
}

/// A cell that was taken is one of the cells, can be polled for reading and twice for writing,
/// and belongs to no one else; every other cell is as it was, and at most one is added.
pub proof fn law_taken_cell_is_armed(
    before: Pool,
    cells: Seq<Readiness>,
    after: Pool,
    now: Seq<Readiness>,
    cell: usize,
    c: usize,
)
    requires
        takes(before, cells, after, now, cell),
        c < cells.len(),
    ensures
        cell < now.len(),
        now[cell as int].read && now[cell as int].write == 2,
        c != cell ==> now[c as int] == cells[c as int],
        cells.len() <= now.len() <= cells.len() + 1,
        now.len() > cells.len() ==> before.held().contains(c),
        after.held().contains(cell) && !before.held().contains(cell),
        c != cell ==> (after.held().contains(c) <==> before.held().contains(c)),
        after.size() == now.len(),
{
}

} // verus!
