//! What a source may still be polled for.
//!
//! A source that was reported as ready is not asked for again until it has been used: its
//! readiness is spent by the event and restored by the next operation on it. The source
//! and its registration both refer to the readiness, so it lies in a cell of its own: a
//! position in a vector of cells, which both of them hold.
use vstd::prelude::*;
use crate::error::{ErrorKind, Failure};

verus! {

/// What a source may still be polled for: whether for reading, and how many more times for
/// writing.
#[derive(Clone, Copy, Debug, PartialEq, Eq, Structural)]
pub struct Readiness {
    pub read: bool,
    pub write: usize,
}

/// How many times a source may be polled for writing before it is used again.
pub const WRITE_CREDIT: usize = 2;

/// The readiness of a source that nothing was reported of since it was last used.
pub open spec fn armed() -> Readiness {
    Readiness { read: true, write: WRITE_CREDIT }
}

impl Readiness {
    /// The readiness of a source that nothing was reported of since it was last used.
    pub fn new() -> (r: Readiness)
        ensures
            r == armed(),
    {
        Readiness { read: true, write: WRITE_CREDIT }
    }
}

/// Whether an operation with this outcome has used the source: it succeeded, or it found
/// that it would have to wait.
pub open spec fn rearms<R, E>(outcome: Result<R, Failure<E>>) -> bool {
    match outcome {
        Ok(_) => true,
        Err(failure) => failure.kind == ErrorKind::WouldBlock,
    }
}

/// The cells after an operation on the source that holds `cell`.
pub open spec fn after_io<R, E>(
    cells: Seq<Readiness>,
    cell: usize,
    outcome: Result<R, Failure<E>>,
) -> Seq<Readiness> {
    if rearms(outcome) {
        cells.update(cell as int, armed())
    } else {
        cells
    }
}

/// Takes note of the outcome of an operation on the source that holds `cell`, and hands
/// the outcome back.
pub fn note_io<R, E>(
    cells: &mut Vec<Readiness>,
    cell: usize,
    outcome: Result<R, Failure<E>>,
) -> (r: Result<R, Failure<E>>)
    requires
        cell < old(cells)@.len(),
    ensures
        r == outcome,
        final(cells)@ == after_io(old(cells)@, cell, outcome),
{
    let used: bool = match &outcome {
        Ok(_) => true,
        Err(failure) => failure.kind == ErrorKind::WouldBlock,
    };
    if used {
        cells.set(cell, Readiness::new());
    }
    outcome
}

/// An operation on a source changes the readiness of no other source, and one that fails in
/// any way but having to wait changes none at all.
pub proof fn law_io_is_local<R, E>(
    cells: Seq<Readiness>,
    cell: usize,
    other: int,
    outcome: Result<R, Failure<E>>,
)
    requires
        cell < cells.len(),
        0 <= other < cells.len(),
    ensures
        after_io(cells, cell, outcome).len() == cells.len(),
        other != cell ==> after_io(cells, cell, outcome)[other] == cells[other],
        rearms(outcome) ==> after_io(cells, cell, outcome)[cell as int] == armed(),
        !rearms(outcome) ==> after_io(cells, cell, outcome) == cells,
{
}

/// A source can be polled for reading, and twice for writing, from when it is made and from
/// each operation that succeeded or would have to wait; any other failure leaves it as it is,
/// and no operation has to do with the readiness of another source.
pub proof fn law_io_gives_readiness_back<R, E>(
    cells: Seq<Readiness>,
    cell: usize,
    outcome: Result<R, Failure<E>>,
    c: int,
)
    requires
        cell < cells.len(),
        0 <= c < cells.len(),
    ensures
        armed().read && armed().write == 2,
        after_io(cells, cell, outcome).len() == cells.len(),
        ({
            let used = match outcome {
                Ok(_) => true,
                Err(failure) => failure.kind == ErrorKind::WouldBlock,
            };
            let after = after_io(cells, cell, outcome)[c];
            &&& c == cell && used ==> after.read && after.write == 2
            &&& c != cell || !used ==> after == cells[c]
        }),
{
}

} // verus!
