//! Errors of the selector, and errors of the host as the selector reads them.
use vstd::prelude::*;
use crate::wasi::{Errno, Event};

verus! {

/// The kinds of error that the selector tells apart.
#[derive(Clone, Copy, Debug, PartialEq, Eq, Structural)]
pub enum ErrorKind {
    /// What was named is not there.
    NotFound,
    /// Someone else is using what was asked for.
    ResourceBusy,
    /// An argument of a call was not valid.
    InvalidInput,
    /// The operation would have to wait.
    WouldBlock,
    /// Any other kind.
    Other,
}

/// An error of the selector.
#[derive(Clone, Copy, Debug, PartialEq, Eq, Structural)]
pub enum Error {
    /// An error of which only the kind is known.
    Simple(ErrorKind),
    /// An error code of the operating system.
    Os(i32),
}

/// An error that a host call returned: what the selector reads of it, and the error
/// itself, which is handed on unread.
#[derive(Debug)]
pub struct Failure<E> {
    pub kind: ErrorKind,
    pub raw_os_error: Option<i32>,
    pub source: E,
}

/// The error that an error code of the host stands for.
pub open spec fn error_of(errno: Errno) -> Error {
    Error::Os(errno as i32)
}

/// Convert an error code of the host into an error.
pub fn io_err(errno: Errno) -> (err: Error)
    ensures
        err == error_of(errno),
{
    Error::Os(errno as i32)
}

/// Whether the event at position `i` is the first that reports an error.
pub open spec fn is_first_error(events: Seq<Event>, i: int) -> bool {
    &&& 0 <= i < events.len()
    &&& events[i].error != 0
    &&& forall|j: int| 0 <= j < i ==> (#[trigger] events[j]).error == 0
}

/// Check all events for possible errors, it returns the first error found.
pub fn check_errors(events: &Vec<Event>) -> (r: Result<(), Error>)
    ensures
        r is Ok <==> (forall|i: int| 0 <= i < events@.len() ==> (#[trigger] events@[i]).error == 0),
        forall|i: int| #[trigger]
            is_first_error(events@, i) ==> r == Err::<(), Error>(error_of(events@[i].error)),
        r is Err ==> exists|i: int| #[trigger] is_first_error(events@, i),
        forall|i: int|
            0 <= i < events@.len() && (#[trigger] events@[i]).error != 0 && (forall|j: int|
                0 <= j < i ==> (#[trigger] events@[j]).error == 0) ==> (r matches Err(Error::Os(
                code,
            )) && code == events@[i].error),
{
    for k in 0..events.len()
        invariant
            forall|j: int| 0 <= j < k ==> (#[trigger] events@[j]).error == 0,
    {
        if events[k].error != 0 {
            assert(is_first_error(events@, k as int));
            return Err(io_err(events[k].error));
        }
    }
    Ok(())
}

/// An error keeps the code that the host reported.
pub proof fn law_error_keeps_the_code(errno: Errno)
    ensures
        error_of(errno) matches Error::Os(code) && code == errno,
{
}

} // verus!
