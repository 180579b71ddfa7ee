//! Decisions on TCP sockets, from what the host's socket calls return.
use vstd::prelude::*;
use crate::error::Failure;

verus! {

/// Whether some platform gives a connection that is still being made this error code.
pub open spec fn in_progress_somewhere(code: i32) -> bool {
    ||| code == 26
    ||| code == 36
    ||| code == 55
    ||| code == 68
    ||| code == 112
    ||| code == 115
    ||| code == 119
    ||| code == 150
    ||| code == 236
    ||| code == 1073741860
    ||| code == -2147454940
}

/// `libc::EINPROGRESS`: the error code of a connection that is still being made. Its value
/// is that of the platform that the library is compiled for. The `libc` crate defines it for
/// each platform that has it; it is one of those values, and which one is not said here.
#[verifier::external_body]
pub(crate) fn einprogress() -> (code: i32)
    ensures
        in_progress_somewhere(code),
{
    libc::EINPROGRESS
}

/// The outcome of a connect call where `in_progress` is the code of a connection that is
/// still being made: that one is no failure.
pub open spec fn connected<E>(outcome: Result<(), Failure<E>>, in_progress: i32) -> Result<
    (),
    Failure<E>,
> {
    match outcome {
        Ok(_) => Ok(()),
        Err(failure) => if failure.raw_os_error == Some(in_progress) {
            Ok(())
        } else {
            Err(failure)
        },
    }
}

/// The outcome of a connect call where `in_progress` is the code of a connection that is
/// still being made.
pub fn connect_with<E>(outcome: Result<(), Failure<E>>, in_progress: i32) -> (r: Result<
    (),
    Failure<E>,
>)
    ensures
        r == connected(outcome, in_progress),
{
    match outcome {
        Ok(()) => Ok(()),
        Err(failure) => {
            let pending: bool = match failure.raw_os_error {
                Some(code) => code == in_progress,
                None => false,
            };
            if pending {
                Ok(())
            } else {
                Err(failure)
            }
        },
    }
}

/// The outcome of a connect call on a socket that does not block: a connection that is still
/// being made is no failure. An error that no platform gives such a connection comes back as it
/// was; which of the platforms' codes is the one here is not said.
pub fn connect<E>(outcome: Result<(), Failure<E>>) -> (r: Result<(), Failure<E>>)
    ensures
        exists|in_progress: i32|
            in_progress_somewhere(in_progress) && r == #[trigger] connected(outcome, in_progress),
        outcome is Ok ==> r is Ok,
        outcome matches Err(failure) ==> match failure.raw_os_error {
            Some(code) => !in_progress_somewhere(code) ==> r == outcome,
            None => r == outcome,
        },
{
    let in_progress: i32 = einprogress();
    connect_with(outcome, in_progress)
}

/// The backlog that a listen call gets: what was asked for, as far as it fits.
pub fn listen_backlog(backlog: u32) -> (fitting: i32)
    ensures
        fitting == (if backlog <= i32::MAX { backlog as int } else { i32::MAX as int }),
{
    if backlog <= 0x7fff_ffff {
        backlog as i32
    } else {
        i32::MAX
    }
}

/// A connect call has failed exactly if it returned an error with another code than that of a
/// connection that is still being made, and that error is handed on as it is.
pub proof fn law_pending_is_the_only_failure_let_off<E>(
    outcome: Result<(), Failure<E>>,
    in_progress: i32,
)
    ensures
        connected(outcome, in_progress) is Err <==> outcome is Err
            && outcome->Err_0.raw_os_error != Some(in_progress),
        connected(outcome, in_progress) is Err ==> connected(outcome, in_progress) == outcome,
{
}

} // verus!
