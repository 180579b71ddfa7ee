//! The selector for the WasmEdge host.
use vstd::prelude::*;
use crate::cells::{takes, Pool};
use crate::dispatch::{
    check_closing, closing_in_range, deliver, delivered, left_registered, spends_in, Spent,
    Verdict,
};
use crate::error::{Error, ErrorKind, Failure};
use crate::ident::id_after;
use crate::readiness::{after_io, note_io, Readiness};
use crate::registrations::{live, walks, wanted_in, Registration, Registrations};
use crate::timeout::{
    is_timeout, is_timeout_event, timeout_subscription, timeout_subscription_for,
};
use crate::token::{Interest, Token};
use crate::wasi::{
    descriptor, descriptor_of, hung_up, hung_up_in, Event, Fd, Subscription, EVENTTYPE_FD_READ,
    EVENTTYPE_FD_WRITE,
};

verus! {

/// A waker, which has no effect with this host.
#[derive(Debug)]
pub struct Waker {}

impl Waker {
    /// A waker; neither the selector nor the token is needed.
    pub fn new(_selector: &Selector, _token: Token) -> (r: Result<Waker, Error>)
        ensures
            r is Ok,
    {
        Ok(Waker {  })
    }

    /// Does nothing.
    pub fn wake(&self) -> (r: Result<(), Error>)
        ensures
            r is Ok,
    {
        Ok(())
    }
}

/// The registered descriptors.
pub struct Selector {
    pub id: usize,
    /// Subscriptions (reads events) we're interested in.
    pub subscriptions: Registrations,
}

impl Selector {
    /// The subscriptions that the registrations call for, in the order in which they happen
    /// to be walked.
    pub fn subscriptions(&self, cells: &Vec<Readiness>) -> (subs: Vec<Subscription>)
        requires
            live(self.subscriptions@, cells@),
        ensures
            exists|order: Seq<u32>|
                walks(order, self.subscriptions@) && subs@ == #[trigger] wanted_in(
                    self.subscriptions@,
                    order,
                    cells@,
                ),
    {
        self.subscriptions.subscriptions(cells)
    }

    /// A selector without registrations, whose number is taken from `next_id`.
    pub fn new(next_id: &mut usize) -> (r: Result<Selector, Error>)
        ensures
            r is Ok,
            r->Ok_0.id == *old(next_id),
            r->Ok_0.subscriptions@ == Map::<u32, Registration>::empty(),
            *final(next_id) == id_after(*old(next_id)),
    {
        let id: usize = *next_id;
        *next_id = id.wrapping_add(1);
        Ok(Selector { id, subscriptions: Registrations::new() })
    }

    /// The number of the selector.
    pub fn id(&self) -> (id: usize)
        ensures
            id == self.id,
    {
        self.id
    }

    /// The subscriptions that the host is to poll for [`Selector::select`].
    pub fn prepare_select(&self, timeout: Option<u128>, cells: &Vec<Readiness>) -> (
    subscriptions: Vec<Subscription>)
        requires
            live(self.subscriptions@, cells@),
        ensures
            exists|order: Seq<u32>|
                walks(order, self.subscriptions@) && subscriptions@ == #[trigger] wanted_in(
                    self.subscriptions@,
                    order,
                    cells@,
                ) + poll_tail(timeout),
    {
        let mut subscriptions = self.subscriptions(cells);
        let ghost wanted = subscriptions@;

        // If we want to use a timeout in the poll we need another subscription to the list.
        if let Some(timeout) = timeout {
            subscriptions.push(timeout_subscription(timeout));
        }
        assert(subscriptions@ =~= wanted + poll_tail(timeout));
        subscriptions
    }

    /// The verdict on one reported event.
    fn judge(&self, event: Event) -> (v: Verdict)
        ensures
            v == verdict(event, self.subscriptions@),
    {
        let mut v = Verdict {
            event,
            timeout: false,
            closing: false,
            deregistered: false,
            spent: Spent::Nothing,
        };
        if is_timeout_event(&event) {
            v.timeout = true;
            return v;
        }
        if hung_up(event.fd_readwrite.flags) {
            v.closing = true;
        }
        if let Some(reg) = self.subscriptions.get(descriptor(event.userdata)) {
            if event.type_ == EVENTTYPE_FD_READ {
                v.event.userdata = reg.token.0 as u64;
                v.spent = Spent::Read(reg.cell);
            } else if event.type_ == EVENTTYPE_FD_WRITE {
                v.event.userdata = reg.token.0 as u64;
                v.spent = Spent::Write(reg.cell);
            }
        }
        v
    }

    /// The verdicts on what the host has reported.
    fn judge_all(&self, polled: &Vec<Event>) -> (vs: Vec<Verdict>)
        ensures
            vs@ == verdicts(polled@, self.subscriptions@),
    {
        let mut vs: Vec<Verdict> = Vec::new();
        for k in 0..polled.len()
            invariant
                vs@ == verdicts(polled@, self.subscriptions@).take(k as int),
        {
            vs.push(self.judge(polled[k]));
        }
        assert(vs@ =~= verdicts(polled@, self.subscriptions@));
        vs
    }

    /// Whether [`Selector::select`] can take these events: each closing event still has its
    /// position once the end of the timeout is gone.
    pub fn can_take(&self, polled: &Vec<Event>, timeout: Option<u128>) -> (b: bool)
        ensures
            b == closing_in_range(verdicts(polled@, self.subscriptions@), timeout is Some),
    {
        check_closing(&self.judge_all(polled), timeout.is_some())
    }

    /// Takes what the host's poll of `length` subscriptions returned: the events that it
    /// reported, or its error.
    ///
    /// The events that the user is to see are put in `events`. Those of registered
    /// descriptors carry the token of the registration, and use up its readiness. That the
    /// host refuses to poll no subscriptions at all is no error.
    pub fn select<E>(
        &mut self,
        events: &mut Vec<Event>,
        timeout: Option<u128>,
        length: usize,
        res: Result<Vec<Event>, Failure<E>>,
        cells: &mut Vec<Readiness>,
    ) -> (r: Result<(), Failure<E>>)
        requires
            live(old(self).subscriptions@, old(cells)@),
            res matches Ok(polled) ==> closing_in_range(
                verdicts(polled@, old(self).subscriptions@),
                timeout is Some,
            ),
        ensures
            final(self).id == old(self).id,
            match res {
                Ok(polled) => {
                    let vs = verdicts(polled@, old(self).subscriptions@);
                    &&& r is Ok
                    &&& final(events)@ == delivered(vs, timeout is Some)
                    &&& final(self).subscriptions@ == left_registered(
                        old(self).subscriptions@,
                        vs,
                        timeout is Some,
                    )
                    &&& final(cells)@ == spent_from(old(cells)@, vs)
                },
                Err(failure) => {
                    &&& if failure.kind == ErrorKind::InvalidInput && length == 0 {
                        r is Ok
                    } else {
                        r == Err::<(), Failure<E>>(failure)
                    }
                    &&& final(events)@ == Seq::<Event>::empty()
                    &&& final(self).subscriptions@ == old(self).subscriptions@
                    &&& final(cells)@ == old(cells)@
                },
            },
    {
        events.clear();
        match res {
            Ok(polled) => {
                let vs = self.judge_all(&polled);
                spend(cells, &vs);
                *events = deliver(&vs, timeout.is_some(), &mut self.subscriptions);
                Ok(())
            },
            Err(failure) => {
                // return Ok when there is no subscriptions
                // otherwise, poll will return an error.
                if failure.kind == ErrorKind::InvalidInput && length == 0 {
                    Ok(())
                } else {
                    Err(failure)
                }
            },
        }
    }

    /// Registers `fd` under `token`; an earlier registration of it is replaced.
    pub fn register(&mut self, fd: Fd, token: Token, interests: Interest, cell: usize) -> (r:
        Result<(), Error>)
        ensures
            r is Ok,
            final(self).id == old(self).id,
            final(self).subscriptions@ == old(self).subscriptions@.insert(
                fd,
                Registration { token, interests, cell },
            ),
    {
        self.subscriptions.insert(fd, Registration { token, interests, cell });
        Ok(())
    }

    /// Registers `fd` anew; it is an error if it was not registered.
    pub fn reregister(&mut self, fd: Fd, token: Token, interests: Interest, cell: usize) -> (r:
        Result<(), Error>)
        ensures
            final(self).id == old(self).id,
            if old(self).subscriptions@.contains_key(fd) {
                &&& r is Ok
                &&& final(self).subscriptions@ == old(self).subscriptions@.insert(
                    fd,
                    Registration { token, interests, cell },
                )
            } else {
                &&& r == Err::<(), Error>(Error::Simple(ErrorKind::NotFound))
                &&& final(self).subscriptions@ == old(self).subscriptions@
            },
    {
        let ghost regs = self.subscriptions@;
        match self.deregister(fd) {
            Ok(()) => {
                let r = self.register(fd, token, interests, cell);
                assert(self.subscriptions@ =~= regs.insert(
                    fd,
                    Registration { token, interests, cell },
                ));
                r
            },
            Err(err) => {
                assert(self.subscriptions@ =~= regs);
                Err(err)
            },
        }
    }

    /// Takes the registration of `fd` out; it is an error if it was not registered.
    pub fn deregister(&mut self, fd: Fd) -> (r: Result<(), Error>)
        ensures
            r == (if old(self).subscriptions@.contains_key(fd) {
                Ok::<(), Error>(())
            } else {
                Err::<(), Error>(Error::Simple(ErrorKind::NotFound))
            }),
            final(self).id == old(self).id,
            final(self).subscriptions@ == old(self).subscriptions@.remove(fd),
    {
        self.subscriptions.remove(fd)
    }

    /// Whether a waker was made for this selector: never, as wakers have no effect.
    pub fn register_waker(&self) -> (b: bool)
        ensures
            !b,
    {
        false
    }
}

/// What a poll waits for besides the registered descriptors: the timeout if there is one.
pub open spec fn poll_tail(timeout: Option<u128>) -> Seq<Subscription> {
    match timeout {
        Some(nanos) => seq![timeout_subscription_for(nanos)],
        None => seq![],
    }
}

/// The verdict on one reported event.
///
/// An event on a registered descriptor that is ready to read or to write gets the token of
/// the registration, and uses its readiness up.
pub open spec fn verdict(event: Event, regs: Map<u32, Registration>) -> Verdict {
    let fd = descriptor_of(event.userdata);
    let plain = Verdict {
        event,
        timeout: false,
        closing: hung_up_in(event.fd_readwrite.flags),
        deregistered: false,
        spent: Spent::Nothing,
    };
    if is_timeout(event) {
        Verdict { timeout: true, closing: false, ..plain }
    } else if regs.contains_key(fd) && event.type_ == EVENTTYPE_FD_READ {
        Verdict {
            event: Event { userdata: regs[fd].token.0 as u64, ..event },
            spent: Spent::Read(regs[fd].cell),
            ..plain
        }
    } else if regs.contains_key(fd) && event.type_ == EVENTTYPE_FD_WRITE {
        Verdict {
            event: Event { userdata: regs[fd].token.0 as u64, ..event },
            spent: Spent::Write(regs[fd].cell),
            ..plain
        }
    } else {
        plain
    }
}

/// The verdicts on what the host has reported.
pub open spec fn verdicts(polled: Seq<Event>, regs: Map<u32, Registration>) -> Seq<Verdict> {
    Seq::new(polled.len(), |i: int| verdict(polled[i], regs))
}

/// How many of the verdicts use up the readiness `spent`.
pub open spec fn times_spent(verdicts: Seq<Verdict>, spent: Spent) -> nat
    decreases verdicts.len(),
{
    if verdicts.len() == 0 {
        0
    } else {
        times_spent(verdicts.drop_last(), spent) + (if verdicts.last().spent == spent {
            1nat
        } else {
            0nat
        })
    }
}

/// `from`, counted down `times` times; below 0 the count goes on at the largest number.
pub open spec fn counted_down(from: usize, times: nat) -> usize {
    ((from - times) % (usize::MAX + 1)) as usize
}

/// The cells once the verdicts have used readiness up: nothing is left of readiness to read
/// that an event has used, and each event that uses readiness to write counts it down.
pub open spec fn spent_from(cells: Seq<Readiness>, verdicts: Seq<Verdict>) -> Seq<Readiness> {
    Seq::new(
        cells.len(),
        |c: int|
            Readiness {
                read: cells[c].read && times_spent(verdicts, Spent::Read(c as usize)) == 0,
                write: counted_down(
                    cells[c].write,
                    times_spent(verdicts, Spent::Write(c as usize)),
                ),
            },
    )
}

/// Uses up the readiness that the verdicts call for.
fn spend(cells: &mut Vec<Readiness>, verdicts: &Vec<Verdict>)
    requires
        spends_in(verdicts@, old(cells)@.len()),
    ensures
        final(cells)@ == spent_from(old(cells)@, verdicts@),
{
    let ghost before = cells@;
    proof {
        assert forall|c: int| 0 <= c < before.len() implies counted_down(before[c].write, 0)
            == before[c].write by {
            lemma_counted_down(before[c].write, 0);
        }
        assert(cells@ =~= spent_from(before, verdicts@.take(0)));
    }
    for k in 0..verdicts.len()
        invariant
            cells.len() == before.len(),
            spends_in(verdicts@, before.len()),
            cells@ == spent_from(before, verdicts@.take(k as int)),
    {
        let spent = verdicts[k].spent;
        match spent {
            Spent::Nothing => {},
            Spent::Read(cell) => {
                let write: usize = cells[cell].write;
                cells.set(cell, Readiness { read: false, write });
            },
            Spent::Write(cell) => {
                let read: bool = cells[cell].read;
                let write: usize = cells[cell].write.wrapping_sub(1);
                cells.set(cell, Readiness { read, write });
            },
        }
        proof {
            let now = verdicts@.take(k + 1);
            let then = verdicts@.take(k as int);
            assert(now.drop_last() =~= then);
            assert(before.len() <= usize::MAX);
            assert forall|c: int| 0 <= c < before.len() implies #[trigger] cells@[c] == spent_from(
                before,
                now,
            )[c] by {
                assert(c as usize == c);
                lemma_counted_down(before[c].write, times_spent(then, Spent::Write(c as usize)));
            }
            assert(cells@ =~= spent_from(before, now));
        }
    }
    assert(verdicts@.take(verdicts@.len() as int) =~= verdicts@);
}

/// Counting down once more.
proof fn lemma_counted_down(from: usize, times: nat)
    ensures
        counted_down(from, 0) == from,
        counted_down(from, times + 1) == (if counted_down(from, times) == 0 {
            usize::MAX as int
        } else {
            counted_down(from, times) - 1
        }),
{
    let m = usize::MAX + 1;
    let x = (from - times) % m;
    vstd::arithmetic::div_mod::lemma_small_mod(from as nat, m as nat);
    vstd::arithmetic::div_mod::lemma_mod_bound(from - times, m);
    vstd::arithmetic::div_mod::lemma_sub_mod_noop(from - times, 1, m);
    vstd::arithmetic::div_mod::lemma_small_mod(1, m as nat);
    if x > 0 {
        vstd::arithmetic::div_mod::lemma_small_mod((x - 1) as nat, m as nat);
    } else {
        vstd::arithmetic::div_mod::lemma_mod_add_multiples_vanish(-1, m);
        vstd::arithmetic::div_mod::lemma_small_mod((m - 1) as nat, m as nat);
    }
}

/// A source of events, as its owner holds it: the cell of its readiness.
#[derive(Debug)]
pub struct IoSourceState {
    pub cell: usize,
}

impl IoSourceState {
    /// A source that can be polled for everything; its readiness gets a cell that no one else
    /// holds.
    pub fn new(pool: &mut Pool, cells: &mut Vec<Readiness>) -> (source: IoSourceState)
        requires
            old(pool).wf(),
            old(pool).size() == old(cells)@.len(),
        ensures
            takes(*old(pool), old(cells)@, *final(pool), final(cells)@, source.cell),
    {
        IoSourceState { cell: pool.take(cells) }
    }

    /// Takes note of the outcome of an operation on the source, and hands the outcome back:
    /// after one that succeeded, or that would have to wait, the source can again be polled
    /// for everything.
    pub fn do_io<R, E>(
        &self,
        cells: &mut Vec<Readiness>,
        outcome: Result<R, Failure<E>>,
    ) -> (r: Result<R, Failure<E>>)
        requires
            self.cell < old(cells)@.len(),
        ensures
            r == outcome,
            final(cells)@ == after_io(old(cells)@, self.cell, outcome),
    {
        note_io(cells, self.cell, outcome)
    }

    /// Registers the source with `selector`.
    pub fn register(
        &mut self,
        selector: &mut Selector,
        token: Token,
        interests: Interest,
        fd: i32,
    ) -> (r: Result<(), Error>)
        ensures
            r is Ok,
            *final(self) == *old(self),
            final(selector).id == old(selector).id,
            final(selector).subscriptions@ == old(selector).subscriptions@.insert(
                fd as u32,
                Registration { token, interests, cell: old(self).cell },
            ),
    {
        selector.register(fd as u32, token, interests, self.cell)
    }

    /// Registers the source with `selector` anew; it is an error if it was not registered.
    pub fn reregister(
        &mut self,
        selector: &mut Selector,
        token: Token,
        interests: Interest,
        fd: i32,
    ) -> (r: Result<(), Error>)
        ensures
            *final(self) == *old(self),
            final(selector).id == old(selector).id,
            if old(selector).subscriptions@.contains_key(fd as u32) {
                &&& r is Ok
                &&& final(selector).subscriptions@ == old(selector).subscriptions@.insert(
                    fd as u32,
                    Registration { token, interests, cell: old(self).cell },
                )
            } else {
                &&& r == Err::<(), Error>(Error::Simple(ErrorKind::NotFound))
                &&& final(selector).subscriptions@ == old(selector).subscriptions@
            },
    {
        selector.reregister(fd as u32, token, interests, self.cell)
    }

    /// Takes the source's registration with `selector` out; it is an error if it was not
    /// registered.
    pub fn deregister(&mut self, selector: &mut Selector, fd: i32) -> (r: Result<(), Error>)
        ensures
            *final(self) == *old(self),
            r == (if old(selector).subscriptions@.contains_key(fd as u32) {
                Ok::<(), Error>(())
            } else {
                Err::<(), Error>(Error::Simple(ErrorKind::NotFound))
            }),
            final(selector).id == old(selector).id,
            final(selector).subscriptions@ == old(selector).subscriptions@.remove(fd as u32),
    {
        selector.deregister(fd as u32)
    }
}

} // verus!
