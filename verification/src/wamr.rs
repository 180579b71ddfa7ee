//! The selector for the WAMR host.
//!
//! A poll can be interrupted from another thread: it also waits on a socket that serves no
//! other purpose, and dropping that socket makes the poll return.
use vstd::prelude::*;
use crate::cells::{takes, Pool};
use crate::dispatch::{
    check_closing, closing_in_range, deliver, delivered, left_registered, spends_in, Spent,
    Verdict,
};
use crate::error::{Error, ErrorKind, Failure};
use crate::ident::id_after;
use crate::readiness::{after_io, note_io, Readiness};
use crate::registrations::{live, walks, wanted_in, Registration, Registrations};
use crate::timeout::{
    is_timeout, is_timeout_event, timeout_subscription, timeout_subscription_for,
};
use crate::token::{Interest, Token};
use crate::wasi::{
    descriptor, descriptor_of, errno_badf, hung_up, hung_up_in, Event, EventFdReadwrite, Fd,
    Subscription, SubscriptionU, ERRNO_BADF, EVENTTYPE_FD_READ, EVENTTYPE_FD_WRITE,
};

verus! {

/// Poll State machine
///
/// `S` is the socket that a poll waits on besides the registered descriptors.
/// Transitioning out of the [`PollState::Polling`] state drops the socket, which wakes the
/// poll call.
#[derive(Debug)]
pub enum PollState<S> {
    /// Default state: causes next [`Selector::select`] call to run poll to completion
    ///
    /// Next state:
    ///  - -> Polling : when the [`Selector::prepare_poll`] function is called
    Reset,
    /// Polling in an other thread
    ///
    /// Next states:
    ///  - -> Finished : when the poll call terminates
    ///  - -> Reset : when an internal event causes the poll to rerun
    ///  - -> WakerEvent : when a waker wakes
    Polling(S),
    /// Waking state: the current or next call to [`Selector::select`] will return early with
    /// a Waker event
    ///
    /// Next states:
    ///  - -> Reset : when the waker event is processed and the [`Selector::select`] function
    ///    returns
    WakerEvent,
    /// Bookkeeping: [`Selector::do_poll`] is returning and hasn't yet rearmed the state
    ///
    /// Next states:
    ///  - -> Reset : when the output is processed and the [`Selector::select`] function
    ///    returns
    Finished,
}

impl<S> PollState<S> {
    /// The state after a waker has woken.
    pub open spec fn woken(self) -> PollState<S> {
        PollState::WakerEvent
    }

    /// The state after an internal event that makes a poll under way run again.
    pub open spec fn rerun(self) -> PollState<S> {
        match self {
            PollState::Polling(_) => PollState::Reset,
            _ => self,
        }
    }

    /// The state after the poll call has returned.
    pub open spec fn polled(self) -> PollState<S> {
        match self {
            PollState::Polling(_) => PollState::Finished,
            _ => self,
        }
    }
}

impl<S> Default for PollState<S> {
    fn default() -> (state: PollState<S>)
        ensures
            state == PollState::<S>::Reset,
    {
        PollState::Reset
    }
}

/// What a waker and its selector share: the name that waker events carry, and the state of
/// the poll.
#[derive(Debug)]
pub struct WakerInner<S> {
    pub token: Option<Token>,
    pub state: PollState<S>,
}

impl<S> Default for WakerInner<S> {
    fn default() -> (waker: WakerInner<S>)
        ensures
            waker == (WakerInner { token: None, state: PollState::<S>::Reset }),
    {
        WakerInner { token: None, state: PollState::Reset }
    }
}

/// The userdata of a waker event: the waker's token, 0 where no waker was made.
pub open spec fn waker_userdata(token: Option<Token>) -> u64 {
    match token {
        Some(t) => t.0 as u64,
        None => 0,
    }
}

/// The event with which a user hears that a waker has woken.
pub open spec fn waker_event(token: Option<Token>) -> Event {
    Event {
        userdata: waker_userdata(token),
        error: 0,
        type_: EVENTTYPE_FD_READ,
        fd_readwrite: EventFdReadwrite { nbytes: 0, flags: 0 },
    }
}

impl<S> WakerInner<S> {
    /// Makes the current or next call to [`Selector::select`] return with a waker event.
    pub fn wake(&mut self) -> (r: Result<(), Error>)
        ensures
            r is Ok,
            final(self).state == old(self).state.woken(),
            final(self).token == old(self).token,
    {
        self.state = PollState::WakerEvent;
        Ok(())
    }

    /// Makes a poll under way run again.
    pub fn wake_rerun(&mut self) -> (r: Result<(), Error>)
        ensures
            r is Ok,
            final(self).state == old(self).state.rerun(),
            final(self).token == old(self).token,
    {
        // only set rerun if the socket is currently polling
        // avoid a race condition between [`wake`] and [`wake_rerun`] leading to a rerun
        if matches!(self.state, PollState::Polling(_)) {
            self.state = PollState::Reset;
        }
        Ok(())
    }

    /// The userdata of a waker event.
    fn userdata(&self) -> (userdata: u64)
        ensures
            userdata == waker_userdata(self.token),
    {
        match self.token {
            Some(t) => t.0 as u64,
            None => 0,
        }
    }

    /// The event with which a user hears that the waker has woken.
    pub fn event(&self) -> (event: Event)
        ensures
            event == waker_event(self.token),
    {
        Event {
            userdata: self.userdata(),
            error: 0,
            type_: EVENTTYPE_FD_READ,
            fd_readwrite: EventFdReadwrite { nbytes: 0, flags: 0 },
        }
    }
}

/// A handle by which a call to [`Selector::select`] is made to return: the part of the
/// selector that a waker acts on.
#[derive(Debug)]
pub struct Waker<S>(pub WakerInner<S>);

impl<S> Default for Waker<S> {
    fn default() -> (waker: Waker<S>)
        ensures
            waker.0 == (WakerInner { token: None, state: PollState::<S>::Reset }),
    {
        Waker(WakerInner::default())
    }
}

impl<S> Waker<S> {
    /// The waker of `selector`, whose events carry `token` from now on.
    pub fn new(selector: &mut Selector<S>, token: Token) -> (r: Result<&mut Waker<S>, Error>)
        ensures
            r is Ok,
            r->Ok_0.0 == (WakerInner { token: Some(token), state: old(selector).waker.0.state }),
            *final(selector) == (Selector { waker: *final(r->Ok_0), ..*old(selector) }),
    {
        selector.waker(token)
    }

    /// Makes the current or next call to [`Selector::select`] return with a waker event.
    pub fn wake(&mut self) -> (r: Result<(), Error>)
        ensures
            r is Ok,
            final(self).0.state == old(self).0.state.woken(),
            final(self).0.token == old(self).0.token,
    {
        self.0.wake()
    }
}

/// The registered descriptors and the state of the poll on them.
pub struct Selector<S> {
    pub id: usize,
    /// Subscriptions (reads events) we're interested in.
    pub subscriptions: Registrations,
    /// waker system for this Selector
    pub waker: Waker<S>,
}

impl<S> Selector<S> {
    /// The selector's waker, whose events carry `token` from now on.
    pub fn waker(&mut self, token: Token) -> (r: Result<&mut Waker<S>, Error>)
        ensures
            r is Ok,
            r->Ok_0.0 == (WakerInner { token: Some(token), state: old(self).waker.0.state }),
            *final(self) == (Selector { waker: *final(r->Ok_0), ..*old(self) }),
    {
        self.waker.0.token = Some(token);
        Ok(&mut self.waker)
    }

    /// A selector without registrations, whose number is taken from `next_id`.
    pub fn new(next_id: &mut usize) -> (r: Result<Selector<S>, Error>)
        ensures
            r is Ok,
            r->Ok_0.id == *old(next_id),
            r->Ok_0.subscriptions@ == Map::<u32, Registration>::empty(),
            r->Ok_0.waker.0 == (WakerInner { token: None, state: PollState::<S>::Reset }),
            *final(next_id) == id_after(*old(next_id)),
    {
        let id: usize = *next_id;
        *next_id = id.wrapping_add(1);
        Ok(Selector { id, subscriptions: Registrations::new(), waker: Waker::default() })
    }

    /// The number of the selector.
    pub fn id(&self) -> (id: usize)
        ensures
            id == self.id,
    {
        self.id
    }

    /// What [`Selector::select`] has to do next, from the state of the poll.
    ///
    /// A poll that is due is left to the caller, who then asks again: it calls
    /// [`Selector::prepare_poll`], has the host poll, and calls [`Selector::do_poll`].
    pub fn select(&mut self, events: &mut Vec<Event>) -> (r: Result<Step, Error>)
        ensures
            final(self).id == old(self).id,
            final(self).subscriptions@ == old(self).subscriptions@,
            final(self).waker.0.token == old(self).waker.0.token,
            r == step(old(self).waker.0.state),
            final(self).waker.0.state == state_after_select(old(self).waker.0.state),
            final(events)@ == events_after_select(old(self).waker.0, old(events)@),
    {
        match &self.waker.0.state {
            PollState::Reset => Ok(Step::Poll),
            PollState::WakerEvent => {
                self.waker.0.state = PollState::Reset;
                events.clear();
                events.push(self.waker.0.event());
                assert(events@ =~= seq![waker_event(old(self).waker.0.token)]);
                Ok(Step::Return)
            },
            PollState::Finished => {
                self.waker.0.state = PollState::Reset;
                Ok(Step::Return)
            },
            PollState::Polling(_) => Err(Error::Simple(ErrorKind::ResourceBusy)),
        }
    }

    /// Collect the subscriptions and set the state for a poll to occur
    ///
    /// The host is to poll the subscriptions once this function has returned. By changing the
    /// selector in one step, this makes the following atomic for those who share it:
    /// - fetch the current list of subscriptions
    /// - set the Polling state
    ///
    /// `waker_socket` is the socket by which the poll can be interrupted, `waker_fd` its
    /// descriptor.
    pub fn prepare_poll(
        &mut self,
        timeout: Option<u128>,
        waker_socket: S,
        waker_fd: i32,
        cells: &Vec<Readiness>,
    ) -> (subscriptions: Vec<Subscription>)
        requires
            live(old(self).subscriptions@, cells@),
        ensures
            final(self).id == old(self).id,
            final(self).subscriptions@ == old(self).subscriptions@,
            final(self).waker.0 == (WakerInner {
                token: old(self).waker.0.token,
                state: PollState::Polling(waker_socket),
            }),
            exists|order: Seq<u32>|
                walks(order, old(self).subscriptions@) && subscriptions@ == #[trigger] wanted_in(
                    old(self).subscriptions@,
                    order,
                    cells@,
                ) + poll_tail(waker_fd, timeout),
    {
        self.waker.0.state = PollState::Polling(waker_socket);

        let mut subscriptions = self.subscriptions(cells);
        let ghost wanted = subscriptions@;

        subscriptions.push(
            Subscription { userdata: waker_fd as u64, u: SubscriptionU::FdRead(waker_fd as u32) },
        );

        // If we want to use a timeout in the poll we need another subscription to the list.
        if let Some(timeout) = timeout {
            subscriptions.push(timeout_subscription(timeout));
        }
        assert(subscriptions@ =~= wanted + poll_tail(waker_fd, timeout));
        subscriptions
    }

    /// The subscriptions that the registrations call for, in the order in which they happen
    /// to be walked.
    pub fn subscriptions(&self, cells: &Vec<Readiness>) -> (subs: Vec<Subscription>)
        requires
            live(self.subscriptions@, cells@),
        ensures
            exists|order: Seq<u32>|
                walks(order, self.subscriptions@) && subs@ == #[trigger] wanted_in(
                    self.subscriptions@,
                    order,
                    cells@,
                ),
    {
        self.subscriptions.subscriptions(cells)
    }

    /// The verdict on one reported event.
    fn judge(&self, event: Event, waker_fd: Fd) -> (v: Verdict)
        ensures
            v == verdict(event, waker_fd, self.waker.0.token, self.subscriptions@),
    {
        let fd: u32 = descriptor(event.userdata);
        let mut v = Verdict {
            event,
            timeout: false,
            closing: false,
            deregistered: false,
            spent: Spent::Nothing,
        };
        if fd == waker_fd {
            v.event.fd_readwrite.flags = 0;
            v.event.userdata = self.waker.0.userdata();
            return v;
        }
        if is_timeout_event(&event) {
            v.timeout = true;
            return v;
        }
        if hung_up(event.fd_readwrite.flags) || event.error == errno_badf() {
            v.closing = true;
        }
        match self.subscriptions.get(fd) {
            Some(reg) => {
                if event.type_ == EVENTTYPE_FD_READ {
                    v.event.userdata = reg.token.0 as u64;
                    v.spent = Spent::Read(reg.cell);
                } else if event.type_ == EVENTTYPE_FD_WRITE {
                    v.event.userdata = reg.token.0 as u64;
                    v.spent = Spent::Write(reg.cell);
                }
            },
            None => {
                v.deregistered = true;
            },
        }
        v
    }

    /// The verdicts on what the host has reported.
    fn judge_all(&self, polled: &Vec<Event>, waker_fd: Fd) -> (vs: Vec<Verdict>)
        ensures
            vs@ == verdicts(polled@, waker_fd, self.waker.0.token, self.subscriptions@),
    {
        let mut vs: Vec<Verdict> = Vec::new();
        for k in 0..polled.len()
            invariant
                vs@ == verdicts(
                    polled@,
                    waker_fd,
                    self.waker.0.token,
                    self.subscriptions@,
                ).take(k as int),
        {
            vs.push(self.judge(polled[k], waker_fd));
        }
        assert(vs@ =~= verdicts(polled@, waker_fd, self.waker.0.token, self.subscriptions@));
        vs
    }

    /// Whether [`Selector::do_poll`] can take these events: each closing event still has its
    /// position once the end of the timeout is gone.
    pub fn can_take(&self, polled: &Vec<Event>, timeout: Option<u128>, waker_fd: Fd) -> (b: bool)
        ensures
            b == closing_in_range(
                verdicts(polled@, waker_fd, self.waker.0.token, self.subscriptions@),
                timeout is Some,
            ),
    {
        check_closing(&self.judge_all(polled, waker_fd), timeout.is_some())
    }

    /// Takes what the host's poll returned: the events that it reported, or its error.
    ///
    /// The events that the user is to see are put in `events`. Those of registered
    /// descriptors carry the token of the registration, and use up its readiness.
    ///
    /// When this returns, the [`PollState`] is either [`PollState::Finished`] or
    /// [`PollState::Reset`], unless a waker has woken since the poll began.
    pub fn do_poll<E>(
        &mut self,
        events: &mut Vec<Event>,
        timeout: Option<u128>,
        waker_fd: Fd,
        res: Result<Vec<Event>, E>,
        cells: &mut Vec<Readiness>,
    ) -> (r: Result<(), E>)
        requires
            live(old(self).subscriptions@, old(cells)@),
            res matches Ok(polled) ==> closing_in_range(
                verdicts(polled@, waker_fd, old(self).waker.0.token, old(self).subscriptions@),
                timeout is Some,
            ),
        ensures
            final(self).id == old(self).id,
            final(self).waker.0.token == old(self).waker.0.token,
            final(self).waker.0.state == old(self).waker.0.state.polled(),
            match res {
                Ok(polled) => {
                    let vs = verdicts(
                        polled@,
                        waker_fd,
                        old(self).waker.0.token,
                        old(self).subscriptions@,
                    );
                    &&& r is Ok
                    &&& final(events)@ == delivered(vs, timeout is Some)
                    &&& final(self).subscriptions@ == left_registered(
                        old(self).subscriptions@,
                        vs,
                        timeout is Some,
                    )
                    &&& final(cells)@ == spent_from(old(cells)@, vs)
                },
                Err(err) => {
                    &&& r == Err::<(), E>(err)
                    &&& final(events)@ == Seq::<Event>::empty()
                    &&& final(self).subscriptions@ == old(self).subscriptions@
                    &&& final(cells)@ == old(cells)@
                },
            },
    {
        if matches!(self.waker.0.state, PollState::Polling(_)) {
            self.waker.0.state = PollState::Finished;
        }
        match res {
            Ok(polled) => {
                let vs = self.judge_all(&polled, waker_fd);
                spend(cells, &vs);
                *events = deliver(&vs, timeout.is_some(), &mut self.subscriptions);
                Ok(())
            },
            Err(err) => {
                events.clear();
                Err(err)
            },
        }
    }

    /// Registers `fd` under `token`; an earlier registration of it is replaced. A poll under
    /// way runs again, so that it takes the descriptor in.
    pub fn register(&mut self, fd: Fd, token: Token, interests: Interest, cell: usize) -> (r:
        Result<(), Error>)
        ensures
            r is Ok,
            final(self).id == old(self).id,
            final(self).subscriptions@ == old(self).subscriptions@.insert(
                fd,
                Registration { token, interests, cell },
            ),
            final(self).waker.0.token == old(self).waker.0.token,
            final(self).waker.0.state == old(self).waker.0.state.rerun(),
    {
        self.subscriptions.insert(fd, Registration { token, interests, cell });
        self.waker.0.wake_rerun()
    }

    /// Registers `fd` anew; it is an error if it was not registered.
    pub fn reregister(&mut self, fd: Fd, token: Token, interests: Interest, cell: usize) -> (r:
        Result<(), Error>)
        ensures
            final(self).id == old(self).id,
            final(self).waker.0.token == old(self).waker.0.token,
            if old(self).subscriptions@.contains_key(fd) {
                &&& r is Ok
                &&& final(self).subscriptions@ == old(self).subscriptions@.insert(
                    fd,
                    Registration { token, interests, cell },
                )
                &&& final(self).waker.0.state == old(self).waker.0.state.rerun()
            } else {
                &&& r == Err::<(), Error>(Error::Simple(ErrorKind::NotFound))
                &&& final(self).subscriptions@ == old(self).subscriptions@
                &&& final(self).waker.0.state == old(self).waker.0.state
            },
    {
        let ghost regs = self.subscriptions@;
        match self.deregister(fd) {
            Ok(()) => {
                let r = self.register(fd, token, interests, cell);
                assert(self.subscriptions@ =~= regs.insert(
                    fd,
                    Registration { token, interests, cell },
                ));
                r
            },
            Err(err) => {
                assert(self.subscriptions@ =~= regs);
                Err(err)
            },
        }
    }

    /// Takes the registration of `fd` out; it is an error if it was not registered.
    pub fn deregister(&mut self, fd: Fd) -> (r: Result<(), Error>)
        ensures
            r == (if old(self).subscriptions@.contains_key(fd) {
                Ok::<(), Error>(())
            } else {
                Err::<(), Error>(Error::Simple(ErrorKind::NotFound))
            }),
            final(self).id == old(self).id,
            final(self).subscriptions@ == old(self).subscriptions@.remove(fd),
            final(self).waker == old(self).waker,
    {
        self.subscriptions.remove(fd)
    }

    /// Whether a waker was made for this selector.
    pub fn register_waker(&self) -> (b: bool)
        ensures
            b == (self.waker.0.token is Some),
    {
        self.waker.0.token.is_some()
    }
}

/// What the caller of [`Selector::select`] has to do next.
#[derive(Clone, Copy, Debug, PartialEq, Eq, Structural)]
pub enum Step {
    /// Have the host poll, and ask again.
    Poll,
    /// Return to the user.
    Return,
}

/// What is to be done next in a state of the poll.
pub open spec fn step<S>(state: PollState<S>) -> Result<Step, Error> {
    match state {
        PollState::Reset => Ok(Step::Poll),
        PollState::WakerEvent => Ok(Step::Return),
        PollState::Finished => Ok(Step::Return),
        PollState::Polling(_) => Err(Error::Simple(ErrorKind::ResourceBusy)),
    }
}

/// The state after [`Selector::select`] has decided.
pub open spec fn state_after_select<S>(state: PollState<S>) -> PollState<S> {
    match state {
        PollState::WakerEvent => PollState::Reset,
        PollState::Finished => PollState::Reset,
        _ => state,
    }
}

/// The events after [`Selector::select`] has decided: a waker event takes the place of all
/// others.
pub open spec fn events_after_select<S>(waker: WakerInner<S>, events: Seq<Event>) -> Seq<Event> {
    match waker.state {
        PollState::WakerEvent => seq![waker_event(waker.token)],
        _ => events,
    }
}

/// What a poll waits for besides the registered descriptors: the socket by which it can be
/// interrupted, and the timeout if there is one.
pub open spec fn poll_tail(waker_fd: i32, timeout: Option<u128>) -> Seq<Subscription> {
    let interrupt = Subscription {
        userdata: waker_fd as u64,
        u: SubscriptionU::FdRead(waker_fd as u32),
    };
    match timeout {
        Some(nanos) => seq![interrupt, timeout_subscription_for(nanos)],
        None => seq![interrupt],
    }
}

/// Whether the event says that its descriptor is closed.
pub open spec fn closing(event: Event) -> bool {
    hung_up_in(event.fd_readwrite.flags) || event.error == ERRNO_BADF
}

/// The verdict on one reported event.
///
/// An event of the socket by which the poll is interrupted becomes a waker event. An event
/// on a registered descriptor that is ready to read or to write gets the token of the
/// registration, and uses its readiness up.
pub open spec fn verdict(
    event: Event,
    waker_fd: u32,
    token: Option<Token>,
    regs: Map<u32, Registration>,
) -> Verdict {
    let fd = descriptor_of(event.userdata);
    let plain = Verdict {
        event,
        timeout: false,
        closing: false,
        deregistered: false,
        spent: Spent::Nothing,
    };
    if fd == waker_fd {
        Verdict {
            event: Event {
                userdata: waker_userdata(token),
                fd_readwrite: EventFdReadwrite { nbytes: event.fd_readwrite.nbytes, flags: 0 },
                ..event
            },
            ..plain
        }
    } else if is_timeout(event) {
        Verdict { timeout: true, ..plain }
    } else if !regs.contains_key(fd) {
        Verdict { closing: closing(event), deregistered: true, ..plain }
    } else if event.type_ == EVENTTYPE_FD_READ {
        Verdict {
            event: Event { userdata: regs[fd].token.0 as u64, ..event },
            closing: closing(event),
            spent: Spent::Read(regs[fd].cell),
            ..plain
        }
    } else if event.type_ == EVENTTYPE_FD_WRITE {
        Verdict {
            event: Event { userdata: regs[fd].token.0 as u64, ..event },
            closing: closing(event),
            spent: Spent::Write(regs[fd].cell),
            ..plain
        }
    } else {
        Verdict { closing: closing(event), ..plain }
    }
}

/// The verdicts on what the host has reported.
pub open spec fn verdicts(
    polled: Seq<Event>,
    waker_fd: u32,
    token: Option<Token>,
    regs: Map<u32, Registration>,
) -> Seq<Verdict> {
    Seq::new(polled.len(), |i: int| verdict(polled[i], waker_fd, token, regs))
}

/// Whether one of the verdicts uses up the readiness `spent`.
pub open spec fn some_spent(verdicts: Seq<Verdict>, spent: Spent) -> bool {
    exists|i: int| 0 <= i < verdicts.len() && (#[trigger] verdicts[i]).spent == spent
}

/// The cells once the verdicts have used readiness up: nothing is left of what an event has
/// used.
pub open spec fn spent_from(cells: Seq<Readiness>, verdicts: Seq<Verdict>) -> Seq<Readiness> {
    Seq::new(
        cells.len(),
        |c: int|
            Readiness {
                read: cells[c].read && !some_spent(verdicts, Spent::Read(c as usize)),
                write: if some_spent(verdicts, Spent::Write(c as usize)) {
                    0
                } else {
                    cells[c].write
                },
            },
    )
}

/// Uses up the readiness that the verdicts call for.
fn spend(cells: &mut Vec<Readiness>, verdicts: &Vec<Verdict>)
    requires
        spends_in(verdicts@, old(cells)@.len()),
    ensures
        final(cells)@ == spent_from(old(cells)@, verdicts@),
{
    let ghost before = cells@;
    assert(cells@ =~= spent_from(before, verdicts@.take(0)));
    for k in 0..verdicts.len()
        invariant
            cells.len() == before.len(),
            spends_in(verdicts@, before.len()),
            cells@ == spent_from(before, verdicts@.take(k as int)),
    {
        let spent = verdicts[k].spent;
        match spent {
            Spent::Nothing => {},
            Spent::Read(cell) => {
                let write: usize = cells[cell].write;
                cells.set(cell, Readiness { read: false, write });
            },
            Spent::Write(cell) => {
                let read: bool = cells[cell].read;
                cells.set(cell, Readiness { read, write: 0 });
            },
        }
        proof {
            let now = verdicts@.take(k + 1);
            let then = verdicts@.take(k as int);
            assert forall|s: Spent| #[trigger]
                some_spent(now, s) <==> (some_spent(then, s) || s == spent) by {
                assert(now[k as int].spent == spent);
                if some_spent(then, s) {
                    let i = choose|i: int| 0 <= i < then.len() && (#[trigger] then[i]).spent == s;
                    assert(now[i].spent == s);
                }
                if some_spent(now, s) {
                    let i = choose|i: int| 0 <= i < now.len() && (#[trigger] now[i]).spent == s;
                    if i < k {
                        assert(then[i].spent == s);
                    }
                }
            }
            assert(before.len() <= usize::MAX);
            assert forall|c: int| 0 <= c < before.len() implies #[trigger] cells@[c] == spent_from(
                before,
                now,
            )[c] by {
                assert(c as usize == c);
                assert(some_spent(now, Spent::Read(c as usize)) <==> (some_spent(
                    then,
                    Spent::Read(c as usize),
                ) || spent == Spent::Read(c as usize)));
                assert(some_spent(now, Spent::Write(c as usize)) <==> (some_spent(
                    then,
                    Spent::Write(c as usize),
                ) || spent == Spent::Write(c as usize)));
            }
            assert(cells@ =~= spent_from(before, now));
        }
    }
    assert(verdicts@.take(verdicts@.len() as int) =~= verdicts@);
}

/// A source of events, as its owner holds it: the cell of its readiness.
#[derive(Debug)]
pub struct IoSourceState {
    pub cell: usize,
}

impl IoSourceState {
    /// A source that can be polled for everything; its readiness gets a cell that no one else
    /// holds.
    pub fn new(pool: &mut Pool, cells: &mut Vec<Readiness>) -> (source: IoSourceState)
        requires
            old(pool).wf(),
            old(pool).size() == old(cells)@.len(),
        ensures
            takes(*old(pool), old(cells)@, *final(pool), final(cells)@, source.cell),
    {
        IoSourceState { cell: pool.take(cells) }
    }

    /// Takes note of the outcome of an operation on the source, and hands the outcome back:
    /// after one that succeeded, or that would have to wait, the source can again be polled
    /// for everything.
    pub fn do_io<R, E>(
        &self,
        cells: &mut Vec<Readiness>,
        outcome: Result<R, Failure<E>>,
    ) -> (r: Result<R, Failure<E>>)
        requires
            self.cell < old(cells)@.len(),
        ensures
            r == outcome,
            final(cells)@ == after_io(old(cells)@, self.cell, outcome),
    {
        note_io(cells, self.cell, outcome)
    }

    /// Registers the source with `selector`.
    pub fn register<S>(
        &mut self,
        selector: &mut Selector<S>,
        token: Token,
        interests: Interest,
        fd: i32,
    ) -> (r: Result<(), Error>)
        ensures
            r is Ok,
            *final(self) == *old(self),
            final(selector).id == old(selector).id,
            final(selector).subscriptions@ == old(selector).subscriptions@.insert(
                fd as u32,
                Registration { token, interests, cell: old(self).cell },
            ),
            final(selector).waker.0.token == old(selector).waker.0.token,
            final(selector).waker.0.state == old(selector).waker.0.state.rerun(),
    {
        selector.register(fd as u32, token, interests, self.cell)
    }

    /// Registers the source with `selector` anew; it is an error if it was not registered.
    pub fn reregister<S>(
        &mut self,
        selector: &mut Selector<S>,
        token: Token,
        interests: Interest,
        fd: i32,
    ) -> (r: Result<(), Error>)
        ensures
            *final(self) == *old(self),
            final(selector).id == old(selector).id,
            final(selector).waker.0.token == old(selector).waker.0.token,
            if old(selector).subscriptions@.contains_key(fd as u32) {
                &&& r is Ok
                &&& final(selector).subscriptions@ == old(selector).subscriptions@.insert(
                    fd as u32,
                    Registration { token, interests, cell: old(self).cell },
                )
                &&& final(selector).waker.0.state == old(selector).waker.0.state.rerun()
            } else {
                &&& r == Err::<(), Error>(Error::Simple(ErrorKind::NotFound))
                &&& final(selector).subscriptions@ == old(selector).subscriptions@
                &&& final(selector).waker.0.state == old(selector).waker.0.state
            },
    {
        selector.reregister(fd as u32, token, interests, self.cell)
    }

    /// Takes the source's registration with `selector` out; it is an error if it was not
    /// registered.
    pub fn deregister<S>(&mut self, selector: &mut Selector<S>, fd: i32) -> (r: Result<(), Error>)
        ensures
            *final(self) == *old(self),
            r == (if old(selector).subscriptions@.contains_key(fd as u32) {
                Ok::<(), Error>(())
            } else {
                Err::<(), Error>(Error::Simple(ErrorKind::NotFound))
            }),
            final(selector).id == old(selector).id,
            final(selector).subscriptions@ == old(selector).subscriptions@.remove(fd as u32),
            final(selector).waker == old(selector).waker,
    {
        selector.deregister(fd as u32)
    }
}

} // verus!
