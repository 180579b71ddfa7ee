//! What holds of the selector for the WAMR host over several calls.
use vstd::prelude::*;
use crate::dispatch::{
    closing_in_range, delivered, last_timeout, law_closing_drops, law_closing_is_not_delivered,
    law_end_of_timeout_adds_nothing, law_events_are_delivered, law_heard_around_the_timeout,
    law_heard_in_order, law_left_unless_named_by_closing,
    law_only_a_closing_last_event_is_out_of_range, law_timeout_is_taken_out,
    law_withheld_is_not_delivered, left_registered, lemma_last_timeout, timeout_removed, withheld,
    Spent,
};
use crate::error::{Error, ErrorKind, Failure};
use crate::readiness::{after_io, rearms, Readiness};
use crate::registrations::{
    law_subscriptions, live, read_subscription, uses, walks, wanted_in, wants_read, wants_write,
    write_subscription, Registration,
};
use crate::timeout::{is_timeout, law_timeout_subscription_waits_as_long};
use crate::token::Token;
use crate::wamr::{
    closing, events_after_select, poll_tail, some_spent, spent_from, state_after_select, step,
    verdict, verdicts, waker_event, waker_userdata, PollState, Step, WakerInner,
};
use crate::wasi::{
    descriptor_of, Event, EventFdReadwrite, Subscription, SubscriptionU, EVENTTYPE_CLOCK,
    EVENTTYPE_FD_READ, EVENTTYPE_FD_WRITE,
};

verus! {

/// What can happen to the state of the poll other than by [`crate::wamr::Selector::select`].
#[derive(Clone, Copy, Debug, PartialEq, Eq, Structural)]
pub enum Act {
    /// A waker wakes.
    Wake,
    /// A descriptor is registered, or registered anew.
    Register,
    /// A poll call has returned.
    PollReturned,
}

/// The state after one act.
pub open spec fn after_act<S>(state: PollState<S>, act: Act) -> PollState<S> {
    match act {
        Act::Wake => state.woken(),
        Act::Register => state.rerun(),
        Act::PollReturned => state.polled(),
    }
}

/// The state after acts in turn.
pub open spec fn after_acts<S>(state: PollState<S>, acts: Seq<Act>) -> PollState<S>
    decreases acts.len(),
{
    if acts.len() == 0 {
        state
    } else {
        after_act(after_acts(state, acts.drop_last()), acts.last())
    }
}

/// A wake is never lost: whatever is registered, however often wakers wake and polls return
/// after it, the next call to [`crate::wamr::Selector::select`] returns with the waker event alone, and
/// leaves the state in which the next call polls.
pub proof fn law_wake_is_not_lost<S>(
    state: PollState<S>,
    acts: Seq<Act>,
    token: Option<Token>,
    events: Seq<Event>,
)
    ensures
        after_acts(state.woken(), acts) == PollState::<S>::WakerEvent,
        step(after_acts(state.woken(), acts)) == Ok::<Step, Error>(Step::Return),
        events_after_select(
            WakerInner { token, state: after_acts(state.woken(), acts) },
            events,
        ) == seq![waker_event(token)],
        step(state_after_select(after_acts(state.woken(), acts))) == Ok::<Step, Error>(Step::Poll),
    decreases acts.len(),
{
    if acts.len() > 0 {
        law_wake_is_not_lost(state, acts.drop_last(), token, events);
    }
}

/// Whatever happens to a poll under way, the state that follows does not hold the socket any
/// more: it is dropped.
pub proof fn law_socket_is_given_up<S>(state: PollState<S>, act: Act)
    ensures
        after_act(state, act) !is Polling,
{
}

/// While a poll is under way, a second call to [`crate::wamr::Selector::select`] is refused and changes
/// nothing.
pub proof fn law_one_poll_at_a_time<S>(waker: WakerInner<S>, events: Seq<Event>)
    requires
        waker.state is Polling,
    ensures
        step(waker.state) == Err::<Step, Error>(Error::Simple(ErrorKind::ResourceBusy)),
        state_after_select(waker.state) == waker.state,
        events_after_select(waker, events) == events,
{
}

/// When a poll has returned and no waker has woken since it began, the state is either
/// [`PollState::Finished`] or [`PollState::Reset`].
pub proof fn law_state_after_poll<S>(socket: S, acts: Seq<Act>)
    requires
        !acts.contains(Act::Wake),
    ensures
        after_acts(PollState::Polling(socket), acts).polled() is Finished || after_acts(
            PollState::Polling(socket),
            acts,
        ).polled() is Reset,
    decreases acts.len(),
{
    if acts.len() > 0 {
        let rest = acts.drop_last();
        assert(!rest.contains(Act::Wake)) by {
            if rest.contains(Act::Wake) {
                assert(acts[rest.index_of(Act::Wake)] == Act::Wake);
            }
        }
        assert(acts.contains(acts.last()));
        law_state_after_poll(socket, rest);
    }
}

/// A call to [`crate::wamr::Selector::select`] that nothing disturbs polls once and returns what the poll
/// has brought; the next call polls again.
pub proof fn law_undisturbed_select<S>(waker: WakerInner<S>, socket: S, events: Seq<Event>)
    requires
        waker.state is Reset,
    ensures
        step(waker.state) == Ok::<Step, Error>(Step::Poll),
        ({
            let polled = WakerInner {
                token: waker.token,
                state: PollState::Polling(socket).polled(),
            };
            &&& step(polled.state) == Ok::<Step, Error>(Step::Return)
            &&& events_after_select(polled, events) == events
            &&& step(state_after_select(polled.state)) == Ok::<Step, Error>(Step::Poll)
        }),
{
}

/// A descriptor that is registered while a poll is under way is not missed: the poll is run
/// again once it returns, and then waits to read from the descriptor and to write to it, as far
/// as it was registered for that and its readiness is not spent.
pub proof fn law_registering_reruns_the_poll<S>(
    socket: S,
    regs: Map<u32, Registration>,
    fd: u32,
    reg: Registration,
    order: Seq<u32>,
    cells: Seq<Readiness>,
)
    requires
        walks(order, regs.insert(fd, reg)),
    ensures
        step(PollState::Polling(socket).rerun().polled()) == Ok::<Step, Error>(Step::Poll),
        wants_read(reg, cells) ==> wanted_in(regs.insert(fd, reg), order, cells).contains(
            read_subscription(fd),
        ),
        wants_write(reg, cells) ==> wanted_in(regs.insert(fd, reg), order, cells).contains(
            write_subscription(fd),
        ),
{
    law_subscriptions(regs.insert(fd, reg), order, cells);
}

/// The list that the host polls: at most two subscriptions for each registration, then the
/// socket by which the poll can be interrupted, and last the clock, exactly if there is a
/// timeout.
pub proof fn law_poll_list(
    regs: Map<u32, Registration>,
    order: Seq<u32>,
    cells: Seq<Readiness>,
    waker_fd: i32,
    timeout: Option<u128>,
)
    requires
        walks(order, regs),
    ensures
        ({
            let list = wanted_in(regs, order, cells) + poll_tail(waker_fd, timeout);
            &&& 1 <= list.len() <= 2 * regs.len() + 2
            &&& (list.last().spec_tag() == EVENTTYPE_CLOCK <==> timeout is Some)
            &&& forall|i: int|
                0 <= i < list.len() - 1 ==> (#[trigger] list[i]).spec_tag() != EVENTTYPE_CLOCK
        }),
{
    law_subscriptions(regs, order, cells);
    let wanted = wanted_in(regs, order, cells);
    let list = wanted + poll_tail(waker_fd, timeout);
    assert forall|i: int| 0 <= i < list.len() - 1 implies (#[trigger] list[i]).spec_tag()
        != EVENTTYPE_CLOCK by {
        if i < wanted.len() {
            assert(wanted.contains(wanted[i]));
        }
    }
}

/// An event on a registered descriptor that is ready to read or to write reaches the user
/// with the token that the descriptor was registered under, unless it says that the
/// descriptor is closed.
pub proof fn law_ready_is_reported(
    polled: Seq<Event>,
    waker_fd: u32,
    token: Option<Token>,
    regs: Map<u32, Registration>,
    timeout: bool,
    i: int,
)
    requires
        0 <= i < polled.len(),
        descriptor_of(polled[i].userdata) != waker_fd,
        regs.contains_key(descriptor_of(polled[i].userdata)),
        polled[i].type_ == EVENTTYPE_FD_READ || polled[i].type_ == EVENTTYPE_FD_WRITE,
        !closing(polled[i]),
    ensures
        exists|e: Event| #[trigger]
            delivered(verdicts(polled, waker_fd, token, regs), timeout).contains(e) && e.type_
                == polled[i].type_ && Token(e.userdata as usize)
                == regs[descriptor_of(polled[i].userdata)].token,
{
    let vs = verdicts(polled, waker_fd, token, regs);
    let name = regs[descriptor_of(polled[i].userdata)].token;
    assert(!withheld(vs, i));
    assert(!vs[i].timeout);
    lemma_last_timeout(vs);
    law_events_are_delivered(vs, timeout, i);
    assert((name.0 as u64) as usize == name.0);
    assert(delivered(vs, timeout).contains(vs[i].event));
}

/// What was used up by an event is not asked for again until the source is used: after a
/// poll that reported a registered descriptor as ready to read, no subscription to its data
/// is made; once an operation on the source has succeeded, or would have to wait, it is made
/// again if the descriptor is still registered.
pub proof fn law_read_is_asked_once<R, E>(
    polled: Seq<Event>,
    waker_fd: u32,
    token: Option<Token>,
    regs: Map<u32, Registration>,
    timeout: bool,
    cells: Seq<Readiness>,
    i: int,
    order: Seq<u32>,
    outcome: Result<R, Failure<E>>,
)
    requires
        0 <= i < polled.len(),
        descriptor_of(polled[i].userdata) != waker_fd,
        regs.contains_key(descriptor_of(polled[i].userdata)),
        polled[i].type_ == EVENTTYPE_FD_READ,
        live(regs, cells),
        walks(order, left_registered(regs, verdicts(polled, waker_fd, token, regs), timeout)),
        rearms(outcome),
    ensures
        ({
            let fd = descriptor_of(polled[i].userdata);
            let vs = verdicts(polled, waker_fd, token, regs);
            let left = left_registered(regs, vs, timeout);
            let spent = spent_from(cells, vs);
            &&& !wanted_in(left, order, spent).contains(read_subscription(fd))
            &&& left.contains_key(fd) && regs[fd].interests.readable ==> wanted_in(
                left,
                order,
                after_io(spent, regs[fd].cell, outcome),
            ).contains(read_subscription(fd))
        }),
{
    let fd = descriptor_of(polled[i].userdata);
    let vs = verdicts(polled, waker_fd, token, regs);
    let left = left_registered(regs, vs, timeout);
    let spent = spent_from(cells, vs);
    law_subscriptions(left, order, spent);
    law_subscriptions(left, order, after_io(spent, regs[fd].cell, outcome));
    assert(vs[i].spent == Spent::Read(regs[fd].cell));
    assert(some_spent(vs, Spent::Read(regs[fd].cell)));
    assert(!spent[regs[fd].cell as int].read);
}

/// The same of a registered descriptor that was reported as ready to write.
pub proof fn law_write_is_asked_once<R, E>(
    polled: Seq<Event>,
    waker_fd: u32,
    token: Option<Token>,
    regs: Map<u32, Registration>,
    timeout: bool,
    cells: Seq<Readiness>,
    i: int,
    order: Seq<u32>,
    outcome: Result<R, Failure<E>>,
)
    requires
        0 <= i < polled.len(),
        descriptor_of(polled[i].userdata) != waker_fd,
        regs.contains_key(descriptor_of(polled[i].userdata)),
        polled[i].type_ == EVENTTYPE_FD_WRITE,
        live(regs, cells),
        walks(order, left_registered(regs, verdicts(polled, waker_fd, token, regs), timeout)),
        rearms(outcome),
    ensures
        ({
            let fd = descriptor_of(polled[i].userdata);
            let vs = verdicts(polled, waker_fd, token, regs);
            let left = left_registered(regs, vs, timeout);
            let spent = spent_from(cells, vs);
            &&& !wanted_in(left, order, spent).contains(write_subscription(fd))
            &&& left.contains_key(fd) && regs[fd].interests.writable ==> wanted_in(
                left,
                order,
                after_io(spent, regs[fd].cell, outcome),
            ).contains(write_subscription(fd))
        }),
{
    let fd = descriptor_of(polled[i].userdata);
    let vs = verdicts(polled, waker_fd, token, regs);
    let left = left_registered(regs, vs, timeout);
    let spent = spent_from(cells, vs);
    law_subscriptions(left, order, spent);
    law_subscriptions(left, order, after_io(spent, regs[fd].cell, outcome));
    assert(vs[i].spent == Spent::Write(regs[fd].cell));
    assert(some_spent(vs, Spent::Write(regs[fd].cell)));
    assert(spent[regs[fd].cell as int].write == 0);
}

/// Readiness of which no event was reported is not used up: neither readiness to read without
/// an event on reading, nor readiness to write without one on writing.
pub proof fn law_unreported_is_not_spent(
    polled: Seq<Event>,
    waker_fd: u32,
    token: Option<Token>,
    regs: Map<u32, Registration>,
    cells: Seq<Readiness>,
    cell: usize,
)
    requires
        cell < cells.len(),
    ensures
        ({
            let spent = spent_from(cells, verdicts(polled, waker_fd, token, regs))[cell as int];
            &&& (forall|i: int|
                0 <= i < polled.len() && (#[trigger] polled[i]).type_ == EVENTTYPE_FD_READ
                    ==> descriptor_of(polled[i].userdata) == waker_fd || !uses(
                    regs,
                    polled[i],
                    cell,
                )) ==> spent.read == cells[cell as int].read
            &&& (forall|i: int|
                0 <= i < polled.len() && (#[trigger] polled[i]).type_ == EVENTTYPE_FD_WRITE
                    ==> descriptor_of(polled[i].userdata) == waker_fd || !uses(
                    regs,
                    polled[i],
                    cell,
                )) ==> spent.write == cells[cell as int].write
        }),
{
    let vs = verdicts(polled, waker_fd, token, regs);
    assert forall|i: int| 0 <= i < vs.len() implies match (#[trigger] vs[i]).spent {
        Spent::Nothing => true,
        Spent::Read(c) => polled[i].type_ == EVENTTYPE_FD_READ && uses(regs, polled[i], c)
            && descriptor_of(polled[i].userdata) != waker_fd,
        Spent::Write(c) => polled[i].type_ == EVENTTYPE_FD_WRITE && uses(regs, polled[i], c)
            && descriptor_of(polled[i].userdata) != waker_fd,
    } by {
        assert(vs[i] == verdict(polled[i], waker_fd, token, regs));
    }
}

/// The end of the timeout is not delivered to a user who gave a timeout, where the host
/// reports it once and reports events of the interrupting socket as events on a descriptor.
pub proof fn law_timeout_is_not_delivered(
    polled: Seq<Event>,
    waker_fd: u32,
    token: Option<Token>,
    regs: Map<u32, Registration>,
    event: Event,
)
    requires
        delivered(verdicts(polled, waker_fd, token, regs), true).contains(event),
        forall|i: int, j: int|
            0 <= i < j < polled.len() && is_timeout(#[trigger] polled[i]) ==> !is_timeout(
                #[trigger] polled[j],
            ),
        forall|i: int|
            0 <= i < polled.len() && descriptor_of((#[trigger] polled[i]).userdata) == waker_fd
                ==> polled[i].type_ != EVENTTYPE_CLOCK,
    ensures
        !is_timeout(event),
{
    let vs = verdicts(polled, waker_fd, token, regs);
    law_timeout_is_taken_out(vs, true, event);
    lemma_last_timeout(vs);
    let i = choose|i: int|
        0 <= i < vs.len() && (#[trigger] vs[i]).event == event && (timeout_removed(vs, true) ==> i
            != last_timeout(vs)->0);
    assert(vs[i] == verdict(polled[i], waker_fd, token, regs));
    if is_timeout(event) {
        assert(is_timeout(polled[i]));
        assert(vs[i].timeout);
        let at = last_timeout(vs)->0;
        assert(vs[at] == verdict(polled[at], waker_fd, token, regs));
        assert(is_timeout(polled[at]));
    }
}

/// To a user who gave a timeout, its end makes no difference, where the host reports it once:
/// the same events are delivered as if it had not been reported, though perhaps in another
/// order, the same registrations are left and the same readiness is used up. This leaves out the
/// case in which another event is last and is withheld.
pub proof fn law_timeout_makes_no_difference(
    polled: Seq<Event>,
    waker_fd: u32,
    token: Option<Token>,
    regs: Map<u32, Registration>,
    cells: Seq<Readiness>,
    at: int,
)
    requires
        0 <= at < polled.len(),
        is_timeout(polled[at]),
        descriptor_of(polled[at].userdata) != waker_fd,
        forall|i: int|
            0 <= i < polled.len() && i != at ==> !is_timeout(#[trigger] polled[i]),
        !withheld(verdicts(polled, waker_fd, token, regs), polled.len() - 1),
    ensures
        ({
            let with = verdicts(polled, waker_fd, token, regs);
            let without = verdicts(polled.remove(at), waker_fd, token, regs);
            &&& delivered(with, true).to_multiset() == delivered(without, true).to_multiset()
            &&& left_registered(regs, with, true) == left_registered(regs, without, true)
            &&& spent_from(cells, with) == spent_from(cells, without)
        }),
{
    let with = verdicts(polled, waker_fd, token, regs);
    let without = verdicts(polled.remove(at), waker_fd, token, regs);
    assert(without =~= with.remove(at));
    assert forall|i: int| 0 <= i < with.len() && i != at implies !(#[trigger] with[i]).timeout by {
        assert(with[i] == verdict(polled[i], waker_fd, token, regs));
    }
    assert(with[at] == verdict(polled[at], waker_fd, token, regs));
    law_end_of_timeout_adds_nothing(regs, with, at);
    assert forall|s: Spent| s != Spent::Nothing implies (#[trigger] some_spent(with, s)
        <==> some_spent(without, s)) by {
        if some_spent(with, s) {
            let i = choose|i: int| 0 <= i < with.len() && (#[trigger] with[i]).spent == s;
            assert(without[if i < at { i } else { i - 1 }].spent == s);
        }
        if some_spent(without, s) {
            let j = choose|j: int| 0 <= j < without.len() && (#[trigger] without[j]).spent == s;
            assert(with[if j < at { j } else { j + 1 }].spent == s);
        }
    }
    assert forall|c: int| 0 <= c < cells.len() implies #[trigger] spent_from(cells, with)[c]
        == spent_from(cells, without)[c] by {
        assert(some_spent(with, Spent::Read(c as usize)) <==> some_spent(
            without,
            Spent::Read(c as usize),
        ));
        assert(some_spent(with, Spent::Write(c as usize)) <==> some_spent(
            without,
            Spent::Write(c as usize),
        ));
    }
    assert(spent_from(cells, with) =~= spent_from(cells, without));
}

/// A user does not hear of a descriptor that is not registered, nor of one that an event says
/// is closed: a delivered event is a waker event, the end of a timeout, or an event on a
/// registered descriptor that is not said to be closed. This leaves out the case in which the
/// last event is withheld and is moved to where the end of the timeout was.
pub proof fn law_only_the_registered_are_heard(
    polled: Seq<Event>,
    waker_fd: u32,
    token: Option<Token>,
    regs: Map<u32, Registration>,
    timeout: bool,
    event: Event,
)
    requires
        delivered(verdicts(polled, waker_fd, token, regs), timeout).contains(event),
        timeout_removed(verdicts(polled, waker_fd, token, regs), timeout) ==> !withheld(
            verdicts(polled, waker_fd, token, regs),
            polled.len() - 1,
        ),
    ensures
        exists|i: int|
            0 <= i < polled.len() && event == verdict(
                #[trigger] polled[i],
                waker_fd,
                token,
                regs,
            ).event && (descriptor_of(polled[i].userdata) == waker_fd || is_timeout(polled[i]) || (
            regs.contains_key(descriptor_of(polled[i].userdata)) && !closing(polled[i]))),
{
    let vs = verdicts(polled, waker_fd, token, regs);
    law_withheld_is_not_delivered(vs, timeout, event);
    let i = choose|i: int|
        0 <= i < vs.len() && !#[trigger] withheld(vs, i) && vs[i].event == event;
    assert(vs[i] == verdict(polled[i], waker_fd, token, regs));
    assert(event == verdict(polled[i], waker_fd, token, regs).event);
}

/// A user does not hear of a descriptor from an event that says it is closed: a delivered
/// event is a waker event, the end of a timeout, or an event that does not say so.
pub proof fn law_closed_is_not_heard(
    polled: Seq<Event>,
    waker_fd: u32,
    token: Option<Token>,
    regs: Map<u32, Registration>,
    timeout: bool,
    event: Event,
)
    requires
        delivered(verdicts(polled, waker_fd, token, regs), timeout).contains(event),
        closing_in_range(verdicts(polled, waker_fd, token, regs), timeout),
    ensures
        exists|i: int|
            0 <= i < polled.len() && event == verdict(
                #[trigger] polled[i],
                waker_fd,
                token,
                regs,
            ).event && (descriptor_of(polled[i].userdata) == waker_fd || is_timeout(polled[i])
                || !closing(polled[i])),
{
    let vs = verdicts(polled, waker_fd, token, regs);
    law_closing_is_not_delivered(vs, timeout, event);
    let i = choose|i: int|
        0 <= i < vs.len() && (#[trigger] vs[i]).event == event && !vs[i].closing;
    assert(vs[i] == verdict(polled[i], waker_fd, token, regs));
}

/// A registered descriptor that an event says is closed loses its registration, where the
/// descriptor's token names the descriptor, or the event is about neither reading nor writing.
pub proof fn law_closed_is_deregistered(
    polled: Seq<Event>,
    waker_fd: u32,
    token: Option<Token>,
    regs: Map<u32, Registration>,
    timeout: bool,
    i: int,
)
    requires
        0 <= i < polled.len(),
        descriptor_of(polled[i].userdata) != waker_fd,
        !is_timeout(polled[i]),
        closing(polled[i]),
        regs.contains_key(descriptor_of(polled[i].userdata)),
        ({
            let fd = descriptor_of(polled[i].userdata);
            ||| descriptor_of(regs[fd].token.0 as u64) == fd
            ||| polled[i].type_ != EVENTTYPE_FD_READ && polled[i].type_ != EVENTTYPE_FD_WRITE
        }),
        closing_in_range(verdicts(polled, waker_fd, token, regs), timeout),
    ensures
        !left_registered(
            regs,
            verdicts(polled, waker_fd, token, regs),
            timeout,
        ).contains_key(descriptor_of(polled[i].userdata)),
{
    let vs = verdicts(polled, waker_fd, token, regs);
    assert(vs[i] == verdict(polled[i], waker_fd, token, regs));
    law_closing_drops(regs, vs, timeout, i);
}

/// An event of the interrupting socket reaches the user with the waker's token and without
/// flags.
pub proof fn law_interrupt_is_a_waker_event(
    polled: Seq<Event>,
    waker_fd: u32,
    token: Option<Token>,
    regs: Map<u32, Registration>,
    timeout: bool,
    i: int,
)
    requires
        0 <= i < polled.len(),
        descriptor_of(polled[i].userdata) == waker_fd,
    ensures
        exists|e: Event| #[trigger]
            delivered(verdicts(polled, waker_fd, token, regs), timeout).contains(e) && e.userdata
                == waker_userdata(token) && e.fd_readwrite.flags == 0 && e.type_
                == polled[i].type_,
{
    let vs = verdicts(polled, waker_fd, token, regs);
    assert(vs[i] == verdict(polled[i], waker_fd, token, regs));
    assert(!withheld(vs, i));
    lemma_last_timeout(vs);
    law_events_are_delivered(vs, timeout, i);
    assert(delivered(vs, timeout).contains(vs[i].event));
}

/// What a user hears, event by event: an event of the interrupting socket under the waker's token
/// and without flags; the end of a timeout that was not taken out; and an event on a registered
/// descriptor whose hang-up flag is not set and whose error is not that of a closed descriptor,
/// under the token of the registration if it is about reading or writing. In all else each event is
/// as the host reported it, its error, size and flags among it. The user hears them in the order in
/// which they were reported, but for the last one, which takes the place of the end of the timeout
/// if that is taken out.
pub proof fn law_user_hears_exactly(
    polled: Seq<Event>,
    waker_fd: u32,
    token: Option<Token>,
    regs: Map<u32, Registration>,
    timeout: bool,
    at: int,
    heard: spec_fn(Event) -> bool,
    shown: spec_fn(Event) -> Event,
)
    requires
        forall|event: Event| #[trigger] heard(event) <==> {
            let fd = (event.userdata % 0x1_0000_0000) as u32;
            ||| fd == waker_fd
            ||| event.type_ == 0 && event.userdata == u64::MAX
            ||| regs.contains_key(fd) && event.fd_readwrite.flags % 2 == 0 && event.error != 8
        },
        forall|event: Event| {
            let fd = (event.userdata % 0x1_0000_0000) as u32;
            &&& fd == waker_fd ==> (#[trigger] shown(event)) == (Event {
                userdata: match token {
                    Some(name) => name.0 as u64,
                    None => 0,
                },
                fd_readwrite: EventFdReadwrite { nbytes: event.fd_readwrite.nbytes, flags: 0 },
                ..event
            })
            &&& fd != waker_fd && regs.contains_key(fd) && (event.type_ == 1 || event.type_ == 2)
                ==> shown(event) == (Event { userdata: regs[fd].token.0 as u64, ..event })
            &&& fd != waker_fd && !(regs.contains_key(fd) && (event.type_ == 1 || event.type_ == 2))
                ==> shown(event) == event
        },
    ensures
        !timeout || (forall|i: int|
            0 <= i < polled.len() ==> !((#[trigger] polled[i]).userdata % 0x1_0000_0000 != waker_fd && polled[i].type_ == 0
                && polled[i].userdata == u64::MAX)) ==> delivered(verdicts(polled, waker_fd, token, regs), timeout)
            == polled.filter(heard).map_values(shown),
        timeout && 0 <= at < polled.len() && polled[at].userdata % 0x1_0000_0000 != waker_fd && polled[at].type_ == 0 && polled[at].userdata == u64::MAX && (forall|i: int|
            at < i < polled.len() ==> !((#[trigger] polled[i]).userdata % 0x1_0000_0000 != waker_fd && polled[i].type_ == 0
                && polled[i].userdata == u64::MAX)) ==> {
            let before = polled.take(at).filter(heard).map_values(shown);
            let behind = polled.subrange(at + 1, polled.len() - 1).filter(heard).map_values(shown);
            delivered(verdicts(polled, waker_fd, token, regs), true) == if at == polled.len() - 1 {
                before
            } else {
                before + seq![shown(polled.last())] + behind
            }
        },
{
    let vs = verdicts(polled, waker_fd, token, regs);
    assert forall|i: int| 0 <= i < polled.len() implies (#[trigger] vs[i]).event == shown(polled[i])
        && heard(polled[i]) == !(vs[i].closing || vs[i].deregistered) by {
        assert(vs[i] == verdict(polled[i], waker_fd, token, regs));
        assert(heard(polled[i]) || !heard(polled[i]));
        assert(shown(polled[i]) == shown(polled[i]));
    }
    if !timeout || (forall|i: int|
        0 <= i < polled.len() ==> !((#[trigger] polled[i]).userdata % 0x1_0000_0000 != waker_fd && polled[i].type_ == 0
                && polled[i].userdata == u64::MAX)) {
        assert forall|i: int| 0 <= i < polled.len() && timeout implies !(
        #[trigger] vs[i]).timeout by {
            assert(vs[i] == verdict(polled[i], waker_fd, token, regs));
            assert(polled[i] == polled[i]);
        }
        law_heard_in_order(polled, vs, timeout, heard, shown);
    }
    if timeout && 0 <= at < polled.len() && polled[at].userdata % 0x1_0000_0000 != waker_fd && polled[at].type_ == 0 && polled[at].userdata == u64::MAX && (forall|i: int|
        at < i < polled.len() ==> !((#[trigger] polled[i]).userdata % 0x1_0000_0000 != waker_fd && polled[i].type_ == 0
                && polled[i].userdata == u64::MAX)) {
        assert(vs[at] == verdict(polled[at], waker_fd, token, regs));
        assert forall|i: int| at < i < polled.len() implies !(#[trigger] vs[i]).timeout by {
            assert(vs[i] == verdict(polled[i], waker_fd, token, regs));
        }
        law_heard_around_the_timeout(polled, vs, at, heard, shown);
    }
}

/// An event that a registered descriptor is ready to read or to write, and that does not say it is
/// closed, is delivered as the host reported it, with its error, its size and its flags; only the
/// userdata is replaced, by the token of the registration.
pub proof fn law_ready_is_delivered_as_reported(
    polled: Seq<Event>,
    waker_fd: u32,
    token: Option<Token>,
    regs: Map<u32, Registration>,
    timeout: bool,
    i: int,
    fd: u32,
)
    requires
        0 <= i < polled.len(),
        polled[i].userdata % 0x1_0000_0000 == fd,
        fd != waker_fd,
        regs.contains_key(fd),
        polled[i].type_ == 1 || polled[i].type_ == 2,
        polled[i].fd_readwrite.flags % 2 == 0,
        polled[i].error != 8,
    ensures
        delivered(verdicts(polled, waker_fd, token, regs), timeout).contains(
            Event {
                userdata: regs[fd].token.0 as u64,
                error: polled[i].error,
                type_: polled[i].type_,
                fd_readwrite: polled[i].fd_readwrite,
            },
        ),
{
    let vs = verdicts(polled, waker_fd, token, regs);
    assert(vs[i] == verdict(polled[i], waker_fd, token, regs));
    assert(!withheld(vs, i));
    lemma_last_timeout(vs);
    law_events_are_delivered(vs, timeout, i);
}

/// Which registrations are left: all but those of the descriptors that a closing event names. An
/// event is closing if its hang-up flag is set or its error is that of a closed descriptor, unless it is one of the interrupting
/// socket or the end of a timeout; it names the descriptor that it is about, or the token of that descriptor's
/// registration if it is about reading or writing. A registration that is left is not altered. This
/// is of events that can be taken.
pub proof fn law_closing_events_decide_what_is_left(
    polled: Seq<Event>,
    waker_fd: u32,
    token: Option<Token>,
    regs: Map<u32, Registration>,
    timeout: bool,
    g: u32,
    closes: spec_fn(Event) -> bool,
)
    requires
        forall|event: Event| #[trigger] closes(event) <==> {
            let fd = (event.userdata % 0x1_0000_0000) as u32;
            &&& !(event.type_ == 0 && event.userdata == u64::MAX)
            &&& fd != waker_fd
            &&& (event.fd_readwrite.flags % 2 == 1 || event.error == 8)
            &&& if regs.contains_key(fd) && (event.type_ == 1 || event.type_ == 2) {
                (regs[fd].token.0 as u64) % 0x1_0000_0000 == g
            } else {
                fd == g
            }
        },
        closing_in_range(verdicts(polled, waker_fd, token, regs), timeout),
    ensures
        ({
            let left = left_registered(regs, verdicts(polled, waker_fd, token, regs), timeout);
            &&& left.contains_key(g) <==> regs.contains_key(g) && forall|i: int|
                0 <= i < polled.len() ==> !closes(#[trigger] polled[i])
            &&& left.contains_key(g) ==> left[g] == regs[g]
        }),
{
    let vs = verdicts(polled, waker_fd, token, regs);
    assert forall|i: int| 0 <= i < vs.len() implies ((#[trigger] vs[i]).timeout ==> !vs[i].closing)
        && (vs[i].timeout <==> polled[i].userdata % 0x1_0000_0000 != waker_fd && polled[i].type_ == 0 && polled[i].userdata == u64::MAX) by {
        assert(vs[i] == verdict(polled[i], waker_fd, token, regs));
    }
    law_left_unless_named_by_closing(regs, vs, timeout, g);
    assert forall|i: int| 0 <= i < polled.len() implies (closes(#[trigger] polled[i]) <==> (
    vs[i].closing && vs[i].event.userdata % 0x1_0000_0000 == g)) by {
        assert(vs[i] == verdict(polled[i], waker_fd, token, regs));
    }
    let left = left_registered(regs, vs, timeout);
    if forall|i: int| 0 <= i < polled.len() ==> !closes(#[trigger] polled[i]) {
        assert forall|i: int| 0 <= i < vs.len() implies !((#[trigger] vs[i]).closing
            && vs[i].event.userdata % 0x1_0000_0000 == g) by {
            assert(!closes(polled[i]));
        }
    } else {
        let i = choose|i: int| 0 <= i < polled.len() && closes(#[trigger] polled[i]);
        assert(vs[i].closing && vs[i].event.userdata % 0x1_0000_0000 == g);
    }
}

/// Reported events can be taken unless a timeout was given, its end is among them and the last of
/// them says that a descriptor is closed.
pub proof fn law_which_events_can_be_taken(
    polled: Seq<Event>,
    waker_fd: u32,
    token: Option<Token>,
    regs: Map<u32, Registration>,
    timeout: bool,
)
    ensures
        closing_in_range(verdicts(polled, waker_fd, token, regs), timeout) <==> !(timeout && (exists|i: int|
            0 <= i < polled.len() && (#[trigger] polled[i]).userdata % 0x1_0000_0000 != waker_fd && polled[i].type_ == 0
                && polled[i].userdata == u64::MAX) && polled[polled.len() - 1].userdata % 0x1_0000_0000 != waker_fd && !(polled.last().type_
            == 0 && polled.last().userdata == u64::MAX) && (polled.last().fd_readwrite.flags % 2 == 1 || polled.last().error == 8)),
{
    let vs = verdicts(polled, waker_fd, token, regs);
    law_only_a_closing_last_event_is_out_of_range(vs, timeout);
    assert forall|i: int| 0 <= i < vs.len() implies ((#[trigger] vs[i]).timeout <==> polled[i].userdata % 0x1_0000_0000 != waker_fd && polled[i].type_ == 0 && polled[i].userdata == u64::MAX) by {
        assert(vs[i] == verdict(polled[i], waker_fd, token, regs));
    }
    if polled.len() > 0 {
        assert(vs[polled.len() - 1] == verdict(polled[polled.len() - 1], waker_fd, token, regs));
    }
    if exists|i: int| 0 <= i < polled.len() && (#[trigger] polled[i]).userdata % 0x1_0000_0000 != waker_fd && polled[i].type_ == 0
                && polled[i].userdata == u64::MAX {
        let i = choose|i: int| 0 <= i < polled.len() && (#[trigger] polled[i]).userdata % 0x1_0000_0000 != waker_fd && polled[i].type_ == 0
                && polled[i].userdata == u64::MAX;
        assert(vs[i].timeout);
    }
    if exists|i: int| 0 <= i < vs.len() && (#[trigger] vs[i]).timeout {
        let i = choose|i: int| 0 <= i < vs.len() && (#[trigger] vs[i]).timeout;
        assert(polled[i] == polled[i]);
    }
}

/// The list that the host polls ends with the socket by which the poll can be interrupted, directly
/// behind the subscriptions of the registrations and whatever the timeout is, and then the clock
/// that ends the timeout, exactly if there is one.
pub proof fn law_poll_can_always_be_interrupted(
    regs: Map<u32, Registration>,
    order: Seq<u32>,
    cells: Seq<Readiness>,
    waker_fd: i32,
    timeout: Option<u128>,
)
    ensures
        ({
            let wanted = wanted_in(regs, order, cells);
            let list = wanted + poll_tail(waker_fd, timeout);
            let k = wanted.len() as int;
            &&& forall|i: int| 0 <= i < k ==> (#[trigger] list[i]) == wanted[i]
            &&& list.len() == k + (if timeout is Some {
                2int
            } else {
                1int
            })
            &&& list[k] == (Subscription {
                userdata: waker_fd as u64,
                u: SubscriptionU::FdRead(waker_fd as u32),
            })
            &&& waker_fd >= 0 ==> list[k].userdata == waker_fd
            &&& timeout is Some ==> list[k + 1].userdata == u64::MAX
            &&& timeout is Some ==> (list[k + 1].u matches SubscriptionU::Clock(clock) && {
                &&& clock.id == 1 && clock.flags == 0 && clock.precision == 1_000_000
                &&& 10 <= timeout->0 <= u64::MAX ==> clock.timeout == timeout->0
                &&& timeout->0 < 10 ==> clock.timeout == 10
                &&& timeout->0 > u64::MAX ==> clock.timeout == u64::MAX
            })
        }),
{
    if timeout is Some {
        law_timeout_subscription_waits_as_long(timeout->0);
    }
}

/// Which readiness a poll uses up: all readiness to read of the cells whose descriptor was reported
/// as ready to read, and all readiness to write of those that were reported as ready to write, for
/// whatever they are registered; nothing else changes. Events of the interrupting socket use up
/// nothing.
pub proof fn law_reported_readiness_is_spent(
    polled: Seq<Event>,
    waker_fd: u32,
    token: Option<Token>,
    regs: Map<u32, Registration>,
    cells: Seq<Readiness>,
    cell: usize,
    concerns: spec_fn(Event) -> bool,
)
    requires
        cell < cells.len(),
        forall|event: Event| #[trigger] concerns(event) <==> {
            let fd = (event.userdata % 0x1_0000_0000) as u32;
            fd != waker_fd && regs.contains_key(fd) && regs[fd].cell == cell
        },
    ensures
        ({
            let after = spent_from(cells, verdicts(polled, waker_fd, token, regs));
            let read = exists|i: int|
                0 <= i < polled.len() && concerns(#[trigger] polled[i]) && polled[i].type_ == 1;
            let written = exists|i: int|
                0 <= i < polled.len() && concerns(#[trigger] polled[i]) && polled[i].type_ == 2;
            &&& after.len() == cells.len()
            &&& after[cell as int].read <==> cells[cell as int].read && !read
            &&& written ==> after[cell as int].write == 0
            &&& !written ==> after[cell as int].write == cells[cell as int].write
        }),
{
    let vs = verdicts(polled, waker_fd, token, regs);
    assert forall|i: int| 0 <= i < polled.len() implies ((concerns(#[trigger] polled[i])
        && polled[i].type_ == 1) <==> vs[i].spent == Spent::Read(cell)) && ((concerns(polled[i])
        && polled[i].type_ == 2) <==> vs[i].spent == Spent::Write(cell)) by {
        assert(vs[i] == verdict(polled[i], waker_fd, token, regs));
    }
    if some_spent(vs, Spent::Read(cell)) {
        let i = choose|i: int| 0 <= i < vs.len() && (#[trigger] vs[i]).spent == Spent::Read(cell);
        assert(concerns(polled[i]));
    }
    if some_spent(vs, Spent::Write(cell)) {
        let i = choose|i: int| 0 <= i < vs.len() && (#[trigger] vs[i]).spent == Spent::Write(cell);
        assert(concerns(polled[i]));
    }
    if exists|i: int|
        0 <= i < polled.len() && concerns(#[trigger] polled[i]) && polled[i].type_ == 1 {
        let i = choose|i: int|
            0 <= i < polled.len() && concerns(#[trigger] polled[i]) && polled[i].type_ == 1;
        assert(vs[i].spent == Spent::Read(cell));
    }
    if exists|i: int|
        0 <= i < polled.len() && concerns(#[trigger] polled[i]) && polled[i].type_ == 2 {
        let i = choose|i: int|
            0 <= i < polled.len() && concerns(#[trigger] polled[i]) && polled[i].type_ == 2;
        assert(vs[i].spent == Spent::Write(cell));
    }
}

/// How the state of the poll moves. A wake leads to the waking state from everywhere. A
/// registration, and the return of the poll call, only move a poll that is under way: the first
/// makes it run again, the second finishes it. [`crate::wamr::Selector::select`] polls in the state
/// of rest, refuses while a poll is under way, and else returns to the state of rest; the waker
/// event that it returns with is an event on reading, without error, size and flags, under the
/// waker's token, and the only one.
pub proof fn law_state_moves<S>(waker: WakerInner<S>, events: Seq<Event>)
    ensures
        ({
            let state = waker.state;
            let after = events_after_select(waker, events);
            &&& state.woken() is WakerEvent
            &&& state is Polling ==> state.rerun() is Reset && state.polled() is Finished
            &&& state !is Polling ==> state.rerun() == state && state.polled() == state
            &&& state is Reset ==> step(state) == Ok::<Step, Error>(Step::Poll)
            &&& state is Polling ==> step(state) == Err::<Step, Error>(
                Error::Simple(ErrorKind::ResourceBusy),
            )
            &&& state is WakerEvent || state is Finished ==> step(state) == Ok::<Step, Error>(
                Step::Return,
            ) && state_after_select(state) is Reset
            &&& state is Reset || state is Polling ==> state_after_select(state) == state
            &&& state !is WakerEvent ==> after == events
            &&& state is WakerEvent ==> {
                &&& after.len() == 1
                &&& after[0].type_ == 1 && after[0].error == 0
                &&& after[0].fd_readwrite.nbytes == 0 && after[0].fd_readwrite.flags == 0
                &&& waker.token matches Some(name) ==> after[0].userdata == name.0
                &&& waker.token is None ==> after[0].userdata == 0
            }
        }),
{
}

/// The event of a waker is an event on reading, without error, size and flags, under the waker's
/// token; 0 stands for no token.
pub proof fn law_waker_event_carries_the_token(token: Option<Token>)
    ensures
        waker_event(token).type_ == 1 && waker_event(token).error == 0,
        waker_event(token).fd_readwrite.nbytes == 0 && waker_event(token).fd_readwrite.flags == 0,
        token matches Some(name) ==> waker_event(token).userdata == name.0,
        token is None ==> waker_event(token).userdata == 0,
{
}

} // verus!
