//! What holds of the selector for the WasmEdge host over several calls.
use vstd::prelude::*;
use crate::dispatch::{
    closing_in_range, delivered, last_timeout, law_closing_drops, law_closing_is_not_delivered,
    law_end_of_timeout_adds_nothing, law_events_are_delivered, law_heard_around_the_timeout,
    law_heard_in_order, law_left_unless_named_by_closing,
    law_only_a_closing_last_event_is_out_of_range, law_timeout_is_taken_out, left_registered, lemma_last_timeout, timeout_removed, withheld, Spent, Verdict,
};
use crate::error::Failure;
use crate::readiness::{after_io, rearms, Readiness};
use crate::registrations::{
    law_subscriptions, live, read_subscription, uses, walks, wanted_in, wants_read, wants_write,
    write_subscription, Registration,
};
use crate::timeout::{is_timeout, law_timeout_subscription_waits_as_long};
use crate::token::Token;
use crate::wasi::{
    descriptor_of, hung_up_in, Event, SubscriptionU, EVENTTYPE_CLOCK, EVENTTYPE_FD_READ,
    EVENTTYPE_FD_WRITE,
};
use crate::wasmedge::{poll_tail, spent_from, times_spent, verdict, verdicts};

verus! {

/// The list that the host polls: at most two subscriptions for each registration, and last
/// the clock, exactly if there is a timeout. It is empty exactly if there is no timeout and no
/// registration calls for reading or writing.
pub proof fn law_poll_list(
    regs: Map<u32, Registration>,
    order: Seq<u32>,
    cells: Seq<Readiness>,
    timeout: Option<u128>,
)
    requires
        walks(order, regs),
    ensures
        ({
            let list = wanted_in(regs, order, cells) + poll_tail(timeout);
            &&& list.len() <= 2 * regs.len() + 1
            &&& (timeout is Some ==> list.len() > 0 && list.last().spec_tag() == EVENTTYPE_CLOCK)
            &&& forall|i: int|
                0 <= i < list.len() - (if timeout is Some {
                    1int
                } else {
                    0int
                }) ==> (#[trigger] list[i]).spec_tag() != EVENTTYPE_CLOCK
            &&& list.len() == 0 <==> timeout is None && forall|fd: u32| #[trigger]
                regs.contains_key(fd) ==> !wants_read(regs[fd], cells) && !wants_write(
                    regs[fd],
                    cells,
                )
        }),
{
    law_subscriptions(regs, order, cells);
    let wanted = wanted_in(regs, order, cells);
    assert forall|i: int| 0 <= i < wanted.len() implies (#[trigger] wanted[i]).spec_tag()
        != EVENTTYPE_CLOCK by {
        assert(wanted.contains(wanted[i]));
    }
    if wanted.len() == 0 {
        assert forall|fd: u32| #[trigger] regs.contains_key(fd) implies !wants_read(regs[fd], cells)
            && !wants_write(regs[fd], cells) by {
            assert(!wanted.contains(read_subscription(fd)));
            assert(!wanted.contains(write_subscription(fd)));
        }
    } else {
        assert(wanted.contains(wanted[0]));
        let fd = choose|fd: u32|
            #![trigger regs.contains_key(fd)]
            regs.contains_key(fd) && (wanted[0] == read_subscription(fd) || wanted[0]
                == write_subscription(fd));
        assert(wants_read(regs[fd], cells) || wants_write(regs[fd], cells));
    }
}

/// An event on a registered descriptor that is ready to read or to write reaches the user
/// with the token that the descriptor was registered under, unless it says that the peer is
/// gone.
pub proof fn law_ready_is_reported(
    polled: Seq<Event>,
    regs: Map<u32, Registration>,
    timeout: bool,
    i: int,
)
    requires
        0 <= i < polled.len(),
        regs.contains_key(descriptor_of(polled[i].userdata)),
        polled[i].type_ == EVENTTYPE_FD_READ || polled[i].type_ == EVENTTYPE_FD_WRITE,
        !hung_up_in(polled[i].fd_readwrite.flags),
    ensures
        exists|e: Event| #[trigger]
            delivered(verdicts(polled, regs), timeout).contains(e) && e.type_ == polled[i].type_
                && Token(e.userdata as usize) == regs[descriptor_of(polled[i].userdata)].token,
{
    let vs = verdicts(polled, regs);
    let name = regs[descriptor_of(polled[i].userdata)].token;
    assert(!withheld(vs, i));
    assert(!vs[i].timeout);
    lemma_last_timeout(vs);
    law_events_are_delivered(vs, timeout, i);
    assert((name.0 as u64) as usize == name.0);
    assert(delivered(vs, timeout).contains(vs[i].event));
}

/// The end of the timeout is not delivered to a user who gave a timeout, where the host
/// reports it once.
pub proof fn law_timeout_is_not_delivered(
    polled: Seq<Event>,
    regs: Map<u32, Registration>,
    event: Event,
)
    requires
        delivered(verdicts(polled, regs), true).contains(event),
        forall|i: int, j: int|
            0 <= i < j < polled.len() && is_timeout(#[trigger] polled[i]) ==> !is_timeout(
                #[trigger] polled[j],
            ),
    ensures
        !is_timeout(event),
{
    let vs = verdicts(polled, regs);
    law_timeout_is_taken_out(vs, true, event);
    lemma_last_timeout(vs);
    let i = choose|i: int|
        0 <= i < vs.len() && (#[trigger] vs[i]).event == event && (timeout_removed(vs, true) ==> i
            != last_timeout(vs)->0);
    assert(vs[i] == verdict(polled[i], regs));
    if is_timeout(event) {
        assert(is_timeout(polled[i]));
        assert(vs[i].timeout);
        let at = last_timeout(vs)->0;
        assert(vs[at] == verdict(polled[at], regs));
        assert(is_timeout(polled[at]));
    }
}

proof fn lemma_times_spent_without(verdicts: Seq<Verdict>, spent: Spent, at: int)
    requires
        0 <= at < verdicts.len(),
        verdicts[at].spent != spent,
    ensures
        times_spent(verdicts.remove(at), spent) == times_spent(verdicts, spent),
    decreases verdicts.len(),
{
    let rest = verdicts.drop_last();
    if at < rest.len() {
        lemma_times_spent_without(rest, spent, at);
        assert(verdicts.remove(at).drop_last() =~= rest.remove(at));
    } else {
        assert(verdicts.remove(at) =~= rest);
    }
}

/// To a user who gave a timeout, its end makes no difference, where the host reports it once:
/// the same events are delivered as if it had not been reported, though perhaps in another
/// order, the same registrations are left and the same readiness is used up. This leaves out the
/// case in which another event is last and says that the peer is gone, which is out of range.
pub proof fn law_timeout_makes_no_difference(
    polled: Seq<Event>,
    regs: Map<u32, Registration>,
    cells: Seq<Readiness>,
    at: int,
)
    requires
        0 <= at < polled.len(),
        is_timeout(polled[at]),
        forall|i: int|
            0 <= i < polled.len() && i != at ==> !is_timeout(#[trigger] polled[i]),
        closing_in_range(verdicts(polled, regs), true),
    ensures
        ({
            let with = verdicts(polled, regs);
            let without = verdicts(polled.remove(at), regs);
            &&& delivered(with, true).to_multiset() == delivered(without, true).to_multiset()
            &&& left_registered(regs, with, true) == left_registered(regs, without, true)
            &&& spent_from(cells, with) == spent_from(cells, without)
        }),
{
    let with = verdicts(polled, regs);
    let without = verdicts(polled.remove(at), regs);
    assert(without =~= with.remove(at));
    assert forall|i: int| 0 <= i < with.len() && i != at implies !(#[trigger] with[i]).timeout by {
        assert(with[i] == verdict(polled[i], regs));
    }
    assert(with[at] == verdict(polled[at], regs));
    lemma_last_timeout(with);
    assert(!with[with.len() - 1].closing);
    assert(!withheld(with, with.len() - 1));
    law_end_of_timeout_adds_nothing(regs, with, at);
    assert forall|c: int| 0 <= c < cells.len() implies #[trigger] spent_from(cells, with)[c]
        == spent_from(cells, without)[c] by {
        lemma_times_spent_without(with, Spent::Read(c as usize), at);
        lemma_times_spent_without(with, Spent::Write(c as usize), at);
    }
    assert(spent_from(cells, with) =~= spent_from(cells, without));
}

/// A user does not hear of a descriptor from an event that says its peer is gone: a delivered
/// event is the end of a timeout or an event that does not say so.
pub proof fn law_closed_is_not_heard(
    polled: Seq<Event>,
    regs: Map<u32, Registration>,
    timeout: bool,
    event: Event,
)
    requires
        delivered(verdicts(polled, regs), timeout).contains(event),
        closing_in_range(verdicts(polled, regs), timeout),
    ensures
        exists|i: int|
            0 <= i < polled.len() && event == verdict(#[trigger] polled[i], regs).event && (
            is_timeout(polled[i]) || !hung_up_in(polled[i].fd_readwrite.flags)),
{
    let vs = verdicts(polled, regs);
    law_closing_is_not_delivered(vs, timeout, event);
    let i = choose|i: int|
        0 <= i < vs.len() && (#[trigger] vs[i]).event == event && !vs[i].closing;
    assert(vs[i] == verdict(polled[i], regs));
}

/// A registered descriptor whose peer is gone loses its registration, where the descriptor's
/// token names the descriptor, or the event is about neither reading nor writing.
pub proof fn law_closed_is_deregistered(
    polled: Seq<Event>,
    regs: Map<u32, Registration>,
    timeout: bool,
    i: int,
)
    requires
        0 <= i < polled.len(),
        !is_timeout(polled[i]),
        hung_up_in(polled[i].fd_readwrite.flags),
        regs.contains_key(descriptor_of(polled[i].userdata)),
        ({
            let fd = descriptor_of(polled[i].userdata);
            ||| descriptor_of(regs[fd].token.0 as u64) == fd
            ||| polled[i].type_ != EVENTTYPE_FD_READ && polled[i].type_ != EVENTTYPE_FD_WRITE
        }),
        closing_in_range(verdicts(polled, regs), timeout),
    ensures
        !left_registered(regs, verdicts(polled, regs), timeout).contains_key(
            descriptor_of(polled[i].userdata),
        ),
{
    let vs = verdicts(polled, regs);
    assert(vs[i] == verdict(polled[i], regs));
    law_closing_drops(regs, vs, timeout, i);
}

proof fn lemma_times_spent(verdicts: Seq<Verdict>, spent: Spent, i: int)
    requires
        0 <= i < verdicts.len(),
        verdicts[i].spent == spent,
    ensures
        times_spent(verdicts, spent) > 0,
    decreases verdicts.len(),
{
    if i < verdicts.len() - 1 {
        lemma_times_spent(verdicts.drop_last(), spent, i);
    }
}

/// What was used up by an event is not asked for again until the source is used: after a
/// poll that reported a registered descriptor as ready to read, no subscription to its data
/// is made; once an operation on the source has succeeded, or would have to wait, it is made
/// again if the descriptor is still registered.
pub proof fn law_read_is_asked_once<R, E>(
    polled: Seq<Event>,
    regs: Map<u32, Registration>,
    timeout: bool,
    cells: Seq<Readiness>,
    i: int,
    order: Seq<u32>,
    outcome: Result<R, Failure<E>>,
)
    requires
        0 <= i < polled.len(),
        regs.contains_key(descriptor_of(polled[i].userdata)),
        polled[i].type_ == EVENTTYPE_FD_READ,
        live(regs, cells),
        walks(order, left_registered(regs, verdicts(polled, regs), timeout)),
        rearms(outcome),
    ensures
        ({
            let fd = descriptor_of(polled[i].userdata);
            let vs = verdicts(polled, regs);
            let left = left_registered(regs, vs, timeout);
            let spent = spent_from(cells, vs);
            &&& !wanted_in(left, order, spent).contains(read_subscription(fd))
            &&& left.contains_key(fd) && regs[fd].interests.readable ==> wanted_in(
                left,
                order,
                after_io(spent, regs[fd].cell, outcome),
            ).contains(read_subscription(fd))
        }),
{
    let fd = descriptor_of(polled[i].userdata);
    let vs = verdicts(polled, regs);
    let left = left_registered(regs, vs, timeout);
    let spent = spent_from(cells, vs);
    law_subscriptions(left, order, spent);
    law_subscriptions(left, order, after_io(spent, regs[fd].cell, outcome));
    lemma_times_spent(vs, Spent::Read(regs[fd].cell), i);
    assert(!spent[regs[fd].cell as int].read);
}

/// A registered descriptor can be reported as ready to write as many times as its readiness
/// has left before it is used again: then it is not asked for room any more, and not
/// earlier if it was registered for writing.
pub proof fn law_write_is_asked_while_credit_lasts(
    regs: Map<u32, Registration>,
    verdicts: Seq<Verdict>,
    cells: Seq<Readiness>,
    fd: u32,
    order: Seq<u32>,
)
    requires
        regs.contains_key(fd),
        live(regs, cells),
        walks(order, regs),
        times_spent(verdicts, Spent::Write(regs[fd].cell)) <= cells[regs[fd].cell as int].write,
    ensures
        wanted_in(regs, order, spent_from(cells, verdicts)).contains(write_subscription(fd)) <==> (
        regs[fd].interests.writable && times_spent(verdicts, Spent::Write(regs[fd].cell))
            < cells[regs[fd].cell as int].write),
{
    let cell = regs[fd].cell;
    let write = cells[cell as int].write;
    let times = times_spent(verdicts, Spent::Write(cell));
    law_subscriptions(regs, order, spent_from(cells, verdicts));
    vstd::arithmetic::div_mod::lemma_small_mod((write - times) as nat, (usize::MAX + 1) as nat);
    assert(spent_from(cells, verdicts)[cell as int].write == write - times);
}

/// Once an operation on a source has succeeded, or would have to wait, the subscription to its
/// room for data is made again, if its descriptor is still registered and for writing.
pub proof fn law_write_is_asked_again<R, E>(
    polled: Seq<Event>,
    regs: Map<u32, Registration>,
    timeout: bool,
    cells: Seq<Readiness>,
    fd: u32,
    order: Seq<u32>,
    outcome: Result<R, Failure<E>>,
)
    requires
        live(regs, cells),
        walks(order, left_registered(regs, verdicts(polled, regs), timeout)),
        rearms(outcome),
    ensures
        ({
            let vs = verdicts(polled, regs);
            let left = left_registered(regs, vs, timeout);
            left.contains_key(fd) && regs[fd].interests.writable ==> wanted_in(
                left,
                order,
                after_io(spent_from(cells, vs), regs[fd].cell, outcome),
            ).contains(write_subscription(fd))
        }),
{
    let vs = verdicts(polled, regs);
    let left = left_registered(regs, vs, timeout);
    law_subscriptions(left, order, after_io(spent_from(cells, vs), regs[fd].cell, outcome));
}

proof fn lemma_never_spent(verdicts: Seq<Verdict>, spent: Spent)
    requires
        forall|i: int| 0 <= i < verdicts.len() ==> (#[trigger] verdicts[i]).spent != spent,
    ensures
        times_spent(verdicts, spent) == 0,
    decreases verdicts.len(),
{
    if verdicts.len() > 0 {
        let rest = verdicts.drop_last();
        assert forall|i: int| 0 <= i < rest.len() implies (#[trigger] rest[i]).spent != spent by {
            assert(rest[i] == verdicts[i]);
        }
        lemma_never_spent(rest, spent);
    }
}

/// Readiness of which no event was reported is not used up: neither readiness to read without
/// an event on reading, nor readiness to write without one on writing.
pub proof fn law_unreported_is_not_spent(
    polled: Seq<Event>,
    regs: Map<u32, Registration>,
    cells: Seq<Readiness>,
    cell: usize,
)
    requires
        cell < cells.len(),
    ensures
        (forall|i: int|
            0 <= i < polled.len() && (#[trigger] polled[i]).type_ == EVENTTYPE_FD_READ ==> !uses(
                regs,
                polled[i],
                cell,
            )) ==> spent_from(cells, verdicts(polled, regs))[cell as int].read
            == cells[cell as int].read,
        (forall|i: int|
            0 <= i < polled.len() && (#[trigger] polled[i]).type_ == EVENTTYPE_FD_WRITE ==> !uses(
                regs,
                polled[i],
                cell,
            )) ==> spent_from(cells, verdicts(polled, regs))[cell as int].write
            == cells[cell as int].write,
{
    let vs = verdicts(polled, regs);
    if forall|i: int|
        0 <= i < polled.len() && (#[trigger] polled[i]).type_ == EVENTTYPE_FD_READ ==> !uses(
            regs,
            polled[i],
            cell,
        ) {
        assert forall|i: int| 0 <= i < vs.len() implies (#[trigger] vs[i]).spent != Spent::Read(
            cell,
        ) by {
            assert(vs[i] == verdict(polled[i], regs));
        }
        lemma_never_spent(vs, Spent::Read(cell));
    }
    if forall|i: int|
        0 <= i < polled.len() && (#[trigger] polled[i]).type_ == EVENTTYPE_FD_WRITE ==> !uses(
            regs,
            polled[i],
            cell,
        ) {
        assert forall|i: int| 0 <= i < vs.len() implies (#[trigger] vs[i]).spent != Spent::Write(
            cell,
        ) by {
            assert(vs[i] == verdict(polled[i], regs));
        }
        lemma_never_spent(vs, Spent::Write(cell));
        vstd::arithmetic::div_mod::lemma_small_mod(
            cells[cell as int].write as nat,
            (usize::MAX + 1) as nat,
        );
    }
}

/// What a user hears, event by event: the end of a timeout that was not taken out, and every event
/// whose hang-up flag is not set, under the token of the registration if it is about reading or
/// writing on a registered descriptor. In all else each event is as the host reported it, its error,
/// size and flags among it. The user hears them in the order in which they were reported, but for
/// the last one, which takes the place of the end of the timeout if that is taken out.
pub proof fn law_user_hears_exactly(
    polled: Seq<Event>,
    regs: Map<u32, Registration>,
    timeout: bool,
    at: int,
    heard: spec_fn(Event) -> bool,
    shown: spec_fn(Event) -> Event,
)
    requires
        forall|event: Event| #[trigger] heard(event) <==> {
            let fd = (event.userdata % 0x1_0000_0000) as u32;
            ||| event.type_ == 0 && event.userdata == u64::MAX
            ||| event.fd_readwrite.flags % 2 == 0
        },
        forall|event: Event| {
            let fd = (event.userdata % 0x1_0000_0000) as u32;
            &&& regs.contains_key(fd) && (event.type_ == 1 || event.type_ == 2) ==> (#[trigger] shown(event)) == (
            Event { userdata: regs[fd].token.0 as u64, ..event })
            &&& !(regs.contains_key(fd) && (event.type_ == 1 || event.type_ == 2)) ==> shown(event)
                == event
        },
    ensures
        !timeout || (forall|i: int|
            0 <= i < polled.len() ==> !((#[trigger] polled[i]).type_ == 0 && polled[i].userdata == u64::MAX)) ==> delivered(verdicts(polled, regs), timeout)
            == polled.filter(heard).map_values(shown),
        timeout && 0 <= at < polled.len() && polled[at].type_ == 0 && polled[at].userdata == u64::MAX && (forall|i: int|
            at < i < polled.len() ==> !((#[trigger] polled[i]).type_ == 0 && polled[i].userdata == u64::MAX)) ==> {
            let before = polled.take(at).filter(heard).map_values(shown);
            let behind = polled.subrange(at + 1, polled.len() - 1).filter(heard).map_values(shown);
            delivered(verdicts(polled, regs), true) == if at == polled.len() - 1 {
                before
            } else {
                before + seq![shown(polled.last())] + behind
            }
        },
{
    let vs = verdicts(polled, regs);
    assert forall|i: int| 0 <= i < polled.len() implies (#[trigger] vs[i]).event == shown(polled[i])
        && heard(polled[i]) == !(vs[i].closing || vs[i].deregistered) by {
        assert(vs[i] == verdict(polled[i], regs));
        assert(heard(polled[i]) || !heard(polled[i]));
        assert(shown(polled[i]) == shown(polled[i]));
    }
    if !timeout || (forall|i: int|
        0 <= i < polled.len() ==> !((#[trigger] polled[i]).type_ == 0 && polled[i].userdata == u64::MAX)) {
        assert forall|i: int| 0 <= i < polled.len() && timeout implies !(
        #[trigger] vs[i]).timeout by {
            assert(vs[i] == verdict(polled[i], regs));
            assert(polled[i] == polled[i]);
        }
        law_heard_in_order(polled, vs, timeout, heard, shown);
    }
    if timeout && 0 <= at < polled.len() && polled[at].type_ == 0 && polled[at].userdata == u64::MAX && (forall|i: int|
        at < i < polled.len() ==> !((#[trigger] polled[i]).type_ == 0 && polled[i].userdata == u64::MAX)) {
        assert(vs[at] == verdict(polled[at], regs));
        assert forall|i: int| at < i < polled.len() implies !(#[trigger] vs[i]).timeout by {
            assert(vs[i] == verdict(polled[i], regs));
        }
        law_heard_around_the_timeout(polled, vs, at, heard, shown);
    }
}

/// An event that a registered descriptor is ready to read or to write, and that does not say it is
/// closed, is delivered as the host reported it, with its error, its size and its flags; only the
/// userdata is replaced, by the token of the registration.
pub proof fn law_ready_is_delivered_as_reported(
    polled: Seq<Event>,
    regs: Map<u32, Registration>,
    timeout: bool,
    i: int,
    fd: u32,
)
    requires
        0 <= i < polled.len(),
        polled[i].userdata % 0x1_0000_0000 == fd,
        regs.contains_key(fd),
        polled[i].type_ == 1 || polled[i].type_ == 2,
        polled[i].fd_readwrite.flags % 2 == 0,
    ensures
        delivered(verdicts(polled, regs), timeout).contains(
            Event {
                userdata: regs[fd].token.0 as u64,
                error: polled[i].error,
                type_: polled[i].type_,
                fd_readwrite: polled[i].fd_readwrite,
            },
        ),
{
    let vs = verdicts(polled, regs);
    assert(vs[i] == verdict(polled[i], regs));
    assert(!withheld(vs, i));
    lemma_last_timeout(vs);
    law_events_are_delivered(vs, timeout, i);
}

/// Which registrations are left: all but those of the descriptors that a closing event names. An
/// event is closing if its hang-up flag is set, unless it is the end
/// of a timeout; it names the descriptor that it is about, or the token of that descriptor's
/// registration if it is about reading or writing. A registration that is left is not altered. This
/// is of events that can be taken.
pub proof fn law_closing_events_decide_what_is_left(
    polled: Seq<Event>,
    regs: Map<u32, Registration>,
    timeout: bool,
    g: u32,
    closes: spec_fn(Event) -> bool,
)
    requires
        forall|event: Event| #[trigger] closes(event) <==> {
            let fd = (event.userdata % 0x1_0000_0000) as u32;
            &&& !(event.type_ == 0 && event.userdata == u64::MAX)
            &&& event.fd_readwrite.flags % 2 == 1
            &&& if regs.contains_key(fd) && (event.type_ == 1 || event.type_ == 2) {
                (regs[fd].token.0 as u64) % 0x1_0000_0000 == g
            } else {
                fd == g
            }
        },
        closing_in_range(verdicts(polled, regs), timeout),
    ensures
        ({
            let left = left_registered(regs, verdicts(polled, regs), timeout);
            &&& left.contains_key(g) <==> regs.contains_key(g) && forall|i: int|
                0 <= i < polled.len() ==> !closes(#[trigger] polled[i])
            &&& left.contains_key(g) ==> left[g] == regs[g]
        }),
{
    let vs = verdicts(polled, regs);
    assert forall|i: int| 0 <= i < vs.len() implies ((#[trigger] vs[i]).timeout ==> !vs[i].closing)
        && (vs[i].timeout <==> polled[i].type_ == 0 && polled[i].userdata == u64::MAX) by {
        assert(vs[i] == verdict(polled[i], regs));
    }
    law_left_unless_named_by_closing(regs, vs, timeout, g);
    assert forall|i: int| 0 <= i < polled.len() implies (closes(#[trigger] polled[i]) <==> (
    vs[i].closing && vs[i].event.userdata % 0x1_0000_0000 == g)) by {
        assert(vs[i] == verdict(polled[i], regs));
    }
    let left = left_registered(regs, vs, timeout);
    if forall|i: int| 0 <= i < polled.len() ==> !closes(#[trigger] polled[i]) {
        assert forall|i: int| 0 <= i < vs.len() implies !((#[trigger] vs[i]).closing
            && vs[i].event.userdata % 0x1_0000_0000 == g) by {
            assert(!closes(polled[i]));
        }
    } else {
        let i = choose|i: int| 0 <= i < polled.len() && closes(#[trigger] polled[i]);
        assert(vs[i].closing && vs[i].event.userdata % 0x1_0000_0000 == g);
    }
}

/// Reported events can be taken unless a timeout was given, its end is among them and the last of
/// them says that the peer is gone.
pub proof fn law_which_events_can_be_taken(
    polled: Seq<Event>,
    regs: Map<u32, Registration>,
    timeout: bool,
)
    ensures
        closing_in_range(verdicts(polled, regs), timeout) <==> !(timeout && (exists|i: int|
            0 <= i < polled.len() && (#[trigger] polled[i]).type_ == 0 && polled[i].userdata == u64::MAX) && !(polled.last().type_
            == 0 && polled.last().userdata == u64::MAX) && polled.last().fd_readwrite.flags % 2 == 1),
{
    let vs = verdicts(polled, regs);
    law_only_a_closing_last_event_is_out_of_range(vs, timeout);
    assert forall|i: int| 0 <= i < vs.len() implies ((#[trigger] vs[i]).timeout <==> polled[i].type_ == 0 && polled[i].userdata == u64::MAX) by {
        assert(vs[i] == verdict(polled[i], regs));
    }
    if polled.len() > 0 {
        assert(vs[polled.len() - 1] == verdict(polled[polled.len() - 1], regs));
    }
    if exists|i: int| 0 <= i < polled.len() && (#[trigger] polled[i]).type_ == 0 && polled[i].userdata == u64::MAX {
        let i = choose|i: int| 0 <= i < polled.len() && (#[trigger] polled[i]).type_ == 0 && polled[i].userdata == u64::MAX;
        assert(vs[i].timeout);
    }
    if exists|i: int| 0 <= i < vs.len() && (#[trigger] vs[i]).timeout {
        let i = choose|i: int| 0 <= i < vs.len() && (#[trigger] vs[i]).timeout;
        assert(polled[i] == polled[i]);
    }
}

/// The list that the host polls is that of the registrations, and behind it the clock that ends the
/// timeout, exactly if there is one.
pub proof fn law_clock_ends_the_list(
    regs: Map<u32, Registration>,
    order: Seq<u32>,
    cells: Seq<Readiness>,
    timeout: Option<u128>,
)
    ensures
        ({
            let wanted = wanted_in(regs, order, cells);
            let list = wanted + poll_tail(timeout);
            let k = wanted.len() as int;
            &&& forall|i: int| 0 <= i < k ==> (#[trigger] list[i]) == wanted[i]
            &&& list.len() == k + (if timeout is Some {
                1int
            } else {
                0int
            })
            &&& timeout is Some ==> list[k].userdata == u64::MAX
            &&& timeout is Some ==> (list[k].u matches SubscriptionU::Clock(clock) && {
                &&& clock.id == 1 && clock.flags == 0 && clock.precision == 1_000_000
                &&& 10 <= timeout->0 <= u64::MAX ==> clock.timeout == timeout->0
                &&& timeout->0 < 10 ==> clock.timeout == 10
                &&& timeout->0 > u64::MAX ==> clock.timeout == u64::MAX
            })
        }),
{
    if timeout is Some {
        law_timeout_subscription_waits_as_long(timeout->0);
    }
}

proof fn lemma_times_spent_counts(
    polled: Seq<Event>,
    regs: Map<u32, Registration>,
    spent: Spent,
    counts: spec_fn(Event) -> bool,
)
    requires
        forall|event: Event| #[trigger] counts(event) <==> verdict(event, regs).spent == spent,
    ensures
        times_spent(verdicts(polled, regs), spent) == polled.filter(counts).len(),
    decreases polled.len(),
{
    reveal(Seq::filter);
    if polled.len() > 0 {
        let rest = polled.drop_last();
        lemma_times_spent_counts(rest, regs, spent, counts);
        assert(verdicts(polled, regs).drop_last() =~= verdicts(rest, regs));
        assert(verdicts(polled, regs).last() == verdict(polled.last(), regs));
        assert(counts(polled.last()) <==> verdict(polled.last(), regs).spent == spent);
    }
}

/// Which readiness a poll uses up, for whatever a descriptor is registered: all readiness to read
/// of the cells whose descriptor was reported as ready to read; and as much write credit as there
/// were reports that the descriptor is ready to write, counting on from the largest number below 0.
/// Nothing else changes.
pub proof fn law_reported_readiness_is_spent(
    polled: Seq<Event>,
    regs: Map<u32, Registration>,
    cells: Seq<Readiness>,
    cell: usize,
    reads: spec_fn(Event) -> bool,
    writes: spec_fn(Event) -> bool,
)
    requires
        cell < cells.len(),
        forall|event: Event| #[trigger] reads(event) <==> {
            let fd = (event.userdata % 0x1_0000_0000) as u32;
            event.type_ == 1 && regs.contains_key(fd) && regs[fd].cell == cell
        },
        forall|event: Event| #[trigger] writes(event) <==> {
            let fd = (event.userdata % 0x1_0000_0000) as u32;
            event.type_ == 2 && regs.contains_key(fd) && regs[fd].cell == cell
        },
    ensures
        ({
            let after = spent_from(cells, verdicts(polled, regs));
            let before = cells[cell as int];
            let reported = polled.filter(writes).len();
            &&& after.len() == cells.len()
            &&& after[cell as int].read <==> before.read && polled.filter(reads).len() == 0
            &&& reported <= before.write ==> after[cell as int].write == before.write - reported
            &&& (after[cell as int].write - (before.write - reported)) % (usize::MAX + 1) == 0
        }),
{
    let vs = verdicts(polled, regs);
    let before = cells[cell as int].write;
    let m = usize::MAX + 1;
    assert forall|event: Event| #[trigger] reads(event) <==> verdict(event, regs).spent
        == Spent::Read(cell) by {}
    assert forall|event: Event| #[trigger] writes(event) <==> verdict(event, regs).spent
        == Spent::Write(cell) by {}
    lemma_times_spent_counts(polled, regs, Spent::Read(cell), reads);
    lemma_times_spent_counts(polled, regs, Spent::Write(cell), writes);
    let left = before - polled.filter(writes).len();
    if left >= 0 {
        vstd::arithmetic::div_mod::lemma_small_mod(left as nat, m as nat);
    }
    vstd::arithmetic::div_mod::lemma_mod_bound(left, m);
    vstd::arithmetic::div_mod::lemma_sub_mod_noop(left % m, left, m);
    vstd::arithmetic::div_mod::lemma_mod_twice(left, m);
    vstd::arithmetic::div_mod::lemma_small_mod(0, m as nat);
    assert(spent_from(cells, vs)[cell as int].write == left % m);
}

} // verus!
