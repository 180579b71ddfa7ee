//! From what the host reports to what the user hears: the part that all hosts share.
//!
//! A host's module gives a [`Verdict`] on each reported event. What is delivered, and which
//! registrations are dropped, follows from the verdicts alone.
use vstd::prelude::*;
use crate::readiness::Readiness;
use crate::registrations::{Registration, Registrations};
use crate::wasi::{descriptor, descriptor_of, Event, Fd};

verus! {

/// The readiness that an event uses up, named by its cell.
#[derive(Clone, Copy, Debug, PartialEq, Eq, Structural)]
pub enum Spent {
    Nothing,
    Read(usize),
    Write(usize),
}

/// What is to be done about one reported event.
#[derive(Clone, Copy, Debug, PartialEq, Eq, Structural)]
pub struct Verdict {
    /// The event as the user is to see it.
    pub event: Event,
    /// It is the end of a timeout.
    pub timeout: bool,
    /// It says that its descriptor is closed.
    pub closing: bool,
    /// It is about a descriptor that is no longer registered.
    pub deregistered: bool,
    /// The readiness that it uses up.
    pub spent: Spent,
}

/// The position of the last verdict on the end of a timeout.
pub open spec fn last_timeout(verdicts: Seq<Verdict>) -> Option<int>
    decreases verdicts.len(),
{
    if verdicts.len() == 0 {
        None
    } else if verdicts.last().timeout {
        Some(verdicts.len() - 1)
    } else {
        last_timeout(verdicts.drop_last())
    }
}

/// The events as the user is to see them.
pub open spec fn seen(verdicts: Seq<Verdict>) -> Seq<Event> {
    Seq::new(verdicts.len(), |i: int| verdicts[i].event)
}

/// The events without the end of the timeout, if there was a timeout: the last event takes
/// its place.
pub open spec fn without_timeout(verdicts: Seq<Verdict>, timeout: bool) -> Seq<Event> {
    match last_timeout(verdicts) {
        Some(at) if timeout => seen(verdicts).update(at, seen(verdicts).last()).drop_last(),
        _ => seen(verdicts),
    }
}

/// Whether what stands at position `i` is kept from the user.
pub open spec fn withheld(verdicts: Seq<Verdict>, i: int) -> bool {
    verdicts[i].closing || verdicts[i].deregistered
}

/// The first `n` of `events` without those at positions that are withheld.
pub open spec fn kept(events: Seq<Event>, verdicts: Seq<Verdict>, n: int) -> Seq<Event>
    decreases n,
{
    if n <= 0 {
        seq![]
    } else if withheld(verdicts, n - 1) {
        kept(events, verdicts, n - 1)
    } else {
        kept(events, verdicts, n - 1).push(events[n - 1])
    }
}

/// The events that are delivered to the user.
pub open spec fn delivered(verdicts: Seq<Verdict>, timeout: bool) -> Seq<Event> {
    let events = without_timeout(verdicts, timeout);
    kept(events, verdicts, events.len() as int)
}

/// Whether the event at one of the first `n` positions is closing and names `fd` in the
/// userdata that the user is to see.
pub open spec fn closing_names(
    events: Seq<Event>,
    verdicts: Seq<Verdict>,
    n: int,
    fd: u32,
) -> bool {
    exists|i: int|
        0 <= i < n && (#[trigger] verdicts[i]).closing && descriptor_of(events[i].userdata) == fd
}

/// Whether `fd` is to lose its registration: an event at a closing position names it in the
/// userdata that the user is to see. Where the verdict has given the event the token of a
/// registration, that is the descriptor that the token names, which need not be the one that
/// the host reported as closed.
pub open spec fn closes(verdicts: Seq<Verdict>, timeout: bool, fd: u32) -> bool {
    closing_names(without_timeout(verdicts, timeout), verdicts, verdicts.len() as int, fd)
}

/// The registrations that are left.
pub open spec fn left_registered(
    regs: Map<u32, Registration>,
    verdicts: Seq<Verdict>,
    timeout: bool,
) -> Map<u32, Registration> {
    regs.filter_keys(|fd: u32| !closes(verdicts, timeout, fd))
}

/// Whether each closing position still holds an event once the end of the timeout is gone.
/// The last position holds none any more, so a closing event there is out of range.
pub open spec fn closing_in_range(verdicts: Seq<Verdict>, timeout: bool) -> bool {
    forall|i: int|
        0 <= i < verdicts.len() && (#[trigger] verdicts[i]).closing ==> i < without_timeout(
            verdicts,
            timeout,
        ).len()
}

/// Whether the readiness that the verdicts use up lies in the cells.
pub open spec fn spends_in(verdicts: Seq<Verdict>, len: nat) -> bool {
    forall|i: int|
        0 <= i < verdicts.len() ==> match (#[trigger] verdicts[i]).spent {
            Spent::Nothing => true,
            Spent::Read(cell) => cell < len,
            Spent::Write(cell) => cell < len,
        }
}

pub(crate) proof fn lemma_last_timeout(verdicts: Seq<Verdict>)
    ensures
        match last_timeout(verdicts) {
            Some(at) => {
                &&& 0 <= at < verdicts.len()
                &&& verdicts[at].timeout
                &&& forall|i: int| at < i < verdicts.len() ==> !(#[trigger] verdicts[i]).timeout
            },
            None => forall|i: int| 0 <= i < verdicts.len() ==> !(#[trigger] verdicts[i]).timeout,
        },
    decreases verdicts.len(),
{
    if verdicts.len() > 0 && !verdicts.last().timeout {
        let rest = verdicts.drop_last();
        lemma_last_timeout(rest);
        assert forall|i: int| 0 <= i < rest.len() implies #[trigger] verdicts[i] == rest[i] by {}
    }
}

/// The position of the last verdict on the end of a timeout.
fn timeout_index(verdicts: &Vec<Verdict>) -> (r: Option<usize>)
    ensures
        match r {
            Some(at) => last_timeout(verdicts@) == Some(at as int) && at < verdicts@.len(),
            None => last_timeout(verdicts@) is None,
        },
{
    let mut index: Option<usize> = None;
    for k in 0..verdicts.len()
        invariant
            match index {
                Some(at) => last_timeout(verdicts@.take(k as int)) == Some(at as int) && at < k,
                None => last_timeout(verdicts@.take(k as int)) is None,
            },
    {
        assert(verdicts@.take(k + 1).drop_last() =~= verdicts@.take(k as int));
        if verdicts[k].timeout {
            index = Some(k);
        }
    }
    assert(verdicts@.take(verdicts@.len() as int) =~= verdicts@);
    index
}

/// Whether each closing position still holds an event once the end of the timeout is gone.
pub fn check_closing(verdicts: &Vec<Verdict>, timeout: bool) -> (b: bool)
    ensures
        b == closing_in_range(verdicts@, timeout),
{
    let len: usize = verdicts.len();
    let removed: bool = timeout && timeout_index(verdicts).is_some();
    if !removed || len == 0 {
        return true;
    }
    if verdicts[len - 1].closing {
        assert(verdicts@[len - 1].closing);
        false
    } else {
        true
    }
}

/// The events that are delivered to the user. For each closing event, the registration of the
/// descriptor that it names is taken out: the one in the userdata that the user is to see, so
/// that a closing event on a registered descriptor drops what its token names.
pub fn deliver(verdicts: &Vec<Verdict>, timeout: bool, regs: &mut Registrations) -> (events: Vec<
    Event,
>)
    requires
        closing_in_range(verdicts@, timeout),
    ensures
        events@ == delivered(verdicts@, timeout),
        final(regs)@ == left_registered(old(regs)@, verdicts@, timeout),
{
    let mut all: Vec<Event> = Vec::new();
    for k in 0..verdicts.len()
        invariant
            all@ == seen(verdicts@).take(k as int),
    {
        all.push(verdicts[k].event);
    }
    assert(all@ =~= seen(verdicts@));

    // Remove the timeout event.
    if timeout {
        if let Some(at) = timeout_index(verdicts) {
            all.swap_remove(at);
        }
    }
    assert(all@ == without_timeout(verdicts@, timeout));

    let mut closing_fds: Vec<Fd> = Vec::new();
    for k in 0..verdicts.len()
        invariant
            closing_in_range(verdicts@, timeout),
            all@ == without_timeout(verdicts@, timeout),
            forall|fd: u32| #[trigger]
                closing_fds@.contains(fd) <==> closing_names(all@, verdicts@, k as int, fd),
    {
        let ghost before = closing_fds@;
        if verdicts[k].closing {
            closing_fds.push(descriptor(all[k].userdata));
        }
        assert forall|fd: u32| #[trigger] closing_fds@.contains(fd) <==> closing_names(
            all@,
            verdicts@,
            k + 1,
            fd,
        ) by {
            let here = verdicts@[k as int].closing && descriptor_of(all@[k as int].userdata) == fd;
            if before.contains(fd) {
                assert(closing_fds@[before.index_of(fd)] == fd);
            }
            if here {
                assert(closing_fds@[before.len() as int] == fd);
            }
            assert(closing_fds@.contains(fd) <==> (before.contains(fd) || here));
            assert(closing_names(all@, verdicts@, k + 1, fd) <==> (closing_names(
                all@,
                verdicts@,
                k as int,
                fd,
            ) || here));
        }
    }
    regs.remove_all(&closing_fds);
    assert(regs@ =~= left_registered(old(regs)@, verdicts@, timeout));

    let mut events: Vec<Event> = Vec::new();
    for k in 0..all.len()
        invariant
            all@.len() <= verdicts@.len(),
            events@ == kept(all@, verdicts@, k as int),
    {
        if !(verdicts[k].closing || verdicts[k].deregistered) {
            events.push(all[k]);
        }
    }
    events
}

proof fn lemma_kept(events: Seq<Event>, verdicts: Seq<Verdict>, n: int)
    requires
        0 <= n <= events.len(),
    ensures
        forall|i: int|
            0 <= i < n && !#[trigger] withheld(verdicts, i) ==> kept(events, verdicts, n).contains(
                events[i],
            ),
        forall|e: Event| #[trigger]
            kept(events, verdicts, n).contains(e) ==> exists|i: int|
                0 <= i < n && !#[trigger] withheld(verdicts, i) && events[i] == e,
    decreases n,
{
    if n > 0 {
        let before = kept(events, verdicts, n - 1);
        let all = kept(events, verdicts, n);
        lemma_kept(events, verdicts, n - 1);
        assert forall|i: int| 0 <= i < n && !#[trigger] withheld(verdicts, i) implies all.contains(
            events[i],
        ) by {
            if i < n - 1 {
                assert(before.contains(events[i]));
                assert(all[before.index_of(events[i])] == events[i]);
            } else {
                assert(all[before.len() as int] == events[i]);
            }
        }
        assert forall|e: Event| #[trigger] all.contains(e) implies exists|i: int|
            0 <= i < n && !#[trigger] withheld(verdicts, i) && events[i] == e by {
            let j = all.index_of(e);
            if j < before.len() {
                assert(before[j] == e);
                assert(before.contains(e));
                let i = choose|i: int|
                    0 <= i < n - 1 && !#[trigger] withheld(verdicts, i) && events[i] == e;
                assert(!withheld(verdicts, i));
            } else {
                assert(!withheld(verdicts, n - 1));
                assert(events[n - 1] == e);
            }
        }
    }
}

/// Whether the end of the timeout is taken out of the events.
pub open spec fn timeout_removed(verdicts: Seq<Verdict>, timeout: bool) -> bool {
    timeout && last_timeout(verdicts) is Some
}

/// Every event that is not withheld is delivered as the user is to see it, except for the end
/// of the timeout.
pub proof fn law_events_are_delivered(verdicts: Seq<Verdict>, timeout: bool, i: int)
    requires
        0 <= i < verdicts.len(),
        !withheld(verdicts, i),
        timeout_removed(verdicts, timeout) ==> i != last_timeout(verdicts)->0,
        forall|j: int|
            0 <= j < verdicts.len() && (#[trigger] verdicts[j]).timeout ==> !withheld(verdicts, j),
    ensures
        delivered(verdicts, timeout).contains(verdicts[i].event),
{
    let events = without_timeout(verdicts, timeout);
    lemma_last_timeout(verdicts);
    lemma_kept(events, verdicts, events.len() as int);
    if timeout_removed(verdicts, timeout) {
        let at = last_timeout(verdicts)->0;
        assert(verdicts[at].timeout);
        if i == verdicts.len() - 1 {
            assert(events[at] == verdicts[i].event);
            assert(!withheld(verdicts, at));
        } else {
            assert(events[i] == verdicts[i].event);
        }
    } else {
        assert(events[i] == verdicts[i].event);
    }
}

/// What is delivered was reported and, if there was a timeout, is not its end.
pub proof fn law_timeout_is_taken_out(verdicts: Seq<Verdict>, timeout: bool, event: Event)
    requires
        delivered(verdicts, timeout).contains(event),
    ensures
        exists|i: int|
            0 <= i < verdicts.len() && (#[trigger] verdicts[i]).event == event && (timeout_removed(
                verdicts,
                timeout,
            ) ==> i != last_timeout(verdicts)->0),
{
    let events = without_timeout(verdicts, timeout);
    lemma_last_timeout(verdicts);
    lemma_kept(events, verdicts, events.len() as int);
    let i = choose|i: int|
        0 <= i < events.len() && !#[trigger] withheld(verdicts, i) && events[i] == event;
    if timeout_removed(verdicts, timeout) && i == last_timeout(verdicts)->0 {
        assert(verdicts[verdicts.len() - 1].event == event);
    } else {
        assert(verdicts[i].event == event);
    }
}

/// What is withheld is not delivered: each delivered event was reported by a verdict that
/// does not withhold it. This leaves out the case in which the last event is withheld and is
/// moved to where the end of the timeout was.
pub proof fn law_withheld_is_not_delivered(verdicts: Seq<Verdict>, timeout: bool, event: Event)
    requires
        delivered(verdicts, timeout).contains(event),
        timeout_removed(verdicts, timeout) ==> !withheld(verdicts, verdicts.len() - 1),
    ensures
        exists|i: int|
            0 <= i < verdicts.len() && !#[trigger] withheld(verdicts, i) && verdicts[i].event
                == event,
{
    let events = without_timeout(verdicts, timeout);
    lemma_last_timeout(verdicts);
    lemma_kept(events, verdicts, events.len() as int);
    let i = choose|i: int|
        0 <= i < events.len() && !#[trigger] withheld(verdicts, i) && events[i] == event;
    if timeout_removed(verdicts, timeout) && i == last_timeout(verdicts)->0 {
        assert(!withheld(verdicts, verdicts.len() - 1));
        assert(verdicts[verdicts.len() - 1].event == event);
    } else {
        assert(verdicts[i].event == event);
    }
}

/// A closing event drops the registration of the descriptor named in the userdata that the user
/// is to see, wherever the closing positions are in range and no end of a timeout is closing.
pub proof fn law_closing_drops(
    regs: Map<u32, Registration>,
    verdicts: Seq<Verdict>,
    timeout: bool,
    i: int,
)
    requires
        0 <= i < verdicts.len(),
        verdicts[i].closing,
        closing_in_range(verdicts, timeout),
        forall|j: int|
            0 <= j < verdicts.len() && (#[trigger] verdicts[j]).timeout ==> !verdicts[j].closing,
    ensures
        !left_registered(regs, verdicts, timeout).contains_key(
            descriptor_of(verdicts[i].event.userdata),
        ),
{
    let events = without_timeout(verdicts, timeout);
    lemma_last_timeout(verdicts);
    assert(i < events.len());
    if timeout_removed(verdicts, timeout) {
        assert(verdicts[last_timeout(verdicts)->0].timeout);
    }
    assert(events[i] == verdicts[i].event);
    assert(closes(verdicts, timeout, descriptor_of(verdicts[i].event.userdata)));
}

/// Registrations are only ever dropped: none is added, and those that are left are not
/// altered.
pub proof fn law_registrations_are_only_dropped(
    regs: Map<u32, Registration>,
    verdicts: Seq<Verdict>,
    timeout: bool,
)
    ensures
        left_registered(regs, verdicts, timeout).submap_of(regs),
{
}

/// A closing event is not delivered, wherever the closing positions are in range: each
/// delivered event was reported by a verdict that is not closing.
pub proof fn law_closing_is_not_delivered(verdicts: Seq<Verdict>, timeout: bool, event: Event)
    requires
        delivered(verdicts, timeout).contains(event),
        closing_in_range(verdicts, timeout),
    ensures
        exists|i: int|
            0 <= i < verdicts.len() && (#[trigger] verdicts[i]).event == event
                && !verdicts[i].closing,
{
    let events = without_timeout(verdicts, timeout);
    lemma_last_timeout(verdicts);
    lemma_kept(events, verdicts, events.len() as int);
    let i = choose|i: int|
        0 <= i < events.len() && !#[trigger] withheld(verdicts, i) && events[i] == event;
    if timeout_removed(verdicts, timeout) && i == last_timeout(verdicts)->0 {
        let last = verdicts.len() - 1;
        assert(verdicts[last].event == event);
        assert(!verdicts[last].closing);
    } else {
        assert(verdicts[i].event == event && !verdicts[i].closing);
    }
}

/// Whether `at` is the position of the only verdict on the end of a timeout.
pub open spec fn only_timeout(verdicts: Seq<Verdict>, at: int) -> bool {
    &&& 0 <= at < verdicts.len()
    &&& verdicts[at].timeout
    &&& forall|i: int|
        0 <= i < verdicts.len() && i != at ==> !(#[trigger] verdicts[i]).timeout
}

/// The first `n` events with the last event in the place of the one at `at`, and the first
/// `n - 1` events where the one at `at` was never there.
proof fn lemma_kept_without(verdicts: Seq<Verdict>, at: int, n: int)
    requires
        0 <= at < n < verdicts.len(),
        !withheld(verdicts, at),
    ensures
        ({
            let last = seen(verdicts).last();
            let moved = seen(verdicts).update(at, last).drop_last();
            let rest = verdicts.remove(at);
            kept(moved, verdicts, n).to_multiset() == kept(
                seen(rest),
                rest,
                n - 1,
            ).to_multiset().insert(last)
        }),
    decreases n,
{
    broadcast use vstd::seq_lib::group_to_multiset_ensures;

    let last = seen(verdicts).last();
    let moved = seen(verdicts).update(at, last).drop_last();
    let rest = verdicts.remove(at);
    if n == at + 1 {
        lemma_kept_before(verdicts, at, at);
        assert(kept(moved, verdicts, n) == kept(moved, verdicts, at).push(last));
    } else {
        lemma_kept_without(verdicts, at, n - 1);
        assert(rest[n - 2] == verdicts[n - 1]);
        assert(moved[n - 1] == verdicts[n - 1].event);
        assert(seen(rest)[n - 2] == verdicts[n - 1].event);
        assert(withheld(rest, n - 2) == withheld(verdicts, n - 1));
        assert(kept(moved, verdicts, n).to_multiset() =~= kept(
            seen(rest),
            rest,
            n - 1,
        ).to_multiset().insert(last));
    }
}

/// What stands before `at` is the same with and without the event at `at`.
proof fn lemma_kept_before(verdicts: Seq<Verdict>, at: int, n: int)
    requires
        0 <= n <= at < verdicts.len(),
    ensures
        ({
            let rest = verdicts.remove(at);
            let events = seen(verdicts).update(at, seen(verdicts).last()).drop_last();
            kept(events, verdicts, n) == kept(seen(rest), rest, n)
        }),
    decreases n,
{
    if n > 0 {
        let rest = verdicts.remove(at);
        lemma_kept_before(verdicts, at, n - 1);
        assert(rest[n - 1] == verdicts[n - 1]);
        assert(seen(rest)[n - 1] == verdicts[n - 1].event);
        assert(withheld(rest, n - 1) == withheld(verdicts, n - 1));
    }
}

/// To a user who gave a timeout, its end makes no difference: the same events are delivered as
/// if it had not been reported, though perhaps in another order, and the same registrations are
/// left. This leaves out the case in which another event is last and is withheld: it is moved to
/// where the end of the timeout was.
pub proof fn law_end_of_timeout_adds_nothing(
    regs: Map<u32, Registration>,
    verdicts: Seq<Verdict>,
    at: int,
)
    requires
        only_timeout(verdicts, at),
        !withheld(verdicts, at),
        !withheld(verdicts, verdicts.len() - 1),
    ensures
        delivered(verdicts, true).to_multiset() == delivered(
            verdicts.remove(at),
            true,
        ).to_multiset(),
        left_registered(regs, verdicts, true) == left_registered(regs, verdicts.remove(at), true),
{
    broadcast use vstd::seq_lib::group_to_multiset_ensures;

    let rest = verdicts.remove(at);
    let len = verdicts.len() as int;
    let last = seen(verdicts).last();
    let moved = seen(verdicts).update(at, last).drop_last();
    lemma_last_timeout(verdicts);
    lemma_last_timeout(rest);
    assert(last_timeout(verdicts) == Some(at));
    assert forall|i: int| 0 <= i < rest.len() implies !(#[trigger] rest[i]).timeout by {
        assert(rest[i] == verdicts[if i < at { i } else { i + 1 }]);
    }
    assert(last_timeout(rest) is None);
    assert(without_timeout(verdicts, true) == moved);
    assert(without_timeout(rest, true) == seen(rest));
    if at == len - 1 {
        lemma_kept_before(verdicts, at, at);
    } else {
        lemma_kept_without(verdicts, at, len - 1);
        assert(rest[len - 2] == verdicts[len - 1]);
        assert(!withheld(rest, len - 2));
        assert(seen(rest)[len - 2] == last);
    }
    assert forall|fd: u32| closes(verdicts, true, fd) <==> closes(rest, true, fd) by {
        if closes(verdicts, true, fd) {
            let i = choose|i: int|
                0 <= i < len && (#[trigger] verdicts[i]).closing && descriptor_of(
                    moved[i].userdata,
                ) == fd;
            assert(i != at && i != len - 1);
            let j = if i < at {
                i
            } else {
                i - 1
            };
            assert(rest[j] == verdicts[i] && rest[j].closing);
            assert(seen(rest)[j] == moved[i]);
        }
        if closes(rest, true, fd) {
            let j = choose|j: int|
                0 <= j < rest.len() && (#[trigger] rest[j]).closing && descriptor_of(
                    seen(rest)[j].userdata,
                ) == fd;
            let i = if j < at {
                j
            } else {
                j + 1
            };
            assert(rest[j] == verdicts[i] && verdicts[i].closing);
            assert(i != len - 1);
            assert(moved[i] == seen(rest)[j]);
        }
    }
    assert(left_registered(regs, verdicts, true) =~= left_registered(regs, rest, true));
}

/// Where no event closes a descriptor, the registrations stay as they are.
pub proof fn law_nothing_closing_nothing_dropped(
    regs: Map<u32, Registration>,
    verdicts: Seq<Verdict>,
    timeout: bool,
)
    requires
        forall|i: int| 0 <= i < verdicts.len() ==> !(#[trigger] verdicts[i]).closing,
    ensures
        closing_in_range(verdicts, timeout),
        left_registered(regs, verdicts, timeout) == regs,
{
    assert(left_registered(regs, verdicts, timeout) =~= regs);
}

/// Where there was no timeout, every closing event is in range.
pub proof fn law_in_range_without_timeout(verdicts: Seq<Verdict>)
    ensures
        closing_in_range(verdicts, false),
{
}

/// Where nothing was moved, what is kept of the first `n` events is what is heard of them, as it
/// is shown.
proof fn lemma_kept_is_heard(
    polled: Seq<Event>,
    events: Seq<Event>,
    verdicts: Seq<Verdict>,
    heard: spec_fn(Event) -> bool,
    shown: spec_fn(Event) -> Event,
    n: int,
)
    requires
        0 <= n <= polled.len(),
        forall|i: int| 0 <= i < n ==> (#[trigger] events[i]) == shown(polled[i]),
        forall|i: int| 0 <= i < n ==> (#[trigger] withheld(verdicts, i)) == !heard(polled[i]),
    ensures
        kept(events, verdicts, n) == polled.take(n).filter(heard).map_values(shown),
    decreases n,
{
    reveal(Seq::filter);
    if n > 0 {
        lemma_kept_is_heard(polled, events, verdicts, heard, shown, n - 1);
        assert(polled.take(n).drop_last() =~= polled.take(n - 1));
        assert(polled.take(n).last() == polled[n - 1]);
        assert(withheld(verdicts, n - 1) == !heard(polled[n - 1]));
        assert(events[n - 1] == shown(polled[n - 1]));
    }
    assert(kept(events, verdicts, n) =~= polled.take(n).filter(heard).map_values(shown));
}

/// The same behind the position `at`, where one event is kept in any case.
proof fn lemma_kept_behind(
    polled: Seq<Event>,
    events: Seq<Event>,
    verdicts: Seq<Verdict>,
    heard: spec_fn(Event) -> bool,
    shown: spec_fn(Event) -> Event,
    at: int,
    n: int,
)
    requires
        0 <= at < n <= polled.len(),
        !withheld(verdicts, at),
        forall|i: int| 0 <= i < n && i != at ==> (#[trigger] events[i]) == shown(polled[i]),
        forall|i: int|
            0 <= i < n && i != at ==> (#[trigger] withheld(verdicts, i)) == !heard(polled[i]),
    ensures
        kept(events, verdicts, n) == polled.take(at).filter(heard).map_values(shown) + seq![
            events[at],
        ] + polled.subrange(at + 1, n).filter(heard).map_values(shown),
    decreases n,
{
    reveal(Seq::filter);
    let tail = polled.subrange(at + 1, n);
    if n == at + 1 {
        lemma_kept_is_heard(polled, events, verdicts, heard, shown, at);
        assert(tail.len() == 0);
    } else {
        lemma_kept_behind(polled, events, verdicts, heard, shown, at, n - 1);
        assert(tail.drop_last() =~= polled.subrange(at + 1, n - 1));
        assert(tail.last() == polled[n - 1]);
        assert(withheld(verdicts, n - 1) == !heard(polled[n - 1]));
        assert(events[n - 1] == shown(polled[n - 1]));
    }
    assert(kept(events, verdicts, n) =~= polled.take(at).filter(heard).map_values(shown) + seq![
        events[at],
    ] + tail.filter(heard).map_values(shown));
}

/// Where no end of a timeout is taken out, the user hears exactly the events whose verdict is
/// neither closing nor deregistered, in the order in which they were reported.
pub proof fn law_heard_in_order(
    polled: Seq<Event>,
    verdicts: Seq<Verdict>,
    timeout: bool,
    heard: spec_fn(Event) -> bool,
    shown: spec_fn(Event) -> Event,
)
    requires
        polled.len() == verdicts.len(),
        forall|i: int|
            0 <= i < polled.len() ==> (#[trigger] verdicts[i]).event == shown(polled[i]) && heard(
                polled[i],
            ) == !(verdicts[i].closing || verdicts[i].deregistered),
        timeout ==> forall|i: int| 0 <= i < polled.len() ==> !(#[trigger] verdicts[i]).timeout,
    ensures
        delivered(verdicts, timeout) == polled.filter(heard).map_values(shown),
{
    lemma_last_timeout(verdicts);
    let events = without_timeout(verdicts, timeout);
    assert(events =~= seen(verdicts));
    assert forall|i: int| 0 <= i < polled.len() implies (#[trigger] events[i]) == shown(
        polled[i],
    ) by {
        assert(verdicts[i].event == shown(polled[i]));
    }
    assert forall|i: int| 0 <= i < polled.len() implies (#[trigger] withheld(verdicts, i))
        == !heard(polled[i]) by {
        assert(verdicts[i].event == shown(polled[i]));
    }
    lemma_kept_is_heard(polled, events, verdicts, heard, shown, polled.len() as int);
    assert(polled.take(polled.len() as int) =~= polled);
}

/// Where the end of a timeout is taken out, the events before and behind it are heard as without
/// it, and the last event is heard in its place.
pub proof fn law_heard_around_the_timeout(
    polled: Seq<Event>,
    verdicts: Seq<Verdict>,
    at: int,
    heard: spec_fn(Event) -> bool,
    shown: spec_fn(Event) -> Event,
)
    requires
        polled.len() == verdicts.len(),
        forall|i: int|
            0 <= i < polled.len() ==> (#[trigger] verdicts[i]).event == shown(polled[i]) && heard(
                polled[i],
            ) == !(verdicts[i].closing || verdicts[i].deregistered),
        0 <= at < polled.len(),
        verdicts[at].timeout,
        !verdicts[at].closing && !verdicts[at].deregistered,
        forall|i: int| at < i < polled.len() ==> !(#[trigger] verdicts[i]).timeout,
    ensures
        at == polled.len() - 1 ==> delivered(verdicts, true) == polled.take(at).filter(
            heard,
        ).map_values(shown),
        at < polled.len() - 1 ==> delivered(verdicts, true) == polled.take(at).filter(
            heard,
        ).map_values(shown) + seq![shown(polled.last())] + polled.subrange(
            at + 1,
            polled.len() - 1,
        ).filter(heard).map_values(shown),
{
    let last = polled.len() - 1;
    lemma_last_timeout(verdicts);
    let found = last_timeout(verdicts);
    assert(found is Some);
    if found->0 < at {
        assert(!verdicts[at].timeout);
    }
    assert(found == Some(at));
    let events = without_timeout(verdicts, true);
    assert(events =~= seen(verdicts).update(at, seen(verdicts).last()).drop_last());
    assert forall|i: int| 0 <= i < last && i != at implies (#[trigger] events[i]) == shown(
        polled[i],
    ) by {
        assert(verdicts[i].event == shown(polled[i]));
    }
    assert forall|i: int| 0 <= i < last && i != at implies (#[trigger] withheld(verdicts, i))
        == !heard(polled[i]) by {
        assert(verdicts[i].event == shown(polled[i]));
    }
    if at == last {
        lemma_kept_is_heard(polled, events, verdicts, heard, shown, at);
    } else {
        assert(verdicts[last].event == shown(polled[last]));
        assert(events[at] == shown(polled[last]));
        lemma_kept_behind(polled, events, verdicts, heard, shown, at, last);
    }
}

/// A registration is left, and left as it was, exactly if no closing event names its descriptor
/// in the userdata that the user would have seen. Each closing event counts, at whatever
/// position it was reported, wherever the closing positions are in range and no end of a timeout
/// is closing.
pub proof fn law_left_unless_named_by_closing(
    regs: Map<u32, Registration>,
    verdicts: Seq<Verdict>,
    timeout: bool,
    fd: u32,
)
    requires
        closing_in_range(verdicts, timeout),
        forall|i: int|
            0 <= i < verdicts.len() && (#[trigger] verdicts[i]).timeout ==> !verdicts[i].closing,
    ensures
        left_registered(regs, verdicts, timeout).contains_key(fd) <==> regs.contains_key(fd)
            && !exists|i: int|
            0 <= i < verdicts.len() && (#[trigger] verdicts[i]).closing
                && verdicts[i].event.userdata % 0x1_0000_0000 == fd,
        left_registered(regs, verdicts, timeout).contains_key(fd) ==> left_registered(
            regs,
            verdicts,
            timeout,
        )[fd] == regs[fd],
{
    let events = without_timeout(verdicts, timeout);
    lemma_last_timeout(verdicts);
    assert forall|i: int| 0 <= i < verdicts.len() && (#[trigger] verdicts[i]).closing implies i
        < events.len() && events[i] == verdicts[i].event by {
        if timeout && last_timeout(verdicts) is Some {
            assert(verdicts[last_timeout(verdicts)->0].timeout);
        }
    }
    if exists|i: int|
        0 <= i < verdicts.len() && (#[trigger] verdicts[i]).closing
            && verdicts[i].event.userdata % 0x1_0000_0000 == fd {
        let i = choose|i: int|
            0 <= i < verdicts.len() && (#[trigger] verdicts[i]).closing
                && verdicts[i].event.userdata % 0x1_0000_0000 == fd;
        assert(events[i] == verdicts[i].event);
        assert(closes(verdicts, timeout, fd));
    }
    if closes(verdicts, timeout, fd) {
        let i = choose|i: int|
            0 <= i < verdicts.len() && (#[trigger] verdicts[i]).closing && descriptor_of(
                events[i].userdata,
            ) == fd;
        assert(verdicts[i].closing && verdicts[i].event.userdata % 0x1_0000_0000 == fd);
    }
}

/// The closing positions are in range unless the end of a timeout is taken out and the last event
/// is closing.
pub proof fn law_only_a_closing_last_event_is_out_of_range(verdicts: Seq<Verdict>, timeout: bool)
    ensures
        closing_in_range(verdicts, timeout) <==> !(timeout && (exists|i: int|
            0 <= i < verdicts.len() && (#[trigger] verdicts[i]).timeout)
            && verdicts[verdicts.len() - 1].closing),
{
    lemma_last_timeout(verdicts);
    if verdicts.len() > 0 {
        let last = verdicts.len() - 1;
        if last_timeout(verdicts) is Some {
            assert(verdicts[last_timeout(verdicts)->0].timeout);
        }
        assert(verdicts[last].closing ==> (closing_in_range(verdicts, timeout) ==> last
            < without_timeout(verdicts, timeout).len()));
    }
}

} // verus!
