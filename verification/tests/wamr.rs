use std::cell::Cell;
use std::rc::Rc;

use wasi_selector::cells::Pool;
use wasi_selector::error::{Error, ErrorKind, Failure};
use wasi_selector::event;
use wasi_selector::readiness::Readiness;
use wasi_selector::timeout::TIMEOUT_TOKEN;
use wasi_selector::token::{Interest, Token};
use wasi_selector::wamr::{IoSourceState, PollState, Selector, Step, Waker, WakerInner};
use wasi_selector::wasi::{
    Event, EventFdReadwrite, Subscription, SubscriptionU, EVENTTYPE_CLOCK, EVENTTYPE_FD_READ,
    EVENTTYPE_FD_WRITE,
};

/// Tells whether it was dropped.
struct Socket(Rc<Cell<bool>>);

impl Drop for Socket {
    fn drop(&mut self) {
        self.0.set(true);
    }
}

const READ: Interest = Interest { readable: true, writable: false };
const WRITE: Interest = Interest { readable: false, writable: true };
const BOTH: Interest = Interest { readable: true, writable: true };

fn ready(userdata: u64, type_: u8) -> Event {
    Event { userdata, error: 0, type_, fd_readwrite: EventFdReadwrite { nbytes: 1, flags: 0 } }
}

fn hangup(userdata: u64, type_: u8) -> Event {
    Event { userdata, error: 0, type_, fd_readwrite: EventFdReadwrite { nbytes: 0, flags: 1 } }
}

fn timeout_end() -> Event {
    ready(TIMEOUT_TOKEN, EVENTTYPE_CLOCK)
}

fn selector() -> Selector<u8> {
    let mut next: usize = 1;
    Selector::new(&mut next).unwrap()
}

fn read_of(fd: u32) -> Subscription {
    Subscription { userdata: fd as u64, u: SubscriptionU::FdRead(fd) }
}

fn write_of(fd: u32) -> Subscription {
    Subscription { userdata: fd as u64, u: SubscriptionU::FdWrite(fd) }
}

/// Hands the events to the selector as the outcome of a poll whose waker socket is 99.
fn take(
    s: &mut Selector<u8>,
    cells: &mut Vec<Readiness>,
    timeout: Option<u128>,
    polled: Vec<Event>,
) -> Vec<Event> {
    let mut events: Vec<Event> = vec![];
    assert!(s.can_take(&polled, timeout, 99));
    assert_eq!(s.do_poll::<()>(&mut events, timeout, 99, Ok(polled), cells), Ok(()));
    events
}

#[test]
fn selectors_are_numbered() {
    let mut next: usize = 1;
    let a: Selector<u8> = Selector::new(&mut next).unwrap();
    let b: Selector<u8> = Selector::new(&mut next).unwrap();
    assert_eq!((a.id(), b.id(), next), (1, 2, 3));
    let mut last: usize = usize::MAX;
    let c: Selector<u8> = Selector::new(&mut last).unwrap();
    assert_eq!((c.id(), last), (usize::MAX, 0));
}

#[test]
fn new_selector_polls() {
    let mut s = selector();
    let mut events = vec![ready(5, EVENTTYPE_FD_READ)];
    assert!(!s.register_waker());
    assert_eq!(s.select(&mut events), Ok(Step::Poll));
    assert_eq!(events, vec![ready(5, EVENTTYPE_FD_READ)]);
    assert!(matches!(PollState::<u8>::default(), PollState::Reset));
}

#[test]
fn waker_takes_its_token() {
    let mut s = selector();
    assert_eq!(s.waker.0.event().userdata, 0);
    Waker::new(&mut s, Token(17)).unwrap();
    assert!(s.register_waker());
    assert_eq!(
        s.waker.0.event(),
        Event {
            userdata: 17,
            error: 0,
            type_: EVENTTYPE_FD_READ,
            fd_readwrite: EventFdReadwrite { nbytes: 0, flags: 0 },
        }
    );
    s.waker(Token(18)).unwrap();
    assert_eq!(s.waker.0.token, Some(Token(18)));
}

#[test]
fn wake_makes_the_next_select_return() {
    let mut s = selector();
    Waker::new(&mut s, Token(4)).unwrap().wake().unwrap();
    let mut events = vec![ready(5, EVENTTYPE_FD_WRITE), ready(6, EVENTTYPE_FD_WRITE)];
    assert_eq!(s.select(&mut events), Ok(Step::Return));
    assert_eq!(events.len(), 1);
    assert_eq!(event::token(&events[0]), Token(4));
    assert!(event::is_readable(&events[0]));
    assert_eq!(s.select(&mut events), Ok(Step::Poll));
}

#[test]
fn wake_survives_a_rerun() {
    let mut w: WakerInner<u8> = WakerInner { token: None, state: PollState::Polling(1) };
    w.wake().unwrap();
    w.wake_rerun().unwrap();
    assert!(matches!(w.state, PollState::WakerEvent));
}

#[test]
fn rerun_only_touches_a_poll_under_way() {
    let mut w: WakerInner<u8> = WakerInner { token: None, state: PollState::Polling(1) };
    w.wake_rerun().unwrap();
    assert!(matches!(w.state, PollState::Reset));
    w.wake_rerun().unwrap();
    assert!(matches!(w.state, PollState::Reset));
    w.state = PollState::Finished;
    w.wake_rerun().unwrap();
    assert!(matches!(w.state, PollState::Finished));
}

#[test]
fn leaving_the_polling_state_drops_the_socket() {
    for act in 0..4 {
        let dropped = Rc::new(Cell::new(false));
        let mut next: usize = 1;
        let mut cells: Vec<Readiness> = vec![];
        let mut s: Selector<Socket> = Selector::new(&mut next).unwrap();
        s.prepare_poll(None, Socket(dropped.clone()), 99, &cells);
        assert!(!dropped.get());
        match act {
            0 => s.waker.wake().unwrap(),
            1 => s.waker.0.wake_rerun().unwrap(),
            2 => s.register(3, Token(3), READ, 0).unwrap(),
            _ => {
                let mut events: Vec<Event> = vec![];
                s.do_poll::<()>(&mut events, None, 99, Ok(vec![]), &mut cells).unwrap();
            }
        }
        assert!(dropped.get());
    }
}

#[test]
fn second_select_is_refused_while_polling() {
    let mut s = selector();
    let cells: Vec<Readiness> = vec![];
    s.prepare_poll(None, 1, 99, &cells);
    let mut events = vec![ready(5, EVENTTYPE_FD_READ)];
    assert_eq!(s.select(&mut events), Err(Error::Simple(ErrorKind::ResourceBusy)));
    assert_eq!(events.len(), 1);
    assert!(matches!(s.waker.0.state, PollState::Polling(1)));
}

#[test]
fn undisturbed_round() {
    let mut s = selector();
    let mut cells: Vec<Readiness> = vec![];
    let mut pool = Pool::new();
    let source = IoSourceState::new(&mut pool, &mut cells);
    s.register(3, Token(30), READ, source.cell).unwrap();
    let mut events: Vec<Event> = vec![];
    assert_eq!(s.select(&mut events), Ok(Step::Poll));
    let list = s.prepare_poll(Some(5_000), 1, 99, &cells);
    assert_eq!(list.len(), 3);
    assert_eq!(list[0], read_of(3));
    assert_eq!(list[1], read_of(99));
    assert_eq!(list[2].tag(), EVENTTYPE_CLOCK);
    let polled = vec![ready(3, EVENTTYPE_FD_READ)];
    s.do_poll::<()>(&mut events, Some(5_000), 99, Ok(polled), &mut cells).unwrap();
    assert!(matches!(s.waker.0.state, PollState::Finished));
    assert_eq!(s.select(&mut events), Ok(Step::Return));
    assert_eq!(events, vec![ready(30, EVENTTYPE_FD_READ)]);
    assert_eq!(s.select(&mut events), Ok(Step::Poll));
}

#[test]
fn registering_during_a_poll_reruns_it() {
    let mut s = selector();
    let mut cells: Vec<Readiness> = vec![];
    let mut pool = Pool::new();
    let source = IoSourceState::new(&mut pool, &mut cells);
    s.prepare_poll(None, 1, 99, &cells);
    s.register(3, Token(30), READ, source.cell).unwrap();
    let mut events: Vec<Event> = vec![];
    let woken = hangup(99, EVENTTYPE_FD_READ);
    s.do_poll::<()>(&mut events, None, 99, Ok(vec![woken]), &mut cells).unwrap();
    assert_eq!(s.select(&mut events), Ok(Step::Poll));
    assert_eq!(s.prepare_poll(None, 2, 98, &cells), vec![read_of(3), read_of(98)]);
}

#[test]
fn waking_during_a_poll_returns_the_waker_event() {
    let mut s = selector();
    let mut cells: Vec<Readiness> = vec![];
    Waker::new(&mut s, Token(7)).unwrap();
    s.prepare_poll(None, 1, 99, &cells);
    s.waker.wake().unwrap();
    let mut events: Vec<Event> = vec![];
    let woken = hangup(99, EVENTTYPE_FD_READ);
    s.do_poll::<()>(&mut events, None, 99, Ok(vec![woken]), &mut cells).unwrap();
    assert!(matches!(s.waker.0.state, PollState::WakerEvent));
    assert_eq!(s.select(&mut events), Ok(Step::Return));
    assert_eq!(events.len(), 1);
    assert_eq!(event::token(&events[0]), Token(7));
}

#[test]
fn host_error_is_handed_on() {
    let mut s = selector();
    let mut cells: Vec<Readiness> = vec![Readiness::new()];
    s.register(3, Token(30), READ, 0).unwrap();
    s.prepare_poll(None, 1, 99, &cells);
    let mut events = vec![ready(5, EVENTTYPE_FD_READ)];
    assert_eq!(s.do_poll(&mut events, None, 99, Err("no memory"), &mut cells), Err("no memory"));
    assert_eq!(events, vec![]);
    assert!(matches!(s.waker.0.state, PollState::Finished));
    assert!(s.subscriptions.get(3).is_some());
    assert_eq!(cells, vec![Readiness { read: true, write: 2 }]);
}

#[test]
fn registration_is_replaced_found_and_removed() {
    let mut s = selector();
    assert_eq!(s.deregister(3), Err(Error::Simple(ErrorKind::NotFound)));
    assert_eq!(s.reregister(3, Token(1), READ, 0), Err(Error::Simple(ErrorKind::NotFound)));
    assert!(s.subscriptions.get(3).is_none());
    s.register(3, Token(1), READ, 0).unwrap();
    s.register(3, Token(2), WRITE, 0).unwrap();
    assert_eq!(s.subscriptions.get(3).unwrap().token, Token(2));
    s.reregister(3, Token(4), BOTH, 0).unwrap();
    assert_eq!(s.subscriptions.get(3).unwrap().token, Token(4));
    assert_eq!(s.deregister(3), Ok(()));
    assert_eq!(s.deregister(3), Err(Error::Simple(ErrorKind::NotFound)));
}

#[test]
fn subscriptions_follow_interest_and_readiness() {
    let mut s = selector();
    let mut cells: Vec<Readiness> = vec![Readiness::new(), Readiness::new(), Readiness::new()];
    s.register(3, Token(30), READ, 0).unwrap();
    s.register(4, Token(40), WRITE, 1).unwrap();
    s.register(5, Token(50), BOTH, 2).unwrap();
    let mut subs = s.subscriptions(&cells);
    subs.sort_by_key(|s| (s.userdata, s.tag()));
    assert_eq!(subs, vec![read_of(3), write_of(4), read_of(5), write_of(5)]);
    cells[2] = Readiness { read: false, write: 1 };
    cells[1] = Readiness { read: true, write: 0 };
    let mut subs = s.subscriptions(&cells);
    subs.sort_by_key(|s| (s.userdata, s.tag()));
    assert_eq!(subs, vec![read_of(3), write_of(5)]);
    let order = vec![5, 3];
    assert_eq!(
        s.subscriptions.subscriptions_in(&order, &cells),
        vec![write_of(5), read_of(3)]
    );
    let mut fds = s.subscriptions.descriptors();
    fds.sort();
    assert_eq!(fds, vec![3, 4, 5]);
}

#[test]
fn negative_waker_descriptor_is_widened_with_its_sign() {
    let mut s = selector();
    let cells: Vec<Readiness> = vec![];
    let list = s.prepare_poll(None, 1, -1, &cells);
    assert_eq!(
        list,
        vec![Subscription { userdata: u64::MAX, u: SubscriptionU::FdRead(u32::MAX) }]
    );
}

#[test]
fn event_uses_readiness_up_until_the_source_is_used() {
    let mut s = selector();
    let mut cells: Vec<Readiness> = vec![];
    let mut pool = Pool::new();
    let mut source = IoSourceState::new(&mut pool, &mut cells);
    let other = IoSourceState::new(&mut pool, &mut cells);
    source.register(&mut s, Token(30), BOTH, 3).unwrap();
    s.register(4, Token(40), BOTH, other.cell).unwrap();
    let events = take(
        &mut s,
        &mut cells,
        None,
        vec![ready(3, EVENTTYPE_FD_READ), ready(3, EVENTTYPE_FD_WRITE)],
    );
    assert_eq!(events, vec![ready(30, EVENTTYPE_FD_READ), ready(30, EVENTTYPE_FD_WRITE)]);
    assert_eq!(cells, vec![Readiness { read: false, write: 0 }, Readiness { read: true, write: 2 }]);

    let failed: Result<(), Failure<()>> =
        Err(Failure { kind: ErrorKind::Other, raw_os_error: None, source: () });
    assert!(source.do_io(&mut cells, failed).is_err());
    assert_eq!(cells[0], Readiness { read: false, write: 0 });

    let waits: Result<(), Failure<()>> =
        Err(Failure { kind: ErrorKind::WouldBlock, raw_os_error: None, source: () });
    assert!(source.do_io(&mut cells, waits).is_err());
    assert_eq!(cells[0], Readiness { read: true, write: 2 });

    take(&mut s, &mut cells, None, vec![ready(3, EVENTTYPE_FD_READ)]);
    assert_eq!(cells[0], Readiness { read: false, write: 2 });
    let done: Result<u8, Failure<()>> = Ok(5);
    assert_eq!(source.do_io(&mut cells, done).ok(), Some(5));
    assert_eq!(cells[0], Readiness { read: true, write: 2 });

    source.reregister(&mut s, Token(31), READ, 3).unwrap();
    assert_eq!(s.subscriptions.get(3).unwrap().token, Token(31));
    source.deregister(&mut s, 3).unwrap();
    assert!(source.reregister(&mut s, Token(31), READ, 3).is_err());
    assert!(source.deregister(&mut s, 3).is_err());
}

#[test]
fn source_descriptor_is_taken_as_unsigned() {
    let mut s = selector();
    let mut cells: Vec<Readiness> = vec![];
    let mut pool = Pool::new();
    let mut source = IoSourceState::new(&mut pool, &mut cells);
    source.register(&mut s, Token(1), READ, -1).unwrap();
    assert!(s.subscriptions.get(u32::MAX).is_some());
}

#[test]
fn interrupt_becomes_a_waker_event() {
    let mut s = selector();
    let mut cells: Vec<Readiness> = vec![];
    Waker::new(&mut s, Token(7)).unwrap();
    let events = take(&mut s, &mut cells, None, vec![hangup(99, EVENTTYPE_FD_READ)]);
    assert_eq!(
        events,
        vec![Event {
            userdata: 7,
            error: 0,
            type_: EVENTTYPE_FD_READ,
            fd_readwrite: EventFdReadwrite { nbytes: 0, flags: 0 },
        }]
    );
}

#[test]
fn timeout_event_is_removed_and_the_last_takes_its_place() {
    let mut s = selector();
    let mut cells: Vec<Readiness> = vec![Readiness::new(), Readiness::new()];
    s.register(3, Token(30), READ, 0).unwrap();
    s.register(4, Token(40), READ, 1).unwrap();
    let polled = vec![
        timeout_end(),
        ready(3, EVENTTYPE_FD_READ),
        ready(4, EVENTTYPE_FD_READ),
    ];
    assert_eq!(
        take(&mut s, &mut cells, Some(1), polled.clone()),
        vec![ready(40, EVENTTYPE_FD_READ), ready(30, EVENTTYPE_FD_READ)]
    );
    assert_eq!(take(&mut s, &mut cells, None, polled).len(), 3);
    assert_eq!(take(&mut s, &mut cells, Some(1), vec![timeout_end()]), vec![]);
}

#[test]
fn last_of_two_timeout_events_is_removed() {
    let mut s = selector();
    let mut cells: Vec<Readiness> = vec![];
    assert_eq!(
        take(&mut s, &mut cells, Some(1), vec![timeout_end(), timeout_end()]),
        vec![timeout_end()]
    );
}

#[test]
fn unregistered_descriptor_is_not_heard_of() {
    let mut s = selector();
    let mut cells: Vec<Readiness> = vec![Readiness::new()];
    s.register(3, Token(30), READ, 0).unwrap();
    assert_eq!(
        take(
            &mut s,
            &mut cells,
            None,
            vec![ready(8, EVENTTYPE_FD_READ), ready(3, EVENTTYPE_FD_READ)],
        ),
        vec![ready(30, EVENTTYPE_FD_READ)]
    );
}

#[test]
fn withheld_last_event_takes_the_place_of_the_timeout() {
    let mut s = selector();
    let mut cells: Vec<Readiness> = vec![];
    assert_eq!(
        take(&mut s, &mut cells, Some(1), vec![timeout_end(), ready(8, EVENTTYPE_FD_READ)]),
        vec![ready(8, EVENTTYPE_FD_READ)]
    );
}

#[test]
fn closed_descriptor_named_by_its_token_is_deregistered() {
    let mut s = selector();
    let mut cells: Vec<Readiness> = vec![Readiness::new(), Readiness::new()];
    s.register(3, Token(3), READ, 0).unwrap();
    s.register(4, Token(4), READ, 1).unwrap();
    let polled = vec![hangup(3, EVENTTYPE_FD_READ), ready(4, EVENTTYPE_FD_READ)];
    assert_eq!(take(&mut s, &mut cells, None, polled), vec![ready(4, EVENTTYPE_FD_READ)]);
    assert!(s.subscriptions.get(3).is_none());
    assert!(s.subscriptions.get(4).is_some());
}

#[test]
fn bad_descriptor_is_closing() {
    let mut s = selector();
    let mut cells: Vec<Readiness> = vec![Readiness::new()];
    s.register(3, Token(3), READ, 0).unwrap();
    let mut bad = ready(3, EVENTTYPE_FD_READ);
    bad.error = 9;
    assert_eq!(take(&mut s, &mut cells, None, vec![bad]), vec![bad]);
    bad.error = wasi::ERRNO_BADF.raw();
    assert_eq!(take(&mut s, &mut cells, None, vec![bad]), vec![]);
    assert!(s.subscriptions.get(3).is_none());
}

#[test]
fn closing_event_drops_the_descriptor_that_its_userdata_names() {
    let mut s = selector();
    let mut cells: Vec<Readiness> = vec![Readiness::new(), Readiness::new()];
    s.register(3, Token(4), READ, 0).unwrap();
    s.register(4, Token(9), READ, 1).unwrap();
    assert_eq!(take(&mut s, &mut cells, None, vec![hangup(3, EVENTTYPE_FD_READ)]), vec![]);
    assert!(s.subscriptions.get(3).is_some());
    assert!(s.subscriptions.get(4).is_none());
}

#[test]
fn event_of_another_type_keeps_its_userdata() {
    let mut s = selector();
    let mut cells: Vec<Readiness> = vec![Readiness::new()];
    s.register(3, Token(30), BOTH, 0).unwrap();
    assert_eq!(take(&mut s, &mut cells, None, vec![ready(3, 77)]), vec![ready(3, 77)]);
    assert_eq!(cells[0], Readiness::new());
    assert_eq!(take(&mut s, &mut cells, None, vec![hangup(3, 77)]), vec![]);
    assert!(s.subscriptions.get(3).is_none());
}

#[test]
fn closing_event_behind_the_timeout_is_out_of_range() {
    let mut s = selector();
    s.register(3, Token(3), READ, 0).unwrap();
    let polled = vec![timeout_end(), hangup(3, EVENTTYPE_FD_READ)];
    assert!(!s.can_take(&polled, Some(1), 99));
    assert!(s.can_take(&polled, None, 99));
    let polled = vec![hangup(3, EVENTTYPE_FD_READ), timeout_end()];
    assert!(s.can_take(&polled, Some(1), 99));
}

#[test]
fn closed_descriptor_is_deregistered_beside_a_timeout() {
    let mut s = selector();
    let mut cells: Vec<Readiness> = vec![Readiness::new(), Readiness::new()];
    s.register(3, Token(3), READ, 0).unwrap();
    s.register(4, Token(40), READ, 1).unwrap();
    let polled = vec![
        hangup(3, EVENTTYPE_FD_READ),
        timeout_end(),
        ready(4, EVENTTYPE_FD_READ),
    ];
    assert_eq!(take(&mut s, &mut cells, Some(1), polled), vec![ready(40, EVENTTYPE_FD_READ)]);
    assert!(s.subscriptions.get(3).is_none());
    assert!(s.subscriptions.get(4).is_some());
}

#[test]
fn registering_for_writing_during_a_poll_reruns_it() {
    let mut s = selector();
    let mut cells: Vec<Readiness> = vec![];
    let mut pool = Pool::new();
    let source = IoSourceState::new(&mut pool, &mut cells);
    s.prepare_poll(None, 1, 99, &cells);
    s.register(3, Token(30), WRITE, source.cell).unwrap();
    let mut events: Vec<Event> = vec![];
    let woken = hangup(99, EVENTTYPE_FD_READ);
    s.do_poll::<()>(&mut events, None, 99, Ok(vec![woken]), &mut cells).unwrap();
    assert_eq!(s.select(&mut events), Ok(Step::Poll));
    assert_eq!(s.prepare_poll(None, 2, 98, &cells), vec![write_of(3), read_of(98)]);
}

#[test]
fn default_waker_has_no_token_and_polls() {
    let inner: WakerInner<u8> = WakerInner::default();
    assert_eq!(inner.token, None);
    assert!(matches!(inner.state, PollState::Reset));
    let waker: Waker<u8> = Waker::default();
    assert_eq!(waker.0.token, None);
    assert!(matches!(waker.0.state, PollState::Reset));
}

#[test]
fn end_of_the_timeout_makes_no_difference() {
    let others = vec![
        hangup(5, EVENTTYPE_FD_READ),
        ready(3, EVENTTYPE_FD_READ),
        ready(4, EVENTTYPE_FD_WRITE),
    ];
    let round = |polled: Vec<Event>| {
        let mut s = selector();
        let mut cells = vec![Readiness::new(), Readiness::new(), Readiness::new()];
        s.register(3, Token(30), BOTH, 0).unwrap();
        s.register(4, Token(40), BOTH, 1).unwrap();
        s.register(5, Token(5), BOTH, 2).unwrap();
        let mut events = take(&mut s, &mut cells, Some(1), polled);
        events.sort_by_key(|event| event.userdata);
        let left: Vec<bool> = (3..6).map(|fd| s.subscriptions.get(fd).is_some()).collect();
        (events, left, cells)
    };
    let without = round(others.clone());
    assert_eq!(without.0, vec![ready(30, EVENTTYPE_FD_READ), ready(40, EVENTTYPE_FD_WRITE)]);
    assert_eq!(without.1, vec![true, true, false]);
    for at in 0..4 {
        let mut polled = others.clone();
        polled.insert(at, timeout_end());
        assert_eq!(round(polled), without);
    }
}

#[test]
fn writing_does_not_use_up_reading() {
    let mut s = selector();
    let mut cells: Vec<Readiness> = vec![Readiness::new(), Readiness::new()];
    s.register(3, Token(30), BOTH, 0).unwrap();
    s.register(4, Token(40), BOTH, 1).unwrap();
    take(&mut s, &mut cells, None, vec![ready(3, EVENTTYPE_FD_WRITE)]);
    assert_eq!(cells, vec![Readiness { read: true, write: 0 }, Readiness::new()]);
}
