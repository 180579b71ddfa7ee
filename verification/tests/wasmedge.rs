use wasi_selector::cells::Pool;
use wasi_selector::error::{Error, ErrorKind, Failure};
use wasi_selector::readiness::Readiness;
use wasi_selector::timeout::TIMEOUT_TOKEN;
use wasi_selector::token::{Interest, Token};
use wasi_selector::wasi::{
    Event, EventFdReadwrite, Subscription, SubscriptionU, EVENTTYPE_CLOCK, EVENTTYPE_FD_READ,
    EVENTTYPE_FD_WRITE,
};
use wasi_selector::wasmedge::{IoSourceState, Selector, Waker};

const READ: Interest = Interest { readable: true, writable: false };
const BOTH: Interest = Interest { readable: true, writable: true };

fn ready(userdata: u64, type_: u8) -> Event {
    Event { userdata, error: 0, type_, fd_readwrite: EventFdReadwrite { nbytes: 1, flags: 0 } }
}

fn hangup(userdata: u64, type_: u8) -> Event {
    Event { userdata, error: 0, type_, fd_readwrite: EventFdReadwrite { nbytes: 0, flags: 1 } }
}

fn selector() -> Selector {
    let mut next: usize = 1;
    Selector::new(&mut next).unwrap()
}

fn failure(kind: ErrorKind) -> Failure<&'static str> {
    Failure { kind, raw_os_error: Some(28), source: "poll" }
}

fn take(
    s: &mut Selector,
    cells: &mut Vec<Readiness>,
    timeout: Option<u128>,
    polled: Vec<Event>,
) -> Vec<Event> {
    let mut events = vec![ready(1, EVENTTYPE_FD_READ)];
    assert!(s.can_take(&polled, timeout));
    assert!(s.select::<()>(&mut events, timeout, 1, Ok(polled), cells).is_ok());
    events
}

#[test]
fn wasmedge_selectors_are_numbered() {
    let mut next: usize = 7;
    let a = Selector::new(&mut next).unwrap();
    assert_eq!((a.id(), next), (7, 8));
    let mut last: usize = usize::MAX;
    assert_eq!(Selector::new(&mut last).unwrap().id(), usize::MAX);
    assert_eq!(last, 0);
}

#[test]
fn wasmedge_waker_has_no_effect() {
    let s = selector();
    let waker = Waker::new(&s, Token(1)).unwrap();
    assert!(waker.wake().is_ok());
    assert!(!s.register_waker());
}

#[test]
fn wasmedge_registrations() {
    let mut s = selector();
    assert_eq!(s.deregister(3), Err(Error::Simple(ErrorKind::NotFound)));
    assert_eq!(s.reregister(3, Token(1), READ, 0), Err(Error::Simple(ErrorKind::NotFound)));
    s.register(3, Token(1), READ, 0).unwrap();
    s.reregister(3, Token(2), BOTH, 0).unwrap();
    assert_eq!(s.subscriptions.get(3).unwrap().token, Token(2));
    assert_eq!(s.deregister(3), Ok(()));
    assert!(s.subscriptions.get(3).is_none());
}

#[test]
fn wasmedge_list_ends_with_the_clock() {
    let mut s = selector();
    let cells: Vec<Readiness> = vec![Readiness::new()];
    assert_eq!(s.prepare_select(None, &cells), vec![]);
    s.register(3, Token(30), BOTH, 0).unwrap();
    let read = Subscription { userdata: 3, u: SubscriptionU::FdRead(3) };
    let write = Subscription { userdata: 3, u: SubscriptionU::FdWrite(3) };
    assert_eq!(s.prepare_select(None, &cells), vec![read, write]);
    assert_eq!(s.subscriptions(&cells), vec![read, write]);
    let list = s.prepare_select(Some(12), &cells);
    assert_eq!(list.len(), 3);
    assert_eq!(list[2].tag(), EVENTTYPE_CLOCK);
}

#[test]
fn wasmedge_refusal_of_an_empty_list_is_no_error() {
    let mut s = selector();
    let mut cells: Vec<Readiness> = vec![];
    let mut events = vec![ready(1, EVENTTYPE_FD_READ)];
    let refused = Err(failure(ErrorKind::InvalidInput));
    assert!(s.select(&mut events, None, 0, refused, &mut cells).is_ok());
    assert_eq!(events, vec![]);
    let refused = Err(failure(ErrorKind::InvalidInput));
    let err = s.select(&mut events, None, 1, refused, &mut cells).unwrap_err();
    assert_eq!((err.kind, err.raw_os_error, err.source), (ErrorKind::InvalidInput, Some(28), "poll"));
    let broken = Err(failure(ErrorKind::Other));
    let err = s.select(&mut events, None, 0, broken, &mut cells).unwrap_err();
    assert_eq!(err.kind, ErrorKind::Other);
}

#[test]
fn wasmedge_events_carry_tokens() {
    let mut s = selector();
    let mut cells: Vec<Readiness> = vec![Readiness::new()];
    s.register(3, Token(30), BOTH, 0).unwrap();
    let polled = vec![
        ready(3, EVENTTYPE_FD_READ),
        ready(TIMEOUT_TOKEN, EVENTTYPE_CLOCK),
        ready(3, EVENTTYPE_FD_WRITE),
        ready(8, EVENTTYPE_FD_READ),
    ];
    assert_eq!(
        take(&mut s, &mut cells, Some(1), polled),
        vec![
            ready(30, EVENTTYPE_FD_READ),
            ready(8, EVENTTYPE_FD_READ),
            ready(30, EVENTTYPE_FD_WRITE),
        ]
    );
    assert_eq!(cells, vec![Readiness { read: false, write: 1 }]);
}

#[test]
fn wasmedge_write_readiness_is_counted_down() {
    let mut s = selector();
    let mut cells: Vec<Readiness> = vec![];
    let mut pool = Pool::new();
    let mut source = IoSourceState::new(&mut pool, &mut cells);
    source.register(&mut s, Token(30), BOTH, 3).unwrap();
    let write = Subscription { userdata: 3, u: SubscriptionU::FdWrite(3) };
    take(&mut s, &mut cells, None, vec![ready(3, EVENTTYPE_FD_WRITE)]);
    assert!(s.subscriptions(&cells).contains(&write));
    take(&mut s, &mut cells, None, vec![ready(3, EVENTTYPE_FD_WRITE)]);
    assert!(!s.subscriptions(&cells).contains(&write));
    assert_eq!(cells[0].write, 0);
    take(&mut s, &mut cells, None, vec![ready(3, EVENTTYPE_FD_WRITE)]);
    assert_eq!(cells[0].write, usize::MAX);
    let done: Result<(), Failure<()>> = Ok(());
    assert!(source.do_io(&mut cells, done).is_ok());
    assert_eq!(cells[0], Readiness { read: true, write: 2 });
    source.reregister(&mut s, Token(31), READ, 3).unwrap();
    assert_eq!(s.subscriptions.get(3).unwrap().token, Token(31));
    source.deregister(&mut s, 3).unwrap();
    assert!(source.deregister(&mut s, 3).is_err());
}

#[test]
fn wasmedge_hung_up_descriptor_is_dropped() {
    let mut s = selector();
    let mut cells: Vec<Readiness> = vec![Readiness::new(), Readiness::new()];
    s.register(3, Token(3), READ, 0).unwrap();
    s.register(4, Token(4), READ, 1).unwrap();
    let mut bad = ready(4, EVENTTYPE_FD_READ);
    bad.error = 8;
    assert_eq!(take(&mut s, &mut cells, None, vec![hangup(3, EVENTTYPE_FD_READ), bad]), vec![bad]);
    assert!(s.subscriptions.get(3).is_none());
    assert!(s.subscriptions.get(4).is_some());
}

#[test]
fn wasmedge_closing_event_behind_the_timeout_is_out_of_range() {
    let s = selector();
    let polled = vec![ready(TIMEOUT_TOKEN, EVENTTYPE_CLOCK), hangup(3, EVENTTYPE_FD_READ)];
    assert!(!s.can_take(&polled, Some(1)));
    assert!(s.can_take(&polled, None));
}

#[test]
fn wasmedge_deregistered_descriptor_is_not_polled() {
    let mut s = selector();
    let cells: Vec<Readiness> = vec![Readiness::new(), Readiness::new()];
    s.register(3, Token(30), BOTH, 0).unwrap();
    s.register(4, Token(40), READ, 1).unwrap();
    s.deregister(3).unwrap();
    let read = Subscription { userdata: 4, u: SubscriptionU::FdRead(4) };
    assert_eq!(s.subscriptions(&cells), vec![read]);
}

#[test]
fn wasmedge_hung_up_descriptor_is_dropped_beside_a_timeout() {
    let mut s = selector();
    let mut cells: Vec<Readiness> = vec![Readiness::new()];
    s.register(3, Token(3), READ, 0).unwrap();
    let polled = vec![hangup(3, EVENTTYPE_FD_READ), ready(TIMEOUT_TOKEN, EVENTTYPE_CLOCK)];
    assert_eq!(take(&mut s, &mut cells, Some(1), polled), vec![]);
    assert!(s.subscriptions.get(3).is_none());
}

#[test]
fn wasmedge_list_is_empty_without_timeout_and_wishes() {
    let mut s = selector();
    let mut cells: Vec<Readiness> = vec![Readiness::new()];
    assert!(s.prepare_select(None, &cells).is_empty());
    assert_eq!(s.prepare_select(Some(1), &cells).len(), 1);
    s.register(3, Token(30), READ, 0).unwrap();
    assert_eq!(s.prepare_select(None, &cells).len(), 1);
    take(&mut s, &mut cells, None, vec![ready(3, EVENTTYPE_FD_READ)]);
    assert!(s.prepare_select(None, &cells).is_empty());
    assert_eq!(s.prepare_select(Some(1), &cells).len(), 1);
}

#[test]
fn wasmedge_writing_does_not_use_up_reading() {
    let mut s = selector();
    let mut cells: Vec<Readiness> = vec![Readiness::new(), Readiness::new()];
    s.register(3, Token(30), BOTH, 0).unwrap();
    s.register(4, Token(40), BOTH, 1).unwrap();
    take(&mut s, &mut cells, None, vec![ready(3, EVENTTYPE_FD_WRITE)]);
    assert_eq!(cells, vec![Readiness { read: true, write: 1 }, Readiness::new()]);
}

#[test]
fn wasmedge_used_source_is_asked_for_writing_again() {
    let mut s = selector();
    let mut pool = Pool::new();
    let mut cells: Vec<Readiness> = vec![];
    let mut source = IoSourceState::new(&mut pool, &mut cells);
    source.register(&mut s, Token(30), BOTH, 3).unwrap();
    let write = Subscription { userdata: 3, u: SubscriptionU::FdWrite(3) };
    let ready_twice = vec![ready(3, EVENTTYPE_FD_WRITE), ready(3, EVENTTYPE_FD_WRITE)];
    take(&mut s, &mut cells, None, ready_twice);
    assert!(!s.subscriptions(&cells).contains(&write));
    let failed: Result<(), _> = Err(failure(ErrorKind::Other));
    assert!(source.do_io(&mut cells, failed).is_err());
    assert!(!s.subscriptions(&cells).contains(&write));
    let waiting: Result<(), _> = Err(failure(ErrorKind::WouldBlock));
    assert!(source.do_io(&mut cells, waiting).is_err());
    assert!(s.subscriptions(&cells).contains(&write));
}

#[test]
fn wasmedge_end_of_the_timeout_makes_no_difference() {
    let others = vec![hangup(5, EVENTTYPE_FD_READ), ready(3, EVENTTYPE_FD_READ)];
    let round = |polled: Vec<Event>| {
        let mut s = selector();
        let mut cells = vec![Readiness::new(), Readiness::new()];
        s.register(3, Token(30), BOTH, 0).unwrap();
        s.register(5, Token(5), BOTH, 1).unwrap();
        let events = take(&mut s, &mut cells, Some(1), polled);
        (events, s.subscriptions.get(5).is_some(), cells)
    };
    let without = round(others.clone());
    assert_eq!(without.0, vec![ready(30, EVENTTYPE_FD_READ)]);
    assert!(!without.1);
    for at in 0..3 {
        let mut polled = others.clone();
        polled.insert(at, ready(TIMEOUT_TOKEN, EVENTTYPE_CLOCK));
        assert_eq!(round(polled), without);
    }
}
