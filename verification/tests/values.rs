use wasi_selector::error::{check_errors, io_err, Error, ErrorKind, Failure};
use wasi_selector::event;
use wasi_selector::tcp;
use wasi_selector::timeout::{
    is_timeout_event, remaining, timeout_subscription, PRECISION, TIMEOUT_TOKEN,
};
use wasi_selector::token::{Interest, Token};
use wasi_selector::wasi::{
    descriptor, hung_up, Event, EventFdReadwrite, Subscription, SubscriptionClock, SubscriptionU,
    CLOCKID_MONOTONIC, ERRNO_BADF, EVENTRWFLAGS_FD_READWRITE_HANGUP, EVENTTYPE_CLOCK,
    EVENTTYPE_FD_READ, EVENTTYPE_FD_WRITE,
};

fn event_of(userdata: u64, error: u16, type_: u8, flags: u16) -> Event {
    Event {
        userdata,
        error,
        type_,
        fd_readwrite: EventFdReadwrite { nbytes: 3, flags },
    }
}

#[test]
fn constants_are_those_of_the_host_interface() {
    assert_eq!(EVENTTYPE_CLOCK, wamr_wasi_socket::wasi_poll::EVENTTYPE_CLOCK);
    assert_eq!(EVENTTYPE_FD_READ, wamr_wasi_socket::wasi_poll::EVENTTYPE_FD_READ);
    assert_eq!(EVENTTYPE_FD_WRITE, wamr_wasi_socket::wasi_poll::EVENTTYPE_FD_WRITE);
    assert_eq!(
        EVENTRWFLAGS_FD_READWRITE_HANGUP,
        wamr_wasi_socket::wasi_poll::EVENTRWFLAGS_FD_READWRITE_HANGUP
    );
    assert_eq!(CLOCKID_MONOTONIC, wamr_wasi_socket::wasi_poll::CLOCKID_MONOTONIC);
    assert_eq!(ERRNO_BADF, wasi::ERRNO_BADF.raw());
    assert_eq!(EVENTTYPE_CLOCK, wasi::EVENTTYPE_CLOCK.raw());
    assert_eq!(EVENTTYPE_FD_READ, wasi::EVENTTYPE_FD_READ.raw());
    assert_eq!(EVENTTYPE_FD_WRITE, wasi::EVENTTYPE_FD_WRITE.raw());
    assert_eq!(EVENTRWFLAGS_FD_READWRITE_HANGUP, wasi::EVENTRWFLAGS_FD_READWRITE_HANGUP);
    assert_eq!(CLOCKID_MONOTONIC, wasi::CLOCKID_MONOTONIC.raw());
}

#[test]
fn timeout_is_clamped_to_the_range_of_the_host() {
    let clock = |nanos: u128| match timeout_subscription(nanos).u {
        SubscriptionU::Clock(clock) => clock,
        _ => panic!("not a clock"),
    };
    assert_eq!(clock(0).timeout, 10);
    assert_eq!(clock(9).timeout, 10);
    assert_eq!(clock(10).timeout, 10);
    assert_eq!(clock(11).timeout, 11);
    assert_eq!(clock(u64::MAX as u128 - 1).timeout, u64::MAX - 1);
    assert_eq!(clock(u64::MAX as u128).timeout, u64::MAX);
    assert_eq!(clock(u64::MAX as u128 + 1).timeout, u64::MAX);
    assert_eq!(clock(u128::MAX).timeout, u64::MAX);
}

#[test]
fn timeout_subscription_is_relative_on_the_monotonic_clock() {
    assert_eq!(
        timeout_subscription(2_500_000),
        Subscription {
            userdata: u64::MAX,
            u: SubscriptionU::Clock(SubscriptionClock {
                id: 1,
                timeout: 2_500_000,
                precision: 1_000_000,
                flags: 0,
            }),
        }
    );
    assert_eq!(PRECISION as u128, std::time::Duration::from_millis(1).as_nanos());
    assert_eq!(timeout_subscription(5).tag(), EVENTTYPE_CLOCK);
}

#[test]
fn timeout_event_is_recognised_by_type_and_userdata() {
    assert!(is_timeout_event(&event_of(TIMEOUT_TOKEN, 0, EVENTTYPE_CLOCK, 0)));
    assert!(!is_timeout_event(&event_of(TIMEOUT_TOKEN, 0, EVENTTYPE_FD_READ, 0)));
    assert!(!is_timeout_event(&event_of(TIMEOUT_TOKEN - 1, 0, EVENTTYPE_CLOCK, 0)));
}

#[test]
fn remaining_timeout_shrinks_to_nothing() {
    assert_eq!(remaining(None, 7), None);
    assert_eq!(remaining(Some(10), 7), Some(3));
    assert_eq!(remaining(Some(10), 10), Some(0));
    assert_eq!(remaining(Some(10), 11), Some(0));
    assert_eq!(remaining(remaining(Some(100), 30), 20), remaining(Some(100), 50));
    let t = std::time::Duration::from_millis(3);
    let d = std::time::Duration::from_micros(1);
    assert_eq!(
        remaining(Some(t.as_nanos()), d.as_nanos()),
        Some(t.saturating_sub(d).as_nanos())
    );
}

#[test]
fn descriptor_is_the_low_half_of_the_userdata() {
    assert_eq!(descriptor(7), 7);
    assert_eq!(descriptor(0x1_0000_0005), 5);
    assert_eq!(descriptor(u64::MAX), u32::MAX);
    assert_eq!(descriptor(0xffff_ffff), 0xffff_ffff);
}

#[test]
fn hangup_is_the_lowest_flag() {
    assert!(!hung_up(0));
    assert!(hung_up(1));
    assert!(!hung_up(2));
    assert!(hung_up(3));
    assert!(!hung_up(0xfffe));
}

#[test]
fn subscription_tags() {
    assert_eq!(Subscription { userdata: 1, u: SubscriptionU::FdRead(1) }.tag(), EVENTTYPE_FD_READ);
    assert_eq!(Subscription { userdata: 1, u: SubscriptionU::FdWrite(1) }.tag(), EVENTTYPE_FD_WRITE);
}

#[test]
fn first_error_is_returned() {
    assert_eq!(io_err(28), Error::Os(28));
    assert_eq!(check_errors(&vec![]), Ok(()));
    let fine = event_of(1, 0, EVENTTYPE_FD_READ, 0);
    let eight = event_of(2, 8, EVENTTYPE_FD_READ, 0);
    let most = event_of(3, 65535, EVENTTYPE_FD_READ, 0);
    assert_eq!(check_errors(&vec![fine, fine]), Ok(()));
    assert_eq!(check_errors(&vec![fine, most, eight]), Err(Error::Os(65535)));
    assert_eq!(check_errors(&vec![eight, most]), Err(Error::Os(8)));
}

#[test]
fn event_predicates() {
    let read = event_of(42, 0, EVENTTYPE_FD_READ, 0);
    let read_closed = event_of(42, 0, EVENTTYPE_FD_READ, 1);
    let write = event_of(43, 8, EVENTTYPE_FD_WRITE, 0);
    let write_closed = event_of(43, 0, EVENTTYPE_FD_WRITE, 1);
    let clock = event_of(44, 0, EVENTTYPE_CLOCK, 1);

    assert_eq!(event::token(&read), Token(42));
    assert_eq!(event::token(&write), Token(43));

    assert!(event::is_readable(&read) && event::is_readable(&read_closed));
    assert!(!event::is_readable(&write) && !event::is_readable(&clock));
    assert!(event::is_writable(&write) && event::is_writable(&write_closed));
    assert!(!event::is_writable(&read) && !event::is_writable(&clock));

    assert!(event::is_error(&write) && !event::is_error(&read));

    assert!(event::is_read_closed(&read_closed) && !event::is_read_closed(&read));
    assert!(!event::is_read_closed(&write_closed) && !event::is_read_closed(&clock));
    assert!(event::is_write_closed(&write_closed) && !event::is_write_closed(&write));
    assert!(!event::is_write_closed(&read_closed) && !event::is_write_closed(&clock));

    for e in [read, read_closed, write, write_closed, clock] {
        assert!(!event::is_priority(&e));
        assert!(!event::is_aio(&e));
        assert!(!event::is_lio(&e));
    }
}

#[test]
fn event_types_have_names() {
    assert_eq!(event::type_details(EVENTTYPE_CLOCK), "EVENTTYPE_CLOCK");
    assert_eq!(event::type_details(EVENTTYPE_FD_READ), "EVENTTYPE_FD_READ");
    assert_eq!(event::type_details(EVENTTYPE_FD_WRITE), "EVENTTYPE_FD_WRITE");
    assert_eq!(event::type_details(3), "(empty)");
}

#[test]
fn event_debug_text() {
    assert_eq!(
        event::debug_details(&event_of(1205, 8, EVENTTYPE_FD_READ, 1)),
        "Event { userdata: 1205, error: 8, type: EVENTTYPE_FD_READ, \
         fd_readwrite: EventFdReadwrite { nbytes: 3, flags: 1 } }"
    );
    let e = Event {
        userdata: u64::MAX,
        error: 0,
        type_: 9,
        fd_readwrite: EventFdReadwrite { nbytes: 1_000_000, flags: 65535 },
    };
    assert_eq!(
        event::debug_details(&e),
        format!(
            "Event {{ userdata: {}, error: 0, type: (empty), \
             fd_readwrite: EventFdReadwrite {{ nbytes: 1000000, flags: 65535 }} }}",
            u64::MAX
        )
    );
}

#[test]
fn interests() {
    let read = Interest { readable: true, writable: false };
    let write = Interest { readable: false, writable: true };
    assert!(read.is_readable() && !read.is_writable());
    assert!(!write.is_readable() && write.is_writable());
}

fn refused(raw_os_error: Option<i32>) -> Result<(), Failure<&'static str>> {
    Err(Failure { kind: ErrorKind::Other, raw_os_error, source: "refused" })
}

#[test]
fn connection_in_progress_is_no_failure() {
    assert!(tcp::connect::<()>(Ok(())).is_ok());
    assert!(tcp::connect(refused(Some(libc::EINPROGRESS))).is_ok());
    let other = tcp::connect(refused(Some(libc::ECONNREFUSED)));
    assert_eq!(other.unwrap_err().raw_os_error, Some(libc::ECONNREFUSED));
    assert_eq!(tcp::connect(refused(Some(9999))).unwrap_err().raw_os_error, Some(9999));
    let unknown = tcp::connect(refused(None)).unwrap_err();
    assert_eq!((unknown.raw_os_error, unknown.source), (None, "refused"));
}

#[test]
fn connection_outcome_for_a_given_code() {
    assert!(tcp::connect_with(refused(Some(26)), 26).is_ok());
    assert_eq!(tcp::connect_with(refused(Some(25)), 26).unwrap_err().raw_os_error, Some(25));
    assert!(tcp::connect_with(refused(None), 26).is_err());
    assert!(tcp::connect_with::<()>(Ok(()), 26).is_ok());
}

#[test]
fn backlog_is_cut_to_what_fits() {
    assert_eq!(tcp::listen_backlog(0), 0);
    assert_eq!(tcp::listen_backlog(1024), 1024);
    assert_eq!(tcp::listen_backlog(i32::MAX as u32), i32::MAX);
    assert_eq!(tcp::listen_backlog(i32::MAX as u32 + 1), i32::MAX);
    assert_eq!(tcp::listen_backlog(u32::MAX), i32::MAX);
}
