//! The timeout of a poll: a clock subscription beside those on descriptors.
//!
//! A timeout is a number of nanoseconds.
use vstd::prelude::*;
use crate::wasi::{
    Event, Subscription, SubscriptionClock, SubscriptionU, Timestamp, CLOCKID_MONOTONIC,
    EVENTTYPE_CLOCK,
};

verus! {

/// Token used to add a timeout subscription, also used in removing it again.
pub const TIMEOUT_TOKEN: u64 = 0xffff_ffff_ffff_ffff;

/// The shortest time that the host is asked to wait.
pub const SHORTEST_TIMEOUT: u64 = 10;

/// How much later than asked for the host may end the wait: one millisecond, in which
/// it can coalesce events.
pub const PRECISION: u64 = 1_000_000;

/// `nanos`, or the nearest time that the host can be asked to wait.
pub open spec fn clamped(nanos: u128) -> Timestamp {
    if nanos < SHORTEST_TIMEOUT {
        SHORTEST_TIMEOUT
    } else if nanos > u64::MAX {
        u64::MAX
    } else {
        nanos as u64
    }
}

/// The subscription for a timeout: `clamped(nanos)` from now, on the monotonic clock.
pub open spec fn timeout_subscription_for(nanos: u128) -> Subscription {
    Subscription {
        userdata: TIMEOUT_TOKEN,
        u: SubscriptionU::Clock(
            SubscriptionClock {
                id: CLOCKID_MONOTONIC,
                timeout: clamped(nanos),
                precision: PRECISION,
                flags: 0,
            },
        ),
    }
}

/// Returns a subscription for `timeout`.
pub fn timeout_subscription(timeout: u128) -> (s: Subscription)
    ensures
        s == timeout_subscription_for(timeout),
{
    let most: u128 = u64::MAX as u128;
    let fitting: u64 = if timeout < most {
        timeout as u64
    } else {
        u64::MAX
    };
    Subscription {
        userdata: TIMEOUT_TOKEN,
        u: SubscriptionU::Clock(
            SubscriptionClock {
                id: CLOCKID_MONOTONIC,
                // Timestamp is in nanoseconds.
                timeout: if fitting < SHORTEST_TIMEOUT {
                    SHORTEST_TIMEOUT
                } else {
                    fitting
                },
                // Give the host another millisecond to coalesce events.
                precision: PRECISION,
                // Zero means the `timeout` is considered relative to the
                // current time.
                flags: 0,
            },
        ),
    }
}

/// Whether the event is the end of a timeout.
pub open spec fn is_timeout(event: Event) -> bool {
    event.type_ == EVENTTYPE_CLOCK && event.userdata == TIMEOUT_TOKEN
}

/// Whether the event is the end of a timeout.
pub fn is_timeout_event(event: &Event) -> (b: bool)
    ensures
        b == is_timeout(*event),
{
    event.type_ == EVENTTYPE_CLOCK && event.userdata == TIMEOUT_TOKEN
}

/// What is left of a timeout after `elapsed` of it has passed; nothing is left of it once
/// it has passed whole, and no timeout stays no timeout.
pub open spec fn left_of(timeout: Option<u128>, elapsed: u128) -> Option<u128> {
    match timeout {
        None => None,
        Some(t) => Some(if t < elapsed { 0 } else { (t - elapsed) as u128 }),
    }
}

/// What is left of a timeout after `elapsed` of it has passed.
pub fn remaining(timeout: Option<u128>, elapsed: u128) -> (left: Option<u128>)
    ensures
        left == left_of(timeout, elapsed),
{
    match timeout {
        None => None,
        Some(t) => Some(t.saturating_sub(elapsed)),
    }
}

/// The time that the host is asked to wait is never below the shortest, is what was asked
/// for where that lies in the host's range, and does not get shorter for a longer timeout.
pub proof fn law_clamped(a: u128, b: u128)
    ensures
        clamped(a) >= SHORTEST_TIMEOUT,
        SHORTEST_TIMEOUT <= a <= u64::MAX ==> clamped(a) == a,
        a <= b ==> clamped(a) <= clamped(b),
{
}

/// The event of a timeout subscription, which carries that subscription's userdata and
/// tag, is recognised as the end of the timeout.
pub proof fn law_timeout_is_recognised(nanos: u128, event: Event)
    requires
        event.userdata == timeout_subscription_for(nanos).userdata,
        event.type_ == timeout_subscription_for(nanos).spec_tag(),
    ensures
        is_timeout(event),
{
}

/// A timeout never grows as polls are repeated, and two polls take from it what one poll
/// of their joint length takes.
pub proof fn law_remaining_adds_up(timeout: Option<u128>, a: u128, b: u128)
    requires
        a + b <= u128::MAX,
    ensures
        left_of(left_of(timeout, a), b) == left_of(timeout, (a + b) as u128),
        timeout is Some ==> left_of(timeout, a) is Some && left_of(timeout, a)->0 <= timeout->0,
        timeout is None ==> left_of(timeout, a) is None,
{
}

/// The subscription for a timeout waits on the monotonic clock, from now on, for as many
/// nanoseconds as were asked for: for at least 10, and for the most that the host can count
/// where more were asked for. It carries the userdata by which its event is found again.
pub proof fn law_timeout_subscription_waits_as_long(nanos: u128)
    ensures
        timeout_subscription_for(nanos).userdata == u64::MAX,
        timeout_subscription_for(nanos).u matches SubscriptionU::Clock(clock) && {
            &&& clock.id == 1
            &&& clock.flags == 0
            &&& clock.precision == 1_000_000
            &&& 10 <= nanos <= u64::MAX ==> clock.timeout == nanos
            &&& nanos < 10 ==> clock.timeout == 10
            &&& nanos > u64::MAX ==> clock.timeout == u64::MAX
        },
{
}

/// The end of a timeout is told by the kind of the event and its userdata together; its error,
/// its size and its flags have no say in it.
pub proof fn law_timeout_is_told_by_kind_and_userdata(event: Event, other: Event)
    ensures
        event.type_ == 0 && event.userdata == u64::MAX ==> is_timeout(event),
        event.type_ != 0 || event.userdata != u64::MAX ==> !is_timeout(event),
        event.type_ == other.type_ && event.userdata == other.userdata ==> is_timeout(event)
            == is_timeout(other),
{
}

/// What is left of a timeout and what has passed of it make up the timeout, until it has
/// passed whole.
pub proof fn law_left_and_elapsed_make_up_the_timeout(timeout: u128, elapsed: u128)
    ensures
        left_of(Some(timeout), elapsed) matches Some(left) && {
            &&& elapsed <= timeout ==> left + elapsed == timeout
            &&& elapsed >= timeout ==> left == 0
        },
        left_of(None, elapsed) is None,
{
}

} // verus!
