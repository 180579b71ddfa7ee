//! The data of the `poll_oneoff` interface of WASI: what is asked of the host and
//! what the host reports.
use vstd::prelude::*;

verus! {

/// A file descriptor of the host.
pub type Fd = u32;

/// A value that travels with a subscription and comes back with its event.
pub type Userdata = u64;

/// A time in nanoseconds.
pub type Timestamp = u64;

/// An error code of the host; 0 means that there was no error.
pub type Errno = u16;

/// What an event or a subscription is about.
pub type Eventtype = u8;

/// The flags of an event on a descriptor.
pub type Eventrwflags = u16;

/// A clock ran for the time that was asked for.
pub const EVENTTYPE_CLOCK: u8 = 0;

/// A descriptor has data to read.
pub const EVENTTYPE_FD_READ: u8 = 1;

/// A descriptor can be written to.
pub const EVENTTYPE_FD_WRITE: u8 = 2;

/// The flag of an event whose peer has closed or disconnected.
pub const EVENTRWFLAGS_FD_READWRITE_HANGUP: u16 = 1;

/// The clock that is never set back.
pub const CLOCKID_MONOTONIC: u32 = 1;

/// The error code of a descriptor that is not open.
pub const ERRNO_BADF: u16 = 8;

/// What an event on a descriptor says of the descriptor.
#[derive(Clone, Copy, Debug, PartialEq, Eq, Structural)]
pub struct EventFdReadwrite {
    pub nbytes: u64,
    pub flags: Eventrwflags,
}

/// Something that happened, as the host reports it.
#[derive(Clone, Copy, Debug, PartialEq, Eq, Structural)]
pub struct Event {
    pub userdata: Userdata,
    pub error: Errno,
    pub type_: Eventtype,
    pub fd_readwrite: EventFdReadwrite,
}

/// A clock to wait for.
#[derive(Clone, Copy, Debug, PartialEq, Eq, Structural)]
pub struct SubscriptionClock {
    pub id: u32,
    pub timeout: Timestamp,
    pub precision: Timestamp,
    pub flags: u16,
}

/// What a subscription waits for.
#[derive(Clone, Copy, Debug, PartialEq, Eq, Structural)]
pub enum SubscriptionU {
    Clock(SubscriptionClock),
    FdRead(Fd),
    FdWrite(Fd),
}

/// One thing that the host is asked to wait for.
#[derive(Clone, Copy, Debug, PartialEq, Eq, Structural)]
pub struct Subscription {
    pub userdata: Userdata,
    pub u: SubscriptionU,
}

impl Subscription {
    /// The event type that tells the host which kind of subscription this is.
    pub open spec fn spec_tag(self) -> Eventtype {
        match self.u {
            SubscriptionU::Clock(_) => EVENTTYPE_CLOCK,
            SubscriptionU::FdRead(_) => EVENTTYPE_FD_READ,
            SubscriptionU::FdWrite(_) => EVENTTYPE_FD_WRITE,
        }
    }

    /// The event type that tells the host which kind of subscription this is.
    pub fn tag(&self) -> (tag: Eventtype)
        ensures
            tag == self.spec_tag(),
    {
        match self.u {
            SubscriptionU::Clock(_) => EVENTTYPE_CLOCK,
            SubscriptionU::FdRead(_) => EVENTTYPE_FD_READ,
            SubscriptionU::FdWrite(_) => EVENTTYPE_FD_WRITE,
        }
    }
}

/// The descriptor that the userdata of an event names: its low 32 bits.
pub open spec fn descriptor_of(userdata: Userdata) -> Fd {
    (userdata % 0x1_0000_0000) as u32
}

/// The descriptor that the userdata of an event names: its low 32 bits.
pub fn descriptor(userdata: Userdata) -> (fd: Fd)
    ensures
        fd == descriptor_of(userdata),
{
    assert(userdata as u32 == (userdata % 0x1_0000_0000) as u32) by (bit_vector);
    userdata as u32
}

/// Whether the flags say that the peer has closed or disconnected.
pub open spec fn hung_up_in(flags: Eventrwflags) -> bool {
    flags % 2 == 1
}

/// Whether the flags say that the peer has closed or disconnected.
pub fn hung_up(flags: Eventrwflags) -> (b: bool)
    ensures
        b == hung_up_in(flags),
{
    assert((flags & 1 != 0) == (flags % 2 == 1)) by (bit_vector);
    flags & EVENTRWFLAGS_FD_READWRITE_HANGUP != 0
}

/// `wasi::Errno::raw` on `wasi::ERRNO_BADF`: the code with which the host reports a
/// descriptor that is not open. The `wasi` crate defines that constant as 8, and
/// `raw` hands out the number that it holds.
#[verifier::external_body]
pub(crate) fn errno_badf() -> (code: Errno)
    ensures
        code == ERRNO_BADF,
{
    wasi::ERRNO_BADF.raw()
}

/// A descriptor that is its own userdata is what an event with that userdata names.
pub proof fn law_descriptor_survives_as_userdata(fd: Fd)
    ensures
        descriptor_of(fd as u64) == fd,
{
}

/// The numbers of the host interface: the kinds of event are three different ones, and the
/// hang-up flag is a single bit.
pub proof fn law_host_numbers()
    ensures
        EVENTTYPE_CLOCK == 0,
        EVENTTYPE_FD_READ == 1,
        EVENTTYPE_FD_WRITE == 2,
        EVENTRWFLAGS_FD_READWRITE_HANGUP == 1,
        CLOCKID_MONOTONIC == 1,
        ERRNO_BADF == 8,
{
}

/// The tag tells the kinds of subscription apart, whatever else the subscription holds.
pub proof fn law_tag_tells_the_kind(s: Subscription)
    ensures
        s.spec_tag() == 0 <==> s.u is Clock,
        s.spec_tag() == 1 <==> s.u is FdRead,
        s.spec_tag() == 2 <==> s.u is FdWrite,
{
}

/// Two values of userdata name the same descriptor exactly if they differ by a multiple of
/// 2^32, and a descriptor's own number names it.
pub proof fn law_descriptor_is_the_low_half(a: Userdata, b: Userdata, high: u32, low: u32)
    ensures
        descriptor_of(a) == descriptor_of(b) <==> (a - b) % 0x1_0000_0000 == 0,
        descriptor_of((high * 0x1_0000_0000 + low) as u64) == low,
{
    assert((a - b) % 0x1_0000_0000 == 0 <==> a % 0x1_0000_0000 == b % 0x1_0000_0000);
}

/// The peer is gone exactly if the lowest flag is set; the other flags have no say in it.
pub proof fn law_hang_up_is_the_lowest_flag(flags: Eventrwflags, others: Eventrwflags)
    ensures
        hung_up_in(flags) <==> flags & 1 != 0,
        hung_up_in(flags) == hung_up_in(flags | (others & 0xfffe)),
        hung_up_in(flags | 1),
{
    assert(flags % 2 == 1 <==> flags & 1 != 0) by (bit_vector);
    assert(flags % 2 == (flags | (others & 0xfffe)) % 2) by (bit_vector);
    assert((flags | 1) % 2 == 1) by (bit_vector);
}

} // verus!
