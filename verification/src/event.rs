//! What a user reads of an event.
use vstd::prelude::*;
use vstd::string::StringExecFns;
use crate::token::Token;
use crate::wasi::{
    hung_up, hung_up_in, Event, Eventtype, EVENTTYPE_CLOCK, EVENTTYPE_FD_READ, EVENTTYPE_FD_WRITE,
};

verus! {

/// The token of the registration that the event belongs to.
pub fn token(event: &Event) -> (t: Token)
    ensures
        t == Token(event.userdata as usize),
        event.userdata <= usize::MAX ==> t.0 == event.userdata,
{
    Token(event.userdata as usize)
}

/// Whether there is data to read.
pub fn is_readable(event: &Event) -> (b: bool)
    ensures
        b == (event.type_ == EVENTTYPE_FD_READ),
{
    event.type_ == EVENTTYPE_FD_READ
}

/// Whether there is room to write.
pub fn is_writable(event: &Event) -> (b: bool)
    ensures
        b == (event.type_ == EVENTTYPE_FD_WRITE),
{
    event.type_ == EVENTTYPE_FD_WRITE
}

/// Whether the event reports an error.
pub fn is_error(event: &Event) -> (b: bool)
    ensures
        b == (event.error != 0),
{
    event.error != 0
}

/// Whether the event is about reading and its peer has closed or disconnected.
pub fn is_read_closed(event: &Event) -> (b: bool)
    ensures
        b == (event.type_ == EVENTTYPE_FD_READ && hung_up_in(event.fd_readwrite.flags)),
{
    event.type_ == EVENTTYPE_FD_READ && hung_up(event.fd_readwrite.flags)
}

/// Whether the event is about writing and its peer has closed or disconnected.
pub fn is_write_closed(event: &Event) -> (b: bool)
    ensures
        b == (event.type_ == EVENTTYPE_FD_WRITE && hung_up_in(event.fd_readwrite.flags)),
{
    event.type_ == EVENTTYPE_FD_WRITE && hung_up(event.fd_readwrite.flags)
}

/// Not supported.
pub fn is_priority(_event: &Event) -> (b: bool)
    ensures
        !b,
{
    false
}

/// Not supported.
pub fn is_aio(_event: &Event) -> (b: bool)
    ensures
        !b,
{
    false
}

/// Not supported.
pub fn is_lio(_event: &Event) -> (b: bool)
    ensures
        !b,
{
    false
}

/// The name of an event type, as debug output shows it.
pub open spec fn event_type_text(type_: Eventtype) -> Seq<char> {
    if type_ == EVENTTYPE_CLOCK {
        "EVENTTYPE_CLOCK"@
    } else if type_ == EVENTTYPE_FD_READ {
        "EVENTTYPE_FD_READ"@
    } else if type_ == EVENTTYPE_FD_WRITE {
        "EVENTTYPE_FD_WRITE"@
    } else {
        "(empty)"@
    }
}

/// The name of an event type, as debug output shows it.
pub fn type_details(type_: Eventtype) -> (name: &'static str)
    ensures
        name@ == event_type_text(type_),
{
    if type_ == EVENTTYPE_CLOCK {
        "EVENTTYPE_CLOCK"
    } else if type_ == EVENTTYPE_FD_READ {
        "EVENTTYPE_FD_READ"
    } else if type_ == EVENTTYPE_FD_WRITE {
        "EVENTTYPE_FD_WRITE"
    } else {
        "(empty)"
    }
}

/// A decimal digit.
pub open spec fn digit(d: nat) -> char {
    ('0' as nat + d) as char
}

/// A number in decimal.
pub open spec fn decimal(n: nat) -> Seq<char>
    decreases n,
{
    if n < 10 {
        seq![digit(n)]
    } else {
        decimal(n / 10).push(digit(n % 10))
    }
}

/// A decimal digit.
fn digit_str(d: u64) -> (s: &'static str)
    requires
        d < 10,
    ensures
        s@ == seq![digit(d as nat)],
{
    proof {
        reveal_strlit("0");
        reveal_strlit("1");
        reveal_strlit("2");
        reveal_strlit("3");
        reveal_strlit("4");
        reveal_strlit("5");
        reveal_strlit("6");
        reveal_strlit("7");
        reveal_strlit("8");
        reveal_strlit("9");
    }
    match d {
        0 => "0",
        1 => "1",
        2 => "2",
        3 => "3",
        4 => "4",
        5 => "5",
        6 => "6",
        7 => "7",
        8 => "8",
        _ => "9",
    }
}

/// Appends a number in decimal.
fn append_decimal(text: &mut String, n: u64)
    ensures
        final(text)@ == old(text)@ + decimal(n as nat),
    decreases n,
{
    let ghost before = text@;
    if n >= 10 {
        append_decimal(text, n / 10);
    }
    text.append(digit_str(n % 10));
    assert(text@ =~= before + decimal(n as nat));
}

/// The event in one line, as debug output shows it.
pub open spec fn debug_text(event: Event) -> Seq<char> {
    "Event { userdata: "@ + decimal(event.userdata as nat) + ", error: "@ + decimal(
        event.error as nat,
    ) + ", type: "@ + event_type_text(event.type_) + ", fd_readwrite: EventFdReadwrite { nbytes: "@
        + decimal(event.fd_readwrite.nbytes as nat) + ", flags: "@ + decimal(
        event.fd_readwrite.flags as nat,
    ) + " } }"@
}

/// The event in one line, as debug output shows it.
pub fn debug_details(event: &Event) -> (text: String)
    ensures
        text@ == debug_text(*event),
{
    let mut text = String::new();
    text.append("Event { userdata: ");
    append_decimal(&mut text, event.userdata);
    text.append(", error: ");
    append_decimal(&mut text, event.error as u64);
    text.append(", type: ");
    text.append(type_details(event.type_));
    text.append(", fd_readwrite: EventFdReadwrite { nbytes: ");
    append_decimal(&mut text, event.fd_readwrite.nbytes);
    text.append(", flags: ");
    append_decimal(&mut text, event.fd_readwrite.flags as u64);
    text.append(" } }");
    assert(text@ =~= debug_text(*event));
    text
}

/// The number that digits stand for when they are read from left to right.
pub open spec fn reading(digits: Seq<char>) -> int
    decreases digits.len(),
{
    if digits.len() == 0 {
        0
    } else {
        10 * reading(digits.drop_last()) + (digits.last() as int - '0' as int)
    }
}

/// Whether the text is how `n` is written: of digits alone, without a leading zero, and reading as
/// `n`.
pub open spec fn writes(text: Seq<char>, n: int) -> bool {
    &&& text.len() > 0
    &&& forall|i: int| 0 <= i < text.len() ==> '0' <= #[trigger] text[i] <= '9'
    &&& text.len() > 1 ==> text[0] != '0'
    &&& reading(text) == n
}

proof fn lemma_reading_is_positive(text: Seq<char>)
    requires
        text.len() > 0,
        forall|i: int| 0 <= i < text.len() ==> '0' <= #[trigger] text[i] <= '9',
        text[0] != '0',
    ensures
        reading(text) > 0,
    decreases text.len(),
{
    let rest = text.drop_last();
    if rest.len() > 0 {
        assert forall|i: int| 0 <= i < rest.len() implies '0' <= #[trigger] rest[i] <= '9' by {
            assert(rest[i] == text[i]);
        }
        lemma_reading_is_positive(rest);
    } else {
        assert(reading(rest) == 0);
    }
    assert(text.last() == text[text.len() - 1]);
}

/// A number is written in decimal, and in one way only: its text has digits alone and no leading
/// zero, and reads as the number; and any such text is that one.
pub proof fn law_decimal_is_how_a_number_is_written(n: nat, text: Seq<char>)
    ensures
        writes(decimal(n), n as int),
        writes(text, n as int) ==> text == decimal(n),
    decreases n,
{
    if n >= 10 {
        let rest = text.drop_last();
        law_decimal_is_how_a_number_is_written(n / 10, rest);
        let all = decimal(n);
        let front = decimal(n / 10);
        assert(all.drop_last() =~= front);
        assert(all[0] == front[0]);
        if front.len() == 1 {
            assert(reading(front.drop_last()) == 0);
            assert(front.last() == front[0]);
        }
        assert(reading(all) == 10 * reading(front) + n % 10);
        assert forall|i: int| 0 <= i < all.len() implies '0' <= #[trigger] all[i] <= '9' by {
            if i < front.len() {
                assert(all[i] == front[i]);
            }
        }
    } else {
        assert(reading(decimal(n).drop_last()) == 0);
        assert(decimal(n).last() == digit(n));
    }
    if writes(text, n as int) {
        let rest = text.drop_last();
        let last = text[text.len() - 1];
        assert(text.last() == last);
        assert forall|i: int| 0 <= i < rest.len() implies '0' <= #[trigger] rest[i] <= '9' by {
            assert(rest[i] == text[i]);
        }
        if rest.len() > 0 {
            assert(rest[0] == text[0]);
            lemma_reading_is_positive(rest);
            assert(n >= 10);
            assert(reading(rest) == n / 10);
            assert(last as int - '0' as int == n % 10);
            assert(writes(rest, (n / 10) as int));
            assert(rest == decimal(n / 10));
        } else {
            assert(n < 10);
            assert(last as int - '0' as int == n);
        }
        assert(digit(n % 10) == last);
        assert(text =~= decimal(n));
    }
}

/// Debug output shows every field of an event, the numbers written in decimal and the kind by the
/// name that the host interface gives it.
pub proof fn law_debug_text_shows_every_field(
    event: Event,
    userdata: Seq<char>,
    error: Seq<char>,
    nbytes: Seq<char>,
    flags: Seq<char>,
    kind: Seq<char>,
)
    requires
        writes(userdata, event.userdata as int),
        writes(error, event.error as int),
        writes(nbytes, event.fd_readwrite.nbytes as int),
        writes(flags, event.fd_readwrite.flags as int),
        event.type_ == 0 ==> kind == "EVENTTYPE_CLOCK"@,
        event.type_ == 1 ==> kind == "EVENTTYPE_FD_READ"@,
        event.type_ == 2 ==> kind == "EVENTTYPE_FD_WRITE"@,
        event.type_ > 2 ==> kind == "(empty)"@,
    ensures
        event_type_text(event.type_) == kind,
        debug_text(event) == "Event { userdata: "@ + userdata + ", error: "@ + error + ", type: "@
            + kind + ", fd_readwrite: EventFdReadwrite { nbytes: "@ + nbytes + ", flags: "@ + flags
            + " } }"@,
{
    law_decimal_is_how_a_number_is_written(event.userdata as nat, userdata);
    law_decimal_is_how_a_number_is_written(event.error as nat, error);
    law_decimal_is_how_a_number_is_written(event.fd_readwrite.nbytes as nat, nbytes);
    law_decimal_is_how_a_number_is_written(event.fd_readwrite.flags as nat, flags);
}

} // verus!
