//! The line a handler writes to its client every second.

use vstd::prelude::*;
use crate::decimal::{decimal, digit_value, is_digit, push_decimal};

verus! {

/// The two-digit number at positions `i` and `i + 1` of `s`.
pub open spec fn two_digits(s: Seq<char>, i: int) -> nat {
    digit_value(s[i]) * 10 + digit_value(s[i + 1])
}

/// Whether `s` is a wall-clock time `HH:MM:SS`: zero-padded hour (at most
/// 23), minute (at most 59) and second (at most 60, for a leap second).
pub open spec fn is_clock_label(s: Seq<char>) -> bool {
    &&& s.len() == 8
    &&& s[2] == ':' && s[5] == ':'
    &&& is_digit(s[0]) && is_digit(s[1]) && is_digit(s[3])
    &&& is_digit(s[4]) && is_digit(s[6]) && is_digit(s[7])
    &&& two_digits(s, 0) <= 23
    &&& two_digits(s, 3) <= 59
    &&& two_digits(s, 6) <= 60
}

/// The greeting of server `server_id` stamped with the time `clock`.
pub open spec fn hello_line(server_id: u32, clock: Seq<char>) -> Seq<char> {
    "[Server "@ + decimal(server_id as nat) + "] - "@ + clock + " - Hello from server!\n"@
}

/// The local wall-clock time as `HH:MM:SS`.
///
/// Calls `chrono::Local::now()` and formats it with `%H:%M:%S`. The contract
/// claims only the shape that chrono documents for these three fields (each
/// zero-padded to two digits, hour 00–23, minute 00–59, second 00–60); which
/// time it is depends on the clock and the time zone, and is not stated.
/// chrono panics only on conditions of the machine that no argument of this
/// function controls: a system clock set before 1970, or a time zone in which
/// no local time type can be selected or whose offset is out of range (time
/// zone data that cannot be loaded at all falls back to UTC).
#[verifier::external_body]
fn local_clock_label() -> (r: String)
    ensures
        is_clock_label(r@),
{
    chrono::Local::now().format("%H:%M:%S").to_string()
}

/// Builds `[Server <id>] - <clock> - Hello from server!` and a newline.
pub fn hello_message(server_id: u32, clock: &str) -> (r: String)
    ensures
        r@ == hello_line(server_id, clock@),
{
    let mut s = String::from_str("[Server ");
    push_decimal(&mut s, server_id as u64);
    s.append("] - ");
    s.append(clock);
    s.append(" - Hello from server!\n");
    s
}

/// The greeting of server `server_id`, stamped with the current local time.
pub fn hello_message_now(server_id: u32) -> (r: String)
    ensures
        exists|clock: Seq<char>| is_clock_label(clock) && r@ == hello_line(server_id, clock),
{
    let clock = local_clock_label();
    let r = hello_message(server_id, clock.as_str());
    assert(is_clock_label(clock@) && r@ == hello_line(server_id, clock@));
    r
}

} // verus!
