//! Requests for the local services of a device: the text that is sent for
//! each.

use vstd::prelude::*;
use crate::text::{decimal, signed_decimal, push_decimal, push_signed_decimal};

verus! {

/// The request that directs what follows to the device with the given
/// serial.
pub fn transport_request(serial: &str) -> (r: String)
    ensures
        r@ == "host:transport:"@ + serial@,
{
    let mut r = String::from_str("host:transport:");
    r.append(serial);
    r
}

/// `shell:command`, where the command is something like
/// "cmd arg1 arg2 ...".
pub struct ShellCommand {
    command: String,
}

impl View for ShellCommand {
    type V = Seq<char>;

    closed spec fn view(&self) -> Seq<char> {
        self.command@
    }
}

impl ShellCommand {
    /// A request to run `command` in the device's shell.
    pub fn new(command: String) -> (r: Self)
        ensures
            r@ == command@,
    {
        Self { command }
    }

    /// The text of the request.
    pub fn raw_command(&self) -> (r: String)
        ensures
            r@ == "shell:"@ + self@,
    {
        let mut r = String::from_str("shell:");
        r.append(self.command.as_str());
        r
    }
}

/// `shell:screencap -p`
pub struct ScreenCap;

impl ScreenCap {
    /// A request for a screenshot in PNG format.
    pub fn new() -> (r: Self) {
        Self
    }

    /// The text of the request.
    pub fn raw_command(&self) -> (r: String)
        ensures
            r@ == "shell:screencap -p"@,
    {
        String::from_str("shell:screencap -p")
    }
}

/// The text of a swipe from `start` to `end` that lasts `millis` milliseconds,
/// after the given prefix: the four coordinates and the duration in
/// decimal, each after one space.
pub open spec fn swipe_text(prefix: Seq<char>, start: (int, int), end: (int, int), millis: nat) -> Seq<
    char,
> {
    prefix + " "@ + signed_decimal(start.0) + " "@ + signed_decimal(start.1) + " "@ + signed_decimal(end.0)
        + " "@ + signed_decimal(end.1) + " "@ + decimal(millis)
}

/// Appends the coordinates and the duration of a swipe to its command.
pub fn push_swipe(s: &mut String, start: (i64, i64), end: (i64, i64), millis: u128)
    ensures
        final(s)@ == swipe_text(
            old(s)@,
            (start.0 as int, start.1 as int),
            (end.0 as int, end.1 as int),
            millis as nat,
        ),
{
    s.append(" ");
    push_signed_decimal(s, start.0);
    s.append(" ");
    push_signed_decimal(s, start.1);
    s.append(" ");
    push_signed_decimal(s, end.0);
    s.append(" ");
    push_signed_decimal(s, end.1);
    s.append(" ");
    push_decimal(s, millis);
}

/// `shell:input swipe x1 y1 x2 y2 duration`
#[derive(Clone, Copy, Debug, PartialEq, Eq)]
pub struct InputSwipe {
    /// Where the swipe starts.
    pub start: (u32, u32),
    /// Where the swipe ends; it may lie off the screen.
    pub end: (i32, i32),
    /// How long the swipe lasts, in milliseconds.
    pub duration: u128,
}

impl InputSwipe {
    /// A swipe from `start` to `end` that lasts `duration` milliseconds.
    pub fn new(start: (u32, u32), end: (i32, i32), duration: u128) -> (r: Self)
        ensures
            r.start == start,
            r.end == end,
            r.duration == duration,
    {
        Self { start, end, duration }
    }

    /// The text of the request.
    pub fn raw_command(&self) -> (r: String)
        ensures
            r@ == swipe_text(
                "shell:input swipe"@,
                (self.start.0 as int, self.start.1 as int),
                (self.end.0 as int, self.end.1 as int),
                self.duration as nat,
            ),
    {
        let mut r = String::from_str("shell:input swipe");
        push_swipe(
            &mut r,
            (self.start.0 as i64, self.start.1 as i64),
            (self.end.0 as i64, self.end.1 as i64),
            self.duration,
        );
        r
    }
}

} // verus!
