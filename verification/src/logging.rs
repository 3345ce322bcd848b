//! The decisions and the text of the engine's log lines. Where a line goes,
//! the clock and the process-wide verbosity switch belong to the caller.

use vstd::prelude::*;
use crate::text::{decimal, push_decimal};

verus! {

/// How a logger treats its messages.
#[derive(Clone, Copy, Debug)]
pub struct LogOptions {
    /// Whether the logger speaks only while verbose logging is on.
    pub verbose_only: bool,
}

impl Default for LogOptions {
    fn default() -> (r: Self)
        ensures
            !r.verbose_only,
    {
        LogOptions { verbose_only: false }
    }
}

impl LogOptions {
    /// Whether a message is written, given whether verbose logging is on:
    /// always, unless the logger is for verbose logging only and it is off.
    pub fn admits(&self, verbose_enabled: bool) -> (r: bool)
        ensures
            r == (!self.verbose_only || verbose_enabled),
    {
        !self.verbose_only || verbose_enabled
    }
}

/// The decimal numeral of `n`, padded with zeros on the left to `width`.
pub open spec fn zero_padded(n: nat, width: nat) -> Seq<char> {
    let d = decimal(n);
    if d.len() < width {
        Seq::new((width - d.len()) as nat, |i: int| '0') + d
    } else {
        d
    }
}

/// `<seconds>.<millis>s`, each part at least three digits wide.
pub open spec fn timestamp_text(seconds: nat, millis: nat) -> Seq<char> {
    zero_padded(seconds, 3) + "."@ + zero_padded(millis, 3) + "s"@
}

/// A log line: `(<timestamp>) [<name>] <message>` for a named logger, the
/// message alone for an unnamed one.
pub open spec fn log_line_text(name: Option<Seq<char>>, timestamp: Seq<char>, message: Seq<char>) -> Seq<char> {
    match name {
        Some(n) => "("@ + timestamp + ") ["@ + n + "] "@ + message,
        None => message,
    }
}

/// The number of decimal digits of `n`.
fn digit_count(n: u64) -> (r: u64)
    ensures
        r == decimal(n as nat).len(),
        1 <= r <= n + 1,
    decreases n,
{
    if n < 10 {
        1
    } else {
        let d = digit_count(n / 10);
        proof {
            assert(decimal(n as nat) == decimal((n / 10) as nat).push(
                crate::text::digit_char((n % 10) as nat),
            ));
        }
        d + 1
    }
}

/// Appends the decimal numeral of `n`, padded with zeros to `width`.
fn push_zero_padded(s: &mut String, n: u64, width: u32)
    ensures
        final(s)@ == old(s)@ + zero_padded(n as nat, width as nat),
{
    let digits = digit_count(n);
    let ghost start = s@;
    let mut written: u64 = 0;
    let width = width as u64;
    if digits < width {
        while written < width - digits
            invariant
                digits < width,
                written <= width - digits,
                s@ == start + Seq::new(written as nat, |i: int| '0'),
            decreases width - digits - written,
        {
            s.push('0');
            proof {
                assert(Seq::new((written + 1) as nat, |i: int| '0') =~= Seq::new(
                    written as nat,
                    |i: int| '0',
                ).push('0'));
            }
            written = written + 1;
        }
    }
    let ghost zeros = s@.subrange(start.len() as int, s@.len() as int);
    proof {
        assert(s@ =~= start + zeros);
    }
    push_decimal(s, n);
    proof {
        if digits < width {
            assert(zeros =~= Seq::new((width - digits) as nat, |i: int| '0'));
        } else {
            assert(zeros =~= Seq::<char>::empty());
        }
        assert(s@ =~= start + (zeros + decimal(n as nat)));
    }
}

/// The time stamp of a log line: `<seconds>.<millis>s`, each part padded
/// with zeros to three digits.
pub fn format_timestamp(seconds: u64, millis: u32) -> (r: String)
    ensures
        r@ == timestamp_text(seconds as nat, millis as nat),
{
    let mut s = String::new();
    push_zero_padded(&mut s, seconds, 3);
    s.push_str(".");
    push_zero_padded(&mut s, millis as u64, 3);
    s.push_str("s");
    s
}

/// The text of a log line: `(<timestamp>) [<name>] <message>` for a named
/// logger, the message alone for an unnamed one.
pub fn log_line(name: Option<&str>, timestamp: &str, message: &str) -> (r: String)
    ensures
        r@ == log_line_text(
            match name {
                Some(n) => Some(n@),
                None => None,
            },
            timestamp@,
            message@,
        ),
{
    let mut s = String::new();
    match name {
        Some(n) => {
            s.push_str("(");
            s.push_str(timestamp);
            s.push_str(") [");
            s.push_str(n);
            s.push_str("] ");
            s.push_str(message);
        },
        None => {
            s.push_str(message);
        },
    }
    s
}

} // verus!
