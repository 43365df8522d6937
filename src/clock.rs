use vstd::prelude::*;
use chrono::{Datelike, TimeZone, Timelike};
use crate::entry::Stamp;
use crate::text::{decimal, digit_spec, push_decimal, string_of};

verus! {

/// A local wall-clock reading: month (1 to 12), day of month, hour and minute.
pub struct Clock {
    pub month: u32,
    pub day: u32,
    pub hour: u32,
    pub minute: u32,
}

impl Clock {
    pub open spec fn wf(&self) -> bool {
        &&& 1 <= self.month <= 12
        &&& 1 <= self.day <= 31
        &&& self.hour < 24
        &&& self.minute < 60
    }
}

/// A stamp well inside chrono's range (years -262142 to 262142), with a
/// nanosecond part below one second.
pub open spec fn representable(t: Stamp) -> bool {
    &&& -8_000_000_000_000 <= t.secs <= 8_000_000_000_000
    &&& t.nanos < 1_000_000_000
}

/// Relies on chrono: `Local.timestamp_opt(..).single()` converts a point in
/// time to the machine's local time, absent only for out-of-range seconds or
/// an invalid nanosecond part (as `TimeZone::timestamp_opt` documents), and
/// `month`, `day`, `hour`, `minute` read it, in the ranges that chrono documents.
#[verifier::external_body]
pub(crate) fn local_clock(t: &Stamp) -> (r: Option<Clock>)
    ensures
        r matches Some(c) ==> c.wf(),
        representable(*t) ==> r is Some,
{
    match chrono::Local.timestamp_opt(t.secs, t.nanos).single() {
        Some(d) => Some(Clock { month: d.month(), day: d.day(), hour: d.hour(), minute: d.minute() }),
        None => None,
    }
}

/// The English three-letter abbreviation of a month.
pub open spec fn month_abbrev(m: u32) -> Seq<char> {
    if m == 1 { seq!['J', 'a', 'n'] }
    else if m == 2 { seq!['F', 'e', 'b'] }
    else if m == 3 { seq!['M', 'a', 'r'] }
    else if m == 4 { seq!['A', 'p', 'r'] }
    else if m == 5 { seq!['M', 'a', 'y'] }
    else if m == 6 { seq!['J', 'u', 'n'] }
    else if m == 7 { seq!['J', 'u', 'l'] }
    else if m == 8 { seq!['A', 'u', 'g'] }
    else if m == 9 { seq!['S', 'e', 'p'] }
    else if m == 10 { seq!['O', 'c', 't'] }
    else if m == 11 { seq!['N', 'o', 'v'] }
    else { seq!['D', 'e', 'c'] }
}

/// Month abbreviation, a space, and the day padded with a space to two places.
pub open spec fn date_text(c: Clock) -> Seq<char> {
    let day = if c.day < 10 { seq![' '] + decimal(c.day as nat) } else { decimal(c.day as nat) };
    month_abbrev(c.month) + seq![' '] + day
}

/// Two digits, with a leading zero.
pub open spec fn two_digits(n: nat) -> Seq<char> {
    seq![digit_spec(n / 10), digit_spec(n % 10)]
}

/// Hour and minute on the 24-hour clock, as `HH:MM`.
pub open spec fn time_text(c: Clock) -> Seq<char> {
    two_digits(c.hour as nat) + seq![':'] + two_digits(c.minute as nat)
}

fn month_chars(m: u32) -> (r: Vec<char>)
    ensures
        r@ == month_abbrev(m),
{
    let r = if m == 1 { vec!['J', 'a', 'n'] }
    else if m == 2 { vec!['F', 'e', 'b'] }
    else if m == 3 { vec!['M', 'a', 'r'] }
    else if m == 4 { vec!['A', 'p', 'r'] }
    else if m == 5 { vec!['M', 'a', 'y'] }
    else if m == 6 { vec!['J', 'u', 'n'] }
    else if m == 7 { vec!['J', 'u', 'l'] }
    else if m == 8 { vec!['A', 'u', 'g'] }
    else if m == 9 { vec!['S', 'e', 'p'] }
    else if m == 10 { vec!['O', 'c', 't'] }
    else if m == 11 { vec!['N', 'o', 'v'] }
    else { vec!['D', 'e', 'c'] };
    assert(r@ =~= month_abbrev(m));
    r
}

/// The creation-date field, such as `Mar  7`.
pub fn format_date(c: &Clock) -> (r: String)
    requires
        c.wf(),
    ensures
        r@ == date_text(*c),
{
    let mut v = month_chars(c.month);
    v.push(' ');
    if c.day < 10 {
        v.push(' ');
    }
    push_decimal(&mut v, c.day as u64);
    assert(v@ =~= date_text(*c));
    string_of(&v)
}

fn push_two_digits(out: &mut Vec<char>, n: u32)
    requires
        n < 100,
    ensures
        final(out)@ == old(out)@ + two_digits(n as nat),
{
    let ghost before = out@;
    let mut tens: Vec<char> = Vec::new();
    push_decimal(&mut tens, (n / 10) as u64);
    let mut ones: Vec<char> = Vec::new();
    push_decimal(&mut ones, (n % 10) as u64);
    out.push(tens[0]);
    out.push(ones[0]);
    assert(out@ =~= before + two_digits(n as nat));
}

/// The primary-time field, such as `09:05`.
pub fn format_time(c: &Clock) -> (r: String)
    requires
        c.wf(),
    ensures
        r@ == time_text(*c),
{
    let mut v: Vec<char> = Vec::new();
    push_two_digits(&mut v, c.hour);
    v.push(':');
    push_two_digits(&mut v, c.minute);
    assert(v@ =~= time_text(*c));
    string_of(&v)
}

} // verus!
