//! The clock: today's date and the time stamp of an entry, as the journal
//! writes them.

use vstd::prelude::*;
use chrono::Timelike;
use crate::chars::is_digit;
use crate::lines::plain_line;

verus! {

/// A text made of ASCII digits and the signs `-` and `+` only.
pub open spec fn date_text(s: Seq<char>) -> bool {
    forall|i: int| 0 <= i < s.len() ==> is_digit(s[i]) || s[i] == '-' || s[i] == '+'
}

/// The label of the half of the day before noon.
pub open spec fn before_noon() -> Seq<char> {
    seq!['\u{c624}', '\u{c804}']
}

/// The label of the half of the day from noon on.
pub open spec fn after_noon() -> Seq<char> {
    seq!['\u{c624}', '\u{d6c4}']
}

/// The character of a decimal digit.
pub open spec fn digit_of(d: int) -> char {
    (0x30 + d) as char
}

/// A number in decimal, without leading zeros.
pub open spec fn decimal(n: nat) -> Seq<char>
    decreases n,
{
    if n < 10 {
        seq![digit_of(n as int)]
    } else {
        decimal(n / 10).push(digit_of((n % 10) as int))
    }
}

/// A number in decimal, with a leading zero where it is below ten.
pub open spec fn two_digits(n: nat) -> Seq<char> {
    if n < 10 {
        seq!['0'] + decimal(n)
    } else {
        decimal(n)
    }
}

/// The header of an entry made at `hour`:`minute`: in square brackets the
/// half of the day, a space, the hour within that half and the minute,
/// two digits each, with a colon between them.
pub open spec fn timestamp(hour: nat, minute: nat) -> Seq<char> {
    seq!['['] + (if hour >= 12 {
        after_noon()
    } else {
        before_noon()
    }) + seq![' '] + two_digits(hour % 12) + seq![':'] + two_digits(minute) + seq![']']
}

/// A date text is a plain line: it holds no line feed and no carriage
/// return.
pub proof fn lemma_date_text_is_plain(s: Seq<char>)
    requires
        date_text(s),
    ensures
        plain_line(s),
{
    assert forall|j: int| 0 <= j < s.len() implies s[j] != '\n' by {
        assert(is_digit(s[j]) || s[j] == '-' || s[j] == '+');
    }
    if s.len() > 0 {
        assert(is_digit(s.last()) || s.last() == '-' || s.last() == '+');
    }
}

/// Today's date in local time, as `chrono` writes the result of
/// `Local::now` under the pattern `%Y-%m-%d`: year, month and day, with
/// dashes between them. Trusted: the text holds digits and the signs `-`
/// and `+` only (a sign leads a year outside 0 to 9999). Which date it is
/// depends on the clock, and the call panics where the clock reads a time
/// before 1970.
#[verifier::external_body]
pub fn get_today() -> (date: String)
    ensures
        date_text(date@),
{
    chrono::Local::now().format("%Y-%m-%d").to_string()
}

/// The hour and the minute of the local time of day, from `chrono`:
/// `Local::now`, then `Timelike::hour` and `Timelike::minute`. Trusted:
/// the hour is below 24 and the minute below 60. The call panics where the
/// clock reads a time before 1970.
#[verifier::external_body]
fn local_hour_and_minute() -> (now: (u32, u32))
    ensures
        now.0 < 24,
        now.1 < 60,
{
    let now = chrono::Local::now();
    (now.hour(), now.minute())
}

/// Appends `n` in decimal.
fn push_decimal(out: &mut String, n: u32)
    ensures
        final(out)@ == old(out)@ + decimal(n as nat),
    decreases n,
{
    if n >= 10 {
        push_decimal(out, n / 10);
    }
    let d: u8 = (n % 10) as u8;
    let c: char = (0x30u8 + d) as char;
    let ghost before = out@;
    out.push(c);
    proof {
        if n >= 10 {
            assert(old(out)@ + decimal(n as nat / 10).push(c) =~= before.push(c));
        } else {
            assert(old(out)@ + seq![c] =~= before.push(c));
        }
    }
}

/// Appends `n` in decimal, with a leading zero where it is below ten.
fn push_two_digits(out: &mut String, n: u32)
    ensures
        final(out)@ == old(out)@ + two_digits(n as nat),
{
    if n < 10 {
        out.push('0');
    }
    let ghost before = out@;
    push_decimal(out, n);
    proof {
        if n < 10 {
            assert(before + decimal(n as nat) =~= old(out)@ + (seq!['0'] + decimal(n as nat)));
        }
    }
}

/// The header of an entry made at `hour`:`minute`.
pub fn format_timestamp(hour: u32, minute: u32) -> (stamp: String)
    ensures
        stamp@ == timestamp(hour as nat, minute as nat),
{
    let mut out = String::new();
    out.push('[');
    out.push('\u{c624}');
    if hour >= 12 {
        out.push('\u{d6c4}');
    } else {
        out.push('\u{c804}');
    }
    out.push(' ');
    let ghost head = out@;
    push_two_digits(&mut out, hour % 12);
    out.push(':');
    let ghost mid = out@;
    push_two_digits(&mut out, minute);
    out.push(']');
    proof {
        let half = if hour >= 12 {
            after_noon()
        } else {
            before_noon()
        };
        assert(head =~= seq!['['] + half + seq![' ']);
        assert(out@ =~= timestamp(hour as nat, minute as nat));
    }
    out
}

/// The header of an entry made now, in local time. Which time that is
/// depends on the clock.
pub fn get_current_time() -> (stamp: String)
    ensures
        exists|hour: nat, minute: nat|
            hour < 24 && minute < 60 && stamp@ == #[trigger] timestamp(hour, minute),
{
    let (hour, minute) = local_hour_and_minute();
    let stamp = format_timestamp(hour, minute);
    assert(stamp@ == timestamp(hour as nat, minute as nat));
    stamp
}

} // verus!
