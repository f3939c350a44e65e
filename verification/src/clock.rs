//! Elapsed time for the status line: the clock is read through std, the
//! split into hours, minutes and seconds and the `MM:SS` text are computed
//! here.

use crate::text::{push_zero_padded, zero_padded};
use std::time::{Duration, Instant};
use vstd::prelude::*;

verus! {

#[verifier::external_type_specification]
#[verifier::external_body]
pub struct ExInstant(Instant);

/// `Instant::now` reads the monotonic clock. Nothing is claimed of the
/// reading.
pub assume_specification[ Instant::now ]() -> (now: Instant)
;

/// `Instant::duration_since` gives the time from `earlier` to `later`, or
/// zero where `earlier` is not the earlier one. Nothing is claimed of the
/// amount.
pub assume_specification[ Instant::duration_since ](later: &Instant, earlier: Instant) -> (d:
    Duration)
;

/// The whole seconds that a duration holds: what `Duration::as_secs`
/// returns for it.
pub uninterp spec fn whole_seconds(d: Duration) -> u64;

/// `Duration::as_secs` gives the whole seconds of a duration. The number
/// depends on the duration alone and goes by the name `whole_seconds`;
/// nothing more is claimed of it.
pub assume_specification[ Duration::as_secs ](d: &Duration) -> (secs: u64)
    ensures
        secs == whole_seconds(*d),
;

/// Hours, minutes within the hour and seconds within the minute of
/// `elapsed` whole seconds. Hours beyond the largest `usize` count as the
/// largest.
pub open spec fn hms_of(elapsed: nat) -> (nat, nat, nat) {
    (
        if elapsed / 3600 <= usize::MAX {
            elapsed / 3600
        } else {
            usize::MAX as nat
        },
        (elapsed / 60) % 60,
        elapsed % 60,
    )
}

/// Splits `elapsed` whole seconds into hours, minutes and seconds.
pub fn split_seconds(elapsed: u64) -> (hms: (usize, usize, usize))
    ensures
        (hms.0 as nat, hms.1 as nat, hms.2 as nat) == hms_of(elapsed as nat),
{
    let seconds = (elapsed % 60) as usize;
    let minutes = ((elapsed / 60) % 60) as usize;
    let hours = elapsed / 3600;
    let hours = if hours <= usize::MAX as u64 {
        hours as usize
    } else {
        usize::MAX
    };
    (hours, minutes, seconds)
}

/// Splits a duration into hours, minutes and seconds by its whole
/// seconds; what is left of a second is dropped.
pub fn split_duration(duration: &Duration) -> (hms: (usize, usize, usize))
    ensures
        (hms.0 as nat, hms.1 as nat, hms.2 as nat) == hms_of(whole_seconds(*duration) as nat),
{
    split_seconds(duration.as_secs())
}

/// The timer suffix: a space, then minutes and seconds as two digits each
/// around a colon.
pub open spec fn clock_text(minutes: nat, seconds: nat) -> Seq<char> {
    seq![' '] + zero_padded(minutes, 2) + seq![':'] + zero_padded(seconds, 2)
}

/// The width of the timer suffix.
pub const CLOCK_WIDTH: usize = 6;

/// Writes the timer suffix for the given minutes and seconds.
pub fn format_clock(minutes: usize, seconds: usize) -> (s: String)
    ensures
        s@ == clock_text(minutes as nat, seconds as nat),
{
    let mut s = String::new();
    s.push(' ');
    push_zero_padded(&mut s, minutes, 2);
    s.push(':');
    push_zero_padded(&mut s, seconds, 2);
    assert(s@ =~= clock_text(minutes as nat, seconds as nat));
    s
}

/// Below one hundred the timer suffix is exactly `CLOCK_WIDTH` wide.
pub proof fn lemma_clock_width(minutes: nat, seconds: nat)
    requires
        minutes < 100,
        seconds < 100,
    ensures
        clock_text(minutes, seconds).len() == CLOCK_WIDTH,
{
    lemma_two_digits(minutes);
    lemma_two_digits(seconds);
}

proof fn lemma_two_digits(v: nat)
    requires
        v < 100,
    ensures
        zero_padded(v, 2).len() == 2,
{
    crate::text::lemma_decimal_len(v);
    if v >= 10 {
        assert(v / 10 < 10);
        assert(crate::text::decimal(v / 10).len() == 1);
    }
}

} // verus!
