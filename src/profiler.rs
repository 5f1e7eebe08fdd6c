//! Timing of code sections against a clock, and splitting a span of
//! nanoseconds into minutes, seconds and milliseconds for display.

use vstd::prelude::*;
use std::sync::Arc;
use clocksource::Clocksource;
use vstd::arithmetic::div_mod::{lemma_div_is_ordered, lemma_mod_bound, lemma_mod_mod};
use vstd::string::StringExecFns;

verus! {

#[verifier::external_type_specification]
#[verifier::external_body]
pub struct ExClocksource(Clocksource);

/// Relies on `Clocksource::new`: a clock calibrated against the monotonic
/// reference clock.
pub assume_specification[ Clocksource::new ]() -> Clocksource;

/// Relies on `Clocksource::time`: the clock's reading in nanoseconds.
pub assume_specification[ Clocksource::time ](c: &Clocksource) -> u64;

/// Accumulates the time spent in profiled sections and how many there were.
/// Without a clock every reading is zero.
pub struct Profiler {
    clock: Option<Arc<Clocksource>>,
    total_time: u64,
    total_count: u64,
}

impl Profiler {
    /// Whether the profiler has a clock.
    pub closed spec fn active(&self) -> bool {
        self.clock is Some
    }

    /// The clock read, if any.
    pub closed spec fn spec_clock(&self) -> Option<Arc<Clocksource>> {
        self.clock
    }

    /// Nanoseconds accumulated over the closed sections.
    pub closed spec fn spec_total_time(&self) -> u64 {
        self.total_time
    }

    /// Number of closed sections.
    pub closed spec fn spec_total_count(&self) -> u64 {
        self.total_count
    }

    /// A profiler with nothing recorded, with a fresh clock when `active`.
    pub fn new(active: bool) -> (r: Profiler)
        ensures
            r.active() == active,
            r.spec_total_time() == 0,
            r.spec_total_count() == 0,
    {
        Profiler {
            clock: if active {
                Some(Arc::new(Clocksource::new()))
            } else {
                None
            },
            total_time: 0,
            total_count: 0,
        }
    }

    /// A profiler with nothing recorded, reading `clock`.
    pub fn new_with_clock(clock: Option<Arc<Clocksource>>) -> (r: Profiler)
        ensures
            r.active() == clock is Some,
            r.spec_total_time() == 0,
            r.spec_total_count() == 0,
    {
        Profiler { clock, total_time: 0, total_count: 0 }
    }

    /// Replaces the clock, keeping what was recorded.
    pub fn set_clock(&mut self, clock: Option<Arc<Clocksource>>)
        ensures
            final(self).active() == clock is Some,
            final(self).spec_total_time() == old(self).spec_total_time(),
            final(self).spec_total_count() == old(self).spec_total_count(),
    {
        self.clock = clock;
    }

    /// Drops the clock, or makes sure there is one: an existing clock is kept,
    /// otherwise a fresh one is made. What was recorded is kept.
    pub fn set_active(&mut self, active: bool)
        ensures
            final(self).active() == active,
            old(self).active() && active ==> final(self).spec_clock() == old(self).spec_clock(),
            final(self).spec_total_time() == old(self).spec_total_time(),
            final(self).spec_total_count() == old(self).spec_total_count(),
    {
        self.clock = match (self.clock.take(), active) {
            (Some(clock), true) => Some(clock),
            (_, false) => None,
            (_, true) => Some(Arc::new(Clocksource::new())),
        };
    }

    /// The clock's reading, or zero without a clock.
    pub fn time(&self) -> (r: u64)
        ensures
            !self.active() ==> r == 0,
    {
        match &self.clock {
            Some(clock) => clock.time(),
            None => 0,
        }
    }

    /// Records one closed section that took `elapsed` nanoseconds. Both totals
    /// stop at `u64::MAX` instead of wrapping.
    pub fn record(&mut self, elapsed: u64)
        ensures
            final(self).spec_clock() == old(self).spec_clock(),
            final(self).spec_total_time() == if old(self).spec_total_time() + elapsed > u64::MAX {
                u64::MAX as int
            } else {
                old(self).spec_total_time() + elapsed
            },
            final(self).spec_total_count() == if old(self).spec_total_count() == u64::MAX {
                u64::MAX as int
            } else {
                old(self).spec_total_count() + 1
            },
    {
        self.total_time = self.total_time.saturating_add(elapsed);
        self.total_count = self.total_count.saturating_add(1);
    }

    /// Number of closed sections.
    pub fn samples(&self) -> (r: u64)
        ensures
            r == self.spec_total_count(),
    {
        self.total_count
    }

    /// Nanoseconds accumulated over the closed sections.
    pub fn total_time(&self) -> (r: u64)
        ensures
            r == self.spec_total_time(),
    {
        self.total_time
    }

    /// Mean nanoseconds per closed section, rounded down; zero before any.
    pub fn get_average(&self) -> (r: u64)
        ensures
            r == if self.spec_total_count() == 0 {
                0
            } else {
                self.spec_total_time() / self.spec_total_count()
            },
    {
        if self.total_count == 0 {
            0
        } else {
            self.total_time / self.total_count
        }
    }
}

pub const NS_PER_MINUTE: u64 = 60_000_000_000;

pub const NS_PER_SECOND: u64 = 1_000_000_000;

pub const NS_PER_MILLIS: u64 = 1_000_000;

/// A span of time as minutes, seconds, milliseconds and remaining nanoseconds.
#[derive(Debug, Clone, Copy, PartialEq, Eq, Structural)]
pub struct SplitDuration {
    pub minutes: u32,
    pub seconds: u32,
    pub milliseconds: u32,
    pub nanoseconds: u64,
}

/// The decimal digit `d` as a character.
pub open spec fn digit_char(d: nat) -> char {
    if d == 0 {
        '0'
    } else if d == 1 {
        '1'
    } else if d == 2 {
        '2'
    } else if d == 3 {
        '3'
    } else if d == 4 {
        '4'
    } else if d == 5 {
        '5'
    } else if d == 6 {
        '6'
    } else if d == 7 {
        '7'
    } else if d == 8 {
        '8'
    } else {
        '9'
    }
}

/// `n` written in decimal, without leading zeros.
pub open spec fn decimal(n: nat) -> Seq<char>
    decreases n,
{
    if n < 10 {
        seq![digit_char(n)]
    } else {
        decimal(n / 10) + seq![digit_char(n % 10)]
    }
}

/// `text` followed, when `show` holds, by `n` and its unit, with a space
/// between parts.
pub open spec fn with_part(text: Seq<char>, show: bool, n: nat, unit: Seq<char>) -> Seq<char> {
    if !show {
        text
    } else if text.len() == 0 {
        decimal(n) + unit
    } else {
        text + seq![' '] + decimal(n) + unit
    }
}

/// The decimal digit `d` as a one-character string.
fn digit_str(d: u64) -> (r: &'static str)
    requires
        d < 10,
    ensures
        r@ == seq![digit_char(d as nat)],
{
    proof {
        reveal_strlit("0");
        reveal_strlit("1");
        reveal_strlit("2");
        reveal_strlit("3");
        reveal_strlit("4");
        reveal_strlit("5");
        reveal_strlit("6");
        reveal_strlit("7");
        reveal_strlit("8");
        reveal_strlit("9");
    }
    match d {
        0 => "0",
        1 => "1",
        2 => "2",
        3 => "3",
        4 => "4",
        5 => "5",
        6 => "6",
        7 => "7",
        8 => "8",
        _ => "9",
    }
}

/// Appends `n` in decimal to `out`.
fn push_decimal(out: &mut String, n: u64)
    ensures
        final(out)@ == old(out)@ + decimal(n as nat),
    decreases n,
{
    if n >= 10 {
        push_decimal(out, n / 10);
    }
    out.append(digit_str(n % 10));
    assert(final(out)@ =~= old(out)@ + decimal(n as nat));
}

/// Appends, when `show` holds, `n` and its unit to `out`, after a space when
/// `out` is not empty; `empty` tells whether it is.
fn push_part(out: &mut String, empty: bool, show: bool, n: u64, unit: &str)
    requires
        empty <==> old(out)@.len() == 0,
    ensures
        final(out)@ == with_part(old(out)@, show, n as nat, unit@),
{
    if show {
        if !empty {
            out.append(" ");
            proof {
                reveal_strlit(" ");
            }
        }
        push_decimal(out, n);
        out.append(unit);
        assert(final(out)@ =~= with_part(old(out)@, show, n as nat, unit@));
    }
}

impl SplitDuration {
    /// The nanoseconds part is shown only when it is positive and below ten
    /// thousand.
    pub open spec fn shows_nanoseconds(self) -> bool {
        0 < self.nanoseconds < 10000
    }

    /// The parts that are not zero, in order, each with its unit; `0ns` when
    /// none is shown.
    pub open spec fn text(self) -> Seq<char> {
        let a = with_part(Seq::empty(), self.minutes > 0, self.minutes as nat, seq!['m']);
        let b = with_part(a, self.seconds > 0, self.seconds as nat, seq!['s']);
        let c = with_part(b, self.milliseconds > 0, self.milliseconds as nat, seq!['m', 's']);
        let d = with_part(
            c,
            self.shows_nanoseconds(),
            self.nanoseconds as nat,
            seq!['n', 's'],
        );
        if d.len() == 0 {
            seq!['0', 'n', 's']
        } else {
            d
        }
    }

    /// Splits `ns` nanoseconds into whole minutes, the seconds and
    /// milliseconds left over, and the nanoseconds left after those.
    #[verifier::rlimit(20)]
    pub fn split_ns(ns: u64) -> (r: SplitDuration)
        ensures
            r.minutes == ns / NS_PER_MINUTE,
            r.seconds == ns % NS_PER_MINUTE / NS_PER_SECOND,
            r.milliseconds == ns % NS_PER_SECOND / NS_PER_MILLIS,
            r.nanoseconds == ns % NS_PER_MILLIS,
    {
        proof {
            lemma_mod_mod(ns as int, NS_PER_SECOND as int, 60);
            lemma_mod_mod(ns as int, NS_PER_MILLIS as int, 1000);
            assert(ns / NS_PER_MINUTE <= u64::MAX / NS_PER_MINUTE) by {
                lemma_div_is_ordered(ns as int, u64::MAX as int, NS_PER_MINUTE as int);
            }
            lemma_mod_bound(ns as int, NS_PER_MINUTE as int);
            lemma_div_is_ordered((ns % NS_PER_MINUTE) as int, NS_PER_MINUTE as int, NS_PER_SECOND as int);
            lemma_mod_bound(ns as int, NS_PER_SECOND as int);
            lemma_div_is_ordered((ns % NS_PER_SECOND) as int, NS_PER_SECOND as int, NS_PER_MILLIS as int);
        }
        let mut ns = ns;
        let minutes = ns / NS_PER_MINUTE;
        ns %= NS_PER_MINUTE;
        let seconds = ns / NS_PER_SECOND;
        ns %= NS_PER_SECOND;
        let milliseconds = ns / NS_PER_MILLIS;
        ns %= NS_PER_MILLIS;
        SplitDuration {
            minutes: minutes as u32,
            seconds: seconds as u32,
            milliseconds: milliseconds as u32,
            nanoseconds: ns,
        }
    }
}

impl SplitDuration {
    /// The non-zero parts with their units, separated by spaces (`1m 5ms`);
    /// `0ns` when every part is hidden.
    pub fn to_string(&self) -> (r: String)
        ensures
            r@ == self.text(),
    {
        proof {
            reveal_strlit("m");
            reveal_strlit("s");
            reveal_strlit("ms");
            reveal_strlit("ns");
            reveal_strlit("0ns");
        }
        let mut out = String::new();
        let shows_ns = self.nanoseconds > 0 && self.nanoseconds < 10000;
        let mut empty = true;
        push_part(&mut out, empty, self.minutes > 0, self.minutes as u64, "m");
        empty = empty && !(self.minutes > 0);
        push_part(&mut out, empty, self.seconds > 0, self.seconds as u64, "s");
        empty = empty && !(self.seconds > 0);
        push_part(&mut out, empty, self.milliseconds > 0, self.milliseconds as u64, "ms");
        empty = empty && !(self.milliseconds > 0);
        push_part(&mut out, empty, shows_ns, self.nanoseconds, "ns");
        empty = empty && !shows_ns;
        if empty {
            String::from_str("0ns")
        } else {
            out
        }
    }
}

} // verus!
