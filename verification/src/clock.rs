//! Instants and intervals.

use vstd::prelude::*;

use crate::text::{decimal, push_decimal, push_signed, signed_decimal};

verus! {

broadcast use vstd::string::group_string_axioms;

/// The nanoseconds of a second.
pub const SECOND: i128 = 1_000_000_000;

/// How often a node looks at its timers.
pub const JIFFY: i128 = 1_000_000_000;

/// How long a value is kept that its publisher does not renew.
pub const EXPIRE: i128 = 240_000_000_000;

/// How long a bucket may go without a lookup.
pub const REFRESH: i128 = 40_000_000_000;

/// How long a node waits before it hands its copy of a value on again.
pub const REPLICATE: i128 = 20_000_000_000;

/// How long a publisher waits before it publishes a value again.
pub const REPUBLISH: i128 = 110_000_000_000;

/// An instant, in nanoseconds after the start of 1970 (before it, where negative).
#[derive(Debug, Clone, Copy, PartialEq, Eq, Structural)]
pub struct Timestamp {
    pub nanos: i128,
}

/// The whole seconds of an instant, rounded towards the past.
pub open spec fn whole_seconds(nanos: int) -> int {
    nanos / 1_000_000_000
}

/// The nanoseconds of an instant beyond its whole seconds.
pub open spec fn beyond_seconds(nanos: int) -> nat {
    (nanos % 1_000_000_000) as nat
}

/// How an instant is shown: in the form in which debugging shows a `SystemTime` on Unix, which the
/// standard library does not promise.
pub open spec fn instant_text(t: Timestamp) -> Seq<char> {
    "SystemTime { tv_sec: "@ + signed_decimal(whole_seconds(t.nanos as int)) + ", tv_nsec: "@
        + decimal(beyond_seconds(t.nanos as int)) + " }"@
}

/// The whole milliseconds from the start of 1970 to an instant, none for an earlier one. Of a
/// count that is too large, the 64 low bits stay.
pub open spec fn epoch_millis(t: Timestamp) -> u64 {
    if t.nanos < 0 {
        0
    } else {
        ((t.nanos as nat / 1_000_000) % 0x1_0000_0000_0000_0000) as u64
    }
}

/// The instant that many milliseconds after the start of 1970.
pub open spec fn millis_instant(millis: u64) -> Timestamp {
    Timestamp { nanos: (millis * 1_000_000) as i128 }
}

/// What a reading of the clock says: seconds and nanoseconds after the start of 1970 (`Ok`) or
/// before it (`Err`).
pub open spec fn reading_instant(reading: Result<(u64, u32), (u64, u32)>) -> int {
    match reading {
        Ok((secs, nanos)) => secs * 1_000_000_000 + nanos,
        Err((secs, nanos)) => -(secs * 1_000_000_000 + nanos),
    }
}

/// Whether an instant is one that the clock can give.
pub open spec fn clock_reading(t: Timestamp) -> bool {
    exists|reading: Result<(u64, u32), (u64, u32)>|
        below_second(reading) && t.nanos == #[trigger] reading_instant(reading)
}

/// Whether the part of a reading below a second is less than a second.
pub open spec fn below_second(reading: Result<(u64, u32), (u64, u32)>) -> bool {
    match reading {
        Ok((_, nanos)) => nanos < 1_000_000_000,
        Err((_, nanos)) => nanos < 1_000_000_000,
    }
}

/// Calls `SystemTime::now` and takes the result apart with `duration_since`, `as_secs` and
/// `subsec_nanos`. Trusted: the part below a second is less than a second. What the clock says
/// is left open.
#[verifier::external_body]
fn system_clock() -> (reading: Result<(u64, u32), (u64, u32)>)
    ensures
        below_second(reading),
{
    match std::time::SystemTime::now().duration_since(std::time::UNIX_EPOCH) {
        Ok(after) => Ok((after.as_secs(), after.subsec_nanos())),
        Err(before) => Err((before.duration().as_secs(), before.duration().subsec_nanos())),
    }
}

impl Timestamp {
    /// The instant that a reading of the clock stands for.
    pub fn from_reading(reading: Result<(u64, u32), (u64, u32)>) -> (t: Timestamp)
        ensures
            t.nanos == reading_instant(reading),
    {
        match reading {
            Ok((secs, nanos)) => Timestamp { nanos: secs as i128 * 1_000_000_000 + nanos as i128 },
            Err((secs, nanos)) => Timestamp {
                nanos: -(secs as i128 * 1_000_000_000 + nanos as i128),
            },
        }
    }

    /// The current instant, as far as the clock can tell it.
    pub fn now() -> (t: Timestamp)
        ensures
            clock_reading(t),
            -0x1_0000_0000_0000_0000 * SECOND < t.nanos < 0x1_0000_0000_0000_0000 * SECOND,
    {
        let reading: Result<(u64, u32), (u64, u32)> = system_clock();
        Timestamp::from_reading(reading)
    }

    /// The instant that many milliseconds after the start of 1970.
    pub fn from_millis(millis: u64) -> (t: Timestamp)
        ensures
            t == millis_instant(millis),
    {
        Timestamp { nanos: millis as i128 * 1_000_000 }
    }

    /// The whole milliseconds since the start of 1970, in 64 bits.
    pub fn millis(self) -> (m: u64)
        ensures
            m == epoch_millis(self),
    {
        if self.nanos < 0 {
            0
        } else {
            let m: u128 = self.nanos as u128 / 1_000_000;
            (m % 0x1_0000_0000_0000_0000) as u64
        }
    }

    /// Whether more than `interval` lies between this instant and `now`.
    pub fn older_than(self, interval: i128, now: Timestamp) -> (older: bool)
        requires
            interval >= 0,
        ensures
            older == (self.nanos + interval < now.nanos),
    {
        now.nanos >= i128::MIN + interval && self.nanos < now.nanos - interval
    }

    /// Whether at least `interval` lies between this instant and `now`.
    pub fn as_old_as(self, interval: i128, now: Timestamp) -> (old_enough: bool)
        requires
            interval >= 0,
        ensures
            old_enough == (self.nanos + interval <= now.nanos),
    {
        now.nanos >= i128::MIN + interval && self.nanos <= now.nanos - interval
    }

    /// The later of two instants.
    pub fn later(self, other: Timestamp) -> (t: Timestamp)
        ensures
            t == later_of(self, other),
    {
        if other.nanos > self.nanos {
            other
        } else {
            self
        }
    }

    /// How an instant is shown.
    pub fn to_string(self) -> (s: String)
        ensures
            s@ == instant_text(self),
    {
        let secs: i128;
        let rest: u128;
        if self.nanos >= 0 {
            let n: u128 = self.nanos as u128;
            secs = (n / 1_000_000_000) as i128;
            rest = n % 1_000_000_000;
        } else {
            let n: u128 = (-(self.nanos + 1)) as u128;
            secs = -((n / 1_000_000_000) as i128) - 1;
            rest = 999_999_999 - n % 1_000_000_000;
        }
        assert(secs == whole_seconds(self.nanos as int));
        assert(rest == beyond_seconds(self.nanos as int));
        let mut s: String = "SystemTime { tv_sec: ".to_owned();
        push_signed(&mut s, secs);
        s.append(", tv_nsec: ");
        push_decimal(&mut s, rest);
        s.append(" }");
        s
    }
}

/// The later of two instants.
pub open spec fn later_of(a: Timestamp, b: Timestamp) -> Timestamp {
    if b.nanos > a.nanos {
        b
    } else {
        a
    }
}

/// An instant read back from its milliseconds is the instant cut to the millisecond: nothing
/// after it, and less than a millisecond before it.
pub proof fn millis_read_back(t: Timestamp)
    requires
        0 <= t.nanos,
        t.nanos < 0x1_0000_0000_0000_0000 * 1_000_000,
    ensures
        millis_instant(epoch_millis(t)).nanos <= t.nanos,
        t.nanos < millis_instant(epoch_millis(t)).nanos + 1_000_000,
        t.nanos % 1_000_000 == 0 ==> millis_instant(epoch_millis(t)) == t,
{
}

/// Milliseconds are counted from the start of 1970, cut down; what comes before it counts as none.
pub proof fn milliseconds_are_counted(t: Timestamp, millis: u64)
    ensures
        millis_instant(millis).nanos == millis * 1_000_000,
        t.nanos < 0 ==> epoch_millis(t) == 0,
        0 <= t.nanos < 0x1_0000_0000_0000_0000 * 1_000_000 ==> epoch_millis(t) * 1_000_000
            <= t.nanos < epoch_millis(t) * 1_000_000 + 1_000_000,
        epoch_millis(millis_instant(millis)) == millis,
{
}

/// The later of two instants is one of them, and neither is later.
pub proof fn the_later_is_one_of_both(a: Timestamp, b: Timestamp)
    ensures
        later_of(a, b) == a || later_of(a, b) == b,
        later_of(a, b).nanos >= a.nanos,
        later_of(a, b).nanos >= b.nanos,
        later_of(a, b).nanos == later_of(b, a).nanos,
{
}

/// A reading of the clock is its seconds and nanoseconds, after the start of 1970 or before it.
pub proof fn a_reading_counts_both_ways(secs: u64, nanos: u32)
    ensures
        reading_instant(Ok((secs, nanos))) == secs * 1_000_000_000 + nanos,
        reading_instant(Err((secs, nanos))) == -reading_instant(Ok((secs, nanos))),
{
}

/// An instant is shown as whole seconds, rounded towards the past, and the nanoseconds beyond
/// them, which are less than a second.
pub proof fn an_instant_is_shown_in_two_parts(t: Timestamp)
    ensures
        exists|secs: int, nanos: nat|
            #![trigger signed_decimal(secs), decimal(nanos)]
            {
                &&& t.nanos == secs * 1_000_000_000 + nanos
                &&& nanos < 1_000_000_000
                &&& instant_text(t) == "SystemTime { tv_sec: "@ + signed_decimal(secs)
                    + ", tv_nsec: "@ + decimal(nanos) + " }"@
            },
{
    let secs = whole_seconds(t.nanos as int);
    let nanos = beyond_seconds(t.nanos as int);
    assert(t.nanos == secs * 1_000_000_000 + nanos);
    assert(instant_text(t) == "SystemTime { tv_sec: "@ + signed_decimal(secs) + ", tv_nsec: "@
        + decimal(nanos) + " }"@);
}

} // verus!
