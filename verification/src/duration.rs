//! Spans of time, counted in nanoseconds, and the clock that measures them.

use std::time::Instant;
use vstd::prelude::*;

verus! {

/// The number of nanoseconds in a second.
pub const NANOS_PER_SEC: u128 = 1_000_000_000;

/// The number of nanoseconds in a millisecond.
pub const NANOS_PER_MILLI: u128 = 1_000_000;

/// The longest span: as many whole seconds as a `u64` can count, and one nanosecond less
/// than a further second.
pub const MAX_NANOS: u128 = 18_446_744_073_709_551_615_999_999_999;

/// A span of time. Its view is its length in nanoseconds.
#[derive(Clone, Copy, Debug, PartialEq, Eq)]
pub struct Duration {
    nanos: u128,
}

impl View for Duration {
    type V = nat;

    closed spec fn view(&self) -> nat {
        self.nanos as nat
    }
}

/// The text that the standard library's `Debug` formatting gives a span of `secs` whole seconds
/// and `subsec_nanos` further nanoseconds.
pub uninterp spec fn debug_text(secs: u64, subsec_nanos: u32) -> Seq<char>;

/// How a span of `nanos` nanoseconds is written in a log line.
pub open spec fn duration_text(nanos: nat) -> Seq<char> {
    debug_text((nanos / NANOS_PER_SEC as nat) as u64, (nanos % NANOS_PER_SEC as nat) as u32)
}

/// The nanoseconds from one point in time to a later one, and none where it is not later.
pub open spec fn time_between(earlier: nat, later: nat) -> nat {
    if later > earlier {
        (later - earlier) as nat
    } else {
        0
    }
}

/// Whether no number of a list is less than one before it.
pub open spec fn ascending(s: Seq<nat>) -> bool {
    forall|i: int, j: int| 0 <= i < j < s.len() ==> #[trigger] s[i] <= #[trigger] s[j]
}

/// The longer of two spans, `a` where neither is longer.
pub open spec fn longer_of(a: Duration, b: Duration) -> Duration {
    if b@ > a@ {
        b
    } else {
        a
    }
}

/// Formats with `{:?}` the `std::time::Duration` that `Duration::new` makes of the two parts.
/// Claimed: the text depends on the two parts alone. `Duration::new` panics only where the
/// nanoseconds carry into a number of seconds that overflows, which `requires` rules out.
#[verifier::external_body]
fn debug_format(secs: u64, subsec_nanos: u32) -> (text: String)
    requires
        subsec_nanos < NANOS_PER_SEC,
    ensures
        text@ == debug_text(secs, subsec_nanos),
{
    format!("{:?}", std::time::Duration::new(secs, subsec_nanos))
}

impl Duration {
    #[verifier::type_invariant]
    spec fn in_range(self) -> bool {
        self.nanos <= MAX_NANOS
    }

    /// The span of no length.
    pub fn zero() -> (d: Duration)
        ensures
            d@ == 0,
    {
        Duration { nanos: 0 }
    }

    /// The span of so many whole seconds and further nanoseconds.
    pub fn from_parts(secs: u64, subsec_nanos: u32) -> (d: Duration)
        requires
            subsec_nanos < NANOS_PER_SEC,
        ensures
            d@ == secs * NANOS_PER_SEC + subsec_nanos,
    {
        Duration { nanos: secs as u128 * NANOS_PER_SEC + subsec_nanos as u128 }
    }

    /// The span of so many nanoseconds.
    pub fn from_nanos(nanos: u64) -> (d: Duration)
        ensures
            d@ == nanos,
    {
        Duration { nanos: nanos as u128 }
    }

    /// The span of so many milliseconds.
    pub fn from_millis(millis: u64) -> (d: Duration)
        ensures
            d@ == millis * NANOS_PER_MILLI,
    {
        Duration { nanos: millis as u128 * NANOS_PER_MILLI }
    }

    /// The span of so many seconds.
    pub fn from_secs(secs: u64) -> (d: Duration)
        ensures
            d@ == secs * NANOS_PER_SEC,
    {
        Duration::from_parts(secs, 0)
    }

    /// The length in nanoseconds.
    pub fn as_nanos(&self) -> (n: u128)
        ensures
            n == self@,
            n <= MAX_NANOS,
    {
        proof {
            use_type_invariant(self);
        }
        self.nanos
    }

    /// The whole seconds of the span.
    pub fn as_secs(&self) -> (secs: u64)
        ensures
            secs == self@ / NANOS_PER_SEC as nat,
    {
        proof {
            use_type_invariant(self);
        }
        (self.nanos / NANOS_PER_SEC) as u64
    }

    /// The nanoseconds of the span beyond its whole seconds.
    pub fn subsec_nanos(&self) -> (nanos: u32)
        ensures
            nanos == self@ % NANOS_PER_SEC as nat,
            nanos < NANOS_PER_SEC,
    {
        (self.nanos % NANOS_PER_SEC) as u32
    }

    /// The span as a log line shows it.
    pub fn text(&self) -> (text: String)
        ensures
            text@ == duration_text(self@),
    {
        debug_format(self.as_secs(), self.subsec_nanos())
    }

    /// The time from one point in time to a later one, and none where it is not later.
    pub fn between(earlier: Duration, later: Duration) -> (d: Duration)
        ensures
            d@ == time_between(earlier@, later@),
            d@ <= MAX_NANOS,
    {
        proof {
            use_type_invariant(&later);
        }
        if later.nanos > earlier.nanos {
            Duration { nanos: later.nanos - earlier.nanos }
        } else {
            Duration { nanos: 0 }
        }
    }

    /// Two spans of equal length are the same value.
    pub proof fn lemma_same_length(a: Duration, b: Duration)
        ensures
            a@ == b@ <==> a == b,
    {
    }

    /// The longer of two spans.
    pub fn longer(self, other: Duration) -> (d: Duration)
        ensures
            d == longer_of(self, other),
    {
        if other.nanos > self.nanos {
            other
        } else {
            self
        }
    }
}

/// The standard library's `Instant`, whose value is carried through unseen.
#[verifier::external_type_specification]
#[verifier::external_body]
pub struct ExInstant(Instant);

/// Reads the machine's clock with `Instant::elapsed` and gives the whole seconds and further
/// nanoseconds that have passed since `start`. Claimed: the nanoseconds stay below a second, as
/// `Duration::subsec_nanos` documents. How much time has passed is up to the machine.
#[verifier::external_body]
fn elapsed_parts(start: &Instant) -> (parts: (u64, u32))
    ensures
        parts.1 < NANOS_PER_SEC,
{
    let passed = start.elapsed();
    (passed.as_secs(), passed.subsec_nanos())
}

/// A clock. It tells the time that has passed since it was started, and points in time are given
/// as such readings. A reading is never behind an earlier one.
pub struct Clock {
    start: Instant,
    latest: Duration,
    log: Ghost<Seq<nat>>,
}

impl Clock {
    #[verifier::type_invariant]
    spec fn never_goes_back(self) -> bool {
        &&& ascending(self.log@)
        &&& self.log@.len() > 0 ==> self.log@.last() == self.latest@
    }

    /// The moment at which the clock was started.
    pub closed spec fn started(&self) -> Instant {
        self.start
    }

    /// The readings of the clock so far, in nanoseconds.
    pub closed spec fn readings(&self) -> Seq<nat> {
        self.log@
    }

    /// A clock that was started at the given moment.
    pub fn started_at(start: Instant) -> (clock: Clock)
        ensures
            clock.started() == start,
            clock.readings() == Seq::<nat>::empty(),
    {
        Clock { start, latest: Duration::zero(), log: Ghost(Seq::empty()) }
    }

    /// Reads the clock.
    pub fn now(&mut self) -> (reading: Duration)
        ensures
            reading@ <= MAX_NANOS,
            final(self).started() == old(self).started(),
            final(self).readings() == old(self).readings().push(reading@),
            ascending(final(self).readings()),
    {
        proof {
            use_type_invariant(&*self);
        }
        let (secs, subsec_nanos) = elapsed_parts(&self.start);
        let reading = self.latest.longer(Duration::from_parts(secs, subsec_nanos));
        let _nanos = reading.as_nanos();
        let ghost log = self.log@.push(reading@);
        *self = Clock { start: self.start, latest: reading, log: Ghost(log) };
        reading
    }
}

/// A second is a thousand milliseconds, and a millisecond a million nanoseconds. The longest span
/// is a nanosecond short of one second more than a `u64` can count.
pub proof fn law_units()
    ensures
        NANOS_PER_MILLI == 1_000_000,
        NANOS_PER_SEC == 1_000 * NANOS_PER_MILLI,
        MAX_NANOS + 1 == (u64::MAX + 1) * 1_000_000_000,
{
}

/// The time to a later point, added to the earlier one, leads to the later one, and there is no
/// time to a point that is not later. The times over two stretches in a row add up.
pub proof fn law_time_between(earlier: nat, later: nat, latest: nat)
    ensures
        earlier <= later ==> earlier + time_between(earlier, later) == later,
        earlier >= later ==> time_between(earlier, later) == 0,
        earlier <= later <= latest ==> time_between(earlier, later) + time_between(later, latest)
            == time_between(earlier, latest),
{
}

/// The longer of two spans is one of them, and no shorter than either.
pub proof fn law_longer_of(a: Duration, b: Duration)
    ensures
        longer_of(a, b) == a || longer_of(a, b) == b,
        longer_of(a, b)@ >= a@,
        longer_of(a, b)@ >= b@,
        longer_of(a, b)@ == longer_of(b, a)@,
{
}

/// A span is written as the standard library writes its whole seconds and the nanoseconds beyond
/// them.
pub proof fn law_duration_text(secs: u64, subsec_nanos: u32)
    requires
        subsec_nanos < 1_000_000_000,
    ensures
        duration_text((secs * 1_000_000_000 + subsec_nanos) as nat) == debug_text(
            secs,
            subsec_nanos,
        ),
{
    let nanos = (secs * 1_000_000_000 + subsec_nanos) as nat;
    assert(nanos / 1_000_000_000 == secs);
    assert(nanos % 1_000_000_000 == subsec_nanos);
}

/// A list without numbers ascends, and a list goes on ascending exactly when what is added is no
/// less than its last number.
pub proof fn law_ascending(s: Seq<nat>, next: nat)
    ensures
        ascending(Seq::<nat>::empty()),
        ascending(s.push(next)) <==> ascending(s) && (s.len() > 0 ==> s.last() <= next),
{
    let t = s.push(next);
    if ascending(t) {
        assert forall|i: int, j: int| 0 <= i < j < s.len() implies #[trigger] s[i]
            <= #[trigger] s[j] by {
            assert(t[i] <= t[j]);
        }
        if s.len() > 0 {
            assert(t[s.len() - 1] <= t[s.len() as int]);
        }
    }
    if ascending(s) && (s.len() > 0 ==> s.last() <= next) {
        assert forall|i: int, j: int| 0 <= i < j < t.len() implies #[trigger] t[i]
            <= #[trigger] t[j] by {
            if j == s.len() && i < s.len() - 1 {
                assert(s[i] <= s[s.len() - 1]);
            }
        }
    }
}

} // verus!
