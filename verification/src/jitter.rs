//! Deadline, jitter and the degraded mode that too much jitter leads to.

use crate::duration::{time_between, Duration, MAX_NANOS, NANOS_PER_MILLI};
use crate::stats::total;
use vstd::prelude::*;

verus! {

/// The time within which a packet has to be processed, in milliseconds.
pub const DEADLINE_MS: u64 = 2;

/// Whether a latency of `nanos` nanoseconds exceeds the deadline.
pub open spec fn misses(nanos: nat) -> bool {
    nanos > DEADLINE_MS * NANOS_PER_MILLI
}

/// Tells whether a latency exceeds the deadline.
pub fn misses_deadline(latency: Duration) -> (r: bool)
    ensures
        r == misses(latency@),
{
    latency.as_nanos() > Duration::from_millis(DEADLINE_MS).as_nanos()
}

/// Judges a processing that lasted from `processing_start` to `now`: whether it missed the
/// deadline, and its latency.
pub fn deadline_outcome(processing_start: Duration, now: Duration) -> (outcome: (bool, Duration))
    ensures
        outcome.1@ == time_between(processing_start@, now@),
        outcome.1@ <= MAX_NANOS,
        outcome.0 == misses(outcome.1@),
{
    let latency = Duration::between(processing_start, now);
    (misses_deadline(latency), latency)
}

/// How many of `n` latencies count for the jitter: the size of the window, which is two at
/// least, or all where there are fewer.
pub open spec fn window_len(n: nat, window_size: nat) -> nat {
    let size = if window_size < 2 {
        2
    } else {
        window_size
    };
    if n < size {
        n
    } else {
        size
    }
}

/// The latest latencies, which count for the jitter.
pub open spec fn window(latencies: Seq<Duration>, window_size: nat) -> Seq<Duration> {
    latencies.skip(latencies.len() - window_len(latencies.len(), window_size))
}

/// Whether `deviation` may give `jitter` as the deviation of the samples `w`.
pub open spec fn measured<F: Fn(&[Duration]) -> Duration>(
    deviation: F,
    w: Seq<Duration>,
    jitter: Duration,
) -> bool {
    exists|s: &[Duration]| s@ == w && #[trigger] call_ensures(deviation, (s,), jitter)
}

/// Whether `deviation` can be asked about the samples `w`.
pub open spec fn measurable<F: Fn(&[Duration]) -> Duration>(deviation: F, w: Seq<Duration>) -> bool {
    forall|s: &[Duration]| s@ == w ==> #[trigger] call_requires(deviation, (s,))
}

/// Whether `jitter` may be what is found when `latencies` have been recorded: nothing where
/// there are fewer than two, and else what `deviation` gives for the window.
pub open spec fn jitter_outcome<F: Fn(&[Duration]) -> Duration>(
    deviation: F,
    latencies: Seq<Duration>,
    window_size: nat,
    jitter: Option<Duration>,
) -> bool {
    match jitter {
        None => latencies.len() < 2,
        Some(j) => {
            &&& latencies.len() >= 2
            &&& measured(deviation, window(latencies, window_size), j)
            &&& j@ <= MAX_NANOS
        },
    }
}

/// Records a latency and gives the jitter, which is the deviation of the latest latencies. There
/// is none before the second latency.
pub fn record_jitter<F: Fn(&[Duration]) -> Duration>(
    latencies: &mut Vec<Duration>,
    latency: Duration,
    window_size: usize,
    deviation: F,
) -> (jitter: Option<Duration>)
    requires
        old(latencies).len() > 0 ==> measurable(
            deviation,
            window(old(latencies)@.push(latency), window_size as nat),
        ),
    ensures
        final(latencies)@ == old(latencies)@.push(latency),
        jitter_outcome(deviation, final(latencies)@, window_size as nat, jitter),
        jitter is Some <==> old(latencies).len() > 0,
{
    latencies.push(latency);
    let total_len = latencies.len();
    if total_len < 2 {
        return None;
    }
    let size = if window_size < 2 {
        2
    } else {
        window_size
    };
    let len = if total_len < size {
        total_len
    } else {
        size
    };
    let start = total_len - len;
    let recent = vstd::slice::slice_subrange(latencies.as_slice(), start, total_len);
    assert(recent@ =~= window(latencies@, window_size as nat));
    let jitter = deviation(recent);
    let _nanos = jitter.as_nanos();
    assert(jitter@ <= MAX_NANOS);
    Some(jitter)
}

/// Whether a jitter of `nanos` nanoseconds exceeds a threshold.
pub open spec fn exceeds_threshold(nanos: nat, threshold_ms: u64) -> bool {
    nanos > threshold_ms * NANOS_PER_MILLI
}

/// What is reported when the degraded mode was or was not active, and is or is not active now.
pub open spec fn mode_message(was_active: bool, is_active: bool) -> Option<Seq<char>> {
    if is_active && !was_active {
        Some("[DEGRADED MODE] Jitter threshold exceeded. Prioritizing human packets."@)
    } else if !is_active && was_active {
        Some("[RECOVERED] Jitter back under threshold. Bot packets resumed."@)
    } else {
        None
    }
}

/// Whether a message holds a text, or is missing where there is none.
pub open spec fn says(message: Option<String>, text: Option<Seq<char>>) -> bool {
    match message {
        Some(m) => text == Some(m@),
        None => text is None,
    }
}

/// Enters the degraded mode where the jitter exceeds the threshold, and leaves it where it does
/// not. Gives the message to report where the mode has changed.
pub fn update_degraded_mode(jitter: Duration, threshold_ms: u64, degraded: &mut bool) -> (message:
    Option<String>)
    ensures
        *final(degraded) == exceeds_threshold(jitter@, threshold_ms),
        *final(degraded) <==> jitter@ > threshold_ms * 1_000_000,
        message is Some <==> *final(degraded) != *old(degraded),
        says(message, mode_message(*old(degraded), *final(degraded))),
{
    let threshold = Duration::from_millis(threshold_ms);
    let should_degrade = jitter.as_nanos() > threshold.as_nanos();
    let was_active = *degraded;
    *degraded = should_degrade;
    if should_degrade && !was_active {
        Some(
            "[DEGRADED MODE] Jitter threshold exceeded. Prioritizing human packets.".to_owned(),
        )
    } else if !should_degrade && was_active {
        Some("[RECOVERED] Jitter back under threshold. Bot packets resumed.".to_owned())
    } else {
        None
    }
}

/// The window ends with the latest latency, holds at least two latencies where there are two,
/// and never more than its size, or than two where the size is smaller.
pub proof fn law_window(latencies: Seq<Duration>, latency: Duration, window_size: nat)
    ensures
        ({
            let w = window(latencies.push(latency), window_size);
            &&& w.len() == window_len(latencies.len() + 1, window_size)
            &&& w.len() <= window_size || w.len() <= 2
            &&& latencies.len() > 0 ==> w.len() >= 2
            &&& w.last() == latency
            &&& w.is_suffix_of(latencies.push(latency))
        }),
{
    let all = latencies.push(latency);
    let w = window(all, window_size);
    assert(w =~= all.subrange(all.len() - w.len(), all.len() as int));
}

/// Whether `deviation` is a function of the samples alone: the same samples always give the same
/// deviation.
pub open spec fn one_valued<F: Fn(&[Duration]) -> Duration>(deviation: F) -> bool {
    forall|w: Seq<Duration>, a: Duration, b: Duration| #[trigger]
        measured(deviation, w, a) && #[trigger] measured(deviation, w, b) ==> a == b
}

/// The sum of the squares of the lengths of some spans.
pub open spec fn total_squares(samples: Seq<Duration>) -> nat
    decreases samples.len(),
{
    if samples.len() == 0 {
        0
    } else {
        total_squares(samples.drop_last()) + samples.last()@ * samples.last()@
    }
}

/// The variance of some samples, times the square of their number.
pub open spec fn scaled_variance(samples: Seq<Duration>) -> int {
    samples.len() * total_squares(samples) - total(samples) * total(samples)
}

/// Whether `nanos` is the standard deviation of some samples, rounded to a whole number, and up
/// from halfway: its distance to the square root of the variance is at most a half. Both sides
/// are squared, and multiplied by twice the number of samples before that.
pub open spec fn is_standard_deviation(samples: Seq<Duration>, nanos: nat) -> bool {
    let n = samples.len() as int;
    &&& nanos > 0 ==> ((2 * nanos - 1) * n) * ((2 * nanos - 1) * n) <= 4 * scaled_variance(samples)
    &&& 4 * scaled_variance(samples) < ((2 * nanos + 1) * n) * ((2 * nanos + 1) * n)
}

/// Latencies older than the window have no influence: lists that agree in as many of their latest
/// latencies as the window holds beside the new one have the same window, and so the same possible
/// jitters. Where the deviation is a function of the samples, they have the same jitter.
pub proof fn law_old_latencies_have_no_influence<F: Fn(&[Duration]) -> Duration>(
    a: Seq<Duration>,
    b: Seq<Duration>,
    latency: Duration,
    window_size: nat,
    deviation: F,
)
    requires
        ({
            let k = if window_size < 2 {
                2
            } else {
                window_size
            };
            &&& a.len() >= k - 1
            &&& b.len() >= k - 1
            &&& a.skip(a.len() - (k - 1)) == b.skip(b.len() - (k - 1))
        }),
    ensures
        window(a.push(latency), window_size) == window(b.push(latency), window_size),
        forall|jitter: Option<Duration>|
            jitter_outcome(deviation, a.push(latency), window_size, jitter)
                <==> #[trigger] jitter_outcome(deviation, b.push(latency), window_size, jitter),
        one_valued(deviation) ==> forall|x: Option<Duration>, y: Option<Duration>| #[trigger]
            jitter_outcome(deviation, a.push(latency), window_size, x) && #[trigger]
            jitter_outcome(deviation, b.push(latency), window_size, y) ==> x == y,
{
    let k = if window_size < 2 {
        2
    } else {
        window_size
    };
    let tail = a.skip(a.len() - (k - 1));
    assert(window(a.push(latency), window_size) =~= tail.push(latency));
    assert(window(b.push(latency), window_size) =~= tail.push(latency)) by {
        assert(tail == b.skip(b.len() - (k - 1)));
    }
}

/// The list of two samples.
pub open spec fn two(a: Duration, b: Duration) -> Seq<Duration> {
    seq![a, b]
}

/// A window below two acts as two: it holds the latest latency before the new one, and the new
/// one. Where the deviation is a function of the samples, all such windows give the same jitter.
/// Where it gives the standard deviation of these two, rounded to the nanosecond, the jitter is
/// half of their difference, rounded up.
pub proof fn law_small_windows_act_as_two<F: Fn(&[Duration]) -> Duration>(
    latencies: Seq<Duration>,
    latency: Duration,
    window_size: nat,
    deviation: F,
)
    requires
        latencies.len() > 0,
        window_size <= 2,
    ensures
        window(latencies.push(latency), window_size) == two(latencies.last(), latency),
        forall|jitter: Option<Duration>|
            jitter_outcome(deviation, latencies.push(latency), window_size, jitter)
                <==> #[trigger] jitter_outcome(deviation, latencies.push(latency), 2, jitter),
        one_valued(deviation) ==> forall|x: Option<Duration>, y: Option<Duration>| #[trigger]
            jitter_outcome(deviation, latencies.push(latency), window_size, x) && #[trigger]
            jitter_outcome(deviation, latencies.push(latency), 2, y) ==> x == y,
        (forall|d: Duration| #[trigger]
            measured(deviation, two(latencies.last(), latency), d) ==> is_standard_deviation(
                two(latencies.last(), latency),
                d@,
            )) ==> forall|jitter: Option<Duration>| #[trigger]
            jitter_outcome(deviation, latencies.push(latency), window_size, jitter)
                ==> jitter is Some && (jitter->0)@ == half_difference(latencies.last()@, latency@),
{
    let pair = two(latencies.last(), latency);
    assert(window(latencies.push(latency), window_size) =~= pair);
    assert(window(latencies.push(latency), 2) =~= pair);
    assert forall|d: nat| #[trigger] is_standard_deviation(pair, d) implies d == half_difference(
        latencies.last()@,
        latency@,
    ) by {
        lemma_deviation_of_two(latencies.last(), latency, d);
    }
}

/// Half of the difference of two numbers, rounded up.
pub open spec fn half_difference(a: nat, b: nat) -> nat {
    (time_between(a, b) + time_between(b, a) + 1) as nat / 2
}

proof fn lemma_deviation_of_two(a: Duration, b: Duration, d: nat)
    requires
        is_standard_deviation(two(a, b), d),
    ensures
        d == half_difference(a@, b@),
{
    let pair = two(a, b);
    let x = a@ as int;
    let y = b@ as int;
    assert(pair.drop_last() =~= seq![a]);
    assert(seq![a].drop_last() =~= Seq::<Duration>::empty());
    reveal_with_fuel(total, 3);
    reveal_with_fuel(total_squares, 3);
    assert(total(pair) == x + y);
    assert(total_squares(pair) == x * x + y * y);
    let e: int = if x < y {
        y - x
    } else {
        x - y
    };
    assert(scaled_variance(pair) == e * e) by {
        assert(2 * (x * x + y * y) - (x + y) * (x + y) == e * e) by (nonlinear_arith)
            requires
                e == y - x || e == x - y,
        ;
    }
    let low = 2 * d - 1;
    let high = 2 * d + 1;
    assert(e < high) by (nonlinear_arith)
        requires
            4 * (e * e) < (high * 2) * (high * 2),
            high > 0,
    ;
    if d > 0 {
        assert(low <= e) by (nonlinear_arith)
            requires
                (low * 2) * (low * 2) <= 4 * (e * e),
                low > 0,
                e >= 0,
        ;
    }
}

/// A message comes exactly when the mode changes, so that two equal readings in a row give one
/// message at most.
pub proof fn law_mode_messages(was_active: bool, is_active: bool)
    ensures
        mode_message(was_active, is_active) is Some <==> was_active != is_active,
        mode_message(is_active, is_active) is None,
{
}

/// A latency of two milliseconds keeps the deadline, and any longer one misses it.
pub proof fn law_deadline(nanos: nat)
    ensures
        misses(nanos) <==> nanos > 2_000_000,
{
}

/// For every size the window holds as many of the latest latencies as the size says, but never
/// fewer than two, and all of them where there are no more than that. It holds them in their
/// order, up to the latest.
pub proof fn law_window_is_exact(latencies: Seq<Duration>, window_size: nat)
    ensures
        ({
            let n = latencies.len() as int;
            let k = vstd::math::max(window_size as int, 2);
            let w = window(latencies, window_size);
            &&& w.len() == vstd::math::min(n, k)
            &&& n <= k ==> w == latencies
            &&& n > k ==> latencies.take(n - k) + w == latencies
        }),
{
    let n = latencies.len() as int;
    let k = vstd::math::max(window_size as int, 2);
    let w = window(latencies, window_size);
    if n <= k {
        assert(w =~= latencies);
    } else {
        assert(latencies.take(n - k) + w =~= latencies);
    }
}

/// There is a jitter exactly from the second latency on. It is something that the deviation gives
/// for a slice of samples, and these are the latest latencies: as many as the window size, or two
/// where that is less, or all where there are no more.
pub proof fn law_jitter_is_the_deviation_of_the_latest<F: Fn(&[Duration]) -> Duration>(
    deviation: F,
    latencies: Seq<Duration>,
    window_size: nat,
    jitter: Option<Duration>,
)
    requires
        jitter_outcome(deviation, latencies, window_size, jitter),
    ensures
        jitter is Some <==> latencies.len() >= 2,
        jitter is Some ==> exists|s: &[Duration]|
            {
                &&& #[trigger] call_ensures(deviation, (s,), jitter->0)
                &&& s@.len() == vstd::math::min(
                    latencies.len() as int,
                    vstd::math::max(window_size as int, 2),
                )
                &&& s@ == latencies.skip(latencies.len() - s@.len())
            },
{
    if jitter is Some {
        law_window_is_exact(latencies, window_size);
        let w = window(latencies, window_size);
        let s = choose|s: &[Duration]|
            s@ == w && #[trigger] call_ensures(deviation, (s,), jitter->0);
        assert(call_ensures(deviation, (s,), jitter->0));
        assert(s@ =~= latencies.skip(latencies.len() - s@.len()));
    }
}

/// Whatever threshold is given, a jitter of just as many milliseconds does not exceed it, and one
/// nanosecond more does. A longer jitter exceeds whatever a shorter one exceeds, and a jitter that
/// exceeds a threshold exceeds every lower one.
pub proof fn law_threshold(nanos: nat, longer: nat, threshold_ms: u64, lower: u64)
    requires
        nanos <= longer,
        lower <= threshold_ms,
    ensures
        exceeds_threshold(nanos, threshold_ms) <==> nanos > threshold_ms * 1_000_000,
        !exceeds_threshold((threshold_ms * 1_000_000) as nat, threshold_ms),
        exceeds_threshold((threshold_ms * 1_000_000 + 1) as nat, threshold_ms),
        exceeds_threshold(nanos, threshold_ms) ==> exceeds_threshold(longer, threshold_ms),
        exceeds_threshold(nanos, threshold_ms) ==> exceeds_threshold(nanos, lower),
{
}

/// Entering the degraded mode and leaving it are reported in different words, and what is said
/// depends on nothing but the change of mode.
pub proof fn law_mode_message_texts(message: Option<String>, was_active: bool, is_active: bool)
    requires
        says(message, mode_message(was_active, is_active)),
    ensures
        !was_active && is_active ==> message is Some && (message->0)@
            == "[DEGRADED MODE] Jitter threshold exceeded. Prioritizing human packets."@,
        was_active && !is_active ==> message is Some && (message->0)@
            == "[RECOVERED] Jitter back under threshold. Bot packets resumed."@,
        was_active == is_active ==> message is None,
{
}

} // verus!
