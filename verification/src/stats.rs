//! Running totals of a run, and averages, maxima and percentiles of the recorded samples.

use crate::duration::{longer_of, Duration, MAX_NANOS, NANOS_PER_SEC};
use crate::order::{in_order, sorted, Ordered};
use vstd::prelude::*;

verus! {

/// The sum of the lengths of some spans, in nanoseconds.
pub open spec fn total(samples: Seq<Duration>) -> nat
    decreases samples.len(),
{
    if samples.len() == 0 {
        0
    } else {
        total(samples.drop_last()) + samples.last()@
    }
}

/// The length of the longest of some spans, in nanoseconds, and zero where there is none.
pub open spec fn maximum(samples: Seq<Duration>) -> nat
    decreases samples.len(),
{
    if samples.len() == 0 {
        0
    } else {
        vstd::math::max(maximum(samples.drop_last()) as int, samples.last()@ as int) as nat
    }
}

/// The average of `count` samples of the given sum, rounded down; zero where there are no
/// samples, and the longest span where no span is long enough.
pub open spec fn average(sum_ns: nat, count: nat) -> nat {
    if count == 0 {
        0
    } else if sum_ns / count <= MAX_NANOS {
        sum_ns / count
    } else {
        MAX_NANOS as nat
    }
}

/// Computes the average length of `count` samples whose lengths sum up to `sum_ns`.
pub fn avg_duration(sum_ns: u128, count: u64) -> (d: Duration)
    ensures
        d@ == average(sum_ns as nat, count as nat),
{
    if count == 0 {
        return Duration::from_secs(0);
    }
    let quotient: u128 = sum_ns / count as u128;
    let nanos: u128 = if quotient <= MAX_NANOS {
        quotient
    } else {
        MAX_NANOS
    };
    Duration::from_parts((nanos / NANOS_PER_SEC) as u64, (nanos % NANOS_PER_SEC) as u32)
}

/// The position in a sorted list of `n` samples that lies `percent` hundredths of the way from
/// its first to its last element, rounded to the nearest position, and up from halfway. There is
/// none before the first, and a percentage above a hundred may lead past the last.
pub open spec fn percentile_rank(percent: int, n: nat) -> int {
    if percent <= 0 {
        0
    } else {
        (percent * (n - 1) + 50) / 100
    }
}

/// The order of spans by their length.
pub open spec fn by_length() -> spec_fn(Duration, Duration) -> bool {
    |a: Duration, b: Duration| a@ <= b@
}

/// The sample at a percentile, and nothing where there are no samples or the percentile lies past
/// the last of them.
pub open spec fn percentile(samples: Seq<Duration>, percent: int) -> Option<Duration> {
    let rank = percentile_rank(percent, samples.len());
    if samples.len() == 0 || rank >= samples.len() {
        None
    } else {
        Some(samples.sort_by(by_length())[rank])
    }
}

impl Ordered for Duration {
    open spec fn at_most(self, other: Self) -> bool {
        self@ <= other@
    }

    proof fn lemma_total(a: Self, b: Self) {
    }

    proof fn lemma_transitive(a: Self, b: Self, c: Self) {
    }

    fn is_at_most(self, other: Self) -> (r: bool) {
        self.as_nanos() <= other.as_nanos()
    }
}

/// Sorting leaves one possible result.
proof fn lemma_sorted_samples(samples: Seq<Duration>, ordered: Seq<Duration>)
    requires
        in_order(ordered),
        ordered.to_multiset() == samples.to_multiset(),
    ensures
        samples.sort_by(by_length()) == ordered,
        ordered.len() == samples.len(),
{
    let leq = by_length();
    lemma_by_length_total();
    samples.lemma_sort_by_ensures(leq);
    assert(vstd::relations::sorted_by(ordered, leq)) by {
        assert forall|i: int, j: int| 0 <= i < j < ordered.len() implies #[trigger]
            leq(ordered[i], ordered[j]) by {
            assert(ordered[i].at_most(ordered[j]));
        }
    }
    vstd::seq_lib::lemma_sorted_unique(samples.sort_by(leq), ordered, leq);
    ordered.to_multiset_ensures();
    samples.to_multiset_ensures();
}

/// Ranks ascend with the percentage, and up to a hundred percent they are positions in the list.
proof fn lemma_rank(percent: int, higher: int, n: nat)
    requires
        percent <= higher,
        n > 0,
    ensures
        0 <= percentile_rank(percent, n) <= percentile_rank(higher, n),
        percent <= 100 ==> percentile_rank(percent, n) < n,
        n == 1 ==> percentile_rank(percent, n) == 0,
{
    if percent > 0 {
        assert(0 <= percent * (n - 1) <= higher * (n - 1)) by (nonlinear_arith)
            requires
                0 < percent <= higher,
                n > 0,
        ;
        if percent <= 100 {
            assert(percent * (n - 1) <= 100 * (n - 1)) by (nonlinear_arith)
                requires
                    percent <= 100,
                    n > 0,
            ;
        }
        if n == 1 {
            assert(percent * (n - 1) == 0) by (nonlinear_arith)
                requires
                    n == 1,
            ;
        }
    } else if higher > 0 {
        assert(0 <= higher * (n - 1)) by (nonlinear_arith)
            requires
                0 < higher,
                n > 0,
        ;
    }
}

/// Finds the sample at a percentile.
pub fn percentile_duration(samples: &[Duration], percent: i64) -> (d: Option<Duration>)
    ensures
        d == percentile(samples@, percent as int),
{
    if samples.len() == 0 {
        return None;
    }
    let ordered = sorted(samples);
    proof {
        lemma_sorted_samples(samples@, ordered@);
    }
    if percent <= 0 {
        return Some(ordered[0]);
    }
    let share: u128 = percent as u128;
    let last: u128 = samples.len() as u128 - 1;
    assert(share * last <= 0x7fff_ffff_ffff_ffff * 0xffff_ffff_ffff_ffff) by (nonlinear_arith)
        requires
            share <= 0x7fff_ffff_ffff_ffff,
            last <= 0xffff_ffff_ffff_ffff,
    ;
    let rank: u128 = (share * last + 50) / 100;
    if rank < samples.len() as u128 {
        Some(ordered[rank as usize])
    } else {
        None
    }
}

/// Adds up the lengths of some spans.
pub fn sum_nanos(samples: &[Duration]) -> (sum_ns: u128)
    requires
        total(samples@) <= u128::MAX,
    ensures
        sum_ns == total(samples@),
{
    let mut sum_ns: u128 = 0;
    let mut i: usize = 0;
    assert(samples@.take(0) =~= Seq::<Duration>::empty());
    while i < samples.len()
        invariant
            i <= samples.len(),
            sum_ns == total(samples@.take(i as int)),
            total(samples@) <= u128::MAX,
        decreases samples.len() - i,
    {
        proof {
            assert(samples@.take(i + 1).drop_last() =~= samples@.take(i as int));
            lemma_total_of_prefix(samples@, i + 1);
        }
        sum_ns = sum_ns + samples[i].as_nanos();
        i += 1;
    }
    assert(samples@.take(i as int) =~= samples@);
    sum_ns
}

/// Finds the longest of some spans, or the span of no length where there is none.
pub fn max_duration(samples: &[Duration]) -> (d: Duration)
    ensures
        d@ == maximum(samples@),
{
    let mut longest = Duration::from_secs(0);
    let mut i: usize = 0;
    assert(samples@.take(0) =~= Seq::<Duration>::empty());
    while i < samples.len()
        invariant
            i <= samples.len(),
            longest@ == maximum(samples@.take(i as int)),
        decreases samples.len() - i,
    {
        assert(samples@.take(i + 1).drop_last() =~= samples@.take(i as int));
        longest = longest.longer(samples[i]);
        i += 1;
    }
    assert(samples@.take(i as int) =~= samples@);
    longest
}

/// Running totals over the packets of a run.
#[derive(Clone, Copy, Debug, PartialEq, Eq)]
pub struct RunStats {
    /// The packets recorded.
    pub total_packets: u64,
    /// Those of them that missed the deadline.
    pub total_violations: u64,
    /// The sum of their drifts, in nanoseconds.
    pub drift_sum_ns: u128,
    /// The sum of their latencies, in nanoseconds.
    pub latency_sum_ns: u128,
    /// The sum of the jitters recorded, in nanoseconds.
    pub jitter_sum_ns: u128,
    /// The number of jitters recorded.
    pub jitter_samples: u64,
    /// The longest drift.
    pub max_drift: Duration,
    /// The longest latency.
    pub max_latency: Duration,
    /// The longest jitter.
    pub max_jitter: Duration,
}

impl Default for RunStats {
    fn default() -> (stats: RunStats)
        ensures
            stats.total_packets == 0,
            stats.total_violations == 0,
            stats.drift_sum_ns == 0,
            stats.latency_sum_ns == 0,
            stats.jitter_sum_ns == 0,
            stats.jitter_samples == 0,
            stats.max_drift@ == 0,
            stats.max_latency@ == 0,
            stats.max_jitter@ == 0,
            stats.in_proportion(),
    {
        RunStats {
            total_packets: 0,
            total_violations: 0,
            drift_sum_ns: 0,
            latency_sum_ns: 0,
            jitter_sum_ns: 0,
            jitter_samples: 0,
            max_drift: Duration::zero(),
            max_latency: Duration::zero(),
            max_jitter: Duration::zero(),
        }
    }
}

impl RunStats {
    /// Whether one more packet can be recorded without a total running out of its range.
    pub open spec fn can_record(
        self,
        drift: Duration,
        latency: Duration,
        violated: bool,
        jitter: Option<Duration>,
    ) -> bool {
        &&& self.total_packets < u64::MAX
        &&& self.drift_sum_ns + drift@ <= u128::MAX
        &&& self.latency_sum_ns + latency@ <= u128::MAX
        &&& violated ==> self.total_violations < u64::MAX
        &&& jitter matches Some(j) ==> {
            &&& self.jitter_samples < u64::MAX
            &&& self.jitter_sum_ns + j@ <= u128::MAX
        }
    }

    /// The totals after one more packet.
    pub open spec fn recorded(
        self,
        drift: Duration,
        latency: Duration,
        violated: bool,
        jitter: Option<Duration>,
    ) -> RunStats {
        RunStats {
            total_packets: (self.total_packets + 1) as u64,
            total_violations: (self.total_violations + if violated {
                1int
            } else {
                0
            }) as u64,
            drift_sum_ns: (self.drift_sum_ns + drift@) as u128,
            latency_sum_ns: (self.latency_sum_ns + latency@) as u128,
            jitter_sum_ns: (self.jitter_sum_ns + if jitter is Some {
                jitter->0@
            } else {
                0
            }) as u128,
            jitter_samples: (self.jitter_samples + if jitter is Some {
                1int
            } else {
                0
            }) as u64,
            max_drift: longer_of(self.max_drift, drift),
            max_latency: longer_of(self.max_latency, latency),
            max_jitter: if jitter is Some {
                longer_of(self.max_jitter, jitter->0)
            } else {
                self.max_jitter
            },
        }
    }

    /// Adds a packet to the totals.
    pub fn record(
        &mut self,
        drift: Duration,
        latency: Duration,
        violated: bool,
        jitter: Option<Duration>,
    )
        requires
            old(self).can_record(drift, latency, violated, jitter),
        ensures
            *final(self) == old(self).recorded(drift, latency, violated, jitter),
    {
        self.total_packets += 1;
        self.drift_sum_ns += drift.as_nanos();
        self.latency_sum_ns += latency.as_nanos();
        self.max_drift = self.max_drift.longer(drift);
        self.max_latency = self.max_latency.longer(latency);
        if violated {
            self.total_violations += 1;
        }
        if let Some(j) = jitter {
            self.jitter_samples += 1;
            self.jitter_sum_ns += j.as_nanos();
            self.max_jitter = self.max_jitter.longer(j);
        }
    }
}

/// What is recorded of a packet.
pub struct Measurement {
    pub drift: Duration,
    pub latency: Duration,
    pub violated: bool,
    pub jitter: Option<Duration>,
}

impl RunStats {
    /// Whether a packet of these measurements can be recorded.
    pub open spec fn can_take(self, m: Measurement) -> bool {
        self.can_record(m.drift, m.latency, m.violated, m.jitter)
    }

    /// The totals after a packet of these measurements.
    pub open spec fn taking(self, m: Measurement) -> RunStats {
        self.recorded(m.drift, m.latency, m.violated, m.jitter)
    }

    /// The totals after some packets, one after the other.
    pub open spec fn taking_all(self, packets: Seq<Measurement>) -> RunStats
        decreases packets.len(),
    {
        if packets.len() == 0 {
            self
        } else {
            self.taking_all(packets.drop_last()).taking(packets.last())
        }
    }

    /// Whether some packets can be recorded one after the other.
    pub open spec fn can_take_all(self, packets: Seq<Measurement>) -> bool
        decreases packets.len(),
    {
        packets.len() > 0 ==> {
            &&& self.can_take_all(packets.drop_last())
            &&& self.taking_all(packets.drop_last()).can_take(packets.last())
        }
    }

    /// Whether every maximum is at most its sum, and the sum at most the maximum times the number
    /// of samples.
    pub open spec fn in_proportion(self) -> bool {
        &&& self.max_drift@ <= self.drift_sum_ns <= self.total_packets * self.max_drift@
        &&& self.max_latency@ <= self.latency_sum_ns <= self.total_packets * self.max_latency@
        &&& self.max_jitter@ <= self.jitter_sum_ns <= self.jitter_samples * self.max_jitter@
        &&& self.jitter_samples <= self.total_packets
        &&& self.total_violations <= self.total_packets
    }
}

/// The order in which two packets are recorded makes no difference.
pub proof fn law_recording_commutes(stats: RunStats, a: Measurement, b: Measurement)
    requires
        stats.can_take(a),
        stats.taking(a).can_take(b),
    ensures
        stats.can_take(b),
        stats.taking(b).can_take(a),
        stats.taking(a).taking(b) == stats.taking(b).taking(a),
{
    lemma_longer_commutes(stats.max_drift, a.drift, b.drift);
    lemma_longer_commutes(stats.max_latency, a.latency, b.latency);
    if a.jitter is Some && b.jitter is Some {
        lemma_longer_commutes(stats.max_jitter, a.jitter->0, b.jitter->0);
    }
}

/// The order in which any number of packets is recorded makes no difference to the totals.
pub proof fn law_order_of_recording_is_irrelevant(
    stats: RunStats,
    a: Seq<Measurement>,
    b: Seq<Measurement>,
)
    requires
        a.to_multiset() == b.to_multiset(),
        stats.can_take_all(a),
    ensures
        stats.can_take_all(b),
        stats.taking_all(a) == stats.taking_all(b),
    decreases b.len(),
{
    a.to_multiset_ensures();
    b.to_multiset_ensures();
    assert(a.len() == b.len());
    if b.len() > 0 {
        let last = b.len() - 1;
        assert(b.contains(b[last]));
        assert(a.to_multiset().count(b[last]) > 0);
        assert(a.contains(b[last]));
        let i = choose|i: int| 0 <= i < a.len() && a[i] == b[last];
        assert(b.remove(last) =~= b.drop_last());
        assert(a.remove(i).to_multiset() == b.drop_last().to_multiset());
        lemma_record_last(stats, a, i);
        law_order_of_recording_is_irrelevant(stats, a.remove(i), b.drop_last());
    }
}

/// Any packet may be recorded last.
proof fn lemma_record_last(stats: RunStats, packets: Seq<Measurement>, i: int)
    requires
        0 <= i < packets.len(),
        stats.can_take_all(packets),
    ensures
        stats.can_take_all(packets.remove(i)),
        stats.taking_all(packets.remove(i)).can_take(packets[i]),
        stats.taking_all(packets) == stats.taking_all(packets.remove(i)).taking(packets[i]),
    decreases packets.len(),
{
    let front = packets.drop_last();
    let rest = packets.remove(i);
    if i == packets.len() - 1 {
        assert(rest =~= front);
    } else {
        lemma_record_last(stats, front, i);
        assert(rest.drop_last() =~= front.remove(i));
        assert(rest.last() == packets.last());
        law_recording_commutes(stats.taking_all(front.remove(i)), packets[i], packets.last());
    }
}

/// Whatever packets a run has recorded, in whatever order, each maximum is at most its sum, and
/// the sum at most the maximum times the number of samples.
pub proof fn law_totals_in_proportion(start: RunStats, packets: Seq<Measurement>)
    requires
        start.in_proportion(),
        start.can_take_all(packets),
    ensures
        start.taking_all(packets).in_proportion(),
    decreases packets.len(),
{
    if packets.len() > 0 {
        law_totals_in_proportion(start, packets.drop_last());
        let s = start.taking_all(packets.drop_last());
        let m = packets.last();
        lemma_proportion(s.drift_sum_ns as nat, s.total_packets as nat, s.max_drift, m.drift);
        lemma_proportion(s.latency_sum_ns as nat, s.total_packets as nat, s.max_latency, m.latency);
        if m.jitter is Some {
            lemma_proportion(
                s.jitter_sum_ns as nat,
                s.jitter_samples as nat,
                s.max_jitter,
                m.jitter->0,
            );
        }
    }
}

proof fn lemma_proportion(sum: nat, count: nat, longest: Duration, next: Duration)
    requires
        longest@ <= sum <= count * longest@,
    ensures
        longer_of(longest, next)@ <= sum + next@ <= (count + 1) * longer_of(longest, next)@,
{
    let m = longer_of(longest, next)@;
    assert(count * longest@ + next@ <= (count + 1) * m) by (nonlinear_arith)
        requires
            longest@ <= m,
            next@ <= m,
    ;
}

proof fn lemma_longer_commutes(m: Duration, a: Duration, b: Duration)
    ensures
        longer_of(longer_of(m, a), b) == longer_of(longer_of(m, b), a),
{
    Duration::lemma_same_length(a, b);
}

/// A prefix of a list sums up to no more than the list.
proof fn lemma_total_of_prefix(samples: Seq<Duration>, n: int)
    requires
        0 <= n <= samples.len(),
    ensures
        total(samples.take(n)) <= total(samples),
    decreases samples.len() - n,
{
    if n < samples.len() {
        lemma_total_of_prefix(samples, n + 1);
        assert(samples.take(n + 1).drop_last() =~= samples.take(n));
    } else {
        assert(samples.take(n) =~= samples);
    }
}

/// What a report shows of one list of samples.
#[derive(Clone, Copy, Debug, PartialEq, Eq)]
pub struct Summary {
    /// The average.
    pub avg: Duration,
    /// The maximum, and the span of no length where there are no samples.
    pub max: Duration,
    /// The 50th, 90th and 99th percentile, where there are samples.
    pub percentiles: Option<(Duration, Duration, Duration)>,
}

/// The three percentiles of some samples that a report shows.
pub open spec fn percentiles(samples: Seq<Duration>) -> Option<(Duration, Duration, Duration)> {
    if samples.len() == 0 {
        None
    } else {
        Some(
            (
                percentile(samples, 50)->0,
                percentile(samples, 90)->0,
                percentile(samples, 99)->0,
            ),
        )
    }
}

impl Summary {
    /// Whether this is the summary of `samples`, with the average taken over `count` of them.
    pub open spec fn of(self, samples: Seq<Duration>, count: nat) -> bool {
        &&& self.avg@ == average(total(samples), count)
        &&& self.max@ == maximum(samples)
        &&& self.percentiles == percentiles(samples)
    }
}

/// Summarizes some samples. The average is taken over `count` samples, whatever the length of
/// the list.
pub fn summarize(samples: &[Duration], count: u64) -> (summary: Summary)
    requires
        total(samples@) <= u128::MAX,
    ensures
        summary.of(samples@, count as nat),
{
    let p50 = percentile_duration(samples, 50);
    let p90 = percentile_duration(samples, 90);
    let p99 = percentile_duration(samples, 99);
    proof {
        if samples.len() > 0 {
            lemma_rank(50, 50, samples@.len());
            lemma_rank(90, 90, samples@.len());
            lemma_rank(99, 99, samples@.len());
        }
    }
    Summary {
        avg: avg_duration(sum_nanos(samples), count),
        max: max_duration(samples),
        percentiles: match (p50, p90, p99) {
            (Some(p50), Some(p90), Some(p99)) => Some((p50, p90, p99)),
            _ => None,
        },
    }
}

/// No sample exceeds the maximum, and the maximum of a list that is not empty is one of its
/// samples.
pub proof fn law_maximum(samples: Seq<Duration>)
    ensures
        forall|i: int| 0 <= i < samples.len() ==> (#[trigger] samples[i])@ <= maximum(samples),
        samples.len() > 0 ==> exists|i: int|
            0 <= i < samples.len() && (#[trigger] samples[i])@ == maximum(samples),
    decreases samples.len(),
{
    if samples.len() > 0 {
        let front = samples.drop_last();
        law_maximum(front);
        assert forall|i: int| 0 <= i < samples.len() implies (#[trigger] samples[i])@ <= maximum(
            samples,
        ) by {
            if i < front.len() {
                assert(samples[i] == front[i]);
            }
        }
        if maximum(front) <= samples.last()@ {
            assert(samples[samples.len() - 1]@ == maximum(samples));
        } else {
            let i = choose|i: int| 0 <= i < front.len() && (#[trigger] front[i])@ == maximum(front);
            assert(samples[i]@ == maximum(samples));
        }
    }
}

/// A percentile is one of the samples, and up to a hundred percent every list that is not empty
/// has one. A single sample answers every percentile.
pub proof fn law_percentile_is_a_sample(samples: Seq<Duration>, percent: int)
    ensures
        percentile(samples, percent) is Some ==> samples.contains(percentile(samples, percent)->0),
        samples.len() == 0 ==> percentile(samples, percent) is None,
        samples.len() > 0 && percent <= 100 ==> percentile(samples, percent) is Some,
        samples.len() == 1 ==> percentile(samples, percent) == Some(samples[0]),
{
    if samples.len() > 0 {
        lemma_order_of_samples(samples);
        lemma_rank(percent, percent, samples.len());
        if percentile(samples, percent) is Some {
            let ordered = samples.sort_by(by_length());
            let d = ordered[percentile_rank(percent, samples.len())];
            assert(ordered.contains(d));
            assert(samples.contains(d)) by {
                if !samples.contains(d) {
                    assert(!ordered.contains(d));
                }
            }
        }
    }
}

/// A higher percentile is no shorter than a lower one, and where the list has the higher one it
/// has the lower one too.
pub proof fn law_percentile_monotone(samples: Seq<Duration>, p: int, q: int)
    requires
        p <= q,
        percentile(samples, q) is Some,
    ensures
        percentile(samples, p) is Some,
        (percentile(samples, p)->0)@ <= (percentile(samples, q)->0)@,
{
    let n = samples.len();
    lemma_order_of_samples(samples);
    lemma_rank(p, q, n);
    let ordered = samples.sort_by(by_length());
    let leq = by_length();
    let low = percentile_rank(p, n);
    let high = percentile_rank(q, n);
    assert(low < high ==> leq(ordered[low], ordered[high]));
}

/// From zero percent down a percentile is the shortest sample, and at a hundred percent it is the
/// longest.
pub proof fn law_percentile_ends(samples: Seq<Duration>, percent: int)
    requires
        samples.len() > 0,
        percent <= 0,
    ensures
        forall|i: int|
            0 <= i < samples.len() ==> (percentile(samples, percent)->0)@ <= (
            #[trigger] samples[i])@,
        (percentile(samples, 100)->0)@ == maximum(samples),
{
    let n = samples.len();
    let ordered = samples.sort_by(by_length());
    let leq = by_length();
    lemma_order_of_samples(samples);
    samples.to_multiset_ensures();
    ordered.to_multiset_ensures();
    assert(percentile_rank(100, n) == n - 1);
    assert forall|i: int| 0 <= i < n implies ordered[0]@ <= (#[trigger] samples[i])@
        && samples[i]@ <= ordered[n - 1]@ by {
        assert(samples.contains(samples[i]));
        assert(ordered.to_multiset().count(samples[i]) > 0);
        assert(ordered.contains(samples[i]));
        let k = choose|k: int| 0 <= k < n && ordered[k] == samples[i];
        assert(0 < k ==> leq(ordered[0], ordered[k]));
        assert(k < n - 1 ==> leq(ordered[k], ordered[n - 1]));
    }
    law_maximum(samples);
    law_percentile_is_a_sample(samples, 100);
}

/// The percentiles that a report shows ascend, and none exceeds the maximum.
pub proof fn law_percentiles_ascend(samples: Seq<Duration>)
    requires
        samples.len() > 0,
    ensures
        percentiles(samples) is Some,
        (percentiles(samples)->0).0@ <= (percentiles(samples)->0).1@,
        (percentiles(samples)->0).1@ <= (percentiles(samples)->0).2@,
        (percentiles(samples)->0).2@ <= maximum(samples),
{
    law_percentile_is_a_sample(samples, 100);
    law_percentile_monotone(samples, 99, 100);
    law_percentile_monotone(samples, 90, 99);
    law_percentile_monotone(samples, 50, 90);
    law_percentile_ends(samples, 0);
}

/// The order of the samples makes no difference: lists of the same samples have the same number
/// of them, the same sum and maximum, and the same percentiles.
pub proof fn law_order_of_samples_is_irrelevant(a: Seq<Duration>, b: Seq<Duration>)
    requires
        a.to_multiset() == b.to_multiset(),
    ensures
        a.len() == b.len(),
        total(a) == total(b),
        maximum(a) == maximum(b),
        forall|p: int| percentile(a, p) == #[trigger] percentile(b, p),
        percentiles(a) == percentiles(b),
{
    a.to_multiset_ensures();
    b.to_multiset_ensures();
    lemma_order_of_samples(a);
    lemma_order_of_samples(b);
    vstd::seq_lib::lemma_sorted_unique(
        a.sort_by(by_length()),
        b.sort_by(by_length()),
        by_length(),
    );
    lemma_permuted_total(a, b);
    law_maximum(a);
    law_maximum(b);
    if a.len() > 0 {
        let i = choose|i: int| 0 <= i < a.len() && (#[trigger] a[i])@ == maximum(a);
        assert(a.contains(a[i]));
        assert(b.to_multiset().count(a[i]) > 0);
        assert(b.contains(a[i]));
        let j = choose|j: int| 0 <= j < b.len() && (#[trigger] b[j])@ == maximum(b);
        assert(b.contains(b[j]));
        assert(a.to_multiset().count(b[j]) > 0);
        assert(a.contains(b[j]));
    }
}

proof fn lemma_total_remove(s: Seq<Duration>, i: int)
    requires
        0 <= i < s.len(),
    ensures
        total(s) == total(s.remove(i)) + s[i]@,
    decreases s.len(),
{
    if i == s.len() - 1 {
        assert(s.remove(i) =~= s.drop_last());
    } else {
        lemma_total_remove(s.drop_last(), i);
        assert(s.remove(i).drop_last() =~= s.drop_last().remove(i));
    }
}

proof fn lemma_permuted_total(a: Seq<Duration>, b: Seq<Duration>)
    requires
        a.to_multiset() == b.to_multiset(),
    ensures
        total(a) == total(b),
    decreases a.len(),
{
    a.to_multiset_ensures();
    b.to_multiset_ensures();
    assert(a.len() == b.len());
    if a.len() > 0 {
        let last = a.len() - 1;
        assert(a.contains(a[last]));
        assert(b.to_multiset().count(a[last]) > 0);
        assert(b.contains(a[last]));
        let i = choose|i: int| 0 <= i < b.len() && b[i] == a[last];
        assert(a.remove(last).to_multiset() == b.remove(i).to_multiset());
        lemma_permuted_total(a.remove(last), b.remove(i));
        lemma_total_remove(a, last);
        lemma_total_remove(b, i);
    }
}

/// The average of a list over all its samples does not exceed the maximum.
pub proof fn law_average_at_most_maximum(samples: Seq<Duration>)
    ensures
        average(total(samples), samples.len()) <= maximum(samples),
{
    let n = samples.len();
    if n > 0 {
        lemma_total_bound(samples);
        let q = total(samples) / n;
        assert(q <= maximum(samples)) by (nonlinear_arith)
            requires
                n > 0,
                q == total(samples) / n,
                total(samples) <= maximum(samples) * n,
        ;
    }
}

proof fn lemma_total_bound(samples: Seq<Duration>)
    ensures
        total(samples) <= maximum(samples) * samples.len(),
    decreases samples.len(),
{
    if samples.len() > 0 {
        let front = samples.drop_last();
        lemma_total_bound(front);
        let m = maximum(samples);
        assert(maximum(front) * front.len() + m <= m * samples.len()) by (nonlinear_arith)
            requires
                maximum(front) <= m,
                front.len() + 1 == samples.len(),
        ;
    }
}

proof fn lemma_order_of_samples(samples: Seq<Duration>)
    ensures
        vstd::relations::total_ordering(by_length()),
        vstd::relations::sorted_by(samples.sort_by(by_length()), by_length()),
        samples.sort_by(by_length()).to_multiset() == samples.to_multiset(),
        samples.sort_by(by_length()).len() == samples.len(),
        forall|x: Duration|
            !samples.contains(x) ==> !(#[trigger] samples.sort_by(by_length()).contains(x)),
{
    lemma_by_length_total();
    samples.lemma_sort_by_ensures(by_length());
    samples.to_multiset_ensures();
    samples.sort_by(by_length()).to_multiset_ensures();
}

proof fn lemma_by_length_total()
    ensures
        vstd::relations::total_ordering(by_length()),
{
    let leq = by_length();
    assert forall|a: Duration, b: Duration| #[trigger]
        leq(a, b) && #[trigger] leq(b, a) implies a == b by {
        Duration::lemma_same_length(a, b);
    }
}

/// No samples have no sum and no maximum. A further sample adds its length to the sum, and
/// becomes the maximum where it is longer.
pub proof fn law_total_and_maximum(samples: Seq<Duration>, next: Duration)
    ensures
        total(Seq::<Duration>::empty()) == 0,
        maximum(Seq::<Duration>::empty()) == 0,
        total(samples.push(next)) == total(samples) + next@,
        next@ >= maximum(samples) ==> maximum(samples.push(next)) == next@,
        next@ <= maximum(samples) ==> maximum(samples.push(next)) == maximum(samples),
{
    assert(samples.push(next).drop_last() =~= samples);
}

/// An average is the largest whole number that, taken as often as there are samples, does not
/// exceed their sum. No samples average to nothing, and no average exceeds the longest span.
pub proof fn law_average(sum_ns: nat, count: nat)
    requires
        count > 0,
    ensures
        average(sum_ns, 0) == 0,
        average(sum_ns, count) * count <= sum_ns,
        average(sum_ns, count) < 18_446_744_073_709_551_615_999_999_999 ==> sum_ns < (average(
            sum_ns,
            count,
        ) + 1) * count,
        average(sum_ns, count) <= 18_446_744_073_709_551_615_999_999_999,
        average(sum_ns, 1) == sum_ns || sum_ns > 18_446_744_073_709_551_615_999_999_999,
{
    let q = sum_ns / count;
    assert(q * count <= sum_ns < (q + 1) * count) by (nonlinear_arith)
        requires
            count > 0,
            q == sum_ns / count,
    ;
    assert(q >= MAX_NANOS ==> MAX_NANOS * count <= q * count) by (nonlinear_arith);
}

/// The rank of a percentile is the position nearest to the given share of the way from the first
/// to the last sample, the higher one from halfway, and the first from zero percent down.
pub proof fn law_percentile_rank(percent: int, n: nat)
    requires
        n > 0,
    ensures
        percent <= 0 ==> percentile_rank(percent, n) == 0,
        percent > 0 ==> 100 * percentile_rank(percent, n) - 50 <= percent * (n - 1) < 100
            * percentile_rank(percent, n) + 50,
{
}

/// Whatever way the samples are put into ascending order, the percentile is the sample at the
/// nearest position, and there is none where that lies past the end.
pub proof fn law_percentile(samples: Seq<Duration>, ordered: Seq<Duration>, percent: int, rank: int)
    requires
        samples.len() > 0,
        ordered.to_multiset() == samples.to_multiset(),
        forall|i: int, j: int|
            0 <= i < j < ordered.len() ==> (#[trigger] ordered[i])@ <= (#[trigger] ordered[j])@,
        percent <= 0 ==> rank == 0,
        percent > 0 ==> 100 * rank - 50 <= percent * (samples.len() - 1) < 100 * rank + 50,
    ensures
        rank < samples.len() ==> percentile(samples, percent) == Some(ordered[rank]),
        rank >= samples.len() ==> percentile(samples, percent) is None,
{
    assert(in_order(ordered)) by {
        assert forall|i: int, j: int| 0 <= i < j < ordered.len() implies #[trigger] ordered[i]
            .at_most(#[trigger] ordered[j]) by {
            assert(ordered[i]@ <= ordered[j]@);
        }
    }
    lemma_sorted_samples(samples, ordered);
}

/// A report shows the percentiles at fifty, ninety and ninety-nine percent, in this order.
pub proof fn law_percentiles(samples: Seq<Duration>)
    ensures
        samples.len() == 0 ==> percentiles(samples) is None,
        samples.len() > 0 ==> {
            &&& percentiles(samples) is Some
            &&& percentile(samples, 50) == Some((percentiles(samples)->0).0)
            &&& percentile(samples, 90) == Some((percentiles(samples)->0).1)
            &&& percentile(samples, 99) == Some((percentiles(samples)->0).2)
        },
{
    law_percentile_is_a_sample(samples, 50);
    law_percentile_is_a_sample(samples, 90);
    law_percentile_is_a_sample(samples, 99);
}

/// A summary shows the sum over the given number, the length of the longest sample, and the
/// percentiles.
pub proof fn law_summary(summary: Summary, samples: Seq<Duration>, count: nat)
    requires
        summary.of(samples, count),
    ensures
        count > 0 && total(samples) / count <= MAX_NANOS ==> summary.avg@ == total(samples) / count,
        count == 0 ==> summary.avg@ == 0,
        forall|i: int| 0 <= i < samples.len() ==> (#[trigger] samples[i])@ <= summary.max@,
        samples.len() > 0 ==> exists|i: int|
            0 <= i < samples.len() && (#[trigger] samples[i])@ == summary.max@,
        samples.len() == 0 ==> summary.max@ == 0 && summary.percentiles is None,
        samples.len() > 0 ==> {
            &&& summary.percentiles is Some
            &&& percentile(samples, 50) == Some((summary.percentiles->0).0)
            &&& percentile(samples, 90) == Some((summary.percentiles->0).1)
            &&& percentile(samples, 99) == Some((summary.percentiles->0).2)
        },
        count == samples.len() ==> summary.avg@ <= summary.max@,
{
    law_maximum(samples);
    law_percentiles(samples);
    law_average_at_most_maximum(samples);
}

/// A packet counts as one, and as one violation where it is one. It adds its drift and its latency
/// to their sums, and a jitter, where there is one, to the sum and the number of jitters. Each
/// maximum becomes the larger of what it was and what was added. Nothing is lost to the range of a
/// total exactly where the packet can be recorded.
pub proof fn law_recorded(
    stats: RunStats,
    drift: Duration,
    latency: Duration,
    violated: bool,
    jitter: Option<Duration>,
)
    ensures
        stats.can_record(drift, latency, violated, jitter) <==> {
            &&& stats.total_packets + 1 <= u64::MAX
            &&& stats.drift_sum_ns + drift@ <= u128::MAX
            &&& stats.latency_sum_ns + latency@ <= u128::MAX
            &&& violated ==> stats.total_violations + 1 <= u64::MAX
            &&& jitter is Some ==> stats.jitter_samples + 1 <= u64::MAX
            &&& jitter is Some ==> stats.jitter_sum_ns + (jitter->0)@ <= u128::MAX
        },
        stats.can_record(drift, latency, violated, jitter) ==> {
            let after = stats.recorded(drift, latency, violated, jitter);
            &&& after.total_packets - stats.total_packets == 1
            &&& after.total_violations - stats.total_violations == if violated {
                1int
            } else {
                0
            }
            &&& after.drift_sum_ns - stats.drift_sum_ns == drift@
            &&& after.latency_sum_ns - stats.latency_sum_ns == latency@
            &&& after.max_drift@ == vstd::math::max(stats.max_drift@ as int, drift@ as int)
            &&& after.max_latency@ == vstd::math::max(stats.max_latency@ as int, latency@ as int)
            &&& jitter is Some ==> {
                &&& after.jitter_samples - stats.jitter_samples == 1
                &&& after.jitter_sum_ns - stats.jitter_sum_ns == (jitter->0)@
                &&& after.max_jitter@ == vstd::math::max(
                    stats.max_jitter@ as int,
                    (jitter->0)@ as int,
                )
            }
            &&& jitter is None ==> {
                &&& after.jitter_samples == stats.jitter_samples
                &&& after.jitter_sum_ns == stats.jitter_sum_ns
                &&& after.max_jitter == stats.max_jitter
            }
        },
{
}

/// Spans stand in the order of their lengths.
pub proof fn law_spans_by_length(a: Duration, b: Duration)
    ensures
        a.at_most(b) <==> a@ <= b@,
        by_length()(a, b) <==> a@ <= b@,
{
}

} // verus!
