//! What is recorded of the packets of a run, and how a packet is handled.

use crate::duration::{duration_text, time_between, Clock, Duration, MAX_NANOS};
use crate::edit::WikipediaEdit;
use crate::jitter::{
    deadline_outcome, exceeds_threshold, jitter_outcome,
    law_jitter_is_the_deviation_of_the_latest, measurable, misses, mode_message, record_jitter,
    update_degraded_mode, window,
};
use crate::leaderboard::{
    bumped, edits_of, law_bump, total_edits, update_leaderboard, Leaderboard,
};
use crate::stats::{maximum, total, RunStats};
use crate::text::{bool_str, bool_text, texts};
use vstd::prelude::*;

verus! {

/// The samples recorded of one kind of users.
pub struct Track {
    pub latencies: Vec<Duration>,
    pub jitters: Vec<Duration>,
    pub drifts: Vec<Duration>,
}

/// The sample lists of a track.
#[verifier::ext_equal]
pub struct TrackView {
    pub latencies: Seq<Duration>,
    pub jitters: Seq<Duration>,
    pub drifts: Seq<Duration>,
}

impl View for Track {
    type V = TrackView;

    open spec fn view(&self) -> TrackView {
        TrackView {
            latencies: self.latencies@,
            jitters: self.jitters@,
            drifts: self.drifts@,
        }
    }
}

impl TrackView {
    /// The track after a packet.
    pub open spec fn extended(
        self,
        drift: Duration,
        latency: Duration,
        jitter: Option<Duration>,
    ) -> TrackView {
        TrackView {
            latencies: self.latencies.push(latency),
            jitters: if jitter is Some {
                self.jitters.push(jitter->0)
            } else {
                self.jitters
            },
            drifts: self.drifts.push(drift),
        }
    }

    /// Every packet has left a drift and a latency, and every packet but the first a jitter.
    pub open spec fn wf(self) -> bool {
        &&& self.drifts.len() == self.latencies.len()
        &&& self.latencies.len() == 0 ==> self.jitters.len() == 0
        &&& self.latencies.len() > 0 ==> self.jitters.len() == self.latencies.len() - 1
    }
}

impl Track {
    /// A track without samples.
    pub fn new() -> (track: Track)
        ensures
            track.latencies@ == Seq::<Duration>::empty(),
            track.jitters@ == Seq::<Duration>::empty(),
            track.drifts@ == Seq::<Duration>::empty(),
    {
        Track { latencies: Vec::new(), jitters: Vec::new(), drifts: Vec::new() }
    }
}

/// Everything that is recorded during a run, apart from the leaderboard.
pub struct Monitor {
    /// The samples of human edits.
    pub human: Track,
    /// The samples of edits made by bots.
    pub bot: Track,
    /// The totals over both.
    pub stats: RunStats,
    /// Whether bots have to wait.
    pub degraded: bool,
    /// The packets received, those that were no edits among them; wraps around.
    pub total_packets: u64,
    /// The packets that missed the deadline; wraps around.
    pub total_violations: u64,
}

/// The contents of a monitor.
#[verifier::ext_equal]
pub struct MonitorView {
    pub human: TrackView,
    pub bot: TrackView,
    pub stats: RunStats,
    pub degraded: bool,
    pub total_packets: u64,
    pub total_violations: u64,
}

impl View for Monitor {
    type V = MonitorView;

    open spec fn view(&self) -> MonitorView {
        MonitorView {
            human: self.human@,
            bot: self.bot@,
            stats: self.stats,
            degraded: self.degraded,
            total_packets: self.total_packets,
            total_violations: self.total_violations,
        }
    }
}

/// One more, wrapping around.
pub open spec fn wrapping_next(n: u64) -> u64 {
    if n == u64::MAX {
        0
    } else {
        (n + 1) as u64
    }
}

/// How many of some latencies exceed the deadline.
pub open spec fn missed(latencies: Seq<Duration>) -> nat
    decreases latencies.len(),
{
    if latencies.len() == 0 {
        0
    } else {
        missed(latencies.drop_last()) + if misses(latencies.last()@) {
            1nat
        } else {
            0
        }
    }
}

impl MonitorView {
    /// The track of bots or of humans.
    pub open spec fn track(self, bot: bool) -> TrackView {
        if bot {
            self.bot
        } else {
            self.human
        }
    }

    /// The monitor after one more packet has been received.
    pub open spec fn received(self) -> MonitorView {
        MonitorView { total_packets: wrapping_next(self.total_packets), ..self }
    }

    /// The monitor after an edit has been recorded.
    pub open spec fn recorded(
        self,
        bot: bool,
        drift: Duration,
        latency: Duration,
        violated: bool,
        jitter: Option<Duration>,
        threshold_ms: u64,
    ) -> MonitorView {
        MonitorView {
            human: if bot {
                self.human
            } else {
                self.human.extended(drift, latency, jitter)
            },
            bot: if bot {
                self.bot.extended(drift, latency, jitter)
            } else {
                self.bot
            },
            stats: self.stats.recorded(drift, latency, violated, jitter),
            degraded: if jitter is Some {
                exceeds_threshold((jitter->0)@, threshold_ms)
            } else {
                self.degraded
            },
            total_packets: self.total_packets,
            total_violations: if violated {
                wrapping_next(self.total_violations)
            } else {
                self.total_violations
            },
        }
    }

    /// The totals agree with the samples: they count them, sum them up, and hold their maxima.
    pub open spec fn wf(self) -> bool {
        &&& self.human.wf()
        &&& self.bot.wf()
        &&& self.stats.total_packets == self.human.latencies.len() + self.bot.latencies.len()
        &&& self.stats.total_violations == missed(self.human.latencies) + missed(self.bot.latencies)
        &&& self.stats.jitter_samples == self.human.jitters.len() + self.bot.jitters.len()
        &&& self.stats.drift_sum_ns == total(self.human.drifts) + total(self.bot.drifts)
        &&& self.stats.latency_sum_ns == total(self.human.latencies) + total(self.bot.latencies)
        &&& self.stats.jitter_sum_ns == total(self.human.jitters) + total(self.bot.jitters)
        &&& self.stats.max_drift@ == larger(maximum(self.human.drifts), maximum(self.bot.drifts))
        &&& self.stats.max_latency@ == larger(
            maximum(self.human.latencies),
            maximum(self.bot.latencies),
        )
        &&& self.stats.max_jitter@ == larger(maximum(self.human.jitters), maximum(self.bot.jitters))
        &&& self.total_violations == self.stats.total_violations
    }

    /// Whether one more edit can be recorded, whatever its drift, latency and jitter.
    pub open spec fn has_room(self) -> bool {
        &&& self.stats.total_packets < u64::MAX
        &&& self.stats.total_violations < u64::MAX
        &&& self.stats.jitter_samples < u64::MAX
        &&& self.stats.drift_sum_ns + MAX_NANOS <= u128::MAX
        &&& self.stats.latency_sum_ns + MAX_NANOS <= u128::MAX
        &&& self.stats.jitter_sum_ns + MAX_NANOS <= u128::MAX
    }
}

/// The larger of two numbers.
pub open spec fn larger(a: nat, b: nat) -> nat {
    if a < b {
        b
    } else {
        a
    }
}

impl Monitor {
    /// A monitor at the beginning of a run.
    pub fn new() -> (monitor: Monitor)
        ensures
            monitor@.wf(),
            monitor@.stats.total_packets == 0,
            !monitor@.degraded,
            monitor@.total_packets == 0,
    {
        Monitor {
            human: Track::new(),
            bot: Track::new(),
            stats: RunStats::default(),
            degraded: false,
            total_packets: 0,
            total_violations: 0,
        }
    }

    /// Checks that the totals cannot run out of their range with the next edit.
    pub fn has_room(&self) -> (r: bool)
        ensures
            r == self@.has_room(),
    {
        self.stats.total_packets < u64::MAX && self.stats.total_violations < u64::MAX
            && self.stats.jitter_samples < u64::MAX && self.stats.drift_sum_ns <= u128::MAX
            - MAX_NANOS && self.stats.latency_sum_ns <= u128::MAX - MAX_NANOS
            && self.stats.jitter_sum_ns <= u128::MAX - MAX_NANOS
    }
}

/// Whether a clock has been read just once from `before` to `after`.
pub open spec fn read_once(before: Clock, after: Clock) -> bool {
    &&& after.started() == before.started()
    &&& after.readings().len() == before.readings().len() + 1
    &&& after.readings().drop_last() == before.readings()
}

/// Processes an event: counts an edit on the leaderboard, then reads from the clock how long the
/// processing has taken since `processing_start`, and tells whether that exceeds the deadline. An
/// event that is no edit takes no time and never misses the deadline.
pub fn process_event(
    edit: Option<WikipediaEdit<'_>>,
    processing_start: Duration,
    clock: &mut Clock,
    leaderboard: &mut Leaderboard,
) -> (outcome: (bool, Duration))
    requires
        old(leaderboard).wf(),
        edit is Some ==> edits_of(old(leaderboard)@, (edit->0).server@) < u64::MAX,
    ensures
        final(leaderboard).wf(),
        edit is Some ==> final(leaderboard)@ == bumped(old(leaderboard)@, (edit->0).server@),
        edit is Some ==> read_once(*old(clock), *final(clock)),
        edit is Some ==> outcome.1@ == time_between(
            processing_start@,
            final(clock).readings().last(),
        ),
        edit is Some ==> outcome.0 == misses(outcome.1@),
        edit is None ==> final(leaderboard)@ == old(leaderboard)@,
        edit is None ==> *final(clock) == *old(clock),
        edit is None ==> !outcome.0 && outcome.1@ == 0,
        outcome.1@ <= MAX_NANOS,
{
    if let Some(edit) = edit {
        update_leaderboard(leaderboard, edit.server);
        let now = clock.now();
        assert(clock.readings().drop_last() =~= old(clock).readings());
        return deadline_outcome(processing_start, now);
    }
    (false, Duration::from_secs(0))
}

/// The line that reports an edit, given the texts of its drift and its latency.
pub open spec fn packet_line(
    edit: WikipediaEdit<'_>,
    violated: bool,
    drift: Seq<char>,
    latency: Seq<char>,
) -> Seq<char> {
    (if violated {
        "\x1b[31m[VIOLATION]\x1b[0m "@
    } else {
        "[OK] Server: "@
    }) + edit.server@ + " | Bot: "@ + bool_text(edit.bot) + " | User: "@ + edit.user@
        + " | Drift: "@ + drift + " | Latency: "@ + latency
}

/// Writes the line that reports an edit.
pub fn packet_line_string(
    edit: WikipediaEdit<'_>,
    violated: bool,
    drift: &str,
    latency: &str,
) -> (line: String)
    ensures
        line@ == packet_line(edit, violated, drift@, latency@),
{
    let mut line = if violated {
        "\x1b[31m[VIOLATION]\x1b[0m ".to_owned()
    } else {
        "[OK] Server: ".to_owned()
    };
    line.append(edit.server);
    line.append(" | Bot: ");
    line.append(bool_str(edit.bot));
    line.append(" | User: ");
    line.append(edit.user);
    line.append(" | Drift: ");
    line.append(drift);
    line.append(" | Latency: ");
    line.append(latency);
    line
}

/// The lines that report an edit: a change of mode, and the edit itself.
pub open spec fn packet_lines(
    edit: WikipediaEdit<'_>,
    violated: bool,
    drift: Duration,
    latency: Duration,
    was_degraded: bool,
    is_degraded: bool,
) -> Seq<Seq<char>> {
    let line = packet_line(edit, violated, duration_text(drift@), duration_text(latency@));
    match mode_message(was_degraded, is_degraded) {
        Some(message) => seq![message, line],
        None => seq![line],
    }
}

/// Whether recording an edit may turn a monitor and give lines in this way, for the jitter that
/// `deviation` gives.
pub open spec fn record_outcome<F: Fn(&[Duration]) -> Duration>(
    before: MonitorView,
    after: MonitorView,
    lines: Seq<Seq<char>>,
    edit: WikipediaEdit<'_>,
    drift: Duration,
    latency: Duration,
    violated: bool,
    threshold_ms: u64,
    window_size: nat,
    deviation: F,
    jitter: Option<Duration>,
) -> bool {
    &&& jitter_outcome(
        deviation,
        before.track(edit.bot).latencies.push(latency),
        window_size,
        jitter,
    )
    &&& after == before.recorded(edit.bot, drift, latency, violated, jitter, threshold_ms)
    &&& lines == packet_lines(edit, violated, drift, latency, before.degraded, after.degraded)
}

/// Records an edit whose drift and latency have been measured, and gives the lines that report
/// it.
pub fn record_packet<F: Fn(&[Duration]) -> Duration>(
    monitor: &mut Monitor,
    edit: WikipediaEdit<'_>,
    drift: Duration,
    latency: Duration,
    violated: bool,
    jitter_threshold_ms: u64,
    jitter_window_size: usize,
    deviation: F,
) -> (lines: Vec<String>)
    requires
        old(monitor)@.track(edit.bot).latencies.len() > 0 ==> measurable(
            deviation,
            window(
                old(monitor)@.track(edit.bot).latencies.push(latency),
                jitter_window_size as nat,
            ),
        ),
        forall|jitter: Option<Duration>| #[trigger]
            jitter_outcome(
                deviation,
                old(monitor)@.track(edit.bot).latencies.push(latency),
                jitter_window_size as nat,
                jitter,
            ) ==> old(monitor)@.stats.can_record(drift, latency, violated, jitter),
    ensures
        exists|jitter: Option<Duration>| #[trigger]
            record_outcome(
                old(monitor)@,
                final(monitor)@,
                texts(lines@),
                edit,
                drift,
                latency,
                violated,
                jitter_threshold_ms,
                jitter_window_size as nat,
                deviation,
                jitter,
            ),
{
    let mut lines: Vec<String> = Vec::new();
    let jitter = if edit.bot {
        monitor.bot.drifts.push(drift);
        record_jitter(&mut monitor.bot.latencies, latency, jitter_window_size, deviation)
    } else {
        monitor.human.drifts.push(drift);
        record_jitter(&mut monitor.human.latencies, latency, jitter_window_size, deviation)
    };
    if let Some(j) = jitter {
        let message = update_degraded_mode(j, jitter_threshold_ms, &mut monitor.degraded);
        if let Some(message) = message {
            lines.push(message);
        }
        if edit.bot {
            monitor.bot.jitters.push(j);
        } else {
            monitor.human.jitters.push(j);
        }
    }
    monitor.stats.record(drift, latency, violated, jitter);
    if violated {
        monitor.total_violations = monitor.total_violations.wrapping_add(1);
    }
    let drift_text = drift.text();
    let latency_text = latency.text();
    lines.push(
        packet_line_string(edit, violated, drift_text.as_str(), latency_text.as_str()),
    );
    proof {
        let after = old(monitor)@.recorded(
            edit.bot,
            drift,
            latency,
            violated,
            jitter,
            jitter_threshold_ms,
        );
        assert(monitor@ =~= after);
        assert(texts(lines@) =~= packet_lines(
            edit,
            violated,
            drift,
            latency,
            old(monitor)@.degraded,
            monitor@.degraded,
        ));
        assert(record_outcome(
            old(monitor)@,
            monitor@,
            texts(lines@),
            edit,
            drift,
            latency,
            violated,
            jitter_threshold_ms,
            jitter_window_size as nat,
            deviation,
            jitter,
        ));
    }
    lines
}

/// Handles a packet that was queued at `enqueue_time` and taken from its queue at
/// `dequeue_time`: measures its drift, processes it, and records an edit. Gives the lines to
/// report, which are none for a packet that is no edit.
pub fn handle_packet<F: Fn(&[Duration]) -> Duration>(
    edit: Option<WikipediaEdit<'_>>,
    enqueue_time: Duration,
    dequeue_time: Duration,
    clock: &mut Clock,
    leaderboard: &mut Leaderboard,
    monitor: &mut Monitor,
    jitter_threshold_ms: u64,
    jitter_window_size: usize,
    deviation: F,
) -> (lines: Vec<String>)
    requires
        old(leaderboard).wf(),
        edit is Some ==> edits_of(old(leaderboard)@, (edit->0).server@) < u64::MAX,
        edit is Some ==> old(monitor)@.has_room(),
        forall|w: Seq<Duration>| #[trigger] measurable(deviation, w),
    ensures
        final(leaderboard).wf(),
        edit is None ==> {
            &&& final(leaderboard)@ == old(leaderboard)@
            &&& *final(clock) == *old(clock)
            &&& final(monitor)@ == old(monitor)@.received()
            &&& lines@.len() == 0
        },
        edit is Some ==> {
            &&& final(leaderboard)@ == bumped(old(leaderboard)@, (edit->0).server@)
            &&& read_once(*old(clock), *final(clock))
            &&& total_edits(final(leaderboard)@) == total_edits(old(leaderboard)@) + 1
            &&& final(monitor)@.stats.total_packets == old(monitor)@.stats.total_packets + 1
            &&& exists|drift: Duration, latency: Duration, jitter: Option<Duration>|
                {
                    &&& drift@ == time_between(enqueue_time@, dequeue_time@)
                    &&& latency@ == time_between(dequeue_time@, final(clock).readings().last())
                    &&& #[trigger] record_outcome(
                        old(monitor)@.received(),
                        final(monitor)@,
                        texts(lines@),
                        edit->0,
                        drift,
                        latency,
                        misses(latency@),
                        jitter_threshold_ms,
                        jitter_window_size as nat,
                        deviation,
                        jitter,
                    )
                }
        },
        old(monitor)@.wf() ==> final(monitor)@.wf(),
{
    let drift = Duration::between(enqueue_time, dequeue_time);
    let ghost board = leaderboard@;
    proof {
        leaderboard.lemma_finite();
    }
    let (violated, latency) = process_event(edit, dequeue_time, clock, leaderboard);
    monitor.total_packets = monitor.total_packets.wrapping_add(1);
    assert(monitor@ =~= old(monitor)@.received());
    match edit {
        None => Vec::new(),
        Some(edit) => {
            let ghost before = monitor@;
            let ghost latencies = before.track(edit.bot).latencies.push(latency);
            proof {
                law_bump(board, edit.server@);
                assert(measurable(deviation, window(latencies, jitter_window_size as nat)));
            }
            let lines = record_packet(
                monitor,
                edit,
                drift,
                latency,
                violated,
                jitter_threshold_ms,
                jitter_window_size,
                deviation,
            );
            proof {
                let jitter = choose|jitter: Option<Duration>| #[trigger]
                    record_outcome(
                        before,
                        monitor@,
                        texts(lines@),
                        edit,
                        drift,
                        latency,
                        violated,
                        jitter_threshold_ms,
                        jitter_window_size as nat,
                        deviation,
                        jitter,
                    );
                if before.wf() {
                    law_recording_keeps_agreement(
                        before,
                        edit.bot,
                        drift,
                        latency,
                        jitter,
                        jitter_threshold_ms,
                    );
                }
            }
            lines
        },
    }
}

/// Recording an edit keeps the totals in agreement with the samples.
pub proof fn law_recording_keeps_agreement(
    m: MonitorView,
    bot: bool,
    drift: Duration,
    latency: Duration,
    jitter: Option<Duration>,
    threshold_ms: u64,
)
    requires
        m.wf(),
        m.stats.can_record(drift, latency, misses(latency@), jitter),
        jitter is Some <==> m.track(bot).latencies.len() > 0,
    ensures
        m.recorded(bot, drift, latency, misses(latency@), jitter, threshold_ms).wf(),
{
    let t = m.track(bot);
    lemma_samples_push(t.drifts, drift);
    lemma_samples_push(t.latencies, latency);
    if jitter is Some {
        lemma_samples_push(t.jitters, jitter->0);
    }
}

proof fn lemma_samples_push(s: Seq<Duration>, d: Duration)
    ensures
        total(s.push(d)) == total(s) + d@,
        maximum(s.push(d)) == larger(maximum(s), d@),
        missed(s.push(d)) == missed(s) + if misses(d@) {
            1nat
        } else {
            0
        },
{
    assert(s.push(d).drop_last() =~= s);
}

/// Where the totals agree with the samples, the samples of each list sum up to no more than the
/// totals can hold, and there are no samples exactly when no packet has been counted.
pub proof fn law_agreement_bounds_samples(m: MonitorView)
    requires
        m.wf(),
    ensures
        total(m.human.drifts) <= u128::MAX,
        total(m.bot.drifts) <= u128::MAX,
        total(m.human.latencies) <= u128::MAX,
        total(m.bot.latencies) <= u128::MAX,
        total(m.human.jitters) <= u128::MAX,
        total(m.bot.jitters) <= u128::MAX,
        m.stats.total_packets == 0 <==> m.human.latencies.len() == 0 && m.bot.latencies.len() == 0,
        m.stats.jitter_samples <= m.stats.total_packets,
        m.stats.total_violations <= m.stats.total_packets,
{
    lemma_missed_bound(m.human.latencies);
    lemma_missed_bound(m.bot.latencies);
}

proof fn lemma_missed_bound(s: Seq<Duration>)
    ensures
        missed(s) <= s.len(),
    decreases s.len(),
{
    if s.len() > 0 {
        lemma_missed_bound(s.drop_last());
    }
}

/// The larger of two numbers is one of them, and no less than either. Counting wraps around to
/// zero where the range of a counter ends, and nowhere else.
pub proof fn law_larger_and_next(a: nat, b: nat, n: u64)
    ensures
        larger(a, b) == a || larger(a, b) == b,
        larger(a, b) >= a,
        larger(a, b) >= b,
        wrapping_next(n) == (n + 1) % 0x1_0000_0000_0000_0000,
{
}

/// No latencies miss the deadline where there are none, and a further one adds to those that do
/// exactly when it is longer than two milliseconds.
pub proof fn law_missed(latencies: Seq<Duration>, next: Duration)
    ensures
        missed(Seq::<Duration>::empty()) == 0,
        next@ <= 2_000_000 ==> missed(latencies.push(next)) == missed(latencies),
        next@ > 2_000_000 ==> missed(latencies.push(next)) == missed(latencies) + 1,
{
    assert(latencies.push(next).drop_last() =~= latencies);
}

/// Receiving a packet counts it and changes nothing else.
pub proof fn law_received(m: MonitorView)
    ensures
        m.received().total_packets == (m.total_packets + 1) % 0x1_0000_0000_0000_0000,
        m.received().human == m.human,
        m.received().bot == m.bot,
        m.received().stats == m.stats,
        m.received().degraded == m.degraded,
        m.received().total_violations == m.total_violations,
{
}

/// Recording an edit appends its drift, its latency and, where there is one, its jitter to the
/// lists of the user's own kind, and leaves the other kind's as they were. A jitter decides the
/// mode, by the threshold that was given; without one the mode stays. The violations are counted,
/// and the packets received stay as many as they were.
pub proof fn law_recorded_edit(
    m: MonitorView,
    bot: bool,
    drift: Duration,
    latency: Duration,
    violated: bool,
    jitter: Option<Duration>,
    threshold_ms: u64,
)
    ensures
        m.track(true) == m.bot,
        m.track(false) == m.human,
        ({
            let after = m.recorded(bot, drift, latency, violated, jitter, threshold_ms);
            let mine = if bot {
                m.bot
            } else {
                m.human
            };
            let grown = if bot {
                after.bot
            } else {
                after.human
            };
            &&& bot ==> after.human == m.human
            &&& !bot ==> after.bot == m.bot
            &&& grown.latencies == mine.latencies.push(latency)
            &&& grown.drifts == mine.drifts.push(drift)
            &&& jitter is Some ==> grown.jitters == mine.jitters.push(jitter->0)
            &&& jitter is None ==> grown.jitters == mine.jitters
            &&& jitter is Some ==> (after.degraded <==> (jitter->0)@ > threshold_ms * 1_000_000)
            &&& jitter is None ==> after.degraded == m.degraded
            &&& after.stats == m.stats.recorded(drift, latency, violated, jitter)
            &&& after.total_packets == m.total_packets
            &&& violated ==> after.total_violations == (m.total_violations + 1)
                % 0x1_0000_0000_0000_0000
            &&& !violated ==> after.total_violations == m.total_violations
        }),
{
}

/// Where a monitor is well-formed, its totals can be read off its samples: their number, those
/// that miss the deadline, their sums, and their maxima. Every edit has left a drift and a
/// latency, and every edit but the first of each kind a jitter.
pub proof fn law_agreement(m: MonitorView)
    requires
        m.wf(),
    ensures
        m.stats.total_packets == m.human.latencies.len() + m.bot.latencies.len(),
        m.stats.total_violations == missed(m.human.latencies + m.bot.latencies),
        m.total_violations == m.stats.total_violations,
        m.stats.drift_sum_ns == total(m.human.drifts + m.bot.drifts),
        m.stats.latency_sum_ns == total(m.human.latencies + m.bot.latencies),
        m.stats.jitter_sum_ns == total(m.human.jitters + m.bot.jitters),
        m.stats.max_drift@ == maximum(m.human.drifts + m.bot.drifts),
        m.stats.max_latency@ == maximum(m.human.latencies + m.bot.latencies),
        m.stats.max_jitter@ == maximum(m.human.jitters + m.bot.jitters),
        m.human.drifts.len() == m.human.latencies.len(),
        m.bot.drifts.len() == m.bot.latencies.len(),
        m.human.latencies.len() > 0 ==> m.human.jitters.len() == m.human.latencies.len() - 1,
        m.bot.latencies.len() > 0 ==> m.bot.jitters.len() == m.bot.latencies.len() - 1,
        m.human.latencies.len() == 0 ==> m.human.jitters.len() == 0,
        m.bot.latencies.len() == 0 ==> m.bot.jitters.len() == 0,
        m.stats.jitter_samples == m.human.jitters.len() + m.bot.jitters.len(),
{
    lemma_samples_concat(m.human.drifts, m.bot.drifts);
    lemma_samples_concat(m.human.latencies, m.bot.latencies);
    lemma_samples_concat(m.human.jitters, m.bot.jitters);
}

proof fn lemma_samples_concat(a: Seq<Duration>, b: Seq<Duration>)
    ensures
        total(a + b) == total(a) + total(b),
        maximum(a + b) == larger(maximum(a), maximum(b)),
        missed(a + b) == missed(a) + missed(b),
    decreases b.len(),
{
    if b.len() == 0 {
        assert(a + b =~= a);
    } else {
        lemma_samples_concat(a, b.drop_last());
        assert((a + b).drop_last() =~= a + b.drop_last());
    }
}

/// There is room for one more edit exactly when the longest drift, latency and jitter there are
/// could be recorded with it, as a violation.
pub proof fn law_room(m: MonitorView, longest: Duration)
    requires
        longest@ == 18_446_744_073_709_551_615_999_999_999,
    ensures
        m.has_room() <==> m.stats.can_record(longest, longest, true, Some(longest)),
{
}

/// The line that reports an edit names the server, whether a bot made the edit, the user, the
/// drift and the latency, in this order. A violation is marked by another beginning, and by
/// nothing else, and the latency is the end of the line.
pub proof fn law_packet_line(
    edit: WikipediaEdit<'_>,
    violated: bool,
    drift: Seq<char>,
    latency: Seq<char>,
)
    ensures
        ({
            let rest = edit.server@ + " | Bot: "@ + bool_text(edit.bot) + " | User: "@ + edit.user@
                + " | Drift: "@ + drift + " | Latency: "@ + latency;
            let line = packet_line(edit, violated, drift, latency);
            &&& violated ==> line == "\x1b[31m[VIOLATION]\x1b[0m "@ + rest
            &&& !violated ==> line == "[OK] Server: "@ + rest
        }),
        packet_line(edit, violated, drift, latency) == packet_line(
            edit,
            violated,
            drift,
            Seq::empty(),
        ) + latency,
{
    let rest = edit.server@ + " | Bot: "@ + bool_text(edit.bot) + " | User: "@ + edit.user@
        + " | Drift: "@ + drift + " | Latency: "@ + latency;
    let line = packet_line(edit, violated, drift, latency);
    if violated {
        assert(line =~= "\x1b[31m[VIOLATION]\x1b[0m "@ + rest);
    } else {
        assert(line =~= "[OK] Server: "@ + rest);
    }
    assert(line =~= packet_line(edit, violated, drift, Seq::empty()) + latency);
}

/// An edit is reported by one line, which comes last. Before it stands a message where the mode
/// has changed, and nothing where it has not.
pub proof fn law_packet_lines(
    edit: WikipediaEdit<'_>,
    violated: bool,
    drift: Duration,
    latency: Duration,
    was_degraded: bool,
    is_degraded: bool,
)
    ensures
        ({
            let lines = packet_lines(edit, violated, drift, latency, was_degraded, is_degraded);
            &&& lines.last() == packet_line(
                edit,
                violated,
                duration_text(drift@),
                duration_text(latency@),
            )
            &&& was_degraded == is_degraded ==> lines.len() == 1
            &&& was_degraded != is_degraded ==> lines.len() == 2
            &&& !was_degraded && is_degraded ==> lines[0]
                == "[DEGRADED MODE] Jitter threshold exceeded. Prioritizing human packets."@
            &&& was_degraded && !is_degraded ==> lines[0]
                == "[RECOVERED] Jitter back under threshold. Bot packets resumed."@
        }),
{
}

/// What recording an edit comes to: the jitter is the deviation of the latest latencies of the
/// user's own kind with the new one among them, and there is one from the second on. The monitor
/// and the lines follow from it.
pub proof fn law_record_outcome<F: Fn(&[Duration]) -> Duration>(
    before: MonitorView,
    after: MonitorView,
    lines: Seq<Seq<char>>,
    edit: WikipediaEdit<'_>,
    drift: Duration,
    latency: Duration,
    violated: bool,
    threshold_ms: u64,
    window_size: nat,
    deviation: F,
    jitter: Option<Duration>,
)
    requires
        record_outcome(
            before,
            after,
            lines,
            edit,
            drift,
            latency,
            violated,
            threshold_ms,
            window_size,
            deviation,
            jitter,
        ),
    ensures
        ({
            let all = if edit.bot {
                after.bot.latencies
            } else {
                after.human.latencies
            };
            &&& jitter is Some <==> all.len() >= 2
            &&& jitter is Some ==> exists|s: &[Duration]|
                {
                    &&& #[trigger] call_ensures(deviation, (s,), jitter->0)
                    &&& s@.len() == vstd::math::min(
                        all.len() as int,
                        vstd::math::max(window_size as int, 2),
                    )
                    &&& s@ == all.skip(all.len() - s@.len())
                }
            &&& after == before.recorded(edit.bot, drift, latency, violated, jitter, threshold_ms)
            &&& lines == packet_lines(
                edit,
                violated,
                drift,
                latency,
                before.degraded,
                after.degraded,
            )
        }),
{
    law_recorded_edit(before, edit.bot, drift, latency, violated, jitter, threshold_ms);
    let all = before.track(edit.bot).latencies.push(latency);
    law_jitter_is_the_deviation_of_the_latest(deviation, all, window_size, jitter);
}

/// A clock that has been read once has one reading more, at the end, and still counts from the
/// same moment.
pub proof fn law_read_once(before: Clock, after: Clock)
    requires
        read_once(before, after),
    ensures
        after.readings() == before.readings().push(after.readings().last()),
        after.started() == before.started(),
{
    assert(after.readings() =~= before.readings().push(after.readings().last()));
}

} // verus!
