use rts_wiki::duration::{Duration, MAX_NANOS};
use rts_wiki::report::{write_report, SummaryText};
use rts_wiki::stats::{
    avg_duration, max_duration, percentile_duration, sum_nanos, summarize, RunStats,
};
use rts_wiki::print_final_statistics;

fn ns(n: u64) -> Duration {
    Duration::from_nanos(n)
}

fn list(values: &[u64]) -> Vec<Duration> {
    values.iter().map(|n| ns(*n)).collect()
}

#[test]
fn durations_hold_their_parts() {
    assert_eq!(Duration::zero().as_nanos(), 0);
    assert_eq!(Duration::from_millis(2).as_nanos(), 2_000_000);
    assert_eq!(Duration::from_secs(3).as_nanos(), 3_000_000_000);
    let d = Duration::from_parts(7, 999_999_999);
    assert_eq!(d.as_nanos(), 7_999_999_999);
    assert_eq!(d.as_secs(), 7);
    assert_eq!(d.subsec_nanos(), 999_999_999);
    let longest = Duration::from_parts(u64::MAX, 999_999_999);
    assert_eq!(longest.as_nanos(), MAX_NANOS);
    assert_eq!(longest.as_nanos(), std::time::Duration::MAX.as_nanos());
    assert_eq!(ns(1).longer(ns(2)), ns(2));
    assert_eq!(ns(3).longer(ns(2)), ns(3));
}

#[test]
fn durations_are_written_like_the_standard_ones() {
    assert_eq!(ns(0).text(), "0ns");
    assert_eq!(ns(1_500).text(), "1.5µs");
    assert_eq!(Duration::from_millis(2).text(), "2ms");
    assert_eq!(Duration::from_parts(61, 250_000_000).text(), "61.25s");
    for n in [1u64, 999, 1_000_001, 123_456_789, 1_000_000_000, u64::MAX] {
        assert_eq!(ns(n).text(), format!("{:?}", std::time::Duration::from_nanos(n)));
    }
}

#[test]
fn default_stats_are_zero() {
    let stats = RunStats::default();
    assert_eq!(stats.total_packets, 0);
    assert_eq!(stats.total_violations, 0);
    assert_eq!(stats.drift_sum_ns, 0);
    assert_eq!(stats.latency_sum_ns, 0);
    assert_eq!(stats.jitter_sum_ns, 0);
    assert_eq!(stats.jitter_samples, 0);
    assert_eq!(stats.max_drift, ns(0));
    assert_eq!(stats.max_latency, ns(0));
    assert_eq!(stats.max_jitter, ns(0));
}

#[test]
fn recording_adds_up() {
    let mut stats = RunStats::default();
    stats.record(ns(10), ns(300), false, None);
    stats.record(ns(5), ns(400), true, Some(ns(50)));
    stats.record(ns(7), ns(100), false, Some(ns(20)));
    assert_eq!(stats.total_packets, 3);
    assert_eq!(stats.total_violations, 1);
    assert_eq!(stats.drift_sum_ns, 22);
    assert_eq!(stats.latency_sum_ns, 800);
    assert_eq!(stats.jitter_sum_ns, 70);
    assert_eq!(stats.jitter_samples, 2);
    assert_eq!(stats.max_drift, ns(10));
    assert_eq!(stats.max_latency, ns(400));
    assert_eq!(stats.max_jitter, ns(50));
}

#[test]
fn averages_round_down() {
    assert_eq!(avg_duration(0, 0), ns(0));
    assert_eq!(avg_duration(99, 0), ns(0));
    assert_eq!(avg_duration(10, 3), ns(3));
    assert_eq!(avg_duration(u128::from(u64::MAX), 1), ns(u64::MAX));
}

#[test]
fn averages_reach_up_to_the_longest_span() {
    let two_to_64: u128 = 18_446_744_073_709_551_616;
    assert_eq!(avg_duration(two_to_64, 1), Duration::from_parts(18_446_744_073, 709_551_616));
    assert_eq!(avg_duration(two_to_64 * 6 + 5, 3).as_nanos(), two_to_64 * 2 + 1);
    let longest = Duration::from_parts(u64::MAX, 999_999_999);
    assert_eq!(avg_duration(MAX_NANOS, 1), longest);
    assert_eq!(avg_duration(MAX_NANOS + 1, 1), longest);
    assert_eq!(avg_duration(u128::MAX, 1), longest);
}

#[test]
fn the_order_of_samples_makes_no_difference() {
    let a = list(&[5, 1, 9, 9, 2, 30, 4]);
    let b = list(&[9, 30, 4, 2, 9, 5, 1]);
    assert_eq!(summarize(&a, 7), summarize(&b, 7));
}

#[test]
fn reports_repeat() {
    let stats = RunStats { total_packets: 3, jitter_samples: 1, ..RunStats::default() };
    let a = list(&[300, 100, 200]);
    let b = list(&[200, 300, 100]);
    let j = list(&[50]);
    let first = print_final_statistics(&stats, &a, &b, &j, &[], &a, &b, "0.00");
    let again = print_final_statistics(&stats, &a, &b, &j, &[], &a, &b, "0.00");
    let other = print_final_statistics(&stats, &b, &a, &j, &[], &b, &a, "0.00");
    assert_eq!(first, again);
    assert_eq!(first, other);
    assert!(first.len() > 10);
    assert_eq!(a, list(&[300, 100, 200]));
}

#[test]
fn percentiles_of_any_percentage() {
    assert_eq!(percentile_duration(&[], 50), None);
    assert_eq!(percentile_duration(&[], -1), None);
    assert_eq!(percentile_duration(&list(&[10, 20]), 200), None);
    assert_eq!(percentile_duration(&list(&[10, 20]), 149), Some(ns(20)));
    assert_eq!(percentile_duration(&list(&[10, 20]), 150), None);
    assert_eq!(percentile_duration(&list(&[20, 10]), -100), Some(ns(10)));
    assert_eq!(percentile_duration(&list(&[20, 10]), i64::MIN), Some(ns(10)));
    assert_eq!(percentile_duration(&list(&[20, 10]), i64::MAX), None);
    for percent in [i64::MIN, -1, 0, 50, 100, 200, i64::MAX] {
        assert_eq!(percentile_duration(&list(&[10]), percent), Some(ns(10)));
    }
    let samples = list(&[40, 10, 30, 20, 50]);
    for (percent, expected) in [(0, 10), (12, 10), (13, 20), (49, 30), (50, 30), (87, 40), (88, 50)]
    {
        assert_eq!(percentile_duration(&samples, percent), Some(ns(expected)));
    }
    assert_eq!(percentile_duration(&samples, 100), Some(max_duration(&samples)));
}

#[test]
fn any_order_of_recording_gives_the_same_totals() {
    let packets = [
        (ns(5), ns(900), false, None),
        (ns(9), ns(2_000_001), true, Some(ns(70))),
        (ns(1), ns(30), false, Some(ns(400))),
    ];
    let run = |order: [usize; 3]| {
        let mut stats = RunStats::default();
        for i in order {
            let (drift, latency, violated, jitter) = packets[i];
            stats.record(drift, latency, violated, jitter);
        }
        stats
    };
    let s = run([0, 1, 2]);
    for order in [[0, 2, 1], [1, 0, 2], [1, 2, 0], [2, 0, 1], [2, 1, 0]] {
        assert_eq!(run(order), s);
    }
    assert_eq!((s.drift_sum_ns, s.max_drift), (15, ns(9)));
    for (max, sum, n) in [
        (s.max_drift, s.drift_sum_ns, s.total_packets),
        (s.max_latency, s.latency_sum_ns, s.total_packets),
        (s.max_jitter, s.jitter_sum_ns, s.jitter_samples),
    ] {
        assert!(max.as_nanos() <= sum && sum <= u128::from(n) * max.as_nanos());
    }
}

#[test]
fn higher_percentiles_are_no_shorter() {
    for n in 1..30u64 {
        let samples: Vec<Duration> = (0..n).map(|i| ns((i * 7919) % 101)).collect();
        let p50 = percentile_duration(&samples, 50).unwrap().as_nanos();
        let p90 = percentile_duration(&samples, 90).unwrap().as_nanos();
        let p99 = percentile_duration(&samples, 99).unwrap().as_nanos();
        assert!(p50 <= p90 && p90 <= p99 && p99 <= max_duration(&samples).as_nanos());
    }
}

#[test]
fn sums_and_maxima() {
    assert_eq!(sum_nanos(&[]), 0);
    assert_eq!(max_duration(&[]), ns(0));
    assert_eq!(sum_nanos(&list(&[4, 9, 2])), 15);
    assert_eq!(max_duration(&list(&[4, 9, 2])), ns(9));
}

#[test]
fn percentiles_of_small_lists() {
    assert_eq!(percentile_duration(&[], 50), None);
    for p in [50, 90, 99] {
        assert_eq!(percentile_duration(&list(&[8]), p), Some(ns(8)));
    }
    assert_eq!(percentile_duration(&list(&[9, 1]), 50), Some(ns(9)));
    assert_eq!(percentile_duration(&list(&[3, 1, 2]), 50), Some(ns(2)));
    assert_eq!(percentile_duration(&list(&[6, 5, 4, 3, 2, 1]), 90), Some(ns(6)));
    let hundred: Vec<u64> = (1..=101).rev().collect();
    assert_eq!(percentile_duration(&list(&hundred), 50), Some(ns(51)));
    assert_eq!(percentile_duration(&list(&hundred), 90), Some(ns(91)));
    assert_eq!(percentile_duration(&list(&hundred), 99), Some(ns(100)));
}

#[test]
fn percentile_ranks_match_rounded_fractions() {
    let mut n: usize = 1;
    while n < 3_000 {
        let samples: Vec<Duration> = (0..n as u64).map(ns).collect();
        for (p, percent) in
            [(50, 50.0f64), (90, 90.0f64), (99, 99.0f64)]
        {
            let rank = ((percent / 100.0) * (n as f64 - 1.0)).round() as u64;
            assert_eq!(percentile_duration(&samples, p), Some(ns(rank)));
        }
        n += if n < 320 { 1 } else { 53 };
    }
}

#[test]
fn integer_ranks_match_floating_point_ranks() {
    let mut n: u64 = 1;
    while n < 2_000_000 {
        for (percent, fraction) in [(50u64, 50.0f64), (90, 90.0), (99, 99.0)] {
            let rank = ((fraction / 100.0) * (n as f64 - 1.0)).round() as u64;
            assert_eq!((percent * (n - 1) + 50) / 100, rank);
        }
        n += 1;
    }
}

#[test]
fn percentiles_ascend_up_to_the_maximum() {
    let samples = list(&[17, 3, 99, 41, 41, 8, 2, 77, 60, 5, 12]);
    let summary = summarize(&samples, samples.len() as u64);
    let (p50, p90, p99) = summary.percentiles.unwrap();
    assert!(p50.as_nanos() <= p90.as_nanos());
    assert!(p90.as_nanos() <= p99.as_nanos());
    assert!(p99.as_nanos() <= summary.max.as_nanos());
    assert!(summary.avg.as_nanos() <= summary.max.as_nanos());
    for p in [p50, p90, p99] {
        assert!(samples.contains(&p));
    }
    assert_eq!(p50, ns(17));
    assert_eq!(p90, ns(77));
    assert_eq!(p99, ns(99));
    assert_eq!(summary.avg, ns(33));
}

#[test]
fn no_packets_no_statistics() {
    let lines = print_final_statistics(&RunStats::default(), &[], &[], &[], &[], &[], &[], "NaN");
    assert_eq!(lines, vec!["\n[STATS] No packets processed.".to_string()]);
}

#[test]
fn statistics_of_a_run() {
    let mut stats = RunStats::default();
    stats.record(ns(100), ns(1_000), false, None);
    stats.record(ns(300), ns(3_000_000), true, Some(ns(500)));
    stats.record(ns(50), ns(2_000), false, None);
    let lines = print_final_statistics(
        &stats,
        &list(&[1_000, 3_000_000]),
        &list(&[2_000]),
        &list(&[500]),
        &[],
        &list(&[100, 300]),
        &list(&[50]),
        "33.33",
    );
    let expected = [
        "\n==================== [FINAL STATISTICS] =====================",
        "\n[STATS] Packets: 3 | Violations: 1 (33.33%)",
        "\n======================= [DRIFT STATS] =======================",
        "[STATS] Human Drift avg/max: 200ns / 300ns",
        "[STATS] Bot Drift avg/max: 50ns / 50ns",
        "[STATS] Human Drift p50/p90/p99: 300ns / 300ns / 300ns",
        "[STATS] Bot Drift p50/p90/p99: 50ns / 50ns / 50ns",
        "\n======================= [LATENCY STATS] =======================",
        "[STATS] Human Latency avg/max: 1.5005ms / 3ms",
        "[STATS] Bot Latency avg/max: 2µs / 2µs",
        "[STATS] Human Latency p50/p90/p99: 3ms / 3ms / 3ms",
        "[STATS] Bot Latency p50/p90/p99: 2µs / 2µs / 2µs",
        "\n======================= [JITTER STATS] =======================",
        "[STATS] Human Jitter avg/max (windowed): 500ns / 500ns",
        "[STATS] Bot Jitter avg/max (windowed): 0ns / 0ns",
        "[STATS] Human Jitter p50/p90/p99: 500ns / 500ns / 500ns",
    ];
    assert_eq!(lines, expected);
}

#[test]
fn drift_averages_count_latencies() {
    let mut stats = RunStats::default();
    stats.record(ns(1), ns(1), false, None);
    let lines = print_final_statistics(
        &stats,
        &list(&[1, 1, 1, 1]),
        &[],
        &[],
        &[],
        &list(&[40, 40]),
        &list(&[9]),
        "0.00",
    );
    assert_eq!(lines[3], "[STATS] Human Drift avg/max: 20ns / 40ns");
    assert_eq!(lines[4], "[STATS] Bot Drift avg/max: 0ns / 9ns");
    assert_eq!(lines.last().unwrap(), "\n[STATS] Jitter: n/a");
}

#[test]
fn report_of_given_texts() {
    let text = |avg: &str, max: &str, percentiles: bool| SummaryText {
        avg: avg.to_string(),
        max: max.to_string(),
        percentiles: if percentiles {
            Some(("a".to_string(), "b".to_string(), "c".to_string()))
        } else {
            None
        },
    };
    let mut stats = RunStats::default();
    stats.total_packets = 12;
    stats.total_violations = 3;
    let lines = write_report(
        &stats,
        "25.00",
        &text("d1", "d2", true),
        &text("d3", "d4", false),
        &text("l1", "l2", false),
        &text("l3", "l4", true),
        &text("j1", "j2", true),
        &text("j3", "j4", true),
    );
    assert_eq!(
        lines,
        [
            "\n==================== [FINAL STATISTICS] =====================",
            "\n[STATS] Packets: 12 | Violations: 3 (25.00%)",
            "\n======================= [DRIFT STATS] =======================",
            "[STATS] Human Drift avg/max: d1 / d2",
            "[STATS] Bot Drift avg/max: d3 / d4",
            "[STATS] Human Drift p50/p90/p99: a / b / c",
            "\n======================= [LATENCY STATS] =======================",
            "[STATS] Human Latency avg/max: l1 / l2",
            "[STATS] Bot Latency avg/max: l3 / l4",
            "[STATS] Bot Latency p50/p90/p99: a / b / c",
            "\n[STATS] Jitter: n/a",
        ]
    );
}

#[test]
fn the_order_of_recording_makes_no_difference() {
    let a = (ns(10), ns(300), false, None);
    let b = (ns(50), ns(40), true, Some(ns(6)));
    let mut first = RunStats::default();
    first.record(a.0, a.1, a.2, a.3);
    first.record(b.0, b.1, b.2, b.3);
    let mut second = RunStats::default();
    second.record(b.0, b.1, b.2, b.3);
    second.record(a.0, a.1, a.2, a.3);
    assert_eq!(first, second);
}
