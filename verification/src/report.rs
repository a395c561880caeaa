//! The statistics that are reported at the end of a run.

use crate::duration::{duration_text, Duration, MAX_NANOS};
use crate::stats::{
    average, law_average_at_most_maximum, law_maximum, law_order_of_samples_is_irrelevant,
    law_percentiles, maximum, percentile, percentiles, summarize, total, RunStats, Summary,
};
use crate::text::{decimal, decimal_string, texts};
use vstd::prelude::*;

verus! {

/// The texts of a summary.
pub struct SummaryText {
    pub avg: String,
    pub max: String,
    pub percentiles: Option<(String, String, String)>,
}

/// What the texts of a summary say.
#[verifier::ext_equal]
pub struct SummaryTextView {
    pub avg: Seq<char>,
    pub max: Seq<char>,
    pub percentiles: Option<(Seq<char>, Seq<char>, Seq<char>)>,
}

impl View for SummaryText {
    type V = SummaryTextView;

    open spec fn view(&self) -> SummaryTextView {
        SummaryTextView {
            avg: self.avg@,
            max: self.max@,
            percentiles: match self.percentiles {
                Some((p50, p90, p99)) => Some((p50@, p90@, p99@)),
                None => None,
            },
        }
    }
}

/// The texts of the summary of some samples, with the average taken over `count` of them.
pub open spec fn summary_text(samples: Seq<Duration>, count: nat) -> SummaryTextView {
    SummaryTextView {
        avg: duration_text(average(total(samples), count)),
        max: duration_text(maximum(samples)),
        percentiles: match percentiles(samples) {
            Some((p50, p90, p99)) => Some(
                (duration_text(p50@), duration_text(p90@), duration_text(p99@)),
            ),
            None => None,
        },
    }
}

/// Writes out the spans of a summary.
fn describe(summary: Summary) -> (text: SummaryText)
    ensures
        text@.avg == duration_text(summary.avg@),
        text@.max == duration_text(summary.max@),
        text@.percentiles == (match summary.percentiles {
            Some((p50, p90, p99)) => Some(
                (duration_text(p50@), duration_text(p90@), duration_text(p99@)),
            ),
            None => None,
        }),
{
    SummaryText {
        avg: summary.avg.text(),
        max: summary.max.text(),
        percentiles: match summary.percentiles {
            Some((p50, p90, p99)) => Some((p50.text(), p90.text(), p99.text())),
            None => None,
        },
    }
}

/// Summarizes some samples and writes the summary out.
fn described(samples: &[Duration], count: u64) -> (text: SummaryText)
    requires
        total(samples@) <= u128::MAX,
    ensures
        text@ == summary_text(samples@, count as nat),
{
    describe(summarize(samples, count))
}

/// The line with the average and the maximum of a summary.
pub open spec fn average_line(label: Seq<char>, s: SummaryTextView) -> Seq<char> {
    "[STATS] "@ + label + ": "@ + s.avg + " / "@ + s.max
}

/// The line with the percentiles of a summary, which is missing where there were no samples.
pub open spec fn percentile_lines(label: Seq<char>, s: SummaryTextView) -> Seq<Seq<char>> {
    match s.percentiles {
        Some((p50, p90, p99)) => seq![
            "[STATS] "@ + label + ": "@ + p50 + " / "@ + p90 + " / "@ + p99,
        ],
        None => seq![],
    }
}

/// A section of the report: a title, the averages and maxima, and the percentiles.
pub open spec fn section(
    title: Seq<char>,
    human_avg: Seq<char>,
    bot_avg: Seq<char>,
    human_pct: Seq<char>,
    bot_pct: Seq<char>,
    human: SummaryTextView,
    bot: SummaryTextView,
) -> Seq<Seq<char>> {
    seq![title, average_line(human_avg, human), average_line(bot_avg, bot)] + percentile_lines(
        human_pct,
        human,
    ) + percentile_lines(bot_pct, bot)
}

/// The section on drift.
pub open spec fn drift_section(human: SummaryTextView, bot: SummaryTextView) -> Seq<Seq<char>> {
    section(
        "\n======================= [DRIFT STATS] ======================="@,
        "Human Drift avg/max"@,
        "Bot Drift avg/max"@,
        "Human Drift p50/p90/p99"@,
        "Bot Drift p50/p90/p99"@,
        human,
        bot,
    )
}

/// The section on latency.
pub open spec fn latency_section(human: SummaryTextView, bot: SummaryTextView) -> Seq<Seq<char>> {
    section(
        "\n======================= [LATENCY STATS] ======================="@,
        "Human Latency avg/max"@,
        "Bot Latency avg/max"@,
        "Human Latency p50/p90/p99"@,
        "Bot Latency p50/p90/p99"@,
        human,
        bot,
    )
}

/// The section on jitter.
pub open spec fn jitter_section(human: SummaryTextView, bot: SummaryTextView) -> Seq<Seq<char>> {
    section(
        "\n======================= [JITTER STATS] ======================="@,
        "Human Jitter avg/max (windowed)"@,
        "Bot Jitter avg/max (windowed)"@,
        "Human Jitter p50/p90/p99"@,
        "Bot Jitter p50/p90/p99"@,
        human,
        bot,
    )
}

/// The lines about the packets of a run and the share of them, in percent, that missed the
/// deadline.
pub open spec fn packet_section(stats: RunStats, violation_rate: Seq<char>) -> Seq<Seq<char>> {
    seq![
        "\n==================== [FINAL STATISTICS] ====================="@,
        "\n[STATS] Packets: "@ + decimal(stats.total_packets as nat) + " | Violations: "@ + decimal(
            stats.total_violations as nat,
        ) + " ("@ + violation_rate + "%)"@,
    ]
}

/// The report on a run, given the texts of the summaries.
pub open spec fn report(
    stats: RunStats,
    violation_rate: Seq<char>,
    human_drift: SummaryTextView,
    bot_drift: SummaryTextView,
    human_latency: SummaryTextView,
    bot_latency: SummaryTextView,
    human_jitter: SummaryTextView,
    bot_jitter: SummaryTextView,
) -> Seq<Seq<char>> {
    if stats.total_packets == 0 {
        seq!["\n[STATS] No packets processed."@]
    } else {
        packet_section(stats, violation_rate) + drift_section(human_drift, bot_drift)
            + latency_section(human_latency, bot_latency) + if stats.jitter_samples > 0 {
            jitter_section(human_jitter, bot_jitter)
        } else {
            seq!["\n[STATS] Jitter: n/a"@]
        }
    }
}

/// Writes the line with the average and the maximum of a summary.
fn push_average_line(lines: &mut Vec<String>, label: &str, s: &SummaryText)
    ensures
        texts(final(lines)@) == texts(old(lines)@).push(average_line(label@, s@)),
{
    let mut line = "[STATS] ".to_owned();
    line.append(label);
    line.append(": ");
    line.append(s.avg.as_str());
    line.append(" / ");
    line.append(s.max.as_str());
    lines.push(line);
    assert(texts(lines@) =~= texts(old(lines)@).push(average_line(label@, s@)));
}

/// Writes the line with the percentiles of a summary, where it has them.
fn push_percentile_lines(lines: &mut Vec<String>, label: &str, s: &SummaryText)
    ensures
        texts(final(lines)@) == texts(old(lines)@) + percentile_lines(label@, s@),
{
    if let Some((p50, p90, p99)) = &s.percentiles {
        let mut line = "[STATS] ".to_owned();
        line.append(label);
        line.append(": ");
        line.append(p50.as_str());
        line.append(" / ");
        line.append(p90.as_str());
        line.append(" / ");
        line.append(p99.as_str());
        lines.push(line);
    }
    assert(texts(lines@) =~= texts(old(lines)@) + percentile_lines(label@, s@));
}

/// Writes a line.
fn push_line(lines: &mut Vec<String>, line: &str)
    ensures
        texts(final(lines)@) == texts(old(lines)@).push(line@),
{
    lines.push(line.to_owned());
    assert(texts(lines@) =~= texts(old(lines)@).push(line@));
}

/// Writes a section of the report.
fn push_section(
    lines: &mut Vec<String>,
    title: &str,
    human_avg: &str,
    bot_avg: &str,
    human_pct: &str,
    bot_pct: &str,
    human: &SummaryText,
    bot: &SummaryText,
)
    ensures
        texts(final(lines)@) == texts(old(lines)@) + section(
            title@,
            human_avg@,
            bot_avg@,
            human_pct@,
            bot_pct@,
            human@,
            bot@,
        ),
{
    push_line(lines, title);
    push_average_line(lines, human_avg, human);
    push_average_line(lines, bot_avg, bot);
    push_percentile_lines(lines, human_pct, human);
    push_percentile_lines(lines, bot_pct, bot);
    assert(texts(lines@) =~= texts(old(lines)@) + section(
        title@,
        human_avg@,
        bot_avg@,
        human_pct@,
        bot_pct@,
        human@,
        bot@,
    ));
}

/// Writes the report on a run, given the texts of the summaries and of the violation rate.
pub fn write_report(
    stats: &RunStats,
    violation_rate: &str,
    human_drift: &SummaryText,
    bot_drift: &SummaryText,
    human_latency: &SummaryText,
    bot_latency: &SummaryText,
    human_jitter: &SummaryText,
    bot_jitter: &SummaryText,
) -> (lines: Vec<String>)
    ensures
        texts(lines@) == report(
            *stats,
            violation_rate@,
            human_drift@,
            bot_drift@,
            human_latency@,
            bot_latency@,
            human_jitter@,
            bot_jitter@,
        ),
{
    let mut lines: Vec<String> = Vec::new();
    if stats.total_packets == 0 {
        push_line(&mut lines, "\n[STATS] No packets processed.");
        assert(texts(lines@) =~= seq!["\n[STATS] No packets processed."@]);
        return lines;
    }
    push_line(&mut lines, "\n==================== [FINAL STATISTICS] =====================");
    let mut line = "\n[STATS] Packets: ".to_owned();
    line.append(decimal_string(stats.total_packets).as_str());
    line.append(" | Violations: ");
    line.append(decimal_string(stats.total_violations).as_str());
    line.append(" (");
    line.append(violation_rate);
    line.append("%)");
    push_line(&mut lines, line.as_str());
    assert(texts(lines@) =~= packet_section(*stats, violation_rate@));
    push_section(
        &mut lines,
        "\n======================= [DRIFT STATS] =======================",
        "Human Drift avg/max",
        "Bot Drift avg/max",
        "Human Drift p50/p90/p99",
        "Bot Drift p50/p90/p99",
        human_drift,
        bot_drift,
    );
    push_section(
        &mut lines,
        "\n======================= [LATENCY STATS] =======================",
        "Human Latency avg/max",
        "Bot Latency avg/max",
        "Human Latency p50/p90/p99",
        "Bot Latency p50/p90/p99",
        human_latency,
        bot_latency,
    );
    let ghost head = texts(lines@);
    if stats.jitter_samples > 0 {
        push_section(
            &mut lines,
            "\n======================= [JITTER STATS] =======================",
            "Human Jitter avg/max (windowed)",
            "Bot Jitter avg/max (windowed)",
            "Human Jitter p50/p90/p99",
            "Bot Jitter p50/p90/p99",
            human_jitter,
            bot_jitter,
        );
    } else {
        push_line(&mut lines, "\n[STATS] Jitter: n/a");
        assert(texts(lines@) =~= head + seq!["\n[STATS] Jitter: n/a"@]);
    }
    lines
}

/// The statistics at the end of a run, given the totals, the samples, and the text of the
/// violation rate.
pub open spec fn final_statistics(
    stats: RunStats,
    human_latencies: Seq<Duration>,
    bot_latencies: Seq<Duration>,
    human_jitters: Seq<Duration>,
    bot_jitters: Seq<Duration>,
    human_drifts: Seq<Duration>,
    bot_drifts: Seq<Duration>,
    violation_rate: Seq<char>,
) -> Seq<Seq<char>> {
    report(
        stats,
        violation_rate,
        summary_text(human_drifts, human_latencies.len()),
        summary_text(bot_drifts, bot_latencies.len()),
        summary_text(human_latencies, human_latencies.len()),
        summary_text(bot_latencies, bot_latencies.len()),
        summary_text(human_jitters, human_jitters.len()),
        summary_text(bot_jitters, bot_jitters.len()),
    )
}

/// Writes the statistics at the end of a run: the packets and violations, and for humans and
/// bots the averages, maxima and percentiles of drift, latency and jitter. The averages of
/// drift are taken over the number of latencies. `violation_rate` is the text of the share of
/// packets that missed the deadline, in percent.
pub fn print_final_statistics(
    stats: &RunStats,
    human_latencies: &[Duration],
    bot_latencies: &[Duration],
    human_jitters: &[Duration],
    bot_jitters: &[Duration],
    human_drifts: &[Duration],
    bot_drifts: &[Duration],
    violation_rate: &str,
) -> (lines: Vec<String>)
    requires
        stats.total_packets > 0 ==> {
            &&& total(human_latencies@) <= u128::MAX
            &&& total(bot_latencies@) <= u128::MAX
            &&& total(human_jitters@) <= u128::MAX
            &&& total(bot_jitters@) <= u128::MAX
            &&& total(human_drifts@) <= u128::MAX
            &&& total(bot_drifts@) <= u128::MAX
        },
    ensures
        texts(lines@) == final_statistics(
            *stats,
            human_latencies@,
            bot_latencies@,
            human_jitters@,
            bot_jitters@,
            human_drifts@,
            bot_drifts@,
            violation_rate@,
        ),
{
    if stats.total_packets == 0 {
        let mut lines: Vec<String> = Vec::new();
        push_line(&mut lines, "\n[STATS] No packets processed.");
        assert(texts(lines@) =~= seq!["\n[STATS] No packets processed."@]);
        return lines;
    }
    let human_count = human_latencies.len() as u64;
    let bot_count = bot_latencies.len() as u64;
    let human_jitter_count = human_jitters.len() as u64;
    let bot_jitter_count = bot_jitters.len() as u64;
    let human_drift = described(human_drifts, human_count);
    let bot_drift = described(bot_drifts, bot_count);
    let human_latency = described(human_latencies, human_count);
    let bot_latency = described(bot_latencies, bot_count);
    let human_jitter = described(human_jitters, human_jitter_count);
    let bot_jitter = described(bot_jitters, bot_jitter_count);
    write_report(
        stats,
        violation_rate,
        &human_drift,
        &bot_drift,
        &human_latency,
        &bot_latency,
        &human_jitter,
        &bot_jitter,
    )
}

/// The statistics of a run depend on its totals, its samples and the violation rate alone, and on
/// the samples only up to their order: two reports on the same run, or on runs whose lists hold
/// the same samples in other orders, have the same lines.
pub proof fn law_statistics_repeat(
    stats: RunStats,
    lists: Seq<Seq<Duration>>,
    permuted: Seq<Seq<Duration>>,
    violation_rate: Seq<char>,
    first: Seq<String>,
    second: Seq<String>,
)
    requires
        lists.len() == 6,
        permuted.len() == 6,
        forall|i: int|
            0 <= i < 6 ==> (#[trigger] lists[i]).to_multiset() == permuted[i].to_multiset(),
        texts(first) == final_statistics(
            stats,
            lists[0],
            lists[1],
            lists[2],
            lists[3],
            lists[4],
            lists[5],
            violation_rate,
        ),
        texts(second) == final_statistics(
            stats,
            permuted[0],
            permuted[1],
            permuted[2],
            permuted[3],
            permuted[4],
            permuted[5],
            violation_rate,
        ),
    ensures
        texts(first) == texts(second),
{
    assert forall|i: int| 0 <= i < 6 implies (#[trigger] lists[i]).len() == permuted[i].len()
        && forall|n: nat|
        summary_text(lists[i], n) == #[trigger] summary_text(permuted[i], n) by {
        law_order_of_samples_is_irrelevant(lists[i], permuted[i]);
    }
}

/// A line of averages shows the sum of the samples over the number given, rounded down, and then
/// the longest sample, or nothing where there are none. Over the number of the samples themselves
/// the average shown is at most the maximum shown beside it.
pub proof fn law_average_line(
    label: Seq<char>,
    samples: Seq<Duration>,
    count: nat,
    avg: nat,
    longest: nat,
)
    requires
        count == 0 ==> avg == 0,
        count > 0 ==> avg * count <= total(samples) < (avg + 1) * count,
        avg <= MAX_NANOS,
        forall|i: int| 0 <= i < samples.len() ==> (#[trigger] samples[i])@ <= longest,
        samples.len() == 0 ==> longest == 0,
        samples.len() > 0 ==> exists|i: int|
            0 <= i < samples.len() && (#[trigger] samples[i])@ == longest,
    ensures
        average_line(label, summary_text(samples, count)) == "[STATS] "@ + label + ": "@
            + duration_text(avg) + " / "@ + duration_text(longest),
        count == samples.len() ==> avg <= longest,
{
    law_maximum(samples);
    if count > 0 {
        let sum = total(samples);
        assert(sum / count == avg) by (nonlinear_arith)
            requires
                count > 0,
                avg * count <= sum < (avg + 1) * count,
        ;
    }
    if samples.len() > 0 {
        let i = choose|i: int| 0 <= i < samples.len() && (#[trigger] samples[i])@ == longest;
        assert(samples[i]@ <= maximum(samples));
        let k = choose|k: int|
            0 <= k < samples.len() && (#[trigger] samples[k])@ == maximum(samples);
        assert(samples[k]@ <= longest);
    }
    law_average_at_most_maximum(samples);
}

/// A line of percentiles shows those at fifty, ninety and ninety-nine percent, in this order.
/// There is one such line where there are samples, and none where there are none.
pub proof fn law_percentile_lines(
    label: Seq<char>,
    samples: Seq<Duration>,
    count: nat,
    p50: Duration,
    p90: Duration,
    p99: Duration,
)
    ensures
        samples.len() == 0 ==> percentile_lines(label, summary_text(samples, count)).len() == 0,
        percentile(samples, 50) == Some(p50) && percentile(samples, 90) == Some(p90) && percentile(
            samples,
            99,
        ) == Some(p99) ==> percentile_lines(label, summary_text(samples, count)) == seq![
            "[STATS] "@ + label + ": "@ + duration_text(p50@) + " / "@ + duration_text(p90@)
                + " / "@ + duration_text(p99@),
        ],
        samples.len() > 0 <==> summary_text(samples, count).percentiles is Some,
{
    law_percentiles(samples);
}

/// The order of a report: the packets and violations of the run, and then for drift, latency and
/// jitter a title, the averages of humans and of bots, and the percentiles of those that have
/// them, humans before bots. Without jitters a line says so, and without packets there is nothing
/// but a line that says that.
#[verifier::spinoff_prover]
#[verifier::rlimit(30)]
pub proof fn law_report_layout(
    stats: RunStats,
    rate: Seq<char>,
    hd: SummaryTextView,
    bd: SummaryTextView,
    hl: SummaryTextView,
    bl: SummaryTextView,
    hj: SummaryTextView,
    bj: SummaryTextView,
)
    ensures
        stats.total_packets == 0 ==> report(stats, rate, hd, bd, hl, bl, hj, bj) == seq![
            "\n[STATS] No packets processed."@,
        ],
        stats.total_packets > 0 ==> {
            let lines = report(stats, rate, hd, bd, hl, bl, hj, bj);
            let hdp = percentile_lines("Human Drift p50/p90/p99"@, hd);
            let bdp = percentile_lines("Bot Drift p50/p90/p99"@, bd);
            let hlp = percentile_lines("Human Latency p50/p90/p99"@, hl);
            let blp = percentile_lines("Bot Latency p50/p90/p99"@, bl);
            let hjp = percentile_lines("Human Jitter p50/p90/p99"@, hj);
            let bjp = percentile_lines("Bot Jitter p50/p90/p99"@, bj);
            let latency = (5 + hdp.len() + bdp.len()) as int;
            let jitter = (latency + 3 + hlp.len() + blp.len()) as int;
            &&& lines[0] == "\n==================== [FINAL STATISTICS] ====================="@
            &&& lines[1] == "\n[STATS] Packets: "@ + decimal(stats.total_packets as nat)
                + " | Violations: "@ + decimal(stats.total_violations as nat) + " ("@ + rate
                + "%)"@
            &&& lines[2] == "\n======================= [DRIFT STATS] ======================="@
            &&& lines[3] == average_line("Human Drift avg/max"@, hd)
            &&& lines[4] == average_line("Bot Drift avg/max"@, bd)
            &&& lines.subrange(5, latency) == hdp + bdp
            &&& lines[latency]
                == "\n======================= [LATENCY STATS] ======================="@
            &&& lines[latency + 1] == average_line("Human Latency avg/max"@, hl)
            &&& lines[latency + 2] == average_line("Bot Latency avg/max"@, bl)
            &&& lines.subrange(latency + 3, jitter) == hlp + blp
            &&& stats.jitter_samples == 0 ==> {
                &&& lines.len() == jitter + 1
                &&& lines[jitter] == "\n[STATS] Jitter: n/a"@
            }
            &&& stats.jitter_samples > 0 ==> {
                &&& lines[jitter]
                    == "\n======================= [JITTER STATS] ======================="@
                &&& lines[jitter + 1] == average_line("Human Jitter avg/max (windowed)"@, hj)
                &&& lines[jitter + 2] == average_line("Bot Jitter avg/max (windowed)"@, bj)
                &&& lines.skip(jitter + 3) == hjp + bjp
            }
        },
{
    if stats.total_packets > 0 {
        let head = packet_section(stats, rate);
        let drift = drift_section(hd, bd);
        let lat = latency_section(hl, bl);
        let jit = if stats.jitter_samples > 0 {
            jitter_section(hj, bj)
        } else {
            seq!["\n[STATS] Jitter: n/a"@]
        };
        let hdp = percentile_lines("Human Drift p50/p90/p99"@, hd);
        let bdp = percentile_lines("Bot Drift p50/p90/p99"@, bd);
        let hlp = percentile_lines("Human Latency p50/p90/p99"@, hl);
        let blp = percentile_lines("Bot Latency p50/p90/p99"@, bl);
        let hjp = percentile_lines("Human Jitter p50/p90/p99"@, hj);
        let bjp = percentile_lines("Bot Jitter p50/p90/p99"@, bj);
        assert(drift.skip(3) =~= hdp + bdp);
        assert(lat.skip(3) =~= hlp + blp);
        lemma_lines_of_parts(head, drift, lat, jit);
        if stats.jitter_samples > 0 {
            assert(jit.skip(3) =~= hjp + bjp);
        }
    }
}

/// Where the lines of four parts stand in the list that joins them.
proof fn lemma_lines_of_parts(
    head: Seq<Seq<char>>,
    a: Seq<Seq<char>>,
    b: Seq<Seq<char>>,
    c: Seq<Seq<char>>,
)
    requires
        head.len() == 2,
        a.len() >= 3,
        b.len() >= 3,
    ensures
        ({
            let lines = head + a + b + c;
            let at = 2 + a.len() as int;
            let end = at + b.len() as int;
            &&& lines.len() == end + c.len()
            &&& lines[0] == head[0]
            &&& lines[1] == head[1]
            &&& lines[2] == a[0]
            &&& lines[3] == a[1]
            &&& lines[4] == a[2]
            &&& lines.subrange(5, at) == a.skip(3)
            &&& lines[at] == b[0]
            &&& lines[at + 1] == b[1]
            &&& lines[at + 2] == b[2]
            &&& lines.subrange(at + 3, end) == b.skip(3)
            &&& c.len() > 0 ==> lines[end] == c[0]
            &&& c.len() >= 3 ==> lines[end + 1] == c[1] && lines[end + 2] == c[2] && lines.skip(
                end + 3,
            ) == c.skip(3)
        }),
{
    let lines = head + a + b + c;
    let at = 2 + a.len() as int;
    let end = at + b.len() as int;
    assert(lines.subrange(5, at) =~= a.skip(3));
    assert(lines.subrange(at + 3, end) =~= b.skip(3));
    if c.len() >= 3 {
        assert(lines.skip(end + 3) =~= c.skip(3));
    }
}

/// What the final statistics show of each list comes from that list: the average of latencies and
/// of jitters is taken over their own number, and that of drifts over the number of latencies of
/// the same kind of users.
#[verifier::spinoff_prover]
#[verifier::rlimit(30)]
pub proof fn law_statistics_show_their_lists(
    stats: RunStats,
    hl: Seq<Duration>,
    bl: Seq<Duration>,
    hj: Seq<Duration>,
    bj: Seq<Duration>,
    hd: Seq<Duration>,
    bd: Seq<Duration>,
    rate: Seq<char>,
)
    ensures
        stats.total_packets == 0 ==> final_statistics(stats, hl, bl, hj, bj, hd, bd, rate) == seq![
            "\n[STATS] No packets processed."@,
        ],
        stats.total_packets > 0 ==> ({
            let lines = final_statistics(stats, hl, bl, hj, bj, hd, bd, rate);
            let one = |s: Seq<Duration>|
                if s.len() > 0 {
                    1int
                } else {
                    0
                };
            let latency = 5 + one(hd) + one(bd);
            let jitter = latency + 3 + one(hl) + one(bl);
            &&& lines[0] == "\n==================== [FINAL STATISTICS] ====================="@
            &&& lines[2] == "\n======================= [DRIFT STATS] ======================="@
            &&& lines[latency]
                == "\n======================= [LATENCY STATS] ======================="@
            &&& stats.jitter_samples > 0 ==> lines[jitter]
                == "\n======================= [JITTER STATS] ======================="@
            &&& lines[1] == "\n[STATS] Packets: "@ + decimal(stats.total_packets as nat)
                + " | Violations: "@ + decimal(stats.total_violations as nat) + " ("@ + rate
                + "%)"@
            &&& lines[3] == average_line("Human Drift avg/max"@, summary_text(hd, hl.len()))
            &&& lines[4] == average_line("Bot Drift avg/max"@, summary_text(bd, bl.len()))
            &&& hd.len() > 0 ==> percentile_lines(
                "Human Drift p50/p90/p99"@,
                summary_text(hd, hl.len()),
            ) == seq![lines[5]]
            &&& bd.len() > 0 ==> percentile_lines(
                "Bot Drift p50/p90/p99"@,
                summary_text(bd, bl.len()),
            ) == seq![lines[5 + one(hd)]]
            &&& lines[latency + 1] == average_line(
                "Human Latency avg/max"@,
                summary_text(hl, hl.len()),
            )
            &&& lines[latency + 2] == average_line(
                "Bot Latency avg/max"@,
                summary_text(bl, bl.len()),
            )
            &&& hl.len() > 0 ==> percentile_lines(
                "Human Latency p50/p90/p99"@,
                summary_text(hl, hl.len()),
            ) == seq![lines[latency + 3]]
            &&& bl.len() > 0 ==> percentile_lines(
                "Bot Latency p50/p90/p99"@,
                summary_text(bl, bl.len()),
            ) == seq![lines[latency + 3 + one(hl)]]
            &&& stats.jitter_samples == 0 ==> lines.len() == jitter + 1 && lines[jitter]
                == "\n[STATS] Jitter: n/a"@
            &&& stats.jitter_samples > 0 ==> {
                &&& lines.len() == jitter + 3 + one(hj) + one(bj)
                &&& lines[jitter + 1] == average_line(
                    "Human Jitter avg/max (windowed)"@,
                    summary_text(hj, hj.len()),
                )
                &&& lines[jitter + 2] == average_line(
                    "Bot Jitter avg/max (windowed)"@,
                    summary_text(bj, bj.len()),
                )
                &&& hj.len() > 0 ==> percentile_lines(
                    "Human Jitter p50/p90/p99"@,
                    summary_text(hj, hj.len()),
                ) == seq![lines[jitter + 3]]
                &&& bj.len() > 0 ==> percentile_lines(
                    "Bot Jitter p50/p90/p99"@,
                    summary_text(bj, bj.len()),
                ) == seq![lines[jitter + 3 + one(hj)]]
            }
        }),
{
    let thd = summary_text(hd, hl.len());
    let tbd = summary_text(bd, bl.len());
    let thl = summary_text(hl, hl.len());
    let tbl = summary_text(bl, bl.len());
    let thj = summary_text(hj, hj.len());
    let tbj = summary_text(bj, bj.len());
    law_report_layout(stats, rate, thd, tbd, thl, tbl, thj, tbj);
    let lines = final_statistics(stats, hl, bl, hj, bj, hd, bd, rate);
    let hdp = percentile_lines("Human Drift p50/p90/p99"@, thd);
    let bdp = percentile_lines("Bot Drift p50/p90/p99"@, tbd);
    let hlp = percentile_lines("Human Latency p50/p90/p99"@, thl);
    let blp = percentile_lines("Bot Latency p50/p90/p99"@, tbl);
    let hjp = percentile_lines("Human Jitter p50/p90/p99"@, thj);
    let bjp = percentile_lines("Bot Jitter p50/p90/p99"@, tbj);
    let latency = (5 + hdp.len() + bdp.len()) as int;
    let jitter = (latency + 3 + hlp.len() + blp.len()) as int;
    if stats.total_packets > 0 {
        lemma_pair_of_lines(lines, 5, latency, hdp, bdp);
        lemma_pair_of_lines(lines, latency + 3, jitter, hlp, blp);
        if stats.jitter_samples > 0 {
            assert(lines.skip(jitter + 3) =~= lines.subrange(jitter + 3, lines.len() as int));
            assert(lines.skip(jitter + 3).len() == hjp.len() + bjp.len());
            lemma_pair_of_lines(lines, jitter + 3, lines.len() as int, hjp, bjp);
        }
    }
}

proof fn lemma_pair_of_lines(
    lines: Seq<Seq<char>>,
    from: int,
    to: int,
    a: Seq<Seq<char>>,
    b: Seq<Seq<char>>,
)
    requires
        0 <= from <= to <= lines.len(),
        lines.subrange(from, to) == a + b,
        a.len() <= 1,
        b.len() <= 1,
    ensures
        to - from == a.len() + b.len(),
        a.len() == 1 ==> a == seq![lines[from]],
        b.len() == 1 ==> b == seq![lines[from + a.len()]],
{
    let part = lines.subrange(from, to);
    assert(part.len() == a.len() + b.len());
    if a.len() == 1 {
        assert(part[0] == a[0]);
        assert(a =~= seq![lines[from]]);
    }
    if b.len() == 1 {
        assert(part[a.len() as int] == b[0]);
        assert(b =~= seq![lines[from + a.len()]]);
    }
}

/// What the final statistics show of the average and the maximum of the bots' jitters does not
/// depend on the jitters of humans, nor what they show of humans on the jitters of bots.
pub proof fn law_jitters_are_shown_apart(
    stats: RunStats,
    hl: Seq<Duration>,
    bl: Seq<Duration>,
    hj: Seq<Duration>,
    bj: Seq<Duration>,
    hd: Seq<Duration>,
    bd: Seq<Duration>,
    rate: Seq<char>,
    other: Seq<Duration>,
)
    requires
        stats.total_packets > 0,
        stats.jitter_samples > 0,
    ensures
        ({
            let one = |s: Seq<Duration>|
                if s.len() > 0 {
                    1int
                } else {
                    0
                };
            let jitter = 8 + one(hd) + one(bd) + one(hl) + one(bl);
            let lines = final_statistics(stats, hl, bl, hj, bj, hd, bd, rate);
            &&& final_statistics(stats, hl, bl, other, bj, hd, bd, rate)[jitter + 2]
                == lines[jitter + 2]
            &&& final_statistics(stats, hl, bl, hj, other, hd, bd, rate)[jitter + 1]
                == lines[jitter + 1]
        }),
{
    law_statistics_show_their_lists(stats, hl, bl, hj, bj, hd, bd, rate);
    law_statistics_show_their_lists(stats, hl, bl, other, bj, hd, bd, rate);
    law_statistics_show_their_lists(stats, hl, bl, hj, other, hd, bd, rate);
}

/// The averages of jitter that the final statistics show are those of each list over its own
/// number, rounded down. Beside each stands the longest of the same list, and the average is at
/// most that.
pub proof fn law_jitter_averages_shown(
    stats: RunStats,
    hl: Seq<Duration>,
    bl: Seq<Duration>,
    hj: Seq<Duration>,
    bj: Seq<Duration>,
    hd: Seq<Duration>,
    bd: Seq<Duration>,
    rate: Seq<char>,
    human_avg: nat,
    bot_avg: nat,
)
    requires
        stats.total_packets > 0,
        stats.jitter_samples > 0,
        hj.len() > 0,
        bj.len() > 0,
        human_avg <= MAX_NANOS,
        human_avg * hj.len() <= total(hj) < (human_avg + 1) * hj.len(),
        bot_avg <= MAX_NANOS,
        bot_avg * bj.len() <= total(bj) < (bot_avg + 1) * bj.len(),
    ensures
        ({
            let one = |s: Seq<Duration>|
                if s.len() > 0 {
                    1int
                } else {
                    0
                };
            let jitter = 8 + one(hd) + one(bd) + one(hl) + one(bl);
            let lines = final_statistics(stats, hl, bl, hj, bj, hd, bd, rate);
            &&& lines[jitter + 1] == "[STATS] "@ + "Human Jitter avg/max (windowed)"@ + ": "@
                + duration_text(human_avg) + " / "@ + duration_text(maximum(hj))
            &&& lines[jitter + 2] == "[STATS] "@ + "Bot Jitter avg/max (windowed)"@ + ": "@
                + duration_text(bot_avg) + " / "@ + duration_text(maximum(bj))
            &&& human_avg <= maximum(hj)
            &&& bot_avg <= maximum(bj)
        }),
{
    law_statistics_show_their_lists(stats, hl, bl, hj, bj, hd, bd, rate);
    law_maximum(hj);
    law_maximum(bj);
    let human = "Human Jitter avg/max (windowed)"@;
    let bot = "Bot Jitter avg/max (windowed)"@;
    law_average_line(human, hj, hj.len(), human_avg, maximum(hj));
    law_average_line(bot, bj, bj.len(), bot_avg, maximum(bj));
}

} // verus!
