use rts_wiki::duration::{Clock, Duration};
use rts_wiki::edit::{event_payload, is_blank_char, route, trim, Lane, WikipediaEdit};
use rts_wiki::ingest::{ingest, ingest_line, read_line, Packet};
use rts_wiki::jitter::{deadline_outcome, misses_deadline, record_jitter, update_degraded_mode};
use rts_wiki::leaderboard::Leaderboard;
use rts_wiki::monitor::{
    handle_packet, packet_line_string, process_event, record_packet, Monitor,
};
use rts_wiki::queue::{run_complete, watchdog_expired, BoundedQueue, Lanes, Next};
use rts_wiki::stats::{max_duration, sum_nanos};
use std::time::Instant;

fn ns(n: u64) -> Duration {
    Duration::from_nanos(n)
}

fn standard_deviation(window: &[Duration]) -> Duration {
    let n = window.len() as f64;
    let mean = window.iter().map(|d| d.as_nanos() as f64).sum::<f64>() / n;
    let variance = window
        .iter()
        .map(|d| {
            let v = d.as_nanos() as f64 - mean;
            v * v
        })
        .sum::<f64>()
        / n;
    ns(variance.sqrt().round() as u64)
}

fn edit(bot: bool) -> WikipediaEdit<'static> {
    WikipediaEdit { server: "en.wikipedia.org", user: "RTS_User", bot }
}

#[test]
fn data_lines_carry_a_payload() {
    assert_eq!(event_payload("data: {\"bot\":true}"), Some("{\"bot\":true}"));
    assert_eq!(event_payload("data: "), Some(""));
    assert_eq!(event_payload("data:  x"), Some(" x"));
    assert_eq!(event_payload("data: ü"), Some("ü"));
    for line in ["", "data:", "data:x", "event: message", ":ok", " data: x", "Data: x", "id: []"] {
        assert_eq!(event_payload(line), None);
    }
}

#[test]
fn trimming_takes_off_white_space() {
    for text in
        ["", " ", "\r\n", "{}\n", "{}\r\n", " \t a b \u{a0}\u{3000}", "\u{200b}x\u{200b}", "x", "é \u{2028}"]
    {
        assert_eq!(trim(text), text.trim());
        assert_eq!(trim(trim(text)), trim(text));
    }
}

#[test]
fn white_space_is_what_unicode_says() {
    for n in 0..0x11_0000u32 {
        if let Some(c) = char::from_u32(n) {
            assert_eq!(is_blank_char(c), c.is_whitespace());
        }
    }
}

#[test]
fn only_bots_take_the_lane_of_bots() {
    assert_eq!(route(Some(edit(true))), Lane::Bot);
    assert_eq!(route(Some(edit(false))), Lane::Human);
    assert_eq!(route(None), Lane::Human);
}

#[test]
fn full_queues_drop_the_oldest() {
    let mut q: BoundedQueue<u32> = BoundedQueue::new(3);
    assert_eq!(q.take(), None);
    for i in 0..3 {
        assert_eq!(q.offer(i), None);
    }
    assert_eq!(q.offer(3), Some(0));
    assert_eq!(q.offer(4), Some(1));
    assert_eq!(q.len(), 3);
    assert_eq!(q.take(), Some(2));
    assert_eq!(q.take(), Some(3));
    assert_eq!(q.take(), Some(4));
    assert_eq!(q.take(), None);
}

#[test]
fn humans_go_first() {
    let mut lanes: Lanes<u32> = Lanes::new(100);
    lanes.enqueue(Lane::Bot, 1);
    lanes.enqueue(Lane::Human, 2);
    lanes.enqueue(Lane::Human, 3);
    assert_eq!(lanes.next_async(false), Next::Packet(2));
    assert_eq!(lanes.next_threaded(false), Next::Packet(3));
    assert_eq!(lanes.next_async(false), Next::Packet(1));
    assert_eq!(lanes.next_async(false), Next::Wait);
    assert_eq!(lanes.next_threaded(false), Next::Wait);
}

#[test]
fn bots_wait_in_degraded_mode() {
    let mut lanes: Lanes<u32> = Lanes::new(2);
    assert_eq!(lanes.enqueue(Lane::Bot, 1), None);
    assert_eq!(lanes.enqueue(Lane::Bot, 2), None);
    assert_eq!(lanes.enqueue(Lane::Bot, 3), Some(1));
    assert_eq!(lanes.next_async(true), Next::Wait);
    assert_eq!(lanes.next_threaded(true), Next::Wait);
    lanes.enqueue(Lane::Human, 9);
    assert_eq!(lanes.next_async(true), Next::Packet(9));
    assert_eq!(lanes.next_threaded(false), Next::Packet(2));
    assert_eq!(lanes.next_async(false), Next::Packet(3));
}

#[test]
fn closed_lanes() {
    let mut lanes: Lanes<u32> = Lanes::new(2);
    lanes.enqueue(Lane::Bot, 1);
    lanes.enqueue(Lane::Human, 2);
    lanes.closed = true;
    assert_eq!(lanes.next_async(false), Next::Packet(2));
    assert_eq!(lanes.next_async(false), Next::Closed);
    assert_eq!(lanes.next_threaded(true), Next::Closed);
    assert_eq!(lanes.next_threaded(false), Next::Packet(1));
    assert_eq!(lanes.next_threaded(false), Next::Closed);
}

#[test]
fn limits_of_time() {
    assert!(!misses_deadline(ns(2_000_000)));
    assert!(misses_deadline(ns(2_000_001)));
    assert!(!watchdog_expired(ns(9_999_999_999)));
    assert!(watchdog_expired(Duration::from_secs(10)));
    assert!(!run_complete(ns(9), ns(10)));
    assert!(run_complete(ns(10), ns(10)));
    assert!(run_complete(ns(11), ns(10)));
}

#[test]
fn the_first_latency_gives_no_jitter() {
    let mut list: Vec<Duration> = Vec::new();
    assert_eq!(record_jitter(&mut list, ns(10), 100, standard_deviation), None);
    assert_eq!(list, [ns(10)]);
}

#[test]
fn jitter_is_the_deviation_of_the_window() {
    let mut list: Vec<Duration> = Vec::new();
    let mut found: Vec<Option<Duration>> = Vec::new();
    for n in [2u64, 4, 4, 4, 5, 5, 7, 9] {
        found.push(record_jitter(&mut list, ns(n), 100, standard_deviation));
    }
    assert_eq!(found[1], Some(ns(1)));
    assert_eq!(found[7], Some(ns(2)));
    assert_eq!(list.len(), 8);
    let mut list: Vec<Duration> = vec![ns(1_000), ns(0)];
    assert_eq!(record_jitter(&mut list, ns(10), 2, standard_deviation), Some(ns(5)));
    assert_eq!(record_jitter(&mut list, ns(10), 3, standard_deviation), Some(ns(5)));
}

#[test]
fn the_window_holds_the_latest_latencies() {
    let lens = |size: usize, n: u64| {
        let mut list: Vec<Duration> = (0..n).map(ns).collect();
        let mut seen: Vec<Duration> = Vec::new();
        let cell = std::cell::RefCell::new(&mut seen);
        let probe = |w: &[Duration]| {
            cell.borrow_mut().extend(w.iter().copied());
            ns(w.len() as u64)
        };
        let found = record_jitter(&mut list, ns(n), size, probe);
        (found, seen)
    };
    assert_eq!(lens(3, 5), (Some(ns(3)), vec![ns(3), ns(4), ns(5)]));
    assert_eq!(lens(0, 5), (Some(ns(2)), vec![ns(4), ns(5)]));
    assert_eq!(lens(1, 5), (Some(ns(2)), vec![ns(4), ns(5)]));
    assert_eq!(lens(100, 2), (Some(ns(3)), vec![ns(0), ns(1), ns(2)]));
    assert_eq!(lens(100, 0), (None, vec![]));
}

#[test]
fn old_latencies_have_no_influence() {
    for size in [0usize, 1, 2, 3, 4] {
        let kept = if size < 2 { 1 } else { size - 1 };
        let recent: Vec<Duration> = (0..kept as u64).map(|n| ns(10 * n)).collect();
        let mut a: Vec<Duration> = vec![ns(7_000_000), ns(1)];
        a.extend(recent.iter().copied());
        let mut b = recent;
        let jitter = record_jitter(&mut a, ns(55), size, standard_deviation);
        assert!(jitter.is_some());
        assert_eq!(jitter, record_jitter(&mut b, ns(55), size, standard_deviation));
    }
}

#[test]
fn outcomes_follow_from_the_readings() {
    assert_eq!(deadline_outcome(ns(5), ns(2_000_005)), (false, ns(2_000_000)));
    assert_eq!(deadline_outcome(ns(5), ns(2_000_006)), (true, ns(2_000_001)));
    assert_eq!(deadline_outcome(ns(5), ns(5)), (false, ns(0)));
    assert_eq!(deadline_outcome(ns(5), ns(4)), (false, ns(0)));
}

#[test]
fn lines_are_read_with_and_without_trimming() {
    assert_eq!(read_line("data: {} \r\n", false), Some("{} \r\n"));
    assert_eq!(read_line("data: {} \r\n", true), Some("{}"));
    assert_eq!(read_line("data: ", true), Some(""));
    assert_eq!(read_line("event: message", false), None);
    assert_eq!(read_line(" data: {}", true), None);
}

/// An edit for data that begin with `b` or `h`, and none for other data.
fn described(data: &str) -> Option<WikipediaEdit<'_>> {
    match data.chars().next() {
        Some('b') => Some(edit(true)),
        Some('h') => Some(edit(false)),
        _ => None,
    }
}

fn packet(data: &str, time: u64) -> Packet {
    Packet { data: data.to_string(), enqueue_time: ns(time) }
}

#[test]
fn streams_keep_their_order_on_each_lane() {
    let first = ["event: x", "data: h1", "data: b1", ":ok", "data: ?2", "data: b2", "data: b1"];
    let second = ["", "data: h3", "data: b3"];
    let mut lanes: Lanes<Packet> = Lanes::new(100);
    let mut time = 0u64;
    for line in first.iter().chain(second.iter()) {
        time += 1;
        if let Some(data) = read_line(line, false) {
            let (lane, dropped) = ingest(&mut lanes, data, described(data), ns(time));
            assert_eq!(lane, if data.starts_with('b') { Lane::Bot } else { Lane::Human });
            assert_eq!(dropped, None);
        }
    }
    for expected in [
        packet("h1", 2),
        packet("?2", 5),
        packet("h3", 9),
        packet("b1", 3),
        packet("b2", 6),
        packet("b1", 7),
        packet("b3", 10),
    ] {
        assert_eq!(lanes.next_async(false), Next::Packet(expected));
    }
    assert_eq!(lanes.next_async(false), Next::Wait);
}

#[test]
fn lines_are_taken_and_stamped() {
    let mut lanes: Lanes<Packet> = Lanes::new(3);
    let start = Instant::now();
    let mut clock = Clock::started_at(start);
    let before = start.elapsed();
    assert_eq!(ingest_line(&mut lanes, &mut clock, ":ok", false, described), None);
    assert_eq!(lanes.next_async(false), Next::Wait);
    let lines = ["data: h1", "event: x", "data: b1", "data:  h2 ", "data: ?", "data: h3"];
    let found: Vec<Option<Lane>> = lines
        .iter()
        .map(|line| ingest_line(&mut lanes, &mut clock, line, true, described).map(|o| o.0))
        .collect();
    let (h, b) = (Some(Lane::Human), Some(Lane::Bot));
    assert_eq!(found, [h, None, b, h, h, h]);
    let after = start.elapsed();
    let mut last = before.as_nanos();
    for data in ["h2", "?", "h3"] {
        match lanes.next_threaded(false) {
            Next::Packet(packet) => {
                assert_eq!(packet.data, data);
                let time = packet.enqueue_time.as_nanos();
                assert!(last <= time && time <= after.as_nanos());
                last = time;
            }
            other => panic!("{:?}", other),
        }
    }
    assert!(matches!(lanes.next_threaded(false), Next::Packet(p) if p.data == "b1"));
    let dropped = {
        for line in ["data: b4", "data: b5", "data: b6"] {
            ingest_line(&mut lanes, &mut clock, line, false, described);
        }
        ingest_line(&mut lanes, &mut clock, "data: b7", false, described)
    };
    assert!(matches!(dropped, Some((Lane::Bot, Some(p))) if p.data == "b4"));
}

#[test]
fn small_windows_act_as_two() {
    for (a, b) in [(0u64, 0u64), (0, 1), (7, 4), (10, 20), (3, 1 << 49), ((1 << 50) - 1, 0)] {
        let expected = Some(ns((a.abs_diff(b) + 1) / 2));
        for size in [0usize, 1, 2] {
            let mut list = vec![ns(99), ns(a)];
            assert_eq!(record_jitter(&mut list, ns(b), size, standard_deviation), expected);
        }
    }
}

#[test]
fn full_lanes_lose_their_oldest_packet() {
    let mut lanes: Lanes<Packet> = Lanes::new(2);
    for (data, time) in [("b1", 1), ("h1", 2), ("b2", 3)] {
        assert_eq!(ingest(&mut lanes, data, described(data), ns(time)).1, None);
    }
    assert_eq!(
        ingest(&mut lanes, "b3", described("b3"), ns(4)),
        (Lane::Bot, Some(packet("b1", 1)))
    );
    assert_eq!(lanes.next_threaded(false), Next::Packet(packet("h1", 2)));
    assert_eq!(lanes.next_threaded(false), Next::Packet(packet("b2", 3)));
    assert_eq!(lanes.next_threaded(false), Next::Packet(packet("b3", 4)));
    assert_eq!(lanes.next_threaded(false), Next::Wait);
}

#[test]
fn the_mode_follows_the_jitter() {
    let mut degraded = false;
    assert_eq!(update_degraded_mode(ns(2_000_000), 2, &mut degraded), None);
    assert!(!degraded);
    assert_eq!(
        update_degraded_mode(ns(2_000_001), 2, &mut degraded).unwrap(),
        "[DEGRADED MODE] Jitter threshold exceeded. Prioritizing human packets."
    );
    assert!(degraded);
    assert_eq!(update_degraded_mode(ns(2_000_001), 2, &mut degraded), None);
    assert!(degraded);
    assert_eq!(
        update_degraded_mode(ns(0), 2, &mut degraded).unwrap(),
        "[RECOVERED] Jitter back under threshold. Bot packets resumed."
    );
    assert!(!degraded);
}

#[test]
fn clocks_count_from_their_start() {
    let start = Instant::now();
    let mut clock = Clock::started_at(start);
    let before = start.elapsed();
    let reading = clock.now();
    let after = start.elapsed();
    assert!(before.as_nanos() <= reading.as_nanos());
    assert!(reading.as_nanos() <= after.as_nanos());
    let mut last = reading;
    for _ in 0..1_000 {
        let next = clock.now();
        assert!(last.as_nanos() <= next.as_nanos());
        last = next;
    }
    assert_eq!(Duration::between(ns(3), ns(10)), ns(7));
    assert_eq!(Duration::between(ns(10), ns(10)), ns(0));
    assert_eq!(Duration::between(ns(10), ns(3)), ns(0));
}

#[test]
fn events_are_processed() {
    let mut board = Leaderboard::new();
    let start = Instant::now();
    let mut clock = Clock::started_at(start);
    let begin = clock.now();
    let (violated, latency) = process_event(Some(edit(false)), begin, &mut clock, &mut board);
    assert!(latency.as_nanos() <= start.elapsed().as_nanos());
    assert_eq!(violated, latency.as_nanos() > 2_000_000);
    assert_eq!(board.edits("en.wikipedia.org"), 1);
    while start.elapsed() < std::time::Duration::from_millis(40) {}
    let begin = clock.now();
    let (_, latency) = process_event(Some(edit(false)), begin, &mut clock, &mut board);
    assert!(begin.as_nanos() + latency.as_nanos() <= start.elapsed().as_nanos());
    let (violated, latency) =
        process_event(Some(edit(false)), Duration::zero(), &mut clock, &mut board);
    assert!(violated);
    assert!(latency.as_nanos() >= 40_000_000);
    assert_eq!(board.edits("en.wikipedia.org"), 3);
    assert_eq!(process_event(None, begin, &mut clock, &mut board), (false, Duration::zero()));
    assert_eq!(board.edits("en.wikipedia.org"), 3);
}

#[test]
fn packets_are_reported() {
    assert_eq!(
        packet_line_string(edit(false), false, "1ms", "2µs"),
        "[OK] Server: en.wikipedia.org | Bot: false | User: RTS_User | Drift: 1ms | Latency: 2µs"
    );
    assert_eq!(
        packet_line_string(edit(true), true, "1ms", "3ms"),
        "\x1b[31m[VIOLATION]\x1b[0m en.wikipedia.org | Bot: true | User: RTS_User | Drift: 1ms | Latency: 3ms"
    );
}

#[test]
fn packets_are_recorded_by_kind() {
    let mut m = Monitor::new();
    let lines =
        record_packet(&mut m, edit(false), ns(5), ns(1_000), false, 1, 100, standard_deviation);
    assert_eq!(
        lines,
        ["[OK] Server: en.wikipedia.org | Bot: false | User: RTS_User | Drift: 5ns | Latency: 1µs"]
    );
    assert_eq!(m.human.drifts, [ns(5)]);
    assert_eq!(m.human.latencies, [ns(1_000)]);
    assert!(m.human.jitters.is_empty() && m.bot.latencies.is_empty());
    record_packet(&mut m, edit(true), ns(7), ns(500), false, 1, 100, standard_deviation);
    assert_eq!(m.bot.drifts, [ns(7)]);
    assert!(m.bot.jitters.is_empty());
    assert!(!m.degraded);
    let lines = record_packet(
        &mut m,
        edit(false),
        ns(6),
        ns(5_001_000),
        true,
        1,
        100,
        standard_deviation,
    );
    assert_eq!(
        lines,
        [
            "[DEGRADED MODE] Jitter threshold exceeded. Prioritizing human packets.",
            "\x1b[31m[VIOLATION]\x1b[0m en.wikipedia.org | Bot: false | User: RTS_User | Drift: 6ns | Latency: 5.001ms",
        ]
    );
    assert!(m.degraded);
    assert_eq!(m.human.jitters, [ns(2_500_000)]);
    assert_eq!(m.stats.total_packets, 3);
    assert_eq!(m.stats.total_violations, 1);
    assert_eq!(m.total_violations, 1);
    let lines =
        record_packet(&mut m, edit(true), ns(1), ns(500), false, 1, 100, standard_deviation);
    assert_eq!(lines[0], "[RECOVERED] Jitter back under threshold. Bot packets resumed.");
    assert_eq!(lines.len(), 2);
    assert!(!m.degraded);
    assert_eq!(m.bot.jitters, [ns(0)]);
}

#[test]
fn totals_agree_with_the_samples() {
    let mut m = Monitor::new();
    let mut board = Leaderboard::new();
    let mut clock = Clock::started_at(Instant::now());
    for i in 0..50u32 {
        assert!(m.has_room());
        let event = if i % 7 == 6 { None } else { Some(edit(i % 2 == 0)) };
        let enqueued = clock.now();
        let dequeued = clock.now();
        let lines = handle_packet(
            event, enqueued, dequeued, &mut clock, &mut board, &mut m, 2, 100, standard_deviation,
        );
        assert_eq!(lines.is_empty(), event.is_none());
        if let Some(line) = lines.last() {
            let drift = dequeued.as_nanos() - enqueued.as_nanos();
            let drift = std::time::Duration::from_nanos(drift as u64);
            assert!(line.contains(&format!(" | Drift: {:?} | Latency: ", drift)));
        }
    }
    assert_eq!(m.total_packets, 50);
    assert_eq!(m.stats.total_packets, 43);
    assert_eq!(board.edits("en.wikipedia.org"), 43);
    let both = |a: &Vec<Duration>, b: &Vec<Duration>| {
        let mut all = a.clone();
        all.extend(b.iter().copied());
        (all.len() as u64, sum_nanos(&all), max_duration(&all))
    };
    let s = m.stats;
    assert_eq!(
        both(&m.human.drifts, &m.bot.drifts),
        (s.total_packets, s.drift_sum_ns, s.max_drift)
    );
    assert_eq!(
        both(&m.human.latencies, &m.bot.latencies),
        (s.total_packets, s.latency_sum_ns, s.max_latency)
    );
    assert_eq!(
        both(&m.human.jitters, &m.bot.jitters),
        (s.jitter_samples, s.jitter_sum_ns, s.max_jitter)
    );
    assert_eq!(s.jitter_samples, 41);
    assert_eq!(s.total_violations, m.total_violations);
}

#[test]
fn the_packet_counter_wraps_around() {
    let mut m = Monitor::new();
    let mut board = Leaderboard::new();
    m.total_packets = u64::MAX;
    let mut clock = Clock::started_at(Instant::now());
    let now = clock.now();
    let lines = handle_packet(None, now, now, &mut clock, &mut board, &mut m, 2, 100, standard_deviation);
    assert!(lines.is_empty());
    assert_eq!(m.total_packets, 0);
    m.stats.drift_sum_ns = u128::MAX;
    assert!(!m.has_room());
}

#[test]
fn items_leave_in_the_order_in_which_they_came() {
    let mut q: BoundedQueue<u32> = BoundedQueue::new(4);
    let mut next = 0u32;
    let mut last_taken: Option<u32> = None;
    for round in 0..40u32 {
        for _ in 0..(round % 4) {
            q.offer(next);
            next += 1;
        }
        if let Some(item) = q.take() {
            assert!(last_taken < Some(item));
            last_taken = Some(item);
        }
        assert!(q.len() <= 4);
    }
    let left = q.len() as u32;
    for i in 0..left {
        assert_eq!(q.take(), Some(next - left + i));
    }
}
