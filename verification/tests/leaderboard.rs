use rts_wiki::leaderboard::{update_leaderboard, Leaderboard};
use rts_wiki::order::sorted;
use rts_wiki::tables::{final_row_string, top_row_string};
use rts_wiki::text::{bool_str, decimal_string, pad_left, pad_right};
use rts_wiki::{print_final_leaderboard, print_top_three, Duration};

fn board(counts: &[(&str, u64)]) -> Leaderboard {
    let mut board = Leaderboard::new();
    for (domain, n) in counts {
        for _ in 0..*n {
            update_leaderboard(&mut board, domain);
        }
    }
    board
}

fn ranked(board: &Leaderboard) -> Vec<(String, u64)> {
    board.ranked().iter().map(|s| (s.domain.to_string(), s.edits)).collect()
}

#[test]
fn edits_are_counted_by_domain() {
    let mut b = Leaderboard::new();
    assert!(b.is_empty());
    assert_eq!(b.edits("en.wikipedia.org"), 0);
    update_leaderboard(&mut b, "en.wikipedia.org");
    update_leaderboard(&mut b, "de.wikipedia.org");
    update_leaderboard(&mut b, "en.wikipedia.org");
    assert!(!b.is_empty());
    assert_eq!(b.edits("en.wikipedia.org"), 2);
    assert_eq!(b.edits("de.wikipedia.org"), 1);
    assert_eq!(b.edits("fr.wikipedia.org"), 0);
}

#[test]
fn the_order_of_updates_makes_no_difference() {
    let mut a = Leaderboard::new();
    let mut b = Leaderboard::new();
    for d in ["x", "y", "x"] {
        update_leaderboard(&mut a, d);
    }
    for d in ["y", "x", "x"] {
        update_leaderboard(&mut b, d);
    }
    assert_eq!(ranked(&a), ranked(&b));
    let total: u64 = ranked(&a).iter().map(|s| s.1).sum();
    assert_eq!(total, 3);
}

#[test]
fn counts_are_occurrences() {
    let names = ["a", "b", "c", "d"];
    let updates: Vec<&str> = (0..200usize).map(|i| names[(i * i + i / 7) % 3]).collect();
    let mut b = Leaderboard::new();
    for d in &updates {
        update_leaderboard(&mut b, d);
    }
    for name in names {
        let n = updates.iter().filter(|d| **d == name).count();
        assert_eq!(b.edits(name), n as u64);
        assert_eq!(ranked(&b).iter().any(|s| s.0 == name), n > 0);
    }
    assert_eq!(ranked(&b).iter().map(|s| s.1).sum::<u64>(), 200);
}

#[test]
fn ranking_goes_by_edits_then_by_name() {
    let b = board(&[("b", 2), ("c", 5), ("a", 2), ("B", 2), ("ab", 2), ("é", 2), ("", 2)]);
    let expected: Vec<(String, u64)> =
        [("c", 5), ("", 2), ("B", 2), ("a", 2), ("ab", 2), ("b", 2), ("é", 2)]
            .iter()
            .map(|(d, n)| (d.to_string(), *n))
            .collect();
    assert_eq!(ranked(&b), expected);
}

#[test]
fn ranking_matches_a_sort_of_the_entries() {
    let names: Vec<String> = (0..60).map(|i| format!("d{}.org", (i * 37) % 61)).collect();
    let counts: Vec<(&str, u64)> =
        names.iter().enumerate().map(|(i, d)| (d.as_str(), 1 + (i as u64 * 7) % 5)).collect();
    let b = board(&counts);
    let mut expected: Vec<(String, u64)> =
        counts.iter().map(|(d, n)| (d.to_string(), *n)).collect();
    expected.sort_by(|a, b| b.1.cmp(&a.1).then_with(|| a.0.cmp(&b.0)));
    assert_eq!(ranked(&b), expected);
}

#[test]
fn sorting_keeps_every_element() {
    let values: Vec<u64> = (0..257).map(|i| (i * 7919) % 101).collect();
    let spans: Vec<Duration> = values.iter().map(|n| Duration::from_nanos(*n)).collect();
    let mut expected = values.clone();
    expected.sort();
    let out: Vec<u64> = sorted(&spans).iter().map(|d| d.as_nanos() as u64).collect();
    assert_eq!(out, expected);
}

#[test]
fn empty_boards_say_so() {
    let b = Leaderboard::new();
    assert_eq!(print_top_three(&b), ["[LEADERBOARD] No data yet."]);
    assert_eq!(
        print_final_leaderboard(&b),
        ["\n[FINAL LEADERBOARD] No data processed yet.\n"]
    );
}

#[test]
fn top_three_table() {
    let b = board(&[
        ("en.wikipedia.org", 12),
        ("commons.wikimedia.org", 7),
        ("a-domain-whose-name-is-too-long.example.org", 9),
        ("de.wikipedia.org", 3),
    ]);
    assert_eq!(
        print_top_three(&b),
        [
            "\n\n[LEADERBOARD] Top 3 Domains:",
            "+--------------------------------+----------+",
            "| Domain                         |    Edits |",
            "+--------------------------------+----------+",
            "| en.wikipedia.org               |       12 |",
            "| a-domain-whose-name-is-too-    |        9 |",
            "| commons.wikimedia.org          |        7 |",
            "+--------------------------------+----------+\n",
        ]
    );
}

#[test]
fn final_table() {
    let mut counts: Vec<(String, u64)> =
        (1..=11).map(|i| (format!("d{}.org", i), i as u64)).collect();
    counts.push(("a-domain-whose-name-is-too-long.example.org".to_string(), 20));
    let counts: Vec<(&str, u64)> = counts.iter().map(|(d, n)| (d.as_str(), *n)).collect();
    let b = board(&counts);
    let lines = print_final_leaderboard(&b);
    assert_eq!(lines.len(), 4 + 10 + 1);
    assert_eq!(lines[0], "\n========== [FINAL LEADERBOARD - TOP 10] ==========");
    assert_eq!(lines[1], "+------+--------------------------------+----------+");
    assert_eq!(lines[2], "| Rank | Domain                         |    Edits |");
    assert_eq!(lines[3], "+------+--------------------------------+----------+");
    assert_eq!(lines[4], "| 1    | a-domain-whose-name-is-too-... |       20 |");
    assert_eq!(lines[5], "| 2    | d11.org                        |       11 |");
    assert_eq!(lines[13], "| 10   | d3.org                         |        3 |");
    assert_eq!(lines[14], "+------+--------------------------------+----------+\n");
    for row in &lines[4..14] {
        assert_eq!(row.len(), lines[3].len());
    }
}

#[test]
fn names_are_cut_beyond_thirty_bytes() {
    let thirty = "123456789.123456789.1234567890";
    let b = board(&[(thirty, 2), ("123456789.123456789.12345678901", 1)]);
    let lines = print_final_leaderboard(&b);
    assert_eq!(lines[4], "| 1    | 123456789.123456789.1234567890 |        2 |");
    assert_eq!(lines[5], "| 2    | 123456789.123456789.1234567... |        1 |");
}

#[test]
fn a_cut_does_not_divide_a_character() {
    let sixteen = "\u{e9}".repeat(16);
    for (name, end) in [
        ("1234567890123456789012345\u{e9}89012", 27),
        ("12345678901234567890123456\u{e9}4567", 26),
        ("1234567890123456789012345\u{20ac}4567", 25),
        ("123456789012345678901234\u{1f600}4567", 24),
        (sixteen.as_str(), 26),
    ] {
        assert!(name.len() > 30 && name.is_char_boundary(end));
        assert!((end + 1..=27).all(|k| !name.is_char_boundary(k)));
        let b = board(&[(name, 1)]);
        let top = print_top_three(&b);
        assert_eq!(top[4], format!("| {:<30} | {:>8} |", &name[..end], 1));
        assert_eq!(top[4].chars().count(), top[3].len());
        assert_eq!(top[5], "+--------------------------------+----------+\n");
        let all = print_final_leaderboard(&b);
        assert_eq!(
            all[4],
            format!("| {:<4} | {:<30} | {:>8} |", 1, format!("{}...", &name[..end]), 1)
        );
        assert_eq!(all[4].chars().count(), all[3].len());
        assert_eq!(all[5], "+------+--------------------------------+----------+\n");
    }
}

#[test]
fn rows_are_padded_by_characters() {
    assert_eq!(top_row_string("ü", "5"), format!("| {:<30} | {:>8} |", "ü", 5));
    assert_eq!(
        final_row_string("3", "ü", "123456789"),
        format!("| {:<4} | {:<30} | {:>8} |", 3, "ü", 123456789)
    );
}

#[test]
fn cells_and_numbers() {
    for n in [0u64, 7, 10, 99, 100, 4711, 1_000_000, u64::MAX] {
        assert_eq!(decimal_string(n), n.to_string());
        assert_eq!(decimal_string(n).parse::<u64>().unwrap(), n);
    }
    assert_eq!(pad_right("ab", 4), "ab  ");
    assert_eq!(pad_left("ab", 4), "  ab");
    assert_eq!(pad_right("abcde", 4), "abcde");
    assert_eq!(pad_left("abcde", 4), "abcde");
    assert_eq!(bool_str(true), "true");
    assert_eq!(bool_str(false), "false");
}

#[test]
fn both_tables_show_the_same_order() {
    let b = board(&[("w", 1), ("x", 4), ("y", 4), ("z", 2)]);
    let top = print_top_three(&b);
    let all = print_final_leaderboard(&b);
    for i in 0..3 {
        assert_eq!(all[4 + i], format!("| {:<4} {}", i + 1, top[4 + i]));
    }
    assert_eq!(all[7], "| 4    | w                              |        1 |");
}

#[test]
fn wide_counts_break_the_border() {
    assert_eq!(top_row_string("x", "99999999").len(), 45);
    assert_eq!(top_row_string("x", "100000000").len(), 46);
}
