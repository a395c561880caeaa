//! The tables that show the top of the leaderboard.

use crate::leaderboard::{bytes_before, law_ranking, ranking, standings, Leaderboard};
use crate::text::{
    decimal, decimal_string, lemma_decimal_len, pad_left, pad_right, padded_left, padded_right,
    texts,
};
use vstd::prelude::*;
use vstd::utf8::{decode_utf8, encode_utf8, is_char_boundary};

verus! {

/// The number of bytes beyond which a name is cut.
pub const NAME_LIMIT: usize = 30;

/// The number of bytes that are left of a name that is cut, at most.
pub const NAME_CUT: usize = 27;

/// Whether a name is too long for its column.
pub open spec fn is_long(domain: Seq<char>) -> bool {
    encode_utf8(domain).len() > NAME_LIMIT
}

/// The last place at or before byte `i` where a character begins or the text ends.
pub open spec fn boundary_before(bytes: Seq<u8>, i: nat) -> nat
    decreases i,
{
    if i == 0 || is_char_boundary(bytes, i as int) {
        i
    } else {
        boundary_before(bytes, (i - 1) as nat)
    }
}

/// The number of bytes that are left of a long name: as many whole characters as fit.
pub open spec fn cut_point(domain: Seq<char>) -> nat {
    boundary_before(encode_utf8(domain), NAME_CUT as nat)
}

/// The characters that are left of a long name.
pub open spec fn cut_name(domain: Seq<char>) -> Seq<char> {
    decode_utf8(encode_utf8(domain).subrange(0, cut_point(domain) as int))
}

/// A name in the table of the top three.
pub open spec fn plain_name(domain: Seq<char>) -> Seq<char> {
    if is_long(domain) {
        cut_name(domain)
    } else {
        domain
    }
}

/// A name in the final table, where dots mark a cut.
pub open spec fn dotted_name(domain: Seq<char>) -> Seq<char> {
    if is_long(domain) {
        cut_name(domain) + "..."@
    } else {
        domain
    }
}

/// A row of the table of the top three.
pub open spec fn top_row(name: Seq<char>, edits: Seq<char>) -> Seq<char> {
    "| "@ + padded_right(name, 30) + " | "@ + padded_left(edits, 8) + " |"@
}

/// A row of the final table.
pub open spec fn final_row(rank: Seq<char>, name: Seq<char>, edits: Seq<char>) -> Seq<char> {
    "| "@ + padded_right(rank, 4) + " | "@ + padded_right(name, 30) + " | "@ + padded_left(edits, 8)
        + " |"@
}

/// The number of rows of a table that shows at most `limit` domains.
pub open spec fn row_count(r: Seq<(Seq<char>, u64)>, limit: nat) -> nat {
    if r.len() < limit {
        r.len()
    } else {
        limit
    }
}

/// The rows of the table of the top three, from `r[0]` on.
pub open spec fn top_rows(r: Seq<(Seq<char>, u64)>, n: nat) -> Seq<Seq<char>> {
    Seq::new(n, |i: int| top_row(plain_name(r[i].0), decimal(r[i].1 as nat)))
}

/// The rows of the final table, from `r[0]` on.
pub open spec fn final_rows(r: Seq<(Seq<char>, u64)>, n: nat) -> Seq<Seq<char>> {
    Seq::new(
        n,
        |i: int|
            final_row(decimal((i + 1) as nat), dotted_name(r[i].0), decimal(r[i].1 as nat)),
    )
}

/// The table of the top three domains of a board.
pub open spec fn top_three_table(board: Map<Seq<char>, u64>) -> Seq<Seq<char>> {
    if board.is_empty() {
        seq!["[LEADERBOARD] No data yet."@]
    } else {
        seq![
            "\n\n[LEADERBOARD] Top 3 Domains:"@,
            "+--------------------------------+----------+"@,
            top_row("Domain"@, "Edits"@),
            "+--------------------------------+----------+"@,
        ] + top_rows(ranking(board), row_count(ranking(board), 3)) + seq![
            "+--------------------------------+----------+\n"@,
        ]
    }
}

/// The table of the top ten domains of a board.
pub open spec fn final_table(board: Map<Seq<char>, u64>) -> Seq<Seq<char>> {
    if board.is_empty() {
        seq!["\n[FINAL LEADERBOARD] No data processed yet.\n"@]
    } else {
        seq![
            "\n========== [FINAL LEADERBOARD - TOP 10] =========="@,
            "+------+--------------------------------+----------+"@,
            final_row("Rank"@, "Domain"@, "Edits"@),
            "+------+--------------------------------+----------+"@,
        ] + final_rows(ranking(board), row_count(ranking(board), 10)) + seq![
            "+------+--------------------------------+----------+\n"@,
        ]
    }
}

/// Cuts a long name behind the last character that fits.
fn cut(domain: &str) -> (name: &str)
    requires
        is_long(domain@),
    ensures
        name@ == cut_name(domain@),
{
    let mut end: usize = NAME_CUT;
    while end > 0 && !domain.is_char_boundary(end)
        invariant
            end <= NAME_CUT,
            boundary_before(encode_utf8(domain@), end as nat) == cut_point(domain@),
        decreases end,
    {
        end -= 1;
    }
    proof {
        lemma_boundary_before(domain@, NAME_CUT as nat);
    }
    let (name, _rest) = domain.split_at(end);
    proof {
        vstd::utf8::encode_utf8_decode_utf8(name@);
    }
    name
}

proof fn lemma_boundary_before(s: Seq<char>, i: nat)
    ensures
        ({
            let end = boundary_before(encode_utf8(s), i);
            &&& end <= i
            &&& is_char_boundary(encode_utf8(s), end as int)
            &&& forall|k: int| end < k <= i ==> !is_char_boundary(encode_utf8(s), k)
        }),
    decreases i,
{
    vstd::utf8::encode_utf8_valid_utf8(s);
    if i == 0 {
        vstd::utf8::is_char_boundary_start_end_of_seq(encode_utf8(s));
    } else if !is_char_boundary(encode_utf8(s), i as int) {
        lemma_boundary_before(s, (i - 1) as nat);
    }
}

/// Writes a row of the table of the top three.
pub fn top_row_string(name: &str, edits: &str) -> (row: String)
    ensures
        row@ == top_row(name@, edits@),
{
    let mut row = "| ".to_owned();
    row.append(pad_right(name, 30).as_str());
    row.append(" | ");
    row.append(pad_left(edits, 8).as_str());
    row.append(" |");
    row
}

/// Writes a row of the final table.
pub fn final_row_string(rank: &str, name: &str, edits: &str) -> (row: String)
    ensures
        row@ == final_row(rank@, name@, edits@),
{
    let mut row = "| ".to_owned();
    row.append(pad_right(rank, 4).as_str());
    row.append(" | ");
    row.append(pad_right(name, 30).as_str());
    row.append(" | ");
    row.append(pad_left(edits, 8).as_str());
    row.append(" |");
    row
}

/// Writes the table of the top three domains, with their edits.
pub fn print_top_three(leaderboard: &Leaderboard) -> (lines: Vec<String>)
    requires
        leaderboard.wf(),
    ensures
        texts(lines@) == top_three_table(leaderboard@),
{
    let mut lines: Vec<String> = Vec::new();
    if leaderboard.is_empty() {
        lines.push("[LEADERBOARD] No data yet.".to_owned());
        assert(texts(lines@) =~= top_three_table(leaderboard@));
        return lines;
    }
    lines.push("\n\n[LEADERBOARD] Top 3 Domains:".to_owned());
    let list = leaderboard.ranked();
    lines.push("+--------------------------------+----------+".to_owned());
    lines.push(top_row_string("Domain", "Edits"));
    lines.push("+--------------------------------+----------+".to_owned());
    let ghost head = texts(lines@);
    let ghost r = ranking(leaderboard@);
    let mut i: usize = 0;
    assert(head =~= seq![
        "\n\n[LEADERBOARD] Top 3 Domains:"@,
        "+--------------------------------+----------+"@,
        top_row("Domain"@, "Edits"@),
        "+--------------------------------+----------+"@,
    ]);
    assert(head + top_rows(r, 0) =~= head);
    while i < list.len() && i < 3
        invariant
            i <= list.len(),
            i <= 3,
            standings(list@) == r,
            r == ranking(leaderboard@),
            texts(lines@) == head + top_rows(r, i as nat),
        decreases list.len() - i,
    {
        let standing = list[i];
        assert(standings(list@)[i as int] == standing@);
        let edits = decimal_string(standing.edits);
        let row = if standing.domain.as_bytes().len() > NAME_LIMIT {
            top_row_string(cut(standing.domain), edits.as_str())
        } else {
            top_row_string(standing.domain, edits.as_str())
        };
        let ghost before = lines@;
        lines.push(row);
        i += 1;
        assert(texts(lines@) =~= texts(before).push(row@));
        assert(texts(lines@) =~= head + top_rows(r, i as nat));
    }
    let ghost body = lines@;
    lines.push("+--------------------------------+----------+\n".to_owned());
    assert(texts(lines@) =~= texts(body).push("+--------------------------------+----------+\n"@));
    assert(texts(lines@) =~= top_three_table(leaderboard@));
    lines
}

/// Writes the table of the top ten domains at the end of a run.
pub fn print_final_leaderboard(leaderboard: &Leaderboard) -> (lines: Vec<String>)
    requires
        leaderboard.wf(),
    ensures
        texts(lines@) == final_table(leaderboard@),
{
    let mut lines: Vec<String> = Vec::new();
    if leaderboard.is_empty() {
        lines.push("\n[FINAL LEADERBOARD] No data processed yet.\n".to_owned());
        assert(texts(lines@) =~= final_table(leaderboard@));
        return lines;
    }
    let list = leaderboard.ranked();
    lines.push("\n========== [FINAL LEADERBOARD - TOP 10] ==========".to_owned());
    lines.push("+------+--------------------------------+----------+".to_owned());
    lines.push(final_row_string("Rank", "Domain", "Edits"));
    lines.push("+------+--------------------------------+----------+".to_owned());
    let ghost head = texts(lines@);
    let ghost r = ranking(leaderboard@);
    let mut i: usize = 0;
    assert(head =~= seq![
        "\n========== [FINAL LEADERBOARD - TOP 10] =========="@,
        "+------+--------------------------------+----------+"@,
        final_row("Rank"@, "Domain"@, "Edits"@),
        "+------+--------------------------------+----------+"@,
    ]);
    assert(head + final_rows(r, 0) =~= head);
    while i < list.len() && i < 10
        invariant
            i <= list.len(),
            i <= 10,
            standings(list@) == r,
            r == ranking(leaderboard@),
            texts(lines@) == head + final_rows(r, i as nat),
        decreases list.len() - i,
    {
        let standing = list[i];
        assert(standings(list@)[i as int] == standing@);
        let rank = decimal_string(i as u64 + 1);
        let edits = decimal_string(standing.edits);
        let row = if standing.domain.as_bytes().len() > NAME_LIMIT {
            let mut name = cut(standing.domain).to_owned();
            name.append("...");
            final_row_string(rank.as_str(), name.as_str(), edits.as_str())
        } else {
            final_row_string(rank.as_str(), standing.domain, edits.as_str())
        };
        let ghost before = lines@;
        lines.push(row);
        i += 1;
        assert(texts(lines@) =~= texts(before).push(row@));
        assert(texts(lines@) =~= head + final_rows(r, i as nat));
    }
    let ghost body = lines@;
    lines.push("+------+--------------------------------+----------+\n".to_owned());
    assert(texts(lines@) =~= texts(body).push(
        "+------+--------------------------------+----------+\n"@,
    ));
    assert(texts(lines@) =~= final_table(leaderboard@));
    lines
}

proof fn lemma_chars_at_most_bytes(s: Seq<char>)
    ensures
        s.len() <= encode_utf8(s).len(),
    decreases s.len(),
{
    if s.len() > 0 {
        lemma_chars_at_most_bytes(s.drop_first());
    }
}

/// Cutting a long name leaves the beginning of the name, in whole characters: as many as take no
/// more bytes than the cut leaves.
pub proof fn law_cut_is_longest_prefix(domain: Seq<char>)
    requires
        is_long(domain),
    ensures
        cut_name(domain).is_prefix_of(domain),
        encode_utf8(cut_name(domain)) == encode_utf8(domain).subrange(0, cut_point(domain) as int),
        cut_point(domain) <= NAME_CUT,
        cut_name(domain).len() <= NAME_CUT,
        is_char_boundary(encode_utf8(domain), cut_point(domain) as int),
        forall|k: int|
            cut_point(domain) < k <= NAME_CUT ==> !is_char_boundary(encode_utf8(domain), k),
{
    let bytes = encode_utf8(domain);
    let end = cut_point(domain) as int;
    lemma_boundary_before(domain, NAME_CUT as nat);
    vstd::utf8::encode_utf8_valid_utf8(domain);
    vstd::utf8::encode_utf8_decode_utf8(domain);
    vstd::utf8::valid_utf8_split(bytes, end);
    vstd::utf8::decode_utf8_split(bytes, end);
    vstd::utf8::decode_utf8_encode_utf8(bytes.subrange(0, end));
    lemma_chars_at_most_bytes(cut_name(domain));
    assert(domain.subrange(0, cut_name(domain).len() as int) =~= cut_name(domain));
}

/// A name is never wider than its column, cut or not.
pub proof fn law_names_fit(domain: Seq<char>)
    ensures
        plain_name(domain).len() <= 30,
        dotted_name(domain).len() <= 30,
{
    reveal_strlit("...");
    if is_long(domain) {
        law_cut_is_longest_prefix(domain);
    } else {
        lemma_chars_at_most_bytes(domain);
    }
}

/// As long as the edits take no more than eight digits, the rows of both tables are as wide as
/// their borders.
pub proof fn law_rows_match_borders(rank: nat, domain: Seq<char>, edits: nat)
    requires
        edits < 100_000_000,
        rank < 10_000,
    ensures
        top_row(plain_name(domain), decimal(edits)).len()
            == "+--------------------------------+----------+"@.len(),
        final_row(decimal(rank), dotted_name(domain), decimal(edits)).len()
            == "+------+--------------------------------+----------+"@.len(),
{
    reveal_strlit("| ");
    reveal_strlit(" | ");
    reveal_strlit(" |");
    reveal_strlit("+--------------------------------+----------+");
    reveal_strlit("+------+--------------------------------+----------+");
    law_names_fit(domain);
    reveal_with_fuel(vstd::arithmetic::power::pow, 9);
    assert(vstd::arithmetic::power::pow(10, 4) == 10_000);
    assert(vstd::arithmetic::power::pow(10, 8) == 100_000_000);
    lemma_decimal_len(edits, 8);
    lemma_decimal_len(rank, 4);
}

/// The table of the top three shows the domains of the first rows of the final table, in the
/// same order and with the same edits.
pub proof fn law_tables_agree(board: Map<Seq<char>, u64>, i: int)
    requires
        !board.is_empty(),
        0 <= i < row_count(ranking(board), 3),
    ensures
        top_three_table(board)[4 + i] == top_row(
            plain_name(ranking(board)[i].0),
            decimal(ranking(board)[i].1 as nat),
        ),
        final_table(board)[4 + i] == final_row(
            decimal((i + 1) as nat),
            dotted_name(ranking(board)[i].0),
            decimal(ranking(board)[i].1 as nat),
        ),
{
}

/// A name is too long from its thirty-first byte on. A name that is not is shown as it is in both
/// tables. Of one that is, whole characters of no more than twenty-seven bytes are left from its
/// beginning, and as many as fit: the next character would not. The final table marks the cut.
pub proof fn law_long_names(domain: Seq<char>)
    ensures
        is_long(domain) <==> encode_utf8(domain).len() > 30,
        !is_long(domain) ==> plain_name(domain) == domain && dotted_name(domain) == domain,
        is_long(domain) ==> {
            let name = plain_name(domain);
            &&& domain.take(name.len() as int) == name
            &&& name.len() < domain.len()
            &&& encode_utf8(name).len() <= 27
            &&& forall|k: int|
                encode_utf8(name).len() < k <= 27 ==> !is_char_boundary(encode_utf8(domain), k)
            &&& dotted_name(domain) == name + seq!['.', '.', '.']
        },
{
    if is_long(domain) {
        law_cut_is_longest_prefix(domain);
        reveal_strlit("...");
        assert("..."@ =~= seq!['.', '.', '.']);
        let name = plain_name(domain);
        assert(name.len() <= domain.len());
        assert(domain.take(name.len() as int) =~= name);
        if name.len() == domain.len() {
            assert(name =~= domain);
        }
    }
}

/// A row sets its cells between bars: names to the left in cells of thirty characters, ranks to
/// the left in cells of four, and edits to the right in cells of eight.
pub proof fn law_rows(rank: Seq<char>, name: Seq<char>, edits: Seq<char>)
    ensures
        top_row(name, edits) == "| "@ + padded_right(name, 30) + " | "@ + padded_left(edits, 8)
            + " |"@,
        final_row(rank, name, edits) == "| "@ + padded_right(rank, 4) + " "@ + top_row(name, edits),
{
    reveal_strlit("| ");
    reveal_strlit(" | ");
    reveal_strlit(" ");
    reveal_strlit(" |");
    assert(final_row(rank, name, edits) =~= "| "@ + padded_right(rank, 4) + " "@ + top_row(
        name,
        edits,
    ));
}

/// The tables frame one row for each of the first domains of the ranking, three at most and ten at
/// most. A board without domains has a line that says so instead.
pub proof fn law_table_frames(board: Map<Seq<char>, u64>)
    ensures
        board.is_empty() ==> top_three_table(board) == seq!["[LEADERBOARD] No data yet."@],
        board.is_empty() ==> final_table(board) == seq![
            "\n[FINAL LEADERBOARD] No data processed yet.\n"@,
        ],
        !board.is_empty() ==> {
            let t = top_three_table(board);
            &&& t.len() == 5 + vstd::math::min(ranking(board).len() as int, 3)
            &&& t[0] == "\n\n[LEADERBOARD] Top 3 Domains:"@
            &&& t[1] == "+--------------------------------+----------+"@
            &&& t[2] == top_row("Domain"@, "Edits"@)
            &&& t[3] == "+--------------------------------+----------+"@
            &&& t.last() == "+--------------------------------+----------+\n"@
        },
        !board.is_empty() ==> {
            let t = final_table(board);
            &&& t.len() == 5 + vstd::math::min(ranking(board).len() as int, 10)
            &&& t[0] == "\n========== [FINAL LEADERBOARD - TOP 10] =========="@
            &&& t[1] == "+------+--------------------------------+----------+"@
            &&& t[2] == final_row("Rank"@, "Domain"@, "Edits"@)
            &&& t[3] == "+------+--------------------------------+----------+"@
            &&& t.last() == "+------+--------------------------------+----------+\n"@
        },
{
}

/// Every row of a table shows the domain of its own place in the ranking, with that domain's
/// edits, and in the final table under the number of the place. This holds of all rows: three at
/// most in the one table, and ten at most in the other.
pub proof fn law_row_shows_its_place(board: Map<Seq<char>, u64>, i: int)
    requires
        board.dom().finite(),
        0 <= i < ranking(board).len(),
    ensures
        board.contains_key(ranking(board)[i].0),
        i < 3 ==> top_three_table(board)[4 + i] == top_row(
            plain_name(ranking(board)[i].0),
            decimal(board[ranking(board)[i].0] as nat),
        ),
        i < 10 ==> final_table(board)[4 + i] == final_row(
            decimal((i + 1) as nat),
            dotted_name(ranking(board)[i].0),
            decimal(board[ranking(board)[i].0] as nat),
        ),
{
    law_ranking(board);
    let d = ranking(board)[i].0;
    assert(board.contains_key(d));
    assert(!board.is_empty()) by {
        assert(board.dom().contains(d));
    }
}

/// From any row of the final table to any later one, and likewise in the table of the top three,
/// the edits shown never increase, and equal edits are shown by ascending names. No domain is
/// shown twice.
pub proof fn law_rows_descend(board: Map<Seq<char>, u64>, i: int, j: int)
    requires
        board.dom().finite(),
        0 <= i < j < ranking(board).len(),
        j < 10,
    ensures
        exists|a: Seq<char>, b: Seq<char>|
            {
                &&& #[trigger] board.contains_key(a)
                &&& #[trigger] board.contains_key(b)
                &&& a != b
                &&& final_table(board)[4 + i] == final_row(
                    decimal((i + 1) as nat),
                    dotted_name(a),
                    decimal(board[a] as nat),
                )
                &&& final_table(board)[4 + j] == final_row(
                    decimal((j + 1) as nat),
                    dotted_name(b),
                    decimal(board[b] as nat),
                )
                &&& j < 3 ==> top_three_table(board)[4 + i] == top_row(
                    plain_name(a),
                    decimal(board[a] as nat),
                )
                &&& j < 3 ==> top_three_table(board)[4 + j] == top_row(
                    plain_name(b),
                    decimal(board[b] as nat),
                )
                &&& board[a] >= board[b]
                &&& board[a] == board[b] ==> bytes_before(encode_utf8(a), encode_utf8(b))
            },
{
    law_ranking(board);
    law_row_shows_its_place(board, i);
    law_row_shows_its_place(board, j);
    let a = ranking(board)[i].0;
    let b = ranking(board)[j].0;
    assert(board.contains_key(a) && board.contains_key(b));
}

/// The rows of the final table are those of the domains with the most edits: for each of its rows
/// there is a domain of the board that it shows with its edits, and a domain that no row shows has
/// no more edits than any domain that a row shows. The same holds of the top three.
pub proof fn law_tables_show_the_top(board: Map<Seq<char>, u64>, i: int, limit: nat, other: Seq<char>)
    requires
        board.dom().finite(),
        0 <= i < limit,
        i < ranking(board).len(),
        limit == 3 || limit == 10,
        board.contains_key(other),
        forall|k: int| 0 <= k < limit && k < ranking(board).len() ==> (
        #[trigger] ranking(board)[k]).0 != other,
    ensures
        ({
            let shown = ranking(board)[i].0;
            &&& board.contains_key(shown)
            &&& limit == 10 ==> final_table(board)[4 + i] == final_row(
                decimal((i + 1) as nat),
                dotted_name(shown),
                decimal(board[shown] as nat),
            )
            &&& limit == 3 ==> top_three_table(board)[4 + i] == top_row(
                plain_name(shown),
                decimal(board[shown] as nat),
            )
            &&& board[other] <= board[shown]
        }),
{
    law_ranking(board);
    let r = ranking(board);
    assert(board.contains_key(r[i].0));
    assert(!board.is_empty()) by {
        assert(board.dom().contains(other));
    }
    let k = choose|k: int| 0 <= k < r.len() && (#[trigger] r[k]).0 == other;
    assert(k >= limit);
    assert(r[i].1 >= r[k].1);
    assert(board[r[k].0] == r[k].1);
}

} // verus!
