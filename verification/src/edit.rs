//! Edit events: how they are framed in the stream, and which lane they take.

use vstd::prelude::*;

verus! {

/// An edit event.
#[derive(Clone, Copy, Debug, PartialEq, Eq)]
pub struct WikipediaEdit<'a> {
    /// The server whose wiki was edited.
    pub server: &'a str,
    /// The user who made the edit.
    pub user: &'a str,
    /// Whether the edit was made by a bot.
    pub bot: bool,
}

/// The lanes by which packets reach the consumer.
#[derive(Clone, Copy, Debug, PartialEq, Eq)]
pub enum Lane {
    Human,
    Bot,
}

/// The lane of an event: the bots' for an edit made by a bot, and the humans' for everything
/// else, an event that is no edit among them.
pub open spec fn lane_of(edit: Option<WikipediaEdit<'_>>) -> Lane {
    if edit is Some && (edit->0).bot {
        Lane::Bot
    } else {
        Lane::Human
    }
}

/// Chooses the lane of an event.
pub fn route(edit: Option<WikipediaEdit<'_>>) -> (lane: Lane)
    ensures
        lane == lane_of(edit),
{
    match edit {
        Some(edit) => if edit.bot {
            Lane::Bot
        } else {
            Lane::Human
        },
        None => Lane::Human,
    }
}

/// The data of a line of the stream: what follows the field name `data`, its colon and a blank.
/// Other lines carry none.
pub open spec fn payload(line: Seq<char>) -> Option<Seq<char>> {
    if "data: "@.is_prefix_of(line) {
        Some(line.skip(6))
    } else {
        None
    }
}

/// Takes the data out of a line of the stream.
pub fn event_payload<'a>(line: &'a str) -> (data: Option<&'a str>)
    ensures
        data is Some <==> payload(line@) is Some,
        data is Some ==> (data->0)@ == payload(line@)->0,
{
    proof {
        reveal_strlit("data: ");
    }
    let n = line.unicode_len();
    if n >= 6 && line.get_char(0) == 'd' && line.get_char(1) == 'a' && line.get_char(2) == 't'
        && line.get_char(3) == 'a' && line.get_char(4) == ':' && line.get_char(5) == ' ' {
        assert("data: "@ =~= line@.subrange(0, 6));
        assert(line@.skip(6) =~= line@.subrange(6, n as int));
        Some(line.substring_char(6, n))
    } else {
        proof {
            if "data: "@.is_prefix_of(line@) {
                let head = line@.subrange(0, 6);
                assert(head[0] == line@[0] && head[1] == line@[1] && head[2] == line@[2]);
                assert(head[3] == line@[3] && head[4] == line@[4] && head[5] == line@[5]);
            }
        }
        None
    }
}

/// Whether a character is white space in the sense of Unicode's property of that name.
pub open spec fn is_blank(c: char) -> bool {
    let n = c as u32;
    ||| 0x9 <= n <= 0xd
    ||| n == 0x20
    ||| n == 0x85
    ||| n == 0xa0
    ||| n == 0x1680
    ||| 0x2000 <= n <= 0x200a
    ||| n == 0x2028
    ||| n == 0x2029
    ||| n == 0x202f
    ||| n == 0x205f
    ||| n == 0x3000
}

/// A text without the white space at its beginning.
pub open spec fn without_leading_blanks(s: Seq<char>) -> Seq<char>
    decreases s.len(),
{
    if s.len() > 0 && is_blank(s[0]) {
        without_leading_blanks(s.drop_first())
    } else {
        s
    }
}

/// A text without the white space at its end.
pub open spec fn without_trailing_blanks(s: Seq<char>) -> Seq<char>
    decreases s.len(),
{
    if s.len() > 0 && is_blank(s.last()) {
        without_trailing_blanks(s.drop_last())
    } else {
        s
    }
}

/// A text without the white space around it.
pub open spec fn trimmed(s: Seq<char>) -> Seq<char> {
    without_trailing_blanks(without_leading_blanks(s))
}

/// Tells whether a character is white space.
pub fn is_blank_char(c: char) -> (r: bool)
    ensures
        r == is_blank(c),
{
    let n = c as u32;
    (0x9 <= n && n <= 0xd) || n == 0x20 || n == 0x85 || n == 0xa0 || n == 0x1680 || (0x2000 <= n
        && n <= 0x200a) || n == 0x2028 || n == 0x2029 || n == 0x202f || n == 0x205f || n == 0x3000
}

/// Takes the white space off both ends of a text.
pub fn trim<'a>(text: &'a str) -> (out: &'a str)
    ensures
        out@ == trimmed(text@),
{
    let mut chars: Vec<char> = Vec::new();
    for c in iter: text.chars()
        invariant
            chars@ =~= text@.take(iter.index() as int),
            iter.seq() == text@,
    {
        chars.push(c);
    }
    let n = chars.len();
    assert(chars@ =~= text@);
    let mut start: usize = 0;
    assert(text@.skip(0) =~= text@);
    while start < n && is_blank_char(chars[start])
        invariant
            start <= n,
            n == chars.len(),
            chars@ == text@,
            without_leading_blanks(text@) == without_leading_blanks(text@.skip(start as int)),
        decreases n - start,
    {
        assert(text@.skip(start as int).drop_first() =~= text@.skip(start + 1));
        start += 1;
    }
    let ghost tail = text@.skip(start as int);
    let mut end: usize = n;
    assert(text@.subrange(start as int, n as int) =~= tail);
    while start < end && is_blank_char(chars[end - 1])
        invariant
            start <= end <= n,
            n == chars.len(),
            chars@ == text@,
            without_trailing_blanks(tail) == without_trailing_blanks(
                text@.subrange(start as int, end as int),
            ),
        decreases end,
    {
        assert(text@.subrange(start as int, end as int).drop_last() =~= text@.subrange(
            start as int,
            end - 1,
        ));
        end -= 1;
    }
    text.substring_char(start, end)
}

/// A line that carries data is the field name in front of the data, and every such line carries
/// what stands behind the field name.
pub proof fn law_framing(line: Seq<char>, data: Seq<char>)
    ensures
        payload("data: "@ + data) == Some(data),
        payload(line) == Some(data) <==> line == "data: "@ + data,
{
    reveal_strlit("data: ");
    let framed = "data: "@ + data;
    assert(framed.subrange(0, 6) =~= "data: "@);
    assert(framed.skip(6) =~= data);
    if payload(line) == Some(data) {
        assert(line =~= line.subrange(0, 6) + line.skip(6));
    }
}

/// A trimmed text neither begins nor ends with white space, and trimming it again leaves it as
/// it is.
pub proof fn law_trimmed(s: Seq<char>)
    ensures
        trimmed(s).len() > 0 ==> !is_blank(trimmed(s)[0]) && !is_blank(trimmed(s).last()),
        trimmed(trimmed(s)) == trimmed(s),
{
    let t = without_leading_blanks(s);
    lemma_leading(s);
    lemma_trailing(t);
    let u = trimmed(s);
    if u.len() > 0 {
        assert(u[0] == t[0]);
    }
}

proof fn lemma_leading(s: Seq<char>)
    ensures
        without_leading_blanks(s).len() > 0 ==> !is_blank(without_leading_blanks(s)[0]),
    decreases s.len(),
{
    if s.len() > 0 && is_blank(s[0]) {
        lemma_leading(s.drop_first());
    }
}

proof fn lemma_trailing(s: Seq<char>)
    ensures
        without_trailing_blanks(s).len() > 0 ==> !is_blank(without_trailing_blanks(s).last()),
        without_trailing_blanks(s).is_prefix_of(s),
    decreases s.len(),
{
    if s.len() > 0 && is_blank(s.last()) {
        lemma_trailing(s.drop_last());
        let t = without_trailing_blanks(s);
        assert(t =~= s.subrange(0, t.len() as int));
    } else {
        assert(s =~= s.subrange(0, s.len() as int));
    }
}

/// An event takes the lane of bots exactly when it is an edit, and a bot made it.
pub proof fn law_lane_of(edit: Option<WikipediaEdit<'_>>)
    ensures
        edit is None ==> lane_of(edit) is Human,
        edit matches Some(e) ==> (lane_of(edit) is Bot <==> e.bot),
{
}

/// Trimming takes white space off both ends of a text and nothing else: what is left stands in the
/// text between two stretches of white space.
pub proof fn law_trimming_takes_white_space(s: Seq<char>)
    ensures
        exists|start: int, end: int|
            {
                &&& 0 <= start <= end <= s.len()
                &&& trimmed(s) == #[trigger] s.subrange(start, end)
                &&& forall|i: int| 0 <= i < start ==> is_blank(#[trigger] s[i])
                &&& forall|i: int| end <= i < s.len() ==> is_blank(#[trigger] s[i])
            },
{
    let start = lemma_leading_blanks(s);
    let t = without_leading_blanks(s);
    let len = lemma_trailing_blanks(t);
    assert(trimmed(s) =~= s.subrange(start, start + len));
    assert forall|i: int| start + len <= i < s.len() implies is_blank(#[trigger] s[i]) by {
        assert(t[i - start] == s[i]);
    }
}

proof fn lemma_leading_blanks(s: Seq<char>) -> (start: int)
    ensures
        0 <= start <= s.len(),
        without_leading_blanks(s) == s.skip(start),
        forall|i: int| 0 <= i < start ==> is_blank(#[trigger] s[i]),
    decreases s.len(),
{
    if s.len() > 0 && is_blank(s[0]) {
        let rest = s.drop_first();
        let start = lemma_leading_blanks(rest);
        assert(rest.skip(start) =~= s.skip(start + 1));
        assert forall|i: int| 0 <= i < start + 1 implies is_blank(#[trigger] s[i]) by {
            if i > 0 {
                assert(rest[i - 1] == s[i]);
            }
        }
        start + 1
    } else {
        assert(s.skip(0) =~= s);
        0
    }
}

proof fn lemma_trailing_blanks(s: Seq<char>) -> (len: int)
    ensures
        0 <= len <= s.len(),
        without_trailing_blanks(s) == s.take(len),
        forall|i: int| len <= i < s.len() ==> is_blank(#[trigger] s[i]),
    decreases s.len(),
{
    if s.len() > 0 && is_blank(s.last()) {
        let rest = s.drop_last();
        let len = lemma_trailing_blanks(rest);
        assert(rest.take(len) =~= s.take(len));
        assert forall|i: int| len <= i < s.len() implies is_blank(#[trigger] s[i]) by {
            if i < s.len() - 1 {
                assert(rest[i] == s[i]);
            }
        }
        len
    } else {
        assert(s.take(s.len() as int) =~= s);
        s.len() as int
    }
}

} // verus!
