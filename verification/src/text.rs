//! Building blocks of the printed lines: decimal numbers and padded cells.

use vstd::prelude::*;

verus! {

/// The texts that a list of strings holds.
pub open spec fn texts(lines: Seq<String>) -> Seq<Seq<char>> {
    lines.map_values(|line: String| line@)
}

/// `n` blanks.
pub open spec fn blanks(n: nat) -> Seq<char> {
    Seq::new(n, |i: int| ' ')
}

/// The character of a decimal digit.
pub open spec fn digit(d: nat) -> char {
    if d == 0 {
        '0'
    } else if d == 1 {
        '1'
    } else if d == 2 {
        '2'
    } else if d == 3 {
        '3'
    } else if d == 4 {
        '4'
    } else if d == 5 {
        '5'
    } else if d == 6 {
        '6'
    } else if d == 7 {
        '7'
    } else if d == 8 {
        '8'
    } else {
        '9'
    }
}

/// The decimal notation of `n`, without leading zeros.
pub open spec fn decimal(n: nat) -> Seq<char>
    decreases n,
{
    if n < 10 {
        seq![digit(n)]
    } else {
        decimal(n / 10).push(digit(n % 10))
    }
}

/// `text`, followed by as many blanks as it takes to be `width` characters wide.
pub open spec fn padded_right(text: Seq<char>, width: nat) -> Seq<char> {
    if text.len() < width {
        text + blanks((width - text.len()) as nat)
    } else {
        text
    }
}

/// `text`, preceded by as many blanks as it takes to be `width` characters wide.
pub open spec fn padded_left(text: Seq<char>, width: nat) -> Seq<char> {
    if text.len() < width {
        blanks((width - text.len()) as nat) + text
    } else {
        text
    }
}

/// The text of a truth value.
pub open spec fn bool_text(b: bool) -> Seq<char> {
    if b {
        "true"@
    } else {
        "false"@
    }
}

/// Writes a digit.
fn digit_str(d: u64) -> (s: &'static str)
    requires
        d < 10,
    ensures
        s@ == seq![digit(d as nat)],
{
    proof {
        reveal_strlit("0");
        reveal_strlit("1");
        reveal_strlit("2");
        reveal_strlit("3");
        reveal_strlit("4");
        reveal_strlit("5");
        reveal_strlit("6");
        reveal_strlit("7");
        reveal_strlit("8");
        reveal_strlit("9");
    }
    match d {
        0 => "0",
        1 => "1",
        2 => "2",
        3 => "3",
        4 => "4",
        5 => "5",
        6 => "6",
        7 => "7",
        8 => "8",
        _ => "9",
    }
}

/// Writes a number in decimal notation.
pub fn decimal_string(n: u64) -> (s: String)
    ensures
        s@ == decimal(n as nat),
    decreases n,
{
    if n < 10 {
        digit_str(n).to_owned()
    } else {
        let mut s = decimal_string(n / 10);
        s.append(digit_str(n % 10));
        s
    }
}

/// Writes `n` blanks.
fn blank_string(n: usize) -> (s: String)
    ensures
        s@ == blanks(n as nat),
{
    proof {
        reveal_strlit(" ");
    }
    let mut s = String::new();
    let mut i: usize = 0;
    while i < n
        invariant
            i <= n,
            s@ == blanks(i as nat),
            " "@ == seq![' '],
        decreases n - i,
    {
        s.append(" ");
        i += 1;
    }
    s
}

/// Fills `text` up with blanks on the right until it is `width` characters wide.
pub fn pad_right(text: &str, width: usize) -> (s: String)
    ensures
        s@ == padded_right(text@, width as nat),
{
    let len = text.unicode_len();
    let mut s = text.to_owned();
    if len < width {
        s.append(blank_string(width - len).as_str());
    }
    s
}

/// Fills `text` up with blanks on the left until it is `width` characters wide.
pub fn pad_left(text: &str, width: usize) -> (s: String)
    ensures
        s@ == padded_left(text@, width as nat),
{
    let len = text.unicode_len();
    if len < width {
        let mut s = blank_string(width - len);
        s.append(text);
        s
    } else {
        text.to_owned()
    }
}

/// Writes a truth value.
pub fn bool_str(b: bool) -> (s: &'static str)
    ensures
        s@ == bool_text(b),
{
    if b {
        "true"
    } else {
        "false"
    }
}

/// A padded text is as wide as its cell, or as wide as it was where it did not fit.
pub proof fn law_padding_width(text: Seq<char>, width: nat)
    ensures
        text.len() <= width ==> padded_right(text, width).len() == width,
        text.len() <= width ==> padded_left(text, width).len() == width,
        text.len() > width ==> padded_right(text, width) == text,
        text.len() > width ==> padded_left(text, width) == text,
{
}

/// The number that a decimal notation stands for.
pub open spec fn decimal_value(digits: Seq<char>) -> nat
    decreases digits.len(),
{
    if digits.len() == 0 {
        0
    } else {
        decimal_value(digits.drop_last()) * 10 + (digits.last() as nat - '0' as nat) as nat
    }
}

/// Reading a decimal notation gives back the number that was written.
pub proof fn law_decimal_reads_back(n: nat)
    ensures
        decimal_value(decimal(n)) == n,
    decreases n,
{
    reveal_with_fuel(decimal_value, 2);
    if n < 10 {
        assert(seq![digit(n)].drop_last() =~= Seq::<char>::empty());
    } else {
        law_decimal_reads_back(n / 10);
        assert(decimal(n / 10).push(digit(n % 10)).drop_last() =~= decimal(n / 10));
    }
}

/// A number below a power of ten takes no more digits than the power has zeros.
pub proof fn lemma_decimal_len(n: nat, digits: nat)
    requires
        digits >= 1,
        n < vstd::arithmetic::power::pow(10, digits),
    ensures
        1 <= decimal(n).len() <= digits,
    decreases digits,
{
    reveal(vstd::arithmetic::power::pow);
    if n >= 10 {
        if digits == 1 {
            assert(vstd::arithmetic::power::pow(10, 0) == 1);
        } else {
            lemma_decimal_len(n / 10, (digits - 1) as nat);
        }
    }
}

/// A list of strings has as many texts as strings, each that of the string in its place.
pub proof fn law_texts(lines: Seq<String>)
    ensures
        texts(lines).len() == lines.len(),
        forall|i: int| 0 <= i < lines.len() ==> #[trigger] texts(lines)[i] == lines[i]@,
{
}

/// Padding on the right keeps the text at the beginning of the cell, and padding on the left at
/// its end. Blanks fill the rest, and the cell is as wide as asked, or as the text where that is
/// wider.
pub proof fn law_padding_keeps_text(text: Seq<char>, width: nat)
    ensures
        ({
            let cell = padded_right(text, width);
            &&& cell.len() == vstd::math::max(text.len() as int, width as int)
            &&& cell.take(text.len() as int) == text
            &&& forall|i: int| text.len() <= i < cell.len() ==> #[trigger] cell[i] == ' '
        }),
        ({
            let cell = padded_left(text, width);
            &&& cell.len() == vstd::math::max(text.len() as int, width as int)
            &&& cell.skip(cell.len() - text.len()) == text
            &&& forall|i: int| 0 <= i < cell.len() - text.len() ==> #[trigger] cell[i] == ' '
        }),
{
    assert(padded_right(text, width).take(text.len() as int) =~= text);
    let cell = padded_left(text, width);
    assert(cell.skip(cell.len() - text.len()) =~= text);
}

/// The last character of a decimal notation is the digit of the remainder by ten, counted from
/// the character zero, and what stands before it is the notation of the quotient. A number below
/// ten takes one character, and a larger number does not begin with a zero.
pub proof fn law_decimal_digits(n: nat)
    ensures
        decimal(n).len() > 0,
        decimal(n).last() as nat == 48 + n % 10,
        n < 10 ==> decimal(n).len() == 1,
        n >= 10 ==> decimal(n).drop_last() == decimal(n / 10),
        n >= 10 ==> decimal(n).len() > 1 && decimal(n)[0] != '0',
    decreases n,
{
    if n >= 10 {
        law_decimal_digits(n / 10);
        assert(decimal(n).drop_last() =~= decimal(n / 10));
        assert(decimal(n)[0] == decimal(n / 10)[0]);
    }
}

/// The truth values are written as the words for them.
pub proof fn law_bool_text()
    ensures
        bool_text(true) == seq!['t', 'r', 'u', 'e'],
        bool_text(false) == seq!['f', 'a', 'l', 's', 'e'],
{
    reveal_strlit("true");
    reveal_strlit("false");
    assert(bool_text(true) =~= seq!['t', 'r', 'u', 'e']);
    assert(bool_text(false) =~= seq!['f', 'a', 'l', 's', 'e']);
}

} // verus!
