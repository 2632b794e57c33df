//! Character sequences: splitting on a separator, line endings, and decimal
//! numbers that fit a byte.

use vstd::prelude::*;
use vstd::string::*;

verus! {

/// The text without one trailing line ending: a line feed, or a carriage
/// return followed by a line feed.
pub open spec fn without_line_ending(text: Seq<char>) -> Seq<char> {
    if text.len() > 0 && text.last() == '\n' {
        let body = text.drop_last();
        if body.len() > 0 && body.last() == '\r' {
            body.drop_last()
        } else {
            body
        }
    } else {
        text
    }
}

/// The pieces of `text` between occurrences of `sep`, in order. There is
/// always at least one piece, and a piece may be empty.
pub open spec fn split_on(text: Seq<char>, sep: char) -> Seq<Seq<char>>
    decreases text.len(),
{
    if text.len() == 0 {
        seq![Seq::<char>::empty()]
    } else {
        let before = split_on(text.drop_last(), sep);
        if text.last() == sep {
            before.push(Seq::<char>::empty())
        } else {
            before.drop_last().push(before.last().push(text.last()))
        }
    }
}

/// The pieces written one after another with `sep` between neighbours.
pub open spec fn join_with(pieces: Seq<Seq<char>>, sep: char) -> Seq<char>
    decreases pieces.len(),
{
    if pieces.len() == 0 {
        Seq::<char>::empty()
    } else if pieces.len() == 1 {
        pieces[0]
    } else {
        join_with(pieces.drop_last(), sep).push(sep) + pieces.last()
    }
}

/// Whether `sep` occurs nowhere in `piece`.
pub open spec fn free_of(piece: Seq<char>, sep: char) -> bool {
    forall|i: int| 0 <= i < piece.len() ==> piece[i] != sep
}

/// The character sequences that a vector of character vectors holds.
pub open spec fn pieces_of(pieces: Seq<Vec<char>>) -> Seq<Seq<char>> {
    Seq::new(pieces.len(), |i: int| pieces[i]@)
}

/// Whether a character is a decimal digit.
pub open spec fn is_digit(c: char) -> bool {
    '0' <= c <= '9'
}

/// The number that a decimal digit stands for.
pub open spec fn digit_value(c: char) -> int {
    c as int - '0' as int
}

/// The decimal digit that stands for a number below ten.
pub open spec fn digit_char(d: int) -> char
    recommends
        0 <= d <= 9,
{
    ('0' as int + d) as char
}

/// Whether a text holds decimal digits only.
pub open spec fn all_digits(text: Seq<char>) -> bool {
    forall|i: int| 0 <= i < text.len() ==> is_digit(#[trigger] text[i])
}

/// The number that a run of decimal digits writes, most significant first.
pub open spec fn decimal_value(digits: Seq<char>) -> int
    decreases digits.len(),
{
    if digits.len() == 0 {
        0
    } else {
        decimal_value(digits.drop_last()) * 10 + digit_value(digits.last())
    }
}

/// The digits of a number token: the token without a leading plus sign.
pub open spec fn unsigned_part(text: Seq<char>) -> Seq<char> {
    if text.len() > 0 && text[0] == '+' {
        text.skip(1)
    } else {
        text
    }
}

/// The byte that a number token writes: an optional plus sign, then one or
/// more decimal digits whose value is at most 255. Anything else is no number.
pub open spec fn byte_of_decimal(text: Seq<char>) -> Option<u8> {
    let digits = unsigned_part(text);
    if digits.len() > 0 && all_digits(digits) && decimal_value(digits) <= 255 {
        Some(decimal_value(digits) as u8)
    } else {
        None
    }
}

/// The shortest decimal writing of a number: no sign and no leading zero.
pub open spec fn decimal_of(n: nat) -> Seq<char>
    decreases n,
{
    if n < 10 {
        seq![digit_char(n as int)]
    } else {
        decimal_of(n / 10).push(digit_char((n % 10) as int))
    }
}

/// Splitting a text gives pieces free of the separator that join back to it.
pub proof fn lemma_split_then_join(text: Seq<char>, sep: char)
    ensures
        split_on(text, sep).len() >= 1,
        forall|k: int| 0 <= k < split_on(text, sep).len() ==> free_of(#[trigger] split_on(text, sep)[k], sep),
        join_with(split_on(text, sep), sep) == text,
    decreases text.len(),
{
    if text.len() > 0 {
        let shorter = text.drop_last();
        lemma_split_then_join(shorter, sep);
        let before = split_on(shorter, sep);
        let pieces = split_on(text, sep);
        if text.last() == sep {
            assert(pieces.drop_last() =~= before);
        } else if before.len() > 1 {
            assert(pieces.drop_last() =~= before.drop_last());
            assert(join_with(pieces, sep) =~= (join_with(before.drop_last(), sep).push(sep)
                + before.last()).push(text.last()));
        }
    }
}

/// Joining pieces that are free of the separator and splitting the result
/// gives the pieces back.
pub proof fn lemma_join_then_split(pieces: Seq<Seq<char>>, sep: char)
    requires
        pieces.len() >= 1,
        forall|k: int| 0 <= k < pieces.len() ==> free_of(#[trigger] pieces[k], sep),
    ensures
        split_on(join_with(pieces, sep), sep) == pieces,
    decreases pieces.len(),
{
    if pieces.len() == 1 {
        lemma_split_free_piece(pieces[0], sep);
    } else {
        let before = pieces.drop_last();
        assert forall|k: int| 0 <= k < before.len() implies free_of(#[trigger] before[k], sep) by {}
        lemma_join_then_split(before, sep);
        lemma_split_after_separator(join_with(before, sep), pieces.last(), sep);
    }
}

/// A text free of the separator is its own single piece.
pub proof fn lemma_split_free_piece(piece: Seq<char>, sep: char)
    requires
        free_of(piece, sep),
    ensures
        split_on(piece, sep) == seq![piece],
    decreases piece.len(),
{
    if piece.len() == 0 {
        assert(piece =~= Seq::<char>::empty());
    } else {
        lemma_split_free_piece(piece.drop_last(), sep);
        assert(piece.drop_last().push(piece.last()) =~= piece);
    }
}

/// Behind a separator, a piece free of it is split off as the last piece.
pub proof fn lemma_split_after_separator(head: Seq<char>, piece: Seq<char>, sep: char)
    requires
        free_of(piece, sep),
    ensures
        split_on(head.push(sep) + piece, sep) == split_on(head, sep).push(piece),
    decreases piece.len(),
{
    let whole = head.push(sep) + piece;
    if piece.len() == 0 {
        assert(whole.drop_last() =~= head);
        assert(piece =~= Seq::<char>::empty());
    } else {
        let shorter = piece.drop_last();
        lemma_split_after_separator(head, shorter, sep);
        assert(whole.drop_last() =~= head.push(sep) + shorter);
        assert(shorter.push(piece.last()) =~= piece);
    }
}

/// A longer run of digits writes a number at least as large as any of its
/// leading parts.
pub proof fn lemma_decimal_value_grows(digits: Seq<char>, n: int)
    requires
        all_digits(digits),
        0 <= n <= digits.len(),
    ensures
        0 <= decimal_value(digits.take(n)) <= decimal_value(digits),
    decreases digits.len() - n,
{
    if n == digits.len() {
        assert(digits.take(n) =~= digits);
        lemma_decimal_value_nonnegative(digits);
    } else {
        lemma_decimal_value_grows(digits, n + 1);
        let longer = digits.take(n + 1);
        assert(longer.drop_last() =~= digits.take(n));
        lemma_decimal_value_nonnegative(digits.take(n));
    }
}

/// A run of digits writes no negative number.
pub proof fn lemma_decimal_value_nonnegative(digits: Seq<char>)
    requires
        all_digits(digits),
    ensures
        0 <= decimal_value(digits),
    decreases digits.len(),
{
    if digits.len() > 0 {
        lemma_decimal_value_nonnegative(digits.drop_last());
    }
}

/// The shortest writing of a number is a run of digits without a sign that
/// reads back as the number.
pub proof fn lemma_decimal_of_reads_back(n: nat)
    ensures
        decimal_of(n).len() >= 1,
        all_digits(decimal_of(n)),
        decimal_value(decimal_of(n)) == n,
        unsigned_part(decimal_of(n)) == decimal_of(n),
        free_of(decimal_of(n), ' '),
        decimal_of(n).last() != '\n',
    decreases n,
{
    if n < 10 {
        assert(decimal_value(decimal_of(n).drop_last()) == 0);
    } else {
        lemma_decimal_of_reads_back(n / 10);
        assert(decimal_of(n).drop_last() =~= decimal_of(n / 10));
    }
}

/// Writing a byte in decimal and reading it gives the byte back.
pub proof fn lemma_byte_decimal_round_trip(n: u8)
    ensures
        byte_of_decimal(decimal_of(n as nat)) == Some(n),
{
    lemma_decimal_of_reads_back(n as nat);
}

/// The characters of a string slice.
pub fn chars_of(text: &str) -> (chars: Vec<char>)
    ensures
        chars@ == text@,
{
    let mut chars: Vec<char> = Vec::new();
    for c in it: text.chars()
        invariant
            it.seq() == text@,
            chars@ == it.seq().take(it.index() as int),
    {
        chars.push(c);
    }
    chars
}

/// Removes one trailing line ending, if there is one.
pub fn trim_newline(chars: &mut Vec<char>)
    ensures
        final(chars)@ == without_line_ending(old(chars)@),
{
    let n = chars.len();
    if n > 0 && chars[n - 1] == '\n' {
        chars.pop();
        let m = chars.len();
        if m > 0 && chars[m - 1] == '\r' {
            chars.pop();
        }
    }
}

/// Splits `text` at every occurrence of `sep`.
pub fn split(text: &Vec<char>, sep: char) -> (pieces: Vec<Vec<char>>)
    ensures
        pieces_of(pieces@) == split_on(text@, sep),
        pieces@.len() >= 1,
{
    let mut pieces: Vec<Vec<char>> = Vec::new();
    let mut current: Vec<char> = Vec::new();
    let mut i: usize = 0;
    while i < text.len()
        invariant
            i <= text.len(),
            pieces_of(pieces@).push(current@) == split_on(text@.take(i as int), sep),
        decreases text.len() - i,
    {
        let c = text[i];
        assert(text@.take(i + 1).drop_last() =~= text@.take(i as int));
        if c == sep {
            pieces.push(current);
            current = Vec::new();
        } else {
            current.push(c);
        }
        i += 1;
    }
    assert(text@.take(text.len() as int) =~= text@);
    pieces.push(current);
    pieces
}

/// Reads a number token as a byte.
pub fn parse_u8(text: &Vec<char>) -> (value: Option<u8>)
    ensures
        value == byte_of_decimal(text@),
{
    let start: usize = if text.len() > 0 && text[0] == '+' {
        1
    } else {
        0
    };
    let ghost digits = unsigned_part(text@);
    if start == text.len() {
        return None;
    }
    let mut total: u16 = 0;
    let mut i: usize = start;
    while i < text.len()
        invariant
            start <= i <= text.len(),
            digits == unsigned_part(text@),
            digits == text@.skip(start as int),
            digits.len() == text.len() - start,
            all_digits(digits.take(i - start)),
            total == decimal_value(digits.take(i - start)),
            total <= 255,
        decreases text.len() - i,
    {
        let c = text[i];
        let ghost shorter = digits.take(i - start);
        let ghost longer = digits.take(i - start + 1);
        assert(longer.drop_last() =~= shorter);
        assert(longer.last() == c);
        if !(c >= '0' && c <= '9') {
            return None;
        }
        assert forall|k: int| 0 <= k < longer.len() implies is_digit(#[trigger] longer[k]) by {}
        let digit: u16 = ((c as u8) - 48) as u16;
        let next: u16 = total * 10 + digit;
        if next > 255 {
            proof {
                if all_digits(digits) {
                    lemma_decimal_value_grows(digits, i - start + 1);
                }
            }
            return None;
        }
        total = next;
        i += 1;
    }
    assert(digits.take(digits.len() as int) =~= digits);
    Some(total as u8)
}

/// The one-character string of a decimal digit.
fn digit_str(d: u8) -> (s: &'static str)
    requires
        d <= 9,
    ensures
        s@ == seq![digit_char(d as int)],
{
    proof {
        reveal_strlit("0");
        reveal_strlit("1");
        reveal_strlit("2");
        reveal_strlit("3");
        reveal_strlit("4");
        reveal_strlit("5");
        reveal_strlit("6");
        reveal_strlit("7");
        reveal_strlit("8");
        reveal_strlit("9");
    }
    if d == 0 {
        "0"
    } else if d == 1 {
        "1"
    } else if d == 2 {
        "2"
    } else if d == 3 {
        "3"
    } else if d == 4 {
        "4"
    } else if d == 5 {
        "5"
    } else if d == 6 {
        "6"
    } else if d == 7 {
        "7"
    } else if d == 8 {
        "8"
    } else {
        "9"
    }
}

/// Appends the shortest decimal writing of `n` to `out`.
pub fn push_decimal(out: &mut String, n: u8)
    ensures
        final(out)@ == old(out)@ + decimal_of(n as nat),
{
    let ones = n % 10;
    let tens = (n / 10) % 10;
    let hundreds = n / 100;
    if hundreds > 0 {
        out.append(digit_str(hundreds));
    }
    if hundreds > 0 || tens > 0 {
        out.append(digit_str(tens));
    }
    out.append(digit_str(ones));
    proof {
        let n = n as nat;
        if 10 <= n < 100 {
            assert(decimal_of(n / 10) =~= seq![digit_char(tens as int)]);
        } else if n >= 100 {
            assert(decimal_of(n / 10) =~= decimal_of(n / 100).push(digit_char(tens as int)));
        }
    }
}

} // verus!
