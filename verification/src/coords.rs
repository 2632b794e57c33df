//! Grid coordinates and square names.
//!
//! The grid is 12 by 12. Rows and columns 2 to 9 are the playing surface:
//! row 2 is rank 8, row 9 is rank 1, column 2 is file a, column 9 is file h.
//! The two outer rows and columns on every side are the border.

use vstd::prelude::*;
use vstd::string::*;
use crate::text::chars_of;

verus! {

/// First row and column of the playing surface.
pub const BOARD_START: usize = 2;

/// One past the last row and column of the playing surface.
pub const BOARD_END: usize = 10;

/// Rows and columns of the whole grid, border included.
pub const GRID_SIZE: usize = 12;

/// Whether the grid coordinates lie on the playing surface.
pub open spec fn on_board(row: int, col: int) -> bool {
    BOARD_START <= row < BOARD_END && BOARD_START <= col < BOARD_END
}

/// Whether a character is one of the file letters `a` to `h`.
pub open spec fn is_file_letter(c: char) -> bool {
    'a' <= c <= 'h'
}

/// Whether a character is one of the rank digits `1` to `8`.
pub open spec fn is_rank_digit(c: char) -> bool {
    '1' <= c <= '8'
}

/// Whether `name` is a square name: a file letter, then a rank digit.
pub open spec fn is_square_name(name: Seq<char>) -> bool {
    name.len() == 2 && is_file_letter(name[0]) && is_rank_digit(name[1])
}

/// The grid coordinates, row first, that a square name stands for; none for
/// a text that is no square name.
pub open spec fn square_of_name(name: Seq<char>) -> Option<(usize, usize)> {
    if is_square_name(name) {
        Some(
            (
                (BOARD_END - (name[1] as int - '0' as int)) as usize,
                (name[0] as int - 'a' as int + BOARD_START) as usize,
            ),
        )
    } else {
        None
    }
}

/// The file letter of a column of the playing surface.
pub open spec fn file_letter(col: int) -> char
    recommends
        BOARD_START <= col < BOARD_END,
{
    ('a' as int + col - BOARD_START) as char
}

/// The rank digit of a row of the playing surface.
pub open spec fn rank_digit(row: int) -> char
    recommends
        BOARD_START <= row < BOARD_END,
{
    ('0' as int + BOARD_END - row) as char
}

/// The name of a square of the playing surface.
pub open spec fn name_of_square(row: int, col: int) -> Seq<char>
    recommends
        on_board(row, col),
{
    seq![file_letter(col), rank_digit(row)]
}

/// Naming a square of the playing surface and reading the name gives the
/// square back.
pub proof fn lemma_name_then_square(row: usize, col: usize)
    requires
        on_board(row as int, col as int),
    ensures
        is_square_name(name_of_square(row as int, col as int)),
        square_of_name(name_of_square(row as int, col as int)) == Some((row, col)),
{
}

/// Reading a square name gives a square of the playing surface, and naming
/// that square gives the name back.
pub proof fn lemma_square_then_name(name: Seq<char>)
    requires
        is_square_name(name),
    ensures
        square_of_name(name) matches Some(square) && on_board(square.0 as int, square.1 as int)
            && name_of_square(square.0 as int, square.1 as int) == name,
{
}

/// A text that is no square name stands for no square, and no square is ever
/// in the border.
pub proof fn lemma_square_of_name_on_board(name: Seq<char>)
    ensures
        square_of_name(name) is Some <==> is_square_name(name),
        square_of_name(name) matches Some(square) ==> on_board(square.0 as int, square.1 as int),
{
}

/// The grid coordinates of a square given by its name, such as `e4`.
pub fn algebraic_pairs_to_board_position(pair: &str) -> (square: Option<(usize, usize)>)
    ensures
        square == square_of_name(pair@),
        square matches Some(at) ==> on_board(at.0 as int, at.1 as int),
{
    let name = chars_of(pair);
    square_from_chars(&name)
}

/// The grid coordinates of a square given by the characters of its name.
pub fn square_from_chars(name: &Vec<char>) -> (square: Option<(usize, usize)>)
    ensures
        square == square_of_name(name@),
        square matches Some(at) ==> on_board(at.0 as int, at.1 as int),
{
    if name.len() != 2 {
        return None;
    }
    let file = name[0];
    let rank = name[1];
    if !(file >= 'a' && file <= 'h') {
        return None;
    }
    if !(rank >= '1' && rank <= '8') {
        return None;
    }
    let col: usize = ((file as u8) - 97) as usize + BOARD_START;
    let row: usize = BOARD_END - ((rank as u8) - 48) as usize;
    if row < BOARD_START || row >= BOARD_END || col < BOARD_START || col >= BOARD_END {
        return None;
    }
    Some((row, col))
}

/// The one-character string of a column's file letter.
pub(crate) fn file_str(col: usize) -> (s: &'static str)
    requires
        BOARD_START <= col < BOARD_END,
    ensures
        s@ == seq![file_letter(col as int)],
{
    proof {
        reveal_strlit("a");
        reveal_strlit("b");
        reveal_strlit("c");
        reveal_strlit("d");
        reveal_strlit("e");
        reveal_strlit("f");
        reveal_strlit("g");
        reveal_strlit("h");
    }
    if col == 2 {
        "a"
    } else if col == 3 {
        "b"
    } else if col == 4 {
        "c"
    } else if col == 5 {
        "d"
    } else if col == 6 {
        "e"
    } else if col == 7 {
        "f"
    } else if col == 8 {
        "g"
    } else {
        "h"
    }
}

/// The one-character string of a row's rank digit.
pub(crate) fn rank_str(row: usize) -> (s: &'static str)
    requires
        BOARD_START <= row < BOARD_END,
    ensures
        s@ == seq![rank_digit(row as int)],
{
    proof {
        reveal_strlit("8");
        reveal_strlit("7");
        reveal_strlit("6");
        reveal_strlit("5");
        reveal_strlit("4");
        reveal_strlit("3");
        reveal_strlit("2");
        reveal_strlit("1");
    }
    if row == 2 {
        "8"
    } else if row == 3 {
        "7"
    } else if row == 4 {
        "6"
    } else if row == 5 {
        "5"
    } else if row == 6 {
        "4"
    } else if row == 7 {
        "3"
    } else if row == 8 {
        "2"
    } else {
        "1"
    }
}

/// The name of the square at the given grid coordinates, row first. Only the
/// playing surface has names: for coordinates in the border or off the grid
/// there is none.
pub fn board_position_to_algebraic_pair(pair: (usize, usize)) -> (name: Option<String>)
    ensures
        name is Some <==> on_board(pair.0 as int, pair.1 as int),
        name matches Some(text) ==> text@ == name_of_square(pair.0 as int, pair.1 as int),
{
    let (row, col) = pair;
    if row < BOARD_START || row >= BOARD_END || col < BOARD_START || col >= BOARD_END {
        return None;
    }
    let mut text = String::new();
    text.append(file_str(col));
    text.append(rank_str(row));
    Some(text)
}

} // verus!
