//! Renderings of a board state for people: a plain one of letters with rank
//! and file labels, and a coloured one of chess symbols on a shaded
//! checkerboard. Both read the playing surface only and change nothing.

use vstd::prelude::*;
use vstd::string::*;
use colored::Colorize;
use crate::coords::{rank_digit, rank_str, BOARD_START};
use crate::piece::{
    color_of, get_piece_character, get_piece_character_simple, is_white, letter_of, symbol_of,
    PieceColor,
};
use crate::state::BoardState;
use crate::text::decimal_of;

verus! {

/// Red, green and blue of the dark squares.
pub const DARK_SHADE: (u8, u8, u8) = (158, 93, 30);

/// Red, green and blue of the light squares.
pub const LIGHT_SHADE: (u8, u8, u8) = (205, 170, 125);

/// The line of file labels that heads the plain rendering.
pub open spec fn plain_header() -> Seq<char> {
    seq!['\n', 'a', ' ', 'b', ' ', 'c', ' ', 'd', ' ', 'e', ' ', 'f', ' ', 'g', ' ', 'h', '\n']
}

/// The line of file labels that heads the coloured rendering.
pub open spec fn pretty_header() -> Seq<char> {
    seq!['a', ' ', 'b', ' ', 'c', ' ', 'd', ' ', 'e', ' ', 'f', ' ', 'g', ' ', 'h', '\n']
}

/// What ends the line of a rank: a space, the rank's digit and a line feed.
pub open spec fn rank_label(rank: int) -> Seq<char> {
    seq![' ', rank_digit(BOARD_START + rank), '\n']
}

/// The first `shown` squares of a rank in the plain rendering: each square's
/// letter followed by a space.
pub open spec fn plain_cells(squares: Seq<u8>, rank: int, shown: int) -> Seq<char>
    decreases shown,
{
    if shown <= 0 {
        Seq::<char>::empty()
    } else {
        plain_cells(squares, rank, shown - 1).push(letter_of(squares[8 * rank + shown - 1])).push(
            ' ',
        )
    }
}

/// The plain rendering down to and without the rank `ranks`, counted from
/// the top: the header, then for each rank its eight squares and its label.
pub open spec fn plain_text(squares: Seq<u8>, ranks: int) -> Seq<char>
    decreases ranks,
{
    if ranks <= 0 {
        plain_header()
    } else {
        plain_text(squares, ranks - 1) + plain_cells(squares, ranks - 1, 8) + rank_label(ranks - 1)
    }
}

/// The background of the grid cell in a row and column: dark where the sum
/// of the two is odd, light where it is even.
pub open spec fn shade_of(row: int, col: int) -> (u8, u8, u8) {
    if (row + col) % 2 != 0 {
        DARK_SHADE
    } else {
        LIGHT_SHADE
    }
}

/// The background of the playing square at a place in row-major order.
pub open spec fn shade_at(index: int) -> (u8, u8, u8) {
    shade_of(BOARD_START + index / 8, BOARD_START + index % 8)
}

/// The foreground code of a square: white ink for a white piece, black ink
/// for everything else.
pub open spec fn ink_of(square: u8) -> Seq<char> {
    if color_of(square) == Some(PieceColor::White) {
        seq!['3', '7']
    } else {
        seq!['3', '0']
    }
}

/// The text of a square in the coloured rendering before it is coloured:
/// its symbol and a space.
pub open spec fn cell_text(square: u8) -> Seq<char> {
    symbol_of(square).push(' ')
}

/// The background code for a colour given by red, green and blue.
pub open spec fn truecolor_shade(shade: (u8, u8, u8)) -> Seq<char> {
    seq!['4', '8', ';', '2', ';'] + decimal_of(shade.0 as nat) + seq![';'] + decimal_of(
        shade.1 as nat,
    ) + seq![';'] + decimal_of(shade.2 as nat)
}

/// The number of one of the sixteen named background colours.
pub open spec fn is_named_shade(code: nat) -> bool {
    40 <= code <= 47 || 100 <= code <= 107
}

/// `text` between the escape sequence that selects a background and a
/// foreground and the one that resets both.
pub open spec fn sgr_wrap(shade: Seq<char>, ink: Seq<char>, text: Seq<char>) -> Seq<char> {
    seq!['\u{1b}', '['] + shade + seq![';'] + ink + seq!['m'] + text + seq![
        '\u{1b}',
        '[',
        '0',
        'm',
    ]
}

/// Whether `painted` is what colouring `text` can give: the text as it is
/// where colours are switched off, or the text wrapped in escape sequences
/// for the given foreground and for a background that is either the colour
/// asked for or a named colour standing in for it.
pub open spec fn is_painted(
    painted: Seq<char>,
    text: Seq<char>,
    ink: Seq<char>,
    shade: (u8, u8, u8),
) -> bool {
    ||| painted == text
    ||| painted == sgr_wrap(truecolor_shade(shade), ink, text)
    ||| exists|code: nat| is_named_shade(code) && painted == sgr_wrap(#[trigger] decimal_of(code), ink, text)
}

/// The texts that a vector of strings holds.
pub open spec fn texts_of(cells: Seq<String>) -> Seq<Seq<char>> {
    Seq::new(cells.len(), |k: int| cells[k]@)
}

/// Whether `cells` are the sixty-four squares, each coloured on its own.
pub open spec fn paints(squares: Seq<u8>, cells: Seq<Seq<char>>) -> bool {
    &&& cells.len() == 64
    &&& forall|k: int|
        0 <= k < 64 ==> is_painted(
            #[trigger] cells[k],
            cell_text(squares[k]),
            ink_of(squares[k]),
            shade_at(k),
        )
}

/// The first `shown` cells of a rank, one after another.
pub open spec fn pretty_cells(cells: Seq<Seq<char>>, rank: int, shown: int) -> Seq<char>
    decreases shown,
{
    if shown <= 0 {
        Seq::<char>::empty()
    } else {
        pretty_cells(cells, rank, shown - 1) + cells[8 * rank + shown - 1]
    }
}

/// The coloured rendering down to and without the rank `ranks`, counted
/// from the top: the header, then for each rank its eight cells and its
/// label.
pub open spec fn pretty_text(cells: Seq<Seq<char>>, ranks: int) -> Seq<char>
    decreases ranks,
{
    if ranks <= 0 {
        pretty_header()
    } else {
        pretty_text(cells, ranks - 1) + pretty_cells(cells, ranks - 1, 8) + rank_label(ranks - 1)
    }
}

/// `text` in white ink on the given background, as the `colored` crate
/// writes it: `Colorize::white`, then `Colorize::on_truecolor`, then the
/// `Display` of the `ColoredString`.
///
/// Not proved. The crate decides from the environment whether it colours
/// at all and whether it keeps the background or replaces it by the nearest
/// named colour, so the contract lists every form the result can take. A
/// text with an escape character in it is left out, since the crate rewrites
/// reset sequences that it finds inside.
#[verifier::external_body]
fn white_on_truecolor(text: &str, red: u8, green: u8, blue: u8) -> (painted: String)
    requires
        !text@.contains('\u{1b}'),
    ensures
        is_painted(painted@, text@, seq!['3', '7'], (red, green, blue)),
{
    text.white().on_truecolor(red, green, blue).to_string()
}

/// `text` in black ink on the given background, as the `colored` crate
/// writes it: `Colorize::black`, then `Colorize::on_truecolor`, then the
/// `Display` of the `ColoredString`.
///
/// Not proved, and stated as for white ink.
#[verifier::external_body]
fn black_on_truecolor(text: &str, red: u8, green: u8, blue: u8) -> (painted: String)
    requires
        !text@.contains('\u{1b}'),
    ensures
        is_painted(painted@, text@, seq!['3', '0'], (red, green, blue)),
{
    text.black().on_truecolor(red, green, blue).to_string()
}

/// The background of the grid cell in the given row and column.
pub fn cell_shade(row: usize, col: usize) -> (shade: (u8, u8, u8))
    ensures
        shade == shade_of(row as int, col as int),
{
    if (row % 2 + col % 2) % 2 != 0 {
        DARK_SHADE
    } else {
        LIGHT_SHADE
    }
}

/// Lays sixty-four cells out as the coloured rendering: the file labels,
/// then eight lines of eight cells, each line ending in its rank label.
pub fn pretty_layout(cells: &Vec<String>) -> (text: String)
    requires
        cells@.len() == 64,
    ensures
        text@ == pretty_text(texts_of(cells@), 8),
{
    let ghost texts = texts_of(cells@);
    proof {
        reveal_strlit("a b c d e f g h\n");
    }
    let mut out = String::new();
    out.append("a b c d e f g h\n");
    let mut rank: usize = 0;
    while rank < 8
        invariant
            rank <= 8,
            cells@.len() == 64,
            texts == texts_of(cells@),
            out@ == pretty_text(texts, rank as int),
        decreases 8 - rank,
    {
        let ghost start = out@;
        let mut file: usize = 0;
        while file < 8
            invariant
                file <= 8,
                rank < 8,
                cells@.len() == 64,
                texts == texts_of(cells@),
                out@ == start + pretty_cells(texts, rank as int, file as int),
            decreases 8 - file,
        {
            out.append(cells[8 * rank + file].as_str());
            file += 1;
        }
        proof {
            reveal_strlit(" ");
            reveal_strlit("\n");
        }
        out.append(" ");
        out.append(rank_str(BOARD_START + rank));
        out.append("\n");
        rank += 1;
    }
    out
}

impl BoardState {
    /// The plain rendering: a blank line and the file labels, then one line
    /// for each rank from the top, with the letter of each square followed
    /// by a space, then a space and the rank's digit.
    pub fn simple_board(&self) -> (text: String)
        ensures
            text@ == plain_text(self@.squares, 8),
    {
        let ghost squares = self@.squares;
        proof {
            reveal_strlit("\na b c d e f g h\n");
        }
        let mut out = String::new();
        out.append("\na b c d e f g h\n");
        let mut rank: usize = 0;
        while rank < 8
            invariant
                rank <= 8,
                squares == self@.squares,
                out@ == plain_text(squares, rank as int),
            decreases 8 - rank,
        {
            let ghost start = out@;
            let mut file: usize = 0;
            while file < 8
                invariant
                    file <= 8,
                    rank < 8,
                    squares == self@.squares,
                    out@ == start + plain_cells(squares, rank as int, file as int),
                decreases 8 - file,
            {
                let square = self.board[BOARD_START + rank][BOARD_START + file];
                assert(squares[8 * rank + file] == square);
                proof {
                    reveal_strlit(" ");
                }
                out.append(get_piece_character_simple(square));
                out.append(" ");
                file += 1;
            }
            proof {
                reveal_strlit(" ");
                reveal_strlit("\n");
            }
            out.append(" ");
            out.append(rank_str(BOARD_START + rank));
            out.append("\n");
            rank += 1;
        }
        out
    }

    /// The sixty-four squares of the playing surface, top rank first, each
    /// as its chess symbol and a space, coloured: white ink for a white
    /// piece and black ink otherwise, on the dark or the light background
    /// of its place on the checkerboard.
    pub fn paint_cells(&self) -> (cells: Vec<String>)
        ensures
            paints(self@.squares, texts_of(cells@)),
    {
        let ghost squares = self@.squares;
        let mut cells: Vec<String> = Vec::new();
        let mut rank: usize = 0;
        while rank < 8
            invariant
                rank <= 8,
                squares == self@.squares,
                cells@.len() == 8 * rank,
                forall|k: int|
                    0 <= k < 8 * rank ==> is_painted(
                        #[trigger] cells@[k]@,
                        cell_text(squares[k]),
                        ink_of(squares[k]),
                        shade_at(k),
                    ),
            decreases 8 - rank,
        {
            let mut file: usize = 0;
            while file < 8
                invariant
                    file <= 8,
                    rank < 8,
                    squares == self@.squares,
                    cells@.len() == 8 * rank + file,
                    forall|k: int|
                        0 <= k < 8 * rank + file ==> is_painted(
                            #[trigger] cells@[k]@,
                            cell_text(squares[k]),
                            ink_of(squares[k]),
                            shade_at(k),
                        ),
                decreases 8 - file,
            {
                let row = BOARD_START + rank;
                let col = BOARD_START + file;
                let square = self.board[row][col];
                assert(squares[8 * rank + file] == square);
                proof {
                    reveal_strlit(" ");
                }
                let mut piece = String::new();
                piece.append(get_piece_character(square));
                piece.append(" ");
                assert(piece@ =~= cell_text(square));
                let shade = cell_shade(row, col);
                let painted = if is_white(square) {
                    white_on_truecolor(piece.as_str(), shade.0, shade.1, shade.2)
                } else {
                    black_on_truecolor(piece.as_str(), shade.0, shade.1, shade.2)
                };
                cells.push(painted);
                file += 1;
            }
            rank += 1;
        }
        cells
    }

    /// The coloured rendering: the file labels, then one line for each rank
    /// from the top, with its eight coloured squares and then a space and
    /// the rank's digit.
    pub fn pretty_board(&self) -> (text: String)
        ensures
            exists|cells: Seq<Seq<char>>|
                paints(self@.squares, cells) && text@ == #[trigger] pretty_text(cells, 8),
    {
        let cells = self.paint_cells();
        pretty_layout(&cells)
    }
}

} // verus!
