//! Position notation: reading a board state from its six-field text and
//! writing it back.
//!
//! The fields, separated by single spaces, are the piece placement, the side
//! to move, the castling rights, the en-passant target, the half-move clock
//! and the full-move number.

use vstd::prelude::*;
use crate::coords::{
    is_rank_digit, on_board, square_from_chars, square_of_name, BOARD_END, BOARD_START, GRID_SIZE,
};
use crate::piece::{
    get_piece_from_fen_string_char, is_black, is_king, is_playable, is_white, piece_of_letter,
    piece_value, PieceColor, EMPTY, SENTINEL,
};
use crate::state::{
    border_intact, king_square, last_king, lemma_material_bounds, lemma_material_of_concat,
    material_of, square_index, surface_clear, BoardState, Position,
};
use crate::text::{
    byte_of_decimal, chars_of, parse_u8, pieces_of, split, split_on, trim_newline,
    without_line_ending,
};

verus! {

/// Notation of the position at the start of a game.
pub const DEFAULT_FEN_STRING: &'static str =
    "rnbqkbnr/pppppppp/8/8/8/8/PPPPPPPP/RNBQKBNR w KQkq - 0 1";

/// Why a text is no position notation.
#[derive(Copy, Clone, PartialEq, Eq, Debug, Structural)]
pub enum FenError {
    /// The text does not have exactly six fields.
    FieldCount,
    /// The side to move is neither `w` nor `b`.
    SideToMove,
    /// The half-move clock is no number that fits the counter.
    HalfMoveClock,
    /// The full-move number is no number that fits the counter.
    FullMoveClock,
    /// The placement does not have exactly eight ranks.
    RankCount,
    /// A rank describes more than eight squares.
    RankOverflow,
    /// A placement character is neither a digit from 1 to 8 nor a piece letter.
    InvalidCharacter,
    /// A rank describes fewer than eight squares.
    IncompleteRank,
    /// The en-passant field is neither `-` nor the name of a square.
    EnPassant,
}

impl FenError {
    /// The words that describe the error.
    pub open spec fn text(self) -> Seq<char> {
        match self {
            FenError::FieldCount => "Could not parse fen string: Invalid fen string"@,
            FenError::SideToMove => "Could not parse fen string: Next player to move was not provided"@,
            FenError::HalfMoveClock => "Could not parse fen string: Invalid half move value"@,
            FenError::FullMoveClock => "Could not parse fen string: Invalid full move value"@,
            FenError::RankCount => "Could not parse fen string: Invalid number of rows provided, 8 expected"@,
            FenError::RankOverflow => "Could not parse fen string: Index out of bounds"@,
            FenError::InvalidCharacter => "Could not parse fen string: Invalid character found"@,
            FenError::IncompleteRank => "Could not parse fen string: Complete row was not specified"@,
            FenError::EnPassant => "Could not parse fen string: En passant string not valid"@,
        }
    }

    /// The words that describe the error.
    pub fn message(&self) -> (words: &'static str)
        ensures
            words@ == self.text(),
    {
        match self {
            FenError::FieldCount => "Could not parse fen string: Invalid fen string",
            FenError::SideToMove => "Could not parse fen string: Next player to move was not provided",
            FenError::HalfMoveClock => "Could not parse fen string: Invalid half move value",
            FenError::FullMoveClock => "Could not parse fen string: Invalid full move value",
            FenError::RankCount => "Could not parse fen string: Invalid number of rows provided, 8 expected",
            FenError::RankOverflow => "Could not parse fen string: Index out of bounds",
            FenError::InvalidCharacter => "Could not parse fen string: Invalid character found",
            FenError::IncompleteRank => "Could not parse fen string: Complete row was not specified",
            FenError::EnPassant => "Could not parse fen string: En passant string not valid",
        }
    }
}

/// A run of empty squares.
pub open spec fn empties(count: nat) -> Seq<u8> {
    Seq::new(count, |i: int| EMPTY)
}

/// Whether a character may stand in the placement field of a rank: a digit
/// from 1 to 8 or one of the twelve piece letters.
pub open spec fn is_placement_char(c: char) -> bool {
    is_rank_digit(c) || piece_of_letter(c) is Some
}

/// The squares that one placement character describes: a digit stands for
/// that many empty squares, a piece letter for the piece.
pub open spec fn run_of(c: char) -> Seq<u8> {
    if is_rank_digit(c) {
        empties((c as int - '0' as int) as nat)
    } else {
        match piece_of_letter(c) {
            Some(piece) => seq![piece],
            None => Seq::<u8>::empty(),
        }
    }
}

/// The squares described by the characters of a rank, read from the left.
/// Reading stops with an error at the first character that is no placement
/// character or that would take the rank beyond eight squares.
pub open spec fn scan_rank(rank: Seq<char>) -> Result<Seq<u8>, FenError>
    decreases rank.len(),
{
    if rank.len() == 0 {
        Ok(Seq::<u8>::empty())
    } else {
        match scan_rank(rank.drop_last()) {
            Err(error) => Err(error),
            Ok(squares) => {
                let c = rank.last();
                if !is_placement_char(c) {
                    Err(FenError::InvalidCharacter)
                } else if squares.len() + run_of(c).len() > 8 {
                    Err(FenError::RankOverflow)
                } else {
                    Ok(squares + run_of(c))
                }
            },
        }
    }
}

/// The eight squares that the text of a rank describes.
pub open spec fn rank_of_text(rank: Seq<char>) -> Result<Seq<u8>, FenError> {
    match scan_rank(rank) {
        Err(error) => Err(error),
        Ok(squares) => if squares.len() == 8 {
            Ok(squares)
        } else {
            Err(FenError::IncompleteRank)
        },
    }
}

/// The squares described by a run of rank texts, top rank first. Reading
/// stops with the error of the first rank that has one.
pub open spec fn scan_ranks(ranks: Seq<Seq<char>>) -> Result<Seq<u8>, FenError>
    decreases ranks.len(),
{
    if ranks.len() == 0 {
        Ok(Seq::<u8>::empty())
    } else {
        match scan_ranks(ranks.drop_last()) {
            Err(error) => Err(error),
            Ok(squares) => match rank_of_text(ranks.last()) {
                Err(error) => Err(error),
                Ok(row) => Ok(squares + row),
            },
        }
    }
}

/// The sixty-four squares that a placement field describes.
pub open spec fn placement_of_text(field: Seq<char>) -> Result<Seq<u8>, FenError> {
    let ranks = split_on(field, '/');
    if ranks.len() != 8 {
        Err(FenError::RankCount)
    } else {
        scan_ranks(ranks)
    }
}

/// The side that a side-to-move field names.
pub open spec fn side_of_text(field: Seq<char>) -> Option<PieceColor> {
    if field.len() == 1 && field[0] == 'w' {
        Some(PieceColor::White)
    } else if field.len() == 1 && field[0] == 'b' {
        Some(PieceColor::Black)
    } else {
        None
    }
}

/// The en-passant target that a field names: none for `-`, else the square
/// of that name.
pub open spec fn en_passant_of_text(field: Seq<char>) -> Result<Option<(usize, usize)>, FenError> {
    if field.len() == 1 && field[0] == '-' {
        Ok(None)
    } else {
        match square_of_name(field) {
            Some(at) => Ok(Some(at)),
            None => Err(FenError::EnPassant),
        }
    }
}

/// The position that a notation text describes, or the first error met when
/// the text is examined in this order: field count, side to move, half-move
/// clock, full-move number, rank count, the ranks from the top, en-passant
/// target. One trailing line ending is not part of the notation. Each
/// castling right is held exactly when its letter occurs in the castling
/// field; whether the rights fit the placement is not examined.
pub open spec fn position_of_text(text: Seq<char>) -> Result<Position, FenError> {
    let fields = split_on(without_line_ending(text), ' ');
    if fields.len() != 6 {
        Err(FenError::FieldCount)
    } else if side_of_text(fields[1]) is None {
        Err(FenError::SideToMove)
    } else if byte_of_decimal(fields[4]) is None {
        Err(FenError::HalfMoveClock)
    } else if byte_of_decimal(fields[5]) is None {
        Err(FenError::FullMoveClock)
    } else {
        match placement_of_text(fields[0]) {
            Err(error) => Err(error),
            Ok(squares) => match en_passant_of_text(fields[3]) {
                Err(error) => Err(error),
                Ok(target) => Ok(
                    Position {
                        squares,
                        to_move: side_of_text(fields[1])->0,
                        white_king_side_castle: fields[2].contains('K'),
                        white_queen_side_castle: fields[2].contains('Q'),
                        black_king_side_castle: fields[2].contains('k'),
                        black_queen_side_castle: fields[2].contains('q'),
                        pawn_double_move: target,
                        half_move_clock: byte_of_decimal(fields[4])->0,
                        full_move_clock: byte_of_decimal(fields[5])->0,
                    },
                ),
            },
        }
    }
}

/// An error met in the leading part of a rank is the error of the rank.
pub proof fn lemma_scan_rank_error_stays(rank: Seq<char>, n: int)
    requires
        0 <= n <= rank.len(),
        scan_rank(rank.take(n)) is Err,
    ensures
        scan_rank(rank) == scan_rank(rank.take(n)),
    decreases rank.len() - n,
{
    if n == rank.len() {
        assert(rank.take(n) =~= rank);
    } else {
        let longer = rank.take(n + 1);
        assert(longer.drop_last() =~= rank.take(n));
        lemma_scan_rank_error_stays(rank, n + 1);
    }
}

/// An error met in the leading ranks is the error of the placement.
pub proof fn lemma_scan_ranks_error_stays(ranks: Seq<Seq<char>>, n: int)
    requires
        0 <= n <= ranks.len(),
        scan_ranks(ranks.take(n)) is Err,
    ensures
        scan_ranks(ranks) == scan_ranks(ranks.take(n)),
    decreases ranks.len() - n,
{
    if n == ranks.len() {
        assert(ranks.take(n) =~= ranks);
    } else {
        let longer = ranks.take(n + 1);
        assert(longer.drop_last() =~= ranks.take(n));
        lemma_scan_ranks_error_stays(ranks, n + 1);
    }
}

/// Every square that a rank text describes is empty or a piece.
pub proof fn lemma_scan_rank_playable(rank: Seq<char>)
    ensures
        scan_rank(rank) matches Ok(squares) ==> squares.len() <= 8 && forall|i: int|
            0 <= i < squares.len() ==> is_playable(#[trigger] squares[i]),
    decreases rank.len(),
{
    if rank.len() > 0 {
        lemma_scan_rank_playable(rank.drop_last());
        if let Ok(squares) = scan_rank(rank) {
            assert forall|i: int| 0 <= i < squares.len() implies is_playable(
                #[trigger] squares[i],
            ) by {}
        }
    }
}

/// The squares of a rank, read from its text.
pub fn parse_rank(rank: &Vec<char>) -> (result: Result<Vec<u8>, FenError>)
    ensures
        match result {
            Ok(row) => rank_of_text(rank@) == Ok::<Seq<u8>, FenError>(row@) && row@.len() == 8,
            Err(error) => rank_of_text(rank@) == Err::<Seq<u8>, FenError>(error),
        },
{
    let mut row: Vec<u8> = Vec::new();
    let mut i: usize = 0;
    while i < rank.len()
        invariant
            i <= rank.len(),
            row@.len() <= 8,
            scan_rank(rank@.take(i as int)) == Ok::<Seq<u8>, FenError>(row@),
        decreases rank.len() - i,
    {
        let c = rank[i];
        let ghost before = row@;
        let ghost longer = rank@.take(i + 1);
        assert(longer.drop_last() =~= rank@.take(i as int));
        if c >= '1' && c <= '8' {
            let count: usize = ((c as u8) - 48) as usize;
            if row.len() + count > 8 {
                proof {
                    lemma_scan_rank_error_stays(rank@, i + 1);
                }
                return Err(FenError::RankOverflow);
            }
            let mut placed: usize = 0;
            while placed < count
                invariant
                    placed <= count,
                    before.len() + count <= 8,
                    row@ == before + empties(placed as nat),
                decreases count - placed,
            {
                row.push(EMPTY);
                placed += 1;
            }
        } else {
            match get_piece_from_fen_string_char(c) {
                Some(piece) => {
                    if row.len() + 1 > 8 {
                        proof {
                            lemma_scan_rank_error_stays(rank@, i + 1);
                        }
                        return Err(FenError::RankOverflow);
                    }
                    row.push(piece);
                    assert(row@ =~= before + run_of(c));
                },
                None => {
                    proof {
                        lemma_scan_rank_error_stays(rank@, i + 1);
                    }
                    return Err(FenError::InvalidCharacter);
                },
            }
        }
        i += 1;
    }
    assert(rank@.take(rank.len() as int) =~= rank@);
    if row.len() != 8 {
        return Err(FenError::IncompleteRank);
    }
    Ok(row)
}

/// Whether `c` occurs in `field`.
pub fn contains_char(field: &Vec<char>, c: char) -> (found: bool)
    ensures
        found == field@.contains(c),
{
    let mut i: usize = 0;
    while i < field.len()
        invariant
            i <= field.len(),
            forall|k: int| 0 <= k < i ==> field@[k] != c,
        decreases field.len() - i,
    {
        if field[i] == c {
            return true;
        }
        i += 1;
    }
    false
}

/// The side that a side-to-move field names.
pub fn parse_side(field: &Vec<char>) -> (side: Option<PieceColor>)
    ensures
        side == side_of_text(field@),
{
    if field.len() == 1 && field[0] == 'w' {
        Some(PieceColor::White)
    } else if field.len() == 1 && field[0] == 'b' {
        Some(PieceColor::Black)
    } else {
        None
    }
}

/// The en-passant target that a field names.
pub fn parse_en_passant(field: &Vec<char>) -> (result: Result<Option<(usize, usize)>, FenError>)
    ensures
        result == en_passant_of_text(field@),
{
    if field.len() == 1 && field[0] == '-' {
        return Ok(None);
    }
    match square_from_chars(field) {
        Some(at) => Ok(Some(at)),
        None => Err(FenError::EnPassant),
    }
}

/// A grid under construction, with the material sums and king locations
/// gathered from the squares placed so far.
struct Placement {
    board: [[u8; 12]; 12],
    white_value: i32,
    black_value: i32,
    white_king: (usize, usize),
    black_king: (usize, usize),
}

impl Placement {
    /// The grid holds `squares` on the playing surface and the off-board
    /// marker everywhere else, and the sums and king locations are those
    /// of `squares`.
    spec fn holds(&self, squares: Seq<u8>) -> bool {
        &&& squares.len() == 64
        &&& forall|r: int, c: int|
            0 <= r < GRID_SIZE && 0 <= c < GRID_SIZE ==> #[trigger] self.board[r][c] == (if on_board(
                r,
                c,
            ) {
                squares[square_index(r, c)]
            } else {
                SENTINEL
            })
        &&& self.white_value == material_of(squares, PieceColor::White)
        &&& self.black_value == material_of(squares, PieceColor::Black)
        &&& self.white_king == king_square(squares, PieceColor::White)
        &&& self.black_king == king_square(squares, PieceColor::Black)
    }
}

/// The king location after a row of squares was placed in grid row `row`:
/// that of the last king in the row, else the one known before.
spec fn king_after_row(
    squares: Seq<u8>,
    color: PieceColor,
    row: usize,
    before: (usize, usize),
) -> (usize, usize) {
    match last_king(squares, color) {
        Some(file) => (row, (BOARD_START + file) as usize),
        None => before,
    }
}

/// The last king of two runs of squares written one after the other is the
/// last king of the second run, or else that of the first.
pub proof fn lemma_last_king_of_concat(front: Seq<u8>, back: Seq<u8>, color: PieceColor)
    ensures
        last_king(front + back, color) == match last_king(back, color) {
            Some(index) => Some(front.len() + index),
            None => last_king(front, color),
        },
        last_king(back, color) matches Some(index) ==> 0 <= index < back.len(),
    decreases back.len(),
{
    if back.len() > 0 {
        lemma_last_king_of_concat(front, back.drop_last(), color);
        assert((front + back).drop_last() =~= front + back.drop_last());
    }
}

/// Writes the eight squares of a rank into the playing part of a grid row
/// and adds what they hold to the sums and king locations.
fn place_rank(placement: &mut Placement, row: usize, squares: &Vec<u8>)
    requires
        BOARD_START <= row < BOARD_END,
        squares@.len() == 8,
        0 <= old(placement).white_value <= 160000 * (row - BOARD_START),
        0 <= old(placement).black_value <= 160000 * (row - BOARD_START),
    ensures
        forall|r: int, c: int|
            0 <= r < GRID_SIZE && 0 <= c < GRID_SIZE ==> #[trigger] final(placement).board[r][c]
                == (if r == row && BOARD_START <= c < BOARD_END {
                squares@[c - BOARD_START]
            } else {
                old(placement).board[r][c]
            }),
        final(placement).white_value == old(placement).white_value + material_of(
            squares@,
            PieceColor::White,
        ),
        final(placement).black_value == old(placement).black_value + material_of(
            squares@,
            PieceColor::Black,
        ),
        final(placement).white_king == king_after_row(
            squares@,
            PieceColor::White,
            row,
            old(placement).white_king,
        ),
        final(placement).black_king == king_after_row(
            squares@,
            PieceColor::Black,
            row,
            old(placement).black_king,
        ),
{
    let mut file: usize = 0;
    while file < 8
        invariant
            file <= 8,
            BOARD_START <= row < BOARD_END,
            squares@.len() == 8,
            0 <= old(placement).white_value <= 160000 * (row - BOARD_START),
            0 <= old(placement).black_value <= 160000 * (row - BOARD_START),
            forall|r: int, c: int|
                0 <= r < GRID_SIZE && 0 <= c < GRID_SIZE ==> #[trigger] placement.board[r][c] == (if r
                    == row && BOARD_START <= c < BOARD_START + file {
                    squares@[c - BOARD_START]
                } else {
                    old(placement).board[r][c]
                }),
            placement.white_value == old(placement).white_value + material_of(
                squares@.take(file as int),
                PieceColor::White,
            ),
            placement.black_value == old(placement).black_value + material_of(
                squares@.take(file as int),
                PieceColor::Black,
            ),
            placement.white_king == king_after_row(
                squares@.take(file as int),
                PieceColor::White,
                row,
                old(placement).white_king,
            ),
            placement.black_king == king_after_row(
                squares@.take(file as int),
                PieceColor::Black,
                row,
                old(placement).black_king,
            ),
        decreases 8 - file,
    {
        let square = squares[file];
        let col = BOARD_START + file;
        proof {
            let shorter = squares@.take(file as int);
            assert(squares@.take(file + 1).drop_last() =~= shorter);
            lemma_material_bounds(shorter, PieceColor::White);
            lemma_material_bounds(shorter, PieceColor::Black);
        }
        placement.board[row][col] = square;
        if is_white(square) {
            placement.white_value = placement.white_value + piece_value(square);
            if is_king(square) {
                placement.white_king = (row, col);
            }
        } else if is_black(square) {
            placement.black_value = placement.black_value + piece_value(square);
            if is_king(square) {
                placement.black_king = (row, col);
            }
        }
        file += 1;
    }
    assert(squares@.take(8) =~= squares@);
}

/// The grid, material sums and king locations that eight rank texts
/// describe, top rank first.
fn place_ranks(ranks: &Vec<Vec<char>>) -> (result: Result<Placement, FenError>)
    requires
        ranks@.len() == 8,
    ensures
        match result {
            Ok(placement) => scan_ranks(pieces_of(ranks@)) matches Ok(squares) && placement.holds(
                squares,
            ) && forall|i: int| 0 <= i < 64 ==> is_playable(#[trigger] squares[i]),
            Err(error) => scan_ranks(pieces_of(ranks@)) == Err::<Seq<u8>, FenError>(error),
        },
{
    let ghost rank_texts = pieces_of(ranks@);
    let mut placement = Placement {
        board: [[SENTINEL;12];12],
        white_value: 0,
        black_value: 0,
        white_king: (0, 0),
        black_king: (0, 0),
    };
    let ghost mut placed: Seq<u8> = Seq::<u8>::empty();
    let mut rank: usize = 0;
    while rank < 8
        invariant
            rank <= 8,
            ranks@.len() == 8,
            rank_texts == pieces_of(ranks@),
            placed.len() == 8 * rank,
            scan_ranks(rank_texts.take(rank as int)) == Ok::<Seq<u8>, FenError>(placed),
            forall|i: int| 0 <= i < placed.len() ==> is_playable(#[trigger] placed[i]),
            forall|r: int, c: int|
                0 <= r < GRID_SIZE && 0 <= c < GRID_SIZE ==> #[trigger] placement.board[r][c] == (
                if on_board(r, c) && r < BOARD_START + rank {
                    placed[square_index(r, c)]
                } else {
                    SENTINEL
                }),
            placement.white_value == material_of(placed, PieceColor::White),
            placement.black_value == material_of(placed, PieceColor::Black),
            placement.white_king == king_square(placed, PieceColor::White),
            placement.black_king == king_square(placed, PieceColor::Black),
        decreases 8 - rank,
    {
        assert(rank_texts.take(rank + 1).drop_last() =~= rank_texts.take(rank as int));
        let squares = match parse_rank(&ranks[rank]) {
            Ok(squares) => squares,
            Err(error) => {
                proof {
                    lemma_scan_ranks_error_stays(rank_texts, rank + 1);
                }
                return Err(error);
            },
        };
        proof {
            lemma_material_bounds(placed, PieceColor::White);
            lemma_material_bounds(placed, PieceColor::Black);
            lemma_scan_rank_playable(ranks@[rank as int]@);
        }
        place_rank(&mut placement, BOARD_START + rank, &squares);
        proof {
            let grown = placed + squares@;
            lemma_material_of_concat(placed, squares@, PieceColor::White);
            lemma_material_of_concat(placed, squares@, PieceColor::Black);
            lemma_last_king_of_concat(placed, squares@, PieceColor::White);
            lemma_last_king_of_concat(placed, squares@, PieceColor::Black);
            assert forall|i: int| 0 <= i < grown.len() implies is_playable(#[trigger] grown[i]) by {}
            placed = grown;
        }
        rank += 1;
    }
    assert(rank_texts.take(8) =~= rank_texts);
    Ok(placement)
}

/// The board state that a position notation describes.
///
/// The grid is filled from the placement field, the border is left holding
/// the off-board marker, and the king locations and material sums are
/// gathered from the squares as they are placed. No last move is recorded.
/// A text that is no position notation gives the first error met and no
/// state.
pub fn board_from_fen(fen: &str) -> (result: Result<BoardState, FenError>)
    ensures
        match result {
            Ok(state) => {
                &&& position_of_text(fen@) == Ok::<Position, FenError>(state@)
                &&& state.well_formed()
                &&& border_intact(state.board)
                &&& surface_clear(state.board)
                &&& state.white_king_location == king_square(state@.squares, PieceColor::White)
                &&& state.black_king_location == king_square(state@.squares, PieceColor::Black)
                &&& state.white_total_piece_value == material_of(
                    state@.squares,
                    PieceColor::White,
                )
                &&& state.black_total_piece_value == material_of(
                    state@.squares,
                    PieceColor::Black,
                )
                &&& state.last_move is None
            },
            Err(error) => position_of_text(fen@) == Err::<Position, FenError>(error),
        },
{
    let mut text = chars_of(fen);
    trim_newline(&mut text);
    let fields = split(&text, ' ');
    if fields.len() != 6 {
        return Err(FenError::FieldCount);
    }
    let to_move = match parse_side(&fields[1]) {
        Some(side) => side,
        None => {
            return Err(FenError::SideToMove);
        },
    };
    let half_move_clock = match parse_u8(&fields[4]) {
        Some(count) => count,
        None => {
            return Err(FenError::HalfMoveClock);
        },
    };
    let full_move_clock = match parse_u8(&fields[5]) {
        Some(count) => count,
        None => {
            return Err(FenError::FullMoveClock);
        },
    };
    let ranks = split(&fields[0], '/');
    if ranks.len() != 8 {
        return Err(FenError::RankCount);
    }
    let placement = match place_ranks(&ranks) {
        Ok(placement) => placement,
        Err(error) => {
            return Err(error);
        },
    };
    let ghost squares = scan_ranks(pieces_of(ranks@))->Ok_0;
    let pawn_double_move = match parse_en_passant(&fields[3]) {
        Ok(target) => target,
        Err(error) => {
            return Err(error);
        },
    };
    let state = BoardState {
        full_move_clock,
        half_move_clock,
        board: placement.board,
        to_move,
        pawn_double_move,
        white_king_location: placement.white_king,
        black_king_location: placement.black_king,
        white_king_side_castle: contains_char(&fields[2], 'K'),
        white_queen_side_castle: contains_char(&fields[2], 'Q'),
        black_king_side_castle: contains_char(&fields[2], 'k'),
        black_queen_side_castle: contains_char(&fields[2], 'q'),
        black_total_piece_value: placement.black_value,
        white_total_piece_value: placement.white_value,
        last_move: None,
    };
    assert(state@.squares =~= squares);
    Ok(state)
}

} // verus!
