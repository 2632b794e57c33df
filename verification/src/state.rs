//! The board state: the padded grid and the fields that ride alongside it.

use vstd::prelude::*;
use crate::coords::{on_board, BOARD_END, BOARD_START, GRID_SIZE};
use crate::piece::{
    color_of, is_black, is_king, is_piece_code, is_playable, is_white, kind_bits, piece_value,
    value_of, PieceColor, EMPTY, KING, SENTINEL,
};

verus! {

/// What a position notation carries: the sixty-four playing squares and the
/// fields beside them.
pub struct Position {
    /// The playing squares, rank 8 first and file a first within a rank.
    pub squares: Seq<u8>,
    pub to_move: PieceColor,
    pub white_king_side_castle: bool,
    pub white_queen_side_castle: bool,
    pub black_king_side_castle: bool,
    pub black_queen_side_castle: bool,
    /// Grid coordinates, row first, of the en-passant target.
    pub pawn_double_move: Option<(usize, usize)>,
    pub half_move_clock: u8,
    pub full_move_clock: u8,
}

impl Position {
    /// Sixty-four squares that each hold nothing or a piece, and an
    /// en-passant target, if any, on the playing surface.
    pub open spec fn is_valid(self) -> bool {
        &&& self.squares.len() == 64
        &&& forall|i: int| 0 <= i < 64 ==> is_playable(#[trigger] self.squares[i])
        &&& self.pawn_double_move matches Some(at) ==> on_board(at.0 as int, at.1 as int)
    }

    /// The eight squares of one rank, `rank` counted from the top: 0 is rank 8.
    pub open spec fn rank_squares(self, rank: int) -> Seq<u8> {
        self.squares.subrange(8 * rank, 8 * rank + 8)
    }
}

/// Place of a playing square in the row-major order of the sixty-four.
pub open spec fn square_index(row: int, col: int) -> int
    recommends
        on_board(row, col),
{
    8 * (row - BOARD_START) + (col - BOARD_START)
}

/// Grid coordinates, row first, of the playing square at a place in the
/// row-major order.
pub open spec fn square_at_index(index: int) -> (usize, usize)
    recommends
        0 <= index < 64,
{
    ((BOARD_START + index / 8) as usize, (BOARD_START + index % 8) as usize)
}

/// Whether a square holds a piece of the given colour.
pub open spec fn belongs_to(square: u8, color: PieceColor) -> bool {
    color_of(square) == Some(color)
}

/// Whether a square holds the king of the given colour.
pub open spec fn holds_king(square: u8, color: PieceColor) -> bool {
    kind_bits(square) == KING && belongs_to(square, color)
}

/// Sum of the piece values of one colour over a run of squares.
pub open spec fn material_of(squares: Seq<u8>, color: PieceColor) -> int
    decreases squares.len(),
{
    if squares.len() == 0 {
        0
    } else {
        material_of(squares.drop_last(), color) + if belongs_to(squares.last(), color) {
            value_of(squares.last())
        } else {
            0
        }
    }
}

/// Place of the last king of one colour in a run of squares, if there is one.
pub open spec fn last_king(squares: Seq<u8>, color: PieceColor) -> Option<int>
    decreases squares.len(),
{
    if squares.len() == 0 {
        None
    } else if holds_king(squares.last(), color) {
        Some(squares.len() - 1)
    } else {
        last_king(squares.drop_last(), color)
    }
}

/// The number of squares in a run that hold the king of one colour.
pub open spec fn king_count(squares: Seq<u8>, color: PieceColor) -> nat
    decreases squares.len(),
{
    if squares.len() == 0 {
        0
    } else {
        king_count(squares.drop_last(), color) + if holds_king(squares.last(), color) {
            1nat
        } else {
            0nat
        }
    }
}

/// The king location kept for one colour: the grid coordinates of its king,
/// the last one in row-major order if there are several, and `(0, 0)` if
/// there is none.
pub open spec fn king_square(squares: Seq<u8>, color: PieceColor) -> (usize, usize) {
    match last_king(squares, color) {
        Some(index) => square_at_index(index),
        None => (0, 0),
    }
}

/// Every grid cell outside the playing surface holds the off-board marker.
pub open spec fn border_intact(board: [[u8; 12]; 12]) -> bool {
    forall|row: int, col: int|
        0 <= row < GRID_SIZE && 0 <= col < GRID_SIZE && !on_board(row, col) ==> #[trigger] board[row][col]
            == SENTINEL
}

/// No cell of the playing surface holds the off-board marker.
pub open spec fn surface_clear(board: [[u8; 12]; 12]) -> bool {
    forall|row: int, col: int| on_board(row, col) ==> #[trigger] board[row][col] != SENTINEL
}

/// A position with everything a game keeps beside it. The grid has a border
/// of off-board cells two wide around the eight by eight playing surface.
pub struct BoardState {
    /// Number of the full move: starts at 1 and goes up after Black's move.
    pub full_move_clock: u8,
    /// Half moves since the last capture or pawn advance.
    pub half_move_clock: u8,
    pub board: [[u8; 12]; 12],
    pub to_move: PieceColor,
    /// The square a pawn passed over on the last move, if it made a double step.
    pub pawn_double_move: Option<(usize, usize)>,
    pub white_king_location: (usize, usize),
    pub black_king_location: (usize, usize),
    pub white_king_side_castle: bool,
    pub white_queen_side_castle: bool,
    pub black_king_side_castle: bool,
    pub black_queen_side_castle: bool,
    pub black_total_piece_value: i32,
    pub white_total_piece_value: i32,
    /// The start and end squares of the last move made.
    pub last_move: Option<String>,
}

/// What a pass over the playing surface finds.
struct Survey {
    white_value: i32,
    black_value: i32,
    white_king: (usize, usize),
    black_king: (usize, usize),
    white_kings: u8,
    black_kings: u8,
}

impl View for BoardState {
    type V = Position;

    open spec fn view(&self) -> Position {
        Position {
            squares: Seq::new(
                64,
                |i: int| self.board[BOARD_START + i / 8][BOARD_START + i % 8],
            ),
            to_move: self.to_move,
            white_king_side_castle: self.white_king_side_castle,
            white_queen_side_castle: self.white_queen_side_castle,
            black_king_side_castle: self.black_king_side_castle,
            black_queen_side_castle: self.black_queen_side_castle,
            pawn_double_move: self.pawn_double_move,
            half_move_clock: self.half_move_clock,
            full_move_clock: self.full_move_clock,
        }
    }
}

impl Clone for BoardState {
    /// An independent copy, equal to this state field by field.
    fn clone(&self) -> (copy: Self)
        ensures
            copy == *self,
    {
        let last_move = match &self.last_move {
            Some(text) => Some(text.clone()),
            None => None,
        };
        BoardState {
            full_move_clock: self.full_move_clock,
            half_move_clock: self.half_move_clock,
            board: self.board,
            to_move: self.to_move,
            pawn_double_move: self.pawn_double_move,
            white_king_location: self.white_king_location,
            black_king_location: self.black_king_location,
            white_king_side_castle: self.white_king_side_castle,
            white_queen_side_castle: self.white_queen_side_castle,
            black_king_side_castle: self.black_king_side_castle,
            black_queen_side_castle: self.black_queen_side_castle,
            black_total_piece_value: self.black_total_piece_value,
            white_total_piece_value: self.white_total_piece_value,
            last_move,
        }
    }
}

impl BoardState {
    /// The king locations and material sums kept beside the grid agree with
    /// what stands on the playing surface.
    pub open spec fn caches_agree(&self) -> bool {
        &&& self.white_king_location == king_square(self@.squares, PieceColor::White)
        &&& self.black_king_location == king_square(self@.squares, PieceColor::Black)
        &&& self.white_total_piece_value == material_of(self@.squares, PieceColor::White)
        &&& self.black_total_piece_value == material_of(self@.squares, PieceColor::Black)
    }

    /// The border is intact, the playing surface holds only empty squares
    /// and pieces, the en-passant target is on the playing surface, and the
    /// kept king locations and material sums agree with the grid.
    pub open spec fn well_formed(&self) -> bool {
        &&& border_intact(self.board)
        &&& self@.is_valid()
        &&& self.caches_agree()
    }

    /// Each colour has exactly one king on the playing surface.
    pub open spec fn has_both_kings(&self) -> bool {
        &&& king_count(self@.squares, PieceColor::White) == 1
        &&& king_count(self@.squares, PieceColor::Black) == 1
    }

    /// Hands the move to the other side. Nothing else changes, so a
    /// well-formed state stays well formed.
    pub fn swap_color(&mut self)
        ensures
            final(self).to_move == old(self).to_move.opposite(),
            *final(self) == (BoardState { to_move: final(self).to_move, ..*old(self) }),
            old(self).well_formed() ==> final(self).well_formed(),
    {
        match self.to_move {
            PieceColor::White => self.to_move = PieceColor::Black,
            PieceColor::Black => self.to_move = PieceColor::White,
        }
    }

    /// Whether the playing surface holds only empty squares and pieces and
    /// the en-passant target, if any, is on the playing surface.
    pub fn has_valid_position(&self) -> (valid: bool)
        ensures
            valid == self@.is_valid(),
    {
        match self.pawn_double_move {
            Some(at) => {
                if at.0 < BOARD_START || at.0 >= BOARD_END || at.1 < BOARD_START || at.1
                    >= BOARD_END {
                    return false;
                }
            },
            None => {},
        }
        let mut row: usize = BOARD_START;
        while row < BOARD_END
            invariant
                BOARD_START <= row <= BOARD_END,
                forall|r: int, c: int|
                    BOARD_START <= r < row && BOARD_START <= c < BOARD_END ==> is_playable(
                        #[trigger] self.board[r][c],
                    ),
            decreases BOARD_END - row,
        {
            let mut col: usize = BOARD_START;
            while col < BOARD_END
                invariant
                    BOARD_START <= row < BOARD_END,
                    BOARD_START <= col <= BOARD_END,
                    forall|r: int, c: int|
                        BOARD_START <= r < row && BOARD_START <= c < BOARD_END ==> is_playable(
                            #[trigger] self.board[r][c],
                        ),
                    forall|c: int|
                        BOARD_START <= c < col ==> is_playable(#[trigger] self.board[row as int][c]),
                decreases BOARD_END - col,
            {
                let square = self.board[row][col];
                if square != EMPTY && !is_piece_code(square) {
                    proof {
                        let index = square_index(row as int, col as int);
                        assert(self@.squares[index] == square);
                    }
                    return false;
                }
                col += 1;
            }
            row += 1;
        }
        proof {
            assert forall|i: int| 0 <= i < 64 implies is_playable(#[trigger] self@.squares[i]) by {
                let r = BOARD_START + i / 8;
                let c = BOARD_START + i % 8;
                assert(is_playable(self.board[r][c]));
            }
        }
        true
    }

    /// What stands on the playing surface: the material sums, the king
    /// locations and the number of kings of each colour, gathered in one
    /// pass over the grid.
    fn survey(&self) -> (found: Survey)
        ensures
            found.white_value == material_of(self@.squares, PieceColor::White),
            found.black_value == material_of(self@.squares, PieceColor::Black),
            found.white_king == king_square(self@.squares, PieceColor::White),
            found.black_king == king_square(self@.squares, PieceColor::Black),
            found.white_kings == king_count(self@.squares, PieceColor::White),
            found.black_kings == king_count(self@.squares, PieceColor::Black),
    {
        let ghost squares = self@.squares;
        let mut found = Survey {
            white_value: 0,
            black_value: 0,
            white_king: (0, 0),
            black_king: (0, 0),
            white_kings: 0,
            black_kings: 0,
        };
        let mut index: usize = 0;
        while index < 64
            invariant
                index <= 64,
                squares == self@.squares,
                found.white_value == material_of(squares.take(index as int), PieceColor::White),
                found.black_value == material_of(squares.take(index as int), PieceColor::Black),
                found.white_king == king_square(squares.take(index as int), PieceColor::White),
                found.black_king == king_square(squares.take(index as int), PieceColor::Black),
                found.white_kings == king_count(squares.take(index as int), PieceColor::White),
                found.black_kings == king_count(squares.take(index as int), PieceColor::Black),
                found.white_kings <= index,
                found.black_kings <= index,
            decreases 64 - index,
        {
            let row = BOARD_START + index / 8;
            let col = BOARD_START + index % 8;
            let square = self.board[row][col];
            proof {
                let seen = squares.take(index as int);
                let longer = squares.take(index + 1);
                assert(longer.drop_last() =~= seen);
                assert(longer.last() == square);
                lemma_material_bounds(seen, PieceColor::White);
                lemma_material_bounds(seen, PieceColor::Black);
            }
            if is_white(square) {
                found.white_value = found.white_value + piece_value(square);
                if is_king(square) {
                    found.white_king = (row, col);
                    found.white_kings = found.white_kings + 1;
                }
            } else if is_black(square) {
                found.black_value = found.black_value + piece_value(square);
                if is_king(square) {
                    found.black_king = (row, col);
                    found.black_kings = found.black_kings + 1;
                }
            }
            index += 1;
        }
        assert(squares.take(64) =~= squares);
        found
    }

    /// Whether every grid cell outside the playing surface holds the
    /// off-board marker.
    pub fn has_intact_border(&self) -> (intact: bool)
        ensures
            intact == border_intact(self.board),
    {
        let mut row: usize = 0;
        while row < GRID_SIZE
            invariant
                row <= GRID_SIZE,
                forall|r: int, c: int|
                    0 <= r < row && 0 <= c < GRID_SIZE && !on_board(r, c) ==> #[trigger] self.board[r][c]
                        == SENTINEL,
            decreases GRID_SIZE - row,
        {
            let mut col: usize = 0;
            while col < GRID_SIZE
                invariant
                    row < GRID_SIZE,
                    col <= GRID_SIZE,
                    forall|r: int, c: int|
                        0 <= r < row && 0 <= c < GRID_SIZE && !on_board(r, c)
                            ==> #[trigger] self.board[r][c] == SENTINEL,
                    forall|c: int|
                        0 <= c < col && !on_board(row as int, c) ==> #[trigger] self.board[row as int][c]
                            == SENTINEL,
                decreases GRID_SIZE - col,
            {
                let inside = BOARD_START <= row && row < BOARD_END && BOARD_START <= col && col
                    < BOARD_END;
                if !inside && self.board[row][col] != SENTINEL {
                    return false;
                }
                col += 1;
            }
            row += 1;
        }
        true
    }

    /// Whether the kept king locations and material sums agree with what
    /// stands on the playing surface.
    pub fn has_agreeing_caches(&self) -> (agree: bool)
        ensures
            agree == self.caches_agree(),
    {
        let found = self.survey();
        self.white_king_location.0 == found.white_king.0 && self.white_king_location.1
            == found.white_king.1 && self.black_king_location.0 == found.black_king.0
            && self.black_king_location.1 == found.black_king.1 && self.white_total_piece_value
            == found.white_value && self.black_total_piece_value == found.black_value
    }

    /// Whether the state is well formed: the border is intact, the position
    /// is valid, and the kept king locations and material sums agree with
    /// the grid.
    pub fn is_well_formed(&self) -> (well_formed: bool)
        ensures
            well_formed == self.well_formed(),
    {
        self.has_intact_border() && self.has_valid_position() && self.has_agreeing_caches()
    }

    /// Whether each colour has exactly one king on the playing surface.
    pub fn has_one_king_each(&self) -> (both: bool)
        ensures
            both == self.has_both_kings(),
    {
        let found = self.survey();
        found.white_kings == 1 && found.black_kings == 1
    }
}

/// A playing square of the grid is the square at its place in the view.
pub proof fn lemma_view_square(state: &BoardState, row: int, col: int)
    requires
        on_board(row, col),
    ensures
        0 <= square_index(row, col) < 64,
        state@.squares[square_index(row, col)] == state.board[row][col],
        square_at_index(square_index(row, col)) == (row as usize, col as usize),
{
}

/// The material of two runs of squares written one after the other is the
/// sum of their materials.
pub proof fn lemma_material_of_concat(front: Seq<u8>, back: Seq<u8>, color: PieceColor)
    ensures
        material_of(front + back, color) == material_of(front, color) + material_of(back, color),
    decreases back.len(),
{
    if back.len() == 0 {
        assert(front + back =~= front);
    } else {
        lemma_material_of_concat(front, back.drop_last(), color);
        assert((front + back).drop_last() =~= front + back.drop_last());
    }
}

/// The material of a run of squares lies between zero and the worth of as
/// many kings.
pub proof fn lemma_material_bounds(squares: Seq<u8>, color: PieceColor)
    ensures
        0 <= material_of(squares, color) <= 20000 * squares.len(),
    decreases squares.len(),
{
    if squares.len() > 0 {
        lemma_material_bounds(squares.drop_last(), color);
    }
}

/// Where one colour's king stands on exactly one square, the kept king
/// location is that square.
pub proof fn lemma_sole_king_is_kept(squares: Seq<u8>, color: PieceColor, index: int)
    requires
        0 <= index < squares.len(),
        holds_king(squares[index], color),
        forall|other: int|
            0 <= other < squares.len() && other != index ==> !holds_king(
                #[trigger] squares[other],
                color,
            ),
    ensures
        last_king(squares, color) == Some(index),
        king_square(squares, color) == square_at_index(index),
    decreases squares.len(),
{
    if squares.len() - 1 != index {
        let shorter = squares.drop_last();
        assert(!holds_king(squares[squares.len() - 1], color));
        assert forall|other: int| 0 <= other < shorter.len() && other != index implies !holds_king(
            #[trigger] shorter[other],
            color,
        ) by {
            assert(shorter[other] == squares[other]);
        }
        lemma_sole_king_is_kept(shorter, color, index);
    }
}

/// Where the kept locations agree with the grid and one colour's king stands
/// on exactly one square of the playing surface, the location kept for that
/// colour is that square.
pub proof fn lemma_king_location_is_the_king(
    state: &BoardState,
    color: PieceColor,
    row: usize,
    col: usize,
)
    requires
        state.caches_agree(),
        on_board(row as int, col as int),
        holds_king(state.board[row as int][col as int], color),
        forall|r: int, c: int|
            on_board(r, c) && (r != row || c != col) ==> !holds_king(
                #[trigger] state.board[r][c],
                color,
            ),
    ensures
        color == PieceColor::White ==> state.white_king_location == (row, col),
        color == PieceColor::Black ==> state.black_king_location == (row, col),
{
    let squares = state@.squares;
    let index = square_index(row as int, col as int);
    lemma_view_square(state, row as int, col as int);
    assert forall|other: int| 0 <= other < 64 && other != index implies !holds_king(
        #[trigger] squares[other],
        color,
    ) by {
        let r = BOARD_START + other / 8;
        let c = BOARD_START + other % 8;
        assert(squares[other] == state.board[r][c]);
    }
    lemma_sole_king_is_kept(squares, color, index);
}

/// The kept king location holds a king whenever the colour has one, and no
/// king of that colour stands behind it in row-major order; without a king
/// there is no place to keep.
pub proof fn lemma_last_king_is_a_king(squares: Seq<u8>, color: PieceColor)
    ensures
        match last_king(squares, color) {
            Some(index) => {
                &&& 0 <= index < squares.len()
                &&& holds_king(squares[index], color)
                &&& forall|later: int|
                    index < later < squares.len() ==> !holds_king(#[trigger] squares[later], color)
            },
            None => forall|any: int|
                0 <= any < squares.len() ==> !holds_king(#[trigger] squares[any], color),
        },
    decreases squares.len(),
{
    if squares.len() > 0 && !holds_king(squares.last(), color) {
        let shorter = squares.drop_last();
        lemma_last_king_is_a_king(shorter, color);
        match last_king(shorter, color) {
            Some(index) => {
                assert forall|later: int| index < later < squares.len() implies !holds_king(
                    #[trigger] squares[later],
                    color,
                ) by {
                    if later < shorter.len() {
                        assert(shorter[later] == squares[later]);
                    }
                }
            },
            None => {
                assert forall|any: int| 0 <= any < squares.len() implies !holds_king(
                    #[trigger] squares[any],
                    color,
                ) by {
                    if any < shorter.len() {
                        assert(shorter[any] == squares[any]);
                    }
                }
            },
        }
    }
}

/// A run of squares with exactly one king of a colour keeps that king's
/// place, and no other square of the run holds a king of that colour.
pub proof fn lemma_one_king_is_sole(squares: Seq<u8>, color: PieceColor)
    requires
        king_count(squares, color) == 1,
    ensures
        last_king(squares, color) matches Some(index) && 0 <= index < squares.len() && holds_king(
            squares[index],
            color,
        ) && forall|other: int|
            0 <= other < squares.len() && other != index ==> !holds_king(
                #[trigger] squares[other],
                color,
            ),
    decreases squares.len(),
{
    let shorter = squares.drop_last();
    if holds_king(squares.last(), color) {
        lemma_no_king_counted(shorter, color);
        assert forall|other: int|
            0 <= other < squares.len() && other != squares.len() - 1 implies !holds_king(
            #[trigger] squares[other],
            color,
        ) by {
            assert(squares[other] == shorter[other]);
        }
    } else {
        lemma_one_king_is_sole(shorter, color);
        let index = last_king(shorter, color)->0;
        assert forall|other: int| 0 <= other < squares.len() && other != index implies !holds_king(
            #[trigger] squares[other],
            color,
        ) by {
            if other < shorter.len() {
                assert(squares[other] == shorter[other]);
            }
        }
    }
}

/// A run of squares in which no king of a colour is counted holds none.
pub proof fn lemma_no_king_counted(squares: Seq<u8>, color: PieceColor)
    requires
        king_count(squares, color) == 0,
    ensures
        forall|any: int| 0 <= any < squares.len() ==> !holds_king(#[trigger] squares[any], color),
    decreases squares.len(),
{
    if squares.len() > 0 {
        let shorter = squares.drop_last();
        lemma_no_king_counted(shorter, color);
        assert forall|any: int| 0 <= any < squares.len() implies !holds_king(
            #[trigger] squares[any],
            color,
        ) by {
            if any < shorter.len() {
                assert(squares[any] == shorter[any]);
            }
        }
    }
}

/// In a state with exactly one king of each colour whose kept locations
/// agree with the grid, each kept location holds the king of its colour,
/// and no other square of the playing surface holds a king of that colour.
pub proof fn lemma_kept_kings_are_the_kings(state: &BoardState)
    requires
        state.caches_agree(),
        state.has_both_kings(),
    ensures
        on_board(state.white_king_location.0 as int, state.white_king_location.1 as int),
        on_board(state.black_king_location.0 as int, state.black_king_location.1 as int),
        forall|r: int, c: int|
            on_board(r, c) ==> (holds_king(#[trigger] state.board[r][c], PieceColor::White) <==> (
            r,
            c,
            ) == (state.white_king_location.0 as int, state.white_king_location.1 as int)),
        forall|r: int, c: int|
            on_board(r, c) ==> (holds_king(#[trigger] state.board[r][c], PieceColor::Black) <==> (
            r,
            c,
            ) == (state.black_king_location.0 as int, state.black_king_location.1 as int)),
{
    let squares = state@.squares;
    lemma_one_king_is_sole(squares, PieceColor::White);
    lemma_one_king_is_sole(squares, PieceColor::Black);
    let white = last_king(squares, PieceColor::White)->0;
    let black = last_king(squares, PieceColor::Black)->0;
    assert forall|r: int, c: int| on_board(r, c) implies (holds_king(
        #[trigger] state.board[r][c],
        PieceColor::White,
    ) <==> (r, c) == (state.white_king_location.0 as int, state.white_king_location.1 as int)) by {
        lemma_view_square(state, r, c);
        assert(squares[square_index(r, c)] == state.board[r][c]);
    }
    assert forall|r: int, c: int| on_board(r, c) implies (holds_king(
        #[trigger] state.board[r][c],
        PieceColor::Black,
    ) <==> (r, c) == (state.black_king_location.0 as int, state.black_king_location.1 as int)) by {
        lemma_view_square(state, r, c);
        assert(squares[square_index(r, c)] == state.board[r][c]);
    }
}

} // verus!
