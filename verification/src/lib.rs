//! Board representation and position notation for a chess engine.
//!
//! A square is one byte that holds a colour bit and a piece kind. The board
//! is a 12 by 12 grid of squares whose two outer rows and columns hold an
//! off-board marker, so that a step in any direction from the playing
//! surface lands on a cell of the grid. A board state is read from and
//! written to the usual six-field position notation, and squares are named
//! by file letter and rank digit.

pub mod coords;
pub mod fen;
pub mod fen_canonical;
pub mod fen_laws;
pub mod fen_write;
pub mod piece;
pub mod render;
pub mod state;
pub mod text;

pub use crate::coords::{
    algebraic_pairs_to_board_position, board_position_to_algebraic_pair, BOARD_END, BOARD_START,
};
pub use crate::fen::{board_from_fen, FenError, DEFAULT_FEN_STRING};
pub use crate::piece::{
    display_glyph, encode, get_color, get_piece_character, get_piece_character_simple,
    get_piece_from_fen_string_char, is_bishop, is_black, is_empty, is_king, is_knight,
    is_outside_board, is_pawn, is_queen, is_rook, is_white, piece_value, GlyphStyle, PieceColor,
    BISHOP, BLACK, COLOR_MASK, EMPTY, KING, KNIGHT, PAWN, PIECE_MASK, QUEEN, ROOK, SENTINEL, WHITE,
};
pub use crate::state::BoardState;
