//! Square values: one byte per square, holding a colour bit and a piece kind.
//!
//! Bit 7 is the colour (set for white), bits 0 to 2 are the piece kind. The
//! byte `0` is an empty square and the all-ones byte marks a location that is
//! not on the board at all.

use vstd::prelude::*;

verus! {

/// Selects the colour bit of a square value.
pub const COLOR_MASK: u8 = 0b10000000;

/// The colour bit of a white piece.
pub const WHITE: u8 = 0b10000000;

/// The colour bit of a black piece.
pub const BLACK: u8 = 0b00000000;

/// Selects the piece-kind bits of a square value.
pub const PIECE_MASK: u8 = 0b00000111;

pub const PAWN: u8 = 0b00000001;

pub const KNIGHT: u8 = 0b00000010;

pub const BISHOP: u8 = 0b00000011;

pub const ROOK: u8 = 0b00000100;

pub const QUEEN: u8 = 0b00000101;

pub const KING: u8 = 0b00000110;

/// The value of a square with nothing on it.
pub const EMPTY: u8 = 0;

/// The value of a grid cell that is not part of the board.
pub const SENTINEL: u8 = 0b11111111;

/// Material worth of a pawn, in hundredths of a pawn; the other kinds follow.
pub const PAWN_VALUE: i32 = 100;

pub const KNIGHT_VALUE: i32 = 320;

pub const BISHOP_VALUE: i32 = 330;

pub const ROOK_VALUE: i32 = 500;

pub const QUEEN_VALUE: i32 = 900;

pub const KING_VALUE: i32 = 20000;

/// The two sides.
#[derive(Copy, Clone, PartialEq, Eq, Debug, Structural)]
pub enum PieceColor {
    Black,
    White,
}

impl PieceColor {
    /// The colour bit of this colour, as it stands in a square value.
    pub open spec fn mask(self) -> u8 {
        match self {
            PieceColor::White => WHITE,
            PieceColor::Black => BLACK,
        }
    }

    /// The other colour.
    pub open spec fn opposite(self) -> PieceColor {
        match self {
            PieceColor::White => PieceColor::Black,
            PieceColor::Black => PieceColor::White,
        }
    }

    /// The colour bit of this colour.
    pub fn as_mask(&self) -> (mask: u8)
        ensures
            mask == self.mask(),
    {
        match *self {
            PieceColor::White => WHITE,
            PieceColor::Black => BLACK,
        }
    }
}

/// The piece-kind field of a square value: its three low bits.
pub open spec fn kind_bits(square: u8) -> u8 {
    square % 8
}

/// The colour field of a square value: whether bit 7 is set.
pub open spec fn white_bit(square: u8) -> bool {
    square >= 128
}

/// Whether `kind` is one of the six piece kinds.
pub open spec fn is_kind(kind: u8) -> bool {
    PAWN <= kind <= KING
}

/// The square value of a piece: the colour bit joined with the kind bits.
pub open spec fn piece_code(color: PieceColor, kind: u8) -> u8
    recommends
        is_kind(kind),
{
    (color.mask() + kind) as u8
}

/// Whether `square` is the code of one of the twelve pieces: a piece kind in
/// the low bits, the colour in bit 7, and nothing in between.
pub open spec fn is_piece(square: u8) -> bool {
    is_kind(kind_bits(square)) && (square == kind_bits(square) || square == WHITE + kind_bits(
        square,
    ))
}

/// Whether `square` is a value that a playing square can hold: empty or a piece.
pub open spec fn is_playable(square: u8) -> bool {
    square == EMPTY || is_piece(square)
}

/// The colour of the piece on a square; none for an empty square and for the
/// off-board marker.
pub open spec fn color_of(square: u8) -> Option<PieceColor> {
    if square == EMPTY || square == SENTINEL {
        None
    } else if white_bit(square) {
        Some(PieceColor::White)
    } else {
        Some(PieceColor::Black)
    }
}

/// Material worth of the piece on a square; zero where there is no piece kind.
pub open spec fn value_of(square: u8) -> int {
    let kind = kind_bits(square);
    if kind == PAWN {
        100
    } else if kind == KNIGHT {
        320
    } else if kind == BISHOP {
        330
    } else if kind == ROOK {
        500
    } else if kind == QUEEN {
        900
    } else if kind == KING {
        20000
    } else {
        0
    }
}

/// The piece that a letter of the placement field stands for: upper case is
/// white, lower case is black.
pub open spec fn piece_of_letter(letter: char) -> Option<u8> {
    if letter == 'r' {
        Some(piece_code(PieceColor::Black, ROOK))
    } else if letter == 'n' {
        Some(piece_code(PieceColor::Black, KNIGHT))
    } else if letter == 'b' {
        Some(piece_code(PieceColor::Black, BISHOP))
    } else if letter == 'q' {
        Some(piece_code(PieceColor::Black, QUEEN))
    } else if letter == 'k' {
        Some(piece_code(PieceColor::Black, KING))
    } else if letter == 'p' {
        Some(piece_code(PieceColor::Black, PAWN))
    } else if letter == 'R' {
        Some(piece_code(PieceColor::White, ROOK))
    } else if letter == 'N' {
        Some(piece_code(PieceColor::White, KNIGHT))
    } else if letter == 'B' {
        Some(piece_code(PieceColor::White, BISHOP))
    } else if letter == 'Q' {
        Some(piece_code(PieceColor::White, QUEEN))
    } else if letter == 'K' {
        Some(piece_code(PieceColor::White, KING))
    } else if letter == 'P' {
        Some(piece_code(PieceColor::White, PAWN))
    } else {
        None
    }
}

/// The plain letter shown for a square: the piece letter, upper case for
/// white and lower case for black, or a blank where there is no piece kind.
pub open spec fn letter_of(square: u8) -> char {
    let kind = kind_bits(square);
    let white = color_of(square) == Some(PieceColor::White);
    if kind == PAWN {
        if white { 'P' } else { 'p' }
    } else if kind == KNIGHT {
        if white { 'N' } else { 'n' }
    } else if kind == BISHOP {
        if white { 'B' } else { 'b' }
    } else if kind == ROOK {
        if white { 'R' } else { 'r' }
    } else if kind == QUEEN {
        if white { 'Q' } else { 'q' }
    } else if kind == KING {
        if white { 'K' } else { 'k' }
    } else {
        ' '
    }
}

/// The chess symbol shown for a square, by piece kind alone; the pawn symbol
/// is followed by a text-presentation selector.
pub open spec fn symbol_of(square: u8) -> Seq<char> {
    let kind = kind_bits(square);
    if kind == PAWN {
        seq!['\u{265F}', '\u{FE0E}']
    } else if kind == KNIGHT {
        seq!['\u{265E}']
    } else if kind == BISHOP {
        seq!['\u{265D}']
    } else if kind == ROOK {
        seq!['\u{265C}']
    } else if kind == QUEEN {
        seq!['\u{265B}']
    } else if kind == KING {
        seq!['\u{265A}']
    } else {
        seq![' ']
    }
}

/// The two fields of a square value are what the masks select.
pub proof fn lemma_fields_are_masked(square: u8)
    by (bit_vector)
    ensures
        square & PIECE_MASK == square % 8,
        (square & COLOR_MASK == WHITE) == (square >= 128),
        (square & COLOR_MASK == BLACK) == (square < 128),
{
}

/// Joining a colour bit with kind bits by `|` adds them.
pub proof fn lemma_join_is_sum(mask: u8, kind: u8)
    by (bit_vector)
    requires
        mask == 0 || mask == 128,
        kind < 8,
    ensures
        mask | kind == mask + kind,
{
}

/// Empty, off-board and the twelve pieces are pairwise distinct, and a piece
/// code gives back the colour and kind it was made from.
pub proof fn lemma_piece_code_fields(color: PieceColor, kind: u8)
    requires
        is_kind(kind),
    ensures
        piece_code(color, kind) != EMPTY,
        piece_code(color, kind) != SENTINEL,
        is_piece(piece_code(color, kind)),
        kind_bits(piece_code(color, kind)) == kind,
        color_of(piece_code(color, kind)) == Some(color),
        forall|other_color: PieceColor, other_kind: u8|
            is_kind(other_kind) && #[trigger] piece_code(other_color, other_kind) == piece_code(
                color,
                kind,
            ) ==> other_color == color && other_kind == kind,
{
}

/// Every piece is the code of its own colour and kind.
pub proof fn lemma_piece_is_its_code(square: u8)
    requires
        is_piece(square),
    ensures
        color_of(square) matches Some(color) && square == piece_code(color, kind_bits(square)),
{
}

/// The off-board marker and the empty square have no piece kind and no colour.
pub proof fn lemma_reserved_values_have_no_kind()
    ensures
        !is_kind(kind_bits(EMPTY)),
        !is_kind(kind_bits(SENTINEL)),
        !is_piece(EMPTY),
        !is_piece(SENTINEL),
        color_of(EMPTY) is None,
        color_of(SENTINEL) is None,
{
}

/// Whether `square` is the code of one of the twelve pieces.
pub fn is_piece_code(square: u8) -> (piece: bool)
    ensures
        piece == is_piece(square),
{
    proof {
        lemma_fields_are_masked(square);
    }
    let kind = square & PIECE_MASK;
    PAWN <= kind && kind <= KING && (square == kind || square == WHITE + kind)
}

/// The square value of a piece of the given colour and kind.
pub fn encode(color: PieceColor, kind: u8) -> (square: u8)
    requires
        is_kind(kind),
    ensures
        square == piece_code(color, kind),
        is_piece(square),
        color_of(square) == Some(color),
        kind_bits(square) == kind,
{
    let mask = color.as_mask();
    proof {
        lemma_join_is_sum(mask, kind);
        lemma_piece_code_fields(color, kind);
    }
    mask | kind
}

/// Whether the square holds nothing; the whole byte is compared.
pub fn is_empty(square: u8) -> (empty: bool)
    ensures
        empty == (square == EMPTY),
{
    square == EMPTY
}

/// Whether the value marks a cell that is not part of the board; the whole
/// byte is compared.
pub fn is_outside_board(square: u8) -> (outside: bool)
    ensures
        outside == (square == SENTINEL),
{
    square == SENTINEL
}

/// The colour of the piece on a square; none for an empty square and for
/// the off-board marker.
pub fn get_color(square: u8) -> (color: Option<PieceColor>)
    ensures
        color == color_of(square),
{
    if is_empty(square) || is_outside_board(square) {
        return None;
    }
    proof {
        lemma_fields_are_masked(square);
    }
    if square & COLOR_MASK == WHITE {
        return Some(PieceColor::White);
    }
    Some(PieceColor::Black)
}

/// Whether the square holds a white piece. An empty square and the
/// off-board marker are neither white nor black.
pub fn is_white(square: u8) -> (white: bool)
    ensures
        white == (color_of(square) == Some(PieceColor::White)),
        white == (square != EMPTY && square != SENTINEL && square & COLOR_MASK == WHITE),
{
    proof {
        lemma_fields_are_masked(square);
    }
    !is_empty(square) && !is_outside_board(square) && square & COLOR_MASK == WHITE
}

/// Whether the square holds a black piece. An empty square and the
/// off-board marker are neither white nor black.
pub fn is_black(square: u8) -> (black: bool)
    ensures
        black == (color_of(square) == Some(PieceColor::Black)),
        black == (square != EMPTY && square != SENTINEL && square & COLOR_MASK == BLACK),
{
    proof {
        lemma_fields_are_masked(square);
    }
    !is_empty(square) && !is_outside_board(square) && square & COLOR_MASK == BLACK
}

/// Whether the kind bits are those of a pawn. As for the other kinds, this is
/// false of an empty square and of the off-board marker.
pub fn is_pawn(square: u8) -> (pawn: bool)
    ensures
        pawn == (kind_bits(square) == PAWN),
        pawn == (square & PIECE_MASK == PAWN),
{
    proof {
        lemma_fields_are_masked(square);
    }
    square & PIECE_MASK == PAWN
}

/// Whether the kind bits are those of a knight.
pub fn is_knight(square: u8) -> (knight: bool)
    ensures
        knight == (kind_bits(square) == KNIGHT),
        knight == (square & PIECE_MASK == KNIGHT),
{
    proof {
        lemma_fields_are_masked(square);
    }
    square & PIECE_MASK == KNIGHT
}

/// Whether the kind bits are those of a bishop.
pub fn is_bishop(square: u8) -> (bishop: bool)
    ensures
        bishop == (kind_bits(square) == BISHOP),
        bishop == (square & PIECE_MASK == BISHOP),
{
    proof {
        lemma_fields_are_masked(square);
    }
    square & PIECE_MASK == BISHOP
}

/// Whether the kind bits are those of a rook.
pub fn is_rook(square: u8) -> (rook: bool)
    ensures
        rook == (kind_bits(square) == ROOK),
        rook == (square & PIECE_MASK == ROOK),
{
    proof {
        lemma_fields_are_masked(square);
    }
    square & PIECE_MASK == ROOK
}

/// Whether the kind bits are those of a queen.
pub fn is_queen(square: u8) -> (queen: bool)
    ensures
        queen == (kind_bits(square) == QUEEN),
        queen == (square & PIECE_MASK == QUEEN),
{
    proof {
        lemma_fields_are_masked(square);
    }
    square & PIECE_MASK == QUEEN
}

/// Whether the kind bits are those of a king.
pub fn is_king(square: u8) -> (king: bool)
    ensures
        king == (kind_bits(square) == KING),
        king == (square & PIECE_MASK == KING),
{
    proof {
        lemma_fields_are_masked(square);
    }
    square & PIECE_MASK == KING
}

/// Material worth of the piece on a square.
pub fn piece_value(square: u8) -> (value: i32)
    ensures
        value == value_of(square),
        0 <= value <= KING_VALUE,
{
    if is_pawn(square) {
        PAWN_VALUE
    } else if is_knight(square) {
        KNIGHT_VALUE
    } else if is_bishop(square) {
        BISHOP_VALUE
    } else if is_rook(square) {
        ROOK_VALUE
    } else if is_queen(square) {
        QUEEN_VALUE
    } else if is_king(square) {
        KING_VALUE
    } else {
        0
    }
}

/// The piece that a letter of the placement field stands for, if any.
pub fn get_piece_from_fen_string_char(piece: char) -> (square: Option<u8>)
    ensures
        square == piece_of_letter(piece),
        square matches Some(code) ==> is_piece(code) && letter_of(code) == piece,
{
    let square = match piece {
        'r' => Some(encode(PieceColor::Black, ROOK)),
        'n' => Some(encode(PieceColor::Black, KNIGHT)),
        'b' => Some(encode(PieceColor::Black, BISHOP)),
        'q' => Some(encode(PieceColor::Black, QUEEN)),
        'k' => Some(encode(PieceColor::Black, KING)),
        'p' => Some(encode(PieceColor::Black, PAWN)),
        'R' => Some(encode(PieceColor::White, ROOK)),
        'N' => Some(encode(PieceColor::White, KNIGHT)),
        'B' => Some(encode(PieceColor::White, BISHOP)),
        'Q' => Some(encode(PieceColor::White, QUEEN)),
        'K' => Some(encode(PieceColor::White, KING)),
        'P' => Some(encode(PieceColor::White, PAWN)),
        _ => None,
    };
    square
}

/// How a square is shown as text.
#[derive(Copy, Clone, PartialEq, Eq, Debug, Structural)]
pub enum GlyphStyle {
    /// Chess symbols, the same for both colours.
    Symbols,
    /// Piece letters, upper case for white and lower case for black.
    Letters,
}

/// The text that shows a square in a style.
pub open spec fn glyph_of(square: u8, style: GlyphStyle) -> Seq<char> {
    match style {
        GlyphStyle::Symbols => symbol_of(square),
        GlyphStyle::Letters => seq![letter_of(square)],
    }
}

/// The text that shows a square in the given style. An empty square is a
/// single blank, and so is the off-board marker, which has no glyph of its
/// own.
pub fn display_glyph(square: u8, style: GlyphStyle) -> (glyph: &'static str)
    ensures
        glyph@ == glyph_of(square, style),
        square == EMPTY ==> glyph@ == seq![' '],
{
    match style {
        GlyphStyle::Symbols => get_piece_character(square),
        GlyphStyle::Letters => get_piece_character_simple(square),
    }
}

/// The chess symbol for a square, chosen by piece kind; a blank for a square
/// without a piece kind, the off-board marker included.
pub fn get_piece_character(piece: u8) -> (glyph: &'static str)
    ensures
        glyph@ == symbol_of(piece),
{
    proof {
        reveal_strlit("\u{265F}\u{FE0E}");
        reveal_strlit("\u{265E}");
        reveal_strlit("\u{265D}");
        reveal_strlit("\u{265C}");
        reveal_strlit("\u{265B}");
        reveal_strlit("\u{265A}");
        reveal_strlit(" ");
    }
    let glyph = if is_pawn(piece) {
        "\u{265F}\u{FE0E}"
    } else if is_knight(piece) {
        "\u{265E}"
    } else if is_bishop(piece) {
        "\u{265D}"
    } else if is_rook(piece) {
        "\u{265C}"
    } else if is_queen(piece) {
        "\u{265B}"
    } else if is_king(piece) {
        "\u{265A}"
    } else {
        " "
    };
    assert(glyph@ =~= symbol_of(piece));
    glyph
}

/// The plain letter for a square: upper case for white, lower case for
/// black, a blank for a square without a piece kind, the off-board marker
/// included.
pub fn get_piece_character_simple(piece: u8) -> (glyph: &'static str)
    ensures
        glyph@ == seq![letter_of(piece)],
{
    proof {
        reveal_strlit("P");
        reveal_strlit("N");
        reveal_strlit("B");
        reveal_strlit("R");
        reveal_strlit("Q");
        reveal_strlit("K");
        reveal_strlit("p");
        reveal_strlit("n");
        reveal_strlit("b");
        reveal_strlit("r");
        reveal_strlit("q");
        reveal_strlit("k");
        reveal_strlit(" ");
    }
    let glyph = if is_white(piece) {
        if is_pawn(piece) {
            "P"
        } else if is_knight(piece) {
            "N"
        } else if is_bishop(piece) {
            "B"
        } else if is_rook(piece) {
            "R"
        } else if is_queen(piece) {
            "Q"
        } else if is_king(piece) {
            "K"
        } else {
            " "
        }
    } else {
        if is_pawn(piece) {
            "p"
        } else if is_knight(piece) {
            "n"
        } else if is_bishop(piece) {
            "b"
        } else if is_rook(piece) {
            "r"
        } else if is_queen(piece) {
            "q"
        } else if is_king(piece) {
            "k"
        } else {
            " "
        }
    };
    assert(glyph@ =~= seq![letter_of(piece)]);
    glyph
}

} // verus!
