//! Writing a board state as position notation.

use vstd::prelude::*;
use vstd::string::*;
use crate::coords::{board_position_to_algebraic_pair, name_of_square, BOARD_START};
use crate::piece::{get_piece_character_simple, letter_of, PieceColor, EMPTY};
use crate::state::{BoardState, Position};
use crate::text::{decimal_of, digit_char, join_with, push_decimal};

verus! {

/// The digit that stands for a run of empty squares; nothing for no run.
pub open spec fn skip_text(count: nat) -> Seq<char> {
    if count == 0 {
        Seq::<char>::empty()
    } else {
        seq![digit_char(count as int)]
    }
}

/// The placement text of a run of squares that follows `pending` empty
/// squares of the same rank: every longest run of empty squares becomes one
/// digit, every piece its letter.
pub open spec fn rank_text(squares: Seq<u8>, pending: nat) -> Seq<char>
    decreases squares.len(),
{
    if squares.len() == 0 {
        skip_text(pending)
    } else if squares[0] == EMPTY {
        rank_text(squares.skip(1), pending + 1)
    } else {
        skip_text(pending).push(letter_of(squares[0])) + rank_text(squares.skip(1), 0)
    }
}

/// The placement texts of the eight ranks, top rank first.
pub open spec fn rank_texts(squares: Seq<u8>) -> Seq<Seq<char>> {
    Seq::new(8, |rank: int| rank_text(squares.subrange(8 * rank, 8 * rank + 8), 0))
}

/// The placement field: the rank texts with a slash between neighbours.
pub open spec fn placement_text(squares: Seq<u8>) -> Seq<char> {
    join_with(rank_texts(squares), '/')
}

/// The side-to-move field.
pub open spec fn side_text(side: PieceColor) -> Seq<char> {
    match side {
        PieceColor::White => seq!['w'],
        PieceColor::Black => seq!['b'],
    }
}

/// The letter of a castling right that is held; nothing for one that is not.
pub open spec fn right_text(held: bool, letter: char) -> Seq<char> {
    if held {
        seq![letter]
    } else {
        Seq::<char>::empty()
    }
}

/// The castling field: the letters of the rights held, in the order `KQkq`,
/// or a dash where none is held.
pub open spec fn castling_text(position: Position) -> Seq<char> {
    let letters = right_text(position.white_king_side_castle, 'K') + right_text(
        position.white_queen_side_castle,
        'Q',
    ) + right_text(position.black_king_side_castle, 'k') + right_text(
        position.black_queen_side_castle,
        'q',
    );
    if letters.len() == 0 {
        seq!['-']
    } else {
        letters
    }
}

/// The en-passant field: the name of the target square, or a dash.
pub open spec fn en_passant_text(target: Option<(usize, usize)>) -> Seq<char> {
    match target {
        Some(at) => name_of_square(at.0 as int, at.1 as int),
        None => seq!['-'],
    }
}

/// The six fields of a position's notation, in order.
pub open spec fn fields_of_position(position: Position) -> Seq<Seq<char>> {
    seq![
        placement_text(position.squares),
        side_text(position.to_move),
        castling_text(position),
        en_passant_text(position.pawn_double_move),
        decimal_of(position.half_move_clock as nat),
        decimal_of(position.full_move_clock as nat),
    ]
}

/// The notation of a position: its six fields with a space between neighbours.
pub open spec fn text_of_position(position: Position) -> Seq<char> {
    join_with(fields_of_position(position), ' ')
}

/// Appends the placement text of one rank of the playing surface.
fn push_rank(out: &mut String, state: &BoardState, rank: usize)
    requires
        rank < 8,
    ensures
        final(out)@ == old(out)@ + rank_text(state@.rank_squares(rank as int), 0),
{
    let ghost start = out@;
    let ghost squares = state@.rank_squares(rank as int);
    let row = BOARD_START + rank;
    let mut pending: u8 = 0;
    let mut file: usize = 0;
    assert(squares.skip(0) =~= squares);
    while file < 8
        invariant
            file <= 8,
            pending <= file,
            rank < 8,
            row == BOARD_START + rank,
            squares == state@.rank_squares(rank as int),
            squares.len() == 8,
            out@ + rank_text(squares.skip(file as int), pending as nat) == start + rank_text(
                squares,
                0,
            ),
        decreases 8 - file,
    {
        let square = state.board[row][file + BOARD_START];
        let ghost rest = squares.skip(file as int);
        assert(rest[0] == square);
        assert(rest.skip(1) =~= squares.skip(file + 1));
        if square == EMPTY {
            pending += 1;
        } else {
            if pending > 0 {
                push_decimal(out, pending);
            }
            out.append(get_piece_character_simple(square));
            pending = 0;
        }
        file += 1;
    }
    if pending > 0 {
        push_decimal(out, pending);
    }
}

/// Appends the placement field.
fn push_placement(out: &mut String, state: &BoardState)
    ensures
        final(out)@ == old(out)@ + placement_text(state@.squares),
{
    let ghost start = out@;
    let ghost texts = rank_texts(state@.squares);
    let mut rank: usize = 0;
    assert(out@ =~= start + join_with(texts.take(0), '/'));
    while rank < 8
        invariant
            rank <= 8,
            texts == rank_texts(state@.squares),
            out@ == start + join_with(texts.take(rank as int), '/'),
        decreases 8 - rank,
    {
        assert(texts.take(rank + 1).drop_last() =~= texts.take(rank as int));
        if rank > 0 {
            proof {
                reveal_strlit("/");
            }
            out.append("/");
        }
        push_rank(out, state, rank);
        rank += 1;
    }
    assert(texts.take(8) =~= texts);
}

/// Appends the castling field.
fn push_castling(out: &mut String, state: &BoardState)
    ensures
        final(out)@ == old(out)@ + castling_text(state@),
{
    proof {
        reveal_strlit("K");
        reveal_strlit("Q");
        reveal_strlit("k");
        reveal_strlit("q");
        reveal_strlit("-");
    }
    let mut any = false;
    if state.white_king_side_castle {
        out.append("K");
        any = true;
    }
    if state.white_queen_side_castle {
        out.append("Q");
        any = true;
    }
    if state.black_king_side_castle {
        out.append("k");
        any = true;
    }
    if state.black_queen_side_castle {
        out.append("q");
        any = true;
    }
    if !any {
        out.append("-");
    }
}

impl BoardState {
    /// The notation of this state, where its position is valid: the
    /// playing surface holds only empty squares and pieces, and the
    /// en-passant target, if any, is on the playing surface. Otherwise
    /// there is none.
    pub fn to_fen(&self) -> (text: Option<String>)
        ensures
            text is Some <==> self@.is_valid(),
            text matches Some(notation) ==> notation@ == text_of_position(self@),
    {
        if !self.has_valid_position() {
            return None;
        }
        proof {
            reveal_strlit(" ");
            reveal_strlit("w");
            reveal_strlit("b");
            reveal_strlit("-");
        }
        let ghost fields = fields_of_position(self@);
        let mut out = String::new();
        push_placement(&mut out, self);
        assert(out@ =~= fields[0]);
        out.append(" ");
        match self.to_move {
            PieceColor::White => out.append("w"),
            PieceColor::Black => out.append("b"),
        }
        assert(out@ =~= fields[0].push(' ') + fields[1]);
        out.append(" ");
        push_castling(&mut out, self);
        assert(out@ =~= (fields[0].push(' ') + fields[1]).push(' ') + fields[2]);
        out.append(" ");
        match self.pawn_double_move {
            Some(at) => {
                match board_position_to_algebraic_pair(at) {
                    Some(name) => out.append(name.as_str()),
                    None => {},
                }
            },
            None => out.append("-"),
        }
        assert(out@ =~= ((fields[0].push(' ') + fields[1]).push(' ') + fields[2]).push(' ')
            + fields[3]);
        out.append(" ");
        push_decimal(&mut out, self.half_move_clock);
        out.append(" ");
        push_decimal(&mut out, self.full_move_clock);
        proof {
            let f1 = fields.take(1);
            let f2 = fields.take(2);
            let f3 = fields.take(3);
            let f4 = fields.take(4);
            let f5 = fields.take(5);
            assert(f2.drop_last() =~= f1);
            assert(f3.drop_last() =~= f2);
            assert(f4.drop_last() =~= f3);
            assert(f5.drop_last() =~= f4);
            assert(fields.drop_last() =~= f5);
            assert(join_with(f1, ' ') == fields[0]);
            assert(join_with(f2, ' ') == fields[0].push(' ') + fields[1]);
            assert(join_with(f3, ' ') == join_with(f2, ' ').push(' ') + fields[2]);
            assert(join_with(f4, ' ') == join_with(f3, ' ').push(' ') + fields[3]);
            assert(join_with(f5, ' ') == join_with(f4, ' ').push(' ') + fields[4]);
            assert(join_with(fields, ' ') == join_with(f5, ' ').push(' ') + fields[5]);
            assert(out@ =~= join_with(fields, ' '));
        }
        Some(out)
    }
}

} // verus!
