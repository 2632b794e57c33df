//! What reading and writing position notation do to each other.

use vstd::prelude::*;
use crate::coords::{is_rank_digit, lemma_name_then_square, on_board};
use crate::fen::{
    empties, en_passant_of_text, is_placement_char, lemma_scan_rank_playable, placement_of_text,
    position_of_text, rank_of_text, run_of, scan_rank, scan_ranks, side_of_text, FenError,
};
use crate::fen_write::{
    castling_text, en_passant_text, fields_of_position, placement_text, rank_text, rank_texts,
    right_text, skip_text, text_of_position,
};
use crate::piece::{is_piece, is_playable, letter_of, piece_of_letter, EMPTY};
use crate::state::Position;
use crate::text::{
    digit_char, free_of, join_with, lemma_byte_decimal_round_trip, lemma_decimal_of_reads_back,
    lemma_join_then_split, split_on, without_line_ending,
};

verus! {

/// The letter of a piece is the letter that stands for it.
pub proof fn lemma_letter_of_piece(piece: u8)
    requires
        is_piece(piece),
    ensures
        piece_of_letter(letter_of(piece)) == Some(piece),
        is_placement_char(letter_of(piece)),
        run_of(letter_of(piece)) == seq![piece],
{
}

/// One more placement character that fits the rank adds its squares.
proof fn lemma_scan_rank_push(text: Seq<char>, squares: Seq<u8>, c: char)
    requires
        scan_rank(text) == Ok::<Seq<u8>, FenError>(squares),
        is_placement_char(c),
        squares.len() + run_of(c).len() <= 8,
    ensures
        scan_rank(text.push(c)) == Ok::<Seq<u8>, FenError>(squares + run_of(c)),
{
    assert(text.push(c).drop_last() =~= text);
}

/// The digit of a run of empty squares reads back as the run.
proof fn lemma_scan_skip_text(text: Seq<char>, squares: Seq<u8>, pending: nat)
    requires
        scan_rank(text) == Ok::<Seq<u8>, FenError>(squares),
        squares.len() + pending <= 8,
    ensures
        scan_rank(text + skip_text(pending)) == Ok::<Seq<u8>, FenError>(
            squares + empties(pending),
        ),
{
    if pending == 0 {
        assert(text + skip_text(pending) =~= text);
        assert(squares + empties(pending) =~= squares);
    } else {
        let digit = digit_char(pending as int);
        assert(text + skip_text(pending) =~= text.push(digit));
        assert(run_of(digit) =~= empties(pending));
        lemma_scan_rank_push(text, squares, digit);
    }
}

/// Behind a text already read, the placement text of a run of squares reads
/// back as those squares.
proof fn lemma_rank_text_scans(text: Seq<char>, squares: Seq<u8>, rest: Seq<u8>, pending: nat)
    requires
        scan_rank(text) == Ok::<Seq<u8>, FenError>(squares),
        squares.len() + pending + rest.len() <= 8,
        forall|i: int| 0 <= i < rest.len() ==> is_playable(#[trigger] rest[i]),
    ensures
        scan_rank(text + rank_text(rest, pending)) == Ok::<Seq<u8>, FenError>(
            squares + empties(pending) + rest,
        ),
    decreases rest.len(),
{
    if rest.len() == 0 {
        lemma_scan_skip_text(text, squares, pending);
        assert(squares + empties(pending) + rest =~= squares + empties(pending));
    } else if rest[0] == EMPTY {
        let tail = rest.skip(1);
        assert forall|i: int| 0 <= i < tail.len() implies is_playable(#[trigger] tail[i]) by {
            assert(tail[i] == rest[i + 1]);
        }
        lemma_rank_text_scans(text, squares, tail, pending + 1);
        assert(squares + empties(pending + 1) + tail =~= squares + empties(pending) + rest);
    } else {
        let tail = rest.skip(1);
        let letter = letter_of(rest[0]);
        assert(is_playable(rest[0]));
        lemma_letter_of_piece(rest[0]);
        lemma_scan_skip_text(text, squares, pending);
        let skipped = text + skip_text(pending);
        lemma_scan_rank_push(skipped, squares + empties(pending), letter);
        assert forall|i: int| 0 <= i < tail.len() implies is_playable(#[trigger] tail[i]) by {
            assert(tail[i] == rest[i + 1]);
        }
        let placed = squares + empties(pending) + seq![rest[0]];
        lemma_rank_text_scans(skipped.push(letter), placed, tail, 0);
        assert(skipped.push(letter) + rank_text(tail, 0) =~= text + rank_text(rest, pending));
        assert(placed + empties(0) + tail =~= squares + empties(pending) + rest);
    }
}

/// The placement text of a run of squares holds placement characters only.
proof fn lemma_rank_text_chars(rest: Seq<u8>, pending: nat)
    requires
        pending + rest.len() <= 8,
        forall|i: int| 0 <= i < rest.len() ==> is_playable(#[trigger] rest[i]),
    ensures
        forall|i: int|
            0 <= i < rank_text(rest, pending).len() ==> is_placement_char(
                #[trigger] rank_text(rest, pending)[i],
            ),
    decreases rest.len(),
{
    let text = rank_text(rest, pending);
    if rest.len() == 0 {
        assert(text == skip_text(pending));
        assert forall|i: int| 0 <= i < text.len() implies is_placement_char(#[trigger] text[i]) by {
            assert(pending > 0);
            assert(text[i] == digit_char(pending as int));
            assert(is_rank_digit(digit_char(pending as int)));
        }
    } else {
        let tail = rest.skip(1);
        assert forall|i: int| 0 <= i < tail.len() implies is_playable(#[trigger] tail[i]) by {
            assert(tail[i] == rest[i + 1]);
        }
        if rest[0] == EMPTY {
            lemma_rank_text_chars(tail, pending + 1);
            assert(text == rank_text(tail, pending + 1));
        } else {
            assert(is_playable(rest[0]));
            lemma_letter_of_piece(rest[0]);
            lemma_rank_text_chars(tail, 0);
            let head = skip_text(pending).push(letter_of(rest[0]));
            assert(text == head + rank_text(tail, 0));
            assert forall|i: int| 0 <= i < text.len() implies is_placement_char(
                #[trigger] text[i],
            ) by {
                if i < head.len() {
                    assert(text[i] == head[i]);
                    if i < skip_text(pending).len() {
                        assert(head[i] == digit_char(pending as int));
                    }
                } else {
                    assert(text[i] == rank_text(tail, 0)[i - head.len()]);
                }
            }
        }
    }
}

/// The text of a rank of eight playable squares reads back as the rank and
/// holds neither a slash nor a space.
pub proof fn lemma_rank_round_trip(row: Seq<u8>)
    requires
        row.len() == 8,
        forall|i: int| 0 <= i < 8 ==> is_playable(#[trigger] row[i]),
    ensures
        rank_of_text(rank_text(row, 0)) == Ok::<Seq<u8>, FenError>(row),
        free_of(rank_text(row, 0), '/'),
        free_of(rank_text(row, 0), ' '),
{
    let nothing = Seq::<char>::empty();
    lemma_rank_text_scans(nothing, Seq::<u8>::empty(), row, 0);
    assert(nothing + rank_text(row, 0) =~= rank_text(row, 0));
    assert(Seq::<u8>::empty() + empties(0) + row =~= row);
    lemma_rank_text_chars(row, 0);
}

/// The rank texts of sixty-four playable squares read back as the squares.
proof fn lemma_rank_texts_scan(squares: Seq<u8>, count: int)
    requires
        squares.len() == 64,
        forall|i: int| 0 <= i < 64 ==> is_playable(#[trigger] squares[i]),
        0 <= count <= 8,
    ensures
        scan_ranks(rank_texts(squares).take(count)) == Ok::<Seq<u8>, FenError>(
            squares.take(8 * count),
        ),
    decreases count,
{
    let texts = rank_texts(squares).take(count);
    if count == 0 {
        assert(texts =~= Seq::<Seq<char>>::empty());
        assert(squares.take(0) =~= Seq::<u8>::empty());
    } else {
        lemma_rank_texts_scan(squares, count - 1);
        assert(texts.drop_last() =~= rank_texts(squares).take(count - 1));
        let row = squares.subrange(8 * (count - 1), 8 * (count - 1) + 8);
        assert(texts.last() == rank_text(row, 0));
        assert forall|i: int| 0 <= i < 8 implies is_playable(#[trigger] row[i]) by {
            assert(row[i] == squares[8 * (count - 1) + i]);
        }
        lemma_rank_round_trip(row);
        assert(squares.take(8 * (count - 1)) + row =~= squares.take(8 * count));
    }
}

/// Pieces free of a character, joined with another separator, are free of it.
proof fn lemma_join_free_of(pieces: Seq<Seq<char>>, sep: char, c: char)
    requires
        sep != c,
        forall|k: int| 0 <= k < pieces.len() ==> free_of(#[trigger] pieces[k], c),
    ensures
        free_of(join_with(pieces, sep), c),
    decreases pieces.len(),
{
    if pieces.len() == 1 {
        assert(free_of(pieces[0], c));
    } else if pieces.len() > 1 {
        let before = pieces.drop_last();
        assert forall|k: int| 0 <= k < before.len() implies free_of(#[trigger] before[k], c) by {
            assert(before[k] == pieces[k]);
        }
        lemma_join_free_of(before, sep, c);
        assert(free_of(pieces.last(), c));
    }
}

/// The placement field of sixty-four playable squares reads back as the
/// squares and holds no space.
pub proof fn lemma_placement_round_trip(squares: Seq<u8>)
    requires
        squares.len() == 64,
        forall|i: int| 0 <= i < 64 ==> is_playable(#[trigger] squares[i]),
    ensures
        placement_of_text(placement_text(squares)) == Ok::<Seq<u8>, FenError>(squares),
        split_on(placement_text(squares), '/') == rank_texts(squares),
        free_of(placement_text(squares), ' '),
{
    let texts = rank_texts(squares);
    assert forall|k: int| 0 <= k < texts.len() implies free_of(#[trigger] texts[k], '/')
        && free_of(texts[k], ' ') by {
        let row = squares.subrange(8 * k, 8 * k + 8);
        assert forall|i: int| 0 <= i < 8 implies is_playable(#[trigger] row[i]) by {
            assert(row[i] == squares[8 * k + i]);
        }
        lemma_rank_round_trip(row);
    }
    lemma_join_then_split(texts, '/');
    lemma_join_free_of(texts, '/', ' ');
    lemma_rank_texts_scan(squares, 8);
    assert(texts.take(8) =~= texts);
    assert(squares.take(64) =~= squares);
}

/// The castling field holds the letter of a right exactly when the right is
/// held, and no space.
pub proof fn lemma_castling_round_trip(position: Position)
    ensures
        castling_text(position).contains('K') == position.white_king_side_castle,
        castling_text(position).contains('Q') == position.white_queen_side_castle,
        castling_text(position).contains('k') == position.black_king_side_castle,
        castling_text(position).contains('q') == position.black_queen_side_castle,
        free_of(castling_text(position), ' '),
{
    let a = right_text(position.white_king_side_castle, 'K');
    let b = right_text(position.white_queen_side_castle, 'Q');
    let c = right_text(position.black_king_side_castle, 'k');
    let d = right_text(position.black_queen_side_castle, 'q');
    let letters = a + b + c + d;
    if position.white_king_side_castle {
        assert(letters[0] == 'K');
    }
    if position.white_queen_side_castle {
        assert(letters[a.len() as int] == 'Q');
    }
    if position.black_king_side_castle {
        assert(letters[(a.len() + b.len()) as int] == 'k');
    }
    if position.black_queen_side_castle {
        assert(letters[(a.len() + b.len() + c.len()) as int] == 'q');
    }
    assert forall|i: int| 0 <= i < letters.len() implies (#[trigger] letters[i] == 'K'
        && position.white_king_side_castle) || (letters[i] == 'Q'
        && position.white_queen_side_castle) || (letters[i] == 'k'
        && position.black_king_side_castle) || (letters[i] == 'q'
        && position.black_queen_side_castle) by {}
}

/// The en-passant field of a target on the playing surface, or of none,
/// reads back as what it was written from and holds no space.
pub proof fn lemma_en_passant_round_trip(target: Option<(usize, usize)>)
    requires
        target matches Some(at) ==> on_board(at.0 as int, at.1 as int),
    ensures
        en_passant_of_text(en_passant_text(target)) == Ok::<Option<(usize, usize)>, FenError>(
            target,
        ),
        free_of(en_passant_text(target), ' '),
{
    if let Some(at) = target {
        lemma_name_then_square(at.0, at.1);
    }
}

/// The position that a notation describes is valid: it has sixty-four
/// squares, each empty or a piece, and its en-passant target, if any, lies
/// on the playing surface.
pub proof fn lemma_read_position_is_valid(text: Seq<char>)
    ensures
        position_of_text(text) matches Ok(position) ==> position.is_valid(),
{
    if let Ok(position) = position_of_text(text) {
        let fields = split_on(without_line_ending(text), ' ');
        let ranks = split_on(fields[0], '/');
        lemma_scan_ranks_playable(ranks);
    }
}

/// The squares that rank texts describe are eight to a rank, each empty or a
/// piece.
pub proof fn lemma_scan_ranks_playable(ranks: Seq<Seq<char>>)
    ensures
        scan_ranks(ranks) matches Ok(squares) ==> squares.len() == 8 * ranks.len() && forall|
            i: int,
        | 0 <= i < squares.len() ==> is_playable(#[trigger] squares[i]),
    decreases ranks.len(),
{
    if ranks.len() > 0 {
        lemma_scan_ranks_playable(ranks.drop_last());
        if let Ok(squares) = scan_ranks(ranks) {
            let before = scan_ranks(ranks.drop_last())->Ok_0;
            let row = rank_of_text(ranks.last())->Ok_0;
            lemma_scan_rank_playable(ranks.last());
            assert forall|i: int| 0 <= i < squares.len() implies is_playable(
                #[trigger] squares[i],
            ) by {
                if i < before.len() {
                    assert(squares[i] == before[i]);
                } else {
                    assert(squares[i] == row[i - before.len()]);
                }
            }
        }
    }
}

/// Writing a valid position and reading the notation gives the position
/// back, field for field.
pub proof fn lemma_write_then_read(position: Position)
    requires
        position.is_valid(),
    ensures
        position_of_text(text_of_position(position)) == Ok::<Position, FenError>(position),
        split_on(text_of_position(position), ' ') == fields_of_position(position),
        without_line_ending(text_of_position(position)) == text_of_position(position),
{
    let fields = fields_of_position(position);
    let text = text_of_position(position);
    lemma_placement_round_trip(position.squares);
    lemma_castling_round_trip(position);
    lemma_en_passant_round_trip(position.pawn_double_move);
    lemma_decimal_of_reads_back(position.half_move_clock as nat);
    lemma_decimal_of_reads_back(position.full_move_clock as nat);
    lemma_byte_decimal_round_trip(position.half_move_clock);
    lemma_byte_decimal_round_trip(position.full_move_clock);
    assert forall|k: int| 0 <= k < fields.len() implies free_of(#[trigger] fields[k], ' ') by {}
    lemma_join_then_split(fields, ' ');
    assert(text == join_with(fields.drop_last(), ' ').push(' ') + fields[5]);
    assert(text.last() == fields[5].last());
    assert(side_of_text(fields[1]) == Some(position.to_move));
}

} // verus!
