//! The canonical form of position notation: the one text among those that
//! describe a position which the writer gives back.

use vstd::prelude::*;
use crate::coords::{is_rank_digit, lemma_square_then_name};
use crate::fen::{
    empties, position_of_text, rank_of_text, run_of, scan_rank, scan_ranks, FenError,
};
use crate::fen_laws::{
    lemma_castling_round_trip, lemma_placement_round_trip, lemma_read_position_is_valid,
    lemma_write_then_read,
};
use crate::fen_write::{
    castling_text, fields_of_position, rank_text, rank_texts, skip_text, text_of_position,
};
use crate::piece::{is_piece, letter_of, piece_of_letter, EMPTY};
use crate::state::Position;
use crate::text::{
    all_digits, decimal_of, decimal_value, digit_char, is_digit, lemma_split_then_join, split_on,
    without_line_ending,
};

verus! {

/// Whether no two digits stand next to each other in a rank text, so that
/// every run of empty squares is written as one digit.
pub open spec fn no_neighbouring_digits(rank: Seq<char>) -> bool {
    forall|i: int, j: int|
        0 <= i && j == i + 1 && j < rank.len() ==> !(is_rank_digit(#[trigger] rank[i])
            && is_rank_digit(#[trigger] rank[j]))
}

/// Whether a castling field is one of the sixteen that the writer writes:
/// letters in the order `KQkq`, each at most once, or a dash for none.
pub open spec fn is_canonical_castling(field: Seq<char>) -> bool {
    exists|rights: Position| field == #[trigger] castling_text(rights)
}

/// Whether a number token is the shortest writing of its number: digits
/// only, and no leading zero but for zero itself.
pub open spec fn is_canonical_number(field: Seq<char>) -> bool {
    field.len() >= 1 && all_digits(field) && (field.len() == 1 || field[0] != '0')
}

/// Whether a text is position notation in canonical form: it describes a
/// position, has no line ending, writes every run of empty squares as one
/// digit, writes the castling rights in the order `KQkq` or as a dash, and
/// writes both clocks without sign or leading zero.
pub open spec fn is_canonical(text: Seq<char>) -> bool {
    let fields = split_on(text, ' ');
    let ranks = split_on(fields[0], '/');
    &&& position_of_text(text) is Ok
    &&& without_line_ending(text) == text
    &&& forall|k: int| 0 <= k < ranks.len() ==> no_neighbouring_digits(#[trigger] ranks[k])
    &&& is_canonical_castling(fields[2])
    &&& is_canonical_number(fields[4])
    &&& is_canonical_number(fields[5])
}

/// A letter that stands for a piece is the letter of that piece.
pub proof fn lemma_piece_of_letter(letter: char)
    requires
        piece_of_letter(letter) is Some,
    ensures
        is_piece(piece_of_letter(letter)->0),
        letter_of(piece_of_letter(letter)->0) == letter,
        !is_rank_digit(letter),
{
}

/// A run of empty squares behind empty squares is written as one digit.
proof fn lemma_rank_text_of_empties(count: nat, pending: nat)
    ensures
        rank_text(empties(count), pending) == skip_text(pending + count),
    decreases count,
{
    if count > 0 {
        assert(empties(count).skip(1) =~= empties((count - 1) as nat));
        lemma_rank_text_of_empties((count - 1) as nat, pending + 1);
    }
}

/// A piece behind a run of squares adds its letter to the text of the run.
proof fn lemma_rank_text_then_piece(squares: Seq<u8>, pending: nat, piece: u8)
    requires
        piece != EMPTY,
    ensures
        rank_text(squares.push(piece), pending) == rank_text(squares, pending).push(
            letter_of(piece),
        ),
    decreases squares.len(),
{
    let longer = squares.push(piece);
    if squares.len() == 0 {
        assert(longer.skip(1) =~= Seq::<u8>::empty());
        assert(rank_text(Seq::<u8>::empty(), 0) =~= Seq::<char>::empty());
        assert(rank_text(longer, pending) =~= skip_text(pending).push(letter_of(piece)));
    } else {
        assert(longer.skip(1) =~= squares.skip(1).push(piece));
        if squares[0] == EMPTY {
            lemma_rank_text_then_piece(squares.skip(1), pending + 1, piece);
        } else {
            lemma_rank_text_then_piece(squares.skip(1), 0, piece);
            let head = skip_text(pending).push(letter_of(squares[0]));
            assert(head + rank_text(squares.skip(1), 0).push(letter_of(piece)) =~= (head
                + rank_text(squares.skip(1), 0)).push(letter_of(piece)));
        }
    }
}

/// Empty squares behind a run of squares that ends in a piece add one digit
/// to the text of the run.
proof fn lemma_rank_text_then_empties(squares: Seq<u8>, pending: nat, count: nat)
    requires
        squares.len() > 0,
        squares.last() != EMPTY,
    ensures
        rank_text(squares + empties(count), pending) == rank_text(squares, pending) + skip_text(
            count,
        ),
    decreases squares.len(),
{
    let longer = squares + empties(count);
    assert(longer[0] == squares[0]);
    if squares.len() == 1 {
        assert(longer.skip(1) =~= empties(count));
        assert(squares.skip(1) =~= Seq::<u8>::empty());
        lemma_rank_text_of_empties(count, 0);
        let head = skip_text(pending).push(letter_of(squares[0]));
        assert(rank_text(Seq::<u8>::empty(), 0) =~= Seq::<char>::empty());
        assert(rank_text(squares, pending) =~= head);
    } else {
        let tail = squares.skip(1);
        assert(longer.skip(1) =~= tail + empties(count));
        assert(tail.last() == squares.last());
        if squares[0] == EMPTY {
            lemma_rank_text_then_empties(tail, pending + 1, count);
        } else {
            lemma_rank_text_then_empties(tail, 0, count);
            let head = skip_text(pending).push(letter_of(squares[0]));
            assert(head + (rank_text(tail, 0) + skip_text(count)) =~= (head + rank_text(tail, 0))
                + skip_text(count));
        }
    }
}

/// A rank text without neighbouring digits is the text that its squares are
/// written as.
pub proof fn lemma_rank_written_back(rank: Seq<char>)
    requires
        scan_rank(rank) is Ok,
        no_neighbouring_digits(rank),
    ensures
        rank_text(scan_rank(rank)->Ok_0, 0) == rank,
        rank.len() > 0 && !is_rank_digit(rank.last()) ==> scan_rank(rank)->Ok_0.len() > 0
            && scan_rank(rank)->Ok_0.last() != EMPTY,
    decreases rank.len(),
{
    if rank.len() > 0 {
        let shorter = rank.drop_last();
        let c = rank.last();
        let before = scan_rank(shorter)->Ok_0;
        let squares = scan_rank(rank)->Ok_0;
        assert(no_neighbouring_digits(shorter)) by {
            assert forall|i: int, j: int|
                0 <= i && j == i + 1 && j < shorter.len() implies !(is_rank_digit(
                #[trigger] shorter[i],
            ) && is_rank_digit(#[trigger] shorter[j])) by {
                assert(shorter[i] == rank[i]);
                assert(shorter[j] == rank[j]);
            }
        }
        lemma_rank_written_back(shorter);
        assert(squares == before + run_of(c));
        assert(shorter.push(c) =~= rank);
        if is_rank_digit(c) {
            let count = (c as int - '0' as int) as nat;
            assert(digit_char(count as int) == c);
            if shorter.len() == 0 {
                assert(before =~= Seq::<u8>::empty());
                assert(squares =~= empties(count));
                lemma_rank_text_of_empties(count, 0);
                assert(skip_text(count) =~= rank);
            } else {
                assert(!is_rank_digit(shorter.last())) by {
                    assert(shorter.last() == rank[rank.len() - 2]);
                    assert(c == rank[rank.len() - 1]);
                }
                lemma_rank_text_then_empties(before, 0, count);
                assert(shorter + skip_text(count) =~= rank);
            }
        } else {
            lemma_piece_of_letter(c);
            let piece = piece_of_letter(c)->0;
            assert(squares =~= before.push(piece));
            lemma_rank_text_then_piece(before, 0, piece);
        }
    }
}

/// The squares that rank texts describe are those of the ranks, eight each,
/// one rank after another.
pub proof fn lemma_scan_ranks_by_rank(ranks: Seq<Seq<char>>, rank: int)
    requires
        scan_ranks(ranks) is Ok,
        0 <= rank < ranks.len(),
    ensures
        scan_ranks(ranks)->Ok_0.len() == 8 * ranks.len(),
        scan_rank(ranks[rank]) == Ok::<Seq<u8>, FenError>(
            scan_ranks(ranks)->Ok_0.subrange(8 * rank, 8 * rank + 8),
        ),
    decreases ranks.len(),
{
    let before = scan_ranks(ranks.drop_last())->Ok_0;
    let row = rank_of_text(ranks.last())->Ok_0;
    let squares = scan_ranks(ranks)->Ok_0;
    assert(squares == before + row);
    if ranks.len() > 1 {
        lemma_scan_ranks_by_rank(ranks.drop_last(), if rank < ranks.len() - 1 {
            rank
        } else {
            0
        });
    } else {
        assert(before.len() == 0);
    }
    if rank == ranks.len() - 1 {
        assert(squares.subrange(8 * rank, 8 * rank + 8) =~= row);
    } else {
        assert(ranks.drop_last()[rank] == ranks[rank]);
        assert(squares.subrange(8 * rank, 8 * rank + 8) =~= before.subrange(
            8 * rank,
            8 * rank + 8,
        ));
    }
}

/// A number token in canonical form is the shortest writing of its number.
pub proof fn lemma_number_written_back(field: Seq<char>)
    requires
        is_canonical_number(field),
    ensures
        decimal_value(field) >= 0,
        decimal_of(decimal_value(field) as nat) == field,
        field[0] != '0' ==> decimal_value(field) >= 1,
    decreases field.len(),
{
    let c = field.last();
    assert(is_digit(c));
    if field.len() == 1 {
        assert(field.drop_last() =~= Seq::<char>::empty());
        assert(decimal_value(field.drop_last()) == 0);
        assert(decimal_of(decimal_value(field) as nat) =~= field);
    } else {
        let shorter = field.drop_last();
        assert(shorter[0] == field[0]);
        assert forall|i: int| 0 <= i < shorter.len() implies is_digit(#[trigger] shorter[i]) by {
            assert(shorter[i] == field[i]);
        }
        lemma_number_written_back(shorter);
        let value = decimal_value(field) as nat;
        assert(value / 10 == decimal_value(shorter));
        assert(digit_char((value % 10) as int) == c);
        assert(shorter.push(c) =~= field);
    }
}

/// A castling field in canonical form is the text that the rights it holds
/// are written as.
pub proof fn lemma_castling_written_back(field: Seq<char>, position: Position)
    requires
        is_canonical_castling(field),
        position.white_king_side_castle == field.contains('K'),
        position.white_queen_side_castle == field.contains('Q'),
        position.black_king_side_castle == field.contains('k'),
        position.black_queen_side_castle == field.contains('q'),
    ensures
        castling_text(position) == field,
{
    let rights = choose|rights: Position| field == #[trigger] castling_text(rights);
    lemma_castling_round_trip(rights);
}

/// Reading a text in canonical form and writing the position gives the text
/// back, character for character.
pub proof fn lemma_read_then_write(text: Seq<char>)
    requires
        is_canonical(text),
    ensures
        position_of_text(text) matches Ok(position) && text_of_position(position) == text,
{
    let fields = split_on(text, ' ');
    let ranks = split_on(fields[0], '/');
    let position = position_of_text(text)->Ok_0;
    let written = fields_of_position(position);
    lemma_split_then_join(text, ' ');
    lemma_split_then_join(fields[0], '/');
    assert(rank_texts(position.squares) =~= ranks) by {
        assert forall|k: int| 0 <= k < 8 implies rank_texts(position.squares)[k] == ranks[k] by {
            lemma_scan_ranks_by_rank(ranks, k);
            lemma_rank_written_back(ranks[k]);
        }
    }
    lemma_castling_written_back(fields[2], position);
    if let Some(at) = position.pawn_double_move {
        lemma_square_then_name(fields[3]);
    }
    lemma_number_written_back(fields[4]);
    lemma_number_written_back(fields[5]);
    assert(written[1] =~= fields[1]);
    assert(written[3] =~= fields[3]);
    assert(written =~= fields);
}

/// The text of a run of squares has no neighbouring digits.
proof fn lemma_rank_text_digits_apart(squares: Seq<u8>, pending: nat)
    ensures
        no_neighbouring_digits(rank_text(squares, pending)),
    decreases squares.len(),
{
    let text = rank_text(squares, pending);
    if squares.len() > 0 {
        let tail = squares.skip(1);
        if squares[0] == EMPTY {
            lemma_rank_text_digits_apart(tail, pending + 1);
        } else {
            lemma_rank_text_digits_apart(tail, 0);
            let head = skip_text(pending).push(letter_of(squares[0]));
            let rest = rank_text(tail, 0);
            assert(text == head + rest);
            assert(!is_rank_digit(head.last()));
            assert forall|i: int, j: int| 0 <= i && j == i + 1 && j < text.len() implies !(
            is_rank_digit(#[trigger] text[i]) && is_rank_digit(#[trigger] text[j])) by {
                if j < head.len() {
                    assert(text[j] == head[j]);
                } else if i < head.len() {
                    assert(text[i] == head[i]);
                } else {
                    assert(text[i] == rest[i - head.len()]);
                    assert(text[j] == rest[j - head.len()]);
                }
            }
        }
    }
}

/// The shortest writing of a number is a number token in canonical form.
pub proof fn lemma_decimal_of_is_canonical(n: nat)
    ensures
        is_canonical_number(decimal_of(n)),
        n > 0 ==> decimal_of(n)[0] != '0',
    decreases n,
{
    let text = decimal_of(n);
    if n >= 10 {
        lemma_decimal_of_is_canonical(n / 10);
        let shorter = decimal_of(n / 10);
        assert(text[0] == shorter[0]);
        assert forall|i: int| 0 <= i < text.len() implies is_digit(#[trigger] text[i]) by {
            if i < shorter.len() {
                assert(text[i] == shorter[i]);
            }
        }
    }
}

/// The notation that a valid position is written as is in canonical form.
pub proof fn lemma_written_text_is_canonical(position: Position)
    requires
        position.is_valid(),
    ensures
        is_canonical(text_of_position(position)),
{
    let text = text_of_position(position);
    lemma_write_then_read(position);
    lemma_placement_round_trip(position.squares);
    let ranks = rank_texts(position.squares);
    assert forall|k: int| 0 <= k < ranks.len() implies no_neighbouring_digits(
        #[trigger] ranks[k],
    ) by {
        lemma_rank_text_digits_apart(position.squares.subrange(8 * k, 8 * k + 8), 0);
    }
    assert(is_canonical_castling(castling_text(position)));
    lemma_decimal_of_is_canonical(position.half_move_clock as nat);
    lemma_decimal_of_is_canonical(position.full_move_clock as nat);
}

/// Whatever notation a position was read from, writing it gives a text in
/// canonical form, and reading that text gives the same position again.
pub proof fn lemma_read_write_read(text: Seq<char>)
    requires
        position_of_text(text) is Ok,
    ensures
        is_canonical(text_of_position(position_of_text(text)->Ok_0)),
        position_of_text(text_of_position(position_of_text(text)->Ok_0)) == position_of_text(text),
{
    lemma_read_position_is_valid(text);
    lemma_write_then_read(position_of_text(text)->Ok_0);
    lemma_written_text_is_canonical(position_of_text(text)->Ok_0);
}

} // verus!
