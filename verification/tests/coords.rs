use chess_board::coords::{square_from_chars, GRID_SIZE};
use chess_board::{
    algebraic_pairs_to_board_position, board_position_to_algebraic_pair, BOARD_END, BOARD_START,
};

#[test]
fn grid_dimensions() {
    assert_eq!(BOARD_START, 2);
    assert_eq!(BOARD_END, 10);
    assert_eq!(GRID_SIZE, 12);
}

#[test]
fn naming_then_reading_gives_the_square_back() {
    for row in BOARD_START..BOARD_END {
        for col in BOARD_START..BOARD_END {
            let name = board_position_to_algebraic_pair((row, col)).unwrap();
            assert_eq!(algebraic_pairs_to_board_position(&name), Some((row, col)));
        }
    }
}

#[test]
fn reading_then_naming_gives_the_name_back() {
    for file in ['a', 'b', 'c', 'd', 'e', 'f', 'g', 'h'] {
        for rank in ['1', '2', '3', '4', '5', '6', '7', '8'] {
            let name = format!("{}{}", file, rank);
            let square = algebraic_pairs_to_board_position(&name).unwrap();
            assert_eq!(board_position_to_algebraic_pair(square).unwrap(), name);
        }
    }
}

#[test]
fn corner_and_centre_squares() {
    assert_eq!(algebraic_pairs_to_board_position("a8"), Some((2, 2)));
    assert_eq!(algebraic_pairs_to_board_position("h8"), Some((2, 9)));
    assert_eq!(algebraic_pairs_to_board_position("a1"), Some((9, 2)));
    assert_eq!(algebraic_pairs_to_board_position("h1"), Some((9, 9)));
    assert_eq!(algebraic_pairs_to_board_position("e4"), Some((6, 6)));
    assert_eq!(algebraic_pairs_to_board_position("d5"), Some((5, 5)));
    assert_eq!(board_position_to_algebraic_pair((9, 9)).unwrap(), "h1");
    assert_eq!(board_position_to_algebraic_pair((6, 6)).unwrap(), "e4");
    assert_eq!(board_position_to_algebraic_pair((2, 9)).unwrap(), "h8");
}

#[test]
fn texts_that_name_no_square() {
    for text in [
        "", "a", "8", "a11", "e44", "z1", "i1", "A1", "E4", "a0", "a9", "1a", "4e", "--", "-",
        " e4", "e4 ", "e 4", "\u{e9}", "a\u{e9}", "\u{e9}1", "a\u{661}",
    ] {
        assert_eq!(algebraic_pairs_to_board_position(text), None);
    }
}

#[test]
fn coordinates_outside_the_playing_surface_have_no_name() {
    for row in 0..GRID_SIZE + 2 {
        for col in 0..GRID_SIZE + 2 {
            let inside = (BOARD_START..BOARD_END).contains(&row)
                && (BOARD_START..BOARD_END).contains(&col);
            assert_eq!(board_position_to_algebraic_pair((row, col)).is_some(), inside);
        }
    }
    assert_eq!(board_position_to_algebraic_pair((1, 5)), None);
    assert_eq!(board_position_to_algebraic_pair((5, 10)), None);
    assert_eq!(board_position_to_algebraic_pair((usize::MAX, usize::MAX)), None);
}

#[test]
fn squares_read_from_characters() {
    assert_eq!(square_from_chars(&vec!['c', '5']), Some((5, 4)));
    assert_eq!(square_from_chars(&vec!['c']), None);
    assert_eq!(square_from_chars(&vec!['c', '5', '5']), None);
    assert_eq!(square_from_chars(&vec![]), None);
}
