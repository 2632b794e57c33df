use chess_board::{board_from_fen, PieceColor, EMPTY, PAWN, WHITE};

#[test]
fn swapping_the_colour_changes_only_the_side_to_move() {
    let mut b = board_from_fen("rnbqkbnr/pppppppp/8/8/8/8/PPPPPPPP/RNBQKBNR w KQkq e3 4 7").unwrap();
    let before = b.clone();
    b.swap_color();
    assert_eq!(b.to_move, PieceColor::Black);
    assert_eq!(b.to_fen().unwrap(), "rnbqkbnr/pppppppp/8/8/8/8/PPPPPPPP/RNBQKBNR b KQkq e3 4 7");
    b.swap_color();
    assert_eq!(b.to_move, PieceColor::White);
    assert_eq!(b.board, before.board);
    assert_eq!(b.pawn_double_move, before.pawn_double_move);
    assert_eq!(b.half_move_clock, 4);
    assert_eq!(b.full_move_clock, 7);
    assert_eq!(b.white_king_location, before.white_king_location);
    assert_eq!(b.black_king_location, before.black_king_location);
    assert_eq!(b.white_total_piece_value, before.white_total_piece_value);
    assert_eq!(b.black_total_piece_value, before.black_total_piece_value);
    assert_eq!(b.to_fen(), before.to_fen());
}

#[test]
fn a_clone_is_equal_and_independent() {
    let mut first = board_from_fen("8/8/8/8/8/8/P7/8 w - - 0 1").unwrap();
    first.last_move = Some(String::from("a2a3"));
    let mut copy = first.clone();
    assert_eq!(copy.board, first.board);
    assert_eq!(copy.last_move, first.last_move);
    assert_eq!(copy.to_fen(), first.to_fen());
    copy.board[8][2] = EMPTY;
    copy.board[7][2] = WHITE | PAWN;
    copy.last_move = None;
    copy.swap_color();
    assert_eq!(first.board[8][2], WHITE | PAWN);
    assert_eq!(first.board[7][2], EMPTY);
    assert_eq!(first.last_move, Some(String::from("a2a3")));
    assert_eq!(first.to_move, PieceColor::White);
    assert_eq!(first.to_fen().unwrap(), "8/8/8/8/8/8/P7/8 w - - 0 1");
    assert_eq!(copy.to_fen().unwrap(), "8/8/8/8/8/P7/8/8 b - - 0 1");
}

#[test]
fn states_read_from_notation_are_well_formed() {
    for text in [
        "rnbqkbnr/pppppppp/8/8/8/8/PPPPPPPP/RNBQKBNR w KQkq - 0 1",
        "8/8/8/8/8/8/8/8 w KQkq - 0 1",
        "4R1B1/1kp5/1B1Q4/1P5p/1p2p1pK/8/3pP3/4N1b1 w - - 0 1",
        "K6K/8/8/8/2k5/8/8/k2K4 w - c6 17 200",
    ] {
        let b = board_from_fen(text).unwrap();
        assert!(b.has_intact_border());
        assert!(b.has_valid_position());
        assert!(b.has_agreeing_caches());
        assert!(b.is_well_formed());
    }
}

#[test]
fn a_damaged_state_is_not_well_formed() {
    let good = board_from_fen("rnbqkbnr/pppppppp/8/8/8/8/PPPPPPPP/RNBQKBNR w KQkq - 0 1").unwrap();

    let mut b = good.clone();
    b.board[0][0] = EMPTY;
    assert!(!b.has_intact_border());
    assert!(b.has_valid_position());
    assert!(!b.is_well_formed());

    let mut b = good.clone();
    b.board[11][5] = WHITE | PAWN;
    assert!(!b.has_intact_border());

    let mut b = good.clone();
    b.board[5][10] = EMPTY;
    assert!(!b.is_well_formed());

    let mut b = good.clone();
    b.board[5][5] = 255;
    assert!(b.has_intact_border());
    assert!(!b.has_valid_position());
    assert!(!b.is_well_formed());

    let mut b = good.clone();
    b.white_total_piece_value += 1;
    assert!(!b.has_agreeing_caches());
    assert!(!b.is_well_formed());

    let mut b = good.clone();
    b.black_total_piece_value = 0;
    assert!(!b.is_well_formed());

    let mut b = good.clone();
    b.white_king_location = (9, 5);
    assert!(!b.has_agreeing_caches());

    let mut b = good.clone();
    b.black_king_location = (0, 0);
    assert!(!b.is_well_formed());

    let mut b = good.clone();
    b.board[8][2] = EMPTY;
    assert!(b.has_valid_position());
    assert!(!b.has_agreeing_caches());
    b.white_total_piece_value -= 100;
    assert!(b.is_well_formed());

    let mut b = good.clone();
    b.pawn_double_move = Some((0, 0));
    assert!(!b.is_well_formed());
    b.pawn_double_move = Some((7, 6));
    assert!(b.is_well_formed());
}

#[test]
fn exactly_one_king_of_each_colour() {
    let one_each = [
        "rnbqkbnr/pppppppp/8/8/8/8/PPPPPPPP/RNBQKBNR w KQkq - 0 1",
        "4R1B1/1kp5/1B1Q4/1P5p/1p2p1pK/8/3pP3/4N1b1 w - - 0 1",
        "k7/8/8/8/8/8/8/7K b - - 0 1",
    ];
    for text in one_each {
        let b = board_from_fen(text).unwrap();
        assert!(b.has_one_king_each());
        assert_eq!(b.board[b.white_king_location.0][b.white_king_location.1], WHITE | 6);
        assert_eq!(b.board[b.black_king_location.0][b.black_king_location.1], 6);
    }
    let otherwise = [
        "8/8/8/8/8/8/8/8 w KQkq - 0 1",
        "k7/8/8/8/8/8/8/8 w - - 0 1",
        "8/8/8/8/8/8/8/7K w - - 0 1",
        "k7/8/8/8/8/8/8/K6K w - - 0 1",
        "kk6/8/8/8/8/8/8/7K w - - 0 1",
        "K6K/8/8/8/2k5/8/8/k2K4 w - - 0 1",
    ];
    for text in otherwise {
        let b = board_from_fen(text).unwrap();
        assert!(b.is_well_formed());
        assert!(!b.has_one_king_each());
    }
}
