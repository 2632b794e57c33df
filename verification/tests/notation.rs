use chess_board::fen::{contains_char, parse_en_passant, parse_rank, parse_side};
use chess_board::{
    board_from_fen, BoardState, FenError, PieceColor, BISHOP, BLACK, BOARD_END, BOARD_START,
    DEFAULT_FEN_STRING, EMPTY, KING, KNIGHT, PAWN, QUEEN, ROOK, SENTINEL, WHITE,
};

const START: &str = "rnbqkbnr/pppppppp/8/8/8/8/PPPPPPPP/RNBQKBNR w KQkq - 0 1";

fn chars(text: &str) -> Vec<char> {
    text.chars().collect()
}

fn error_of(text: &str) -> FenError {
    match board_from_fen(text) {
        Ok(_) => panic!("{:?} was read as a position", text),
        Err(error) => error,
    }
}

fn same_state(a: &BoardState, b: &BoardState) -> bool {
    a.full_move_clock == b.full_move_clock
        && a.half_move_clock == b.half_move_clock
        && a.board == b.board
        && a.to_move == b.to_move
        && a.pawn_double_move == b.pawn_double_move
        && a.white_king_location == b.white_king_location
        && a.black_king_location == b.black_king_location
        && a.white_king_side_castle == b.white_king_side_castle
        && a.white_queen_side_castle == b.white_queen_side_castle
        && a.black_king_side_castle == b.black_king_side_castle
        && a.black_queen_side_castle == b.black_queen_side_castle
        && a.black_total_piece_value == b.black_total_piece_value
        && a.white_total_piece_value == b.white_total_piece_value
        && a.last_move == b.last_move
}

#[test]
fn default_notation_is_the_starting_position() {
    assert_eq!(DEFAULT_FEN_STRING, START);
    let b = board_from_fen(DEFAULT_FEN_STRING).unwrap();
    assert_eq!(b.to_move, PieceColor::White);
    assert_eq!(b.half_move_clock, 0);
    assert_eq!(b.full_move_clock, 1);
    assert_eq!(b.pawn_double_move, None);
    assert_eq!(b.last_move, None);
    assert_eq!(
        b.board[2][2..10],
        [
            BLACK | ROOK,
            BLACK | KNIGHT,
            BLACK | BISHOP,
            BLACK | QUEEN,
            BLACK | KING,
            BLACK | BISHOP,
            BLACK | KNIGHT,
            BLACK | ROOK
        ]
    );
    assert_eq!(b.white_total_piece_value, 23_200 + 800);
    assert_eq!(b.black_total_piece_value, 24_000);
}

#[test]
fn border_holds_the_sentinel_and_the_surface_never_does() {
    for text in [
        START,
        "8/8/8/8/8/8/8/8 w KQkq - 0 1",
        "4R1B1/1kp5/1B1Q4/1P5p/1p2p1pK/8/3pP3/4N1b1 w - - 0 1",
        "RRRRRRRR/RRRRRRRR/RRRRRRRR/RRRRRRRR/RRRRRRRR/RRRRRRRR/RRRRRRRR/RRRRRRRR b - - 9 9",
    ] {
        let b = board_from_fen(text).unwrap();
        for row in 0..12 {
            for col in 0..12 {
                let inside = (BOARD_START..BOARD_END).contains(&row)
                    && (BOARD_START..BOARD_END).contains(&col);
                assert_eq!(b.board[row][col] == SENTINEL, !inside);
            }
        }
    }
}

#[test]
fn king_locations_are_the_squares_of_the_kings() {
    let b = board_from_fen("4R1B1/1kp5/1B1Q4/1P5p/1p2p1pK/8/3pP3/4N1b1 w - - 0 1").unwrap();
    assert_eq!(b.black_king_location, (3, 3));
    assert_eq!(b.white_king_location, (6, 9));
    assert_eq!(b.board[3][3], BLACK | KING);
    assert_eq!(b.board[6][9], WHITE | KING);
    let mut kings = 0;
    for row in 0..12 {
        for col in 0..12 {
            if b.board[row][col] == WHITE | KING {
                kings += 1;
                assert_eq!((row, col), b.white_king_location);
            }
        }
    }
    assert_eq!(kings, 1);
}

#[test]
fn without_a_king_the_location_stays_at_the_origin() {
    let b = board_from_fen("8/8/8/8/8/8/8/8 w KQkq - 0 1").unwrap();
    assert_eq!(b.white_king_location, (0, 0));
    assert_eq!(b.black_king_location, (0, 0));
    let b = board_from_fen("8/8/8/3k4/8/8/8/8 w - - 0 1").unwrap();
    assert_eq!(b.white_king_location, (0, 0));
    assert_eq!(b.black_king_location, (5, 5));
}

#[test]
fn of_several_kings_the_last_one_read_is_kept() {
    let b = board_from_fen("K6K/8/8/8/2k5/8/8/k2K4 w - - 0 1").unwrap();
    assert_eq!(b.white_king_location, (9, 5));
    assert_eq!(b.black_king_location, (9, 2));
}

#[test]
fn material_sums_of_a_middle_game() {
    let b = board_from_fen("4R1B1/1kp5/1B1Q4/1P5p/1p2p1pK/8/3pP3/4N1b1 w - - 0 1").unwrap();
    assert_eq!(b.white_total_piece_value, 500 + 330 + 330 + 900 + 100 + 20000 + 100 + 320);
    assert_eq!(b.black_total_piece_value, 20000 + 100 + 100 + 100 + 100 + 100 + 100 + 330);
    let b = board_from_fen("8/8/8/8/8/8/8/8 w - - 0 1").unwrap();
    assert_eq!(b.white_total_piece_value, 0);
    assert_eq!(b.black_total_piece_value, 0);
    let b = board_from_fen("KKKKKKKK/KKKKKKKK/KKKKKKKK/KKKKKKKK/KKKKKKKK/KKKKKKKK/KKKKKKKK/KKKKKKKK w - - 0 1").unwrap();
    assert_eq!(b.white_total_piece_value, 1_280_000);
    assert_eq!(b.black_total_piece_value, 0);
    assert_eq!(b.white_king_location, (9, 9));
}

#[test]
fn material_sums_are_the_sums_over_the_grid() {
    let b = board_from_fen("r1bq1rk1/pp2ppbp/2np1np1/8/3NP3/2N1BP2/PPPQ2PP/R3KB1R w KQ - 3 9").unwrap();
    let value = |square: u8| match square & 7 {
        1 => 100,
        2 => 320,
        3 => 330,
        4 => 500,
        5 => 900,
        6 => 20000,
        _ => 0,
    };
    let mut white = 0;
    let mut black = 0;
    for row in BOARD_START..BOARD_END {
        for col in BOARD_START..BOARD_END {
            let square = b.board[row][col];
            if square == EMPTY {
                continue;
            }
            if square & 0x80 != 0 {
                white += value(square);
            } else {
                black += value(square);
            }
        }
    }
    assert_eq!(b.white_total_piece_value, white);
    assert_eq!(b.black_total_piece_value, black);
    assert_eq!(white, 20000 + 900 + 2 * 500 + 2 * 330 + 2 * 320 + 7 * 100);
    assert_eq!(black, 20000 + 900 + 2 * 500 + 2 * 330 + 2 * 320 + 7 * 100);
    assert_eq!(b.half_move_clock, 3);
    assert_eq!(b.full_move_clock, 9);
}

#[test]
fn en_passant_target_behind_the_advanced_pawn() {
    let b = board_from_fen("rnbqkbnr/pppppppp/8/8/4P3/8/PPPP1PPP/RNBQKBNR b KQkq e3 0 1").unwrap();
    assert_eq!(b.pawn_double_move, Some((7, 6)));
    assert_eq!(b.board[7][6], EMPTY);
    assert_eq!(b.board[6][6], WHITE | PAWN);
    let b = board_from_fen("rnbqkbnr/pppppppp/8/8/4P3/8/PPPP1PPP/RNBQKBNR w KQkq - 0 1").unwrap();
    assert_eq!(b.pawn_double_move, None);
}

#[test]
fn wrong_field_count_is_reported() {
    for text in [
        "",
        "this isn't a fen string",
        "rnbqkbnr/pppppppp/8/8/8/8/PPPPPPPP/RNBQKBNR w KQkq - 0",
        "rnbqkbnr/pppppppp/8/8/8/8/PPPPPPPP/RNBQKBNR w KQkq - 0 1 1",
        "rnbqkbnr/pppppppp/8/8/8/8/PPPPPPPP/RNBQKBNR  w KQkq - 0 1",
        "rnbqkbnr/pppppppp/8/8/8/8/PPPPPPPP/RNBQKBNR w KQkq - 0 1 ",
        " rnbqkbnr/pppppppp/8/8/8/8/PPPPPPPP/RNBQKBNR w KQkq - 0 1",
        "rnbqkbnr/pppppppp/8/8/8/8/PPPPPPPP/RNBQKBNR\tw\tKQkq\t-\t0\t1",
    ] {
        assert_eq!(error_of(text), FenError::FieldCount);
    }
}

#[test]
fn wrong_side_to_move_is_reported() {
    for side in ["W", "B", "white", "x", "", "wb", "-"] {
        let text = format!("8/8/8/8/8/8/8/8 {} - - 0 1", side);
        assert_eq!(error_of(&text), FenError::SideToMove);
    }
}

#[test]
fn wrong_clocks_are_reported() {
    assert_eq!(error_of("8/8/8/8/8/8/8/8 w - - x 1"), FenError::HalfMoveClock);
    assert_eq!(error_of("8/8/8/8/8/8/8/8 w - - -1 1"), FenError::HalfMoveClock);
    assert_eq!(error_of("8/8/8/8/8/8/8/8 w - - 256 1"), FenError::HalfMoveClock);
    assert_eq!(error_of("8/8/8/8/8/8/8/8 w - - 0 x"), FenError::FullMoveClock);
    assert_eq!(error_of("8/8/8/8/8/8/8/8 w - - 0 256"), FenError::FullMoveClock);
    assert_eq!(error_of("8/8/8/8/8/8/8/8 w - - 0 1.5"), FenError::FullMoveClock);
    assert_eq!(error_of("8/8/8/8/8/8/8/8 w - - x y"), FenError::HalfMoveClock);
}

#[test]
fn clocks_up_to_the_counter_width_are_read() {
    let b = board_from_fen("8/8/8/8/8/8/8/8 b - - 255 255").unwrap();
    assert_eq!(b.half_move_clock, 255);
    assert_eq!(b.full_move_clock, 255);
    assert_eq!(b.to_move, PieceColor::Black);
    let b = board_from_fen("8/8/8/8/8/8/8/8 b - - +49 007").unwrap();
    assert_eq!(b.half_move_clock, 49);
    assert_eq!(b.full_move_clock, 7);
}

#[test]
fn wrong_rank_count_is_reported() {
    assert_eq!(error_of("8/8/8/8/8/8/8 w - - 0 1"), FenError::RankCount);
    assert_eq!(error_of("8/8/8/8/8/8/8/8/8 w - - 0 1"), FenError::RankCount);
    assert_eq!(error_of("8 w - - 0 1"), FenError::RankCount);
    assert_eq!(error_of(" w - - 0 1"), FenError::RankCount);
    assert_eq!(error_of("8/8/8/8/8/8/8/8/ w - - 0 1"), FenError::RankCount);
    assert_eq!(error_of("H/8/8 w - - 0 1"), FenError::RankCount);
}

#[test]
fn rank_overflow_is_reported() {
    assert_eq!(
        error_of("rnbqkbnrrrrr/pppppppp/8/8/8/8/PPPPPPPP/RNBQKBNR w KQkq - 0 1"),
        FenError::RankOverflow
    );
    assert_eq!(error_of("8/8/8/8/8/8/8/p8 w - - 0 1"), FenError::RankOverflow);
    assert_eq!(error_of("8/8/8/8/8/8/8/8p w - - 0 1"), FenError::RankOverflow);
    assert_eq!(error_of("8/8/8/8/8/8/8/81 w - - 0 1"), FenError::RankOverflow);
    assert_eq!(error_of("8/8/8/8/8/8/8/45 w - - 0 1"), FenError::RankOverflow);
    assert_eq!(error_of("pppppppp1/8/8/8/8/8/8/8 w - - 0 1"), FenError::RankOverflow);
}

#[test]
fn incomplete_rank_is_reported() {
    assert_eq!(error_of("8/8/8/8/8/8/8/7 w - - 0 1"), FenError::IncompleteRank);
    assert_eq!(error_of("8/8/8/8/8/8/8/ppp w - - 0 1"), FenError::IncompleteRank);
    assert_eq!(error_of("/8/8/8/8/8/8/8 w - - 0 1"), FenError::IncompleteRank);
    assert_eq!(error_of("8/8/8/8//8/8/8 w - - 0 1"), FenError::IncompleteRank);
    assert_eq!(error_of("8/8/8/8/3p3/8/8/8 w - - 0 1"), FenError::IncompleteRank);
}

#[test]
fn unrecognised_placement_character_is_reported() {
    assert_eq!(
        error_of("rnbqkbnH/pppppppp/8/8/8/8/PPPPPPPP/RNBQKBNR w KQkq - 0 1"),
        FenError::InvalidCharacter
    );
    assert_eq!(error_of("8/8/8/8/8/8/8/7x w - - 0 1"), FenError::InvalidCharacter);
    assert_eq!(error_of("8/8/8/8/8/8/8/7\u{265A} w - - 0 1"), FenError::InvalidCharacter);
    assert_eq!(error_of("8/8/8/8/8/8/8/9 w - - 0 1"), FenError::InvalidCharacter);
    assert_eq!(error_of("8/8/8/8/8/8/8/08 w - - 0 1"), FenError::InvalidCharacter);
    assert_eq!(error_of("8/8/8/8/8/8/8/80 w - - 0 1"), FenError::InvalidCharacter);
    assert_eq!(error_of("8/8/8/8/8/8/8/4-3 w - - 0 1"), FenError::InvalidCharacter);
}

#[test]
fn wrong_en_passant_square_is_reported() {
    for field in ["z1", "e9", "e0", "E3", "e", "3", "e33", "--", "x", "3e", "\u{e9}"] {
        let text = format!("8/8/8/8/8/8/8/8 w - {} 0 1", field);
        assert_eq!(error_of(&text), FenError::EnPassant);
    }
}

#[test]
fn the_first_error_in_reading_order_is_reported() {
    assert_eq!(error_of("9/8 x - zz y z"), FenError::SideToMove);
    assert_eq!(error_of("9/8 w - zz y z"), FenError::HalfMoveClock);
    assert_eq!(error_of("9/8 w - zz 0 z"), FenError::FullMoveClock);
    assert_eq!(error_of("9/8 w - zz 0 1"), FenError::RankCount);
    assert_eq!(error_of("8/7/x/8/8/8/8/8 w - zz 0 1"), FenError::IncompleteRank);
    assert_eq!(error_of("8/8/x/7/8/8/8/8 w - zz 0 1"), FenError::InvalidCharacter);
    assert_eq!(error_of("8/8/44x/7/8/8/8/8 w - zz 0 1"), FenError::InvalidCharacter);
    assert_eq!(error_of("8/8/45x/7/8/8/8/8 w - zz 0 1"), FenError::RankOverflow);
    assert_eq!(error_of("8/8/8/8/8/8/8/8 w - zz 0 1"), FenError::EnPassant);
}

#[test]
fn every_error_has_its_own_words() {
    let errors = [
        FenError::FieldCount,
        FenError::SideToMove,
        FenError::HalfMoveClock,
        FenError::FullMoveClock,
        FenError::RankCount,
        FenError::RankOverflow,
        FenError::InvalidCharacter,
        FenError::IncompleteRank,
        FenError::EnPassant,
    ];
    for (i, a) in errors.iter().enumerate() {
        assert!(a.message().starts_with("Could not parse fen string: "));
        for (j, b) in errors.iter().enumerate() {
            assert_eq!(a.message() == b.message(), i == j);
        }
    }
    assert_eq!(FenError::FieldCount.message(), "Could not parse fen string: Invalid fen string");
    assert_eq!(
        error_of("8/8/8/8/8/8/8/8 w - - 0").message(),
        "Could not parse fen string: Invalid fen string"
    );
    assert_eq!(
        FenError::RankCount.message(),
        "Could not parse fen string: Invalid number of rows provided, 8 expected"
    );
}

#[test]
fn one_trailing_line_ending_is_not_part_of_the_notation() {
    for ending in ["\n", "\r\n"] {
        let text = format!("{}{}", START, ending);
        let b = board_from_fen(&text).unwrap();
        assert!(same_state(&b, &board_from_fen(START).unwrap()));
        assert_eq!(b.full_move_clock, 1);
    }
    assert_eq!(error_of(&format!("{}\n\n", START)), FenError::FullMoveClock);
    assert_eq!(error_of(&format!("{}\r", START)), FenError::FullMoveClock);
    assert_eq!(error_of(&format!("\n{}", START)), FenError::InvalidCharacter);
}

#[test]
fn castling_rights_follow_the_letters_present() {
    let flags = |field: &str| {
        let b = board_from_fen(&format!("8/8/8/8/8/8/8/8 w {} - 0 1", field)).unwrap();
        (
            b.white_king_side_castle,
            b.white_queen_side_castle,
            b.black_king_side_castle,
            b.black_queen_side_castle,
        )
    };
    assert_eq!(flags("KQkq"), (true, true, true, true));
    assert_eq!(flags("-"), (false, false, false, false));
    assert_eq!(flags("K"), (true, false, false, false));
    assert_eq!(flags("Q"), (false, true, false, false));
    assert_eq!(flags("k"), (false, false, true, false));
    assert_eq!(flags("q"), (false, false, false, true));
    assert_eq!(flags("qkQK"), (true, true, true, true));
    assert_eq!(flags("xyz"), (false, false, false, false));
    assert_eq!(flags("K-q"), (true, false, false, true));
    assert_eq!(flags("KK"), (true, false, false, false));
}

#[test]
fn an_empty_castling_field_sets_no_right() {
    let b = board_from_fen("8/8/8/8/8/8/8/8 w  - 0 1").unwrap();
    assert!(!b.white_king_side_castle);
    assert!(!b.white_queen_side_castle);
    assert!(!b.black_king_side_castle);
    assert!(!b.black_queen_side_castle);
    assert_eq!(b.to_fen().unwrap(), "8/8/8/8/8/8/8/8 w - - 0 1");
    assert_eq!(board_from_fen("8/8/8/8/8/8/8/8 w  - 0").err(), Some(FenError::FieldCount));
}

#[test]
fn writing_gives_back_canonical_notations() {
    for text in [
        START,
        "8/8/8/8/8/8/8/8 w KQkq - 0 1",
        "8/8/8/8/8/8/8/8 b - - 255 255",
        "rnbqkbnr/pppppppp/8/8/4P3/8/PPPP1PPP/RNBQKBNR b KQkq e3 0 1",
        "rnbqkbnr/ppppppp1/8/7p/8/8/PPPPPPPP/RNBQKBNR w KQkq h6 0 2",
        "4R1B1/1kp5/1B1Q4/1P5p/1p2p1pK/8/3pP3/4N1b1 w - - 0 1",
        "6rk/1b4np/5pp1/1p6/8/1P3NP1/1B3P1P/5RK1 w Kq - 12 34",
        "r1bq1rk1/pp2ppbp/2np1np1/8/3NP3/2N1BP2/PPPQ2PP/R3KB1R w KQ - 3 9",
        "p7/1p6/2p5/3p4/4p3/5p2/6p1/7p b Qk a8 100 200",
        "1p1p1p1p/p1p1p1p1/8/8/8/8/P1P1P1P1/1P1P1P1P w q h1 9 10",
    ] {
        let b = board_from_fen(text).unwrap();
        assert_eq!(b.to_fen().unwrap(), text);
    }
}

#[test]
fn writing_normalises_what_was_read() {
    for (given, canonical) in [
        ("44/1111p3/8/8/8/8/8/53 w - - 0 1", "8/4p3/8/8/8/8/8/8 w - - 0 1"),
        ("8/8/8/8/8/8/8/8 w qkQK - +5 007", "8/8/8/8/8/8/8/8 w KQkq - 5 7"),
        ("8/8/8/8/8/8/8/8 b xKx - 0 1\r\n", "8/8/8/8/8/8/8/8 b K - 0 1"),
        ("8/8/8/8/8/8/8/8 b xyz a1 0 1\n", "8/8/8/8/8/8/8/8 b - a1 0 1"),
    ] {
        let b = board_from_fen(given).unwrap();
        let written = b.to_fen().unwrap();
        assert_eq!(written, canonical);
        let again = board_from_fen(&written).unwrap();
        assert!(same_state(&b, &again));
        assert_eq!(again.to_fen().unwrap(), canonical);
    }
}

#[test]
fn reading_what_was_written_gives_the_same_state() {
    for text in [
        START,
        "4R1B1/1kp5/1B1Q4/1P5p/1p2p1pK/8/3pP3/4N1b1 w - - 0 1",
        "K6K/8/8/8/2k5/8/8/k2K4 w - c6 17 200",
        "17/71/8/8/8/8/8/8 b Kk - 3 4",
    ] {
        let b = board_from_fen(text).unwrap();
        let again = board_from_fen(&b.to_fen().unwrap()).unwrap();
        assert!(same_state(&b, &again));
    }
}

#[test]
fn a_state_without_a_valid_position_has_no_notation() {
    let good = board_from_fen(START).unwrap();
    assert!(good.has_valid_position());

    let mut b = good.clone();
    b.board[5][5] = SENTINEL;
    assert!(!b.has_valid_position());
    assert_eq!(b.to_fen(), None);

    let mut b = good.clone();
    b.board[2][2] = 7;
    assert_eq!(b.to_fen(), None);

    let mut b = good.clone();
    b.board[9][9] = 0b01000100;
    assert_eq!(b.to_fen(), None);

    let mut b = good.clone();
    b.pawn_double_move = Some((1, 5));
    assert!(!b.has_valid_position());
    assert_eq!(b.to_fen(), None);

    let mut b = good.clone();
    b.pawn_double_move = Some((5, 10));
    assert_eq!(b.to_fen(), None);

    let mut b = good.clone();
    b.board[0][0] = EMPTY;
    b.white_total_piece_value = -1;
    b.last_move = Some(String::from("e2e4"));
    assert_eq!(b.to_fen().unwrap(), START);
}

#[test]
fn ranks_are_read_from_left_to_right() {
    assert_eq!(parse_rank(&chars("8")), Ok(vec![EMPTY; 8]));
    assert_eq!(
        parse_rank(&chars("1B1Q4")),
        Ok(vec![EMPTY, WHITE | BISHOP, EMPTY, WHITE | QUEEN, EMPTY, EMPTY, EMPTY, EMPTY])
    );
    assert_eq!(
        parse_rank(&chars("rnbqkbnr")),
        Ok(vec![
            BLACK | ROOK,
            BLACK | KNIGHT,
            BLACK | BISHOP,
            BLACK | QUEEN,
            BLACK | KING,
            BLACK | BISHOP,
            BLACK | KNIGHT,
            BLACK | ROOK
        ])
    );
    assert_eq!(parse_rank(&chars("")), Err(FenError::IncompleteRank));
    assert_eq!(parse_rank(&chars("7")), Err(FenError::IncompleteRank));
    assert_eq!(parse_rank(&chars("72")), Err(FenError::RankOverflow));
    assert_eq!(parse_rank(&chars("ppppppppp")), Err(FenError::RankOverflow));
    assert_eq!(parse_rank(&chars("7H")), Err(FenError::InvalidCharacter));
    assert_eq!(parse_rank(&chars("8H")), Err(FenError::InvalidCharacter));
    assert_eq!(parse_rank(&chars("H9")), Err(FenError::InvalidCharacter));
}

#[test]
fn fields_are_read_on_their_own() {
    assert_eq!(parse_side(&chars("w")), Some(PieceColor::White));
    assert_eq!(parse_side(&chars("b")), Some(PieceColor::Black));
    assert_eq!(parse_side(&chars("ww")), None);
    assert_eq!(parse_side(&chars("")), None);
    assert_eq!(parse_en_passant(&chars("-")), Ok(None));
    assert_eq!(parse_en_passant(&chars("e3")), Ok(Some((7, 6))));
    assert_eq!(parse_en_passant(&chars("e")), Err(FenError::EnPassant));
    assert_eq!(parse_en_passant(&chars("")), Err(FenError::EnPassant));
    assert!(contains_char(&chars("KQkq"), 'k'));
    assert!(!contains_char(&chars("KQq"), 'k'));
    assert!(!contains_char(&chars(""), 'k'));
}

#[test]
fn knights_stand_where_the_notation_puts_them() {
    let b = board_from_fen("8/8/8/8/8/8/8/1N4n1 w - - 0 1").unwrap();
    assert_eq!(b.board[9][3], WHITE | KNIGHT);
    assert_eq!(b.board[9][8], BLACK | KNIGHT);
    assert_eq!(b.white_total_piece_value, 320);
    assert_eq!(b.black_total_piece_value, 320);
}
