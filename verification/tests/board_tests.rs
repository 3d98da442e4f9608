use std::collections::HashSet;
use chess::board::{Board, BoardCoord, Color, PieceType, Tile};
use chess::moves::{get_move_list_ignore_check, MoveList};
use chess::rules::BoardSide;


/// STRING BOARDS

#[test]
fn test_from_string_vec() {
    let board = vec![
        ".. .. .. .. .. .. .. ..",
        ".. .. .. .. .. .. .. ..",
        ".. .. .. .. .. .. .. ..",
        ".. .. .. .. .. .. .. ..",
        ".. .. .. WP .. .. .. ..",
        ".. .. .. .. .. .. .. ..",
        ".. .. .. .. .. .. .. ..",
        ".. .. .. .. .. .. .. ..",
    ];
    let board = Board::from_string_vec(board);
    let mut expected = Board::blank();
    expected.set(
        BoardCoord(3, 3),
        Tile::new(Color::White, PieceType::Pawn { just_lunged: false }),
    );
    println!("real\n{}\nexpected\n{}", board.to_text(), expected.to_text());
    assert_eq!(board, expected);
}

#[test]
fn test_from_string_vec_small() {
    let board = vec![
        ".. .. .. WP",
        ".. .. .. ..",
        ".. .. .. ..",
        ".. .. .. ..",
    ];
    let board = Board::from_string_vec(board);
    let mut expected = Board::blank();
    expected.set(
        BoardCoord(3, 3),
        Tile::new(Color::White, PieceType::Pawn { just_lunged: false }),
    );
    println!("real\n{}\nexpected\n{}", board.to_text(), expected.to_text());
    assert_eq!(board, expected);
}

#[test]
fn test_from_string_vec_smallest() {
    let board = vec!["WP"];
    let board = Board::from_string_vec(board);
    let mut expected = Board::blank();
    expected.set(
        BoardCoord(0, 0),
        Tile::new(Color::White, PieceType::Pawn { just_lunged: false }),
    );
    println!("real\n{}\nexpected\n{}", board.to_text(), expected.to_text());
    assert_eq!(board, expected);
}

// MOVEMENT

#[test]
fn test_pawn_move() {
    let board = vec![
        ".. .. ..",
        ".. .. ..",
        ".. WP ..",
        ".. .. ..",
    ];
    let expected = vec![
        ".. ## ..",
        ".. ## ..",
        ".. WP ..",
        ".. .. ..",
    ];
    assert_valid_movement(board, (1, 1), expected);
}

#[test]
fn test_pawn_move_black() {
    let board = vec![
        ".. .. ..",
        ".. BP ..",
        ".. .. ..",
        ".. .. ..",
    ];
    let expected = vec![
        ".. .. ..",
        ".. BP ..",
        ".. ## ..",
        ".. ## ..",
    ];
    assert_valid_movement(board, (1, 2), expected);
}

#[test]
fn test_pawn_single_move() {
    let board = vec![
        ".. .. ..",
        ".. .. ..",
        ".. WP ..",
        ".. .. ..",
    ];
    let mut board = Board::from_string_vec(board);
    board.get_mut(BoardCoord(1, 1)).set_moved(true);
    let expected = vec![
        ".. .. ..",
        ".. ## ..",
        ".. WP ..",
        ".. .. ..",
    ];
    assert_valid_movement_board(board, (1, 1), expected);
}

#[test]
fn test_pawn_capture() {
    let board = vec![
        ".. .. ..",
        "BN BP BQ",
        ".. WP ..",
        ".. .. ..",
    ];
    let expected = vec![
        ".. .. ..",
        "## .. ##",
        ".. WP ..",
        ".. .. ..",
    ];
    assert_valid_movement(board, (1, 1), expected);
}

#[test]
fn test_pawn_cant_move() {
    let board = vec![
        ".. .. ..",
        "WN BK WQ",
        ".. WP ..",
        ".. .. ..",
    ];
    let expected = vec![
        ".. .. ..",
        ".. .. ..",
        ".. WP ..",
        ".. .. ..",
    ];
    assert_valid_movement(board, (1, 1), expected);
}

#[test]
fn test_king() {
    let board = vec![
        ".. .. ..",
        ".. WK ..",
        ".. .. ..",
    ];
    let expected = vec![
        "## ## ##",
        "## WK ##",
        "## ## ##",
    ];
    assert_valid_movement(board, (1, 1), expected);
}

#[test]
fn test_king_capture() {
    let board = vec![
        "WP BP BP",
        "BP WK WP",
        "WP WP BP",
    ];
    let expected = vec![
        "WP ## ##",
        "## WK WP",
        "WP WP ##",
    ];
    assert_valid_movement(board, (1, 1), expected);
}

#[test]
fn test_king_capture_black() {
    let board = vec![
        "WP BP BP",
        "BP BK WP",
        "WP WP BP",
    ];
    let expected = vec![
        "## BP BP",
        "BP WK ##",
        "## ## BP",
    ];
    assert_valid_movement(board, (1, 1), expected);
}
#[test]
fn test_knight() {
    let board = vec![
        ".. .. .. BP ..",
        ".. .. .. .. BP",
        ".. .. WN .. ..",
        "BP .. .. .. ..",
        ".. BP .. .. ..",
    ];
    let expected = vec![
        ".. ## .. ## ..",
        "## .. .. .. ##",
        ".. .. WN .. ..",
        "## .. .. .. ##",
        ".. ## .. ## ..",
    ];
    assert_valid_movement(board, (2, 2), expected);
}

#[test]
fn test_knight_jump() {
    let board = vec![
        "WP WP WP .. WP",
        "WP WP WP WP ..",
        "WP WP WN WP WP",
        "BP WP WP WP WP",
        "WP BP WP WP WP",
    ];
    let expected = vec![
        ".. .. .. ## ..",
        ".. .. .. .. ##",
        ".. .. WN .. ..",
        "## .. .. .. ..",
        ".. ## .. .. ..",
    ];
    assert_valid_movement(board, (2, 2), expected);
}

#[test]
fn test_rook_los() {
    let board = vec![
        ".. .. .. .. .. .. .. ..",
        ".. .. .. .. .. .. .. ..",
        ".. .. .. .. .. .. .. ..",
        ".. .. .. .. .. .. .. ..",
        ".. .. .. WR .. .. .. ..",
        ".. .. .. .. .. .. .. ..",
        ".. .. .. .. .. .. .. ..",
        ".. .. .. .. .. .. .. ..",
    ];
    let expected = vec![
        ".. .. .. ## .. .. .. ..",
        ".. .. .. ## .. .. .. ..",
        ".. .. .. ## .. .. .. ..",
        ".. .. .. ## .. .. .. ..",
        "## ## ## WR ## ## ## ##",
        ".. .. .. ## .. .. .. ..",
        ".. .. .. ## .. .. .. ..",
        ".. .. .. ## .. .. .. ..",
    ];
    assert_valid_movement(board, (3, 3), expected);
}

#[test]
fn test_rook_los_blocked() {
    let board = vec![
        ".. .. .. .. .. .. .. ..",
        ".. .. .. .. .. .. .. ..",
        ".. .. .. WP .. .. .. ..",
        ".. .. .. .. .. .. .. ..",
        ".. BP .. WR BP .. .. ..",
        ".. .. .. .. .. .. .. ..",
        ".. .. .. .. .. .. .. ..",
        ".. .. .. WP .. .. .. ..",
    ];
    let expected = vec![
        ".. .. .. .. .. .. .. ..",
        ".. .. .. .. .. .. .. ..",
        ".. .. .. .. .. .. .. ..",
        ".. .. .. ## .. .. .. ..",
        ".. ## ## WR ## .. .. ..",
        ".. .. .. ## .. .. .. ..",
        ".. .. .. ## .. .. .. ..",
        ".. .. .. .. .. .. .. ..",
    ];
    assert_valid_movement(board, (3, 3), expected);
}

// CASTLING TESTS

const WHITE_QUEENSIDE_ROOK: BoardCoord = BoardCoord(0, 0);

#[test]
fn test_castle_simple() {
    let board = vec![
        "BR .. .. .. BK .. .. BR",
        ".. .. .. .. .. .. .. ..",
        ".. .. .. .. .. .. .. ..",
        ".. .. .. .. .. .. .. ..",
        ".. .. .. .. .. .. .. ..",
        ".. .. .. .. .. .. .. ..",
        ".. .. .. .. .. .. .. ..",
        "WR .. .. .. WK .. .. WR",
    ];
    let board = Board::from_string_vec(board);
    assert!(board.can_castle(Color::White, BoardSide::Queenside).is_ok());
    assert!(board.can_castle(Color::White, BoardSide::Kingside).is_ok());
    assert!(board.can_castle(Color::Black, BoardSide::Queenside).is_ok());
    assert!(board.can_castle(Color::Black, BoardSide::Kingside).is_ok());
}

#[test]
fn test_castle_blocked() {
    let board = vec![
        "BR .. BP .. BK .. BP BR",
        ".. .. .. .. .. .. .. ..",
        ".. .. .. .. .. .. .. ..",
        ".. .. .. .. .. .. .. ..",
        ".. .. .. .. .. .. .. ..",
        ".. .. .. .. .. .. .. ..",
        ".. .. .. .. .. .. .. ..",
        "WR WP .. .. WK .. WP WR",
    ];
    let board = Board::from_string_vec(board);
    assert!(board
        .can_castle(Color::White, BoardSide::Queenside)
        .is_err());
    assert!(board.can_castle(Color::White, BoardSide::Kingside).is_err());
    assert!(board
        .can_castle(Color::Black, BoardSide::Queenside)
        .is_err());
    assert!(board.can_castle(Color::Black, BoardSide::Kingside).is_err());
}

#[test]
fn test_castle_check() {
    let board = vec![
        "BR .. .. .. BK .. .. BR",
        ".. .. .. .. .. .. .. ..",
        ".. .. .. .. .. .. .. ..",
        ".. .. .. .. WR .. .. ..",
        ".. .. .. .. .. .. .. ..",
        ".. .. .. .. BR .. .. ..",
        ".. .. .. .. .. .. .. ..",
        "WR .. .. .. WK .. .. WR",
    ];
    let board = Board::from_string_vec(board);
    assert!(board
        .can_castle(Color::White, BoardSide::Queenside)
        .is_err());
    assert!(board.can_castle(Color::White, BoardSide::Kingside).is_err());
    assert!(board
        .can_castle(Color::Black, BoardSide::Queenside)
        .is_err());
    assert!(board.can_castle(Color::Black, BoardSide::Kingside).is_err());
}

#[test]
fn test_castle_threaten() {
    let board = vec![
        "BR .. .. .. BK .. .. BR",
        ".. .. .. .. .. .. .. ..",
        ".. .. WR .. .. .. .. WN",
        ".. .. .. .. .. .. .. ..",
        ".. .. .. .. .. .. .. ..",
        ".. .. .. .. .. .. .. ..",
        ".. .. BP .. .. .. .. BN",
        "WR .. .. .. WK .. .. WR",
    ];
    let board = Board::from_string_vec(board);
    assert!(board
        .can_castle(Color::White, BoardSide::Queenside)
        .is_err());
    assert!(board.can_castle(Color::White, BoardSide::Kingside).is_err());
    assert!(board
        .can_castle(Color::Black, BoardSide::Queenside)
        .is_err());
    assert!(board.can_castle(Color::Black, BoardSide::Kingside).is_err());
}

#[test]
fn test_castle_threaten_ok_for_rook() {
    let board = vec![
        "BR .. .. .. BK .. .. BR",
        ".. .. .. .. .. .. .. ..",
        ".. WR .. .. .. .. .. ..",
        ".. .. .. .. .. .. .. ..",
        ".. .. .. .. .. .. .. ..",
        ".. BR .. .. .. .. .. ..",
        ".. .. .. .. .. .. .. ..",
        "WR .. .. .. WK .. .. WR",
    ];
    let board = Board::from_string_vec(board);
    assert!(board.can_castle(Color::White, BoardSide::Queenside).is_ok());
    assert!(board.can_castle(Color::Black, BoardSide::Queenside).is_ok());
}

#[test]
fn test_castle_no_move() {
    let board = vec![
        "BR .. .. .. BK .. .. BR",
        ".. .. .. .. .. .. .. ..",
        ".. .. .. .. .. .. .. ..",
        ".. .. .. .. .. .. .. ..",
        ".. .. .. .. .. .. .. ..",
        ".. .. .. .. .. .. .. ..",
        ".. .. .. .. .. .. .. ..",
        "WR .. .. .. WK .. .. WR",
    ];
    let mut board = Board::from_string_vec(board);
    board.get_mut(WHITE_QUEENSIDE_ROOK).set_moved(true);
    board.get_mut(BoardCoord(4, 7)).set_moved(true);

    assert!(board
        .can_castle(Color::White, BoardSide::Queenside)
        .is_err());
    assert!(board.can_castle(Color::White, BoardSide::Kingside).is_ok());
    assert!(board
        .can_castle(Color::Black, BoardSide::Queenside)
        .is_err());
    assert!(board.can_castle(Color::Black, BoardSide::Kingside).is_err());
}

// EN PASSANT TESTS
#[test]
fn test_en_passant() {
    let board = vec![
        ".. .. .. .. .. .. .. ..",
        ".. .. .. .. .. BP .. ..",
        ".. .. .. .. .. .. .. ..",
        ".. .. .. .. WP .. .. ..",
        ".. .. .. .. .. .. .. ..",
        ".. .. .. .. .. .. .. ..",
        ".. .. .. .. .. .. .. ..",
        ".. .. .. .. .. .. .. ..",
    ];
    let mut board = Board::from_string_vec(board);
    board.lunge(BoardCoord(5, 6));
    assert!(board
        .check_enpassant(Color::White, BoardCoord(4, 4), BoardSide::Kingside)
        .is_ok());
}

#[test]
fn test_en_passant2() {
    let board = vec![
        ".. .. .. .. .. .. .. ..",
        ".. .. .. .. .. .. .. ..",
        ".. .. .. .. .. .. .. ..",
        ".. .. .. .. .. .. .. ..",
        ".. BP .. .. .. .. .. ..",
        ".. .. .. .. .. .. .. ..",
        "WP .. .. .. .. .. .. ..",
        ".. .. .. .. .. .. .. ..",
    ];
    let mut board = Board::from_string_vec(board);
    board.lunge(BoardCoord(0, 1));
    assert!(board
        .check_enpassant(Color::Black, BoardCoord(1, 3), BoardSide::Queenside)
        .is_ok());
}

#[test]
fn test_en_passant_must_lunge() {
    let board = vec![
        ".. .. .. .. .. .. .. ..",
        ".. .. .. .. .. .. .. ..",
        ".. .. .. .. .. .. .. ..",
        ".. .. .. .. .. .. .. ..",
        ".. BP .. .. .. .. .. ..",
        ".. .. .. .. .. .. .. ..",
        "WP .. .. .. .. .. .. ..",
        ".. .. .. .. .. .. .. ..",
    ];
    let mut board = Board::from_string_vec(board);
    board.move_piece(BoardCoord(0, 1), BoardCoord(0, 2));
    board.move_piece(BoardCoord(0, 2), BoardCoord(0, 3));
    assert!(board
        .check_enpassant(Color::Black, BoardCoord(1, 3), BoardSide::Queenside)
        .is_err());
}

#[test]
fn test_en_passant_must_be_same_turn() {
    let board = vec![
        ".. .. .. .. .. .. .. ..",
        ".. .. .. .. .. .. .. ..",
        ".. .. .. .. .. .. .. ..",
        ".. .. .. .. .. .. .. ..",
        ".. BP .. .. .. .. .. ..",
        ".. .. .. .. .. .. .. ..",
        "WP .. .. .. .. .. .. ..",
        ".. .. .. .. .. .. .. ..",
    ];
    let mut board = Board::from_string_vec(board);
    board.lunge(BoardCoord(0, 1));
    // simulate going to next turn without moving anything
    board.clear_just_lunged();
    assert!(board
        .check_enpassant(Color::Black, BoardCoord(1, 3), BoardSide::Queenside)
        .is_err());
}

fn assert_valid_movement(board: Vec<&str>, coord: (i8, i8), expected: Vec<&str>) {
    let board = Board::from_string_vec(board);
    assert_valid_movement_board(board, coord, expected);
}

fn assert_valid_movement_board(board: Board, coord: (i8, i8), expected: Vec<&str>) {

    let coord = BoardCoord(coord.0, coord.1);
    let expected = to_move_list(expected);
    let mut move_list = MoveList::reserved();
    get_move_list_ignore_check(&board, coord, &mut move_list);
    println!("Board\n{:#?}", board);
    println!("Actual Move List");
    println!("{}", move_list.to_text());
    println!("Expected Move List");
    println!("{}", expected.to_text());

    let mut move_list_counts = HashSet::new();
    for ele in move_list.0 {
        move_list_counts.insert(ele);
    }

    let mut expected_counts = HashSet::new();
    for ele in expected.0 {
        expected_counts.insert(ele);
    }

    assert_eq!(move_list_counts, expected_counts);
}

/// Create list of valid moves given a string board
fn to_move_list(array: Vec<&str>) -> MoveList {
    let mut move_list = MoveList(Vec::new());
    for (y, row) in array.iter().enumerate() {
        for (x, tile) in (*row).split_whitespace().enumerate() {
            if tile.starts_with("#") {
                move_list
                    .0
                    .push(BoardCoord(x as i8, ((array.len() - 1) - y) as i8));
            };
        }
    }
    move_list
}
