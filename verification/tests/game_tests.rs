use chess::ai::{move_order_key, value, AIPlayer, MinOptPlayer, Poll, RandomPlayer, TreeSearchPlayer};
use chess::board::{Board, BoardCoord, Color, Piece, PieceType, Tile};
use chess::rules::{BoardSide, CheckmateState};
use chess::screen::{next_screen, piece_vec_str, status_text, ui_state, ScreenState, ScreenTransition, UIState};
use chess::state::{basic_actions, move_type, BasicAction, BoardState, MoveType};

fn c(x: i8, y: i8) -> BoardCoord {
    BoardCoord(x, y)
}

fn play(state: &mut BoardState, moves: &[((i8, i8), (i8, i8))]) {
    for ((sx, sy), (ex, ey)) in moves {
        let r = state.try_take_turn(c(*sx, *sy), c(*ex, *ey));
        assert_eq!(r, Ok(()), "move {:?} -> {:?}", (sx, sy), (ex, ey));
    }
}

fn white(piece: PieceType) -> Tile {
    Tile::new(Color::White, piece)
}

fn black(piece: PieceType) -> Tile {
    Tile::new(Color::Black, piece)
}

fn same_piece(t: &Tile, color: Color, piece: PieceType) -> bool {
    match t.0 {
        Some(p) => p.color == color && p.piece == piece,
        None => false,
    }
}

// THE STARTING POSITION

#[test]
fn default_board_kings_stand_on_the_e_file() {
    let board = Board::default();
    assert_eq!(board.get_king(Color::White), Some(c(4, 0)));
    assert_eq!(board.get_king(Color::Black), Some(c(4, 7)));
}

#[test]
fn default_board_text() {
    let text = Board::default().to_text();
    let mut expected = String::from("         BLACK\n");
    expected.push_str("BR BN BB BQ BK BB BN BR \n");
    expected.push_str("BP BP BP BP BP BP BP BP \n");
    for _ in 0..4 {
        expected.push_str(".. .. .. .. .. .. .. .. \n");
    }
    expected.push_str("WP WP WP WP WP WP WP WP \n");
    expected.push_str("WR WN WB WQ WK WB WN WR \n");
    expected.push_str("         WHITE\n");
    assert_eq!(text, expected);
}

#[test]
fn text_form_reads_back() {
    let rows = vec![
        "BR BN BB BQ BK BB BN BR",
        "BP BP BP BP BP BP BP BP",
        ".. .. .. .. .. .. .. ..",
        ".. .. .. .. .. .. .. ..",
        ".. .. .. .. .. .. .. ..",
        ".. .. .. .. .. .. .. ..",
        "WP WP WP WP WP WP WP WP",
        "WR WN WB WQ WK WB WN WR",
    ];
    let board = Board::from_string_vec(rows);
    assert_eq!(board, Board::default());
}

#[test]
fn new_game_is_white_to_move() {
    let state = BoardState::new(Board::default());
    assert_eq!(state.current_player, Color::White);
    assert_eq!(state.checkmate, CheckmateState::Normal);
    assert!(!state.game_over());
    assert_eq!(state.need_promote(), None);
    assert_eq!(ui_state(&state), UIState::Normal);
    assert_eq!(status_text(&state), "White to move.");
    assert!(state.dead_black.is_empty() && state.dead_white.is_empty());
}

#[test]
fn twenty_opening_moves() {
    let board = Board::default();
    assert_eq!(board.get_all_moves(Color::White).len(), 20);
    assert_eq!(board.get_all_moves(Color::Black).len(), 20);
    assert!(board.has_legal_moves(Color::White));
    assert!(!board.is_in_check(Color::White));
}

#[test]
fn knight_moves_from_the_start() {
    let state = BoardState::new(Board::default());
    let mut moves = state.get_move_list(c(1, 0));
    moves.sort_by_key(|m| (m.0, m.1));
    assert_eq!(moves, vec![c(0, 2), c(2, 2)]);
}

// EVERY LISTED MOVE IS ACCEPTED AND KEEPS THE KING SAFE

#[test]
fn listed_moves_are_accepted_and_keep_the_king_safe() {
    let mut state = BoardState::new(Board::default());
    play(&mut state, &[((4, 1), (4, 3)), ((3, 6), (3, 4)), ((5, 0), (1, 4))]);
    // Black is in check from the bishop on b5.
    assert_eq!(state.checkmate, CheckmateState::Check);
    assert_eq!(status_text(&state), "Black is in check!");
    let moves = state.board.get_all_moves(Color::Black);
    assert!(!moves.is_empty());
    for (start, end) in moves {
        assert_eq!(state.check_turn(start, end), Ok(()));
        let mut next = state.clone();
        next.take_turn(start, end);
        let king = next.board.get_king(Color::Black).unwrap();
        assert!(next.board.is_square_safe(Color::Black, &king));
    }
}

// TURNS

#[test]
fn a_turn_moves_the_piece_and_passes_the_move() {
    let mut state = BoardState::new(Board::default());
    assert_eq!(state.try_take_turn(c(4, 1), c(4, 3)), Ok(()));
    assert_eq!(state.current_player, Color::Black);
    assert!(same_piece(state.get(c(4, 3)), Color::White, PieceType::Pawn { just_lunged: true }));
    assert_eq!(state.get(c(4, 1)).0, None);
}

#[test]
fn refused_turns_leave_the_state_alone() {
    let mut state = BoardState::new(Board::default());
    let before = state.clone();
    assert_eq!(state.try_take_turn(c(4, 1), c(4, 4)), Err("Can't move a piece there"));
    assert_eq!(state.try_take_turn(c(4, 6), c(4, 4)), Err("Can't move a piece that isn't yours"));
    assert_eq!(state.try_take_turn(c(4, 4), c(4, 5)), Err("Can't move an empty tile"));
    assert_eq!(state.board, before.board);
    assert_eq!(state.current_player, Color::White);
}

#[test]
fn check_turn_answers_without_moving() {
    let state = BoardState::new(Board::default());
    assert_eq!(state.check_turn(c(6, 0), c(5, 2)), Ok(()));
    assert_eq!(state.check_turn(c(6, 0), c(6, 2)), Err("Can't move a piece there"));
    assert_eq!(state.board, Board::default());
}

#[test]
fn fools_mate() {
    let mut state = BoardState::new(Board::default());
    play(&mut state, &[((5, 1), (5, 2)), ((4, 6), (4, 4)), ((6, 1), (6, 3)), ((3, 7), (7, 3))]);
    assert_eq!(state.current_player, Color::White);
    assert_eq!(state.checkmate, CheckmateState::Checkmate);
    assert!(state.game_over());
    assert_eq!(ui_state(&state), UIState::GameOver);
    assert_eq!(status_text(&state), "The game has ended!\nWhite is in checkmate!");
    assert!(state.board.get_all_moves(Color::White).is_empty());
}

#[test]
fn castling_moves_king_and_rook() {
    let board = Board::from_string_vec(vec![
        "BR .. .. .. BK .. .. BR",
        "BP BP BP BP BP BP BP BP",
        ".. .. .. .. .. .. .. ..",
        ".. .. .. .. .. .. .. ..",
        ".. .. .. .. .. .. .. ..",
        ".. .. .. .. .. .. .. ..",
        "WP WP WP WP WP WP WP WP",
        "WR .. .. .. WK .. .. WR",
    ]);
    assert_eq!(board.can_castle(Color::White, BoardSide::Kingside), Ok(()));
    assert_eq!(board.castle_locations(Color::White), vec![c(2, 0), c(6, 0)]);
    assert_eq!(move_type(&board, c(4, 0), c(6, 0)), MoveType::Castle(Color::White, BoardSide::Kingside));
    let actions = basic_actions(&board, c(4, 0), c(6, 0));
    assert_eq!(actions.len(), 2);
    assert!(matches!(actions[0], BasicAction::Move { start: BoardCoord(4, 0), end: BoardCoord(6, 0) }));
    assert!(matches!(actions[1], BasicAction::Move { start: BoardCoord(7, 0), end: BoardCoord(5, 0) }));

    let mut state = BoardState::new(board);
    assert_eq!(state.try_take_turn(c(4, 0), c(6, 0)), Ok(()));
    assert!(same_piece(state.get(c(6, 0)), Color::White, PieceType::King));
    assert!(same_piece(state.get(c(5, 0)), Color::White, PieceType::Rook));
    assert_eq!(state.get(c(7, 0)).0, None);
    assert_eq!(state.get(c(4, 0)).0, None);
    // Black castles queenside.
    assert_eq!(state.try_take_turn(c(4, 7), c(2, 7)), Ok(()));
    assert!(same_piece(state.get(c(2, 7)), Color::Black, PieceType::King));
    assert!(same_piece(state.get(c(3, 7)), Color::Black, PieceType::Rook));
    // Neither king may castle again.
    assert!(state.board.can_castle(Color::White, BoardSide::Queenside).is_err());
}

#[test]
fn en_passant_captures_the_pawn_beside() {
    let mut state = BoardState::new(Board::default());
    play(&mut state, &[((4, 1), (4, 3)), ((0, 6), (0, 5)), ((4, 3), (4, 4)), ((3, 6), (3, 4))]);
    assert_eq!(state.board.check_enpassant(Color::White, c(4, 4), BoardSide::Queenside), Ok(()));
    assert_eq!(state.board.enpassant_locations(Color::White, c(4, 4)), vec![c(3, 5)]);
    let actions = basic_actions(&state.board, c(4, 4), c(3, 5));
    assert!(matches!(actions[0], BasicAction::Remove { coord: BoardCoord(3, 4) }));
    assert_eq!(state.try_take_turn(c(4, 4), c(3, 5)), Ok(()));
    assert_eq!(state.get(c(3, 4)).0, None);
    assert!(same_piece(state.get(c(3, 5)), Color::White, PieceType::Pawn { just_lunged: false }));
    assert_eq!(state.dead_black.len(), 1);
    assert!(matches!(state.dead_black[0].piece, PieceType::Pawn { .. }));
    assert_eq!(piece_vec_str(&state.dead_black), "♟");
}

#[test]
fn en_passant_expires_after_one_turn() {
    let mut state = BoardState::new(Board::default());
    play(&mut state, &[
        ((4, 1), (4, 3)),
        ((0, 6), (0, 5)),
        ((4, 3), (4, 4)),
        ((3, 6), (3, 4)),
        ((7, 1), (7, 2)),
        ((0, 5), (0, 4)),
    ]);
    assert!(state.board.check_enpassant(Color::White, c(4, 4), BoardSide::Queenside).is_err());
    assert!(state.try_take_turn(c(4, 4), c(3, 5)).is_err());
}

#[test]
fn captures_join_the_dead() {
    let mut state = BoardState::new(Board::default());
    play(&mut state, &[((4, 1), (4, 3)), ((3, 6), (3, 4)), ((4, 3), (3, 4)), ((3, 7), (3, 4))]);
    assert_eq!(state.dead_black.len(), 1);
    assert_eq!(state.dead_white.len(), 1);
    assert_eq!(state.dead_white[0].color, Color::White);
    assert_eq!(piece_vec_str(&state.dead_white), "♟");
}

#[test]
fn piece_list_breaks_after_eight() {
    let pawn = Piece { color: Color::Black, piece: PieceType::Pawn { just_lunged: false }, has_moved: true };
    let rook = Piece { color: Color::Black, piece: PieceType::Rook, has_moved: true };
    let mut pieces = vec![pawn; 8];
    pieces.push(rook);
    assert_eq!(piece_vec_str(&pieces), "♟♟♟♟♟♟♟♟\n♜");
    assert_eq!(piece_vec_str(&vec![]), "");
}

// PROMOTION

fn promotion_state() -> BoardState {
    let board = Board::from_string_vec(vec![
        ".. .. .. .. BK .. .. ..",
        "WP .. .. .. .. .. .. ..",
        ".. .. .. .. .. .. .. ..",
        ".. .. .. .. .. .. .. ..",
        ".. .. .. .. .. .. .. ..",
        ".. .. .. .. .. .. .. ..",
        ".. .. .. .. .. .. .. ..",
        ".. .. .. .. WK .. .. ..",
    ]);
    let mut state = BoardState::new(board);
    assert_eq!(state.try_take_turn(c(0, 6), c(0, 7)), Ok(()));
    state
}

#[test]
fn promotion_waits_for_a_piece() {
    let mut state = promotion_state();
    assert_eq!(state.need_promote(), Some(c(0, 7)));
    assert_eq!(state.current_player, Color::White);
    assert_eq!(ui_state(&state), UIState::Promote(c(0, 7)));
    assert_eq!(state.try_take_turn(c(4, 0), c(4, 1)), Err("A pawn needs to be promoted"));
    assert!(state.get_move_list(c(4, 0)).is_empty());
}

#[test]
fn promotion_errors() {
    let mut state = promotion_state();
    assert_eq!(state.check_promote(c(0, 7), PieceType::King), Err("Can not promote to a king"));
    assert_eq!(
        state.try_promote(c(0, 7), PieceType::Pawn { just_lunged: false }),
        Err("Can not promote to a pawn")
    );
    assert_eq!(
        state.try_promote(c(1, 7), PieceType::Queen),
        Err("Can only promote a pawn of opposite color at this position.")
    );
    assert_eq!(
        state.try_promote(c(0, 5), PieceType::Queen),
        Err("Can only promote a pawn at the last rank of the board")
    );
    assert_eq!(state.need_promote(), Some(c(0, 7)));
    let fresh = BoardState::new(Board::default());
    assert_eq!(
        fresh.check_promote(c(0, 7), PieceType::Queen),
        Err("No pawn needs to be promoted at this time")
    );
}

#[test]
fn promotion_to_a_queen_gives_check() {
    let mut state = promotion_state();
    assert_eq!(state.try_promote(c(0, 7), PieceType::Queen), Ok(()));
    assert!(same_piece(state.get(c(0, 7)), Color::White, PieceType::Queen));
    assert_eq!(state.current_player, Color::Black);
    assert_eq!(state.checkmate, CheckmateState::Check);
    assert_eq!(status_text(&state), "Black is in check!");
    assert_eq!(ui_state(&state), UIState::Normal);
}

// ENDS OF THE GAME

#[test]
fn kings_alone_is_insufficient_material() {
    let board = Board::from_string_vec(vec![
        ".. .. .. .. BK .. .. ..",
        ".. .. .. .. .. .. .. ..",
        ".. .. .. .. .. .. .. ..",
        ".. .. .. .. .. .. .. ..",
        ".. .. .. .. .. .. .. ..",
        ".. .. .. .. .. .. .. ..",
        ".. .. .. .. .. .. .. ..",
        ".. .. .. .. WK .. .. ..",
    ]);
    assert!(board.insuffient_material());
    let state = BoardState::new(board);
    assert_eq!(state.checkmate, CheckmateState::InsuffientMaterial);
    assert!(state.game_over());
    assert_eq!(status_text(&state), "The game has ended!\nInsuffient material!");
}

#[test]
fn one_minor_piece_is_insufficient_but_a_rook_is_not() {
    let knight = Board::from_string_vec(vec![
        ".. .. .. .. BK .. .. ..",
        ".. .. .. .. .. .. .. ..",
        ".. .. .. .. .. .. .. ..",
        ".. .. .. .. .. .. .. ..",
        ".. .. .. .. .. .. .. ..",
        ".. .. .. .. .. .. .. ..",
        ".. .. .. .. .. .. .. ..",
        ".. WN .. .. WK .. .. ..",
    ]);
    assert!(knight.insuffient_material());
    let rook = Board::from_string_vec(vec![
        ".. .. .. .. BK .. .. ..",
        ".. .. .. .. .. .. .. ..",
        ".. .. .. .. .. .. .. ..",
        ".. .. .. .. .. .. .. ..",
        ".. .. .. .. .. .. .. ..",
        ".. .. .. .. .. .. .. ..",
        ".. .. .. .. .. .. .. ..",
        "WR .. .. .. WK .. .. ..",
    ]);
    assert!(!rook.insuffient_material());
}

#[test]
fn stalemate_when_no_move_and_no_check() {
    let board = Board::from_string_vec(vec![
        ".. .. .. .. .. .. .. BK",
        ".. .. .. .. .. WK .. ..",
        ".. .. .. .. .. .. WQ ..",
        ".. .. .. .. .. .. .. ..",
        ".. .. .. .. .. .. .. ..",
        ".. .. .. .. .. .. .. ..",
        ".. .. .. .. .. .. .. ..",
        ".. .. .. .. .. .. .. ..",
    ]);
    assert_eq!(board.checkmate_state(Color::Black), CheckmateState::Stalemate);
    assert!(!board.is_in_check(Color::Black));
    let mut state = BoardState::new(board);
    state.current_player = Color::Black;
    state.checkmate = board.checkmate_state(Color::Black);
    assert!(state.game_over());
    assert_eq!(status_text(&state), "The game has ended!\nStalemate!");
}

#[test]
fn square_safety() {
    let board = Board::from_string_vec(vec![
        ".. .. .. .. BK .. .. ..",
        ".. .. .. .. .. .. .. ..",
        ".. .. .. .. .. .. .. ..",
        ".. .. .. BR .. .. .. ..",
        ".. .. .. .. .. .. .. ..",
        ".. .. .. .. .. .. .. ..",
        ".. .. .. .. .. .. .. ..",
        ".. .. .. .. WK .. .. ..",
    ]);
    assert!(!board.is_square_safe(Color::White, &c(3, 0)));
    assert!(board.is_square_safe(Color::White, &c(4, 0)));
    assert!(!board.is_square_safe(Color::White, &c(0, 4)));
    // The king may not step onto the rook's file.
    let state = BoardState::new(board);
    let mut moves = state.get_move_list(c(4, 0));
    moves.sort_by_key(|m| (m.0, m.1));
    assert_eq!(moves, vec![c(4, 1), c(5, 0), c(5, 1)]);
}

#[test]
fn coordinates_off_the_board_are_refused() {
    assert_eq!(BoardCoord::new((3, 4)), Ok(BoardCoord(3, 4)));
    assert_eq!(BoardCoord::new((8, 0)), Err("Expected coordinates to be in range 0-7"));
    assert_eq!(BoardCoord::new((0, -1)), Err("Expected coordinates to be in range 0-7"));
}

// COMPUTER PLAYERS

#[test]
fn random_player_plays_a_listed_move() {
    let state = BoardState::new(Board::default());
    let moves = state.board.get_all_moves(Color::White);
    let mut player = RandomPlayer {};
    for _ in 0..20 {
        match player.next_move(&state, Color::White) {
            Poll::Ready(m) => assert!(moves.contains(&m)),
            Poll::Pending => panic!("the random player answers at once"),
        }
        match player.next_promote(&state) {
            Poll::Ready(p) => assert!(matches!(
                p,
                PieceType::Knight | PieceType::Bishop | PieceType::Rook | PieceType::Queen
            )),
            Poll::Pending => panic!("the random player answers at once"),
        }
    }
}

#[test]
fn min_opt_player_leaves_the_fewest_replies() {
    let mut state = BoardState::new(Board::default());
    play(&mut state, &[((4, 1), (4, 3)), ((4, 6), (4, 4))]);
    let moves = state.board.get_all_moves(Color::White);
    let replies = |m: &(BoardCoord, BoardCoord)| {
        let mut next = state.clone();
        next.take_turn(m.0, m.1);
        next.board.get_all_moves(Color::Black).len()
    };
    let fewest = moves.iter().map(|m| replies(m)).min().unwrap();
    let mut player = MinOptPlayer {};
    match player.next_move(&state, Color::White) {
        Poll::Ready(m) => {
            assert!(moves.contains(&m));
            assert_eq!(replies(&m), fewest);
        }
        Poll::Pending => panic!("the player answers at once"),
    }
    assert_eq!(player.next_promote(&state), Poll::Ready(PieceType::Queen));
}

fn back_rank_mate() -> BoardState {
    let board = Board::from_string_vec(vec![
        ".. .. .. .. .. .. BK ..",
        ".. .. .. .. .. BP BP BP",
        ".. .. .. .. .. .. .. ..",
        ".. .. .. .. .. .. .. ..",
        ".. .. .. .. .. .. .. ..",
        ".. .. .. .. .. .. .. ..",
        ".. .. .. .. .. .. .. ..",
        "WR .. .. .. .. .. WK ..",
    ]);
    BoardState::new(board)
}

#[test]
fn tree_search_finds_mate_in_one() {
    let state = back_rank_mate();
    let mut player = TreeSearchPlayer::new(1);
    let (score, m) = player.think(&state, Color::White);
    assert_eq!(m, (c(0, 0), c(0, 7)));
    assert_eq!(score, 999_999_998);
    let mut after = state.clone();
    after.take_turn(m.0, m.1);
    assert_eq!(after.checkmate, CheckmateState::Checkmate);
}

#[test]
fn deeper_tree_search_still_mates() {
    let state = back_rank_mate();
    let mut player = TreeSearchPlayer::new(2);
    let (score, m) = player.think(&state, Color::White);
    assert_eq!(m, (c(0, 0), c(0, 7)));
    assert_eq!(score, 999_999_998);
}

#[test]
fn tree_search_of_depth_zero_knows_no_move() {
    let state = BoardState::new(Board::default());
    let mut player = TreeSearchPlayer::new(0);
    assert_eq!(player.think(&state, Color::White), (0, (c(-1, -1), c(-1, -1))));
}

#[test]
fn tree_search_avoids_losing_the_queen() {
    let board = Board::from_string_vec(vec![
        ".. .. .. .. BK .. .. ..",
        ".. .. .. .. .. .. .. ..",
        ".. .. .. .. .. .. .. ..",
        ".. .. .. BQ .. .. .. ..",
        ".. .. .. .. WP .. .. ..",
        ".. .. .. .. .. .. .. ..",
        ".. .. .. .. .. .. .. ..",
        ".. .. .. .. WK .. .. ..",
    ]);
    let state = BoardState::new(board);
    // The pawn takes the queen.
    let mut player = TreeSearchPlayer::new(2);
    let (_, m) = player.think(&state, Color::White);
    assert_eq!(m, (c(4, 3), c(3, 4)));
}

#[test]
fn tile_values_and_move_order() {
    assert_eq!(value(&Tile::blank()), -1);
    assert_eq!(value(&white(PieceType::Pawn { just_lunged: false })), 1);
    assert_eq!(value(&black(PieceType::Knight)), 2);
    assert_eq!(value(&black(PieceType::Bishop)), 2);
    assert_eq!(value(&white(PieceType::Rook)), 3);
    assert_eq!(value(&white(PieceType::Queen)), 4);
    assert_eq!(value(&white(PieceType::King)), 0);

    let mut state = BoardState::new(Board::default());
    play(&mut state, &[((4, 1), (4, 3)), ((3, 6), (3, 4))]);
    // A pawn taking a pawn: -(10 * 1 - 1).
    assert_eq!(move_order_key(&state, c(4, 3), c(3, 4)), -9);
    // A quiet knight move: 10 - 2.
    assert_eq!(move_order_key(&state, c(6, 0), c(5, 2)), 8);
}

// SCREENS

#[test]
fn screen_transitions() {
    let start: ScreenTransition<u8> = ScreenTransition::StartGame(None, Some(2));
    assert_eq!(next_screen(ScreenState::TitleScreen, &start), ScreenState::InGame);
    let back: ScreenTransition<u8> = ScreenTransition::ToTitleScreen;
    assert_eq!(next_screen(ScreenState::InGame, &back), ScreenState::TitleScreen);
    let stay: ScreenTransition<u8> = ScreenTransition::Stay;
    assert_eq!(next_screen(ScreenState::InGame, &stay), ScreenState::InGame);
    let quit: ScreenTransition<u8> = ScreenTransition::QuitGame;
    assert_eq!(next_screen(ScreenState::TitleScreen, &quit), ScreenState::TitleScreen);
}

fn count_kings(board: &Board, color: Color) -> usize {
    let mut n = 0;
    for x in 0..8 {
        for y in 0..8 {
            if board.get(c(x, y)).is(color, PieceType::King) {
                n += 1;
            }
        }
    }
    n
}

#[test]
fn turns_keep_one_king_each_and_empty_squares_behind_lunges() {
    let mut state = BoardState::new(Board::default());
    play(&mut state, &[((4, 1), (4, 3))]);
    assert!(same_piece(state.get(c(4, 3)), Color::White, PieceType::Pawn { just_lunged: true }));
    assert_eq!(state.get(c(4, 2)).0, None);
    play(&mut state, &[((3, 6), (3, 4))]);
    // The white pawn's flag is cleared; the black pawn passed over d6.
    assert!(same_piece(state.get(c(4, 3)), Color::White, PieceType::Pawn { just_lunged: false }));
    assert!(same_piece(state.get(c(3, 4)), Color::Black, PieceType::Pawn { just_lunged: true }));
    assert_eq!(state.get(c(3, 5)).0, None);
    play(&mut state, &[((4, 3), (3, 4)), ((4, 7), (3, 6)), ((6, 0), (5, 2)), ((3, 6), (3, 5))]);
    assert_eq!(count_kings(&state.board, Color::White), 1);
    assert_eq!(count_kings(&state.board, Color::Black), 1);
}

#[test]
fn tree_search_on_a_finished_game_names_no_move() {
    let mut state = BoardState::new(Board::default());
    play(&mut state, &[((5, 1), (5, 2)), ((4, 6), (4, 4)), ((6, 1), (6, 3)), ((3, 7), (7, 3))]);
    let mut player = TreeSearchPlayer::new(2);
    let (score, m) = player.think(&state, Color::White);
    assert_eq!(m, (c(-2, -2), c(-2, -2)));
    assert_eq!(score, -999_999_999);
}

// RULES THE DOCUMENTATION PROMISES

#[test]
fn the_player_to_move_may_not_castle_the_other_king() {
    let e = ".. .. .. .. .. .. .. ..";
    let board = Board::from_string_vec(vec![
        "BR .. .. .. BK .. .. BR",
        e,
        e,
        e,
        e,
        e,
        e,
        "WR .. .. .. WK .. .. WR",
    ]);
    let mut state = BoardState::new(board);
    assert_eq!(state.check_turn(c(4, 7), c(6, 7)), Err("Can't move a piece that isn't yours"));
    assert_eq!(state.try_take_turn(c(4, 7), c(2, 7)), Err("Can't move a piece that isn't yours"));
    assert!(state.get_move_list(c(4, 7)).is_empty());
    assert_eq!(state.check_turn(c(4, 0), c(6, 0)), Ok(()));
}

fn pinned_en_passant() -> BoardState {
    let e = ".. .. .. .. .. .. .. ..";
    let mut b = Board::from_string_vec(vec![
        ".. .. .. .. .. .. .. BK",
        ".. .. .. .. BP .. .. ..",
        e,
        "WK .. .. WP .. .. .. BR",
        e,
        e,
        e,
        e,
    ]);
    b.get_mut(c(3, 4)).set_moved(true);
    b.lunge(c(4, 6));
    BoardState::new(b)
}

#[test]
fn en_passant_may_not_expose_the_king() {
    let mut state = pinned_en_passant();
    assert_eq!(state.board.check_enpassant(Color::White, c(3, 4), BoardSide::Kingside), Ok(()));
    assert!(!state.board.enpassant_is_safe(Color::White, c(3, 4), BoardSide::Kingside));
    assert_eq!(state.get_move_list(c(3, 4)), vec![c(3, 5)]);
    assert_eq!(state.check_turn(c(3, 4), c(4, 5)), Err("Can't move a piece there"));
    assert!(state.try_take_turn(c(3, 4), c(4, 5)).is_err());
    assert_eq!(state.try_take_turn(c(3, 4), c(3, 5)), Ok(()));
}

#[test]
fn safe_en_passant_is_still_listed() {
    let mut state = BoardState::new(Board::default());
    play(&mut state, &[((4, 1), (4, 3)), ((0, 6), (0, 5)), ((4, 3), (4, 4)), ((3, 6), (3, 4))]);
    assert!(state.board.enpassant_is_safe(Color::White, c(4, 4), BoardSide::Queenside));
    assert!(state.get_move_list(c(4, 4)).contains(&c(3, 5)));
}

#[test]
fn only_b_and_w_name_colors() {
    let board = Board::from_string_vec(vec!["XP WP BQ W? ZK"]);
    assert_eq!(board.get(c(0, 0)).0, None);
    assert!(board.get(c(1, 0)).is(Color::White, PieceType::Pawn { just_lunged: false }));
    assert!(board.get(c(2, 0)).is(Color::Black, PieceType::Queen));
    assert_eq!(board.get(c(3, 0)).0, None);
    assert_eq!(board.get(c(4, 0)).0, None);
}

#[test]
fn off_board_squares_hold_no_piece() {
    let state = BoardState::new(Board::default());
    assert_eq!(state.get(c(8, 0)).0, None);
    assert_eq!(state.get(c(-1, 3)).0, None);
    assert!(state.get(c(0, 0)).is(Color::White, PieceType::Rook));
}

#[test]
fn set_moved_leaves_an_empty_tile_alone() {
    let mut t = Tile::blank();
    t.set_moved(true);
    assert_eq!(t, Tile::blank());
    let mut r = Tile::new(Color::Black, PieceType::Rook);
    r.set_moved(true);
    assert!(r.0.unwrap().has_moved);
}

#[test]
fn readiness_checks_for_the_computer_players() {
    let state = BoardState::new(Board::default());
    assert!(chess::ai::ai_can_move(&state, Color::White));
    assert!(state.board.moves_are_defined(Color::White));
    assert!(chess::ai::can_search(&state, 0, 2));
    let mut mated = BoardState::new(Board::default());
    play(&mut mated, &[((5, 1), (5, 2)), ((4, 6), (4, 4)), ((6, 1), (6, 3)), ((3, 7), (7, 3))]);
    assert!(!chess::ai::ai_can_move(&mated, Color::White));
    assert!(chess::ai::can_search(&mated, 0, 3));
    let lone = Board::from_string_vec(vec![".. .. .. .. WK .. .. BR"]);
    assert!(!lone.moves_are_defined(Color::Black));
}

fn count_pieces(board: &Board) -> usize {
    let mut n = 0;
    for x in 0..8 {
        for y in 0..8 {
            if board.get(c(x, y)).0.is_some() {
                n += 1;
            }
        }
    }
    n
}

#[test]
fn turns_conserve_pieces() {
    let mut state = BoardState::new(Board::default());
    let moves = [
        ((4, 1), (4, 3)),
        ((3, 6), (3, 4)),
        ((4, 3), (3, 4)),
        ((3, 7), (3, 4)),
        ((1, 0), (2, 2)),
        ((3, 4), (0, 1)),
    ];
    for ((sx, sy), (ex, ey)) in moves.iter() {
        let before = count_pieces(&state.board) + state.dead_black.len() + state.dead_white.len();
        let old_black = state.dead_black.clone();
        let old_white = state.dead_white.clone();
        assert_eq!(state.try_take_turn(c(*sx, *sy), c(*ex, *ey)), Ok(()));
        let after = count_pieces(&state.board) + state.dead_black.len() + state.dead_white.len();
        assert_eq!(before, after);
        assert_eq!(&state.dead_black[..old_black.len()], &old_black[..]);
        assert_eq!(&state.dead_white[..old_white.len()], &old_white[..]);
        assert!(state.dead_black.iter().all(|p| p.color == Color::Black));
        assert!(state.dead_white.iter().all(|p| p.color == Color::White));
    }
    assert_eq!(count_pieces(&state.board), 29);
}

fn replay(board: &Board, actions: &[BasicAction]) -> Board {
    let mut b = *board;
    for a in actions {
        match *a {
            BasicAction::Move { start, end } => b.move_piece(start, end),
            BasicAction::Remove { coord } => b.set(coord, Tile::blank()),
            BasicAction::Change { coord, new_piece } => b.set(coord, Tile(Some(new_piece))),
        }
    }
    b
}

fn assert_same_pieces(a: &Board, b: &Board) {
    for x in 0..8 {
        for y in 0..8 {
            match (a.get(c(x, y)).0, b.get(c(x, y)).0) {
                (None, None) => (),
                (Some(p), Some(q)) => {
                    assert_eq!(p.color, q.color);
                    assert_eq!(
                        std::mem::discriminant(&p.piece),
                        std::mem::discriminant(&q.piece)
                    );
                }
                _ => panic!("boards differ at {:?}", (x, y)),
            }
        }
    }
}

#[test]
fn replaying_basic_actions_matches_the_turn() {
    let mut state = BoardState::new(Board::default());
    let moves = [
        ((4, 1), (4, 3)),
        ((0, 6), (0, 5)),
        ((4, 3), (4, 4)),
        ((3, 6), (3, 4)),
        ((4, 4), (3, 5)),
        ((2, 6), (3, 5)),
        ((6, 0), (5, 2)),
        ((0, 5), (0, 4)),
        ((5, 0), (4, 1)),
        ((0, 4), (0, 3)),
        ((4, 0), (6, 0)),
    ];
    for ((sx, sy), (ex, ey)) in moves.iter() {
        let (start, end) = (c(*sx, *sy), c(*ex, *ey));
        let actions = basic_actions(&state.board, start, end);
        let replayed = replay(&state.board, &actions);
        assert_eq!(state.try_take_turn(start, end), Ok(()));
        assert_same_pieces(&replayed, &state.board);
    }
}
