//! The state of a game: the board, whose turn it is, the captured pieces, and
//! how a turn changes them.
use vstd::prelude::*;

use crate::board::{
    dir, mk, on_board_spec, opp, Board, BoardCoord, Color, Piece, PieceType, Tile,
};
use crate::board::{on_board, on_board_xy};
use crate::moves::{
    king_deltas, lemma_jump_moves_from_deltas, lemma_pseudo_moves_on_board, pawn_moves,
    pseudo_moves, scale,
};
use crate::rules::{
    legal_moves, lemma_keep_safe_subset, lemma_move_list_on_board, side_file, spec_can_castle,
    spec_castle, spec_castle_locations, spec_check_enpassant, spec_check_move,
    spec_checkmate_state, spec_enpassant_locations, enpassant_safe, spec_move_list, BoardSide, CheckmateState,
};

verus! {

/// The kind of a move, as its start and end squares show it.
#[derive(Debug, Clone, Copy, PartialEq, Eq, Structural)]
pub enum MoveType {
    Castle(Color, BoardSide),
    Normal,
    Capture,
    // A "queenside" enpassant is defined as the attacking pawn moving towards the
    // queen's side of the board (the x coordinate decreases), and vice versa for
    // "kingside" enpassant
    EnPassant(BoardSide),
    Lunge,
}

/// What kind of move going from `start` to `end` is: a king stepping two
/// files sideways castles, a pawn stepping two ranks forward lunges, a pawn
/// stepping diagonally forward onto an empty square takes en passant, any other
/// move onto a piece captures, and anything else (an empty `start` too) is a
/// normal move.
pub open spec fn spec_move_type(b: Board, start: BoardCoord, end: BoardCoord) -> MoveType {
    match b.tile_at(start).0 {
        None => MoveType::Normal,
        Some(p) => {
            let dx = end.0 - start.0;
            let dy = scale(end.1 - start.1, p.color);
            let empty_end = b.tile_at(end).0 is None;
            if p.piece == PieceType::King && dx == -2 && dy == 0 {
                MoveType::Castle(p.color, BoardSide::Queenside)
            } else if p.piece == PieceType::King && dx == 2 && dy == 0 {
                MoveType::Castle(p.color, BoardSide::Kingside)
            } else if p.piece is Pawn && dx == 0 && dy == 2 {
                MoveType::Lunge
            } else if p.piece is Pawn && dx == -1 && dy == 1 && empty_end {
                MoveType::EnPassant(BoardSide::Queenside)
            } else if p.piece is Pawn && dx == 1 && dy == 1 && empty_end {
                MoveType::EnPassant(BoardSide::Kingside)
            } else if !empty_end {
                MoveType::Capture
            } else {
                MoveType::Normal
            }
        },
    }
}

/// Returns what kind of move this is, either normal, a castle, or an en passant
/// Note that a castle is expected to be a move starting on the king.
pub fn move_type(board: &Board, start: BoardCoord, end: BoardCoord) -> (m: MoveType)
    requires
        on_board_spec(start),
        board.tile_at(start).0 is Some ==> on_board_spec(end),
    ensures
        m == spec_move_type(*board, start, end),
{
    let tile = board.get(start);
    if tile.0.is_none() {
        return MoveType::Normal;
    }
    let piece = tile.0.unwrap();
    let delta = match piece.color {
        Color::White => (end.0 - start.0, end.1 - start.1),
        Color::Black => (end.0 - start.0, -(end.1 - start.1)),
    };
    let empty_end_pos = board.get(end).0.is_none();
    match (piece.piece, delta, empty_end_pos) {
        (PieceType::King, (-2, 0), _) => MoveType::Castle(piece.color, BoardSide::Queenside),
        (PieceType::King, (2, 0), _) => MoveType::Castle(piece.color, BoardSide::Kingside),
        (PieceType::Pawn { .. }, (0, 2), _) => MoveType::Lunge,
        // An enpassant move will always attempt to move into an empty square
        // while a capture will move onto a nonempty square
        (PieceType::Pawn { .. }, (-1, 1), true) => MoveType::EnPassant(BoardSide::Queenside),
        (PieceType::Pawn { .. }, (1, 1), true) => MoveType::EnPassant(BoardSide::Kingside),
        (_, _, false) => MoveType::Capture,
        _ => MoveType::Normal,
    }
}

/// One elementary change of the board, as an animation shows it.
#[derive(Debug, Copy, Clone)]
pub enum BasicAction {
    Move { start: BoardCoord, end: BoardCoord },
    Remove { coord: BoardCoord },
    Change { coord: BoardCoord, new_piece: Piece },
}

/// The elementary changes that the move from `start` to `end` makes: a
/// castle moves the king and then its rook, a capture removes the captured
/// piece and then moves, an en passant removes the pawn beside `start` and
/// then moves, and any other move just moves.
pub open spec fn spec_basic_actions(b: Board, start: BoardCoord, end: BoardCoord) -> Seq<BasicAction> {
    match spec_move_type(b, start, end) {
        MoveType::Castle(color, side) => {
            let r = crate::rules::first_rank(color);
            let (rook_start, rook_end) = match side {
                BoardSide::Queenside => (mk(0, r), mk(3, r)),
                BoardSide::Kingside => (mk(7, r), mk(5, r)),
            };
            seq![
                BasicAction::Move { start, end },
                BasicAction::Move { start: rook_start, end: rook_end },
            ]
        },
        MoveType::Capture => seq![BasicAction::Remove { coord: end }, BasicAction::Move { start, end }],
        MoveType::EnPassant(side) => seq![
            BasicAction::Remove { coord: mk(side_file(start.0 as int, side), start.1 as int) },
            BasicAction::Move { start, end },
        ],
        _ => seq![BasicAction::Move { start, end }],
    }
}

pub fn basic_actions(board: &Board, start: BoardCoord, end: BoardCoord) -> (v: Vec<BasicAction>)
    requires
        on_board_spec(start),
        board.tile_at(start).0 is Some ==> on_board_spec(end),
    ensures
        v@ == spec_basic_actions(*board, start, end),
{
    let v = match move_type(board, start, end) {
        MoveType::Castle(color, board_side) => {
            let (king_start, king_end) = (start, end);
            let (rook_start, rook_end) = match (color, board_side) {
                (Color::White, BoardSide::Queenside) => (BoardCoord(0, 0), BoardCoord(3, 0)),
                (Color::White, BoardSide::Kingside) => (BoardCoord(7, 0), BoardCoord(5, 0)),
                (Color::Black, BoardSide::Queenside) => (BoardCoord(0, 7), BoardCoord(3, 7)),
                (Color::Black, BoardSide::Kingside) => (BoardCoord(7, 7), BoardCoord(5, 7)),
            };
            vec![
                BasicAction::Move { start: king_start, end: king_end },
                BasicAction::Move { start: rook_start, end: rook_end },
            ]
        },
        MoveType::Normal => vec![BasicAction::Move { start, end }],
        MoveType::Capture => vec![BasicAction::Remove { coord: end }, BasicAction::Move { start, end }],
        MoveType::EnPassant(side) => {
            let captured_pawn = match side {
                BoardSide::Queenside => BoardCoord(start.0 - 1, start.1),
                BoardSide::Kingside => BoardCoord(start.0 + 1, start.1),
            };
            vec![BasicAction::Remove { coord: captured_pawn }, BasicAction::Move { start, end }]
        },
        MoveType::Lunge => vec![BasicAction::Move { start, end }],
    };
    assert(v@ =~= spec_basic_actions(*board, start, end));
    v
}


/// The overall board state, which keeps track of the various things each player
/// can do, such as if they can castle, or what pieces are currently dead.
#[derive(Debug, Clone)]
pub struct BoardState {
    /// The actual board containing all the pieces in play
    pub board: Board,
    /// The color of the player-to-move
    pub current_player: Color,
    pub dead_black: Vec<Piece>,
    pub dead_white: Vec<Piece>,
    pub checkmate: CheckmateState,
}

fn copy_pieces(v: &Vec<Piece>) -> (r: Vec<Piece>)
    ensures
        r@ == v@,
{
    let mut r: Vec<Piece> = Vec::new();
    let mut k: usize = 0;
    while k < v.len()
        invariant
            0 <= k <= v@.len(),
            r@ == v@.take(k as int),
        decreases v@.len() - k,
    {
        r.push(v[k]);
        assert(v@.take(k + 1) =~= v@.take(k as int).push(v@[k as int]));
        k += 1;
    }
    assert(v@.take(v@.len() as int) =~= v@);
    r
}

/// A `BoardState` as mathematical values.
#[verifier::ext_equal]
pub struct StateView {
    pub board: Board,
    pub current_player: Color,
    pub dead_black: Seq<Piece>,
    pub dead_white: Seq<Piece>,
    pub checkmate: CheckmateState,
}

impl View for BoardState {
    type V = StateView;

    open spec fn view(&self) -> StateView {
        StateView {
            board: self.board,
            current_player: self.current_player,
            dead_black: self.dead_black@,
            dead_white: self.dead_white@,
            checkmate: self.checkmate,
        }
    }
}

/// The preconditions under which `check_turn` can look at the move: unless a
/// pawn awaits promotion, `start` is on the board, `end` too when `start`
/// holds a piece, and a move of one's own piece that is not a castle or an en
/// passant needs one's king on the board.
pub open spec fn turn_checkable(s: StateView, start: BoardCoord, end: BoardCoord) -> bool {
    s.board.spec_pawn_needs_promotion() is None ==> {
        &&& on_board_spec(start)
        &&& s.board.tile_at(start).0 is Some ==> on_board_spec(end)
        &&& s.board.tile_at(start).spec_is_color(s.current_player) && !(spec_move_type(
            s.board,
            start,
            end,
        ) is Castle) && !(spec_move_type(s.board, start, end) is EnPassant)
            ==> s.board.spec_get_king(s.current_player) is Some
    }
}

/// What `check_turn` answers: no move while a pawn awaits promotion; a
/// castle only of the king of the player to move, when `can_castle` allows
/// it; an en passant when `check_enpassant` allows it and it keeps the king
/// safe; any other move when `check_move` allows it.
pub open spec fn spec_check_turn(s: StateView, start: BoardCoord, end: BoardCoord) -> Result<(), &'static str> {
    if s.board.spec_pawn_needs_promotion() is Some {
        Err("A pawn needs to be promoted")
    } else {
        match spec_move_type(s.board, start, end) {
            MoveType::Castle(color, side) => if color != s.current_player {
                Err("Can't move a piece that isn't yours")
            } else {
                spec_can_castle(s.board, color, side)
            },
            MoveType::EnPassant(side) => match spec_check_enpassant(s.board, s.current_player, start, side) {
                Ok(()) => if enpassant_safe(s.board, s.current_player, start, side) {
                    Ok(())
                } else {
                    Err("Can't move a piece there")
                },
                Err(e) => Err(e),
            },
            _ => spec_check_move(s.board, s.current_player, start, end),
        }
    }
}

/// The list `dead` of pieces of `color` after `p` is captured.
pub open spec fn add_dead(dead: Seq<Piece>, color: Color, p: Piece) -> Seq<Piece> {
    if p.color == color {
        dead.push(p)
    } else {
        dead
    }
}

/// The board after the move from `start` to `end`, and the piece it captures.
pub open spec fn turn_board(b: Board, start: BoardCoord, end: BoardCoord) -> (Board, Option<Piece>) {
    match spec_move_type(b, start, end) {
        MoveType::Castle(color, side) => (spec_castle(b.spec_cleared(), color, side), None),
        MoveType::Normal => (b.spec_cleared().spec_move(start, end), None),
        MoveType::Capture => (b.spec_cleared().spec_move(start, end), b.spec_cleared().tile_at(end).0),
        MoveType::Lunge => (b.spec_cleared().spec_lunge(start), None),
        MoveType::EnPassant(side) => {
            let color = b.tile_at(start).0->Some_0.color;
            (
                b.spec_move(start, end).spec_set(mk(end.0 as int, end.1 - dir(color)), Tile(None)).spec_cleared(),
                b.tile_at(mk(side_file(start.0 as int, side), start.1 as int)).0,
            )
        },
    }
}

/// The state after the player to move plays from `start` to `end`: the board
/// changes, a captured piece joins the dead of its color, the other player is
/// to move unless a pawn now awaits promotion, and the game state is
/// recomputed for the player to move.
pub open spec fn spec_take_turn(s: StateView, start: BoardCoord, end: BoardCoord) -> StateView {
    let (board, captured) = turn_board(s.board, start, end);
    let next = if board.spec_pawn_needs_promotion() is None {
        opp(s.current_player)
    } else {
        s.current_player
    };
    StateView {
        board,
        current_player: next,
        dead_black: match captured {
            Some(p) => add_dead(s.dead_black, Color::Black, p),
            None => s.dead_black,
        },
        dead_white: match captured {
            Some(p) => add_dead(s.dead_white, Color::White, p),
            None => s.dead_white,
        },
        checkmate: spec_checkmate_state(board, next),
    }
}

/// The state after the pawn at `coord` is promoted to `piece`: the other
/// player is to move and the game state is recomputed for it.
pub open spec fn spec_promote(s: StateView, coord: BoardCoord, piece: PieceType) -> StateView {
    let board = s.board.spec_promoted(coord, piece);
    let next = opp(s.current_player);
    StateView {
        board,
        current_player: next,
        dead_black: s.dead_black,
        dead_white: s.dead_white,
        checkmate: spec_checkmate_state(board, next),
    }
}

/// The move from `start` to `end` can be played: `check_turn` may look at
/// it and accepts it, and the player to move afterwards has a king.
pub open spec fn turn_playable(s: StateView, start: BoardCoord, end: BoardCoord) -> bool {
    &&& turn_checkable(s, start, end)
    &&& spec_check_turn(s, start, end) is Ok
    &&& spec_take_turn(s, start, end).board.spec_get_king(spec_take_turn(s, start, end).current_player) is Some
}

/// The pawn at `coord` can be promoted to `piece`: a pawn awaits promotion,
/// `check_promote` accepts it, and the other player has a king afterwards.
pub open spec fn promotion_playable(s: StateView, coord: BoardCoord, piece: PieceType) -> bool {
    &&& on_board_spec(coord)
    &&& s.board.spec_pawn_needs_promotion() is Some
    &&& s.board.spec_check_promote(coord, piece) is Ok
    &&& s.board.spec_promoted(coord, piece).spec_get_king(opp(s.current_player)) is Some
}

/// The game is over for the player to move: checkmate, stalemate, or
/// insufficient material.
pub open spec fn spec_game_over(s: StateView) -> bool {
    let st = spec_checkmate_state(s.board, s.current_player);
    st == CheckmateState::Checkmate || st == CheckmateState::Stalemate || st
        == CheckmateState::InsuffientMaterial
}

impl BoardState {
    /// Create a board state using the board given. The player-to-move will
    /// initially be white.
    pub fn new(board: Board) -> (s: BoardState)
        requires
            board.spec_get_king(Color::White) is Some,
        ensures
            s@ == (StateView {
                board,
                current_player: Color::White,
                dead_black: seq![],
                dead_white: seq![],
                checkmate: spec_checkmate_state(board, Color::White),
            }),
    {
        let checkmate = board.checkmate_state(Color::White);
        BoardState {
            board,
            current_player: Color::White,
            dead_black: Vec::new(),
            dead_white: Vec::new(),
            checkmate,
        }
    }

    pub fn check_turn(&self, start: BoardCoord, end: BoardCoord) -> (r: Result<(), &'static str>)
        requires
            turn_checkable(self@, start, end),
        ensures
            r == spec_check_turn(self@, start, end),
    {
        if self.board.pawn_needs_promotion().is_some() {
            return Err("A pawn needs to be promoted");
        }
        match move_type(&self.board, start, end) {
            MoveType::Castle(color, side) => {
                if color != self.current_player {
                    return Err("Can't move a piece that isn't yours");
                }
                self.board.can_castle(color, side)
            },
            MoveType::Normal | MoveType::Lunge | MoveType::Capture => self.board.check_move(
                self.current_player,
                start,
                end,
            ),
            MoveType::EnPassant(side) => {
                let checked = self.board.check_enpassant(self.current_player, start, side);
                if checked.is_ok() && !self.board.enpassant_is_safe(self.current_player, start, side) {
                    return Err("Can't move a piece there");
                }
                checked
            },
        }
    }

    /// Move the piece located at `start` to `end`. The move must be legal
    /// (see `check_turn`). It also sets `current_player` to the opposite color
    /// (unless a pawn now needs promotion, in which case `promote` must be
    /// called) and handles the "just_lunged" pawn flags.
    pub fn take_turn(&mut self, start: BoardCoord, end: BoardCoord)
        requires
            turn_checkable(old(self)@, start, end),
            spec_check_turn(old(self)@, start, end) is Ok,
            spec_take_turn(old(self)@, start, end).board.spec_get_king(
                spec_take_turn(old(self)@, start, end).current_player,
            ) is Some,
        ensures
            final(self)@ == spec_take_turn(old(self)@, start, end),
    {
        self.advance(start, end);
        // Update the checkmate status
        self.checkmate = self.board.checkmate_state(self.current_player);
    }

    /// Plays the move on the board, the lists of captured pieces and the
    /// player to move, leaving the game state as it was.
    fn advance(&mut self, start: BoardCoord, end: BoardCoord)
        requires
            turn_checkable(old(self)@, start, end),
            spec_check_turn(old(self)@, start, end) is Ok,
        ensures
            final(self)@ == (StateView {
                checkmate: old(self).checkmate,
                ..spec_take_turn(old(self)@, start, end)
            }),
    {
        proof {
            broadcast use crate::board::lemma_board_from;
            broadcast use crate::board::lemma_spec_set;
        }
        let ghost old_dead_black = self.dead_black@;
        let ghost old_dead_white = self.dead_white@;
        match move_type(&self.board, start, end) {
            MoveType::Castle(color, side) => {
                // Clear the just lunged flags _after_ checking the move is valid
                // That way, invalid moves don't try to clear the flag.
                self.board.clear_just_lunged();
                self.board.castle(color, side);
            },
            MoveType::Normal => {
                self.board.clear_just_lunged();
                self.board.move_piece(start, end)
            },
            MoveType::Capture => {
                self.board.clear_just_lunged();
                let captured_piece = self.get(end).0.unwrap();
                match captured_piece.color {
                    Color::Black => self.dead_black.push(captured_piece),
                    Color::White => self.dead_white.push(captured_piece),
                }
                self.board.move_piece(start, end)
            },
            MoveType::Lunge => {
                // Clear the old lunge flag before the new one
                self.board.clear_just_lunged();
                self.board.lunge(start);
            },
            MoveType::EnPassant(side) => {
                let captured_coord = match side {
                    BoardSide::Kingside => BoardCoord(start.0 + 1, start.1),
                    BoardSide::Queenside => BoardCoord(start.0 - 1, start.1),
                };
                // Add the captured pawn to the dead piece list
                let captured_piece = self.get(captured_coord).0.unwrap();
                match captured_piece.color {
                    Color::Black => self.dead_black.push(captured_piece),
                    Color::White => self.dead_white.push(captured_piece),
                }
                self.board.enpassant(start, end);
                // Don't clear the lunge flag until _after_ we check for enpassant
                // (otherwise we will never be able to :P)
                self.board.clear_just_lunged();
            },
        }
        if self.need_promote().is_none() {
            self.current_player = match self.current_player {
                Color::White => Color::Black,
                Color::Black => Color::White,
            };
        }
        proof {
            let expect = spec_take_turn(old(self)@, start, end);
            assert(self@.dead_black =~= expect.dead_black);
            assert(self@.dead_white =~= expect.dead_white);
        }
    }

    /// Whether `turn_checkable` holds, so that `check_turn` may look at the
    /// move.
    fn turn_is_checkable(&self, start: BoardCoord, end: BoardCoord) -> (b: bool)
        ensures
            b == turn_checkable(self@, start, end),
    {
        if self.need_promote().is_some() {
            return true;
        }
        if !on_board(start) {
            return false;
        }
        let tile = *self.get(start);
        if tile.0.is_none() {
            return true;
        }
        if !on_board(end) {
            return false;
        }
        if !tile.is_color(self.current_player) {
            return true;
        }
        match move_type(&self.board, start, end) {
            MoveType::Castle(_, _) | MoveType::EnPassant(_) => true,
            _ => self.board.get_king(self.current_player).is_some(),
        }
    }

    /// Plays the move from `start` to `end` if `check_turn` accepts it and the
    /// player to move afterwards still has a king; otherwise the state is left
    /// as it is and the reason comes back.
    pub fn try_take_turn(&mut self, start: BoardCoord, end: BoardCoord) -> (r: Result<(), &'static str>)
        ensures
            r is Ok <==> turn_playable(old(self)@, start, end),
            r is Ok ==> final(self)@ == spec_take_turn(old(self)@, start, end),
            r is Err ==> final(self)@ == old(self)@,
            turn_checkable(old(self)@, start, end) && spec_check_turn(old(self)@, start, end) is Err
                ==> r == spec_check_turn(old(self)@, start, end),
    {
        if !self.turn_is_checkable(start, end) {
            return Err("That move can not be looked at on this board");
        }
        let checked = self.check_turn(start, end);
        if checked.is_err() {
            return checked;
        }
        let mut next = self.copy_state();
        next.advance(start, end);
        if next.board.get_king(next.current_player).is_none() {
            return Err("That move leaves the player to move without a king");
        }
        next.checkmate = next.board.checkmate_state(next.current_player);
        *self = next;
        Ok(())
    }

    /// Promotes the pawn at `coord` to `piece` if `check_promote` accepts it
    /// and the player to move afterwards has a king; otherwise the state is
    /// left as it is and the reason comes back.
    pub fn try_promote(&mut self, coord: BoardCoord, piece: PieceType) -> (r: Result<(), &'static str>)
        ensures
            r is Ok <==> promotion_playable(old(self)@, coord, piece),
            r is Ok ==> final(self)@ == spec_promote(old(self)@, coord, piece),
            r is Err ==> final(self)@ == old(self)@,
            on_board_spec(coord) && (old(self).board.spec_pawn_needs_promotion() is None
                || old(self).board.spec_check_promote(coord, piece) is Err) ==> r == (
            if old(self).board.spec_pawn_needs_promotion() is None {
                Err("No pawn needs to be promoted at this time")
            } else {
                old(self).board.spec_check_promote(coord, piece)
            }),
    {
        if !on_board(coord) {
            return Err("That square is not on the board");
        }
        let checked = self.check_promote(coord, piece);
        if checked.is_err() {
            return checked;
        }
        let mut board = self.board;
        board.promote_pawn(coord, piece);
        if board.get_king(self.current_player.opposite()).is_none() {
            return Err("That promotion leaves the player to move without a king");
        }
        self.promote(coord, piece);
        Ok(())
    }

    /// A copy of the state.
    pub fn copy_state(&self) -> (r: BoardState)
        ensures
            r@ == self@,
    {
        BoardState {
            board: self.board,
            current_player: self.current_player,
            dead_black: copy_pieces(&self.dead_black),
            dead_white: copy_pieces(&self.dead_white),
            checkmate: self.checkmate,
        }
    }

    pub fn need_promote(&self) -> (r: Option<BoardCoord>)
        ensures
            r == self.board.spec_pawn_needs_promotion(),
    {
        return self.board.pawn_needs_promotion();
    }

    /// Checks if the promotion is legal. This function returns Err if there is
    /// no piece to promote to or if the promotion would be illegal.
    pub fn check_promote(&self, coord: BoardCoord, piece: PieceType) -> (r: Result<(), &'static str>)
        requires
            self.board.spec_pawn_needs_promotion() is Some ==> on_board_spec(coord),
        ensures
            r == if self.board.spec_pawn_needs_promotion() is None {
                Err("No pawn needs to be promoted at this time")
            } else {
                self.board.spec_check_promote(coord, piece)
            },
    {
        if self.need_promote().is_none() {
            return Err("No pawn needs to be promoted at this time");
        }
        self.board.check_promote(coord, piece)
    }

    /// Promotes the pawn. The promotion must be legal (see `check_promote`).
    /// This function also handles updating the checkmate state and current
    /// player.
    pub fn promote(&mut self, coord: BoardCoord, piece: PieceType)
        requires
            old(self).board.spec_pawn_needs_promotion() is Some,
            on_board_spec(coord),
            old(self).board.spec_check_promote(coord, piece) is Ok,
            old(self).board.spec_promoted(coord, piece).spec_get_king(opp(old(self).current_player)) is Some,
        ensures
            final(self)@ == spec_promote(old(self)@, coord, piece),
    {
        self.board.promote_pawn(coord, piece);
        self.current_player = match self.current_player {
            Color::White => Color::Black,
            Color::Black => Color::White,
        };
        // Update the checkmate status
        self.checkmate = self.board.checkmate_state(self.current_player);
    }

    /// Return the list of valid moves for current player at the coordinate
    pub fn get_move_list(&self, coord: BoardCoord) -> (v: Vec<BoardCoord>)
        requires
            on_board_spec(coord) && self.board.spec_pawn_needs_promotion() is None && self.board.tile_at(
                coord,
            ).spec_is_color(self.current_player) ==> self.board.spec_get_king(self.current_player) is Some,
        ensures
            v@ == spec_move_list(self.board, coord, self.current_player),
    {
        self.board.get_move_list(coord, self.current_player)
    }

    pub fn game_over(&self) -> (b: bool)
        requires
            self.board.spec_get_king(self.current_player) is Some,
        ensures
            b == spec_game_over(self@),
    {
        match self.board.checkmate_state(self.current_player) {
            CheckmateState::Normal | CheckmateState::Check => false,
            CheckmateState::Checkmate | CheckmateState::Stalemate
            | CheckmateState::InsuffientMaterial => true,
        }
    }

    /// The `Tile` at `coord`; off the board there is no piece, and an empty
    /// tile comes back.
    pub fn get(&self, coord: BoardCoord) -> (t: &Tile)
        ensures
            on_board_spec(coord) ==> *t == self.board.tile_at(coord),
            !on_board_spec(coord) ==> t.0 is None,
    {
        if on_board(coord) {
            self.board.get(coord)
        } else {
            &Tile(None)
        }
    }
}


/// Every king of `player` stands on the same square.
pub open spec fn single_king(b: Board, player: Color) -> bool {
    forall|c: BoardCoord, d: BoardCoord|
        on_board_spec(c) && on_board_spec(d) && (#[trigger] b.tile_at(c)).spec_is(player, PieceType::King)
            && (#[trigger] b.tile_at(d)).spec_is(player, PieceType::King) ==> c == d
}

/// The square a pawn that has just lunged passed over is empty (as it is
/// right after the lunge).
pub open spec fn lunges_consistent(b: Board) -> bool {
    forall|c: BoardCoord|
        on_board_spec(c) && (#[trigger] b.tile_at(c)).0 is Some && b.tile_at(c).0->Some_0.piece
            == (PieceType::Pawn { just_lunged: true }) ==> {
            let q = b.tile_at(c).0->Some_0.color;
            on_board_xy(c.0 as int, c.1 - dir(q)) && b.is_empty_at(c.0 as int, c.1 - dir(q))
        }
}

/// Every move `get_move_list` lists for the player to move is accepted by
/// `check_turn`, on a board where that player has a single king and the
/// square behind each pawn that has just lunged is empty (as in any game
/// played from the starting position).
pub proof fn lemma_listed_moves_accepted(s: StateView, coord: BoardCoord, m: BoardCoord)
    requires
        s.board.spec_get_king(s.current_player) is Some,
        single_king(s.board, s.current_player),
        lunges_consistent(s.board),
        spec_move_list(s.board, coord, s.current_player).contains(m),
    ensures
        turn_checkable(s, coord, m),
        spec_check_turn(s, coord, m) is Ok,
{
    let b = s.board;
    let player = s.current_player;
    let ml = spec_move_list(b, coord, player);
    let k = choose|k: int| 0 <= k < ml.len() && ml[k] == m;
    lemma_move_list_on_board(b, coord, player);
    assert(on_board_spec(m));
    let p = b.tile_at(coord).0->Some_0;
    assert(p.color == player);
    let king = b.spec_get_king(player)->Some_0;
    let lm = legal_moves(b, player, coord);
    let extra = match p.piece {
        PieceType::King => spec_castle_locations(b, player),
        PieceType::Pawn { .. } => spec_enpassant_locations(b, player, coord),
        _ => seq![],
    };
    assert(ml == lm + extra);
    let dx = m.0 - coord.0;
    let dy = scale(m.1 - coord.1, p.color);
    if k < lm.len() {
        assert(ml[k] == lm[k]);
        assert(lm.contains(m));
        lemma_keep_safe_subset(b, player, coord, king, pseudo_moves(b, coord));
        assert(pseudo_moves(b, coord).contains(m));
        let pm = pseudo_moves(b, coord);
        let t = choose|t: int| 0 <= t < pm.len() && pm[t] == m;
        if p.piece == PieceType::King {
            lemma_jump_moves_from_deltas(b, coord, p.color, king_deltas(), t);
            let e = choose|e: int|
                0 <= e < king_deltas().len() && pm[t] == crate::board::mk(
                    coord.0 + (#[trigger] king_deltas()[e]).0,
                    coord.1 + scale(king_deltas()[e].1 as int, p.color),
                );
            assert(-1 <= king_deltas()[e].0 <= 1);
            assert(dx == king_deltas()[e].0);
        } else if p.piece is Pawn {
            let pw = pawn_moves(b, coord, p.color);
            assert(pw == pm);
        }
        assert(spec_check_move(b, player, coord, m) is Ok);
    } else {
        assert(ml[k] == extra[k - lm.len()]);
        if p.piece == PieceType::King {
            let r = crate::rules::first_rank(player);
            let kc = crate::board::mk(4, r);
            if spec_can_castle(b, player, BoardSide::Queenside) is Ok {
                assert(b.tile_at(kc).spec_is(player, PieceType::King));
            }
            if spec_can_castle(b, player, BoardSide::Kingside) is Ok {
                assert(b.tile_at(kc).spec_is(player, PieceType::King));
            }
            assert(b.tile_at(coord).spec_is(player, PieceType::King));
            assert(on_board_spec(kc));
            assert(coord == kc);
        } else {
            let y = coord.1 + dir(player);
            let qx = side_file(coord.0 as int, BoardSide::Queenside);
            let kx = side_file(coord.0 as int, BoardSide::Kingside);
            if spec_check_enpassant(b, player, coord, BoardSide::Queenside) is Ok {
                let cc = crate::board::mk(qx, coord.1 as int);
                assert(on_board_spec(cc));
                assert(b.tile_at(cc).0 is Some);
            }
            if spec_check_enpassant(b, player, coord, BoardSide::Kingside) is Ok {
                let cc = crate::board::mk(kx, coord.1 as int);
                assert(on_board_spec(cc));
                assert(b.tile_at(cc).0 is Some);
            }
        }
    }
}

} // verus!
