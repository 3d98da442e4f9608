//! Computer players.
use vstd::prelude::*;

use rand::seq::SliceRandom;

use crate::board::{mk, on_board_spec, opp, Board, BoardCoord, Color, PieceType, Tile};
use crate::rules::{moves_defined, spec_all_moves, CheckmateState};
use crate::state::{
    spec_check_turn, spec_game_over, spec_promote, spec_take_turn, turn_checkable, BoardState,
    StateView,
};

verus! {

/// A move, from its start square to its end square.
pub type Move = (BoardCoord, BoardCoord);

/// The answer of a player that may still be thinking: `Ready` with its choice,
/// or `Pending` while it searches (ask again later).
#[derive(Debug, Clone, Copy, PartialEq, Eq)]
pub enum Poll<T> {
    Ready(T),
    Pending,
}

/// The move `m` can be played in `s`: `check_turn` can look at it and accepts
/// it, and the player to move after it has a king.
pub open spec fn playable(s: StateView, m: Move) -> bool {
    &&& turn_checkable(s, m.0, m.1)
    &&& spec_check_turn(s, m.0, m.1) is Ok
    &&& spec_take_turn(s, m.0, m.1).board.spec_get_king(
        spec_take_turn(s, m.0, m.1).current_player,
    ) is Some
}

/// `player` can be asked for a move in `s`: it has moves, each of them can be
/// played, and the moves of the other player can be listed after each.
pub open spec fn ai_ready(s: StateView, player: Color) -> bool {
    let all = spec_all_moves(s.board, player);
    &&& moves_defined(s.board, player)
    &&& all.len() > 0
    &&& forall|k: int|
        0 <= k < all.len() ==> playable(s, #[trigger] all[k]) && moves_defined(
            spec_take_turn(s, all[k].0, all[k].1).board,
            opp(player),
        )
}

/// Whether `player` can be asked for a move in `state`: exactly `ai_ready`.
pub fn ai_can_move(state: &BoardState, player: Color) -> (b: bool)
    ensures
        b == ai_ready(state@, player),
{
    if !state.board.moves_are_defined(player) {
        return false;
    }
    let all = state.board.get_all_moves(player);
    if all.len() == 0 {
        return false;
    }
    let mut k: usize = 0;
    while k < all.len()
        invariant
            0 <= k <= all@.len(),
            all@ == spec_all_moves(state.board, player),
            forall|j: int|
                0 <= j < k ==> playable(state@, #[trigger] all@[j]) && moves_defined(
                    spec_take_turn(state@, all@[j].0, all@[j].1).board,
                    opp(player),
                ),
        decreases all@.len() - k,
    {
        let (start, end) = all[k];
        let mut next = state.copy_state();
        if next.try_take_turn(start, end).is_err() {
            assert(!playable(state@, all@[k as int]));
            return false;
        }
        if !next.board.moves_are_defined(player.opposite()) {
            assert(!moves_defined(
                spec_take_turn(state@, all@[k as int].0, all@[k as int].1).board,
                opp(player),
            ));
            return false;
        }
        k += 1;
    }
    true
}

/// The pieces a pawn may be promoted to.
pub open spec fn promotion_piece(p: PieceType) -> bool {
    p is Knight || p is Bishop || p is Rook || p is Queen
}

/// This trait describes a computer player. An AIPlayer will have `next_move`
/// called with a certain board position and a player, and is expected to return
/// a legal move. Note that the return type is a `Poll`, so the AIPlayer may
/// spawn a thread if it takes a while to search for the right move. While the
/// player searches, it is expected to return `Poll::Pending`. If this is the case
/// `next_move` will be re-called intermittently until it returns Poll::Ready
pub trait AIPlayer: std::fmt::Debug {
    /// Given a board, this function should return the next move the AI intends
    /// to play.
    fn next_move(&mut self, board: &BoardState, player: Color) -> (r: Poll<Move>)
        requires
            ai_ready(board@, player),
        ensures
            r matches Poll::Ready(m) ==> spec_all_moves(board.board, player).contains(m),
    ;

    /// Given a board that requires a promotion for a pawn, return what piece the
    /// pawn should be promoted to. By default, this is always a queen, but can
    /// be manually overridden if desired.
    fn next_promote(&mut self, _board: &BoardState) -> (r: Poll<PieceType>)
        ensures
            r matches Poll::Ready(p) ==> promotion_piece(p),
        default_ensures
            r == Poll::Ready(PieceType::Queen),
    {
        Poll::Ready(PieceType::Queen)
    }
}

/// One element of `items` picked at random by `rand`'s `SliceRandom::choose`
/// with the thread-local generator; `None` exactly when `items` is empty.
/// Which element comes back is left open.
#[verifier::external_body]
fn choose_one<T: Copy>(items: &[T]) -> (r: Option<T>)
    ensures
        r is None <==> items@.len() == 0,
        r matches Some(x) ==> items@.contains(x),
{
    items.choose(&mut rand::thread_rng()).copied()
}

/// A player that plays one of its moves at random.
#[derive(Debug)]
pub struct RandomPlayer {}

impl AIPlayer for RandomPlayer {
    fn next_move(&mut self, board: &BoardState, player: Color) -> (r: Poll<Move>)
        ensures
            r is Ready,
    {
        let moves = board.board.get_all_moves(player);
        let rand_move = choose_one(moves.as_slice()).unwrap();
        Poll::Ready(rand_move)
    }

    fn next_promote(&mut self, _board: &BoardState) -> (r: Poll<PieceType>)
        ensures
            r is Ready,
    {
        let choices = [PieceType::Knight, PieceType::Bishop, PieceType::Rook, PieceType::Queen];
        let choice = choose_one(&choices).unwrap();
        proof {
            let i = choose|i: int| 0 <= i < choices@.len() && choices@[i] == choice;
        }
        Poll::Ready(choice)
    }
}


/// The number of moves the other player has after `player` plays `m`.
pub open spec fn reply_count(s: StateView, player: Color, m: Move) -> nat {
    spec_all_moves(spec_take_turn(s, m.0, m.1).board, opp(player)).len()
}

/// A player that plays, among its moves, one that leaves the opponent with
/// the fewest moves (picked at random among the moves that do).
#[derive(Debug)]
pub struct MinOptPlayer {}

impl AIPlayer for MinOptPlayer {
    #[verifier::rlimit(40)]
    fn next_move(&mut self, board: &BoardState, player: Color) -> (r: Poll<Move>)
        ensures
            r matches Poll::Ready(m) && spec_all_moves(board.board, player).contains(m) && forall|
                k: int,
            |
                0 <= k < spec_all_moves(board.board, player).len() ==> reply_count(board@, player, m)
                    <= reply_count(board@, player, #[trigger] spec_all_moves(board.board, player)[k]),
    {
        let my_moves = board.board.get_all_moves(player);
        let ghost all = my_moves@;
        // lower score is better. here we have the score as the number of moves
        // the opponent can make afterwards
        let mut best_score = usize::MAX;
        // the moves that reach the best score so far, in the order they came
        let mut best_moves: Vec<Move> = Vec::new();
        let mut k: usize = 0;
        while k < my_moves.len()
            invariant
                0 <= k <= all.len(),
                my_moves@ == all,
                all == spec_all_moves(board.board, player),
                ai_ready(board@, player),
                k > 0 ==> best_moves@.len() > 0,
                k == 0 ==> best_score == usize::MAX,
                forall|i: int| 0 <= i < best_moves@.len() ==> all.take(k as int).contains(#[trigger] best_moves@[i])
                    && reply_count(board@, player, best_moves@[i]) == best_score,
                forall|j: int| 0 <= j < k ==> best_score <= reply_count(board@, player, #[trigger] all[j]),
            decreases all.len() - k,
        {
            let (start, end) = my_moves[k];
            assert(playable(board@, all[k as int]));
            let mut next = board.copy_state();
            next.take_turn(start, end);
            let opponent_moves = next.board.get_all_moves(player.opposite());
            let score = opponent_moves.len();
            proof {
                assert(all.take(k + 1) =~= all.take(k as int).push(all[k as int]));
                assert forall|i: int| 0 <= i < best_moves@.len() implies all.take(k + 1).contains(#[trigger] best_moves@[i]) by {
                    let t = choose|t: int| 0 <= t < k && all.take(k as int)[t] == best_moves@[i];
                    assert(all.take(k + 1)[t] == best_moves@[i]);
                }
            }
            if score < best_score {
                best_score = score;
                best_moves = Vec::new();
                best_moves.push((start, end));
                assert(all.take(k + 1)[k as int] == (start, end));
            } else if score == best_score {
                best_moves.push((start, end));
                assert(all.take(k + 1)[k as int] == (start, end));
            }
            k += 1;
        }
        assert(all.take(all.len() as int) =~= all);
        // get the moves with the least number of remaining possibilities
        let chosen = choose_one(best_moves.as_slice()).unwrap();
        Poll::Ready(chosen)
    }
}


// Scoring adapted from https://www.chessprogramming.org/Simplified_Evaluation_Function
// The position tables award bonuses or penalties for placing certain pieces on
// certain squares, indexed [x][y] from white's side.

/// Encourage moving the center pawns, so that pieces may be developed, but
/// discourage moving the side pawns, so that castling may be achieved.
pub const PAWN_POSITION_TABLE: [[i32; 8]; 8] = [
    [0, 0, 0, 0, 0, 0, 0, 0],
    [50, 50, 50, 50, 50, 50, 50, 50],
    [10, 10, 20, 30, 30, 20, 10, 10],
    [5, 5, 10, 25, 25, 10, 5, 5],
    [0, 0, 0, 20, 20, 0, 0, 0],
    [5, -5, -10, 0, 0, -10, -5, 5],
    [5, 10, 10, -20, -20, 10, 10, 5],
    [0, 0, 0, 0, 0, 0, 0, 0],
];

/// Encourage the knight to be near the center, to maximize the number of
/// squares it can control.
pub const KNIGHT_POSITION_TABLE: [[i32; 8]; 8] = [
    [-50, -40, -30, -30, -30, -30, -40, -50],
    [-40, -20, 0, 0, 0, 0, -20, -40],
    [-30, 0, 10, 15, 15, 10, 0, -30],
    [-30, 5, 15, 20, 20, 15, 5, -30],
    [-30, 0, 15, 20, 20, 15, 0, -30],
    [-30, 5, 10, 15, 15, 10, 5, -30],
    [-40, -20, 0, 5, 5, 0, -20, -40],
    [-50, -40, -30, -30, -30, -30, -40, -50],
];

/// Encourage the bishop to avoid the sides.
pub const BISHOP_POSITION_TABLE: [[i32; 8]; 8] = [
    [-20, -10, -10, -10, -10, -10, -10, -20],
    [-10, 0, 0, 0, 0, 0, 0, -10],
    [-10, 0, 5, 10, 10, 5, 0, -10],
    [-10, 5, 5, 10, 10, 5, 5, -10],
    [-10, 0, 10, 10, 10, 10, 0, -10],
    [-10, 10, 10, 10, 10, 10, 10, -10],
    [-10, 5, 0, 0, 0, 0, 5, -10],
    [-20, -10, -10, -10, -10, -10, -10, -20],
];

/// Encourage the rook to either defend the king, or to threaten the back
/// ranks for checkmate.
pub const ROOK_POSITION_TABLE: [[i32; 8]; 8] = [
    [0, 0, 0, 0, 0, 0, 0, 0],
    [5, 10, 10, 10, 10, 10, 10, 5],
    [-5, 0, 0, 0, 0, 0, 0, -5],
    [-5, 0, 0, 0, 0, 0, 0, -5],
    [-5, 0, 0, 0, 0, 0, 0, -5],
    [-5, 0, 0, 0, 0, 0, 0, -5],
    [-5, 0, 0, 0, 0, 0, 0, -5],
    [0, 0, 0, 5, 5, 0, 0, 0],
];

/// Encourage the queen to avoid the sides and play around the center.
pub const QUEEN_POSITION_TABLE: [[i32; 8]; 8] = [
    [-20, -10, -10, -5, -5, -10, -10, -20],
    [-10, 0, 0, 0, 0, 0, 0, -10],
    [-10, 0, 5, 5, 5, 5, 0, -10],
    [-5, 0, 5, 5, 5, 5, 0, -5],
    [0, 0, 5, 5, 5, 5, 0, -5],
    [-10, 5, 5, 5, 5, 5, 0, -10],
    [-10, 0, 5, 0, 0, 0, 0, -10],
    [-20, -10, -10, -5, -5, -10, -10, -20],
];

/// Encourage the king to castle and to hide away in the early game.
pub const EARLY_KING_POSITION_TABLE: [[i32; 8]; 8] = [
    [-30, -40, -40, -50, -50, -40, -40, -30],
    [-30, -40, -40, -50, -50, -40, -40, -30],
    [-30, -40, -40, -50, -50, -40, -40, -30],
    [-30, -40, -40, -50, -50, -40, -40, -30],
    [-20, -30, -30, -40, -40, -30, -30, -20],
    [-10, -20, -20, -20, -20, -20, -20, -10],
    [20, 20, 0, 0, 0, 0, 20, 20],
    [20, 30, 10, 0, 0, 10, 30, 20],
];

/// The material worth of a piece and its position bonus at table offsets
/// (ox, oy).
pub open spec fn piece_scores(p: PieceType, ox: int, oy: int) -> (int, int) {
    match p {
        PieceType::Pawn { .. } => (100, PAWN_POSITION_TABLE[ox][oy] as int),
        PieceType::Knight => (320, KNIGHT_POSITION_TABLE[ox][oy] as int),
        PieceType::Bishop => (330, BISHOP_POSITION_TABLE[ox][oy] as int),
        PieceType::Rook => (500, ROOK_POSITION_TABLE[ox][oy] as int),
        PieceType::Queen => (900, QUEEN_POSITION_TABLE[ox][oy] as int),
        PieceType::King => (20000, EARLY_KING_POSITION_TABLE[ox][oy] as int),
    }
}

/// What the square (x, y) adds to the score of `player`: the worth and
/// position bonus of the piece on it, counted for `player` when the piece is
/// its own and against it otherwise. The tables are read upside down for black.
pub open spec fn square_score(b: Board, player: Color, x: int, y: int) -> int {
    match b.tile_at(mk(x, y)).0 {
        None => 0,
        Some(p) => {
            let oy = match player {
                Color::White => y,
                Color::Black => 7 - y,
            };
            let (worth, pos) = piece_scores(p.piece, x, oy);
            if p.color == player {
                worth + pos
            } else {
                -(worth + pos)
            }
        },
    }
}

/// The sum of `square_score` over the squares from (i, j) on (x outer, y
/// inner).
pub open spec fn material_scan(b: Board, player: Color, i: int, j: int) -> int
    decreases 8 - i, 8 - j,
{
    if i < 0 || j < 0 || i >= 8 {
        0
    } else if j >= 8 {
        material_scan(b, player, i + 1, 0)
    } else {
        square_score(b, player, i, j) + material_scan(b, player, i, j + 1)
    }
}

/// The score of a position for `player` at search depth `depth`: an
/// immediate checkmate scores -999_999_999 when `player` is mated and
/// 999_999_999 minus the depth when it mates (shorter mates are better);
/// otherwise the material and position balance, with 400 against the player
/// in check (for it when the other player is in check) and 200 against
/// `player` in a drawn position.
#[verifier::opaque]
pub open spec fn spec_leaf_score(s: StateView, player: Color, depth: int) -> int {
    let my_turn = s.current_player == player;
    match s.checkmate {
        CheckmateState::Checkmate => if my_turn {
            -999_999_999
        } else {
            999_999_999 - depth
        },
        CheckmateState::Normal => material_scan(s.board, player, 0, 0),
        CheckmateState::Check => material_scan(s.board, player, 0, 0) + if my_turn {
            -400int
        } else {
            400int
        },
        _ => material_scan(s.board, player, 0, 0) - 200,
    }
}

proof fn lemma_material_bounds(b: Board, player: Color, i: int, j: int)
    requires
        0 <= i <= 8,
        0 <= j <= 8,
        i == 8 ==> j == 0,
    ensures
        -20050 * (64 - 8 * i - j) <= material_scan(b, player, i, j) <= 20050 * (64 - 8 * i - j),
    decreases 8 - i, 8 - j,
{
    if i >= 8 {
    } else if j >= 8 {
        lemma_material_bounds(b, player, i + 1, 0);
    } else {
        lemma_material_bounds(b, player, i, j + 1);
        let oy = match player {
            Color::White => j,
            Color::Black => 7 - j,
        };
        assert(-50 <= PAWN_POSITION_TABLE[i][oy] <= 50);
        assert(-50 <= KNIGHT_POSITION_TABLE[i][oy] <= 50);
        assert(-50 <= BISHOP_POSITION_TABLE[i][oy] <= 50);
        assert(-50 <= ROOK_POSITION_TABLE[i][oy] <= 50);
        assert(-50 <= QUEEN_POSITION_TABLE[i][oy] <= 50);
        assert(-50 <= EARLY_KING_POSITION_TABLE[i][oy] <= 50);
    }
}

/// A drawn leaf (stalemate or insufficient material) scores its material less
/// 200 for the player; a leaf where the player has mated the other player
/// outranks every leaf that is not one, and a leaf where the player is mated
/// ranks below every other leaf (for depths up to a million plies).
pub proof fn lemma_leaf_score_ranks(s: StateView, t: StateView, player: Color, ds: int, dt: int)
    requires
        0 <= ds <= 1_000_000,
        0 <= dt <= 1_000_000,
    ensures
        (s.checkmate == CheckmateState::Stalemate || s.checkmate == CheckmateState::InsuffientMaterial)
            ==> spec_leaf_score(s, player, ds) == material_scan(s.board, player, 0, 0) - 200,
        (s.checkmate == CheckmateState::Checkmate && s.current_player != player && !(t.checkmate
            == CheckmateState::Checkmate && t.current_player != player)) ==> spec_leaf_score(s, player, ds)
            > spec_leaf_score(t, player, dt),
        (s.checkmate == CheckmateState::Checkmate && s.current_player == player && !(t.checkmate
            == CheckmateState::Checkmate && t.current_player == player)) ==> spec_leaf_score(s, player, ds)
            < spec_leaf_score(t, player, dt),
{
    reveal(spec_leaf_score);
    lemma_material_bounds(s.board, player, 0, 0);
    lemma_material_bounds(t.board, player, 0, 0);
}

/// The value of a tile for ordering moves: -1 for an empty tile, then 1 for a
/// pawn, 2 for a knight or bishop, 3 for a rook, 4 for a queen and 0 for a king.
pub open spec fn spec_value(t: Tile) -> int {
    match t.0 {
        None => -1,
        Some(p) => match p.piece {
            PieceType::Pawn { .. } => 1,
            PieceType::Knight => 2,
            PieceType::Bishop => 2,
            PieceType::Rook => 3,
            PieceType::Queen => 4,
            PieceType::King => 0,
        },
    }
}

pub fn value(tile: &Tile) -> (v: i32)
    ensures
        v == spec_value(*tile),
{
    match tile.0 {
        None => -1,
        Some(piece) => match piece.piece {
            PieceType::Pawn { .. } => 1,
            PieceType::Knight => 2,
            PieceType::Bishop => 2,
            PieceType::Rook => 3,
            PieceType::Queen => 4,
            PieceType::King => 0,
        },
    }
}

/// The order in which the tree search tries moves (smallest first): captures
/// first, the most valuable victim first and then the least valuable attacker
/// (MVV-LVA); then the other moves, the most valuable piece first.
pub open spec fn order_key(b: Board, m: Move) -> int {
    let attacker = b.tile_at(m.0);
    let victim = b.tile_at(m.1);
    match victim.0 {
        None => 10 - spec_value(attacker),
        Some(_) => -(10 * spec_value(victim) - spec_value(attacker)),
    }
}

/// The moves of `s` whose key is `key`, in their order.
pub open spec fn with_key(s: Seq<Move>, b: Board, key: int) -> Seq<Move> {
    s.filter(|m: Move| order_key(b, m) == key)
}

/// The key by which `sort_moves` orders the move from `start` to `end`.
pub fn move_order_key(position: &BoardState, start: BoardCoord, end: BoardCoord) -> (k: i32)
    requires
        on_board_spec(start),
        on_board_spec(end),
    ensures
        k == order_key(position.board, (start, end)),
{
    let attacker = position.get(start);
    let victim = position.get(end);
    match &victim.0 {
        None => 10 - value(attacker),
        Some(_) => -(10 * value(victim) - value(attacker)),
    }
}

/// Sorts the moves with `slice::sort_by_key`, the key being `move_order_key`:
/// a stable sort, so the result is ordered by key, holds the same moves, and
/// keeps the moves of equal key in their former order.
#[verifier::external_body]
fn sort_moves(moves: &mut Vec<Move>, position: &BoardState)
    requires
        forall|k: int| 0 <= k < old(moves)@.len() ==> on_board_spec((#[trigger] old(moves)@[k]).0) && on_board_spec(old(moves)@[k].1),
    ensures
        final(moves)@.to_multiset() == old(moves)@.to_multiset(),
        forall|i: int, j: int| 0 <= i < j < final(moves)@.len() ==> order_key(position.board, #[trigger] final(moves)@[i]) <= order_key(position.board, #[trigger] final(moves)@[j]),
        forall|key: int| #[trigger] with_key(final(moves)@, position.board, key) == with_key(old(moves)@, position.board, key),
{
    moves.sort_by_key(|&(start, end)| move_order_key(position, start, end));
}


/// The position after `m` is played, a pawn that reaches the last rank being
/// promoted to a queen.
#[verifier::opaque]
pub open spec fn child(s: StateView, m: Move) -> StateView {
    let n = spec_take_turn(s, m.0, m.1);
    match n.board.spec_pawn_needs_promotion() {
        Some(c) => spec_promote(n, c, PieceType::Queen),
        None => n,
    }
}

/// The game is over in `s` (see `spec_game_over`).
#[verifier::opaque]
pub open spec fn game_ended(s: StateView) -> bool {
    spec_game_over(s)
}

/// The values the tree search computes: with `moves` None, the value of
/// position `s` for `player`, searched from depth `depth` down to
/// `max_depth` (see `minimax`); with `moves` Some, the best value for the
/// player to move among those moves (see `best_of`).
#[verifier::opaque]
pub open spec fn search_value(
    s: StateView,
    player: Color,
    depth: int,
    max_depth: int,
    moves: Option<Seq<Move>>,
) -> int
    decreases max_depth - depth, (if moves is None {
        1int
    } else {
        0int
    }), (match moves {
        None => 0int,
        Some(ms) => ms.len() as int,
    }),
{
    match moves {
        None => if depth >= max_depth || game_ended(s) {
            spec_leaf_score(s, player, depth)
        } else {
            search_value(s, player, depth, max_depth, Some(spec_all_moves(s.board, s.current_player)))
        },
        Some(ms) => if ms.len() == 0 || depth >= max_depth {
            if s.current_player == player {
                i32::MIN as int
            } else {
                i32::MAX as int
            }
        } else {
            let prev = search_value(s, player, depth, max_depth, Some(ms.drop_last()));
            let v = search_value(child(s, ms.last()), player, depth + 1, max_depth, None);
            if s.current_player == player {
                if v > prev {
                    v
                } else {
                    prev
                }
            } else {
                if v < prev {
                    v
                } else {
                    prev
                }
            }
        },
    }
}

/// The value of position `s` for `player`, searched from depth `depth` down
/// to `max_depth`: the leaf score at `max_depth` or when the game is over;
/// otherwise the best value of the positions after each move of the player to
/// move, best for `player` on its own turn and worst for it on the other
/// player's turn.
pub open spec fn minimax(s: StateView, player: Color, depth: int, max_depth: int) -> int {
    search_value(s, player, depth, max_depth, None)
}

/// The best value for the player to move among the moves `moves` of `s`:
/// the largest when `player` is to move, the smallest otherwise (starting
/// from `i32::MIN` or `i32::MAX`).
pub open spec fn best_of(s: StateView, player: Color, depth: int, max_depth: int, moves: Seq<Move>) -> int {
    search_value(s, player, depth, max_depth, Some(moves))
}

/// The value of the position after `m` in `s`, one level deeper.
pub open spec fn child_value(s: StateView, player: Color, depth: int, max_depth: int, m: Move) -> int {
    minimax(child(s, m), player, depth + 1, max_depth)
}

/// One step of `minimax`.
proof fn lemma_minimax_unfold(s: StateView, player: Color, depth: int, max_depth: int)
    ensures
        minimax(s, player, depth, max_depth) == if depth >= max_depth || game_ended(s) {
            spec_leaf_score(s, player, depth)
        } else {
            best_of(s, player, depth, max_depth, spec_all_moves(s.board, s.current_player))
        },
{
    reveal(search_value);
}

/// One step of `best_of`.
proof fn lemma_best_of_unfold(s: StateView, player: Color, depth: int, max_depth: int, moves: Seq<Move>)
    ensures
        best_of(s, player, depth, max_depth, moves) == if moves.len() == 0 || depth >= max_depth {
            if s.current_player == player {
                i32::MIN as int
            } else {
                i32::MAX as int
            }
        } else {
            let prev = best_of(s, player, depth, max_depth, moves.drop_last());
            let v = child_value(s, player, depth, max_depth, moves.last());
            if s.current_player == player {
                if v > prev {
                    v
                } else {
                    prev
                }
            } else {
                if v < prev {
                    v
                } else {
                    prev
                }
            }
        },
{
    reveal(search_value);
}

/// After `n`, a pawn that awaits promotion can be made a queen.
pub open spec fn promotable(n: StateView) -> bool {
    n.board.spec_pawn_needs_promotion() matches Some(c) ==> {
        &&& on_board_spec(c)
        &&& n.board.spec_check_promote(c, PieceType::Queen) is Ok
        &&& n.board.spec_promoted(c, PieceType::Queen).spec_get_king(opp(n.current_player)) is Some
    }
}

/// The tree search can explore `s` from depth `depth` to `max_depth`: the
/// player to move has a king; and unless `s` is a leaf, it has at least one
/// move, every move can be played (and a resulting promotion made), and the
/// position after each can be explored in turn.
#[verifier::opaque]
pub open spec fn searchable(s: StateView, depth: int, max_depth: int) -> bool
    decreases max_depth - depth,
{
    &&& s.board.spec_get_king(s.current_player) is Some
    &&& (depth < max_depth && !game_ended(s)) ==> {
        let all = spec_all_moves(s.board, s.current_player);
        &&& moves_defined(s.board, s.current_player)
        &&& all.len() > 0
        &&& forall|k: int|
            0 <= k < all.len() ==> {
                &&& playable(s, #[trigger] all[k])
                &&& promotable(spec_take_turn(s, all[k].0, all[k].1))
                &&& searchable(child(s, all[k]), depth + 1, max_depth)
            }
    }
}

/// `searchable`, one level unfolded.
proof fn lemma_searchable_unfold(s: StateView, depth: int, max_depth: int)
    ensures
        searchable(s, depth, max_depth) == {
            &&& s.board.spec_get_king(s.current_player) is Some
            &&& (depth < max_depth && !game_ended(s)) ==> {
                let all = spec_all_moves(s.board, s.current_player);
                &&& moves_defined(s.board, s.current_player)
                &&& all.len() > 0
                &&& forall|k: int|
                    0 <= k < all.len() ==> {
                        &&& playable(s, #[trigger] all[k])
                        &&& promotable(spec_take_turn(s, all[k].0, all[k].1))
                        &&& searchable(child(s, all[k]), depth + 1, max_depth)
                    }
            }
        },
{
    reveal(searchable);
}

/// Whether the tree search can explore `state` from depth `depth` to
/// `max_depth`: exactly `searchable`. It walks the whole game tree to that
/// depth, without pruning.
pub fn can_search(state: &BoardState, depth: usize, max_depth: usize) -> (b: bool)
    ensures
        b == searchable(state@, depth as int, max_depth as int),
    decreases max_depth - depth,
{
    let ghost s = state@;
    proof {
        lemma_searchable_unfold(s, depth as int, max_depth as int);
        reveal(game_ended);
    }
    if state.board.get_king(state.current_player).is_none() {
        return false;
    }
    if depth >= max_depth || state.game_over() {
        return true;
    }
    if !state.board.moves_are_defined(state.current_player) {
        return false;
    }
    let all = state.board.get_all_moves(state.current_player);
    if all.len() == 0 {
        return false;
    }
    let mut k: usize = 0;
    while k < all.len()
        invariant
            0 <= k <= all@.len(),
            depth < max_depth,
            s == state@,
            all@ == spec_all_moves(s.board, s.current_player),
            searchable(s, depth as int, max_depth as int) == (forall|j: int|
                0 <= j < all@.len() ==> {
                    &&& playable(s, #[trigger] all@[j])
                    &&& promotable(spec_take_turn(s, all@[j].0, all@[j].1))
                    &&& searchable(child(s, all@[j]), depth + 1, max_depth as int)
                }),
            forall|j: int|
                0 <= j < k ==> {
                    &&& playable(s, #[trigger] all@[j])
                    &&& promotable(spec_take_turn(s, all@[j].0, all@[j].1))
                    &&& searchable(child(s, all@[j]), depth + 1, max_depth as int)
                },
        decreases all@.len() - k,
    {
        let (start, end) = all[k];
        let mut next = state.copy_state();
        if next.try_take_turn(start, end).is_err() {
            assert(!playable(s, all@[k as int]));
            return false;
        }
        let ghost turned = next@;
        match next.need_promote() {
            Some(c) => {
                if next.try_promote(c, PieceType::Queen).is_err() {
                    assert(!promotable(turned));
                    assert(!promotable(spec_take_turn(s, all@[k as int].0, all@[k as int].1)));
                    return false;
                }
            },
            None => {},
        }
        proof {
            reveal(child);
            assert(next@ == child(s, all@[k as int]));
        }
        if !can_search(&next, depth + 1, max_depth) {
            assert(!searchable(child(s, all@[k as int]), depth + 1, max_depth as int));
            return false;
        }
        k += 1;
    }
    true
}

proof fn lemma_searchable_king(s: StateView, depth: int, max_depth: int)
    requires
        searchable(s, depth, max_depth),
    ensures
        s.board.spec_get_king(s.current_player) is Some,
{
    reveal(searchable);
}

proof fn lemma_searchable_moves(s: StateView, depth: int, max_depth: int)
    requires
        searchable(s, depth, max_depth),
        depth < max_depth,
        !game_ended(s),
    ensures
        moves_defined(s.board, s.current_player),
        spec_all_moves(s.board, s.current_player).len() > 0,
{
    reveal(searchable);
}

proof fn lemma_searchable_step(s: StateView, depth: int, max_depth: int, m: Move)
    requires
        searchable(s, depth, max_depth),
        depth < max_depth,
        !game_ended(s),
        spec_all_moves(s.board, s.current_player).contains(m),
    ensures
        playable(s, m),
        promotable(spec_take_turn(s, m.0, m.1)),
        searchable(child(s, m), depth + 1, max_depth),
{
    reveal(searchable);
    let all = spec_all_moves(s.board, s.current_player);
    let j = choose|j: int| 0 <= j < all.len() && all[j] == m;
    assert(playable(s, all[j]));
}

/// A position that can be searched to some depth can be searched to any
/// smaller depth.
proof fn lemma_searchable_shallower(s: StateView, depth: int, max_depth: int, shallower: int)
    requires
        searchable(s, depth, max_depth),
        shallower <= max_depth,
    ensures
        searchable(s, depth, shallower),
    decreases max_depth - depth,
{
    reveal(searchable);
    if depth < shallower && !game_ended(s) {
        let all = spec_all_moves(s.board, s.current_player);
        assert forall|k: int| 0 <= k < all.len() implies searchable(child(s, #[trigger] all[k]), depth + 1, shallower) by {
            assert(searchable(child(s, all[k]), depth + 1, max_depth));
            lemma_searchable_shallower(child(s, all[k]), depth + 1, max_depth, shallower);
        }
    }
}

/// Swapping the first element with another keeps the same elements.
proof fn lemma_swap_contains(v: Seq<Move>, p: int)
    requires
        0 <= p < v.len(),
    ensures
        forall|m: Move| v.update(0, v[p]).update(p, v[0]).contains(m) <==> v.contains(m),
{
    let w = v.update(0, v[p]).update(p, v[0]);
    assert forall|m: Move| w.contains(m) <==> v.contains(m) by {
        if w.contains(m) {
            let t = choose|t: int| 0 <= t < w.len() && w[t] == m;
            if t == p {
                assert(v[0] == m);
            } else if t == 0 {
                assert(v[p] == m);
            } else {
                assert(v[t] == m);
            }
        }
        if v.contains(m) {
            let t = choose|t: int| 0 <= t < v.len() && v[t] == m;
            if t == 0 {
                assert(w[p] == m);
            } else if t == p {
                assert(w[0] == m);
            } else {
                assert(w[t] == m);
            }
        }
    }
}

/// `best_of` is at least (or at most) the value after each of the moves, and
/// is either its starting bound or the value after one of them.
proof fn lemma_best_of(s: StateView, player: Color, depth: int, max_depth: int, moves: Seq<Move>)
    requires
        depth < max_depth,
    ensures
        s.current_player == player ==> {
            let b = best_of(s, player, depth, max_depth, moves);
            &&& b >= i32::MIN
            &&& forall|k: int|
                0 <= k < moves.len() ==> child_value(s, player, depth, max_depth, #[trigger] moves[k]) <= b
            &&& (b == i32::MIN || exists|k: int|
                0 <= k < moves.len() && child_value(s, player, depth, max_depth, #[trigger] moves[k]) == b)
        },
        s.current_player != player ==> {
            let b = best_of(s, player, depth, max_depth, moves);
            &&& b <= i32::MAX
            &&& forall|k: int|
                0 <= k < moves.len() ==> child_value(s, player, depth, max_depth, #[trigger] moves[k]) >= b
            &&& (b == i32::MAX || exists|k: int|
                0 <= k < moves.len() && child_value(s, player, depth, max_depth, #[trigger] moves[k]) == b)
        },
    decreases moves.len(),
{
    lemma_best_of_unfold(s, player, depth, max_depth, moves);
    if moves.len() > 0 {
        let init = moves.drop_last();
        lemma_best_of(s, player, depth, max_depth, init);
        let last = moves.len() - 1;
        assert(moves[last] == moves.last());
        assert forall|k: int| 0 <= k < init.len() implies #[trigger] moves[k] == init[k] by {}
        let b = best_of(s, player, depth, max_depth, moves);
        let pb = best_of(s, player, depth, max_depth, init);
        let v = child_value(s, player, depth, max_depth, moves[last]);
        lemma_best_of_unfold(s, player, depth, max_depth, moves);
        assert(b == if s.current_player == player {
            if v > pb {
                v
            } else {
                pb
            }
        } else {
            if v < pb {
                v
            } else {
                pb
            }
        });
        if s.current_player == player {
            if b != i32::MIN && b != child_value(s, player, depth, max_depth, moves[last]) {
                assert(b == pb);
                let k = choose|k: int| 0 <= k < init.len() && child_value(s, player, depth, max_depth, #[trigger] init[k]) == pb;
                assert(moves[k] == init[k]);
            }
        } else {
            if b != i32::MAX && b != child_value(s, player, depth, max_depth, moves[last]) {
                assert(b == pb);
                let k = choose|k: int| 0 <= k < init.len() && child_value(s, player, depth, max_depth, #[trigger] init[k]) == pb;
                assert(moves[k] == init[k]);
            }
        }
    }
}

/// `best_of` depends only on which moves are listed, not on their order.
proof fn lemma_best_of_same_moves(
    s: StateView,
    player: Color,
    depth: int,
    max_depth: int,
    a: Seq<Move>,
    b: Seq<Move>,
)
    requires
        depth < max_depth,
        forall|m: Move| a.contains(m) <==> b.contains(m),
    ensures
        best_of(s, player, depth, max_depth, a) == best_of(s, player, depth, max_depth, b),
{
    lemma_best_of(s, player, depth, max_depth, a);
    lemma_best_of(s, player, depth, max_depth, b);
    let x = best_of(s, player, depth, max_depth, a);
    let y = best_of(s, player, depth, max_depth, b);
    if s.current_player == player {
        if x != i32::MIN {
            let k = choose|k: int| 0 <= k < a.len() && child_value(s, player, depth, max_depth, #[trigger] a[k]) == x;
            assert(a.contains(a[k]));
            let j = choose|j: int| 0 <= j < b.len() && b[j] == a[k];
        }
        if y != i32::MIN {
            let k = choose|k: int| 0 <= k < b.len() && child_value(s, player, depth, max_depth, #[trigger] b[k]) == y;
            assert(b.contains(b[k]));
            let j = choose|j: int| 0 <= j < a.len() && a[j] == b[k];
        }
    } else {
        if x != i32::MAX {
            let k = choose|k: int| 0 <= k < a.len() && child_value(s, player, depth, max_depth, #[trigger] a[k]) == x;
            assert(a.contains(a[k]));
            let j = choose|j: int| 0 <= j < b.len() && b[j] == a[k];
        }
        if y != i32::MAX {
            let k = choose|k: int| 0 <= k < b.len() && child_value(s, player, depth, max_depth, #[trigger] b[k]) == y;
            assert(b.contains(b[k]));
            let j = choose|j: int| 0 <= j < a.len() && a[j] == b[k];
        }
    }
}

/// Helper state of `TreeSearchPlayer`: the search parameters and what the
/// previous searches learned.
#[derive(Debug, Clone)]
pub struct TreeSearch {
    /// Max number of plys to search.
    max_depth: usize,
    /// The "expected" sequence of moves, has length of `max_depth`
    principal_variation: Vec<Move>,
    /// For debugging. Counts how many branches were "generated" (were seen by
    /// `get_all_moves()`); saturates at `usize::MAX`.
    total_branches: usize,
    /// For debugging. Counts how many branches were actually searched (has
    /// `score()` called on them); saturates at `usize::MAX`.
    branches_searched: usize,
}

/// The leaf scores lie strictly between `i32::MIN` and `i32::MAX`.
proof fn lemma_leaf_bounds(s: StateView, player: Color, depth: int)
    requires
        0 <= depth <= i32::MAX,
    ensures
        i32::MIN < spec_leaf_score(s, player, depth) < i32::MAX,
{
    reveal(spec_leaf_score);
    lemma_material_bounds(s.board, player, 0, 0);
}

impl TreeSearch {
    /// Iterative deepening: searches `position` for `player` to depth 1, 2,
    /// ... up to `max_depth` (each search starting with the principal moves
    /// the previous one found), and returns the score and move of the deepest
    /// search: the minimax value of the position and a move that reaches it.
    /// With a `max_depth` of 0 nothing is searched and (0, ((-1, -1), (-1, -1)))
    /// comes back; when the game is already over, the move is
    /// ((-2, -2), (-2, -2)).
    fn search(&mut self, position: &BoardState, player: Color) -> (r: (i32, Move))
        requires
            old(self).max_depth <= old(self).principal_variation@.len(),
            old(self).max_depth <= i32::MAX,
            searchable(position@, 0, old(self).max_depth as int),
        ensures
            final(self).max_depth == old(self).max_depth,
            final(self).principal_variation@.len() == old(self).principal_variation@.len(),
            old(self).max_depth == 0 ==> r == (0i32, (BoardCoord(-1i8, -1i8), BoardCoord(-1i8, -1i8))),
            old(self).max_depth >= 1 ==> r.0 == minimax(position@, player, 0, old(self).max_depth as int),
            old(self).max_depth >= 1 && !game_ended(position@) ==> spec_all_moves(
                position.board,
                position.current_player,
            ).contains(r.1) && child_value(position@, player, 0, old(self).max_depth as int, r.1) == r.0,
            old(self).max_depth >= 1 && game_ended(position@) ==> r.1 == (
            BoardCoord(-2i8, -2i8),
            BoardCoord(-2i8, -2i8),
            ),
    {
        let max_depth = self.max_depth;
        let ghost pv_len = self.principal_variation@.len();
        let mut result: (i32, Move, i32, i32) = (0, (BoardCoord(-1i8, -1i8), BoardCoord(-1i8, -1i8)), -1, -1);
        let mut i: usize = 1;
        while i <= max_depth
            invariant
                1 <= i <= max_depth + 1,
                max_depth == old(self).max_depth,
                max_depth <= i32::MAX,
                max_depth <= pv_len,
                self.principal_variation@.len() == pv_len,
                searchable(position@, 0, max_depth as int),
                i == 1 ==> result == (0i32, (BoardCoord(-1i8, -1i8), BoardCoord(-1i8, -1i8)), -1i32, -1i32)
                    && self.max_depth == max_depth,
                i > 1 ==> self.max_depth == i - 1 && result.0 == minimax(position@, player, 0, i - 1)
                    && (!game_ended(position@) ==> spec_all_moves(position.board, position.current_player).contains(result.1)
                    && child_value(position@, player, 0, i - 1, result.1) == result.0)
                    && (game_ended(position@) ==> result.1 == (BoardCoord(-2i8, -2i8), BoardCoord(-2i8, -2i8))),
            decreases max_depth + 1 - i,
        {
            self.max_depth = i;
            self.total_branches = 0;
            self.branches_searched = 0;
            proof {
                lemma_searchable_shallower(position@, 0, max_depth as int, i as int);
            }
            result = self.score(position, 0, i32::MIN, i32::MAX, player);
            i += 1;
        }
        (result.0, result.1)
    }

    /// Alpha-beta search of `position` for `player` from `current_depth` down
    /// to `max_depth`, within the window (`alpha`, `beta`). The score returned
    /// is the minimax value when it lies inside the window; at or below
    /// `alpha` it bounds the value from above, at or above `beta` from below.
    /// Inside the window, the move returned is one after which the position
    /// has that value. Moves are tried captures first (see `order_key`),
    /// the principal move of this depth before all; the best move found is
    /// recorded as the new principal move.
    fn score(
        &mut self,
        position: &BoardState,
        current_depth: usize,
        alpha: i32,
        beta: i32,
        player: Color,
    ) -> (r: (i32, Move, i32, i32))
        requires
            old(self).max_depth <= old(self).principal_variation@.len(),
            old(self).max_depth <= i32::MAX,
            current_depth <= old(self).max_depth,
            alpha < beta,
            searchable(position@, current_depth as int, old(self).max_depth as int),
        ensures
            final(self).max_depth == old(self).max_depth,
            final(self).principal_variation@.len() == old(self).principal_variation@.len(),
            i32::MIN < r.0 < i32::MAX,
            ({
                let v = minimax(position@, player, current_depth as int, old(self).max_depth as int);
                &&& r.0 <= alpha ==> v <= r.0
                &&& r.0 >= beta ==> v >= r.0
                &&& alpha < r.0 < beta ==> v == r.0
            }),
            (alpha < r.0 < beta && !(current_depth >= old(self).max_depth || game_ended(position@)))
                ==> spec_all_moves(position.board, position.current_player).contains(r.1)
                && child_value(position@, player, current_depth as int, old(self).max_depth as int, r.1)
                == r.0,
            (current_depth >= old(self).max_depth || game_ended(position@)) ==> r.1 == (
            BoardCoord(-2i8, -2i8),
            BoardCoord(-2i8, -2i8),
            ),
        decreases old(self).max_depth - current_depth,
    {
        let ghost pv_len = self.principal_variation@.len();
        let ghost s = position@;
        let ghost d = current_depth as int;
        let ghost md = self.max_depth as int;
        let alpha0 = alpha;
        let beta0 = beta;
        let mut alpha = alpha;
        let mut beta = beta;
        proof {
            reveal(game_ended);
            lemma_searchable_king(s, d, md);
            lemma_minimax_unfold(s, player, d, md);
        }
        // Score the leaf node if we hit max depth or the game would end
        if current_depth >= self.max_depth || position.game_over() {
            let score = self.score_leaf(current_depth, position, player);
            proof {
                lemma_leaf_bounds(s, player, d);
            }
            return (score, (BoardCoord(-2i8, -2i8), BoardCoord(-2i8, -2i8)), alpha, beta);
        }
        let ghost all = spec_all_moves(position.board, position.current_player);
        proof {
            lemma_searchable_moves(s, d, md);
        }
        let mut moves = position.board.get_all_moves(position.current_player);
        proof {
            crate::rules::lemma_all_moves_on_board(position.board, position.current_player);
        }
        // We sort here to make the AI check the most "useful" moves first. This
        // helps in causing an earlier alpha or beta cutoff, thereby reducing the
        // number of branches we have to check.
        sort_moves(&mut moves, position);
        let ghost sorted = moves@;
        proof {
            all.to_multiset_ensures();
            sorted.to_multiset_ensures();
            assert forall|m: Move| sorted.contains(m) <==> all.contains(m) by {
                assert(sorted.contains(m) <==> sorted.to_multiset().count(m) > 0);
                assert(all.contains(m) <==> all.to_multiset().count(m) > 0);
            }
        }
        self.total_branches = self.total_branches.saturating_add(moves.len());
        let my_turn = player == position.current_player;
        let mut best_score = if my_turn {
            i32::MIN
        } else {
            i32::MAX
        };
        let mut best_move = self.principal_variation[current_depth];
        // First, try checking the principal moves, to get a better value for
        // alpha and beta
        let principal_move = self.principal_variation[current_depth];
        let mut p: usize = 0;
        while p < moves.len()
            invariant
                0 <= p <= moves@.len(),
                forall|t: int| 0 <= t < p ==> moves@[t] != principal_move,
            decreases moves@.len() - p,
        {
            let candidate = moves[p];
            if candidate.0 == principal_move.0 && candidate.1 == principal_move.1 {
                break;
            }
            p += 1;
        }
        if p < moves.len() {
            let first = moves[0];
            let found = moves[p];
            moves.set(0, found);
            moves.set(p, first);
            proof {
                lemma_swap_contains(sorted, p as int);
            }
        }
        let ghost order = moves@;
        proof {
            lemma_best_of_unfold(s, player, d, md, order.take(0));
        }
        // Then, for each of our moves, try making it and see which one has the
        // best score
        let mut i: usize = 0;
        let mut k: usize = 0;
        let mut cut = false;
        while k < moves.len() && !cut
            invariant
                s == position@,
                d == current_depth,
                md == self.max_depth,
                d < md,
                md <= i32::MAX,
                md <= self.principal_variation@.len(),
                self.principal_variation@.len() == pv_len,
                self.max_depth == old(self).max_depth,
                !game_ended(s),
                searchable(s, d, md),
                all == spec_all_moves(s.board, s.current_player),
                moves@ == order,
                forall|m: Move| order.contains(m) <==> all.contains(m),
                0 <= k <= order.len(),
                i <= k,
                my_turn == (player == s.current_player),
                k == 0 ==> best_score == if my_turn {
                    i32::MIN
                } else {
                    i32::MAX
                },
                k > 0 ==> i32::MIN < best_score < i32::MAX && order.take(k as int).contains(best_move),
                my_turn ==> beta == beta0,
                !my_turn ==> alpha == alpha0,
                !cut && my_turn ==> {
                    &&& alpha == if best_score > alpha0 { best_score } else { alpha0 }
                    &&& alpha < beta
                    &&& best_score <= alpha0 ==> best_of(s, player, d, md, order.take(k as int)) <= best_score
                    &&& best_score > alpha0 ==> best_score == best_of(s, player, d, md, order.take(k as int))
                        && child_value(s, player, d, md, best_move) == best_score
                },
                !cut && !my_turn ==> {
                    &&& beta == if best_score < beta0 { best_score } else { beta0 }
                    &&& alpha < beta
                    &&& best_score >= beta0 ==> best_of(s, player, d, md, order.take(k as int)) >= best_score
                    &&& best_score < beta0 ==> best_score == best_of(s, player, d, md, order.take(k as int))
                        && child_value(s, player, d, md, best_move) == best_score
                },
                cut && my_turn ==> best_score >= beta0 && exists|t: int| 0 <= t < order.len() && child_value(s, player, d, md, #[trigger] order[t]) >= best_score,
                cut && !my_turn ==> best_score <= alpha0 && exists|t: int| 0 <= t < order.len() && child_value(s, player, d, md, #[trigger] order[t]) <= best_score,
            decreases order.len() - k,
        {
            let (start, end) = moves[k];
            let ghost m = order[k as int];
            proof {
                assert(all.contains(m));
            }
            proof {
                lemma_searchable_step(s, d, md, m);
            }
            let mut next_position = position.copy_state();
            next_position.take_turn(start, end);
            // Assuming the player or ourself always promotes to a queen.
            if let Some(coord) = next_position.need_promote() {
                next_position.promote(coord, PieceType::Queen);
            }
            proof {
                reveal(child);
                assert(next_position@ == child(s, m));
            }
            let (score, _, _, _) = self.score(&next_position, current_depth + 1, alpha, beta, player);
            proof {
                lemma_best_of_unfold(s, player, d, md, order.take(k + 1));
                assert(child_value(s, player, d, md, m) == minimax(child(s, m), player, d + 1, md));
                assert(order.take(k + 1).drop_last() =~= order.take(k as int));
                assert(order.take(k + 1).last() == m);
                assert(best_of(s, player, d, md, order.take(k + 1)) == {
                    let prev = best_of(s, player, d, md, order.take(k as int));
                    let v = child_value(s, player, d, md, m);
                    if my_turn {
                        if v > prev { v } else { prev }
                    } else {
                        if v < prev { v } else { prev }
                    }
                });
                assert(order.take(k + 1).contains(m)) by {
                    assert(order.take(k + 1)[k as int] == m);
                }
                assert forall|x: Move| order.take(k as int).contains(x) implies order.take(k + 1).contains(x) by {
                    let t = choose|t: int| 0 <= t < k && order.take(k as int)[t] == x;
                    assert(order.take(k + 1)[t] == x);
                }
            }
            if my_turn {
                // if it is our turn, pick our best move
                if best_score < score {
                    if alpha < score {
                        alpha = score;
                    }
                    best_score = score;
                    best_move = (start, end);
                    if alpha >= beta {
                        // the move we just found is better than the worst
                        // outcome our opponent can force onto us, so no
                        // further move needs to be searched
                        cut = true;
                    }
                }
            } else {
                // if enemy turn, assume they will pick the worst move for us
                if best_score > score {
                    if beta > score {
                        beta = score;
                    }
                    best_score = score;
                    best_move = (start, end);
                    if alpha >= beta {
                        // the opponent can force a worse outcome than the
                        // best-so-far move, so no move in this branch can be
                        // better
                        cut = true;
                    }
                }
            }
            if !cut {
                i += 1;
            }
            k += 1;
        }
        proof {
            let v = minimax(s, player, d, md);
            assert(v == best_of(s, player, d, md, all));
            lemma_best_of(s, player, d, md, all);
            if !cut {
                assert(order.take(order.len() as int) =~= order);
                lemma_best_of_same_moves(s, player, d, md, order, all);
                if k > 0 {
                    let t = choose|t: int| 0 <= t < order.take(k as int).len() && order.take(k as int)[t] == best_move;
                    assert(order[t] == best_move);
                    assert(all.contains(best_move));
                }
            } else if my_turn {
                let t = choose|t: int| 0 <= t < order.len() && child_value(s, player, d, md, #[trigger] order[t]) >= best_score;
                assert(all.contains(order[t]));
                let j = choose|j: int| 0 <= j < all.len() && all[j] == order[t];
                assert(child_value(s, player, d, md, all[j]) <= v);
            } else {
                let t = choose|t: int| 0 <= t < order.len() && child_value(s, player, d, md, #[trigger] order[t]) <= best_score;
                assert(all.contains(order[t]));
                let j = choose|j: int| 0 <= j < all.len() && all[j] == order[t];
                assert(child_value(s, player, d, md, all[j]) >= v);
            }
        }
        // Add the best moves found so far to the principal move list
        self.principal_variation.set(current_depth, best_move);
        self.branches_searched = self.branches_searched.saturating_add(i);
        (best_score, best_move, alpha, beta)
    }

    /// The score of a leaf of the search, for `player` (see `spec_leaf_score`).
    fn score_leaf(&mut self, current_depth: usize, position: &BoardState, player: Color) -> (r: i32)
        requires
            current_depth <= i32::MAX,
        ensures
            r == spec_leaf_score(position@, player, current_depth as int),
            *final(self) == *old(self),
    {
        reveal(spec_leaf_score);
        let my_turn = position.current_player == player;
        // A bonus is applied when possible to make the AI prefer checkmate
        let bonus: i32 = match position.checkmate {
            CheckmateState::Normal => 0,
            CheckmateState::Check => {
                if my_turn {
                    -400
                } else {
                    400
                }
            },
            CheckmateState::Checkmate => {
                if my_turn {
                    return -999_999_999;
                } else {
                    // Subtracting the current_depth makes the AI prefer shorter
                    // checkmates over longer ones.
                    return 999_999_999 - current_depth as i32;
                }
            },
            // A stalemate is draw, and so we try to make the bot play to win when
            // possible.
            CheckmateState::InsuffientMaterial | CheckmateState::Stalemate => -200,
        };
        let mut my_piece_score: i32 = 0;
        let mut my_position_score: i32 = 0;
        let mut their_piece_score: i32 = 0;
        let mut their_position_score: i32 = 0;
        let mut i: i8 = 0;
        while i < 8
            invariant
                0 <= i <= 8,
                0 <= my_piece_score <= 160000 * i,
                0 <= their_piece_score <= 160000 * i,
                -400 * i <= my_position_score <= 400 * i,
                -400 * i <= their_position_score <= 400 * i,
                my_piece_score + my_position_score - (their_piece_score + their_position_score)
                    + material_scan(position.board, player, i as int, 0) == material_scan(
                    position.board,
                    player,
                    0,
                    0,
                ),
            decreases 8 - i,
        {
            let mut j: i8 = 0;
            while j < 8
                invariant
                    0 <= i < 8,
                    0 <= j <= 8,
                    0 <= my_piece_score <= 160000 * i + 20000 * j,
                    0 <= their_piece_score <= 160000 * i + 20000 * j,
                    -(400 * i + 50 * j) <= my_position_score <= (400 * i + 50 * j),
                    -(400 * i + 50 * j) <= their_position_score <= (400 * i + 50 * j),
                    my_piece_score + my_position_score - (their_piece_score + their_position_score)
                        + material_scan(position.board, player, i as int, j as int) == material_scan(
                        position.board,
                        player,
                        0,
                        0,
                    ),
                decreases 8 - j,
            {
                let coord = BoardCoord(i, j);
                // offsets into the position tables
                // we flip them vertically when playing as black because the
                // tables are constructed for white's side
                let (offset_x, offset_y): (usize, usize) = match player {
                    Color::White => (i as usize, j as usize),
                    Color::Black => (i as usize, 7 - j as usize),
                };
                let tile = position.get(coord);
                if tile.0.is_none() {
                    j += 1;
                    continue;
                }
                let piece = tile.0.unwrap();
                // Values here are also taken from
                // https://www.chessprogramming.org/Simplified_Evaluation_Function
                let (piece_score, position_score): (i32, i32) = match piece.piece {
                    PieceType::Pawn { .. } => (100, PAWN_POSITION_TABLE[offset_x][offset_y]),
                    PieceType::Knight => (320, KNIGHT_POSITION_TABLE[offset_x][offset_y]),
                    PieceType::Bishop => (330, BISHOP_POSITION_TABLE[offset_x][offset_y]),
                    PieceType::Rook => (500, ROOK_POSITION_TABLE[offset_x][offset_y]),
                    PieceType::Queen => (900, QUEEN_POSITION_TABLE[offset_x][offset_y]),
                    PieceType::King => (20000, EARLY_KING_POSITION_TABLE[offset_x][offset_y]),
                };
                assert(-50 <= position_score <= 50);
                let my_piece = piece.color == player;
                if my_piece {
                    my_piece_score += piece_score;
                    my_position_score += position_score;
                } else {
                    their_piece_score += piece_score;
                    their_position_score += position_score;
                }
                j += 1;
            }
            i += 1;
        }
        proof {
            lemma_material_bounds(position.board, player, 0, 0);
        }
        my_piece_score + my_position_score - (their_piece_score + their_position_score) + bonus
    }
}


/// A player that searches the game tree (alpha-beta search with iterative
/// deepening) to a fixed depth.
#[derive(Debug, Clone)]
pub struct TreeSearchPlayer {
    state: TreeSearch,
}

impl TreeSearchPlayer {
    /// The depth the player searches to.
    pub closed spec fn depth(&self) -> nat {
        self.state.max_depth as nat
    }

    /// The principal moves found so far, one per depth.
    pub closed spec fn principal(&self) -> Seq<Move> {
        self.state.principal_variation@
    }

    /// A player searching `max_depth` plies, with no principal move known yet
    /// (each entry is ((-1, -1), (-1, -1))).
    pub fn new(max_depth: usize) -> (p: TreeSearchPlayer)
        ensures
            p.depth() == max_depth,
            p.principal() == Seq::new(max_depth as nat, |i: int| (BoardCoord(-1i8, -1i8), BoardCoord(-1i8, -1i8))),
    {
        let unknown = (BoardCoord(-1i8, -1i8), BoardCoord(-1i8, -1i8));
        let mut principal_variation: Vec<Move> = Vec::new();
        let mut k: usize = 0;
        while k < max_depth
            invariant
                0 <= k <= max_depth,
                principal_variation@ =~= Seq::new(k as nat, |i: int| unknown),
            decreases max_depth - k,
        {
            principal_variation.push(unknown);
            k += 1;
        }
        let p = TreeSearchPlayer {
            state: TreeSearch { max_depth, principal_variation, total_branches: 0, branches_searched: 0 },
        };
        assert(p.principal() =~= Seq::new(max_depth as nat, |i: int| (BoardCoord(-1i8, -1i8), BoardCoord(-1i8, -1i8))));
        p
    }

    /// Searches `board` for `player` and returns the score and the move found
    /// (see `TreeSearch::search`): the minimax value of the position to the
    /// player's depth, and a move of the player to move that reaches it. This
    /// is what the player runs, away from the caller, to answer `next_move`.
    pub fn think(&mut self, board: &BoardState, player: Color) -> (r: (i32, Move))
        requires
            old(self).depth() <= old(self).principal().len(),
            old(self).depth() <= i32::MAX,
            searchable(board@, 0, old(self).depth() as int),
        ensures
            final(self).depth() == old(self).depth(),
            final(self).principal().len() == old(self).principal().len(),
            old(self).depth() == 0 ==> r == (0i32, (BoardCoord(-1i8, -1i8), BoardCoord(-1i8, -1i8))),
            old(self).depth() >= 1 ==> r.0 == minimax(board@, player, 0, old(self).depth() as int),
            old(self).depth() >= 1 && !game_ended(board@) ==> spec_all_moves(
                board.board,
                board.current_player,
            ).contains(r.1) && child_value(board@, player, 0, old(self).depth() as int, r.1) == r.0,
            old(self).depth() >= 1 && game_ended(board@) ==> r.1 == (
            BoardCoord(-2i8, -2i8),
            BoardCoord(-2i8, -2i8),
            ),
    {
        self.state.search(board, player)
    }
}

} // verus!
