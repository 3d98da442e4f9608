//! The elementary actions of a turn (`basic_actions`), played one after the
//! other, leave the same pieces on the board as the turn itself.
use vstd::prelude::*;

use crate::board::{dir, mk, on_board_spec, same_kind, Board, BoardCoord, Tile};
use crate::invariants::lemma_lunge_path_empty;
use crate::rules::side_file;
use crate::state::{
    single_king, spec_basic_actions, spec_check_turn, spec_move_type, spec_take_turn, turn_board,
    turn_checkable, BasicAction, MoveType, StateView,
};

verus! {

/// The board after one elementary action: a move moves (and marks as moved)
/// the piece, a removal empties the square, a change puts the new piece there.
pub open spec fn apply_action(b: Board, a: BasicAction) -> Board {
    match a {
        BasicAction::Move { start, end } => b.spec_move(start, end),
        BasicAction::Remove { coord } => b.spec_set(coord, Tile(None)),
        BasicAction::Change { coord, new_piece } => b.spec_set(coord, Tile(Some(new_piece))),
    }
}

/// The board after the actions, in their order.
pub open spec fn apply_actions(b: Board, acts: Seq<BasicAction>) -> Board
    decreases acts.len(),
{
    if acts.len() == 0 {
        b
    } else {
        apply_actions(apply_action(b, acts[0]), acts.skip(1))
    }
}

/// The two boards hold pieces of the same color and kind on the same
/// squares (whether a piece has moved, or a pawn has just lunged, aside).
pub open spec fn same_pieces(a: Board, b: Board) -> bool {
    forall|c: BoardCoord|
        on_board_spec(c) ==> match ((#[trigger] a.tile_at(c)).0, b.tile_at(c).0) {
            (None, None) => true,
            (Some(p), Some(q)) => p.color == q.color && same_kind(p.piece, q.piece),
            _ => false,
        }
}

proof fn lemma_same_refl_cleared(b: Board)
    ensures
        same_pieces(b, b.spec_cleared()),
        same_pieces(b.spec_cleared(), b),
{
    broadcast use crate::board::lemma_board_from;

    assert forall|c: BoardCoord| on_board_spec(c) implies match ((#[trigger] b.tile_at(c)).0, b.spec_cleared().tile_at(c).0) {
        (None, None) => true,
        (Some(p), Some(q)) => p.color == q.color && same_kind(p.piece, q.piece),
        _ => false,
    } by {
        assert(b.spec_cleared().tile_at(c) == crate::board::with_just_lunged(b.tile_at(c), false));
    }
    assert forall|c: BoardCoord| on_board_spec(c) implies match ((#[trigger] b.spec_cleared().tile_at(c)).0, b.tile_at(c).0) {
        (None, None) => true,
        (Some(p), Some(q)) => p.color == q.color && same_kind(p.piece, q.piece),
        _ => false,
    } by {
        assert(b.spec_cleared().tile_at(c) == crate::board::with_just_lunged(b.tile_at(c), false));
    }
}

proof fn lemma_same_trans(a: Board, b: Board, c: Board)
    requires
        same_pieces(a, b),
        same_pieces(b, c),
    ensures
        same_pieces(a, c),
{
    assert forall|d: BoardCoord| on_board_spec(d) implies match ((#[trigger] a.tile_at(d)).0, c.tile_at(d).0) {
        (None, None) => true,
        (Some(p), Some(q)) => p.color == q.color && same_kind(p.piece, q.piece),
        _ => false,
    } by {
        assert(on_board_spec(d) ==> match (a.tile_at(d).0, b.tile_at(d).0) {
            (None, None) => true,
            (Some(p), Some(q)) => p.color == q.color && same_kind(p.piece, q.piece),
            _ => false,
        });
        assert(on_board_spec(d) ==> match (b.tile_at(d).0, c.tile_at(d).0) {
            (None, None) => true,
            (Some(p), Some(q)) => p.color == q.color && same_kind(p.piece, q.piece),
            _ => false,
        });
    }
}

proof fn lemma_same_move(a: Board, b: Board, start: BoardCoord, end: BoardCoord)
    requires
        on_board_spec(start),
        on_board_spec(end),
        same_pieces(a, b),
    ensures
        same_pieces(a.spec_move(start, end), b.spec_move(start, end)),
{
    broadcast use crate::board::lemma_spec_set;

    let am = a.spec_move(start, end);
    let bm = b.spec_move(start, end);
    assert forall|c: BoardCoord| on_board_spec(c) implies match ((#[trigger] am.tile_at(c)).0, bm.tile_at(c).0) {
        (None, None) => true,
        (Some(p), Some(q)) => p.color == q.color && same_kind(p.piece, q.piece),
        _ => false,
    } by {
        assert(on_board_spec(start) ==> match (a.tile_at(start).0, b.tile_at(start).0) {
            (None, None) => true,
            (Some(p), Some(q)) => p.color == q.color && same_kind(p.piece, q.piece),
            _ => false,
        });
        assert(on_board_spec(c) ==> match (a.tile_at(c).0, b.tile_at(c).0) {
            (None, None) => true,
            (Some(p), Some(q)) => p.color == q.color && same_kind(p.piece, q.piece),
            _ => false,
        });
    }
}

proof fn lemma_same_lunge_flag(b: Board, c0: BoardCoord)
    requires
        on_board_spec(c0),
    ensures
        same_pieces(b, b.spec_set(c0, crate::board::with_just_lunged(b.tile_at(c0), true))),
{
    broadcast use crate::board::lemma_spec_set;
}

/// Playing the actions `basic_actions` lists for a turn that `check_turn`
/// accepts, on a board where the player to move has a single king, leaves the
/// same pieces as the turn; a castle, a capture and an en passant are two
/// actions, any other move one.
pub proof fn lemma_actions_replay_turn(s: StateView, start: BoardCoord, end: BoardCoord)
    requires
        single_king(s.board, s.current_player),
        turn_checkable(s, start, end),
        spec_check_turn(s, start, end) is Ok,
    ensures
        same_pieces(
            apply_actions(s.board, spec_basic_actions(s.board, start, end)),
            spec_take_turn(s, start, end).board,
        ),
        spec_basic_actions(s.board, start, end).len() == match spec_move_type(s.board, start, end) {
            MoveType::Castle(_, _) | MoveType::Capture | MoveType::EnPassant(_) => 2int,
            _ => 1int,
        },
{
    broadcast use crate::board::lemma_spec_set;

    reveal_with_fuel(apply_actions, 3);
    let b = s.board;
    let acts = spec_basic_actions(b, start, end);
    let after = turn_board(b, start, end).0;
    assert(after == spec_take_turn(s, start, end).board);
    assert(b.spec_pawn_needs_promotion() is None);
    let cb = b.spec_cleared();
    lemma_same_refl_cleared(b);
    match spec_move_type(b, start, end) {
        MoveType::Castle(color, side) => {
            let r = crate::rules::first_rank(color);
            let (king_end, rook_end) = match side {
                crate::rules::BoardSide::Queenside => (2int, 3int),
                crate::rules::BoardSide::Kingside => (6int, 5int),
            };
            let ks = mk(4, r);
            assert(on_board_spec(ks));
            assert(b.tile_at(ks).spec_is(color, crate::board::PieceType::King));
            assert(b.tile_at(start).spec_is(color, crate::board::PieceType::King));
            assert(start == ks);
            assert(end == mk(king_end, r));
            let rs = mk(crate::rules::rook_file(side), r);
            let re = mk(rook_end, r);
            assert(on_board_spec(end) && on_board_spec(rs) && on_board_spec(re));
            assert(acts.skip(1) =~= seq![BasicAction::Move { start: rs, end: re }]);
            assert(acts.skip(1).skip(1) =~= Seq::<BasicAction>::empty());
            assert(apply_actions(b, acts) == b.spec_move(start, end).spec_move(rs, re));
            assert(after == cb.spec_move(start, end).spec_move(rs, re));
            lemma_same_move(b, cb, start, end);
            lemma_same_move(b.spec_move(start, end), cb.spec_move(start, end), rs, re);
        },
        MoveType::Normal => {
            assert(acts.skip(1) =~= Seq::<BasicAction>::empty());
            assert(apply_actions(b, acts) == b.spec_move(start, end));
            lemma_same_move(b, cb, start, end);
        },
        MoveType::Capture => {
            assert(acts.skip(1) =~= seq![BasicAction::Move { start, end }]);
            assert(acts.skip(1).skip(1) =~= Seq::<BasicAction>::empty());
            let left = b.spec_set(end, Tile(None)).spec_move(start, end);
            assert(apply_actions(b, acts) == left);
            assert(forall|c: BoardCoord| on_board_spec(c) ==> #[trigger] left.tile_at(c) == b.spec_move(start, end).tile_at(c));
            crate::board::lemma_board_ext(left, b.spec_move(start, end));
            lemma_same_move(b, cb, start, end);
        },
        MoveType::Lunge => {
            lemma_lunge_path_empty(s, start, end);
            assert(acts.skip(1) =~= Seq::<BasicAction>::empty());
            assert(apply_actions(b, acts) == b.spec_move(start, end));
            crate::board::lemma_board_from(|c: BoardCoord| crate::board::with_just_lunged(b.tile_at(c), false), start);
            assert(after == cb.spec_lunge(start));
            let lb = cb.spec_set(start, crate::board::with_just_lunged(cb.tile_at(start), true));
            assert(after == lb.spec_move(start, end));
            lemma_same_lunge_flag(cb, start);
            lemma_same_trans(b, cb, lb);
            lemma_same_move(b, lb, start, end);
        },
        MoveType::EnPassant(side) => {
            let color = b.tile_at(start).0->Some_0.color;
            let cap = mk(side_file(start.0 as int, side), start.1 as int);
            let cc = mk(end.0 as int, end.1 - dir(color));
            assert(cap == cc);
            assert(on_board_spec(cap));
            assert(acts.skip(1) =~= seq![BasicAction::Move { start, end }]);
            assert(acts.skip(1).skip(1) =~= Seq::<BasicAction>::empty());
            let left = b.spec_set(cap, Tile(None)).spec_move(start, end);
            assert(apply_actions(b, acts) == left);
            let m2 = b.spec_move(start, end).spec_set(cc, Tile(None));
            assert(forall|c: BoardCoord| on_board_spec(c) ==> #[trigger] left.tile_at(c) == m2.tile_at(c));
            crate::board::lemma_board_ext(left, m2);
            assert(after == m2.spec_cleared());
            lemma_same_refl_cleared(m2);
        },
    }
}

} // verus!
