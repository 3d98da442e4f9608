//! What every turn and every promotion keeps of a board: each color has at
//! most one king, and the square a pawn that has just lunged passed over is
//! empty. The starting position has both, so every game played from it does.
use vstd::prelude::*;

use crate::board::{dir, mk, on_board_spec, on_board_xy, Board, BoardCoord, Color, PieceType, Tile};
use crate::moves::{pawn_moves, pseudo_moves, scale};
use crate::rules::{legal_moves, lemma_keep_safe_subset, spec_castle, spec_move_list};
use crate::state::{
    lemma_listed_moves_accepted, lunges_consistent, promotion_playable, single_king, spec_check_turn, spec_move_type,
    spec_promote, spec_take_turn, turn_board, turn_checkable, MoveType, StateView,
};
use crate::text::initial_tile;

verus! {

/// Each color has at most one king, and the square behind every pawn that has
/// just lunged is empty.
pub open spec fn sound_board(b: Board) -> bool {
    &&& single_king(b, Color::White)
    &&& single_king(b, Color::Black)
    &&& lunges_consistent(b)
}

/// No pawn on the board has just lunged.
pub open spec fn no_lunged(b: Board) -> bool {
    forall|c: BoardCoord|
        on_board_spec(c) && (#[trigger] b.tile_at(c)).0 is Some ==> b.tile_at(c).0->Some_0.piece
            != (PieceType::Pawn { just_lunged: true })
}

/// Every tile of `after` that holds a king of `color` either held one in
/// `before`, or is `to` while `before` held that king at `from`.
spec fn kings_from(before: Board, after: Board, color: Color, from: BoardCoord, to: BoardCoord) -> bool {
    forall|d: BoardCoord|
        on_board_spec(d) && (#[trigger] after.tile_at(d)).spec_is(color, PieceType::King) ==> if d
            == to {
            before.tile_at(from).spec_is(color, PieceType::King) && after.tile_at(from).0 is None
                || before.tile_at(d).spec_is(color, PieceType::King)
        } else {
            before.tile_at(d).spec_is(color, PieceType::King)
        }
}

proof fn lemma_kings_from(before: Board, after: Board, color: Color, from: BoardCoord, to: BoardCoord)
    requires
        on_board_spec(from),
        single_king(before, color),
        kings_from(before, after, color, from, to),
        after.tile_at(to).spec_is(color, PieceType::King) && !before.tile_at(to).spec_is(
            color,
            PieceType::King,
        ) ==> after.tile_at(from).0 is None,
    ensures
        single_king(after, color),
{
    assert forall|c: BoardCoord, d: BoardCoord|
        on_board_spec(c) && on_board_spec(d) && (#[trigger] after.tile_at(c)).spec_is(
            color,
            PieceType::King,
        ) && (#[trigger] after.tile_at(d)).spec_is(color, PieceType::King) implies c == d by {
        if c != to && d != to {
        } else if c == to && d == to {
        } else if c == to {
            if !before.tile_at(c).spec_is(color, PieceType::King) {
                assert(before.tile_at(from).spec_is(color, PieceType::King));
                assert(before.tile_at(d).spec_is(color, PieceType::King));
                assert(d == from);
            }
        } else {
            if !before.tile_at(d).spec_is(color, PieceType::King) {
                assert(before.tile_at(from).spec_is(color, PieceType::King));
                assert(before.tile_at(c).spec_is(color, PieceType::King));
                assert(c == from);
            }
        }
    }
}

/// Moving a piece keeps each color to at most one king.
proof fn lemma_move_single_king(b: Board, start: BoardCoord, end: BoardCoord, color: Color)
    requires
        on_board_spec(start),
        on_board_spec(end),
        single_king(b, color),
    ensures
        single_king(b.spec_move(start, end), color),
{
    broadcast use crate::board::lemma_spec_set;

    let a = b.spec_move(start, end);
    assert(a.tile_at(start).0 is None);
    assert forall|d: BoardCoord| on_board_spec(d) && (#[trigger] a.tile_at(d)).spec_is(
        color,
        PieceType::King,
    ) implies if d == end {
        b.tile_at(start).spec_is(color, PieceType::King) && a.tile_at(start).0 is None
            || b.tile_at(d).spec_is(color, PieceType::King)
    } else {
        b.tile_at(d).spec_is(color, PieceType::King)
    } by {
        if d == end && d != start {
            assert(a.tile_at(d) == crate::board::with_moved(b.tile_at(start), true));
        }
    }
    lemma_kings_from(b, a, color, start, end);
}

/// Emptying a square keeps each color to at most one king.
proof fn lemma_clear_single_king(b: Board, c: BoardCoord, color: Color)
    requires
        on_board_spec(c),
        single_king(b, color),
    ensures
        single_king(b.spec_set(c, Tile(None)), color),
{
    broadcast use crate::board::lemma_spec_set;

    let a = b.spec_set(c, Tile(None));
    assert forall|d: BoardCoord| on_board_spec(d) && (#[trigger] a.tile_at(d)).spec_is(
        color,
        PieceType::King,
    ) implies if d == c {
        b.tile_at(c).spec_is(color, PieceType::King) && a.tile_at(c).0 is None || b.tile_at(d).spec_is(
            color,
            PieceType::King,
        )
    } else {
        b.tile_at(d).spec_is(color, PieceType::King)
    } by {}
    lemma_kings_from(b, a, color, c, c);
}

/// Clearing the `just_lunged` flags keeps the kings, the empty squares, and
/// leaves no pawn that has just lunged.
proof fn lemma_cleared(b: Board, color: Color)
    requires
        single_king(b, color),
    ensures
        single_king(b.spec_cleared(), color),
        no_lunged(b.spec_cleared()),
        forall|c: BoardCoord| on_board_spec(c) ==> (#[trigger] b.spec_cleared().tile_at(c)).0 is None == (
        b.tile_at(c).0 is None),
{
    broadcast use crate::board::lemma_board_from;

    let a = b.spec_cleared();
    assert forall|c: BoardCoord, d: BoardCoord|
        on_board_spec(c) && on_board_spec(d) && (#[trigger] a.tile_at(c)).spec_is(
            color,
            PieceType::King,
        ) && (#[trigger] a.tile_at(d)).spec_is(color, PieceType::King) implies c == d by {
        assert(b.tile_at(c).spec_is(color, PieceType::King));
        assert(b.tile_at(d).spec_is(color, PieceType::King));
    }
}

/// Moving a piece on a board with no lunged pawn leaves none.
proof fn lemma_move_no_lunged(b: Board, start: BoardCoord, end: BoardCoord)
    requires
        on_board_spec(start),
        on_board_spec(end),
        no_lunged(b),
    ensures
        no_lunged(b.spec_move(start, end)),
{
    broadcast use crate::board::lemma_spec_set;

    let a = b.spec_move(start, end);
    assert forall|c: BoardCoord| on_board_spec(c) && (#[trigger] a.tile_at(c)).0 is Some implies a.tile_at(
        c,
    ).0->Some_0.piece != (PieceType::Pawn { just_lunged: true }) by {
        if c == end && c != start {
            assert(a.tile_at(c) == crate::board::with_moved(b.tile_at(start), true));
        }
    }
}

/// A board with no lunged pawn has its lunges consistent.
proof fn lemma_no_lunged_consistent(b: Board)
    requires
        no_lunged(b),
    ensures
        lunges_consistent(b),
{
}

/// A lunge that `check_turn` accepts passes over an empty square.
pub(crate) proof fn lemma_lunge_path_empty(s: StateView, start: BoardCoord, end: BoardCoord)
    requires
        turn_checkable(s, start, end),
        spec_check_turn(s, start, end) is Ok,
        spec_move_type(s.board, start, end) is Lunge,
    ensures
        ({
            let color = s.board.tile_at(start).0->Some_0.color;
            &&& end == mk(start.0 as int, start.1 + 2 * dir(color))
            &&& on_board_xy(start.0 as int, start.1 + dir(color))
            &&& s.board.is_empty_at(start.0 as int, start.1 + dir(color))
            &&& on_board_spec(end)
            &&& s.board.tile_at(end).0 is None
        }),
{
    let b = s.board;
    let p = b.tile_at(start).0->Some_0;
    let king = b.spec_get_king(s.current_player)->Some_0;
    lemma_keep_safe_subset(b, s.current_player, start, king, pseudo_moves(b, start));
    let lm = legal_moves(b, s.current_player, start);
    let k = choose|k: int| 0 <= k < lm.len() && lm[k] == end;
    assert(pseudo_moves(b, start).contains(end));
    assert(pawn_moves(b, start, p.color).contains(end));
    assert(scale(end.1 - start.1, p.color) == 2);
    assert(end.1 - start.1 == 2 * dir(p.color));
}

/// Each color keeps at most one king through a turn that `check_turn`
/// accepts, and the square behind a pawn that has just lunged stays empty.
pub proof fn lemma_turn_keeps_sound_board(s: StateView, start: BoardCoord, end: BoardCoord)
    requires
        sound_board(s.board),
        turn_checkable(s, start, end),
        spec_check_turn(s, start, end) is Ok,
    ensures
        sound_board(spec_take_turn(s, start, end).board),
{
    broadcast use crate::board::lemma_spec_set;

    let b = s.board;
    let cb = b.spec_cleared();
    lemma_cleared(b, Color::White);
    lemma_cleared(b, Color::Black);
    let after = turn_board(b, start, end).0;
    assert(after == spec_take_turn(s, start, end).board);
    assert(spec_check_turn(s, start, end) is Ok ==> b.spec_pawn_needs_promotion() is None);
    match spec_move_type(b, start, end) {
        MoveType::Castle(color, side) => {
            let r = crate::rules::first_rank(color);
            let (king_end, rook_end) = match side {
                crate::rules::BoardSide::Queenside => (2int, 3int),
                crate::rules::BoardSide::Kingside => (6int, 5int),
            };
            let m1 = cb.spec_move(mk(4, r), mk(king_end, r));
            assert(on_board_spec(mk(4, r)));
            assert(on_board_spec(mk(king_end, r)));
            assert(on_board_spec(mk(crate::rules::rook_file(side), r)));
            assert(on_board_spec(mk(rook_end, r)));
            lemma_move_single_king(cb, mk(4, r), mk(king_end, r), Color::White);
            lemma_move_single_king(cb, mk(4, r), mk(king_end, r), Color::Black);
            lemma_move_single_king(m1, mk(crate::rules::rook_file(side), r), mk(rook_end, r), Color::White);
            lemma_move_single_king(m1, mk(crate::rules::rook_file(side), r), mk(rook_end, r), Color::Black);
            lemma_move_no_lunged(cb, mk(4, r), mk(king_end, r));
            lemma_move_no_lunged(m1, mk(crate::rules::rook_file(side), r), mk(rook_end, r));
            assert(after == spec_castle(cb, color, side));
            lemma_no_lunged_consistent(after);
        },
        MoveType::Normal => {
            lemma_move_single_king(cb, start, end, Color::White);
            lemma_move_single_king(cb, start, end, Color::Black);
            lemma_move_no_lunged(cb, start, end);
            lemma_no_lunged_consistent(after);
        },
        MoveType::Capture => {
            lemma_move_single_king(cb, start, end, Color::White);
            lemma_move_single_king(cb, start, end, Color::Black);
            lemma_move_no_lunged(cb, start, end);
            lemma_no_lunged_consistent(after);
        },
        MoveType::Lunge => {
            lemma_lunge_path_empty(s, start, end);
            let p = b.tile_at(start).0->Some_0;
            assert(cb.tile_at(start) == crate::board::with_just_lunged(b.tile_at(start), false)) by {
                crate::board::lemma_board_from(
                    |c: BoardCoord| crate::board::with_just_lunged(b.tile_at(c), false),
                    start,
                );
            }
            assert(cb.tile_at(start).0->Some_0.color == p.color);
            assert(after == cb.spec_lunge(start));
            let t = crate::board::with_just_lunged(cb.tile_at(start), true);
            let lb = cb.spec_set(start, t);
            let mid = mk(start.0 as int, start.1 + dir(p.color));
            assert(on_board_spec(mid));
            // The lunging pawn is the only one that has just lunged.
            assert forall|c: BoardCoord, d: BoardCoord|
                on_board_spec(c) && on_board_spec(d) && (#[trigger] lb.tile_at(c)).spec_is(
                    Color::White,
                    PieceType::King,
                ) && (#[trigger] lb.tile_at(d)).spec_is(Color::White, PieceType::King) implies c == d by {
                assert(cb.tile_at(c).spec_is(Color::White, PieceType::King));
                assert(cb.tile_at(d).spec_is(Color::White, PieceType::King));
            }
            assert forall|c: BoardCoord, d: BoardCoord|
                on_board_spec(c) && on_board_spec(d) && (#[trigger] lb.tile_at(c)).spec_is(
                    Color::Black,
                    PieceType::King,
                ) && (#[trigger] lb.tile_at(d)).spec_is(Color::Black, PieceType::King) implies c == d by {
                assert(cb.tile_at(c).spec_is(Color::Black, PieceType::King));
                assert(cb.tile_at(d).spec_is(Color::Black, PieceType::King));
            }
            lemma_move_single_king(lb, start, end, Color::White);
            lemma_move_single_king(lb, start, end, Color::Black);
            assert(after == lb.spec_move(start, end));
            assert forall|c: BoardCoord|
                on_board_spec(c) && (#[trigger] after.tile_at(c)).0 is Some && after.tile_at(c).0->Some_0.piece
                    == (PieceType::Pawn { just_lunged: true }) implies {
                let q = after.tile_at(c).0->Some_0.color;
                on_board_xy(c.0 as int, c.1 - dir(q)) && after.is_empty_at(c.0 as int, c.1 - dir(q))
            } by {
                if c != end {
                    if c != start {
                        assert(after.tile_at(c) == cb.tile_at(c));
                    }
                } else {
                    assert(after.tile_at(c).0->Some_0.color == p.color);
                    assert(mk(c.0 as int, c.1 - dir(p.color)) == mid);
                    assert(after.tile_at(mid) == cb.tile_at(mid));
                }
            }
        },
        MoveType::EnPassant(side) => {
            let color = b.tile_at(start).0->Some_0.color;
            let m1 = b.spec_move(start, end);
            let cc = mk(end.0 as int, end.1 - dir(color));
            assert(on_board_spec(cc));
            lemma_move_single_king(b, start, end, Color::White);
            lemma_move_single_king(b, start, end, Color::Black);
            lemma_clear_single_king(m1, cc, Color::White);
            lemma_clear_single_king(m1, cc, Color::Black);
            let m2 = m1.spec_set(cc, Tile(None));
            lemma_cleared(m2, Color::White);
            lemma_cleared(m2, Color::Black);
            assert(after == m2.spec_cleared());
            lemma_no_lunged_consistent(after);
        },
    }
}

/// A promotion that `check_promote` accepts keeps each color to at most one
/// king, and the square behind a pawn that has just lunged empty.
pub proof fn lemma_promotion_keeps_sound_board(s: StateView, coord: BoardCoord, piece: PieceType)
    requires
        sound_board(s.board),
        promotion_playable(s, coord, piece),
    ensures
        sound_board(spec_promote(s, coord, piece).board),
{
    broadcast use crate::board::lemma_spec_set;

    let b = s.board;
    let a = spec_promote(s, coord, piece).board;
    assert(a == b.spec_promoted(coord, piece));
    assert(b.tile_at(coord).0 is Some);
    assert(!(piece is King) && !(piece is Pawn));
    assert forall|c: BoardCoord, d: BoardCoord|
        on_board_spec(c) && on_board_spec(d) && (#[trigger] a.tile_at(c)).spec_is(
            Color::White,
            PieceType::King,
        ) && (#[trigger] a.tile_at(d)).spec_is(Color::White, PieceType::King) implies c == d by {
        assert(b.tile_at(c).spec_is(Color::White, PieceType::King));
        assert(b.tile_at(d).spec_is(Color::White, PieceType::King));
    }
    assert forall|c: BoardCoord, d: BoardCoord|
        on_board_spec(c) && on_board_spec(d) && (#[trigger] a.tile_at(c)).spec_is(
            Color::Black,
            PieceType::King,
        ) && (#[trigger] a.tile_at(d)).spec_is(Color::Black, PieceType::King) implies c == d by {
        assert(b.tile_at(c).spec_is(Color::Black, PieceType::King));
        assert(b.tile_at(d).spec_is(Color::Black, PieceType::King));
    }
    assert forall|c: BoardCoord|
        on_board_spec(c) && (#[trigger] a.tile_at(c)).0 is Some && a.tile_at(c).0->Some_0.piece == (
        PieceType::Pawn { just_lunged: true }) implies {
        let q = a.tile_at(c).0->Some_0.color;
        on_board_xy(c.0 as int, c.1 - dir(q)) && a.is_empty_at(c.0 as int, c.1 - dir(q))
    } by {
        assert(c != coord);
        assert(a.tile_at(c) == b.tile_at(c));
        let q = b.tile_at(c).0->Some_0.color;
        let behind = mk(c.0 as int, c.1 - dir(q));
        assert(b.is_empty_at(c.0 as int, c.1 - dir(q)));
        assert(behind != coord);
        assert(a.tile_at(behind) == b.tile_at(behind));
    }
}

/// The starting position has one king of each color and no pawn that has
/// just lunged.
pub proof fn lemma_initial_sound_board(b: Board)
    requires
        forall|c: BoardCoord| on_board_spec(c) ==> #[trigger] b.tile_at(c) == initial_tile(c),
    ensures
        sound_board(b),
{
    assert forall|c: BoardCoord, d: BoardCoord|
        on_board_spec(c) && on_board_spec(d) && (#[trigger] b.tile_at(c)).spec_is(
            Color::White,
            PieceType::King,
        ) && (#[trigger] b.tile_at(d)).spec_is(Color::White, PieceType::King) implies c == d by {}
    assert forall|c: BoardCoord, d: BoardCoord|
        on_board_spec(c) && on_board_spec(d) && (#[trigger] b.tile_at(c)).spec_is(
            Color::Black,
            PieceType::King,
        ) && (#[trigger] b.tile_at(d)).spec_is(Color::Black, PieceType::King) implies c == d by {}
}

/// On a board that every game from the starting position keeps (see the
/// lemmas above), each move `get_move_list` lists for the player to move,
/// whose king is on the board, is accepted by `check_turn`.
pub proof fn lemma_sound_listed_moves_accepted(s: StateView, coord: BoardCoord, m: BoardCoord)
    requires
        sound_board(s.board),
        s.board.spec_get_king(s.current_player) is Some,
        spec_move_list(s.board, coord, s.current_player).contains(m),
    ensures
        turn_checkable(s, coord, m),
        spec_check_turn(s, coord, m) is Ok,
{
    lemma_listed_moves_accepted(s, coord, m);
}

} // verus!
