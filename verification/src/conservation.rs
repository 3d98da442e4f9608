//! A turn neither creates nor loses pieces: what leaves the board joins the
//! list of captured pieces of its color.
use vstd::prelude::*;

use crate::board::{dir, mk, on_board_spec, sq, Board, BoardCoord, Color, Tile};
use crate::invariants::lemma_lunge_path_empty;
use crate::rules::side_file;
use crate::state::{
    spec_check_turn, spec_move_type, spec_take_turn, turn_board, turn_checkable, MoveType,
    StateView,
};

verus! {

/// The number of pieces on the squares with scan index `k` or more.
pub open spec fn pieces_from(b: Board, k: int) -> nat
    decreases 64 - k,
{
    if k < 0 || k >= 64 {
        0
    } else {
        (if b.tile_at(sq(k)).0 is Some {
            1nat
        } else {
            0nat
        }) + pieces_from(b, k + 1)
    }
}

/// The number of pieces on the board.
pub open spec fn piece_count(b: Board) -> nat {
    pieces_from(b, 0)
}

/// 1 for a tile with a piece, 0 for an empty one.
pub open spec fn occupied(t: Tile) -> int {
    if t.0 is Some {
        1
    } else {
        0
    }
}

/// The scan index of a square.
spec fn index_of(c: BoardCoord) -> int {
    c.1 * 8 + c.0
}

proof fn lemma_sq_index(k: int, c: BoardCoord)
    requires
        0 <= k < 64,
        on_board_spec(c),
    ensures
        on_board_spec(sq(k)),
        sq(k) == c <==> index_of(c) == k,
{
}

/// Setting one square changes the count by what it held and what it holds.
proof fn lemma_pieces_set(b: Board, c: BoardCoord, t: Tile, k: int)
    requires
        on_board_spec(c),
        0 <= k <= 64,
    ensures
        pieces_from(b.spec_set(c, t), k) == pieces_from(b, k) + if index_of(c) >= k {
            occupied(t) - occupied(b.tile_at(c))
        } else {
            0
        },
    decreases 64 - k,
{
    broadcast use crate::board::lemma_spec_set;

    if k < 64 {
        lemma_pieces_set(b, c, t, k + 1);
        lemma_sq_index(k, c);
    }
}

/// Boards with the same empty squares hold as many pieces.
proof fn lemma_pieces_same_empty(a: Board, b: Board, k: int)
    requires
        forall|c: BoardCoord| on_board_spec(c) ==> (#[trigger] a.tile_at(c)).0 is None == (b.tile_at(c).0 is None),
        0 <= k <= 64,
    ensures
        pieces_from(a, k) == pieces_from(b, k),
    decreases 64 - k,
{
    if k < 64 {
        lemma_pieces_same_empty(a, b, k + 1);
        lemma_sq_index(k, mk(0, 0));
    }
}

/// Clearing the `just_lunged` flags keeps the count.
proof fn lemma_pieces_cleared(b: Board)
    ensures
        piece_count(b.spec_cleared()) == piece_count(b),
        forall|c: BoardCoord| on_board_spec(c) ==> (#[trigger] b.spec_cleared().tile_at(c)).0 is None == (
        b.tile_at(c).0 is None),
{
    broadcast use crate::board::lemma_board_from;

    lemma_pieces_same_empty(b.spec_cleared(), b, 0);
}

/// Moving a piece removes what stood on the square it lands on.
proof fn lemma_pieces_move(b: Board, start: BoardCoord, end: BoardCoord)
    requires
        on_board_spec(start),
        on_board_spec(end),
        b.tile_at(start).0 is Some,
    ensures
        piece_count(b.spec_move(start, end)) == piece_count(b) - if start == end {
            1
        } else {
            occupied(b.tile_at(end))
        },
        forall|c: BoardCoord|
            on_board_spec(c) && c != start && c != end ==> (#[trigger] b.spec_move(start, end).tile_at(c)) == b.tile_at(c),
        b.spec_move(start, end).tile_at(start).0 is None,
        start != end ==> b.spec_move(start, end).tile_at(end).0 is Some,
{
    broadcast use crate::board::lemma_spec_set;

    let t = crate::board::with_moved(b.tile_at(start), true);
    let m1 = b.spec_set(end, t);
    lemma_pieces_set(b, end, t, 0);
    lemma_pieces_set(m1, start, Tile(None), 0);
}

/// A turn that `check_turn` accepts keeps the number of pieces on the board
/// and in the lists of captured pieces together; each list only grows at its
/// end, and a captured piece joins the list of its own color.
pub proof fn lemma_turn_conserves_pieces(s: StateView, start: BoardCoord, end: BoardCoord)
    requires
        turn_checkable(s, start, end),
        spec_check_turn(s, start, end) is Ok,
    ensures
        ({
            let n = spec_take_turn(s, start, end);
            &&& piece_count(n.board) + n.dead_black.len() + n.dead_white.len() == piece_count(s.board)
                + s.dead_black.len() + s.dead_white.len()
            &&& s.dead_black.is_prefix_of(n.dead_black)
            &&& s.dead_white.is_prefix_of(n.dead_white)
            &&& (forall|i: int| 0 <= i < s.dead_black.len() ==> (#[trigger] s.dead_black[i]).color == Color::Black)
                ==> (forall|i: int| 0 <= i < n.dead_black.len() ==> (#[trigger] n.dead_black[i]).color == Color::Black)
            &&& (forall|i: int| 0 <= i < s.dead_white.len() ==> (#[trigger] s.dead_white[i]).color == Color::White)
                ==> (forall|i: int| 0 <= i < n.dead_white.len() ==> (#[trigger] n.dead_white[i]).color == Color::White)
        }),
{
    broadcast use crate::board::lemma_spec_set;

    let b = s.board;
    let cb = b.spec_cleared();
    let n = spec_take_turn(s, start, end);
    let (after, captured) = turn_board(b, start, end);
    assert(n.board == after);
    assert(b.spec_pawn_needs_promotion() is None);
    lemma_pieces_cleared(b);
    match spec_move_type(b, start, end) {
        MoveType::Castle(color, side) => {
            let r = crate::rules::first_rank(color);
            let (king_end, rook_end) = match side {
                crate::rules::BoardSide::Queenside => (2int, 3int),
                crate::rules::BoardSide::Kingside => (6int, 5int),
            };
            let ks = mk(4, r);
            let ke = mk(king_end, r);
            let rs = mk(crate::rules::rook_file(side), r);
            let re = mk(rook_end, r);
            assert(on_board_spec(ks) && on_board_spec(ke) && on_board_spec(rs) && on_board_spec(re));
            assert(b.tile_at(ks).0 is Some && b.tile_at(rs).0 is Some);
            assert(b.tile_at(ke).0 is None && b.tile_at(re).0 is None);
            let m1 = cb.spec_move(ks, ke);
            lemma_pieces_move(cb, ks, ke);
            lemma_pieces_move(m1, rs, re);
            assert(after == m1.spec_move(rs, re));
            assert(captured is None);
        },
        MoveType::Normal => {
            lemma_pieces_move(cb, start, end);
            assert(captured is None);
        },
        MoveType::Capture => {
            lemma_pieces_move(cb, start, end);
            assert(captured is Some);
        },
        MoveType::Lunge => {
            lemma_lunge_path_empty(s, start, end);
            crate::board::lemma_board_from(|c: BoardCoord| crate::board::with_just_lunged(b.tile_at(c), false), start);
            let lb = cb.spec_set(start, crate::board::with_just_lunged(cb.tile_at(start), true));
            lemma_pieces_set(cb, start, crate::board::with_just_lunged(cb.tile_at(start), true), 0);
            assert(lb.tile_at(end) == cb.tile_at(end));
            lemma_pieces_move(lb, start, end);
            assert(after == lb.spec_move(start, end));
            assert(captured is None);
        },
        MoveType::EnPassant(side) => {
            let color = b.tile_at(start).0->Some_0.color;
            let cap = mk(side_file(start.0 as int, side), start.1 as int);
            let cc = mk(end.0 as int, end.1 - dir(color));
            assert(cap == cc);
            assert(on_board_spec(cap));
            assert(b.tile_at(cap).0 is Some);
            let m1 = b.spec_move(start, end);
            lemma_pieces_move(b, start, end);
            assert(m1.tile_at(cap) == b.tile_at(cap));
            lemma_pieces_set(m1, cap, Tile(None), 0);
            let m2 = m1.spec_set(cc, Tile(None));
            lemma_pieces_cleared(m2);
            assert(after == m2.spec_cleared());
            assert(captured is Some);
        },
    }
}

} // verus!
