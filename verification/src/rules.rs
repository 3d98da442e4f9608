//! Attacks on squares, the legal moves of a player, castling, en passant and
//! the end-of-game states.
use vstd::prelude::*;

use crate::board::{
    dir, mk, promotion_scan, on_board, on_board_i8, on_board_spec, on_board_xy, opp, Board, BoardCoord, Color, Piece,
    PieceType, Tile,
};
use crate::moves::{along, get_move_list_ignore_check, lemma_pseudo_moves_on_board, pseudo_moves, MoveList};

verus! {

/// The first piece met from (x, y) going `n` steps in the direction (dx, dy),
/// if any before the edge of the board.
pub open spec fn first_piece(b: Board, x: int, y: int, dx: int, dy: int, n: nat) -> Option<Piece>
    decreases n,
{
    if n == 0 {
        None
    } else {
        let nx = x + dx;
        let ny = y + dy;
        if !on_board_xy(nx, ny) {
            None
        } else if b.tile_at(mk(nx, ny)).0 is Some {
            b.tile_at(mk(nx, ny)).0
        } else {
            first_piece(b, nx, ny, dx, dy, (n - 1) as nat)
        }
    }
}

/// `p` is a rook or a queen of color `who`.
pub open spec fn rook_like(who: Color, p: Option<Piece>) -> bool {
    p matches Some(q) && q.color == who && (q.piece == PieceType::Rook || q.piece
        == PieceType::Queen)
}

/// `p` is a bishop or a queen of color `who`.
pub open spec fn bishop_like(who: Color, p: Option<Piece>) -> bool {
    p matches Some(q) && q.color == who && (q.piece == PieceType::Bishop || q.piece
        == PieceType::Queen)
}

/// A piece of color `who` and kind `kind` stands at offset `d` from (x, y).
pub open spec fn attacker_at(b: Board, x: int, y: int, d: (i8, i8), who: Color, kind: PieceType) -> bool {
    on_board_xy(x + d.0, y + d.1) && b.tile_at(mk(x + d.0, y + d.1)).spec_is(who, kind)
}

/// No piece of color `who` and kind `kind` stands at any of the offsets.
pub open spec fn no_attacker(
    b: Board,
    x: int,
    y: int,
    deltas: Seq<(i8, i8)>,
    who: Color,
    kind: PieceType,
) -> bool {
    forall|k: int| 0 <= k < deltas.len() ==> !attacker_at(b, x, y, #[trigger] deltas[k], who, kind)
}

pub open spec fn king_offsets() -> Seq<(i8, i8)> {
    seq![(1i8, 0i8), (-1i8, 0i8), (1i8, 1i8), (1i8, -1i8), (-1i8, 1i8), (-1i8, -1i8), (0i8, 1i8), (0i8, -1i8)]
}

pub open spec fn knight_offsets() -> Seq<(i8, i8)> {
    seq![(1i8, 2i8), (1i8, -2i8), (-1i8, 2i8), (-1i8, -2i8), (2i8, 1i8), (2i8, -1i8), (-2i8, 1i8), (-2i8, -1i8)]
}

/// Where a pawn attacking a square of `color` would stand, relative to it.
pub open spec fn pawn_offsets(color: Color) -> Seq<(i8, i8)> {
    match color {
        Color::White => seq![(1i8, 1i8), (-1i8, 1i8)],
        Color::Black => seq![(1i8, -1i8), (-1i8, -1i8)],
    }
}

/// No piece of the color opposite to `color` threatens the square `t`: no
/// rook or queen sees it along a rank or file, no bishop or queen along a
/// diagonal, and no king, knight or pawn of that color stands where it would
/// attack it.
pub open spec fn square_safe(b: Board, color: Color, t: BoardCoord) -> bool {
    let x = t.0 as int;
    let y = t.1 as int;
    let o = opp(color);
    &&& !rook_like(o, first_piece(b, x, y, 0, 1, 7))
    &&& !rook_like(o, first_piece(b, x, y, 0, -1, 7))
    &&& !rook_like(o, first_piece(b, x, y, 1, 0, 7))
    &&& !rook_like(o, first_piece(b, x, y, -1, 0, 7))
    &&& !bishop_like(o, first_piece(b, x, y, 1, 1, 7))
    &&& !bishop_like(o, first_piece(b, x, y, -1, 1, 7))
    &&& !bishop_like(o, first_piece(b, x, y, 1, -1, 7))
    &&& !bishop_like(o, first_piece(b, x, y, -1, -1, 7))
    &&& no_attacker(b, x, y, king_offsets(), o, PieceType::King)
    &&& no_attacker(b, x, y, knight_offsets(), o, PieceType::Knight)
    &&& no_attacker(b, x, y, pawn_offsets(color), o, PieceType::Pawn { just_lunged: false })
}

/// A pawn attacks the two squares diagonally in front of it (in the direction
/// it moves): a square is not safe for a color when a pawn of the other color
/// stands one file aside and one rank behind it, as seen by that pawn.
pub proof fn lemma_pawn_attacks(b: Board, color: Color, t: BoardCoord, e: int)
    requires
        on_board_spec(t),
        e == 1 || e == -1,
        on_board_xy(t.0 + e, t.1 - dir(opp(color))),
        b.tile_at(mk(t.0 + e, t.1 - dir(opp(color)))).0 matches Some(p) && p.color == opp(color)
            && p.piece is Pawn,
    ensures
        !square_safe(b, color, t),
{
    let offs = pawn_offsets(color);
    let k: int = if e == 1 {
        0
    } else {
        1
    };
    assert(offs[k].0 == e && offs[k].1 == -dir(opp(color)));
    assert(attacker_at(b, t.0 as int, t.1 as int, offs[k], opp(color), PieceType::Pawn { just_lunged: false }));
}

/// Every diagonal capture square of a pawn (as `pawn_moves` lists them) is a
/// square that is not safe for the other color.
pub proof fn lemma_pawn_captures_attack(b: Board, pos: BoardCoord, t: BoardCoord)
    requires
        on_board_spec(pos),
        b.tile_at(pos).0 matches Some(p) && p.piece is Pawn,
        crate::moves::pawn_moves(b, pos, b.tile_at(pos).0->Some_0.color).contains(t),
        t.0 != pos.0,
    ensures
        !square_safe(b, opp(b.tile_at(pos).0->Some_0.color), t),
{
    let o = b.tile_at(pos).0->Some_0.color;
    let pm = crate::moves::pawn_moves(b, pos, o);
    let i = choose|i: int| 0 <= i < pm.len() && pm[i] == t;
    assert(t.1 == pos.1 + dir(o));
    assert(opp(opp(o)) == o);
    let e = pos.0 - t.0;
    assert(on_board_spec(t));
    assert(mk(t.0 + e, t.1 - dir(opp(opp(o)))) == pos);
    lemma_pawn_attacks(b, opp(o), t, e);
}

/// A square is not safe for `color` when a knight of the other color stands a
/// knight's jump (one square along one axis, two along the other) away.
pub proof fn lemma_knight_attacks(b: Board, color: Color, t: BoardCoord, dx: int, dy: int)
    requires
        on_board_spec(t),
        ((dx == 1 || dx == -1) && (dy == 2 || dy == -2)) || ((dx == 2 || dx == -2) && (dy == 1 || dy == -1)),
        on_board_xy(t.0 + dx, t.1 + dy),
        b.tile_at(mk(t.0 + dx, t.1 + dy)).0 matches Some(p) && p.color == opp(color) && p.piece is Knight,
    ensures
        !square_safe(b, color, t),
{
    let offs = knight_offsets();
    let k: int = if dx == 1 && dy == 2 {
        0
    } else if dx == 1 && dy == -2 {
        1
    } else if dx == -1 && dy == 2 {
        2
    } else if dx == -1 && dy == -2 {
        3
    } else if dx == 2 && dy == 1 {
        4
    } else if dx == 2 && dy == -1 {
        5
    } else if dx == -2 && dy == 1 {
        6
    } else {
        7
    };
    assert(offs[k].0 == dx && offs[k].1 == dy);
    assert(attacker_at(b, t.0 as int, t.1 as int, offs[k], opp(color), PieceType::Knight));
}

/// A square is not safe for `color` when the king of the other color stands
/// on one of the eight neighboring squares.
pub proof fn lemma_king_attacks(b: Board, color: Color, t: BoardCoord, dx: int, dy: int)
    requires
        on_board_spec(t),
        -1 <= dx <= 1,
        -1 <= dy <= 1,
        !(dx == 0 && dy == 0),
        on_board_xy(t.0 + dx, t.1 + dy),
        b.tile_at(mk(t.0 + dx, t.1 + dy)).0 matches Some(p) && p.color == opp(color) && p.piece is King,
    ensures
        !square_safe(b, color, t),
{
    let offs = king_offsets();
    let k: int = if dx == 1 && dy == 0 {
        0
    } else if dx == -1 && dy == 0 {
        1
    } else if dx == 1 && dy == 1 {
        2
    } else if dx == 1 && dy == -1 {
        3
    } else if dx == -1 && dy == 1 {
        4
    } else if dx == -1 && dy == -1 {
        5
    } else if dx == 0 && dy == 1 {
        6
    } else {
        7
    };
    assert(offs[k].0 == dx && offs[k].1 == dy);
    assert(attacker_at(b, t.0 as int, t.1 as int, offs[k], opp(color), PieceType::King));
}

/// Going from `pos` in the direction (dx, dy), the first piece met is the one
/// on the `k`-th square when the squares before it are empty.
proof fn lemma_first_piece_at(b: Board, pos: BoardCoord, dx: int, dy: int, n: nat, k: int)
    requires
        on_board_spec(pos),
        -1 <= dx <= 1,
        -1 <= dy <= 1,
        1 <= k <= n,
        forall|i: int|
            1 <= i < k ==> on_board_spec(#[trigger] along(pos, dx, dy, i)) && b.tile_at(along(pos, dx, dy, i)).0 is None,
        on_board_spec(along(pos, dx, dy, k)),
        b.tile_at(along(pos, dx, dy, k)).0 is Some,
    ensures
        first_piece(b, pos.0 as int, pos.1 as int, dx, dy, n) == b.tile_at(along(pos, dx, dy, k)).0,
    decreases k,
{
    let nx = pos.0 + dx;
    let ny = pos.1 + dy;
    assert(1 * dx == dx && 1 * dy == dy) by (nonlinear_arith);
    assert(along(pos, dx, dy, 1) == mk(nx, ny));
    assert(on_board_xy(nx, ny)) by {
        if k > 1 {
            assert(on_board_spec(along(pos, dx, dy, 1)));
        }
    }
    if k > 1 {
        let next = mk(nx, ny);
        assert(b.tile_at(along(pos, dx, dy, 1)).0 is None);
        assert forall|i: int| 1 <= i < k - 1 implies on_board_spec(#[trigger] along(next, dx, dy, i))
            && b.tile_at(along(next, dx, dy, i)).0 is None by {
            assert(nx + i * dx == pos.0 + (i + 1) * dx && ny + i * dy == pos.1 + (i + 1) * dy) by (nonlinear_arith)
                requires
                    nx == pos.0 + dx,
                    ny == pos.1 + dy,
            ;
            assert(along(next, dx, dy, i) == along(pos, dx, dy, i + 1));
        }
        assert(nx + (k - 1) * dx == pos.0 + k * dx && ny + (k - 1) * dy == pos.1 + k * dy) by (nonlinear_arith)
            requires
                nx == pos.0 + dx,
                ny == pos.1 + dy,
        ;
        assert(along(next, dx, dy, k - 1) == along(pos, dx, dy, k));
        lemma_first_piece_at(b, next, dx, dy, (n - 1) as nat, k - 1);
    }
}

/// A square is not safe for `color` when a rook or queen of the other color
/// stands on its rank or file, or a bishop or queen of the other color on one
/// of its diagonals, with only empty squares between them.
pub proof fn lemma_slider_attacks(b: Board, color: Color, t: BoardCoord, dx: int, dy: int, k: int)
    requires
        on_board_spec(t),
        -1 <= dx <= 1,
        -1 <= dy <= 1,
        !(dx == 0 && dy == 0),
        1 <= k,
        forall|i: int|
            1 <= i < k ==> on_board_spec(#[trigger] along(t, dx, dy, i)) && b.tile_at(along(t, dx, dy, i)).0 is None,
        on_board_xy(t.0 + k * dx, t.1 + k * dy),
        b.tile_at(along(t, dx, dy, k)).0 matches Some(p) && p.color == opp(color) && ((dx == 0 || dy == 0) && (
        p.piece is Rook || p.piece is Queen) || (dx != 0 && dy != 0) && (p.piece is Bishop || p.piece is Queen)),
    ensures
        !square_safe(b, color, t),
{
    let q = along(t, dx, dy, k);
    if dx == 1 {
        assert(k * dx == k) by (nonlinear_arith) requires dx == 1;
    } else if dx == -1 {
        assert(k * dx == -k) by (nonlinear_arith) requires dx == -1;
    } else if dy == 1 {
        assert(k * dy == k) by (nonlinear_arith) requires dy == 1;
    } else {
        assert(k * dy == -k) by (nonlinear_arith) requires dy == -1;
    }
    assert(k <= 7);
    lemma_first_piece_at(b, t, dx, dy, 7, k);
}

/// The first piece met along a line stands on the board.
proof fn lemma_first_piece_on_board(b: Board, x: int, y: int, dx: int, dy: int, n: nat)
    ensures
        first_piece(b, x, y, dx, dy, n) matches Some(p) ==> exists|c: BoardCoord|
            on_board_spec(c) && (#[trigger] b.tile_at(c)).0 == Some(p),
    decreases n,
{
    if n > 0 {
        let nx = x + dx;
        let ny = y + dy;
        if on_board_xy(nx, ny) && b.tile_at(mk(nx, ny)).0 is Some {
            assert(on_board_spec(mk(nx, ny)));
        } else if on_board_xy(nx, ny) {
            lemma_first_piece_on_board(b, nx, ny, dx, dy, (n - 1) as nat);
        }
    }
}

/// Every square is safe for `color` when the other color has no piece on the
/// board.
pub proof fn lemma_safe_without_enemies(b: Board, color: Color, t: BoardCoord)
    requires
        forall|c: BoardCoord| on_board_spec(c) ==> !(#[trigger] b.tile_at(c)).spec_is_color(opp(color)),
    ensures
        square_safe(b, color, t),
{
    let x = t.0 as int;
    let y = t.1 as int;
    lemma_first_piece_on_board(b, x, y, 0, 1, 7);
    lemma_first_piece_on_board(b, x, y, 0, -1, 7);
    lemma_first_piece_on_board(b, x, y, 1, 0, 7);
    lemma_first_piece_on_board(b, x, y, -1, 0, 7);
    lemma_first_piece_on_board(b, x, y, 1, 1, 7);
    lemma_first_piece_on_board(b, x, y, -1, 1, 7);
    lemma_first_piece_on_board(b, x, y, 1, -1, 7);
    lemma_first_piece_on_board(b, x, y, -1, -1, 7);
    assert forall|d: (i8, i8), kind: PieceType| !attacker_at(b, x, y, d, opp(color), kind) by {
        if on_board_xy(x + d.0, y + d.1) {
            assert(on_board_spec(mk(x + d.0, y + d.1)));
        }
    }
}

/// The first piece met going from `target` in the direction (dx, dy).
fn first_nonempty(board: &Board, target: &BoardCoord, dx: i8, dy: i8) -> (r: Option<Piece>)
    requires
        on_board_spec(*target),
        -1 <= dx <= 1,
        -1 <= dy <= 1,
    ensures
        r == first_piece(*board, target.0 as int, target.1 as int, dx as int, dy as int, 7),
{
    let mut i: i8 = 1;
    let mut x = target.0;
    let mut y = target.1;
    while i < 8
        invariant
            1 <= i <= 8,
            on_board_xy(x as int, y as int),
            -1 <= dx <= 1,
            -1 <= dy <= 1,
            first_piece(*board, x as int, y as int, dx as int, dy as int, (8 - i) as nat)
                == first_piece(*board, target.0 as int, target.1 as int, dx as int, dy as int, 7),
        decreases 8 - i,
    {
        let coord = BoardCoord(x + dx, y + dy);
        if !on_board(coord) {
            return None;
        }
        if let Some(piece) = board.get(coord).0 {
            return Some(piece);
        }
        x = coord.0;
        y = coord.1;
        i += 1;
    }
    None
}

fn is_enemy_rook_or_queen(color: Color, piece: Option<Piece>) -> (b: bool)
    ensures
        b == rook_like(opp(color), piece),
{
    if let Some(piece) = piece {
        return piece.color == color.opposite() && (piece.piece == PieceType::Rook || piece.piece
            == PieceType::Queen);
    }
    false
}

fn is_enemy_bishop_or_queen(color: Color, piece: Option<Piece>) -> (b: bool)
    ensures
        b == bishop_like(opp(color), piece),
{
    if let Some(piece) = piece {
        return piece.color == color.opposite() && (piece.piece == PieceType::Bishop
            || piece.piece == PieceType::Queen);
    }
    false
}

/// True if a piece of color `who` and kind `kind` stands at one of the
/// offsets `deltas` from `target`.
fn attacked_by(board: &Board, target: &BoardCoord, deltas: &[(i8, i8)], who: Color, kind: PieceType) -> (b: bool)
    requires
        on_board_spec(*target),
        forall|k: int| 0 <= k < deltas@.len() ==> -2 <= #[trigger] deltas@[k].0 <= 2 && -2 <= deltas@[k].1 <= 2,
    ensures
        b == !no_attacker(*board, target.0 as int, target.1 as int, deltas@, who, kind),
{
    let mut k: usize = 0;
    while k < deltas.len()
        invariant
            0 <= k <= deltas@.len(),
            on_board_spec(*target),
            forall|k: int| 0 <= k < deltas@.len() ==> -2 <= #[trigger] deltas@[k].0 <= 2 && -2 <= deltas@[k].1 <= 2,
            forall|j: int| 0 <= j < k ==> !attacker_at(*board, target.0 as int, target.1 as int, #[trigger] deltas@[j], who, kind),
        decreases deltas@.len() - k,
    {
        let delta = deltas[k];
        let (x, y) = (target.0 + delta.0, target.1 + delta.1);
        if on_board_i8((x, y)) {
            let check_coord = BoardCoord(x, y);
            if board.get(check_coord).is(who, kind) {
                assert(attacker_at(*board, target.0 as int, target.1 as int, deltas@[k as int], who, kind));
                return true;
            }
        }
        k += 1;
    }
    false
}

impl Board {
    /// Returns true if no piece of the opposite color threatens the square.
    pub fn is_square_safe(&self, color: Color, target: &BoardCoord) -> (b: bool)
        requires
            on_board_spec(*target),
        ensures
            b == square_safe(*self, color, *target),
    {
        // Check for rooks, queens (+)
        if is_enemy_rook_or_queen(color, first_nonempty(self, target, 0, 1)) {
            return false;
        }
        if is_enemy_rook_or_queen(color, first_nonempty(self, target, 0, -1)) {
            return false;
        }
        if is_enemy_rook_or_queen(color, first_nonempty(self, target, 1, 0)) {
            return false;
        }
        if is_enemy_rook_or_queen(color, first_nonempty(self, target, -1, 0)) {
            return false;
        }
        // Check for bishops, queens (x)
        if is_enemy_bishop_or_queen(color, first_nonempty(self, target, 1, 1)) {
            return false;
        }
        if is_enemy_bishop_or_queen(color, first_nonempty(self, target, -1, 1)) {
            return false;
        }
        if is_enemy_bishop_or_queen(color, first_nonempty(self, target, 1, -1)) {
            return false;
        }
        if is_enemy_bishop_or_queen(color, first_nonempty(self, target, -1, -1)) {
            return false;
        }
        // Check for kings
        let king_deltas: [(i8, i8); 8] = [
            (1, 0),
            (-1, 0),
            (1, 1),
            (1, -1),
            (-1, 1),
            (-1, -1),
            (0, 1),
            (0, -1),
        ];
        assert(king_deltas@ =~= king_offsets());
        if attacked_by(self, target, &king_deltas, color.opposite(), PieceType::King) {
            return false;
        }
        // Check for knights
        let knight_deltas: [(i8, i8); 8] = [
            (1, 2),
            (1, -2),
            (-1, 2),
            (-1, -2),
            (2, 1),
            (2, -1),
            (-2, 1),
            (-2, -1),
        ];
        assert(knight_deltas@ =~= knight_offsets());
        if attacked_by(self, target, &knight_deltas, color.opposite(), PieceType::Knight) {
            return false;
        }
        // Check for pawn
        let pawn_deltas: [(i8, i8); 2] = match color {
            Color::White => [(1, 1), (-1, 1)],
            Color::Black => [(1, -1), (-1, -1)],
        };
        assert(pawn_deltas@ =~= pawn_offsets(color));
        if attacked_by(
            self,
            target,
            &pawn_deltas,
            color.opposite(),
            PieceType::Pawn { just_lunged: false },
        ) {
            return false;
        }
        true
    }
}


/// The move of the piece at `coord` to `m` leaves the king of `player`
/// (found at `king` before the move) on a square no enemy piece threatens.
pub open spec fn safe_after(b: Board, player: Color, coord: BoardCoord, m: BoardCoord, king: BoardCoord) -> bool {
    square_safe(b.spec_move(coord, m), player, if coord == king { m } else { king })
}

/// The moves of `s` that keep the king safe, in their order.
pub open spec fn keep_safe(
    b: Board,
    player: Color,
    coord: BoardCoord,
    king: BoardCoord,
    s: Seq<BoardCoord>,
) -> Seq<BoardCoord>
    decreases s.len(),
{
    if s.len() == 0 {
        seq![]
    } else {
        let prev = keep_safe(b, player, coord, king, s.drop_last());
        if safe_after(b, player, coord, s.last(), king) {
            prev.push(s.last())
        } else {
            prev
        }
    }
}

/// The squares the piece at `coord` can move to without leaving the king of
/// `player` threatened (castling and en passant aside).
pub open spec fn legal_moves(b: Board, player: Color, coord: BoardCoord) -> Seq<BoardCoord> {
    keep_safe(b, player, coord, b.spec_get_king(player)->Some_0, pseudo_moves(b, coord))
}

/// What `keep_safe` keeps is among what it was given.
pub proof fn lemma_keep_safe_subset(
    b: Board,
    player: Color,
    coord: BoardCoord,
    king: BoardCoord,
    s: Seq<BoardCoord>,
)
    ensures
        forall|i: int|
            0 <= i < keep_safe(b, player, coord, king, s).len() ==> s.contains(
                #[trigger] keep_safe(b, player, coord, king, s)[i],
            ),
    decreases s.len(),
{
    if s.len() > 0 {
        lemma_keep_safe_subset(b, player, coord, king, s.drop_last());
        let prev = keep_safe(b, player, coord, king, s.drop_last());
        let all = keep_safe(b, player, coord, king, s);
        assert forall|i: int| 0 <= i < all.len() implies s.contains(#[trigger] all[i]) by {
            if i < prev.len() {
                assert(all[i] == prev[i]);
                let j = choose|j: int| 0 <= j < s.drop_last().len() && s.drop_last()[j] == prev[i];
                assert(s[j] == all[i]);
            } else {
                assert(all[i] == s[s.len() - 1]);
            }
        }
    }
}

/// Return a MoveList of the piece located at `coord`.
/// This function DOES check if a move made would put the King into
/// check and DOES NOT check if the King can castle. It also DOES NOT check if
/// a pawn needs to be promoted. Every square already in `out` is checked the
/// same way, as a move of the piece at `coord`.
pub fn get_move_list_full(board: &Board, player: Color, coord: BoardCoord, out: &mut MoveList)
    requires
        on_board_spec(coord),
        board.spec_get_king(player) is Some,
        forall|i: int| 0 <= i < old(out).0@.len() ==> on_board_spec(#[trigger] old(out).0@[i]),
        old(out).0@.len() > 0 ==> board.tile_at(coord).0 is Some,
    ensures
        final(out).0@ == keep_safe(
            *board,
            player,
            coord,
            board.spec_get_king(player)->Some_0,
            old(out).0@ + pseudo_moves(*board, coord),
        ),
{
    let ghost all = old(out).0@ + pseudo_moves(*board, coord);
    proof {
        lemma_pseudo_moves_on_board(*board, coord);
    }
    get_move_list_ignore_check(board, coord, out);
    // For each attempted move, see if moving there would actually put the
    // king in check. The piece is actually moved on a copy of the board, so
    // that its old square no longer blocks a line of sight.
    let king_coord = board.get_king(player).unwrap();
    let mut kept: Vec<BoardCoord> = Vec::new();
    let mut k: usize = 0;
    assert(out.0@ == all);
    assert forall|i: int| 0 <= i < all.len() implies on_board_spec(#[trigger] all[i]) by {
        if i >= old(out).0@.len() {
            assert(all[i] == pseudo_moves(*board, coord)[i - old(out).0@.len()]);
        }
    }
    while k < out.0.len()
        invariant
            0 <= k <= out.0@.len(),
            out.0@ == all,
            on_board_spec(coord),
            on_board_spec(king_coord),
            king_coord == board.spec_get_king(player)->Some_0,
            forall|i: int| 0 <= i < all.len() ==> on_board_spec(#[trigger] all[i]),
            all.len() > 0 ==> board.tile_at(coord).0 is Some,
            kept@ == keep_safe(*board, player, coord, king_coord, all.take(k as int)),
        decreases out.0@.len() - k,
    {
        let attempted_move = out.0[k];
        let mut moved_board = *board;
        moved_board.move_piece(coord, attempted_move);
        // update king coord if we just moved the king
        let king = if coord == king_coord {
            attempted_move
        } else {
            king_coord
        };
        proof {
            assert(all.take(k + 1).drop_last() =~= all.take(k as int));
        }
        if moved_board.is_square_safe(player, &king) {
            kept.push(attempted_move);
        }
        k += 1;
    }
    assert(all.take(all.len() as int) =~= all);
    out.0 = kept;
}

/// A side of the board for castling.
#[derive(Debug, PartialEq, Eq, Copy, Clone, Structural)]
pub enum BoardSide {
    Queenside,
    Kingside,
}

/// The rank on which the pieces of `color` start: 0 for white, 7 for black.
pub open spec fn first_rank(color: Color) -> int {
    match color {
        Color::White => 0,
        Color::Black => 7,
    }
}

/// `t` holds a piece of kind `kind` and color `color` that has never moved.
pub open spec fn is_unmoved(t: Tile, kind: PieceType, color: Color) -> bool {
    t.0 matches Some(p) && p.piece == kind && p.color == color && !p.has_moved
}

/// The file of the rook a king castles with on `side`.
pub open spec fn rook_file(side: BoardSide) -> int {
    match side {
        BoardSide::Queenside => 0,
        BoardSide::Kingside => 7,
    }
}

/// The first of the two squares the king passes over when castling.
pub open spec fn pass_file(side: BoardSide) -> int {
    match side {
        BoardSide::Queenside => 2,
        BoardSide::Kingside => 5,
    }
}

/// What `can_castle` answers.
pub open spec fn spec_can_castle(b: Board, color: Color, side: BoardSide) -> Result<(), &'static str> {
    let r = first_rank(color);
    let king_coord = mk(4, r);
    let f = pass_file(side);
    if !is_unmoved(b.tile_at(king_coord), PieceType::King, color) {
        Err("Can't castle, king is not an unmoved king")
    } else if !square_safe(b, color, king_coord) {
        Err("Can't castle, king is in check")
    } else if !is_unmoved(b.tile_at(mk(rook_file(side), r)), PieceType::Rook, color) {
        Err("Can't castle, rook is not an unmoved rook")
    } else if !(square_safe(b, color, mk(f, r)) && b.is_empty_at(f, r) && square_safe(
        b,
        color,
        mk(f + 1, r),
    ) && b.is_empty_at(f + 1, r)) {
        Err("Can't castle, at least one square not empty or safe")
    } else if side == BoardSide::Queenside && !b.is_empty_at(1, r) {
        Err("Can't castle, queenside rook space not empty")
    } else {
        Ok(())
    }
}

/// The squares the king of `color` may castle to: first queenside, then
/// kingside.
pub open spec fn spec_castle_locations(b: Board, color: Color) -> Seq<BoardCoord> {
    let r = first_rank(color);
    (if spec_can_castle(b, color, BoardSide::Queenside) is Ok {
        seq![mk(2, r)]
    } else {
        seq![]
    }) + (if spec_can_castle(b, color, BoardSide::Kingside) is Ok {
        seq![mk(6, r)]
    } else {
        seq![]
    })
}

/// The board after the king of `color` castles on `side`: the king goes from
/// file 4 to file 2 (queenside) or 6 (kingside), then the rook from file 0 to
/// 3 or from file 7 to 5.
pub open spec fn spec_castle(b: Board, color: Color, side: BoardSide) -> Board {
    let r = first_rank(color);
    let (king_end, rook_end) = match side {
        BoardSide::Queenside => (2int, 3int),
        BoardSide::Kingside => (6int, 5int),
    };
    b.spec_move(mk(4, r), mk(king_end, r)).spec_move(mk(rook_file(side), r), mk(rook_end, r))
}

/// Castling that `can_castle` allows moves the king two files from the e-file
/// towards the rook (to g kingside, to c queenside) and puts the rook on the
/// square the king passed over (f or d), leaving the squares they left empty
/// and every other square as it was. The back rank is the bottom one for
/// white and the top one for black.
pub proof fn lemma_castle_squares(b: Board, color: Color, side: BoardSide)
    requires
        spec_can_castle(b, color, side) is Ok,
    ensures
        ({
            let r: int = if color == Color::White {
                0
            } else {
                7
            };
            let a = spec_castle(b, color, side);
            let (king_to, rook_from, rook_to): (int, int, int) = if side == BoardSide::Kingside {
                (6, 7, 5)
            } else {
                (2, 0, 3)
            };
            &&& a.tile_at(mk(king_to, r)).0 matches Some(k) && k.color == color && k.piece is King
            &&& a.tile_at(mk(rook_to, r)).0 matches Some(q) && q.color == color && q.piece is Rook
            &&& a.tile_at(mk(4, r)).0 is None
            &&& a.tile_at(mk(rook_from, r)).0 is None
            &&& forall|c: BoardCoord|
                on_board_spec(c) && c != mk(4, r) && c != mk(king_to, r) && c != mk(rook_from, r) && c != mk(
                    rook_to,
                    r,
                ) ==> #[trigger] a.tile_at(c) == b.tile_at(c)
        }),
{
    broadcast use crate::board::lemma_spec_set;

    let r = first_rank(color);
    assert(on_board_spec(mk(4, r)));
    assert(on_board_spec(mk(rook_file(side), r)));
    assert(on_board_spec(mk(2, r)) && on_board_spec(mk(3, r)) && on_board_spec(mk(5, r)) && on_board_spec(
        mk(6, r),
    ));
}

/// The file of the pawn an en passant on `side` captures, beside the
/// capturing pawn.
pub open spec fn side_file(x: int, side: BoardSide) -> int {
    match side {
        BoardSide::Queenside => x - 1,
        BoardSide::Kingside => x + 1,
    }
}

/// What `check_enpassant` answers.
pub open spec fn spec_check_enpassant(b: Board, player: Color, capturing: BoardCoord, side: BoardSide) -> Result<
    (),
    &'static str,
> {
    let cx = side_file(capturing.0 as int, side);
    let cy = capturing.1 as int;
    if !on_board_xy(cx, cy) {
        Err("Expected coordinates to be in range 0-7")
    } else if !(b.tile_at(capturing).0 matches Some(p) && p.color == player && p.piece is Pawn) {
        Err("Capturing piece must be a pawn of the player's color")
    } else if !(b.tile_at(mk(cx, cy)).0 matches Some(q) && q.color != player && q.piece
        == PieceType::Pawn { just_lunged: true }) {
        Err("Captured piece must be a pawn that just lunged of the opposite color")
    } else {
        Ok(())
    }
}

/// The square the pawn at `capturing` lands on when it takes en passant on
/// `side`.
pub open spec fn enpassant_end(player: Color, capturing: BoardCoord, side: BoardSide) -> BoardCoord {
    mk(side_file(capturing.0 as int, side), capturing.1 + dir(player))
}

/// The board right after the pawn at `capturing` takes en passant on `side`:
/// it moves diagonally forward and the pawn beside it is removed.
pub open spec fn enpassant_board(b: Board, player: Color, capturing: BoardCoord, side: BoardSide) -> Board {
    b.spec_move(capturing, enpassant_end(player, capturing, side)).spec_set(
        mk(side_file(capturing.0 as int, side), capturing.1 as int),
        Tile(None),
    )
}

/// The en passant on `side` starts and lands on the board and leaves the king of
/// `player` (if it has one) on a square no enemy piece threatens.
pub open spec fn enpassant_safe(b: Board, player: Color, capturing: BoardCoord, side: BoardSide) -> bool {
    let e = enpassant_end(player, capturing, side);
    &&& on_board_spec(capturing)
    &&& on_board_xy(e.0 as int, e.1 as int)
    &&& match b.spec_get_king(player) {
        Some(k) => square_safe(enpassant_board(b, player, capturing, side), player, k),
        None => true,
    }
}

/// The squares the pawn at `capturing` may move to by en passant, keeping its
/// king safe: first towards the queenside, then towards the kingside.
pub open spec fn spec_enpassant_locations(b: Board, player: Color, capturing: BoardCoord) -> Seq<
    BoardCoord,
> {
    let y = capturing.1 + dir(player);
    (if spec_check_enpassant(b, player, capturing, BoardSide::Queenside) is Ok && enpassant_safe(
        b,
        player,
        capturing,
        BoardSide::Queenside,
    ) {
        seq![mk(capturing.0 - 1, y)]
    } else {
        seq![]
    }) + (if spec_check_enpassant(b, player, capturing, BoardSide::Kingside) is Ok && enpassant_safe(
        b,
        player,
        capturing,
        BoardSide::Kingside,
    ) {
        seq![mk(capturing.0 + 1, y)]
    } else {
        seq![]
    })
}

impl Board {
    /// Castle the King of `color`. This function does not check if
    /// doing so would actually be legal to do so in a real game, so you should
    /// check the castle first with `can_castle`
    pub fn castle(&mut self, color: Color, side: BoardSide)
        requires
            old(self).tile_at(mk(4, first_rank(color))).0 is Some,
            old(self).tile_at(mk(rook_file(side), first_rank(color))).0 is Some,
        ensures
            *final(self) == spec_castle(*old(self), color, side),
    {
        proof {
            broadcast use crate::board::lemma_spec_set;
        }
        let first_rank: i8 = match color {
            Color::White => 0,
            Color::Black => 7,
        };
        let king_start = BoardCoord(4, first_rank);
        let king_end = match side {
            BoardSide::Queenside => BoardCoord(2, first_rank),
            BoardSide::Kingside => BoardCoord(6, first_rank),
        };
        let rook_start = match side {
            BoardSide::Queenside => BoardCoord(0, first_rank),
            BoardSide::Kingside => BoardCoord(7, first_rank),
        };
        let rook_end = match side {
            BoardSide::Queenside => BoardCoord(3, first_rank),
            BoardSide::Kingside => BoardCoord(5, first_rank),
        };
        self.move_piece(king_start, king_end);
        self.move_piece(rook_start, rook_end);
    }

    /// Return a list of locations that the king may castle to.
    pub fn castle_locations(&self, color: Color) -> (v: Vec<BoardCoord>)
        ensures
            v@ == spec_castle_locations(*self, color),
    {
        let mut castle_locs = Vec::new();
        let first_rank: i8 = match color {
            Color::White => 0,
            Color::Black => 7,
        };
        if self.can_castle(color, BoardSide::Queenside).is_ok() {
            castle_locs.push(BoardCoord(2, first_rank));
        }
        if self.can_castle(color, BoardSide::Kingside).is_ok() {
            castle_locs.push(BoardCoord(6, first_rank));
        }
        assert(castle_locs@ =~= spec_castle_locations(*self, color));
        castle_locs
    }

    /// Returns Ok if the king can castle to the rook indicated
    /// Note that a king may only castle if all the following are true
    /// - The king has not moved
    /// - The rook to castle with has not moved
    /// - There are no pieces in between the rook and king
    /// - The king is not in check
    /// - The king does not pass through any square attacked by an enemy piece
    /// - The king does not end up in check
    /// Note that this means that, in the board below, the dots must both
    /// not be attacked and be empty tiles.
    ///   R . . . K . . R
    ///   0 1 2 3 4 5 6 7
    /// queenside kingside
    pub fn can_castle(&self, color: Color, side: BoardSide) -> (r: Result<(), &'static str>)
        ensures
            r == spec_can_castle(*self, color, side),
    {
        let first_rank: i8 = match color {
            Color::White => 0,
            Color::Black => 7,
        };
        // if the king hasn't moved, we expect it to be at (4, 0) or (4, 7)
        let king_coord = BoardCoord(4, first_rank);
        // King is actually a king and has not moved
        let king = self.get(king_coord);
        match king.0 {
            Some(Piece { piece: PieceType::King, color: c, has_moved: false }) if c == color => (),
            _ => {
                return Err("Can't castle, king is not an unmoved king");
            },
        }
        let king_is_safe = self.is_square_safe(color, &king_coord);
        if !king_is_safe {
            return Err("Can't castle, king is in check");
        }
        let side_file: i8 = match side {
            BoardSide::Queenside => 0,
            BoardSide::Kingside => 7,
        };
        let rook_coord = BoardCoord(side_file, first_rank);
        // rook_coord is actually a rook that has not moved
        let rook = self.get(rook_coord);
        match rook.0 {
            Some(Piece { piece: PieceType::Rook, color: c, has_moved: false }) if c == color => (),
            _ => {
                return Err("Can't castle, rook is not an unmoved rook");
            },
        }
        let king_passes_through: [BoardCoord; 2] = if rook_coord.0 == 0 {
            // Queenside castle
            [BoardCoord(2, first_rank), BoardCoord(3, first_rank)]
        } else {
            // Kingside castle
            [BoardCoord(5, first_rank), BoardCoord(6, first_rank)]
        };
        // All intervening tiles that the king passes through are empty and not
        // under attack.
        let mut k: usize = 0;
        #[verifier::loop_isolation(false)]
        while k < 2
            invariant
                0 <= k <= 2,
                0 <= first_rank <= 7,
                king_passes_through@ == seq![mk(pass_file(side), first_rank as int), mk(pass_file(side) + 1, first_rank as int)],
                forall|j: int| 0 <= j < k ==> square_safe(*self, color, #[trigger] king_passes_through@[j])
                    && self.tile_at(king_passes_through@[j]).0 is None,
            decreases 2 - k,
        {
            let square = king_passes_through[k];
            let tile_safe = self.is_square_safe(color, &square);
            let tile_empty = self.get(square).0.is_none();
            if !tile_safe || !tile_empty {
                proof {
                    let f = pass_file(side);
                    let r = first_rank as int;
                    assert(square == king_passes_through@[k as int]);
                    if k == 0 {
                        assert(square == mk(f, r));
                    } else {
                        assert(square == mk(f + 1, r));
                    }
                }
                return Err("Can't castle, at least one square not empty or safe");
            }
            k += 1;
        }
        // Additionally, if we are castling queenside, we need the tile just
        // to the left of the rook to be empty.
        let is_queenside = rook_coord == BoardCoord(0, first_rank);
        let queenside_space_empty = self.get(BoardCoord(1, first_rank)).0.is_none();
        if is_queenside && !queenside_space_empty {
            return Err("Can't castle, queenside rook space not empty");
        }
        Ok(())
    }

    /// Returns Ok if the move is a valid en passant. A player may en passant
    /// only if the following are true
    /// 1. The opposing player, in the previous turn, has just moved their pawn
    /// two spaces (aka: the pawn has `just_lunged` set to true)
    /// 2. The player has a capturing pawn on the fifth rank AND is in a file
    /// adjacent to the moved pawn
    /// 3. The player captures the opposing pawn on this turn.
    pub fn check_enpassant(&self, player: Color, capturing_pawn: BoardCoord, direction: BoardSide) -> (r:
        Result<(), &'static str>)
        requires
            i8::MIN < capturing_pawn.0 < i8::MAX,
            on_board_xy(side_file(capturing_pawn.0 as int, direction), capturing_pawn.1 as int)
                ==> on_board_spec(capturing_pawn),
        ensures
            r == spec_check_enpassant(*self, player, capturing_pawn, direction),
    {
        // We expect that start and end are diagonal from each other
        // and that the captured pawn is "one rank behind" the the end location
        // where "behind" is relative to the player capturing.
        let captured_pawn_coord = match direction {
            BoardSide::Queenside => (capturing_pawn.0 - 1, capturing_pawn.1),
            BoardSide::Kingside => (capturing_pawn.0 + 1, capturing_pawn.1),
        };
        let captured_pawn_coord = BoardCoord::new(captured_pawn_coord)?;
        let capturing_pawn = self.get(capturing_pawn);
        let captured_pawn = self.get(captured_pawn_coord);
        match capturing_pawn.0 {
            Some(Piece { color: c, piece: PieceType::Pawn { .. }, has_moved: _ }) if c == player => (),
            _ => return Err("Capturing piece must be a pawn of the player's color"),
        }
        match captured_pawn.0 {
            Some(
                Piece { color: c, piece: PieceType::Pawn { just_lunged: true }, has_moved: _ },
            ) if c != player => (),
            _ => {
                return Err("Captured piece must be a pawn that just lunged of the opposite color");
            },
        }
        Ok(())
    }

    /// Performs an en passant. This function does not check if this would be
    /// an actually valid en passant, so you should do that by calling
    /// `check_enpassant`. This function moves the piece located at `start`
    /// to `end` and kills whatever piece is just behind the tile at `end`
    /// where "behind" is defined relative to the piece being moved.
    pub fn enpassant(&mut self, start: BoardCoord, end: BoardCoord)
        requires
            on_board_spec(start),
            on_board_spec(end),
            old(self).tile_at(start).0 is Some,
            on_board_xy(end.0 as int, end.1 - dir(old(self).tile_at(start).0->Some_0.color)),
        ensures
            *final(self) == old(self).spec_move(start, end).spec_set(
                mk(end.0 as int, end.1 - dir(old(self).tile_at(start).0->Some_0.color)),
                Tile(None),
            ),
    {
        let direction = self.get(start).0.unwrap().color.direction();
        let captured_pawn = BoardCoord(end.0, end.1 - direction);
        self.move_piece(start, end);
        self.set(captured_pawn, Tile::blank());
    }

    /// Whether the en passant on `side`, which `check_enpassant` accepts, lands
    /// on the board and keeps the king of `player` safe.
    pub fn enpassant_is_safe(&self, player: Color, capturing_pawn: BoardCoord, side: BoardSide) -> (b: bool)
        requires
            spec_check_enpassant(*self, player, capturing_pawn, side) is Ok,
        ensures
            b == enpassant_safe(*self, player, capturing_pawn, side),
    {
        let x = match side {
            BoardSide::Queenside => capturing_pawn.0 - 1,
            BoardSide::Kingside => capturing_pawn.0 + 1,
        };
        if !on_board(capturing_pawn) {
            return false;
        }
        let end = BoardCoord(x, capturing_pawn.1 + player.direction());
        if !on_board(end) {
            return false;
        }
        let mut after = *self;
        after.move_piece(capturing_pawn, end);
        after.set(BoardCoord(x, capturing_pawn.1), Tile(None));
        proof {
            assert(after == enpassant_board(*self, player, capturing_pawn, side));
        }
        match self.get_king(player) {
            Some(king) => after.is_square_safe(player, &king),
            None => true,
        }
    }

    /// Return a list of locations a pawn can move to using enpassant.
    /// (really this always just returns one element or no elements)
    pub fn enpassant_locations(&self, player: Color, capturing_pawn: BoardCoord) -> (v: Vec<BoardCoord>)
        requires
            on_board_spec(capturing_pawn),
        ensures
            v@ == spec_enpassant_locations(*self, player, capturing_pawn),
    {
        let mut locations = Vec::new();
        if self.check_enpassant(player, capturing_pawn, BoardSide::Queenside).is_ok()
            && self.enpassant_is_safe(player, capturing_pawn, BoardSide::Queenside) {
            locations.push(BoardCoord(capturing_pawn.0 - 1, capturing_pawn.1 + player.direction()));
        }
        if self.check_enpassant(player, capturing_pawn, BoardSide::Kingside).is_ok()
            && self.enpassant_is_safe(player, capturing_pawn, BoardSide::Kingside) {
            locations.push(BoardCoord(capturing_pawn.0 + 1, capturing_pawn.1 + player.direction()));
        }
        assert(locations@ =~= spec_enpassant_locations(*self, player, capturing_pawn));
        locations
    }
}


/// The state of the game for the player to move.
#[derive(Debug, Clone, Copy, PartialEq, Eq, Structural)]
pub enum CheckmateState {
    Normal,
    Check,
    Checkmate,
    Stalemate,
    InsuffientMaterial,
}

/// The destinations `get_move_list` lists for the piece at `coord` when
/// `player` is to move: none off the board, while a pawn awaits promotion, on
/// an empty square or for a piece of the other color; else the moves that
/// keep the king safe, then the castles of a king or the en passant captures
/// of a pawn that keep its king safe.
pub open spec fn spec_move_list(b: Board, coord: BoardCoord, player: Color) -> Seq<BoardCoord> {
    if !on_board_spec(coord) || b.spec_pawn_needs_promotion() is Some {
        seq![]
    } else {
        match b.tile_at(coord).0 {
            None => seq![],
            Some(p) => if p.color != player {
                seq![]
            } else {
                legal_moves(b, player, coord) + match p.piece {
                    PieceType::King => spec_castle_locations(b, player),
                    PieceType::Pawn { .. } => spec_enpassant_locations(b, player, coord),
                    _ => seq![],
                }
            },
        }
    }
}

/// The moves of `get_all_moves` from the square with x = `i`, y = `j` on
/// (x outer, y inner).
pub open spec fn all_moves_scan(b: Board, player: Color, i: int, j: int) -> Seq<(BoardCoord, BoardCoord)>
    decreases 8 - i, 8 - j,
{
    if i < 0 || j < 0 || i >= 8 {
        seq![]
    } else if j >= 8 {
        all_moves_scan(b, player, i + 1, 0)
    } else {
        spec_move_list(b, mk(i, j), player).map_values(|e: BoardCoord| (mk(i, j), e))
            + all_moves_scan(b, player, i, j + 1)
    }
}

/// Every move `player` may make, as (start, end) pairs, squares taken with x
/// outer and y inner.
pub open spec fn spec_all_moves(b: Board, player: Color) -> Seq<(BoardCoord, BoardCoord)> {
    all_moves_scan(b, player, 0, 0)
}

/// The king of `player` is on the board, or none of its pieces could be asked
/// for moves (a pawn awaits promotion, or `player` has no piece at all).
pub open spec fn moves_defined(b: Board, player: Color) -> bool {
    b.spec_get_king(player) is Some || b.spec_pawn_needs_promotion() is Some || forall|c: BoardCoord|
        on_board_spec(c) ==> !(#[trigger] b.tile_at(c)).spec_is_color(player)
}

/// Some piece of `player` has a move that keeps its king safe (castling and en
/// passant aside).
pub open spec fn spec_has_legal_moves(b: Board, player: Color) -> bool {
    exists|c: BoardCoord|
        on_board_spec(c) && b.tile_at(c).spec_is_color(player) && #[trigger] legal_moves(
            b,
            player,
            c,
        ).len() > 0
}

/// The king of `player` is threatened.
pub open spec fn spec_in_check(b: Board, player: Color) -> bool {
    !square_safe(b, player, b.spec_get_king(player)->Some_0)
}

pub open spec fn is_heavy(p: PieceType) -> bool {
    p is Pawn || p is Rook || p is Queen
}

pub open spec fn is_minor(p: PieceType) -> bool {
    p is Knight || p is Bishop
}

/// `t` holds a pawn, a rook or a queen.
pub open spec fn holds_heavy(t: Tile) -> bool {
    t.0 matches Some(p) && is_heavy(p.piece)
}

/// `t` holds a knight or a bishop.
pub open spec fn holds_minor(t: Tile) -> bool {
    t.0 matches Some(p) && is_minor(p.piece)
}

/// No pawn, rook or queen is left, and at most one knight or bishop: neither
/// side can checkmate.
pub open spec fn spec_insufficient_material(b: Board) -> bool {
    &&& forall|c: BoardCoord| on_board_spec(c) ==> !holds_heavy(#[trigger] b.tile_at(c))
    &&& forall|c: BoardCoord, d: BoardCoord|
        on_board_spec(c) && on_board_spec(d) && holds_minor(#[trigger] b.tile_at(c))
            && holds_minor(#[trigger] b.tile_at(d)) ==> c == d
}

/// The material is insufficient exactly when, kings aside, the board holds
/// no piece but at most one knight or bishop: king against king, king and
/// knight against king, or king and bishop against king.
pub proof fn lemma_insufficient_material_exactly(b: Board)
    ensures
        spec_insufficient_material(b) <==> {
            &&& forall|c: BoardCoord|
                on_board_spec(c) ==> ((#[trigger] b.tile_at(c)).0 matches Some(p) ==> (p.piece is King
                    || p.piece is Knight || p.piece is Bishop))
            &&& forall|c: BoardCoord, d: BoardCoord|
                on_board_spec(c) && on_board_spec(d) && c != d ==> !(((#[trigger] b.tile_at(c)).0 matches Some(
                    p,
                ) && (p.piece is Knight || p.piece is Bishop)) && ((#[trigger] b.tile_at(d)).0 matches Some(q)
                    && (q.piece is Knight || q.piece is Bishop)))
        },
{
}

pub open spec fn spec_checkmate_state(b: Board, player: Color) -> CheckmateState {
    if spec_insufficient_material(b) {
        CheckmateState::InsuffientMaterial
    } else {
        match (spec_has_legal_moves(b, player), spec_in_check(b, player)) {
            (false, false) => CheckmateState::Stalemate,
            (false, true) => CheckmateState::Checkmate,
            (true, false) => CheckmateState::Normal,
            (true, true) => CheckmateState::Check,
        }
    }
}

/// What `check_move` answers.
pub open spec fn spec_check_move(b: Board, player: Color, start: BoardCoord, end: BoardCoord) -> Result<(), &'static str> {
    match b.tile_at(start).0 {
        None => Err("Can't move an empty tile"),
        Some(p) => if p.color != player {
            Err("Can't move a piece that isn't yours")
        } else if legal_moves(b, player, start).contains(end) {
            Ok(())
        } else {
            Err("Can't move a piece there")
        },
    }
}

fn contains_coord(v: &Vec<BoardCoord>, c: BoardCoord) -> (b: bool)
    ensures
        b == v@.contains(c),
{
    let mut k: usize = 0;
    while k < v.len()
        invariant
            0 <= k <= v@.len(),
            forall|j: int| 0 <= j < k ==> v@[j] != c,
        decreases v@.len() - k,
    {
        if v[k] == c {
            return true;
        }
        k += 1;
    }
    false
}

impl Board {
    /// Check if the piece located at `start` can be legally be moved to
    /// `end`. This function assumes the player-to-move is whatever `player` is.
    /// This function returns `Ok(())` if the move is valid and `Err(&str)` if
    /// the move is invalid.
    pub fn check_move(&self, player: Color, start: BoardCoord, end: BoardCoord) -> (r: Result<(), &'static str>)
        requires
            on_board_spec(start),
            self.tile_at(start).spec_is_color(player) ==> self.spec_get_king(player) is Some,
        ensures
            r == spec_check_move(*self, player, start, end),
    {
        let start_piece = self.get(start);
        if start_piece.0.is_none() {
            return Err("Can't move an empty tile");
        }
        let start_piece = start_piece.0.unwrap();
        if start_piece.color != player {
            return Err("Can't move a piece that isn't yours");
        }
        let mut valid_end_spots = MoveList::reserved();
        get_move_list_full(self, player, start, &mut valid_end_spots);
        assert(Seq::<BoardCoord>::empty() + pseudo_moves(*self, start) =~= pseudo_moves(*self, start));
        if contains_coord(&valid_end_spots.0, end) {
            Ok(())
        } else {
            Err("Can't move a piece there")
        }
    }

    /// Return the list of valid places the piece at `coord` can move for the
    /// given `player`. Note that the returned vector is empty if any of the
    /// following are true.
    /// - `coord` is off the board
    /// - a pawn needs to be promoted
    /// - `coord` refers to an empty tile
    /// - `coord` refers to a piece that is the opposite color of `player`
    /// - `coord` refers to a piece that has nowhere to move
    /// Also note that this function DOES check if the move would place the
    /// king into check, and DOES list the castles of a king.
    pub fn get_move_list(&self, coord: BoardCoord, player: Color) -> (v: Vec<BoardCoord>)
        requires
            on_board_spec(coord) && self.spec_pawn_needs_promotion() is None && self.tile_at(
                coord,
            ).spec_is_color(player) ==> self.spec_get_king(player) is Some,
        ensures
            v@ == spec_move_list(*self, coord, player),
    {
        if !on_board(coord) {
            return vec![];
        }
        if self.pawn_needs_promotion().is_some() {
            return vec![];
        }
        // If not a piece
        let tile = self.get(coord).0;
        if tile.is_none() {
            return vec![];
        }
        // If not a piece of the player's color
        let piece = tile.unwrap();
        if piece.color != player {
            return vec![];
        }
        let mut list = MoveList::reserved();
        get_move_list_full(&self, player, coord, &mut list);
        assert(Seq::<BoardCoord>::empty() + pseudo_moves(*self, coord) =~= pseudo_moves(*self, coord));
        match piece.piece {
            PieceType::King => {
                let mut castles = self.castle_locations(player);
                list.0.append(&mut castles);
            },
            PieceType::Pawn { .. } => {
                let mut passes = self.enpassant_locations(player, coord);
                list.0.append(&mut passes);
            },
            _ => {
                assert(list.0@ =~= list.0@ + Seq::<BoardCoord>::empty());
            },
        }
        list.0
    }

    /// Whether `moves_defined` holds: the king of `player` is on the board, a
    /// pawn awaits promotion, or `player` has no piece at all.
    pub fn moves_are_defined(&self, player: Color) -> (b: bool)
        ensures
            b == moves_defined(*self, player),
    {
        if self.get_king(player).is_some() || self.pawn_needs_promotion().is_some() {
            return true;
        }
        let mut x: i8 = 0;
        while x < 8
            invariant
                0 <= x <= 8,
                self.spec_get_king(player) is None,
                self.spec_pawn_needs_promotion() is None,
                forall|c: BoardCoord| on_board_spec(c) && c.0 < x ==> !(#[trigger] self.tile_at(c)).spec_is_color(player),
            decreases 8 - x,
        {
            let mut y: i8 = 0;
            while y < 8
                invariant
                    0 <= x < 8,
                    0 <= y <= 8,
                    self.spec_get_king(player) is None,
                    self.spec_pawn_needs_promotion() is None,
                    forall|c: BoardCoord|
                        on_board_spec(c) && (c.0 < x || (c.0 == x && c.1 < y)) ==> !(#[trigger] self.tile_at(
                            c,
                        )).spec_is_color(player),
                decreases 8 - y,
            {
                if self.get(BoardCoord(x, y)).is_color(player) {
                    assert(on_board_spec(BoardCoord(x, y)) && self.tile_at(BoardCoord(x, y)).spec_is_color(player));
                    return false;
                }
                y += 1;
            }
            x += 1;
        }
        true
    }

    /// Return the list of all valid moves that can be made by a player
    pub fn get_all_moves(&self, player: Color) -> (v: Vec<(BoardCoord, BoardCoord)>)
        requires
            moves_defined(*self, player),
        ensures
            v@ == spec_all_moves(*self, player),
    {
        let mut moves: Vec<(BoardCoord, BoardCoord)> = vec![];
        let mut i: i8 = 0;
        while i < 8
            invariant
                0 <= i <= 8,
                moves_defined(*self, player),
                moves@ + all_moves_scan(*self, player, i as int, 0) == spec_all_moves(*self, player),
            decreases 8 - i,
        {
            let mut j: i8 = 0;
            while j < 8
                invariant
                    0 <= i < 8,
                    0 <= j <= 8,
                    moves_defined(*self, player),
                    moves@ + all_moves_scan(*self, player, i as int, j as int) == spec_all_moves(
                        *self,
                        player,
                    ),
                decreases 8 - j,
            {
                let start = BoardCoord(i, j);
                let this_move_list = self.get_move_list(start, player);
                let ghost pairs = this_move_list@.map_values(|e: BoardCoord| (start, e));
                let ghost before = moves@;
                let mut k: usize = 0;
                while k < this_move_list.len()
                    invariant
                        0 <= k <= this_move_list@.len(),
                        pairs == this_move_list@.map_values(|e: BoardCoord| (start, e)),
                        moves@ == before + pairs.take(k as int),
                    decreases this_move_list@.len() - k,
                {
                    moves.push((start, this_move_list[k]));
                    assert(pairs.take(k + 1) =~= pairs.take(k as int).push(pairs[k as int]));
                    k += 1;
                }
                proof {
                    assert(pairs.take(pairs.len() as int) =~= pairs);
                    assert(start == mk(i as int, j as int));
                    assert(all_moves_scan(*self, player, i as int, j as int) == pairs
                        + all_moves_scan(*self, player, i as int, j + 1));
                    assert(before + (pairs + all_moves_scan(*self, player, i as int, j + 1)) =~= moves@
                        + all_moves_scan(*self, player, i as int, j + 1));
                }
                j += 1;
            }
            i += 1;
        }
        assert(moves@ =~= moves@ + all_moves_scan(*self, player, 8, 0));
        moves
    }

    /// True if some piece of `player` has a move that keeps its king safe.
    pub fn has_legal_moves(&self, player: Color) -> (b: bool)
        requires
            self.spec_get_king(player) is Some,
        ensures
            b == spec_has_legal_moves(*self, player),
    {
        let mut i: i8 = 0;
        while i < 8
            invariant
                0 <= i <= 8,
                self.spec_get_king(player) is Some,
                forall|c: BoardCoord|
                    on_board_spec(c) && c.1 < i ==> !(self.tile_at(c).spec_is_color(player) && #[trigger] legal_moves(*self, player, c).len() > 0),
            decreases 8 - i,
        {
            let mut j: i8 = 0;
            while j < 8
                invariant
                    0 <= i < 8,
                    0 <= j <= 8,
                    self.spec_get_king(player) is Some,
                    forall|c: BoardCoord|
                        on_board_spec(c) && (c.1 < i || (c.1 == i && c.0 < j)) ==> !(self.tile_at(c).spec_is_color(player) && #[trigger] legal_moves(*self, player, c).len() > 0),
                decreases 8 - j,
            {
                let coord = BoardCoord(j, i);
                let tile = self.get(coord);
                if tile.is_color(player) && self.piece_has_legal_moves(player, coord) {
                    return true;
                }
                j += 1;
            }
            i += 1;
        }
        false
    }

    /// True if the piece at `coord` has a move that keeps the king of `player`
    /// safe.
    pub fn piece_has_legal_moves(&self, player: Color, coord: BoardCoord) -> (b: bool)
        requires
            on_board_spec(coord),
            self.spec_get_king(player) is Some,
        ensures
            b == (legal_moves(*self, player, coord).len() > 0),
    {
        let mut out = MoveList::reserved();
        get_move_list_full(self, player, coord, &mut out);
        assert(Seq::<BoardCoord>::empty() + pseudo_moves(*self, coord) =~= pseudo_moves(*self, coord));
        out.0.len() != 0
    }

    /// True if the king of `player` is threatened.
    pub fn is_in_check(&self, player: Color) -> (b: bool)
        requires
            self.spec_get_king(player) is Some,
        ensures
            b == spec_in_check(*self, player),
    {
        !self.is_square_safe(player, &self.get_king(player).unwrap())
    }

    /// True when no side can checkmate: only kings and at most one knight or
    /// bishop are left.
    pub fn insuffient_material(&self) -> (b: bool)
        ensures
            b == spec_insufficient_material(*self),
    {
        // Combinations with insufficient material to checkmate are:
        //     king versus king
        //     king and bishop versus king
        //     king and knight versus king
        let mut num_minor: u8 = 0;
        let ghost mut first: BoardCoord = BoardCoord(0, 0);
        let ghost mut second: BoardCoord = BoardCoord(0, 0);
        let mut i: i8 = 0;
        while i < 8
            invariant
                0 <= i <= 8,
                num_minor <= 8 * i,
                num_minor >= 1 ==> first.0 < i,
                forall|c: BoardCoord| on_board_spec(c) && c.0 < i ==> !holds_heavy(#[trigger] self.tile_at(c)),
                num_minor >= 1 ==> on_board_spec(first) && holds_minor(self.tile_at(first)),
                num_minor >= 2 ==> on_board_spec(second) && second != first && holds_minor(self.tile_at(second)),
                num_minor <= 1 ==> forall|c: BoardCoord| on_board_spec(c) && c.0 < i && holds_minor(#[trigger] self.tile_at(c)) ==> num_minor == 1 && c == first,
            decreases 8 - i,
        {
            let mut j: i8 = 0;
            while j < 8
                invariant
                    0 <= i < 8,
                    0 <= j <= 8,
                    num_minor <= 8 * i + j,
                    num_minor >= 1 ==> (first.0 < i || (first.0 == i && first.1 < j)),
                    forall|c: BoardCoord| on_board_spec(c) && (c.0 < i || (c.0 == i && c.1 < j)) ==> !holds_heavy(#[trigger] self.tile_at(c)),
                    num_minor >= 1 ==> on_board_spec(first) && holds_minor(self.tile_at(first)),
                    num_minor >= 2 ==> on_board_spec(second) && second != first && holds_minor(self.tile_at(second)),
                    num_minor <= 1 ==> forall|c: BoardCoord| on_board_spec(c) && (c.0 < i || (c.0 == i && c.1 < j)) && holds_minor(#[trigger] self.tile_at(c)) ==> num_minor == 1 && c == first,
                decreases 8 - j,
            {
                let coord = BoardCoord(i, j);
                let tile = self.get(coord).0;
                match tile {
                    None => {},
                    Some(piece) => match piece.piece {
                        PieceType::Pawn { .. } | PieceType::Rook | PieceType::Queen => {
                            return false;
                        },
                        PieceType::Knight | PieceType::Bishop => {
                            proof {
                                if num_minor == 0 {
                                    first = coord;
                                } else if num_minor == 1 {
                                    second = coord;
                                }
                            }
                            num_minor += 1;
                        },
                        // we will assume that the board always has two kings
                        PieceType::King => {},
                    },
                }
                j += 1;
            }
            i += 1;
        }
        num_minor <= 1
    }

    /// Returns the state of the game for `player`.
    pub fn checkmate_state(&self, player: Color) -> (s: CheckmateState)
        requires
            self.spec_get_king(player) is Some,
        ensures
            s == spec_checkmate_state(*self, player),
    {
        match (self.has_legal_moves(player), self.is_in_check(player), self.insuffient_material()) {
            (false, false, false) => CheckmateState::Stalemate,
            (false, true, false) => CheckmateState::Checkmate,
            (true, false, false) => CheckmateState::Normal,
            (true, true, false) => CheckmateState::Check,
            (_, _, true) => CheckmateState::InsuffientMaterial,
        }
    }
}


proof fn lemma_promotion_scan_none(b: Board, i: int)
    requires
        0 <= i <= 8,
        promotion_scan(b, i) is None,
    ensures
        forall|x: int|
            i <= x < 8 ==> !b.tile_at(mk(x, 0)).spec_is(Color::Black, PieceType::Pawn { just_lunged: false })
                && !b.tile_at(mk(x, 7)).spec_is(Color::White, PieceType::Pawn { just_lunged: false }),
    decreases 8 - i,
{
    if i < 8 {
        lemma_promotion_scan_none(b, i + 1);
    }
}

/// Every square `get_move_list` lists is on the board.
pub proof fn lemma_move_list_on_board(b: Board, coord: BoardCoord, player: Color)
    ensures
        forall|k: int|
            0 <= k < spec_move_list(b, coord, player).len() ==> on_board_spec(
                #[trigger] spec_move_list(b, coord, player)[k],
            ),
{
    let ml = spec_move_list(b, coord, player);
    if on_board_spec(coord) && b.spec_pawn_needs_promotion() is None && b.tile_at(coord).0 is Some
        && b.tile_at(coord).0->Some_0.color == player {
        let p = b.tile_at(coord).0->Some_0;
        let king = b.spec_get_king(player)->Some_0;
        let lm = legal_moves(b, player, coord);
        lemma_pseudo_moves_on_board(b, coord);
        lemma_keep_safe_subset(b, player, coord, king, pseudo_moves(b, coord));
        let extra = match p.piece {
            PieceType::King => spec_castle_locations(b, player),
            PieceType::Pawn { .. } => spec_enpassant_locations(b, player, coord),
            _ => seq![],
        };
        assert(ml == lm + extra);
        if p.piece is Pawn {
            lemma_promotion_scan_none(b, 0);
            assert(!b.tile_at(mk(coord.0 as int, 0)).spec_is(Color::Black, PieceType::Pawn { just_lunged: false }));
            assert(!b.tile_at(mk(coord.0 as int, 7)).spec_is(Color::White, PieceType::Pawn { just_lunged: false }));
        }
        assert forall|k: int| 0 <= k < ml.len() implies on_board_spec(#[trigger] ml[k]) by {
            if k < lm.len() {
                assert(ml[k] == lm[k]);
                assert(pseudo_moves(b, coord).contains(lm[k]));
            } else {
                assert(ml[k] == extra[k - lm.len()]);
            }
        }
    }
}

proof fn lemma_scan_on_board(b: Board, player: Color, i: int, j: int)
    requires
        0 <= i,
        0 <= j,
    ensures
        forall|k: int|
            0 <= k < all_moves_scan(b, player, i, j).len() ==> on_board_spec(
                (#[trigger] all_moves_scan(b, player, i, j)[k]).0,
            ) && on_board_spec(all_moves_scan(b, player, i, j)[k].1),
    decreases 8 - i, 8 - j,
{
    if i >= 8 {
    } else if j >= 8 {
        lemma_scan_on_board(b, player, i + 1, 0);
        assert(all_moves_scan(b, player, i, j) == all_moves_scan(b, player, i + 1, 0));
    } else {
        lemma_scan_on_board(b, player, i, j + 1);
        lemma_move_list_on_board(b, mk(i, j), player);
        let ml = spec_move_list(b, mk(i, j), player);
        let pairs = ml.map_values(|e: BoardCoord| (mk(i, j), e));
        let rest = all_moves_scan(b, player, i, j + 1);
        let all = all_moves_scan(b, player, i, j);
        assert(all == pairs + rest);
        assert forall|k: int| 0 <= k < all.len() implies on_board_spec((#[trigger] all[k]).0)
            && on_board_spec(all[k].1) by {
            if k < pairs.len() {
                assert(all[k] == pairs[k]);
                assert(pairs[k] == (mk(i, j), ml[k]));
            } else {
                assert(all[k] == rest[k - pairs.len()]);
            }
        }
    }
}

/// Every move `get_all_moves` lists starts and ends on the board.
pub proof fn lemma_all_moves_on_board(b: Board, player: Color)
    ensures
        forall|k: int|
            0 <= k < spec_all_moves(b, player).len() ==> on_board_spec(
                (#[trigger] spec_all_moves(b, player)[k]).0,
            ) && on_board_spec(spec_all_moves(b, player)[k].1),
{
    lemma_scan_on_board(b, player, 0, 0);
}


proof fn lemma_keep_safe_all_safe(
    b: Board,
    player: Color,
    coord: BoardCoord,
    king: BoardCoord,
    s: Seq<BoardCoord>,
)
    ensures
        forall|i: int|
            0 <= i < keep_safe(b, player, coord, king, s).len() ==> safe_after(
                b,
                player,
                coord,
                #[trigger] keep_safe(b, player, coord, king, s)[i],
                king,
            ),
    decreases s.len(),
{
    if s.len() > 0 {
        lemma_keep_safe_all_safe(b, player, coord, king, s.drop_last());
        let prev = keep_safe(b, player, coord, king, s.drop_last());
        let all = keep_safe(b, player, coord, king, s);
        assert forall|i: int| 0 <= i < all.len() implies safe_after(b, player, coord, #[trigger] all[i], king) by {
            if i < prev.len() {
                assert(all[i] == prev[i]);
            }
        }
    }
}

/// A move `legal_moves` lists never leaves the mover's king threatened: on
/// the board after the move, no enemy piece threatens the king (which has
/// moved along if it was the piece moved).
pub proof fn lemma_legal_moves_keep_king_safe(b: Board, player: Color, coord: BoardCoord, m: BoardCoord)
    requires
        b.spec_get_king(player) is Some,
        legal_moves(b, player, coord).contains(m),
    ensures
        ({
            let king = b.spec_get_king(player)->Some_0;
            square_safe(b.spec_move(coord, m), player, if coord == king { m } else { king })
        }),
{
    let king = b.spec_get_king(player)->Some_0;
    lemma_keep_safe_all_safe(b, player, coord, king, pseudo_moves(b, coord));
    let lm = legal_moves(b, player, coord);
    let i = choose|i: int| 0 <= i < lm.len() && lm[i] == m;
    assert(safe_after(b, player, coord, lm[i], king));
}

/// Once the `just_lunged` flags are cleared (as every turn does), no pawn
/// can be taken en passant: an en passant must be taken right after the
/// lunge.
pub proof fn lemma_no_enpassant_after_clear(b: Board, player: Color, capturing: BoardCoord, side: BoardSide)
    ensures
        spec_check_enpassant(b.spec_cleared(), player, capturing, side) is Err,
{
    broadcast use crate::board::lemma_board_from;
    let cx = side_file(capturing.0 as int, side);
    let cy = capturing.1 as int;
    if on_board_xy(cx, cy) {
        let c = mk(cx, cy);
        assert(on_board_spec(c));
        assert(b.spec_cleared().tile_at(c) == crate::board::with_just_lunged(b.tile_at(c), false));
    }
}

/// The scan of `get_all_moves` from (i, j) on lists each move of each square
/// it has yet to visit.
proof fn lemma_scan_contains(b: Board, player: Color, i: int, j: int, c: BoardCoord, m: BoardCoord)
    requires
        0 <= i <= 8,
        0 <= j <= 8,
        on_board_spec(c),
        c.0 > i || (c.0 == i && c.1 >= j),
        spec_move_list(b, c, player).contains(m),
    ensures
        all_moves_scan(b, player, i, j).contains((c, m)),
    decreases 8 - i, 8 - j,
{
    if i >= 8 {
    } else if j >= 8 {
        lemma_scan_contains(b, player, i + 1, 0, c, m);
    } else {
        let here = spec_move_list(b, mk(i, j), player).map_values(|e: BoardCoord| (mk(i, j), e));
        let rest = all_moves_scan(b, player, i, j + 1);
        assert(all_moves_scan(b, player, i, j) == here + rest);
        if c.0 == i && c.1 == j {
            assert(c == mk(i, j));
            let ml = spec_move_list(b, c, player);
            let t = choose|t: int| 0 <= t < ml.len() && ml[t] == m;
            assert(here[t] == (c, m));
            assert((here + rest)[t] == (c, m));
        } else {
            lemma_scan_contains(b, player, i, j + 1, c, m);
            let t = choose|t: int| 0 <= t < rest.len() && rest[t] == (c, m);
            assert((here + rest)[here.len() + t] == (c, m));
        }
    }
}

/// While the game goes on (the state is normal or check, no pawn awaits
/// promotion), the player to move has a move `get_all_moves` lists; and the
/// state is check or checkmate exactly when its king is threatened.
pub proof fn lemma_game_state_moves(b: Board, player: Color)
    requires
        b.spec_get_king(player) is Some,
    ensures
        (spec_checkmate_state(b, player) == CheckmateState::Normal || spec_checkmate_state(b, player)
            == CheckmateState::Check) && b.spec_pawn_needs_promotion() is None ==> spec_all_moves(b, player).len()
            > 0,
        !spec_insufficient_material(b) ==> ((spec_checkmate_state(b, player) == CheckmateState::Check
            || spec_checkmate_state(b, player) == CheckmateState::Checkmate) <==> !square_safe(
            b,
            player,
            b.spec_get_king(player)->Some_0,
        )),
{
    if (spec_checkmate_state(b, player) == CheckmateState::Normal || spec_checkmate_state(b, player)
        == CheckmateState::Check) && b.spec_pawn_needs_promotion() is None {
        let c = choose|c: BoardCoord|
            on_board_spec(c) && b.tile_at(c).spec_is_color(player) && #[trigger] legal_moves(b, player, c).len()
                > 0;
        let lm = legal_moves(b, player, c);
        let m = lm[0];
        let ml = spec_move_list(b, c, player);
        let extra = match b.tile_at(c).0->Some_0.piece {
            PieceType::King => spec_castle_locations(b, player),
            PieceType::Pawn { .. } => spec_enpassant_locations(b, player, c),
            _ => seq![],
        };
        assert(ml == lm + extra);
        assert(ml[0] == m);
        lemma_scan_contains(b, player, 0, 0, c, m);
    }
}

} // verus!
