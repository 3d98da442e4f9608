//! The squares each kind of piece can reach, before the safety of the king
//! is taken into account.
use vstd::prelude::*;

use crate::board::{
    dir, mk, on_board, on_board_spec, on_board_xy, Board, BoardCoord, Color, PieceType,
};

verus! {

/// A list of spaces that a piece may move to.
pub struct MoveList(pub Vec<BoardCoord>);

impl MoveList {
    /// An empty list, with room for the 28 squares a queen can reach at most.
    pub fn reserved() -> (m: MoveList)
        ensures
            m.0@ == Seq::<BoardCoord>::empty(),
    {
        MoveList(Vec::with_capacity(28))
    }
}

/// `v` along the y axis as seen by `color` (white moves up, black down).
pub open spec fn scale(v: int, color: Color) -> int {
    match color {
        Color::White => v,
        Color::Black => -v,
    }
}

proof fn lemma_scale(v: int, color: Color)
    ensures
        v * dir(color) == scale(v, color),
{
    assert(v * 1 == v) by (nonlinear_arith);
    assert(v * -1 == -v) by (nonlinear_arith);
}

/// The squares a pawn of `color` at `pos` can move to: one step forward onto
/// an empty square, two steps forward when it has not moved and both squares
/// are empty, and one step diagonally forward onto a piece of the other color.
pub open spec fn pawn_moves(b: Board, pos: BoardCoord, color: Color) -> Seq<BoardCoord> {
    let x = pos.0 as int;
    let fy = pos.1 + dir(color);
    let dy = pos.1 + 2 * dir(color);
    let forward_ok = on_board_xy(x, fy) && b.is_empty_at(x, fy);
    let s1 = if forward_ok {
        seq![mk(x, fy)]
    } else {
        seq![]
    };
    let s2 = if on_board_xy(x, dy) && b.is_empty_at(x, dy) && !b.tile_at(pos).0->Some_0.has_moved
        && forward_ok {
        seq![mk(x, dy)]
    } else {
        seq![]
    };
    let s3 = if on_board_xy(x + 1, fy) && b.enemy_at(x + 1, fy, color) {
        seq![mk(x + 1, fy)]
    } else {
        seq![]
    };
    let s4 = if on_board_xy(x - 1, fy) && b.enemy_at(x - 1, fy, color) {
        seq![mk(x - 1, fy)]
    } else {
        seq![]
    };
    s1 + s2 + s3 + s4
}

/// A piece of `color` may end its move on (x, y): the square is on the board
/// and is empty or holds a piece of the other color.
pub open spec fn can_land(b: Board, x: int, y: int, color: Color) -> bool {
    on_board_xy(x, y) && (b.is_empty_at(x, y) || b.enemy_at(x, y, color))
}

/// The squares reached from `pos` by the offsets `deltas` (the y offset seen
/// by `color`), in the order of `deltas`, where a piece of `color` may land.
pub open spec fn jump_moves(b: Board, pos: BoardCoord, color: Color, deltas: Seq<BoardCoord>) -> Seq<
    BoardCoord,
>
    decreases deltas.len(),
{
    if deltas.len() == 0 {
        seq![]
    } else {
        let prev = jump_moves(b, pos, color, deltas.drop_last());
        let x = pos.0 + deltas.last().0;
        let y = pos.1 + scale(deltas.last().1 as int, color);
        if can_land(b, x, y, color) {
            prev.push(mk(x, y))
        } else {
            prev
        }
    }
}

/// The squares a sliding piece of `color` sees from (x, y) in the direction
/// (dx, dy), at most `n` steps: empty squares up to and including the first
/// piece of the other color, stopping before a piece of its own color or the
/// edge of the board.
pub open spec fn ray(b: Board, color: Color, x: int, y: int, dx: int, dy: int, n: nat) -> Seq<
    BoardCoord,
>
    decreases n,
{
    if n == 0 {
        seq![]
    } else {
        let nx = x + dx;
        let ny = y + dy;
        if !on_board_xy(nx, ny) {
            seq![]
        } else if b.is_empty_at(nx, ny) {
            seq![mk(nx, ny)] + ray(b, color, nx, ny, dx, dy, (n - 1) as nat)
        } else if b.enemy_at(nx, ny, color) {
            seq![mk(nx, ny)]
        } else {
            seq![]
        }
    }
}

/// The rays of `dirs` (the y direction seen by `color`), one after the other.
pub open spec fn los_moves(b: Board, pos: BoardCoord, color: Color, dirs: Seq<BoardCoord>) -> Seq<
    BoardCoord,
>
    decreases dirs.len(),
{
    if dirs.len() == 0 {
        seq![]
    } else {
        los_moves(b, pos, color, dirs.drop_last()) + ray(
            b,
            color,
            pos.0 as int,
            pos.1 as int,
            dirs.last().0 as int,
            scale(dirs.last().1 as int, color),
            7,
        )
    }
}

pub open spec fn knight_deltas() -> Seq<BoardCoord> {
    seq![
        BoardCoord(1i8, 2i8),
        BoardCoord(2i8, 1i8),
        BoardCoord(-1i8, 2i8),
        BoardCoord(-2i8, 1i8),
        BoardCoord(1i8, -2i8),
        BoardCoord(2i8, -1i8),
        BoardCoord(-1i8, -2i8),
        BoardCoord(-2i8, -1i8),
    ]
}

pub open spec fn king_deltas() -> Seq<BoardCoord> {
    seq![
        BoardCoord(0i8, 1i8),
        BoardCoord(1i8, 1i8),
        BoardCoord(1i8, 0i8),
        BoardCoord(1i8, -1i8),
        BoardCoord(0i8, -1i8),
        BoardCoord(-1i8, -1i8),
        BoardCoord(-1i8, 0i8),
        BoardCoord(-1i8, 1i8),
    ]
}

pub open spec fn rook_dirs() -> Seq<BoardCoord> {
    seq![BoardCoord(1i8, 0i8), BoardCoord(-1i8, 0i8), BoardCoord(0i8, 1i8), BoardCoord(0i8, -1i8)]
}

pub open spec fn bishop_dirs() -> Seq<BoardCoord> {
    seq![BoardCoord(1i8, 1i8), BoardCoord(-1i8, 1i8), BoardCoord(1i8, -1i8), BoardCoord(-1i8, -1i8)]
}

/// The lines of sight of a rook, bishop or queen.
pub open spec fn los_dirs(p: PieceType) -> Seq<BoardCoord> {
    match p {
        PieceType::Rook => rook_dirs(),
        PieceType::Bishop => bishop_dirs(),
        _ => rook_dirs() + bishop_dirs(),
    }
}

/// The squares the piece at `coord` can move to, before the safety of its
/// king is considered, and without castling or en passant.
pub open spec fn pseudo_moves(b: Board, coord: BoardCoord) -> Seq<BoardCoord> {
    match b.tile_at(coord).0 {
        None => seq![],
        Some(p) => match p.piece {
            PieceType::Pawn { .. } => pawn_moves(b, coord, p.color),
            PieceType::Knight => jump_moves(b, coord, p.color, knight_deltas()),
            PieceType::King => jump_moves(b, coord, p.color, king_deltas()),
            _ => los_moves(b, coord, p.color, los_dirs(p.piece)),
        },
    }
}

/// Return a list of valid movement deltas (offsets from the piece) given a
/// PieceType. Move deltas DO NOT take into account the piece's color.
/// This function only works on Knights and Kings.
pub fn get_move_deltas(piece: PieceType) -> (v: Vec<BoardCoord>)
    requires
        piece is Knight || piece is King,
    ensures
        v@ == if piece is Knight {
            knight_deltas()
        } else {
            king_deltas()
        },
{
    let v = match piece {
        PieceType::Knight => vec![
            BoardCoord(1i8, 2i8),
            BoardCoord(2i8, 1i8),
            BoardCoord(-1i8, 2i8),
            BoardCoord(-2i8, 1i8),
            BoardCoord(1i8, -2i8),
            BoardCoord(2i8, -1i8),
            BoardCoord(-1i8, -2i8),
            BoardCoord(-2i8, -1i8),
        ],
        _ => vec![
            BoardCoord(0i8, 1i8),
            BoardCoord(1i8, 1i8),
            BoardCoord(1i8, 0i8),
            BoardCoord(1i8, -1i8),
            BoardCoord(0i8, -1i8),
            BoardCoord(-1i8, -1i8),
            BoardCoord(-1i8, 0i8),
            BoardCoord(-1i8, 1i8),
        ],
    };
    assert(v@ =~= if piece is Knight {
        knight_deltas()
    } else {
        king_deltas()
    });
    v
}

/// The four lines of sight of a rook: right, left, up, down.
pub fn get_los_rook() -> (v: Vec<BoardCoord>)
    ensures
        v@ == rook_dirs(),
{
    let v = vec![BoardCoord(1i8, 0i8), BoardCoord(-1i8, 0i8), BoardCoord(0i8, 1i8), BoardCoord(0i8, -1i8)];
    assert(v@ =~= rook_dirs());
    v
}

/// The four lines of sight of a bishop: up-right, up-left, down-right,
/// down-left.
pub fn get_los_bishop() -> (v: Vec<BoardCoord>)
    ensures
        v@ == bishop_dirs(),
{
    let v = vec![BoardCoord(1i8, 1i8), BoardCoord(-1i8, 1i8), BoardCoord(1i8, -1i8), BoardCoord(-1i8, -1i8)];
    assert(v@ =~= bishop_dirs());
    v
}

/// Returns the lines of sight for Rooks, Bishops, and Queens.
pub fn get_los(piece: PieceType) -> (v: Vec<BoardCoord>)
    requires
        piece is Rook || piece is Bishop || piece is Queen,
    ensures
        v@ == los_dirs(piece),
{
    match piece {
        PieceType::Rook => get_los_rook(),
        PieceType::Bishop => get_los_bishop(),
        _ => {
            let mut v = get_los_rook();
            let mut b = get_los_bishop();
            v.append(&mut b);
            v
        },
    }
}


/// Get a list of the locations the pawn at `pos` can move to. The pawn's color
/// is assumed to be `color`. The tile at `pos` must hold a piece (whose
/// `has_moved` flag decides the double step).
pub fn check_pawn(board: &Board, pos: BoardCoord, color: Color, out: &mut MoveList)
    requires
        on_board_spec(pos),
        board.tile_at(pos).0 is Some,
    ensures
        final(out).0@ == old(out).0@ + pawn_moves(*board, pos, color),
{
    let ghost start = old(out).0@;
    let ghost x = pos.0 as int;
    let ghost fy = pos.1 + dir(color);
    let ghost dy = pos.1 + 2 * dir(color);
    // Check forward space if it can be moved into.
    let forwards = BoardCoord(pos.0, pos.1 + color.direction());
    let mut could_do_first_move = false;
    if on_board(forwards) {
        if board.get(forwards).0.is_none() {
            out.0.push(forwards);
            could_do_first_move = true;
        }
    }
    let ghost s1 = out.0@;
    // if piece has not moved yet, check for double movement
    let double_move = BoardCoord(pos.0, pos.1 + color.direction() * 2);
    let pawn = board.get(pos).0.unwrap();
    if on_board(double_move) {
        if board.get(double_move).0.is_none() && !pawn.has_moved && could_do_first_move {
            out.0.push(double_move);
        }
    }
    let ghost s2 = out.0@;
    // Check diagonal spaces if they can be attacked.
    let right = BoardCoord(pos.0 + 1, pos.1 + color.direction());
    if on_board(right) {
        match board.get(right).0 {
            Some(piece) if piece.color != color => out.0.push(right),
            _ => {},
        }
    }
    let ghost s3 = out.0@;
    let left = BoardCoord(pos.0 - 1, pos.1 + color.direction());
    if on_board(left) {
        match board.get(left).0 {
            Some(piece) if piece.color != color => out.0.push(left),
            _ => {},
        }
    }
    proof {
        let pm = pawn_moves(*board, pos, color);
        assert(forwards == mk(x, fy));
        assert(double_move == mk(x, dy));
        assert(right == mk(x + 1, fy));
        assert(left == mk(x - 1, fy));
        assert(out.0@ =~= start + pm);
    }
}

/// Get a list of valid locations the "jump" piece may move or capture to.
/// The `move_deltas` is a list of offsets that the piece may potentially move
/// to. The piece's color is assumed to be `color`. The piece may actually move
/// there if the Tile is on the board and is either unoccupied (a move) or is a
/// piece of the opposite color (a capture). Note that this function doesn't
/// actually check the piece at `pos`.
pub fn check_jump_piece(
    board: &Board,
    pos: BoardCoord,
    color: Color,
    move_deltas: Vec<BoardCoord>,
    out: &mut MoveList,
)
    requires
        forall|i: int|
            0 <= i < move_deltas@.len() ==> {
                let d = #[trigger] move_deltas@[i];
                &&& i8::MIN <= pos.0 + d.0 <= i8::MAX
                &&& i8::MIN <= scale(d.1 as int, color) <= i8::MAX
                &&& i8::MIN <= pos.1 + scale(d.1 as int, color) <= i8::MAX
            },
    ensures
        final(out).0@ == old(out).0@ + jump_moves(*board, pos, color, move_deltas@),
{
    let ghost start = old(out).0@;
    let mut k: usize = 0;
    while k < move_deltas.len()
        invariant
            0 <= k <= move_deltas@.len(),
            out.0@ == start + jump_moves(*board, pos, color, move_deltas@.take(k as int)),
            forall|i: int|
                0 <= i < move_deltas@.len() ==> {
                    let d = #[trigger] move_deltas@[i];
                    &&& i8::MIN <= pos.0 + d.0 <= i8::MAX
                    &&& i8::MIN <= scale(d.1 as int, color) <= i8::MAX
                    &&& i8::MIN <= pos.1 + scale(d.1 as int, color) <= i8::MAX
                },
        decreases move_deltas@.len() - k,
    {
        let delta = move_deltas[k];
        proof {
            lemma_scale(delta.1 as int, color);
            assert(move_deltas@.take(k + 1).drop_last() =~= move_deltas@.take(k as int));
        }
        let end_pos = BoardCoord(pos.0 + delta.0, pos.1 + delta.1 * color.direction());
        if on_board(end_pos) {
            // A piece may actually move to end_pos if the location is unoccupied
            // or contains a piece of the opposite color.
            match board.get(end_pos).0 {
                Some(piece) if piece.color != color => out.0.push(end_pos),
                None => out.0.push(end_pos),
                _ => {},
            }
        }
        k += 1;
    }
    assert(move_deltas@.take(move_deltas@.len() as int) =~= move_deltas@);
}

/// Get a list of valid locations the "LoS" piece may move or capture to.
/// `lines_of_sight` holds the directions the piece sees along, each a step of
/// -1, 0 or 1 on each axis (the y step as seen by white). Each line starts next
/// to the piece and goes away from it; it ends on the first piece of the
/// opposite color or just before the first piece of the same color.
pub fn check_line_of_sight_piece(
    board: &Board,
    pos: BoardCoord,
    color: Color,
    lines_of_sight: Vec<BoardCoord>,
    out: &mut MoveList,
)
    requires
        on_board_spec(pos),
        forall|i: int|
            0 <= i < lines_of_sight@.len() ==> -1 <= #[trigger] lines_of_sight@[i].0 <= 1
                && -1 <= lines_of_sight@[i].1 <= 1,
    ensures
        final(out).0@ == old(out).0@ + los_moves(*board, pos, color, lines_of_sight@),
{
    let ghost start = old(out).0@;
    let mut k: usize = 0;
    while k < lines_of_sight.len()
        invariant
            0 <= k <= lines_of_sight@.len(),
            on_board_spec(pos),
            out.0@ == start + los_moves(*board, pos, color, lines_of_sight@.take(k as int)),
            forall|i: int|
                0 <= i < lines_of_sight@.len() ==> -1 <= #[trigger] lines_of_sight@[i].0 <= 1
                    && -1 <= lines_of_sight@[i].1 <= 1,
        decreases lines_of_sight@.len() - k,
    {
        let d = lines_of_sight[k];
        proof {
            lemma_scale(d.1 as int, color);
            assert(lines_of_sight@.take(k + 1).drop_last() =~= lines_of_sight@.take(k as int));
        }
        let dx = d.0;
        let dy = d.1 * color.direction();
        let ghost before = out.0@;
        let ghost full = ray(*board, color, pos.0 as int, pos.1 as int, dx as int, dy as int, 7);
        let mut x = pos.0;
        let mut y = pos.1;
        let mut i: i8 = 1;
        while i < 8
            invariant_except_break
                1 <= i <= 8,
                on_board_xy(x as int, y as int),
                -1 <= dx <= 1,
                -1 <= dy <= 1,
                out.0@ + ray(*board, color, x as int, y as int, dx as int, dy as int, (8 - i) as nat)
                    == before + full,
            ensures
                out.0@ == before + full,
            decreases 8 - i,
        {
            let end_pos = BoardCoord(x + dx, y + dy);
            if !on_board(end_pos) {
                proof {
                    assert(out.0@ =~= before + full);
                }
                break;
            }
            let end_piece = board.get(end_pos).0;
            if end_piece.is_none() {
                proof {
                    let rest = ray(*board, color, end_pos.0 as int, end_pos.1 as int, dx as int, dy as int, (7 - i) as nat);
                    assert(out.0@.push(end_pos) + rest =~= out.0@ + (seq![end_pos] + rest));
                }
                out.0.push(end_pos);
            } else if let Some(piece) = end_piece {
                if piece.color != color {
                    out.0.push(end_pos);
                }
                proof {
                    assert(out.0@ =~= before + full);
                }
                break;
            }
            x = end_pos.0;
            y = end_pos.1;
            i += 1;
        }
        proof {
            assert(start + los_moves(*board, pos, color, lines_of_sight@.take(k + 1)) =~= before
                + full);
        }
        k += 1;
    }
    assert(lines_of_sight@.take(lines_of_sight@.len() as int) =~= lines_of_sight@);
}

/// Return the squares the piece located at `coord` can move to, appended to
/// `out`, assuming that the player to move is whatever the color of the piece
/// at `coord` is. This function does NOT check if a move would put the
/// player's King into check, and does not list castling or en passant.
pub fn get_move_list_ignore_check(board: &Board, coord: BoardCoord, out: &mut MoveList)
    requires
        on_board_spec(coord),
    ensures
        final(out).0@ == old(out).0@ + pseudo_moves(*board, coord),
{
    let piece = board.get(coord).0;
    match piece {
        None => {
            assert(out.0@ =~= old(out).0@ + pseudo_moves(*board, coord));
        },
        Some(piece) => match piece.piece {
            PieceType::Pawn { .. } => check_pawn(board, coord, piece.color, out),
            PieceType::Knight | PieceType::King => {
                let deltas = get_move_deltas(piece.piece);
                proof {
                    assert forall|i: int| 0 <= i < deltas@.len() implies {
                        let d = #[trigger] deltas@[i];
                        &&& i8::MIN <= coord.0 + d.0 <= i8::MAX
                        &&& i8::MIN <= scale(d.1 as int, piece.color) <= i8::MAX
                        &&& i8::MIN <= coord.1 + scale(d.1 as int, piece.color) <= i8::MAX
                    } by {
                        assert(-2 <= deltas@[i].0 <= 2 && -2 <= deltas@[i].1 <= 2);
                    }
                }
                check_jump_piece(board, coord, piece.color, deltas, out)
            },
            _ => {
                let los = get_los(piece.piece);
                proof {
                    assert forall|i: int| 0 <= i < los@.len() implies -1 <= #[trigger] los@[i].0
                        <= 1 && -1 <= los@[i].1 <= 1 by {
                        if piece.piece is Queen {
                            assert(los@ == rook_dirs() + bishop_dirs());
                            if i < 4 {
                                assert(los@[i] == rook_dirs()[i]);
                            } else {
                                assert(los@[i] == bishop_dirs()[i - 4]);
                            }
                        }
                    }
                }
                check_line_of_sight_piece(board, coord, piece.color, los, out)
            },
        },
    }
}


proof fn lemma_jump_on_board(b: Board, pos: BoardCoord, color: Color, deltas: Seq<BoardCoord>)
    ensures
        forall|i: int|
            0 <= i < jump_moves(b, pos, color, deltas).len() ==> on_board_spec(
                #[trigger] jump_moves(b, pos, color, deltas)[i],
            ),
    decreases deltas.len(),
{
    if deltas.len() > 0 {
        lemma_jump_on_board(b, pos, color, deltas.drop_last());
        let prev = jump_moves(b, pos, color, deltas.drop_last());
        let all = jump_moves(b, pos, color, deltas);
        let x = pos.0 + deltas.last().0;
        let y = pos.1 + scale(deltas.last().1 as int, color);
        assert forall|i: int| 0 <= i < all.len() implies on_board_spec(#[trigger] all[i]) by {
            if i < prev.len() {
                assert(all[i] == prev[i]);
            } else {
                assert(all[i] == mk(x, y));
            }
        }
    }
}

proof fn lemma_ray_on_board(b: Board, color: Color, x: int, y: int, dx: int, dy: int, n: nat)
    ensures
        forall|i: int|
            0 <= i < ray(b, color, x, y, dx, dy, n).len() ==> on_board_spec(
                #[trigger] ray(b, color, x, y, dx, dy, n)[i],
            ),
    decreases n,
{
    if n > 0 {
        lemma_ray_on_board(b, color, x + dx, y + dy, dx, dy, (n - 1) as nat);
        let r = ray(b, color, x, y, dx, dy, n);
        let rest = ray(b, color, x + dx, y + dy, dx, dy, (n - 1) as nat);
        if on_board_xy(x + dx, y + dy) && b.is_empty_at(x + dx, y + dy) {
            assert forall|i: int| 0 <= i < r.len() implies on_board_spec(#[trigger] r[i]) by {
                if i > 0 {
                    assert(r[i] == rest[i - 1]);
                }
            }
        }
    }
}

proof fn lemma_los_on_board(b: Board, pos: BoardCoord, color: Color, dirs: Seq<BoardCoord>)
    ensures
        forall|i: int|
            0 <= i < los_moves(b, pos, color, dirs).len() ==> on_board_spec(
                #[trigger] los_moves(b, pos, color, dirs)[i],
            ),
    decreases dirs.len(),
{
    if dirs.len() > 0 {
        lemma_los_on_board(b, pos, color, dirs.drop_last());
        let d = dirs.last();
        lemma_ray_on_board(b, color, pos.0 as int, pos.1 as int, d.0 as int, scale(d.1 as int, color), 7);
        let prev = los_moves(b, pos, color, dirs.drop_last());
        let r = ray(b, color, pos.0 as int, pos.1 as int, d.0 as int, scale(d.1 as int, color), 7);
        let all = los_moves(b, pos, color, dirs);
        assert(all == prev + r);
        assert forall|i: int| 0 <= i < all.len() implies on_board_spec(#[trigger] all[i]) by {
            if i < prev.len() {
                assert(all[i] == prev[i]);
            } else {
                assert(all[i] == r[i - prev.len()]);
            }
        }
    }
}

/// Every square a piece can reach lies on the board, and an empty square
/// reaches nothing.
pub proof fn lemma_pseudo_moves_on_board(b: Board, coord: BoardCoord)
    ensures
        forall|i: int|
            0 <= i < pseudo_moves(b, coord).len() ==> on_board_spec(
                #[trigger] pseudo_moves(b, coord)[i],
            ),
        b.tile_at(coord).0 is None ==> pseudo_moves(b, coord).len() == 0,
{
    match b.tile_at(coord).0 {
        None => {},
        Some(p) => match p.piece {
            PieceType::Pawn { .. } => {},
            PieceType::Knight => lemma_jump_on_board(b, coord, p.color, knight_deltas()),
            PieceType::King => lemma_jump_on_board(b, coord, p.color, king_deltas()),
            _ => lemma_los_on_board(b, coord, p.color, los_dirs(p.piece)),
        },
    }
}


/// Each square `jump_moves` lists is the start shifted by one of the offsets.
pub proof fn lemma_jump_moves_from_deltas(b: Board, pos: BoardCoord, color: Color, deltas: Seq<BoardCoord>, i: int)
    requires
        0 <= i < jump_moves(b, pos, color, deltas).len(),
    ensures
        exists|k: int|
            0 <= k < deltas.len() && jump_moves(b, pos, color, deltas)[i] == mk(
                pos.0 + (#[trigger] deltas[k]).0,
                pos.1 + scale(deltas[k].1 as int, color),
            ),
    decreases deltas.len(),
{
    let prev = jump_moves(b, pos, color, deltas.drop_last());
    if i < prev.len() {
        lemma_jump_moves_from_deltas(b, pos, color, deltas.drop_last(), i);
        let k = choose|k: int|
            0 <= k < deltas.drop_last().len() && prev[i] == mk(
                pos.0 + (#[trigger] deltas.drop_last()[k]).0,
                pos.1 + scale(deltas.drop_last()[k].1 as int, color),
            );
        assert(deltas[k] == deltas.drop_last()[k]);
    } else {
        assert(deltas[deltas.len() - 1] == deltas.last());
    }
}

/// The square `i` steps from `pos` in the direction (dx, dy).
pub open spec fn along(pos: BoardCoord, dx: int, dy: int, i: int) -> BoardCoord {
    mk(pos.0 + i * dx, pos.1 + i * dy)
}

/// A ray reaches the `k`-th square in its direction when the squares before
/// it are empty and a piece of `color` may land on it.
proof fn lemma_ray_reaches(b: Board, color: Color, pos: BoardCoord, dx: int, dy: int, n: nat, k: int)
    requires
        on_board_spec(pos),
        -1 <= dx <= 1,
        -1 <= dy <= 1,
        1 <= k <= n,
        forall|i: int|
            1 <= i < k ==> on_board_spec(#[trigger] along(pos, dx, dy, i)) && b.tile_at(along(pos, dx, dy, i)).0 is None,
        can_land(b, pos.0 + k * dx, pos.1 + k * dy, color),
    ensures
        ray(b, color, pos.0 as int, pos.1 as int, dx, dy, n).contains(along(pos, dx, dy, k)),
    decreases k,
{
    let nx = pos.0 + dx;
    let ny = pos.1 + dy;
    assert(1 * dx == dx && 1 * dy == dy) by (nonlinear_arith);
    if k == 1 {
        assert(along(pos, dx, dy, 1) == mk(nx, ny));
        let r = ray(b, color, pos.0 as int, pos.1 as int, dx, dy, n);
        assert(r[0] == mk(nx, ny));
    } else {
        assert(along(pos, dx, dy, 1) == mk(nx, ny));
        assert(on_board_spec(mk(nx, ny)) && b.tile_at(mk(nx, ny)).0 is None);
        let next = mk(nx, ny);
        assert(next.0 == nx && next.1 == ny);
        assert forall|i: int| 1 <= i < k - 1 implies on_board_spec(#[trigger] along(next, dx, dy, i))
            && b.tile_at(along(next, dx, dy, i)).0 is None by {
            assert(nx + i * dx == pos.0 + (i + 1) * dx && ny + i * dy == pos.1 + (i + 1) * dy) by (nonlinear_arith)
                requires
                    nx == pos.0 + dx,
                    ny == pos.1 + dy,
            ;
            assert(along(next, dx, dy, i) == along(pos, dx, dy, i + 1));
        }
        assert(nx + (k - 1) * dx == pos.0 + k * dx && ny + (k - 1) * dy == pos.1 + k * dy) by (nonlinear_arith)
            requires
                nx == pos.0 + dx,
                ny == pos.1 + dy,
        ;
        lemma_ray_reaches(b, color, next, dx, dy, (n - 1) as nat, k - 1);
        assert(along(next, dx, dy, k - 1) == along(pos, dx, dy, k));
        let rest = ray(b, color, nx, ny, dx, dy, (n - 1) as nat);
        let r = ray(b, color, pos.0 as int, pos.1 as int, dx, dy, n);
        assert(r == seq![mk(nx, ny)] + rest);
        let j = choose|j: int| 0 <= j < rest.len() && rest[j] == along(pos, dx, dy, k);
        assert(r[j + 1] == rest[j]);
    }
}

/// What a ray of one of the directions sees is among the moves of all of
/// them.
proof fn lemma_los_contains(b: Board, pos: BoardCoord, color: Color, dirs: Seq<BoardCoord>, j: int, q: BoardCoord)
    requires
        0 <= j < dirs.len(),
        ray(b, color, pos.0 as int, pos.1 as int, dirs[j].0 as int, scale(dirs[j].1 as int, color), 7).contains(q),
    ensures
        los_moves(b, pos, color, dirs).contains(q),
    decreases dirs.len(),
{
    let prev = los_moves(b, pos, color, dirs.drop_last());
    let last = ray(b, color, pos.0 as int, pos.1 as int, dirs.last().0 as int, scale(dirs.last().1 as int, color), 7);
    assert(los_moves(b, pos, color, dirs) == prev + last);
    if j == dirs.len() - 1 {
        let t = choose|t: int| 0 <= t < last.len() && last[t] == q;
        assert((prev + last)[prev.len() + t] == q);
    } else {
        assert(dirs.drop_last()[j] == dirs[j]);
        lemma_los_contains(b, pos, color, dirs.drop_last(), j, q);
        let t = choose|t: int| 0 <= t < prev.len() && prev[t] == q;
        assert((prev + last)[t] == q);
    }
}

/// A rook, bishop or queen moves any number of squares along its lines (a
/// rook along a rank or a file, a bishop along a diagonal, a queen along
/// either): every square in such a direction is a move, as long as the
/// squares before it are empty and the square itself is empty or holds a
/// piece of the other color.
pub proof fn lemma_slider_reaches(b: Board, pos: BoardCoord, dx: int, dy: int, k: int)
    requires
        on_board_spec(pos),
        -1 <= dx <= 1,
        -1 <= dy <= 1,
        b.tile_at(pos).0 matches Some(p) && ((p.piece is Rook && (dx == 0) != (dy == 0)) || (p.piece is Bishop
            && dx != 0 && dy != 0) || (p.piece is Queen && !(dx == 0 && dy == 0))),
        1 <= k,
        forall|i: int|
            1 <= i < k ==> on_board_spec(#[trigger] along(pos, dx, dy, i)) && b.tile_at(along(pos, dx, dy, i)).0 is None,
        can_land(b, pos.0 + k * dx, pos.1 + k * dy, b.tile_at(pos).0->Some_0.color),
    ensures
        pseudo_moves(b, pos).contains(along(pos, dx, dy, k)),
{
    let p = b.tile_at(pos).0->Some_0;
    let color = p.color;
    // k is at most 7: the square lies on the board in a direction that moves.
    if dx == 1 {
        assert(k * dx == k) by (nonlinear_arith) requires dx == 1;
    } else if dx == -1 {
        assert(k * dx == -k) by (nonlinear_arith) requires dx == -1;
    } else if dy == 1 {
        assert(k * dy == k) by (nonlinear_arith) requires dy == 1;
    } else {
        assert(dy == -1);
        assert(k * dy == -k) by (nonlinear_arith) requires dy == -1;
    }
    assert(k <= 7);
    lemma_ray_reaches(b, color, pos, dx, dy, 7, k);
    let ty = scale(dy, color);
    assert(scale(ty, color) == dy);
    let dirs = los_dirs(p.piece);
    let ri: int = if dx == 1 {
        0
    } else if dx == -1 {
        1
    } else if ty == 1 {
        2
    } else {
        3
    };
    let bi: int = (if dx == 1 {
        0int
    } else {
        1int
    }) + (if ty == 1 {
        0int
    } else {
        2int
    });
    let j: int = if p.piece is Rook {
        ri
    } else if p.piece is Bishop {
        bi
    } else if dx == 0 || dy == 0 {
        ri
    } else {
        4 + bi
    };
    assert(dirs[j].0 == dx && dirs[j].1 == ty);
    lemma_los_contains(b, pos, color, dirs, j, along(pos, dx, dy, k));
}

/// `jump_moves` lists the square at each offset where the piece may land.
proof fn lemma_jump_contains(b: Board, pos: BoardCoord, color: Color, deltas: Seq<BoardCoord>, k: int)
    requires
        0 <= k < deltas.len(),
        can_land(b, pos.0 + deltas[k].0, pos.1 + scale(deltas[k].1 as int, color), color),
    ensures
        jump_moves(b, pos, color, deltas).contains(
            mk(pos.0 + deltas[k].0, pos.1 + scale(deltas[k].1 as int, color)),
        ),
    decreases deltas.len(),
{
    let prev = jump_moves(b, pos, color, deltas.drop_last());
    let q = mk(pos.0 + deltas[k].0, pos.1 + scale(deltas[k].1 as int, color));
    if k == deltas.len() - 1 {
        let all = jump_moves(b, pos, color, deltas);
        assert(all == prev.push(q));
        assert(all[prev.len() as int] == q);
    } else {
        assert(deltas.drop_last()[k] == deltas[k]);
        lemma_jump_contains(b, pos, color, deltas.drop_last(), k);
        let t = choose|t: int| 0 <= t < prev.len() && prev[t] == q;
        let all = jump_moves(b, pos, color, deltas);
        assert(all[t] == q);
    }
}

/// A knight jumps one square along one axis and two along the other: its
/// moves are exactly those squares where it may land.
pub proof fn lemma_knight_moves(b: Board, pos: BoardCoord, dx: int, dy: int)
    requires
        on_board_spec(pos),
        b.tile_at(pos).0 matches Some(p) && p.piece is Knight,
    ensures
        ((dx == 1 || dx == -1) && (dy == 2 || dy == -2) || (dx == 2 || dx == -2) && (dy == 1 || dy == -1))
            && can_land(b, pos.0 + dx, pos.1 + dy, b.tile_at(pos).0->Some_0.color) ==> pseudo_moves(b, pos).contains(
            mk(pos.0 + dx, pos.1 + dy),
        ),
        forall|i: int|
            0 <= i < pseudo_moves(b, pos).len() ==> {
                let q = #[trigger] pseudo_moves(b, pos)[i];
                let ex = q.0 - pos.0;
                let ey = q.1 - pos.1;
                &&& on_board_spec(q)
                &&& ((ex == 1 || ex == -1) && (ey == 2 || ey == -2)) || ((ex == 2 || ex == -2) && (ey == 1
                    || ey == -1))
            },
{
    let color = b.tile_at(pos).0->Some_0.color;
    let ds = knight_deltas();
    let ty = scale(dy, color);
    assert(scale(ty, color) == dy);
    if ((dx == 1 || dx == -1) && (dy == 2 || dy == -2) || (dx == 2 || dx == -2) && (dy == 1 || dy == -1))
        && can_land(b, pos.0 + dx, pos.1 + dy, color) {
        let k: int = if dx == 1 && ty == 2 {
            0
        } else if dx == 2 && ty == 1 {
            1
        } else if dx == -1 && ty == 2 {
            2
        } else if dx == -2 && ty == 1 {
            3
        } else if dx == 1 && ty == -2 {
            4
        } else if dx == 2 && ty == -1 {
            5
        } else if dx == -1 && ty == -2 {
            6
        } else {
            7
        };
        assert(ds[k].0 == dx && ds[k].1 == ty);
        lemma_jump_contains(b, pos, color, ds, k);
    }
    lemma_pseudo_moves_on_board(b, pos);
    assert forall|i: int| 0 <= i < pseudo_moves(b, pos).len() implies {
        let q = #[trigger] pseudo_moves(b, pos)[i];
        let ex = q.0 - pos.0;
        let ey = q.1 - pos.1;
        ((ex == 1 || ex == -1) && (ey == 2 || ey == -2)) || ((ex == 2 || ex == -2) && (ey == 1 || ey == -1))
    } by {
        lemma_jump_moves_from_deltas(b, pos, color, ds, i);
        let k = choose|k: int|
            0 <= k < ds.len() && jump_moves(b, pos, color, ds)[i] == mk(
                pos.0 + (#[trigger] ds[k]).0,
                pos.1 + scale(ds[k].1 as int, color),
            );
        let q = pseudo_moves(b, pos)[i];
        assert(on_board_spec(q));
    }
}

/// A king steps to any of the eight neighboring squares: its moves (castling
/// aside) are exactly those neighbors where it may land.
pub proof fn lemma_king_moves(b: Board, pos: BoardCoord, dx: int, dy: int)
    requires
        on_board_spec(pos),
        b.tile_at(pos).0 matches Some(p) && p.piece is King,
    ensures
        -1 <= dx <= 1 && -1 <= dy <= 1 && !(dx == 0 && dy == 0) && can_land(
            b,
            pos.0 + dx,
            pos.1 + dy,
            b.tile_at(pos).0->Some_0.color,
        ) ==> pseudo_moves(b, pos).contains(mk(pos.0 + dx, pos.1 + dy)),
        forall|i: int|
            0 <= i < pseudo_moves(b, pos).len() ==> {
                let q = #[trigger] pseudo_moves(b, pos)[i];
                &&& on_board_spec(q)
                &&& -1 <= q.0 - pos.0 <= 1
                &&& -1 <= q.1 - pos.1 <= 1
                &&& q != pos
            },
{
    let color = b.tile_at(pos).0->Some_0.color;
    let ds = king_deltas();
    let ty = scale(dy, color);
    assert(scale(ty, color) == dy);
    if -1 <= dx <= 1 && -1 <= dy <= 1 && !(dx == 0 && dy == 0) && can_land(b, pos.0 + dx, pos.1 + dy, color) {
        let k: int = if dx == 0 && ty == 1 {
            0
        } else if dx == 1 && ty == 1 {
            1
        } else if dx == 1 && ty == 0 {
            2
        } else if dx == 1 && ty == -1 {
            3
        } else if dx == 0 && ty == -1 {
            4
        } else if dx == -1 && ty == -1 {
            5
        } else if dx == -1 && ty == 0 {
            6
        } else {
            7
        };
        assert(ds[k].0 == dx && ds[k].1 == ty);
        lemma_jump_contains(b, pos, color, ds, k);
    }
    lemma_pseudo_moves_on_board(b, pos);
    assert forall|i: int| 0 <= i < pseudo_moves(b, pos).len() implies {
        let q = #[trigger] pseudo_moves(b, pos)[i];
        &&& -1 <= q.0 - pos.0 <= 1
        &&& -1 <= q.1 - pos.1 <= 1
        &&& q != pos
    } by {
        lemma_jump_moves_from_deltas(b, pos, color, ds, i);
        let k = choose|k: int|
            0 <= k < ds.len() && jump_moves(b, pos, color, ds)[i] == mk(
                pos.0 + (#[trigger] ds[k]).0,
                pos.1 + scale(ds[k].1 as int, color),
            );
        let q = pseudo_moves(b, pos)[i];
        assert(on_board_spec(q));
    }
}

/// A pawn moves forward (up for white, down for black): one square onto an
/// empty square, two from a square it has not left when both are empty, and
/// one square diagonally forward onto a piece of the other color; it has no
/// other move.
pub proof fn lemma_pawn_moves(b: Board, pos: BoardCoord, e: int)
    requires
        on_board_spec(pos),
        b.tile_at(pos).0 matches Some(p) && p.piece is Pawn,
        e == 1 || e == -1,
    ensures
        ({
            let p = b.tile_at(pos).0->Some_0;
            let x = pos.0 as int;
            let y1 = pos.1 + dir(p.color);
            let y2 = pos.1 + 2 * dir(p.color);
            let ms = pseudo_moves(b, pos);
            &&& on_board_xy(x, y1) && b.tile_at(mk(x, y1)).0 is None ==> ms.contains(mk(x, y1))
            &&& on_board_xy(x, y2) && b.tile_at(mk(x, y1)).0 is None && b.tile_at(mk(x, y2)).0 is None
                && !p.has_moved ==> ms.contains(mk(x, y2))
            &&& on_board_xy(x + e, y1) && (b.tile_at(mk(x + e, y1)).0 matches Some(q) && q.color != p.color)
                ==> ms.contains(mk(x + e, y1))
            &&& forall|i: int|
                0 <= i < ms.len() ==> {
                    let q = #[trigger] ms[i];
                    ||| q == mk(x, y1) && on_board_xy(x, y1) && b.tile_at(q).0 is None
                    ||| q == mk(x, y2) && on_board_xy(x, y2) && b.tile_at(mk(x, y1)).0 is None && b.tile_at(
                        q,
                    ).0 is None && !p.has_moved
                    ||| (q == mk(x + 1, y1) || q == mk(x - 1, y1)) && on_board_spec(q) && (b.tile_at(q).0 matches Some(
                        r,
                    ) && r.color != p.color)
                }
        }),
{
    let p = b.tile_at(pos).0->Some_0;
    let ms = pseudo_moves(b, pos);
    let x = pos.0 as int;
    let y1 = pos.1 + dir(p.color);
    let y2 = pos.1 + 2 * dir(p.color);
    let forward_ok = on_board_xy(x, y1) && b.is_empty_at(x, y1);
    let s1 = if forward_ok {
        seq![mk(x, y1)]
    } else {
        seq![]
    };
    let s2 = if on_board_xy(x, y2) && b.is_empty_at(x, y2) && !p.has_moved && forward_ok {
        seq![mk(x, y2)]
    } else {
        seq![]
    };
    let s3 = if on_board_xy(x + 1, y1) && b.enemy_at(x + 1, y1, p.color) {
        seq![mk(x + 1, y1)]
    } else {
        seq![]
    };
    let s4 = if on_board_xy(x - 1, y1) && b.enemy_at(x - 1, y1, p.color) {
        seq![mk(x - 1, y1)]
    } else {
        seq![]
    };
    assert(ms == s1 + s2 + s3 + s4);
    let a = s1.len() as int;
    let c = (s1.len() + s2.len()) as int;
    let d = (s1.len() + s2.len() + s3.len()) as int;
    if forward_ok {
        assert(ms[0] == mk(x, y1));
    }
    if on_board_xy(x, y2) && b.tile_at(mk(x, y1)).0 is None && b.tile_at(mk(x, y2)).0 is None && !p.has_moved {
        assert(on_board_xy(x, y1));
        assert(ms[a] == mk(x, y2));
    }
    if e == 1 && on_board_xy(x + e, y1) && (b.tile_at(mk(x + e, y1)).0 matches Some(q) && q.color != p.color) {
        assert(ms[c] == mk(x + 1, y1));
    }
    if e == -1 && on_board_xy(x + e, y1) && (b.tile_at(mk(x + e, y1)).0 matches Some(q) && q.color != p.color) {
        assert(ms[d] == mk(x - 1, y1));
    }
    assert forall|i: int| 0 <= i < ms.len() implies {
        let q = #[trigger] ms[i];
        ||| q == mk(x, y1) && on_board_xy(x, y1) && b.tile_at(q).0 is None
        ||| q == mk(x, y2) && on_board_xy(x, y2) && b.tile_at(mk(x, y1)).0 is None && b.tile_at(q).0 is None
            && !p.has_moved
        ||| (q == mk(x + 1, y1) || q == mk(x - 1, y1)) && on_board_spec(q) && (b.tile_at(q).0 matches Some(r)
            && r.color != p.color)
    } by {
        if i < a {
            assert(ms[i] == s1[i]);
        } else if i < c {
            assert(ms[i] == s2[i - a]);
        } else if i < d {
            assert(ms[i] == s3[i - c]);
        } else {
            assert(ms[i] == s4[i - d]);
        }
    }
}

/// Every square a ray lists is some number of steps along its direction,
/// past empty squares only.
proof fn lemma_ray_only(b: Board, color: Color, pos: BoardCoord, dx: int, dy: int, n: nat, q: BoardCoord) -> (k: int)
    requires
        on_board_spec(pos),
        -1 <= dx <= 1,
        -1 <= dy <= 1,
        ray(b, color, pos.0 as int, pos.1 as int, dx, dy, n).contains(q),
    ensures
        1 <= k <= n,
        q == along(pos, dx, dy, k),
        forall|i: int|
            1 <= i < k ==> on_board_spec(#[trigger] along(pos, dx, dy, i)) && b.tile_at(along(pos, dx, dy, i)).0 is None,
    decreases n,
{
    let nx = pos.0 + dx;
    let ny = pos.1 + dy;
    assert(1 * dx == dx && 1 * dy == dy) by (nonlinear_arith);
    assert(along(pos, dx, dy, 1) == mk(nx, ny));
    let r = ray(b, color, pos.0 as int, pos.1 as int, dx, dy, n);
    let t = choose|t: int| 0 <= t < r.len() && r[t] == q;
    if t == 0 {
        1
    } else {
        let next = mk(nx, ny);
        let rest = ray(b, color, nx, ny, dx, dy, (n - 1) as nat);
        assert(b.is_empty_at(nx, ny));
        assert(r == seq![mk(nx, ny)] + rest);
        assert(rest[t - 1] == q);
        assert(next.0 == nx && next.1 == ny);
        let k0 = lemma_ray_only(b, color, next, dx, dy, (n - 1) as nat, q);
        assert(nx + k0 * dx == pos.0 + (k0 + 1) * dx && ny + k0 * dy == pos.1 + (k0 + 1) * dy) by (nonlinear_arith)
            requires
                nx == pos.0 + dx,
                ny == pos.1 + dy,
        ;
        assert(along(next, dx, dy, k0) == along(pos, dx, dy, k0 + 1));
        assert forall|i: int| 1 <= i < k0 + 1 implies on_board_spec(#[trigger] along(pos, dx, dy, i)) && b.tile_at(
            along(pos, dx, dy, i),
        ).0 is None by {
            if i > 1 {
                let j = i - 1;
                assert(nx + j * dx == pos.0 + (j + 1) * dx && ny + j * dy == pos.1 + (j + 1) * dy) by (nonlinear_arith)
                    requires
                        nx == pos.0 + dx,
                        ny == pos.1 + dy,
                ;
                assert(along(next, dx, dy, j) == along(pos, dx, dy, i));
            }
        }
        k0 + 1
    }
}

/// Every square the lines of sight list comes from the ray of one of them.
proof fn lemma_los_only(b: Board, pos: BoardCoord, color: Color, dirs: Seq<BoardCoord>, q: BoardCoord) -> (j: int)
    requires
        los_moves(b, pos, color, dirs).contains(q),
    ensures
        0 <= j < dirs.len(),
        ray(b, color, pos.0 as int, pos.1 as int, dirs[j].0 as int, scale(dirs[j].1 as int, color), 7).contains(q),
    decreases dirs.len(),
{
    let prev = los_moves(b, pos, color, dirs.drop_last());
    let last = ray(b, color, pos.0 as int, pos.1 as int, dirs.last().0 as int, scale(dirs.last().1 as int, color), 7);
    let all = los_moves(b, pos, color, dirs);
    assert(all == prev + last);
    let t = choose|t: int| 0 <= t < all.len() && all[t] == q;
    if t < prev.len() {
        assert(prev[t] == q);
        let j = lemma_los_only(b, pos, color, dirs.drop_last(), q);
        assert(dirs.drop_last()[j] == dirs[j]);
        j
    } else {
        assert(last[t - prev.len()] == q);
        dirs.len() - 1
    }
}

/// A rook, bishop or queen has no other moves than along its lines (a rook
/// along a rank or a file, a bishop along a diagonal, a queen along either):
/// every move is some number of steps in such a direction, past empty
/// squares only.
pub proof fn lemma_slider_moves_only(b: Board, pos: BoardCoord, q: BoardCoord)
    requires
        on_board_spec(pos),
        b.tile_at(pos).0 matches Some(p) && (p.piece is Rook || p.piece is Bishop || p.piece is Queen),
        pseudo_moves(b, pos).contains(q),
    ensures
        exists|dx: int, dy: int, k: int|
            {
                let p = b.tile_at(pos).0->Some_0;
                &&& -1 <= dx <= 1
                &&& -1 <= dy <= 1
                &&& (p.piece is Rook ==> (dx == 0) != (dy == 0))
                &&& (p.piece is Bishop ==> dx != 0 && dy != 0)
                &&& !(dx == 0 && dy == 0)
                &&& 1 <= k <= 7
                &&& #[trigger] along(pos, dx, dy, k) == q
                &&& forall|i: int|
                    1 <= i < k ==> on_board_spec(#[trigger] along(pos, dx, dy, i)) && b.tile_at(
                        along(pos, dx, dy, i),
                    ).0 is None
            },
{
    let p = b.tile_at(pos).0->Some_0;
    let dirs = los_dirs(p.piece);
    let j = lemma_los_only(b, pos, p.color, dirs, q);
    let dx = dirs[j].0 as int;
    let dy = scale(dirs[j].1 as int, p.color);
    assert(-1 <= dx <= 1 && -1 <= dy <= 1 && !(dx == 0 && dy == 0));
    assert(p.piece is Rook ==> (dx == 0) != (dy == 0));
    assert(p.piece is Bishop ==> dx != 0 && dy != 0);
    let k = lemma_ray_only(b, p.color, pos, dx, dy, 7, q);
    assert(along(pos, dx, dy, k) == q);
}

} // verus!
