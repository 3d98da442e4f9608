//! Pieces, tiles, coordinates and the 8x8 board that holds them.
use vstd::prelude::*;

verus! {

pub const PAWN_STR: &'static str = "♟";
pub const KNIGHT_STR: &'static str = "♞";
pub const BISHOP_STR: &'static str = "♝";
pub const ROOK_STR: &'static str = "♜";
pub const QUEEN_STR: &'static str = "♛";
pub const KING_STR: &'static str = "♚";

/// The available player colors.
#[derive(Debug, Clone, Copy, PartialEq, Eq, Hash, Structural)]
pub enum Color {
    White,
    Black,
}

/// The direction (along the y axis) in which pieces of `color` advance.
pub open spec fn dir(color: Color) -> int {
    match color {
        Color::White => 1,
        Color::Black => -1,
    }
}

pub open spec fn opp(color: Color) -> Color {
    match color {
        Color::White => Color::Black,
        Color::Black => Color::White,
    }
}

impl Color {
    /// Returns 1 if White, -1 if Black. This is used to indicate the direction
    /// that pieces move in (particularly the Pawn)
    pub fn direction(self) -> (d: i8)
        ensures
            d == dir(self),
    {
        match self {
            Color::White => 1,
            Color::Black => -1,
        }
    }

    pub fn as_str(self) -> (s: &'static str)
        ensures
            s == (match self {
                Color::White => "White",
                Color::Black => "Black",
            }),
    {
        match self {
            Color::White => "White",
            Color::Black => "Black",
        }
    }

    pub fn opposite(&self) -> (c: Color)
        ensures
            c == opp(*self),
    {
        match self {
            Color::White => Color::Black,
            Color::Black => Color::White,
        }
    }

    /// The one-letter name of the color ("W" or "B"), as the text form of a
    /// board writes it.
    pub fn letter(self) -> (s: &'static str)
        ensures
            s == (match self {
                Color::White => "W",
                Color::Black => "B",
            }),
    {
        match self {
            Color::Black => "B",
            Color::White => "W",
        }
    }
}

/// An enum that describes the six possible pieces
/// `Pawn` has a `bool` associated with that is true if the piece has just
/// lunged (moved two spaces) on the previous turn.
#[derive(Debug, Clone, Copy, PartialEq, Eq, Hash, Structural)]
pub enum PieceType {
    Pawn { just_lunged: bool },
    Knight,
    Bishop,
    Rook,
    Queen,
    King,
}

/// Two piece types are of the same kind when they differ at most in the
/// `just_lunged` flag of a pawn.
pub open spec fn same_kind(a: PieceType, b: PieceType) -> bool {
    match (a, b) {
        (PieceType::Pawn { .. }, PieceType::Pawn { .. }) => true,
        (PieceType::Knight, PieceType::Knight) => true,
        (PieceType::Bishop, PieceType::Bishop) => true,
        (PieceType::Rook, PieceType::Rook) => true,
        (PieceType::Queen, PieceType::Queen) => true,
        (PieceType::King, PieceType::King) => true,
        _ => false,
    }
}

pub open spec fn piece_glyph(p: PieceType) -> &'static str {
    match p {
        PieceType::Pawn { .. } => PAWN_STR,
        PieceType::Knight => KNIGHT_STR,
        PieceType::Bishop => BISHOP_STR,
        PieceType::Rook => ROOK_STR,
        PieceType::Queen => QUEEN_STR,
        PieceType::King => KING_STR,
    }
}

pub open spec fn piece_letter(p: PieceType) -> &'static str {
    match p {
        PieceType::Pawn { .. } => "P",
        PieceType::Knight => "N",
        PieceType::Bishop => "B",
        PieceType::Rook => "R",
        PieceType::Queen => "Q",
        PieceType::King => "K",
    }
}

impl PieceType {
    pub fn as_str(&self) -> (s: &'static str)
        ensures
            s == piece_glyph(*self),
    {
        match self {
            PieceType::Pawn { .. } => PAWN_STR,
            PieceType::Knight => KNIGHT_STR,
            PieceType::Bishop => BISHOP_STR,
            PieceType::Rook => ROOK_STR,
            PieceType::Queen => QUEEN_STR,
            PieceType::King => KING_STR,
        }
    }

    /// The one-letter name of the piece ("P", "N", "B", "R", "Q" or "K"), as
    /// the text form of a board writes it.
    pub fn letter(&self) -> (s: &'static str)
        ensures
            s == piece_letter(*self),
    {
        match self {
            PieceType::Pawn { .. } => "P",
            PieceType::Knight => "N",
            PieceType::Bishop => "B",
            PieceType::Rook => "R",
            PieceType::Queen => "Q",
            PieceType::King => "K",
        }
    }
}

/// A chess piece which has a color and the type of piece it is.
#[derive(Debug, Clone, Copy, PartialEq, Eq, Hash, Structural)]
pub struct Piece {
    pub color: Color,
    pub piece: PieceType,
    pub has_moved: bool,
}

impl Piece {
    pub fn as_str(&self) -> (s: &'static str)
        ensures
            s == piece_glyph(self.piece),
    {
        self.piece.as_str()
    }

    /// True once the piece has been moved at least once.
    pub open spec fn moved(self) -> bool {
        self.has_moved
    }
}

/// Newtype wrapper for `Option<Piece>`. `Some(piece)` indicates that a piece is
/// in the tile, and `None` indicates that the tile is empty. Used in `Board`.
#[derive(Debug, PartialEq, Eq, Copy, Clone, Structural)]
pub struct Tile(pub Option<Piece>);

/// The tile holding an unmoved piece of `color` and type `piece`.
pub open spec fn new_tile(color: Color, piece: PieceType) -> Tile {
    Tile(Some(Piece { color, piece, has_moved: false }))
}

/// The tile after its piece has been marked as moved (or not).
pub open spec fn with_moved(t: Tile, set: bool) -> Tile {
    match t.0 {
        Some(p) => Tile(Some(Piece { has_moved: set, ..p })),
        None => t,
    }
}

/// The tile after the `just_lunged` flag of its pawn (if it holds one) is set.
pub open spec fn with_just_lunged(t: Tile, set: bool) -> Tile {
    match t.0 {
        Some(p) => match p.piece {
            PieceType::Pawn { .. } => Tile(
                Some(Piece { piece: PieceType::Pawn { just_lunged: set }, ..p }),
            ),
            _ => t,
        },
        None => t,
    }
}

impl Tile {
    pub open spec fn spec_is(self, color: Color, piece_type: PieceType) -> bool {
        match self.0 {
            None => false,
            Some(p) => p.color == color && same_kind(p.piece, piece_type),
        }
    }

    pub open spec fn spec_is_color(self, color: Color) -> bool {
        match self.0 {
            None => false,
            Some(p) => p.color == color,
        }
    }

    pub fn new(color: Color, piece: PieceType) -> (t: Tile)
        ensures
            t == new_tile(color, piece),
    {
        Tile(Some(Piece { color, piece, has_moved: false }))
    }

    pub fn blank() -> (t: Tile)
        ensures
            t == Tile(None),
    {
        Tile(None)
    }

    /// Set the `has_moved` field to `set`. If this `Tile` is empty, nothing
    /// happens.
    pub fn set_moved(&mut self, set: bool)
        ensures
            *final(self) == with_moved(*old(self), set),
    {
        if let Some(piece) = &mut self.0 {
            piece.has_moved = set;
        }
    }

    /// Set `just_lunged` flag on Pawn if the tile is a pawn. Else, do nothing.
    pub fn set_just_lunged(&mut self, set: bool)
        ensures
            *final(self) == with_just_lunged(*old(self), set),
    {
        if let Some(piece) = &mut self.0 {
            if let PieceType::Pawn { just_lunged } = &mut piece.piece {
                *just_lunged = set;
            }
        }
    }

    /// Returns true if the `Tile` actually has a piece and
    /// `color` and `piece_type` match. Note: the `just_lunged` flag on
    /// the Pawn piecetype is ignored.
    pub fn is(&self, color: Color, piece_type: PieceType) -> (b: bool)
        ensures
            b == self.spec_is(color, piece_type),
    {
        match self.0 {
            None => false,
            Some(piece) => {
                piece.color == color && match (piece.piece, piece_type) {
                    (PieceType::Pawn { .. }, PieceType::Pawn { .. }) => true,
                    (PieceType::Knight, PieceType::Knight) => true,
                    (PieceType::Bishop, PieceType::Bishop) => true,
                    (PieceType::Rook, PieceType::Rook) => true,
                    (PieceType::Queen, PieceType::Queen) => true,
                    (PieceType::King, PieceType::King) => true,
                    _ => false,
                }
            },
        }
    }

    /// Returns true if the `Tile` actually has a piece and
    /// `color` matches the color of the piece.
    pub fn is_color(&self, color: Color) -> (b: bool)
        ensures
            b == self.spec_is_color(color),
    {
        match self.0 {
            None => false,
            Some(piece) => piece.color == color,
        }
    }

    /// Return a string representation of this Tile (currently uses unicode
    /// chess piece characters)
    pub fn as_str(&self) -> (s: &'static str)
        ensures
            s == (match self.0 {
                None => "",
                Some(p) => piece_glyph(p.piece),
            }),
    {
        match self.0 {
            None => "",
            Some(piece) => piece.as_str(),
        }
    }
}

/// A board space coordinate. The origin is at the bottom left and (7, 7) is at
/// the top right. This is in line with how rank-file notation works.
#[derive(Debug, Clone, Copy, PartialEq, Eq, Hash, Structural)]
pub struct BoardCoord(pub i8, pub i8);

pub open spec fn on_board_xy(x: int, y: int) -> bool {
    0 <= x < 8 && 0 <= y < 8
}

pub open spec fn on_board_spec(c: BoardCoord) -> bool {
    on_board_xy(c.0 as int, c.1 as int)
}

/// The coordinate with the given (small) integer components.
pub open spec fn mk(x: int, y: int) -> BoardCoord {
    BoardCoord(x as i8, y as i8)
}

/// Return true if `pos` would be actually on the board.
pub fn on_board(pos: BoardCoord) -> (b: bool)
    ensures
        b == on_board_spec(pos),
{
    0 <= pos.0 && pos.0 < 8 && 0 <= pos.1 && pos.1 < 8
}

/// Return true if `pos` would be actually on the board.
pub fn on_board_i8(pos: (i8, i8)) -> (b: bool)
    ensures
        b == on_board_xy(pos.0 as int, pos.1 as int),
{
    0 <= pos.0 && pos.0 < 8 && 0 <= pos.1 && pos.1 < 8
}

impl BoardCoord {
    pub fn new(xy: (i8, i8)) -> (r: Result<BoardCoord, &'static str>)
        ensures
            r == (if on_board_xy(xy.0 as int, xy.1 as int) {
                Ok(BoardCoord(xy.0, xy.1))
            } else {
                Err("Expected coordinates to be in range 0-7")
            }),
    {
        let (x, y) = xy;
        if on_board_i8((x, y)) {
            Ok(BoardCoord(x, y))
        } else {
            Err("Expected coordinates to be in range 0-7")
        }
    }
}


/// Wrapper struct around an 8x8 array of Tiles. This represents the state of
/// pieces on the board. Note that Boards are arranged internally so that white
/// is on the bottom and black is on the top. Hence, `board[0][0]` is the top
/// left of the board, while `get(BoardCoord(0, 0))` is white's leftmost square.
#[derive(Debug, Clone, Copy, PartialEq, Eq)]
pub struct Board {
    board: [[Tile; 8]; 8],
}

impl Board {
    /// The tile at `c`, for `c` on the board.
    pub closed spec fn tile_at(self, c: BoardCoord) -> Tile {
        self.board[7 - c.1][c.0 as int]
    }

    /// The board with the tile at `c` replaced by `t`.
    pub closed spec fn spec_set(self, c: BoardCoord, t: Tile) -> Board {
        let r = 7 - c.1;
        Board {
            board: vstd::array::spec_array_update(
                self.board,
                r,
                vstd::array::spec_array_update(self.board[r], c.0 as int, t),
            ),
        }
    }

    pub open spec fn is_empty_at(self, x: int, y: int) -> bool {
        self.tile_at(mk(x, y)).0 is None
    }

    /// A piece of the color opposite to `color` stands at (x, y).
    pub open spec fn enemy_at(self, x: int, y: int, color: Color) -> bool {
        match self.tile_at(mk(x, y)).0 {
            Some(p) => p.color != color,
            None => false,
        }
    }

    /// The board after the piece at `start` is moved (and marked as moved) to
    /// `end`, leaving `start` empty.
    pub open spec fn spec_move(self, start: BoardCoord, end: BoardCoord) -> Board {
        self.spec_set(end, with_moved(self.tile_at(start), true)).spec_set(start, Tile(None))
    }

    /// The board after the pawn at `coord` lunges two squares forward.
    pub open spec fn spec_lunge(self, coord: BoardCoord) -> Board {
        let color = self.tile_at(coord).0->Some_0.color;
        self.spec_set(coord, with_just_lunged(self.tile_at(coord), true)).spec_move(
            coord,
            mk(coord.0 as int, coord.1 + 2 * dir(color)),
        )
    }

    /// The board with every `just_lunged` flag cleared.
    pub open spec fn spec_cleared(self) -> Board {
        board_from(|c: BoardCoord| with_just_lunged(self.tile_at(c), false))
    }

    /// The board after the piece at `coord` becomes a `piece` of the same color.
    pub open spec fn spec_promoted(self, coord: BoardCoord, piece: PieceType) -> Board {
        self.spec_set(
            coord,
            Tile(Some(Piece { color: self.tile_at(coord).0->Some_0.color, piece, has_moved: true })),
        )
    }

    /// Create a chessboard with no pieces on it.
    pub fn blank() -> (b: Board)
        ensures
            b == blank_board(),
    {
        let b = Board { board: [[Tile(None); 8]; 8] };
        proof {
            broadcast use vstd::array::group_array_axioms;
            broadcast use lemma_board_from;
            assert forall|c: BoardCoord| on_board_spec(c) implies #[trigger] b.tile_at(c)
                == blank_board().tile_at(c) by {
                assert(b.board[7 - c.1][c.0 as int] == Tile(None));
            }
            lemma_board_ext(b, blank_board());
        }
        b
    }

    /// The first king of `color` met when the board is read row by row from
    /// the top (black's side), each row from left to right.
    pub open spec fn spec_get_king(self, color: Color) -> Option<BoardCoord> {
        king_scan(self, color, 0, 0)
    }

    /// The first pawn standing on the far rank of its own color met when the
    /// files are read from left to right (on each file, a black pawn on the
    /// bottom rank before a white pawn on the top rank).
    pub open spec fn spec_pawn_needs_promotion(self) -> Option<BoardCoord> {
        promotion_scan(self, 0)
    }

    /// What `check_promote` answers.
    pub open spec fn spec_check_promote(self, coord: BoardCoord, piece: PieceType) -> Result<
        (),
        &'static str,
    > {
        if coord.1 != 0 && coord.1 != 7 {
            Err("Can only promote a pawn at the last rank of the board")
        } else if !self.tile_at(coord).spec_is(
            if coord.1 == 0 {
                Color::Black
            } else {
                Color::White
            },
            PieceType::Pawn { just_lunged: false },
        ) {
            Err("Can only promote a pawn of opposite color at this position.")
        } else {
            match piece {
                PieceType::Pawn { .. } => Err("Can not promote to a pawn"),
                PieceType::King => Err("Can not promote to a king"),
                _ => Ok(()),
            }
        }
    }

    /// Lunges the pawn located at `coord` two spaces forward. This function
    /// always moves the pawn, even if would not actually be legal to do so in
    /// a real game, so you should check the move first.
    pub fn lunge(&mut self, coord: BoardCoord)
        requires
            on_board_spec(coord),
            old(self).tile_at(coord).0 is Some,
            on_board_xy(
                coord.0 as int,
                coord.1 + 2 * dir(old(self).tile_at(coord).0->Some_0.color),
            ),
        ensures
            *final(self) == old(self).spec_lunge(coord),
    {
        proof {
            broadcast use lemma_spec_set;
        }
        let pawn = self.get_mut(coord);
        pawn.set_just_lunged(true);
        let direction = pawn.0.unwrap().color.direction();
        let end = BoardCoord(coord.0, coord.1 + 2 * direction);
        self.move_piece(coord, end);
    }

    /// Moves the piece located at `start` to `end`. This function always moves
    /// the piece, even if it would not be actually legal to do so in a real
    /// game, so you should check the move first with `check_move`
    pub fn move_piece(&mut self, start: BoardCoord, end: BoardCoord)
        requires
            on_board_spec(start),
            on_board_spec(end),
            old(self).tile_at(start).0 is Some,
        ensures
            *final(self) == old(self).spec_move(start, end),
    {
        let mut moved_piece = *self.get(start);
        moved_piece.set_moved(true);
        self.set(end, moved_piece);
        self.set(start, Tile(None));
    }

    /// Promote the pawn located at coord to the piece of PieceType
    /// Note that this function does not actually check if the promotion would be
    /// valid.
    pub fn promote_pawn(&mut self, coord: BoardCoord, piece: PieceType)
        requires
            on_board_spec(coord),
            old(self).tile_at(coord).0 is Some,
        ensures
            *final(self) == old(self).spec_promoted(coord, piece),
    {
        let tile = self.get_mut(coord);
        *tile = Tile(Some(Piece { color: tile.0.unwrap().color, piece, has_moved: true }));
    }

    /// Clears the `just_lunged` flag of every pawn on the board.
    pub fn clear_just_lunged(&mut self)
        ensures
            *final(self) == old(self).spec_cleared(),
    {
        let ghost start = *self;
        let mut i: i8 = 0;
        while i < 8
            invariant
                0 <= i <= 8,
                forall|c: BoardCoord|
                    on_board_spec(c) ==> #[trigger] self.tile_at(c) == if c.1 < i {
                        with_just_lunged(start.tile_at(c), false)
                    } else {
                        start.tile_at(c)
                    },
            decreases 8 - i,
        {
            let mut j: i8 = 0;
            while j < 8
                invariant
                    0 <= i < 8,
                    0 <= j <= 8,
                    forall|c: BoardCoord|
                        on_board_spec(c) ==> #[trigger] self.tile_at(c) == if c.1 < i || (c.1
                            == i && c.0 < j) {
                            with_just_lunged(start.tile_at(c), false)
                        } else {
                            start.tile_at(c)
                        },
                decreases 8 - j,
            {
                proof {
                    broadcast use lemma_spec_set;
                }
                self.get_mut(BoardCoord(j, i)).set_just_lunged(false);
                j += 1;
            }
            i += 1;
        }
        proof {
            broadcast use lemma_board_from;
            assert forall|c: BoardCoord| on_board_spec(c) implies #[trigger] self.tile_at(c)
                == start.spec_cleared().tile_at(c) by {}
            lemma_board_ext(*self, start.spec_cleared());
        }
    }

    /// Returns Some(BoardCoord) if there is a pawn in the last rank that needs
    /// to be promoted. Otherwise, this function returns None.
    pub fn pawn_needs_promotion(&self) -> (r: Option<BoardCoord>)
        ensures
            r == self.spec_pawn_needs_promotion(),
    {
        let mut i: i8 = 0;
        while i < 8
            invariant
                0 <= i <= 8,
                promotion_scan(*self, i as int) == promotion_scan(*self, 0),
            decreases 8 - i,
        {
            let black_coord = BoardCoord(i, 0);
            if self.get(black_coord).is(Color::Black, PieceType::Pawn { just_lunged: false }) {
                return Some(black_coord);
            }
            let white_coord = BoardCoord(i, 7);
            if self.get(white_coord).is(Color::White, PieceType::Pawn { just_lunged: false }) {
                return Some(white_coord);
            }
            i += 1;
        }
        None
    }

    /// Checks if the Tile at coord can be promoted to piece.
    /// A pawn may be promoted if it is
    /// - a pawn
    /// - on the last rank of its side
    /// - being promoted to a piece that is not a pawn or a king
    pub fn check_promote(&self, coord: BoardCoord, piece: PieceType) -> (r: Result<(), &'static str>)
        requires
            on_board_spec(coord),
        ensures
            r == self.spec_check_promote(coord, piece),
    {
        let pawn = self.get(coord);
        let color = match coord.1 {
            0 => Color::Black,
            7 => Color::White,
            _ => {
                return Err("Can only promote a pawn at the last rank of the board");
            },
        };
        if !pawn.is(color, PieceType::Pawn { just_lunged: false }) {
            return Err("Can only promote a pawn of opposite color at this position.");
        }
        match piece {
            PieceType::Pawn { .. } => Err("Can not promote to a pawn"),
            PieceType::King => Err("Can not promote to a king"),
            _ => Ok(()),
        }
    }

    /// Attempts to return the coordinates the king of the specified color
    pub fn get_king(&self, color: Color) -> (r: Option<BoardCoord>)
        ensures
            r == self.spec_get_king(color),
            r matches Some(c) ==> on_board_spec(c) && self.tile_at(c).spec_is(color, PieceType::King),
    {
        proof {
            lemma_king_scan(*self, color, 0, 0);
        }
        let mut i: i8 = 0;
        while i < 8
            invariant
                0 <= i <= 8,
                king_scan(*self, color, i as int, 0) == king_scan(*self, color, 0, 0),
            decreases 8 - i,
        {
            let mut j: i8 = 0;
            while j < 8
                invariant
                    0 <= i < 8,
                    0 <= j <= 8,
                    king_scan(*self, color, i as int, j as int) == king_scan(*self, color, 0, 0),
                decreases 8 - j,
            {
                let coord = BoardCoord(j, 7 - i);
                if self.get(coord).is(color, PieceType::King) {
                    return Some(coord);
                }
                j += 1;
            }
            i += 1;
        }
        None
    }

    /// Gets the piece located at the coordinates
    pub fn get(&self, coord: BoardCoord) -> (t: &Tile)
        requires
            on_board_spec(coord),
        ensures
            *t == self.tile_at(coord),
    {
        let r: usize = (7 - coord.1) as usize;
        &self.board[r][coord.0 as usize]
    }

    /// Gets mutably the piece located at the coordinates
    pub fn get_mut(&mut self, coord: BoardCoord) -> (t: &mut Tile)
        requires
            on_board_spec(coord),
        ensures
            *t == old(self).tile_at(coord),
            *final(self) == old(self).spec_set(coord, *final(t)),
    {
        proof {
            broadcast use lemma_spec_set;
        }
        let r: usize = (7 - coord.1) as usize;
        &mut self.board[r][coord.0 as usize]
    }

    /// Sets the piece located at the coordinates
    pub fn set(&mut self, coord: BoardCoord, piece: Tile)
        requires
            on_board_spec(coord),
        ensures
            *final(self) == old(self).spec_set(coord, piece),
    {
        let r: usize = (7 - coord.1) as usize;
        self.board[r][coord.0 as usize] = piece;
    }
}


/// A pawn of the right color standing on its last rank (white on the top
/// rank, black on the bottom one) may be promoted to a knight, a bishop, a
/// rook or a queen, and to nothing else.
pub proof fn lemma_promotion_choices(b: Board, coord: BoardCoord, color: Color, piece: PieceType)
    requires
        on_board_spec(coord),
        coord.1 == if color == Color::White {
            7int
        } else {
            0int
        },
        b.tile_at(coord).0 matches Some(p) && p.color == color && p.piece is Pawn,
    ensures
        b.spec_check_promote(coord, piece) is Ok <==> (piece is Knight || piece is Bishop || piece is Rook
            || piece is Queen),
{
}

proof fn lemma_promotion_scan_found(b: Board, i: int)
    requires
        0 <= i <= 8,
    ensures
        promotion_scan(b, i) matches Some(c) ==> on_board_spec(c) && ((c.1 == 7 && (b.tile_at(c).0 matches Some(
            p,
        ) && p.color == Color::White && p.piece is Pawn)) || (c.1 == 0 && (b.tile_at(c).0 matches Some(p)
            && p.color == Color::Black && p.piece is Pawn))),
        promotion_scan(b, i) is None ==> forall|x: int|
            i <= x < 8 ==> !((#[trigger] b.tile_at(mk(x, 7))).0 matches Some(p) && p.color == Color::White
                && p.piece is Pawn) && !(b.tile_at(mk(x, 0)).0 matches Some(p) && p.color == Color::Black
                && p.piece is Pawn),
    decreases 8 - i,
{
    if i < 8 {
        lemma_promotion_scan_found(b, i + 1);
    }
}

/// A pawn awaits promotion exactly when a white pawn stands on the top rank
/// or a black pawn on the bottom rank, and the square reported holds one.
pub proof fn lemma_promotion_needed_exactly(b: Board)
    ensures
        b.spec_pawn_needs_promotion() matches Some(c) ==> on_board_spec(c) && ((c.1 == 7 && (b.tile_at(
            c,
        ).0 matches Some(p) && p.color == Color::White && p.piece is Pawn)) || (c.1 == 0 && (b.tile_at(c).0 matches Some(
            p,
        ) && p.color == Color::Black && p.piece is Pawn))),
        b.spec_pawn_needs_promotion() is None ==> forall|c: BoardCoord|
            on_board_spec(c) ==> !((#[trigger] b.tile_at(c)).0 matches Some(p) && p.piece is Pawn && ((p.color
                == Color::White && c.1 == 7) || (p.color == Color::Black && c.1 == 0))),
{
    lemma_promotion_scan_found(b, 0);
    if b.spec_pawn_needs_promotion() is None {
        assert forall|c: BoardCoord| on_board_spec(c) implies !((#[trigger] b.tile_at(c)).0 matches Some(p)
            && p.piece is Pawn && ((p.color == Color::White && c.1 == 7) || (p.color == Color::Black && c.1 == 0))) by {
            let x = c.0 as int;
            let top = b.tile_at(mk(x, 7));
            if c.1 == 7 {
                assert(c == mk(x, 7));
            }
            if c.1 == 0 {
                assert(c == mk(x, 0));
            }
        }
    }
}

proof fn lemma_king_scan_none(b: Board, color: Color, i: int, j: int)
    requires
        0 <= i <= 8,
        0 <= j <= 8,
        king_scan(b, color, i, j) is None,
    ensures
        forall|c: BoardCoord|
            on_board_spec(c) && (7 - c.1 > i || (7 - c.1 == i && c.0 >= j)) ==> !(#[trigger] b.tile_at(c)).spec_is(
                color,
                PieceType::King,
            ),
    decreases 8 - i, 8 - j,
{
    if i >= 8 {
    } else if j >= 8 {
        lemma_king_scan_none(b, color, i + 1, 0);
    } else {
        lemma_king_scan_none(b, color, i, j + 1);
        assert forall|c: BoardCoord|
            on_board_spec(c) && (7 - c.1 > i || (7 - c.1 == i && c.0 >= j)) implies !(#[trigger] b.tile_at(
                c,
            )).spec_is(color, PieceType::King) by {
            if c.0 == j && 7 - c.1 == i {
                assert(c == mk(j, 7 - i));
            }
        }
    }
}

/// The king search finds a king of that color whenever one stands on the
/// board, and what it finds is one.
pub proof fn lemma_get_king_exactly(b: Board, color: Color)
    ensures
        b.spec_get_king(color) matches Some(c) ==> on_board_spec(c) && (b.tile_at(c).0 matches Some(p)
            && p.color == color && p.piece is King),
        b.spec_get_king(color) is None ==> forall|c: BoardCoord|
            on_board_spec(c) ==> !((#[trigger] b.tile_at(c)).0 matches Some(p) && p.color == color && p.piece is King),
{
    lemma_king_scan(b, color, 0, 0);
    if b.spec_get_king(color) is None {
        lemma_king_scan_none(b, color, 0, 0);
        assert forall|c: BoardCoord| on_board_spec(c) implies !((#[trigger] b.tile_at(c)).0 matches Some(p)
            && p.color == color && p.piece is King) by {
            assert(!b.tile_at(c).spec_is(color, PieceType::King));
        }
    }
}

/// The square with scan index `k` (0 <= k < 64): column `k % 8`, row `k / 8`.
pub open spec fn sq(k: int) -> BoardCoord {
    mk(k % 8, k / 8)
}

/// The board equal to `base` except on the squares with scan index `k` or
/// more, which hold what `f` gives.
pub closed spec fn fill_from(base: Board, f: spec_fn(BoardCoord) -> Tile, k: int) -> Board
    decreases 64 - k,
{
    if k < 0 || k >= 64 {
        base
    } else {
        fill_from(base.spec_set(sq(k), f(sq(k))), f, k + 1)
    }
}

/// The board whose tile at every square `c` is `f(c)`.
pub closed spec fn board_from(f: spec_fn(BoardCoord) -> Tile) -> Board {
    fill_from(vstd::pervasive::arbitrary::<Board>(), f, 0)
}

proof fn lemma_fill_from(base: Board, f: spec_fn(BoardCoord) -> Tile, k: int, c: BoardCoord)
    requires
        0 <= k <= 64,
        on_board_spec(c),
    ensures
        fill_from(base, f, k).tile_at(c) == if c.1 * 8 + c.0 >= k {
            f(c)
        } else {
            base.tile_at(c)
        },
    decreases 64 - k,
{
    broadcast use lemma_spec_set;
    if k < 64 {
        let nb = base.spec_set(sq(k), f(sq(k)));
        lemma_fill_from(nb, f, k + 1, c);
        assert(on_board_spec(sq(k)));
        if c.1 * 8 + c.0 == k {
            assert(c == sq(k));
        } else {
            assert(c != sq(k));
        }
    }
}

/// Every tile of `board_from(f)` is what `f` gives.
pub broadcast proof fn lemma_board_from(f: spec_fn(BoardCoord) -> Tile, c: BoardCoord)
    requires
        on_board_spec(c),
    ensures
        #[trigger] board_from(f).tile_at(c) == f(c),
{
    lemma_fill_from(vstd::pervasive::arbitrary::<Board>(), f, 0, c);
}

/// The king search of `get_king`, from row `i` (counted from the top) and
/// column `j` on.
pub open spec fn king_scan(b: Board, color: Color, i: int, j: int) -> Option<BoardCoord>
    decreases 8 - i, 8 - j,
{
    if i < 0 || j < 0 || i >= 8 {
        None
    } else if j >= 8 {
        king_scan(b, color, i + 1, 0)
    } else if b.tile_at(mk(j, 7 - i)).spec_is(color, PieceType::King) {
        Some(mk(j, 7 - i))
    } else {
        king_scan(b, color, i, j + 1)
    }
}

/// What the king search finds is a king of that color on the board.
pub proof fn lemma_king_scan(b: Board, color: Color, i: int, j: int)
    requires
        0 <= i,
        0 <= j,
    ensures
        king_scan(b, color, i, j) matches Some(c) ==> on_board_spec(c) && b.tile_at(c).spec_is(
            color,
            PieceType::King,
        ),
    decreases 8 - i, 8 - j,
{
    if i >= 8 {
    } else if j >= 8 {
        lemma_king_scan(b, color, i + 1, 0);
    } else if b.tile_at(mk(j, 7 - i)).spec_is(color, PieceType::King) {
    } else {
        lemma_king_scan(b, color, i, j + 1);
    }
}

/// The promotion search of `pawn_needs_promotion`, from file `i` on.
pub open spec fn promotion_scan(b: Board, i: int) -> Option<BoardCoord>
    decreases 8 - i,
{
    if i < 0 || i >= 8 {
        None
    } else if b.tile_at(mk(i, 0)).spec_is(Color::Black, PieceType::Pawn { just_lunged: false }) {
        Some(mk(i, 0))
    } else if b.tile_at(mk(i, 7)).spec_is(Color::White, PieceType::Pawn { just_lunged: false }) {
        Some(mk(i, 7))
    } else {
        promotion_scan(b, i + 1)
    }
}

/// The board with no pieces on it.
pub open spec fn blank_board() -> Board {
    board_from(|c: BoardCoord| Tile(None))
}

/// What `spec_set` does to the tiles of the board.
pub broadcast proof fn lemma_spec_set(b: Board, c: BoardCoord, t: Tile, d: BoardCoord)
    requires
        on_board_spec(c),
        on_board_spec(d),
    ensures
        #[trigger] b.spec_set(c, t).tile_at(d) == if d == c { t } else { b.tile_at(d) },
{
    broadcast use vstd::array::group_array_axioms;
    let r = 7 - c.1;
    let row = vstd::array::spec_array_update(b.board[r], c.0 as int, t);
    assert(row@ == b.board[r]@.update(c.0 as int, t));
    let nb = vstd::array::spec_array_update(b.board, r, row);
    assert(nb@ == b.board@.update(r, row));
}

/// Two boards with the same tiles on every square are equal.
pub proof fn lemma_board_ext(a: Board, b: Board)
    requires
        forall|c: BoardCoord| on_board_spec(c) ==> #[trigger] a.tile_at(c) == b.tile_at(c),
    ensures
        a == b,
{
    broadcast use vstd::array::group_array_axioms;
    assert forall|r: int| 0 <= r < 8 implies a.board[r] == b.board[r] by {
        assert forall|x: int| 0 <= x < 8 implies a.board[r][x] == b.board[r][x] by {
            assert(a.tile_at(mk(x, 7 - r)) == b.tile_at(mk(x, 7 - r)));
        }
        assert(a.board[r] =~= b.board[r]);
    }
    assert(a.board =~= b.board);
}

} // verus!
