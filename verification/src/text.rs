//! Boards written as text: reading a board from rows of two-letter piece
//! names, the standard starting position, and the text form of boards, tiles
//! and move lists.
use vstd::prelude::*;
use vstd::string::StrSliceExecFns;
use vstd::string::StringExecFns;

use crate::board::{king_scan, mk, new_tile, on_board_spec, piece_letter, Board, BoardCoord, Color, PieceType, Tile};
use crate::moves::MoveList;

verus! {

/// The characters `char::is_whitespace` accepts: those with the Unicode
/// White_Space property.
pub open spec fn is_ws(c: char) -> bool {
    let u = c as u32;
    ||| 0x9 <= u <= 0xd
    ||| u == 0x20
    ||| u == 0x85
    ||| u == 0xa0
    ||| u == 0x1680
    ||| 0x2000 <= u <= 0x200a
    ||| u == 0x2028
    ||| u == 0x2029
    ||| u == 0x202f
    ||| u == 0x205f
    ||| u == 0x3000
}

/// True if `c` is a whitespace character (Unicode White_Space).
pub fn is_whitespace(c: char) -> (b: bool)
    ensures
        b == is_ws(c),
{
    let u = c as u32;
    (0x9 <= u && u <= 0xd) || u == 0x20 || u == 0x85 || u == 0xa0 || u == 0x1680 || (0x2000 <= u
        && u <= 0x200a) || u == 0x2028 || u == 0x2029 || u == 0x202f || u == 0x205f || u == 0x3000
}

/// The whitespace-separated words of `s`, the word being read so far being
/// `cur`.
pub open spec fn split_ws(s: Seq<char>, cur: Seq<char>) -> Seq<Seq<char>>
    decreases s.len(),
{
    if s.len() == 0 {
        if cur.len() > 0 {
            seq![cur]
        } else {
            seq![]
        }
    } else if is_ws(s[0]) {
        (if cur.len() > 0 {
            seq![cur]
        } else {
            seq![]
        }) + split_ws(s.drop_first(), seq![])
    } else {
        split_ws(s.drop_first(), cur.push(s[0]))
    }
}

/// The whitespace-separated words of `s`, as `str::split_whitespace` gives
/// them.
pub open spec fn words(s: Seq<char>) -> Seq<Seq<char>> {
    split_ws(s, seq![])
}

/// The tile a two-letter word names: "B" (black) or "W" (white) first, then
/// P, N, B, R, Q or K for the piece; any other word names an empty tile.
pub open spec fn parse_tile(word: Seq<char>) -> Tile {
    let color = if word[0] == 'B' {
        Color::Black
    } else {
        Color::White
    };
    let k = word[1];
    if word[0] != 'B' && word[0] != 'W' {
        Tile(None)
    } else if k == 'P' {
        new_tile(color, PieceType::Pawn { just_lunged: false })
    } else if k == 'N' {
        new_tile(color, PieceType::Knight)
    } else if k == 'B' {
        new_tile(color, PieceType::Bishop)
    } else if k == 'R' {
        new_tile(color, PieceType::Rook)
    } else if k == 'Q' {
        new_tile(color, PieceType::Queen)
    } else if k == 'K' {
        new_tile(color, PieceType::King)
    } else {
        Tile(None)
    }
}

/// The tile at `c` of the board the rows describe: the last row is the rank
/// y = 0 and the rows above it the ranks above; the words of a row are the
/// files from x = 0 on. Squares no word names are empty.
pub open spec fn text_tile(rows: Seq<Seq<char>>, c: BoardCoord) -> Tile {
    let i = rows.len() - 1 - c.1;
    if 0 <= i < rows.len() && c.0 < words(rows[i]).len() {
        parse_tile(words(rows[i])[c.0 as int])
    } else {
        Tile(None)
    }
}

/// The rows can be read as a board: at most 8 rows of at most 8 words each,
/// every word at least two characters long.
pub open spec fn readable_rows(rows: Seq<Seq<char>>) -> bool {
    &&& rows.len() <= 8
    &&& forall|i: int| 0 <= i < rows.len() ==> (#[trigger] words(rows[i])).len() <= 8
    &&& forall|i: int, k: int|
        0 <= i < rows.len() && 0 <= k < words(rows[i]).len() ==> (#[trigger] words(rows[i])[k]).len()
            >= 2
}

/// The characters of each string.
pub open spec fn row_chars(rows: Seq<&str>) -> Seq<Seq<char>> {
    rows.map_values(|s: &str| s@)
}

proof fn lemma_split_step(s: Seq<char>, k: int, cur: Seq<char>)
    requires
        0 <= k < s.len(),
    ensures
        split_ws(s.skip(k), cur) == if is_ws(s[k]) {
            (if cur.len() > 0 {
                seq![cur]
            } else {
                seq![]
            }) + split_ws(s.skip(k + 1), seq![])
        } else {
            split_ws(s.skip(k + 1), cur.push(s[k]))
        },
{
    assert(s.skip(k).drop_first() =~= s.skip(k + 1));
    assert(s.skip(k)[0] == s[k]);
}

/// The tile a word names, from its first two characters.
fn tile_of(first: char, second: char) -> (t: Tile)
    ensures
        t == parse_tile(seq![first, second]),
{
    let color = match first {
        'B' => Color::Black,
        'W' => Color::White,
        _ => {
            return Tile::blank();
        },
    };
    match second {
        'P' => Tile::new(color, PieceType::Pawn { just_lunged: false }),
        'N' => Tile::new(color, PieceType::Knight),
        'B' => Tile::new(color, PieceType::Bishop),
        'R' => Tile::new(color, PieceType::Rook),
        'Q' => Tile::new(color, PieceType::Queen),
        'K' => Tile::new(color, PieceType::King),
        _ => Tile::blank(),
    }
}


/// The piece standing at file `x` of a back rank at the start of a game.
pub open spec fn back_rank_piece(x: int) -> PieceType {
    if x == 0 || x == 7 {
        PieceType::Rook
    } else if x == 1 || x == 6 {
        PieceType::Knight
    } else if x == 2 || x == 5 {
        PieceType::Bishop
    } else if x == 3 {
        PieceType::Queen
    } else {
        PieceType::King
    }
}

/// The tile at `c` at the start of a standard game of chess.
pub open spec fn initial_tile(c: BoardCoord) -> Tile {
    if c.1 == 0 {
        new_tile(Color::White, back_rank_piece(c.0 as int))
    } else if c.1 == 1 {
        new_tile(Color::White, PieceType::Pawn { just_lunged: false })
    } else if c.1 == 6 {
        new_tile(Color::Black, PieceType::Pawn { just_lunged: false })
    } else if c.1 == 7 {
        new_tile(Color::Black, back_rank_piece(c.0 as int))
    } else {
        Tile(None)
    }
}

impl Board {
    /// Create a standard Chess board:
    ///   BR BN BB BQ BK BB BN BR
    ///   BP BP BP BP BP BP BP BP
    ///   (four empty ranks)
    ///   WP WP WP WP WP WP WP WP
    ///   WR WN WB WQ WK WB WN WR
    pub fn default() -> (b: Board)
        ensures
            forall|c: BoardCoord| on_board_spec(c) ==> #[trigger] b.tile_at(c) == initial_tile(c),
    {
        let back_rank: [PieceType; 8] = [
            PieceType::Rook,
            PieceType::Knight,
            PieceType::Bishop,
            PieceType::Queen,
            PieceType::King,
            PieceType::Bishop,
            PieceType::Knight,
            PieceType::Rook,
        ];
        let mut board = Board::blank();
        proof {
            broadcast use crate::board::lemma_board_from;
            broadcast use crate::board::lemma_spec_set;
        }
        let mut x: i8 = 0;
        while x < 8
            invariant
                0 <= x <= 8,
                forall|k: int| 0 <= k < 8 ==> back_rank@[k] == back_rank_piece(k),
                forall|c: BoardCoord| on_board_spec(c) ==> #[trigger] board.tile_at(c) == if c.0 < x {
                    initial_tile(c)
                } else {
                    Tile(None)
                },
            decreases 8 - x,
        {
            let piece = back_rank[x as usize];
            let ghost b0 = board;
            let t7 = Tile::new(Color::Black, piece);
            let t6 = Tile::new(Color::Black, PieceType::Pawn { just_lunged: false });
            let t1 = Tile::new(Color::White, PieceType::Pawn { just_lunged: false });
            let t0 = Tile::new(Color::White, piece);
            board.set(BoardCoord(x, 7), t7);
            let ghost b1 = board;
            board.set(BoardCoord(x, 6), t6);
            let ghost b2 = board;
            board.set(BoardCoord(x, 1), t1);
            let ghost b3 = board;
            board.set(BoardCoord(x, 0), t0);
            proof {
                assert forall|c: BoardCoord| on_board_spec(c) implies #[trigger] board.tile_at(c) == if c.0 < x + 1 {
                    initial_tile(c)
                } else {
                    Tile(None)
                } by {
                    crate::board::lemma_spec_set(b0, BoardCoord(x, 7), t7, c);
                    crate::board::lemma_spec_set(b1, BoardCoord(x, 6), t6, c);
                    crate::board::lemma_spec_set(b2, BoardCoord(x, 1), t1, c);
                    crate::board::lemma_spec_set(b3, BoardCoord(x, 0), t0, c);
                }
            }
            x += 1;
        }
        board
    }

    /// Create a board from a string array. Each string is split at whitespace
    /// into words of at least two characters: "B" or "W" in the first
    /// character and a P, N, B, R, Q, or K in the second character.
    /// Anything else is treated as a blank Tile. The last string is the
    /// bottom rank (white's side); at most 8 strings of at most 8 words each.
    pub fn from_string_vec(str_board: Vec<&str>) -> (b: Board)
        requires
            readable_rows(row_chars(str_board@)),
        ensures
            forall|c: BoardCoord| on_board_spec(c) ==> #[trigger] b.tile_at(c) == text_tile(row_chars(str_board@), c),
    {
        let ghost rows = row_chars(str_board@);
        let n = str_board.len();
        let mut board = Board::blank();
        proof {
            broadcast use crate::board::lemma_board_from;
            broadcast use crate::board::lemma_spec_set;
        }
        let mut i: usize = 0;
        while i < n
            invariant
                n == str_board@.len(),
                n <= 8,
                0 <= i <= n,
                rows == row_chars(str_board@),
                readable_rows(rows),
                forall|c: BoardCoord| on_board_spec(c) ==> #[trigger] board.tile_at(c) == if n - 1 - c.1 < i {
                    text_tile(rows, c)
                } else {
                    Tile(None)
                },
            decreases n - i,
        {
            let row = str_board[i];
            let ghost s = row@;
            assert(s == rows[i as int]);
            let len = row.unicode_len();
            let mut k: usize = 0;
            let mut j: usize = 0;
            let mut tok_len: usize = 0;
            let mut c0 = ' ';
            let mut c1 = ' ';
            let ghost mut done: Seq<Seq<char>> = seq![];
            let ghost mut cur: Seq<char> = seq![];
            assert(s.skip(0) =~= s);
            while k < len
                invariant
                    n == str_board@.len(),
                    n <= 8,
                    0 <= i < n,
                    rows == row_chars(str_board@),
                    readable_rows(rows),
                    s == rows[i as int],
                    s == row@,
                    len == s.len(),
                    0 <= k <= len,
                    done + split_ws(s.skip(k as int), cur) == words(s),
                    done.len() == j,
                    cur.len() == tok_len,
                    tok_len <= k,
                    tok_len >= 1 ==> c0 == cur[0],
                    tok_len >= 2 ==> c1 == cur[1],
                    forall|c: BoardCoord| on_board_spec(c) ==> #[trigger] board.tile_at(c) == if n - 1 - c.1 < i || (n - 1 - c.1 == i && c.0 < j) {
                        text_tile(rows, c)
                    } else {
                        Tile(None)
                    },
                decreases len - k,
            {
                let ch = row.get_char(k);
                proof {
                    lemma_split_step(s, k as int, cur);
                }
                if is_whitespace(ch) {
                    if tok_len > 0 {
                        proof {
                            assert(words(s) == (done + seq![cur]) + split_ws(s.skip(k + 1), seq![]));
                            assert(words(s)[j as int] == cur);
                        }
                        let tile = tile_of(c0, c1);
                        assert(tile == parse_tile(cur));
                        let y = i + (8 - n);
                        let ghost before = board;
                        board.set(BoardCoord(j as i8, (7 - y) as i8), tile);
                        proof {
                            let pc = BoardCoord(j as i8, (7 - y) as i8);
                            assert(j < words(s).len());
                            assert(text_tile(rows, pc) == tile);
                            assert forall|c: BoardCoord| on_board_spec(c) implies #[trigger] board.tile_at(c) == if n - 1 - c.1 < i || (n - 1 - c.1 == i && c.0 < j + 1) {
                                text_tile(rows, c)
                            } else {
                                Tile(None)
                            } by {
                                crate::board::lemma_spec_set(before, pc, tile, c);
                            }
                            done = done.push(cur);
                        }
                        j += 1;
                    } else {
                        assert(Seq::<Seq<char>>::empty() + split_ws(s.skip(k + 1), seq![]) =~= split_ws(s.skip(k + 1), seq![]));
                    }
                    tok_len = 0;
                    proof {
                        cur = seq![];
                    }
                } else {
                    if tok_len == 0 {
                        c0 = ch;
                    } else if tok_len == 1 {
                        c1 = ch;
                    }
                    tok_len += 1;
                    proof {
                        cur = cur.push(ch);
                    }
                }
                k += 1;
            }
            proof {
                assert(s.skip(len as int) =~= Seq::<char>::empty());
            }
            if tok_len > 0 {
                proof {
                    assert(words(s) == done + seq![cur]);
                    assert(words(s)[j as int] == cur);
                }
                let tile = tile_of(c0, c1);
                assert(tile == parse_tile(cur));
                let y = i + (8 - n);
                let ghost before = board;
                board.set(BoardCoord(j as i8, (7 - y) as i8), tile);
                proof {
                    let pc = BoardCoord(j as i8, (7 - y) as i8);
                    assert(j < words(s).len());
                    assert(text_tile(rows, pc) == tile);
                    assert forall|c: BoardCoord| on_board_spec(c) implies #[trigger] board.tile_at(c) == if n - 1 - c.1 < i || (n - 1 - c.1 == i && c.0 < j + 1) {
                        text_tile(rows, c)
                    } else {
                        Tile(None)
                    } by {
                        crate::board::lemma_spec_set(before, pc, tile, c);
                    }
                    done = done.push(cur);
                }
                j += 1;
            }
            proof {
                assert(done =~= words(s));
                assert(j == words(rows[i as int]).len());
            }
            i += 1;
        }
        board
    }
}


pub open spec fn color_letter(c: Color) -> &'static str {
    match c {
        Color::White => "W",
        Color::Black => "B",
    }
}

/// The two-character text of a tile: color letter and piece letter, or ".."
/// for an empty tile.
pub open spec fn tile_text(t: Tile) -> Seq<char> {
    match t.0 {
        Some(p) => color_letter(p.color)@ + piece_letter(p.piece)@,
        None => ".."@,
    }
}

/// The text of rank `y` from file `x` on: each tile followed by a space.
pub open spec fn rank_text(b: Board, y: int, x: int) -> Seq<char>
    decreases 8 - x,
{
    if x < 0 || x >= 8 {
        seq![]
    } else {
        tile_text(b.tile_at(mk(x, y))) + " "@ + rank_text(b, y, x + 1)
    }
}

/// The text of the ranks from the `r`-th from the top on, each on a line.
pub open spec fn ranks_text(b: Board, r: int) -> Seq<char>
    decreases 8 - r,
{
    if r < 0 || r >= 8 {
        seq![]
    } else {
        rank_text(b, 7 - r, 0) + "\n"@ + ranks_text(b, r + 1)
    }
}

/// The text of a board: black's side on top, white's at the bottom.
pub open spec fn board_text(b: Board) -> Seq<char> {
    "         BLACK\n"@ + ranks_text(b, 0) + "         WHITE\n"@
}

/// The text of row `y` of a move list from file `x` on: "## " for a listed
/// square, ".. " for another.
pub open spec fn marks_rank_text(m: Seq<BoardCoord>, y: int, x: int) -> Seq<char>
    decreases 8 - x,
{
    if x < 0 || x >= 8 {
        seq![]
    } else {
        (if m.contains(mk(x, y)) {
            "## "@
        } else {
            ".. "@
        }) + marks_rank_text(m, y, x + 1)
    }
}

/// The text of the rows of a move list from the `r`-th from the top on.
pub open spec fn marks_text(m: Seq<BoardCoord>, r: int) -> Seq<char>
    decreases 8 - r,
{
    if r < 0 || r >= 8 {
        seq![]
    } else {
        marks_rank_text(m, 7 - r, 0) + "\n"@ + marks_text(m, r + 1)
    }
}

impl Tile {
    /// The text of the tile: color and piece letters ("WP", "BK", ...), or
    /// ".." when empty.
    pub fn to_text(&self) -> (s: String)
        ensures
            s@ == tile_text(*self),
    {
        let mut s = String::new();
        match self.0 {
            Some(piece) => {
                s.append(piece.color.letter());
                s.append(piece.piece.letter());
            },
            None => s.append(".."),
        }
        s
    }
}

impl Board {
    /// The text of the board, one line per rank, black's side on top.
    pub fn to_text(&self) -> (s: String)
        ensures
            s@ == board_text(*self),
    {
        let mut s = String::new();
        s.append("         BLACK\n");
        let ghost head = s@;
        let mut r: i8 = 0;
        while r < 8
            invariant
                0 <= r <= 8,
                head == "         BLACK\n"@,
                s@ + ranks_text(*self, r as int) == head + ranks_text(*self, 0),
            decreases 8 - r,
        {
            let ghost before = s@;
            let mut x: i8 = 0;
            while x < 8
                invariant
                    0 <= r < 8,
                    0 <= x <= 8,
                    s@ + rank_text(*self, 7 - r, x as int) == before + rank_text(*self, 7 - r, 0),
                decreases 8 - x,
            {
                let t = self.get(BoardCoord(x, 7 - r)).to_text();
                let ghost s0 = s@;
                s.append(t.as_str());
                s.append(" ");
                proof {
                    assert(s0 + rank_text(*self, 7 - r, x as int) =~= s@ + rank_text(*self, 7 - r, x + 1));
                }
                x += 1;
            }
            s.append("\n");
            proof {
                assert(rank_text(*self, 7 - r, 8) =~= Seq::<char>::empty());
                assert(before + ranks_text(*self, r as int) =~= s@ + ranks_text(*self, r + 1));
            }
            r += 1;
        }
        s.append("         WHITE\n");
        proof {
            assert(ranks_text(*self, 8) =~= Seq::<char>::empty());
            assert(s@ =~= board_text(*self));
        }
        s
    }
}

impl MoveList {
    /// The squares of the list drawn on a board: "## " for a listed square,
    /// ".. " for another, one line per rank from the top.
    pub fn to_text(&self) -> (s: String)
        ensures
            s@ == marks_text(self.0@, 0),
    {
        let mut s = String::new();
        let mut i: i8 = 0;
        while i < 8
            invariant
                0 <= i <= 8,
                s@ + marks_text(self.0@, i as int) == marks_text(self.0@, 0),
            decreases 8 - i,
        {
            let ghost before = s@;
            let mut j: i8 = 0;
            while j < 8
                invariant
                    0 <= i < 8,
                    0 <= j <= 8,
                    s@ + marks_rank_text(self.0@, 7 - i, j as int) == before + marks_rank_text(self.0@, 7 - i, 0),
                decreases 8 - j,
            {
                let coord = BoardCoord(j, 7 - i);
                let ghost s0 = s@;
                let mut found = false;
                let mut k: usize = 0;
                while k < self.0.len()
                    invariant
                        0 <= k <= self.0@.len(),
                        found == exists|t: int| 0 <= t < k && self.0@[t] == coord,
                    decreases self.0@.len() - k,
                {
                    if self.0[k] == coord {
                        found = true;
                    }
                    k += 1;
                }
                assert(found == self.0@.contains(mk(j as int, 7 - i)));
                if found {
                    s.append("## ");
                } else {
                    s.append(".. ");
                }
                proof {
                    assert(s0 + marks_rank_text(self.0@, 7 - i, j as int) =~= s@ + marks_rank_text(self.0@, 7 - i, j + 1));
                }
                j += 1;
            }
            s.append("\n");
            proof {
                assert(marks_rank_text(self.0@, 7 - i, 8) =~= Seq::<char>::empty());
                assert(before + marks_text(self.0@, i as int) =~= s@ + marks_text(self.0@, i + 1));
            }
            i += 1;
        }
        proof {
            assert(marks_text(self.0@, 8) =~= Seq::<char>::empty());
            assert(s@ =~= marks_text(self.0@, 0));
        }
        s
    }
}


/// The king search passes over rows `i` (from column `j`) to `i2 - 1` when
/// none of their squares holds a king of `color`.
proof fn lemma_king_scan_skip(b: Board, color: Color, i: int, j: int, i2: int)
    requires
        0 <= i <= i2 <= 8,
        0 <= j <= 8,
        i == i2 ==> j == 0,
        forall|c: BoardCoord|
            on_board_spec(c) && ((7 - c.1 == i && c.0 >= j) || (i < 7 - c.1 < i2))
                ==> !(#[trigger] b.tile_at(c)).spec_is(color, PieceType::King),
    ensures
        king_scan(b, color, i, j) == king_scan(b, color, i2, 0),
    decreases 8 - i, 8 - j,
{
    if i >= i2 {
    } else if j >= 8 {
        if i + 1 < i2 {
            lemma_king_scan_skip(b, color, i + 1, 0, i2);
        }
    } else {
        assert(on_board_spec(mk(j, 7 - i)));
        lemma_king_scan_skip(b, color, i, j + 1, i2);
    }
}

/// On the starting board the white king is found on (4, 0) and the black
/// king on (4, 7).
pub proof fn lemma_initial_kings(b: Board)
    requires
        forall|c: BoardCoord| on_board_spec(c) ==> #[trigger] b.tile_at(c) == initial_tile(c),
    ensures
        b.spec_get_king(Color::White) == Some(mk(4, 0)),
        b.spec_get_king(Color::Black) == Some(mk(4, 7)),
{
    assert forall|c: BoardCoord|
        on_board_spec(c) && ((7 - c.1 == 0 && c.0 >= 0) || (0 < 7 - c.1 < 7))
            implies !(#[trigger] b.tile_at(c)).spec_is(Color::White, PieceType::King) by {
        assert(b.tile_at(c) == initial_tile(c));
    }
    lemma_king_scan_skip(b, Color::White, 0, 0, 7);
    assert(on_board_spec(mk(0, 0)) && on_board_spec(mk(1, 0)) && on_board_spec(mk(2, 0))
        && on_board_spec(mk(3, 0)) && on_board_spec(mk(4, 0)));
    assert(king_scan(b, Color::White, 7, 0) == Some(mk(4, 0))) by {
        reveal_with_fuel(king_scan, 6);
    }
    assert(on_board_spec(mk(0, 7)) && on_board_spec(mk(1, 7)) && on_board_spec(mk(2, 7))
        && on_board_spec(mk(3, 7)) && on_board_spec(mk(4, 7)));
    assert(king_scan(b, Color::Black, 0, 0) == Some(mk(4, 7))) by {
        reveal_with_fuel(king_scan, 6);
    }
}

/// Reading back the text of a tile gives the tile again, for a piece that has
/// not moved (and a pawn that has not just lunged) and for an empty tile.
pub proof fn lemma_tile_text_reads_back(t: Tile)
    requires
        t.0 matches Some(p) ==> !p.has_moved && p.piece != (PieceType::Pawn { just_lunged: true }),
    ensures
        parse_tile(tile_text(t)) == t,
{
    reveal_strlit("W");
    reveal_strlit("B");
    reveal_strlit("P");
    reveal_strlit("N");
    reveal_strlit("R");
    reveal_strlit("Q");
    reveal_strlit("K");
    reveal_strlit("..");
    match t.0 {
        Some(p) => {
            let w = tile_text(t);
            assert(w[0] == color_letter(p.color)@[0]);
            assert(w[1] == piece_letter(p.piece)@[0]);
        },
        None => {},
    }
}

} // verus!
