//! The flow of the game's screens: which screen shows, what the board asks
//! of the player to move, and the texts the side panel shows.
use vstd::prelude::*;

use crate::board::{piece_glyph, BoardCoord, Color, Piece};
use crate::rules::CheckmateState;
use crate::state::{spec_game_over, BoardState, StateView};

verus! {

/// The screen the game shows.
#[derive(Debug, Eq, PartialEq, Copy, Clone, Structural)]
pub enum ScreenState {
    TitleScreen,
    InGame,
}

/// A change of screen asked for while an event was handled. A new game
/// carries the players for white and for black; `None` stands for a human.
#[derive(Debug)]
pub enum ScreenTransition<A> {
    Stay,
    StartGame(Option<A>, Option<A>),
    ToTitleScreen,
    QuitGame,
}

/// The screen shown once `transition` is carried out: a new game goes in
/// game, a return goes to the title screen, and quitting or staying
/// keeps the screen.
pub open spec fn spec_next_screen<A>(screen: ScreenState, transition: ScreenTransition<A>) -> ScreenState {
    match transition {
        ScreenTransition::StartGame(_, _) => ScreenState::InGame,
        ScreenTransition::ToTitleScreen => ScreenState::TitleScreen,
        ScreenTransition::Stay => screen,
        ScreenTransition::QuitGame => screen,
    }
}

/// The screen shown once `transition` is carried out.
pub fn next_screen<A>(screen: ScreenState, transition: &ScreenTransition<A>) -> (s: ScreenState)
    ensures
        s == spec_next_screen(screen, *transition),
{
    match transition {
        ScreenTransition::StartGame(_, _) => ScreenState::InGame,
        ScreenTransition::ToTitleScreen => ScreenState::TitleScreen,
        ScreenTransition::Stay => screen,
        ScreenTransition::QuitGame => screen,
    }
}

/// What the board asks of the player to move: an ordinary move, the choice
/// of a piece for the pawn awaiting promotion, or nothing as the game is over.
#[derive(PartialEq, Eq, Copy, Clone, Debug, Structural)]
pub enum UIState {
    Normal,
    Promote(BoardCoord),
    GameOver,
}

/// A finished game outranks a pending promotion.
pub open spec fn spec_ui_state(s: StateView) -> UIState {
    if spec_game_over(s) {
        UIState::GameOver
    } else {
        match s.board.spec_pawn_needs_promotion() {
            Some(coord) => UIState::Promote(coord),
            None => UIState::Normal,
        }
    }
}

/// What the board asks of the player to move.
pub fn ui_state(state: &BoardState) -> (u: UIState)
    requires
        state.board.spec_get_king(state.current_player) is Some,
    ensures
        u == spec_ui_state(state@),
{
    let over = state.game_over();
    let promote = state.need_promote();
    if over {
        UIState::GameOver
    } else {
        match promote {
            Some(coord) => UIState::Promote(coord),
            None => UIState::Normal,
        }
    }
}

/// The name of a color as the status line writes it.
pub open spec fn color_name(c: Color) -> &'static str {
    match c {
        Color::White => "White",
        Color::Black => "Black",
    }
}

/// The status line for the player to move in the game state given.
pub open spec fn status_line(state: CheckmateState, player: Color) -> Seq<char> {
    match state {
        CheckmateState::Stalemate => "The game has ended!\nStalemate!"@,
        CheckmateState::InsuffientMaterial => "The game has ended!\nInsuffient material!"@,
        CheckmateState::Checkmate => "The game has ended!\n"@ + color_name(player)@ + " is in checkmate!"@,
        CheckmateState::Check => color_name(player)@ + " is in check!"@,
        CheckmateState::Normal => color_name(player)@ + " to move."@,
    }
}

/// The status line of the side panel: whose turn it is, and check,
/// checkmate, stalemate or insufficient material.
pub fn status_text(state: &BoardState) -> (s: String)
    ensures
        s@ == status_line(state.checkmate, state.current_player),
{
    let player = state.current_player.as_str();
    let mut s = String::new();
    match state.checkmate {
        CheckmateState::Stalemate => s.append("The game has ended!\nStalemate!"),
        CheckmateState::InsuffientMaterial => s.append("The game has ended!\nInsuffient material!"),
        CheckmateState::Checkmate => {
            s.append("The game has ended!\n");
            s.append(player);
            s.append(" is in checkmate!");
        },
        CheckmateState::Check => {
            s.append(player);
            s.append(" is in check!");
        },
        CheckmateState::Normal => {
            s.append(player);
            s.append(" to move.");
        },
    }
    s
}

/// The glyphs of the first `n` pieces, with a line break after the eighth.
pub open spec fn pieces_line(pieces: Seq<Piece>, n: int) -> Seq<char>
    decreases n,
{
    if n <= 0 {
        seq![]
    } else {
        let k = n - 1;
        let glyph = piece_glyph(pieces[k].piece)@;
        pieces_line(pieces, k) + if k == 7 {
            glyph + "\n"@
        } else {
            glyph
        }
    }
}

/// The glyphs of the captured pieces in the order they were taken, eight to a
/// line.
pub fn piece_vec_str(pieces: &Vec<Piece>) -> (s: String)
    ensures
        s@ == pieces_line(pieces@, pieces@.len() as int),
{
    let mut s = String::new();
    let mut i: usize = 0;
    while i < pieces.len()
        invariant
            0 <= i <= pieces@.len(),
            s@ == pieces_line(pieces@, i as int),
        decreases pieces@.len() - i,
    {
        s.append(pieces[i].as_str());
        if i == 7 {
            s.append("\n");
        }
        proof {
            assert(s@ =~= pieces_line(pieces@, i + 1));
        }
        i += 1;
    }
    s
}

} // verus!
