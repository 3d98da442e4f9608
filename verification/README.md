# chess

A game of chess against a human or a computer player, with its rules and its
players written as a Verus library.

- `src/board.rs`: pieces, tiles, coordinates and the board itself.
- `src/moves.rs`: where each piece may go, ignoring check.
- `src/rules.rs`: attacked squares, legal moves, castling, en passant, and
  the state of the game (check, checkmate, stalemate, insufficient material).
- `src/state.rs`: a game in progress: turns, captures and promotions.
- `src/text.rs`: the text form of boards (reading and writing).
- `src/ai.rs`: the computer players (random, fewest replies, alpha-beta tree
  search).
- `src/screen.rs`: the flow between screens and the texts the game shows.
- `src/invariants.rs`, `src/conservation.rs`, `src/replay.rs`: what every
  turn keeps (one king per color, consistent lunges, the number of pieces)
  and how its elementary actions replay it.
- `app/`: the window, drawing, animation and input (ggez), and the thread
  that runs the tree search player.

`app/main.rs perf` times one move of the tree search player instead of
opening the window.
