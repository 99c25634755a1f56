# hyzero

The game core of a chess engine, written in Verus: bitboard move generation with magic
lookup tables for the sliding pieces, the game state and its rules (castling, en passant,
promotion, check, checkmate, stalemate, the fifty-move rule, threefold repetition,
insufficient material), an incrementally kept Zobrist hash, FEN reading and writing,
perft counting, a forced-mate search, and the action encoding of moves.

Layout:

- `src/` — the verified library. `bits`, `square`, `geometry`, `magic`, `precomputed` and
  `pieces` build the lookup tables; `game/board.rs` holds the game state and its rules;
  `game/fen.rs` reads and writes FEN, and `game/fen_laws.rs` proves that a written
  position reads back unchanged; `game/perft.rs` and `game/mate_solver.rs` search the move
  tree; `data/` encodes moves as actions; `mcts/gumbel.rs` holds the integer schedule of
  sequential halving.
- `tests/` — tests run against the compiled library.
- `app/` — the command line: perft counting, a two-player game on the terminal, and the
  settings read from the environment.
