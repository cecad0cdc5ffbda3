# hex

A connect-N game on a hexagonal grid: two players place stones, two per turn
(the first player's opening stone sits on the origin), and a line of
`win_distance` stones along one of the three grid axes wins.

- `src/` is the verified library (Verus):
  - `game::hex`, `game::player`, `game::board`: cells, players, and the board
    (an `FxHashMap` from cells to stones, reached through small trusted wrappers);
  - `game::game`: the rules (placing, refusing, detecting wins, the winning
    line, and undoing a placement), stated over `GameState`;
  - `game::candidates`, `ai::movegen`: the free cells near stones that bots
    choose among;
  - `ai::features`, `ai::cluster`: the integer board measurements behind the
    evaluation features (runs, open ends, threats, gaps, groups);
  - `ai::fits` and the `can_*` methods of games, candidates and bots: exact
    checks that a position keeps a computation's `i32` arithmetic from
    overflowing, which the driver runs before each call;
  - `bots`: the bot that plays the first candidates and the random bot;
  - `coords`, `diag`, and `game::{Turn, GameResult}`: turn records with
    named-field coordinates;
  - `zobrist`: the per-cell hash keys.
- `app/` is the driver program: the floating-point evaluation (features as
  `f64`, genomes, models, the heuristic bot), rendering with `tiny-skia`, and
  the game loop.
- `tests/` exercises the library on concrete games.
