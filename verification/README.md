# Crabsweeper

Minesweeper whose boards can be generated so that they are always solvable
without guessing. The rules of the game, the boards and the generators are a
library verified with Verus; the window, the solver (which works on
probabilities) and the performance test are a thin program around it.

## Layout

- `src/` — the verified library.
  - `cell.rs`, `grid.rs`, `bit_grid.rs`, `minesweeper_grid.rs`: cells, boards,
    mine layouts, counting, flagging, chording and the board's text forms.
  - `flood.rs`: the spreading reveal as a mathematical relation, with its laws.
  - `minesweeper_game.rs`, `game.rs`: games and how they move between states.
  - `generator.rs`, `random_generator.rs`, `naive_solvable_generator.rs`,
    `optimized_solvable_generator.rs`: the board generators; the two solvable
    ones are state machines that take the solver's verdict on each candidate.
  - `solver.rs`: how the solver's deductions are played on a board, and when
    a full solve stops.
  - `icon.rs`: the window icon's three sizes, resized with `image`.
  - `rng.rs`, `text.rs`: the calls into `rand`, `rand_pcg`, `unicode-width`
    and std that the library relies on, with the contracts it assumes of them.
- `tests/` — tests of the library.
- `app/` — the game window (macroquad), the calls into the `minesweeprs`
  solver, and the performance test (`--performance-test`).
