# Matrix Speedrunner

A typing mini-game for the terminal, in two modes:

- **Speed Runner**: shell commands fall down the screen; type each before it
  reaches the ground. Three misses end the game. A command scores
  `len × 10 × (1 + combo / 5)`.
- **Hack Time Attack**: one command at a time, as many as possible before the
  clock runs out. A command scores
  `(len × 5 + max(0, len − 10) × 2) × (1 + combo / 5)`; a wrong key empties
  the input and resets the combo, with no loss of points.

Finished games go to a score board (`score.xlsx` next to the executable),
shown by day and by player.

## Layout

- `src/` is the library, verified with Verus: the state of each mode and
  what every key and tick does to it (`hack`, `speedrunner`, `game`), the
  settings and the random choice of commands (`config`, `random`), the
  screens and their key handlers (`screen`, `handlers`), the score board
  (`score`, `daily`, `numfmt`), the geometry of what is drawn (`layout`,
  `rain`), string helpers (`text`), and the properties that span several
  operations (`laws`).
- `app/` is the program around it: the terminal, the event loop, the
  settings file, the spreadsheet on disk, and the drawing of each screen.
- `tests/` runs the library on concrete games and boards.

Times are counted in milliseconds and heights in thousandths of a row, so
that every rule of the game is exact integer arithmetic.
