# sudoku

A terminal sudoku game. The library (`src/`) holds the game's logic with
machine-checked contracts:

- `grid` — the model: cells, peers, completions of a board, and the lemmas
  about them.
- `sudoku` — the board: `is_safe`, the backtracking `solve`, `count_solutions`,
  and puzzle making (`seed_and_solve`, `generate_solution`, `remove_cell`,
  `remove_random_cell`, `remove_cells`, `generator`).
- `random` — the shuffle and the random index from `rand` that puzzle making uses.
- `text` — the board as plain text (`print_text`).
- `game` — menu, play and win popup as a function of the state and a key.
- `laws` — properties across operations.

`app/` is the terminal front end (ratatui, crossterm): it reads keys, draws
the screen and repeats `remove_cells` until the puzzle has as many empty
cells as asked.
