# game_of_life

A two-faction Game of Life (red against blue) on a board that also holds walls, bombs
and high-value units, with its rules proved in Verus.

- `src/` is the verified library: `cell` (cell kinds), `board` (counting cells),
  `rules` (the rules as spec functions: neighbours, births and deaths, blasts,
  high-value units, one generation), `game` (the game state and the moves that edit
  it), `evolve` (one generation, proved equal to the rules), `api` (save, load and the
  state sent to clients), `keytext` (the "x,y" text of a bomb's position in saved
  games) and `laws` (properties of the rules, proved).
- `app/` is the HTTP server around the library (axum, tokio), with the serde copies of
  the request and response types.
- `tests/` runs the library on concrete boards.
