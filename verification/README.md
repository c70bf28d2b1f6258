# tetra_attack

The game logic of a falling-block puzzle game, verified with Verus: a
scrolling board of coloured blocks, matches of three or more in a row or
column, chains, garbage blocks that turn into direction captchas, an enemy
that attacks on a cooldown, the game's state machine, and what is drawn for a
frame.

Quantities that a game would keep in floating point are kept in fixed point:
durations in whole microseconds, fall offsets in millionths of a square,
the board's scroll in sixteen-millionths of a row (so that it moves by a
whole number of units each microsecond, boosted or not), and pixel
positions in `u32`.

Garbage blocks fall in the order in which gravity first meets one of their
squares, and the multipliers of closing chains are drawn in the order in
which they stand on the board; a hash map would leave both orders to chance,
so plain vectors hold them. Random numbers come from the host and reach the
library as arguments.

Layout:

- `src/` — the verified library: `cell`, `chain`, `enemy`, `time`, `input`,
  `board` (the board and its basic moves), `anims` (queued deletes and death
  animations), `matches` (the match pass), `gravity`, `frame` (one frame of
  the board), `game` (controls and the state machine), `render` (draw
  commands), `channel` (the event channel's trusted items) and `laws`.
- `tests/` — tests of the library on concrete boards and games.
- `app/` — the entry points called by the host page: random numbers, host
  calls, and the drawing calls that carry out the library's draw commands.
