# island_command

Decisions of a computer player in a turn-based war game on islands, written and proved in Verus:
which islands to take, which transports carry whom, what a look ahead does to the board and how it
is taken back, which attacks are not worth it, and what to build.

- `src/` is the library. It works on plain values: a `Board` with one row per entity, a `GameMap`,
  the tables of the game, and what the rules of movement and combat say. Every function has a
  contract; what holds of several functions together is proved in the functions whose names begin
  with `law_`.
- `tests/` runs it on small worlds.
- `app/` reads a `bevy_ecs` world into those values, asks the rest of the game where its rules are
  needed (`app/rules.rs`), weighs what takes floating point, and writes the decisions back.
