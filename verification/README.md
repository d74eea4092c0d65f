# kretes

A tile-based digging game: the player moves on a grid, digs dirt, collects
and plants bombs, pushes falling rocks and bombs, and dodges enemies.

- `src/` is the verified library (Verus): the game's rules. Positions are
  fixed-point integers (`config::UNITS_PER_PIXEL` units per pixel), times are
  nanoseconds. Every public function states what it returns; laws that relate
  several calls are public proof functions (`law_*`, `lemma_*`).
  - `geometry`, `tiles`, `selection`: positions, proximity rules, tiles of
    the field and lists of picked indices.
  - `timer`: countdown timers, ticked by `bevy_time`.
  - `pieces`, `level`: what the level is made of and where it goes.
  - `player`, `bomb`, `enemy`, `movable`, `falling`, `explosion`: one frame
    of each part of the game.
  - `random`: draws from `rand`.
- `app/` is the Bevy program: it reads the ECS world, calls the library and
  writes the outcome back as entities, sprites, sounds and transforms.
- `tests/` exercises the library on concrete values.
