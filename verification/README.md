# anthea

The rules of *Anthea's Quest*, a small tile-based role-playing game, as a
library verified with Verus, and the game program around it.

## Layout

- `src/` — the verified library.
  - `rect.rs` — room outlines: overlap, centre, west/east of, lined up.
  - `stage.rs` — a stage: rooms, doors, items, characters, scripted
    interactions (conditions and actions).
  - `global.rs` — definitions shared by all stages (potions, monsters,
    spells, weapons).
  - `components.rs` — positions, characteristics, weapons.
  - `map.rs` — the tile map: carving rooms and doors, room lookup, field of
    view bookkeeping, movement, fleeing, and the check that a stage fits.
  - `rpg.rs` — dice: opposed tests, initiative, one attack.
  - `combat.rs` — a combat round, damage, defeat of a monster.
  - `progress.rs` — run states, quest flags, journal, conditions and the
    choice of the interaction on offer.
  - `interact.rs` — what the actions of an interaction do to the player's
    progress, round after round, and the world changes they ask for.
  - `text.rs` — word wrapping for the message panels.
  - `input.rs` — what a key means in each state, and the frames of the main
    loop.
- `tests/` — tests of the library.
- `app/` — the game program: window, keyboard, entity world (`specs`),
  loading the RON stage files, drawing. It reads `resources/stage1.ron`,
  `resources/global.ron` and the fonts under `resources/`.
