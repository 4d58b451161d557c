# game

The gameplay logic of a small 2D platformer, verified with Verus, and the
Bevy program around it.

- `src/` is the verified library.
  - `world::wall` merges a level's wall tiles into rectangles. It states
    and proves that the rectangles cover exactly the wall tiles inside the
    level and never overlap.
  - `world::foliage`, `world::vines`, `world::platform` and `world::level` hold
    the rules for fading foliage, finding the vine the player touches,
    one-way platforms, and the names of the level's layers.
  - `entity::player` holds the decisions of a frame of player movement
    (climbing, steering, wall sliding, jumping) and of its animation.
    `entity::spring` does the same for springs, and `entity::common` for the
    components that characters share.
- `app/` is the Bevy game. Its systems read the keyboard, the timers and the
  physics world, ask the library what to do, and apply the result. All
  floating-point physics stays there.
- `tests/` runs the library on concrete cases.
