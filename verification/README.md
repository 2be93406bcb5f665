# rustgames

The verified core of a small 2D game engine, written in Verus.

`src/` holds the logic that does not depend on floating point or on the GPU,
each function with a contract that Verus proves:

- `sprite_animation`: frame playback of sprite animations (play once, loop,
  ping-pong) in whole frame ticks, with laws on where the playhead is after
  any number of ticks, and the row-major cell layout of sprite sheets.
- `animation_system`: running animations under fresh, distinct ids; stop,
  pause, resume and prune by id or by group.
- `group`: groups of animation ids.
- `sprite_batches`: per-frame sprite instances grouped by texture label in
  first-use order.
- `color_parse`: color strings (hex, channel tuples, names) to channels.
- `direction`, `easing`, `animation_mode`, `visual`: the enums and rules the
  rest of the engine shares.

`app/` holds the `f32` and `glam` side around it: colors, easing curves,
animation effects, cameras, particles and screen shake. It drives the
verified types with whole frame ticks, masks of finished animations, and
parsed color channels.

The animation system in `app/` prepares the delays of sequences, parallel
groups and timelines in floating point and hands the prepared animations to
the verified `AnimationSystem::start_all`, which assigns the ids. The effect
manager and the layered effect renderer keep their running effects in the
verified `VfxSystem`.
