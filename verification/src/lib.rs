//! Verified core of a small 2D game engine: animation bookkeeping, sprite
//! frame playback, sprite batching, directions, effect-combination modes and
//! color parsing.
pub mod animation_mode;
pub mod animation_system;
pub mod color_parse;
pub mod direction;
pub mod easing;
pub mod group;
pub mod sprite_animation;
pub mod sprite_batches;
pub mod vfx_system;
pub mod visual;
