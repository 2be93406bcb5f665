use rustgames::animation_mode::AnimationMode;
use rustgames::sprite_animation::{grid_cells, SpriteAnimation};

type Uv = [f32; 4];

/// Drives a frame animation from elapsed seconds at a fixed frame rate, the
/// way a game loop does.
struct Player {
    anim: SpriteAnimation<Uv>,
    elapsed: f32,
    frame_duration: f32,
}

impl Player {
    fn new(frames: Vec<Uv>, fps: f32, mode: AnimationMode) -> Self {
        Player { anim: SpriteAnimation::new(frames, mode), elapsed: 0.0, frame_duration: 1.0 / fps }
    }

    fn update(&mut self, delta_time: f32) {
        if !self.anim.is_running() {
            return;
        }
        self.elapsed += delta_time;
        let mut ticks = 0;
        while self.elapsed >= self.frame_duration {
            self.elapsed -= self.frame_duration;
            ticks += 1;
        }
        self.anim.advance(ticks);
    }

    fn reset(&mut self) {
        self.anim.reset();
        self.elapsed = 0.0;
    }
}

#[test]
fn test_animation_loop() {
    let frames = vec![[0.0, 0.0, 0.5, 0.5], [0.5, 0.0, 0.5, 0.5], [0.0, 0.5, 0.5, 0.5]];
    let mut anim = Player::new(frames, 10.0, AnimationMode::Loop);
    assert_eq!(anim.anim.current_frame_index(), 0);
    anim.update(0.1);
    assert_eq!(anim.anim.current_frame_index(), 1);
    anim.update(0.2);
    assert_eq!(anim.anim.current_frame_index(), 0);
    assert!(!anim.anim.is_finished());
}

#[test]
fn test_animation_play_once() {
    let frames = vec![[0.0, 0.0, 0.5, 0.5], [0.5, 0.0, 0.5, 0.5]];
    let mut anim = Player::new(frames, 10.0, AnimationMode::PlayOnce);
    anim.update(0.1);
    assert_eq!(anim.anim.current_frame_index(), 1);
    assert!(!anim.anim.is_finished());
    anim.update(0.1);
    assert_eq!(anim.anim.current_frame_index(), 1);
    assert!(anim.anim.is_finished());
}

#[test]
fn test_animation_ping_pong() {
    let frames = vec![[0.0, 0.0, 1.0, 1.0], [0.0, 0.0, 1.0, 1.0], [0.0, 0.0, 1.0, 1.0]];
    let mut anim = Player::new(frames, 10.0, AnimationMode::PingPong);
    anim.update(0.1);
    assert_eq!(anim.anim.current_frame_index(), 1);
    anim.update(0.1);
    assert_eq!(anim.anim.current_frame_index(), 2);
    anim.update(0.1);
    assert_eq!(anim.anim.current_frame_index(), 1);
    anim.update(0.1);
    assert_eq!(anim.anim.current_frame_index(), 0);
    anim.update(0.1);
    assert_eq!(anim.anim.current_frame_index(), 1);
}

#[test]
fn test_animation_from_grid() {
    let cells = grid_cells(4, 4, 8);
    assert_eq!(cells.len(), 8);
    let fw = 1.0 / 4.0_f32;
    let fh = 1.0 / 4.0_f32;
    let frames: Vec<Uv> =
        cells.iter().map(|&(c, r)| [c as f32 * fw, r as f32 * fh, fw, fh]).collect();
    let anim = SpriteAnimation::new(frames, AnimationMode::Loop);
    assert_eq!(anim.frame_count(), 8);
    let first_uv = anim.current_uv();
    assert_eq!(first_uv[0], 0.0);
    assert_eq!(first_uv[1], 0.0);
    assert_eq!(first_uv[2], 0.25);
    assert_eq!(first_uv[3], 0.25);
}

#[test]
fn test_animation_pause_resume() {
    let frames = vec![[0.0, 0.0, 1.0, 1.0], [0.0, 0.0, 1.0, 1.0]];
    let mut anim = Player::new(frames, 10.0, AnimationMode::Loop);
    anim.anim.pause();
    anim.update(0.1);
    assert_eq!(anim.anim.current_frame_index(), 0);
    anim.anim.resume();
    anim.update(0.1);
    assert_eq!(anim.anim.current_frame_index(), 1);
}

#[test]
fn test_animation_reset() {
    let frames = vec![[0.0, 0.0, 1.0, 1.0], [0.0, 0.0, 1.0, 1.0]];
    let mut anim = Player::new(frames, 10.0, AnimationMode::PlayOnce);
    anim.update(0.2);
    assert!(anim.anim.is_finished());
    anim.reset();
    assert_eq!(anim.anim.current_frame_index(), 0);
    assert!(!anim.anim.is_finished());
}

#[test]
fn loop_wraps_after_many_ticks() {
    let mut anim = SpriteAnimation::new(vec![10, 11, 12, 13, 14], AnimationMode::Loop);
    anim.advance(2);
    anim.advance(13);
    // (2 + 13) mod 5
    assert_eq!(anim.current_frame_index(), 0);
    assert_eq!(*anim.current_uv(), 10);
    assert!(!anim.is_finished());
}

#[test]
fn play_once_stops_on_last_frame() {
    let mut anim = SpriteAnimation::new(vec!['a', 'b', 'c', 'd'], AnimationMode::PlayOnce);
    anim.advance(2);
    assert_eq!(anim.current_frame_index(), 2);
    assert!(!anim.is_finished());
    anim.advance(1);
    assert_eq!(anim.current_frame_index(), 3);
    assert!(!anim.is_finished());
    anim.advance(100);
    assert_eq!(anim.current_frame_index(), 3);
    assert!(anim.is_finished());
    assert!(!anim.is_running());
}

#[test]
fn ping_pong_round_trip_formula() {
    // four frames: positions go 0 1 2 3 2 1 0 1 ...
    let mut anim = SpriteAnimation::new(vec![0u8; 4], AnimationMode::PingPong);
    let expected = [1, 2, 3, 2, 1, 0, 1, 2, 3, 2];
    for want in expected {
        anim.advance(1);
        assert_eq!(anim.current_frame_index(), want);
    }
    // a full round trip of 2 * last = 6 ticks comes back to the same frame
    let before = anim.current_frame_index();
    anim.advance(6);
    assert_eq!(anim.current_frame_index(), before);
}

#[test]
fn ping_pong_single_frame_stays() {
    let mut anim = SpriteAnimation::new(vec![7u8], AnimationMode::PingPong);
    anim.advance(9);
    assert_eq!(anim.current_frame_index(), 0);
    assert!(!anim.is_finished());
}

#[test]
fn paused_animation_ignores_ticks() {
    let mut anim = SpriteAnimation::new(vec![0u8; 3], AnimationMode::Loop);
    anim.set_paused(true);
    anim.advance(5);
    assert_eq!(anim.current_frame_index(), 0);
    assert!(anim.is_paused());
    anim.set_paused(false);
    anim.advance(5);
    assert_eq!(anim.current_frame_index(), 2);
}

#[test]
fn set_frame_only_accepts_valid_indices() {
    let mut anim = SpriteAnimation::new(vec![0u8; 3], AnimationMode::Loop);
    assert!(anim.set_frame(2));
    assert_eq!(anim.current_frame_index(), 2);
    assert!(!anim.set_frame(3));
    assert_eq!(anim.current_frame_index(), 2);
}

#[test]
fn reset_restarts_ping_pong_forward() {
    let mut anim = SpriteAnimation::new(vec![0u8; 3], AnimationMode::PingPong);
    anim.advance(3); // 1 2 1, now travelling backward
    anim.reset();
    anim.advance(1);
    assert_eq!(anim.current_frame_index(), 1);
    anim.advance(1);
    assert_eq!(anim.current_frame_index(), 2);
}

#[test]
fn grid_cells_are_row_major() {
    let cells = grid_cells(3, 2, 5);
    assert_eq!(cells, vec![(0, 0), (1, 0), (2, 0), (0, 1), (1, 1)]);
}

#[test]
fn advance_frame_steps_once_per_mode() {
    let mut looping = SpriteAnimation::new(vec![0u8; 3], AnimationMode::Loop);
    for want in [1, 2, 0, 1] {
        looping.advance_frame();
        assert_eq!(looping.current_frame_index(), want);
    }
    assert!(!looping.is_finished());

    let mut once = SpriteAnimation::new(vec![0u8; 2], AnimationMode::PlayOnce);
    once.advance_frame();
    assert_eq!(once.current_frame_index(), 1);
    assert!(!once.is_finished());
    once.advance_frame();
    assert_eq!(once.current_frame_index(), 1);
    assert!(once.is_finished());

    let mut bounce = SpriteAnimation::new(vec![0u8; 3], AnimationMode::PingPong);
    for want in [1, 2, 1, 0, 1] {
        bounce.advance_frame();
        assert_eq!(bounce.current_frame_index(), want);
    }
}

#[test]
fn advance_frame_moves_even_when_paused() {
    let mut anim = SpriteAnimation::new(vec![0u8; 3], AnimationMode::Loop);
    anim.pause();
    anim.advance_frame();
    assert_eq!(anim.current_frame_index(), 1);
    assert!(anim.is_paused());
}
