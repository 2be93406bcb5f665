use vstd::prelude::*;

use crate::animation_mode::AnimationMode;

verus! {

/// Which way a ping-pong animation is currently travelling.
#[derive(Debug, Clone, Copy, PartialEq, Eq, Structural)]
pub enum PingPongDirection {
    Forward,
    Backward,
}

/// The abstract playback position of a sprite animation: the current frame,
/// the index of the last frame, the mode, the ping-pong direction and whether
/// a play-once animation has ended.
pub struct Playhead {
    pub index: nat,
    pub last: nat,
    pub mode: AnimationMode,
    pub forward: bool,
    pub finished: bool,
}

/// One frame step of the playhead.
pub open spec fn step(p: Playhead) -> Playhead {
    match p.mode {
        AnimationMode::PlayOnce => {
            if p.index < p.last {
                Playhead { index: p.index + 1, ..p }
            } else {
                Playhead { finished: true, ..p }
            }
        },
        AnimationMode::Loop => Playhead { index: ((p.index + 1) % (p.last + 1)) as nat, ..p },
        AnimationMode::PingPong => {
            if p.forward {
                if p.index < p.last {
                    Playhead { index: p.index + 1, ..p }
                } else if p.last > 0 {
                    Playhead { index: (p.index - 1) as nat, forward: false, ..p }
                } else {
                    Playhead { forward: false, ..p }
                }
            } else {
                if p.index > 0 {
                    Playhead { index: (p.index - 1) as nat, ..p }
                } else if p.last > 0 {
                    Playhead { index: p.index + 1, forward: true, ..p }
                } else {
                    Playhead { forward: true, ..p }
                }
            }
        },
    }
}

/// The playhead points at a frame, and only a play-once animation can be
/// finished.
pub open spec fn playhead_ok(p: Playhead) -> bool {
    &&& p.index <= p.last
    &&& p.finished ==> p.mode == AnimationMode::PlayOnce
}

/// The playhead after `n` frame steps; stepping stops once the animation has
/// finished.
pub open spec fn advance_by(p: Playhead, n: nat) -> Playhead
    decreases n,
{
    if n == 0 || p.finished {
        p
    } else {
        advance_by(step(p), (n - 1) as nat)
    }
}

/// Plays through a sequence of frames (for example UV rectangles of a
/// sprite sheet).  Time is measured in frame ticks: each tick moves the
/// playhead by one step according to the playback mode.
#[derive(Debug)]
pub struct SpriteAnimation<F> {
    frames: Vec<F>,
    current_frame: usize,
    mode: AnimationMode,
    ping_pong_dir: PingPongDirection,
    paused: bool,
    finished: bool,
}

impl<F> SpriteAnimation<F> {
    #[verifier::type_invariant]
    spec fn well_formed(self) -> bool {
        &&& self.frames@.len() > 0
        &&& self.current_frame < self.frames@.len()
        &&& self.finished ==> self.mode == AnimationMode::PlayOnce
    }

    /// The frames, in playback order.
    pub closed spec fn frames_view(&self) -> Seq<F> {
        self.frames@
    }

    /// The abstract playback position.
    pub closed spec fn playhead(&self) -> Playhead {
        Playhead {
            index: self.current_frame as nat,
            last: (self.frames@.len() - 1) as nat,
            mode: self.mode,
            forward: self.ping_pong_dir == PingPongDirection::Forward,
            finished: self.finished,
        }
    }

    /// Whether playback is paused.
    pub closed spec fn paused_view(&self) -> bool {
        self.paused
    }

    /// The playhead describes these frames: its last index is the last frame,
    /// it points at a frame, and only a play-once animation can be finished.
    /// Every animation satisfies this; each method's `ensures` says so.
    pub open spec fn consistent(&self) -> bool {
        &&& self.frames_view().len() == self.playhead().last + 1
        &&& playhead_ok(self.playhead())
    }

    /// Creates an animation over `frames` in the given mode, at the first
    /// frame, playing forward, not paused and not finished.
    pub fn new(frames: Vec<F>, mode: AnimationMode) -> (res: Self)
        requires
            frames@.len() > 0,
        ensures
            res.frames_view() == frames@,
            res.playhead() == (Playhead {
                index: 0,
                last: (frames@.len() - 1) as nat,
                mode,
                forward: true,
                finished: false,
            }),
            !res.paused_view(),
            res.consistent(),
    {
        SpriteAnimation {
            frames,
            current_frame: 0,
            mode,
            ping_pong_dir: PingPongDirection::Forward,
            paused: false,
            finished: false,
        }
    }

    /// Whether ticks currently move the playhead (not paused, not finished).
    pub fn is_running(&self) -> (res: bool)
        ensures
            self.consistent(),
            res == (!self.paused_view() && !self.playhead().finished),
    {
        proof { use_type_invariant(self); }
        !self.paused && !self.finished
    }

    /// One frame step; returns whether a play-once animation just ended.
    fn step(&mut self) -> (done: bool)
        ensures
            final(self).frames_view() == old(self).frames_view(),
            final(self).consistent(),
            final(self).paused_view() == old(self).paused_view(),
            done == (old(self).playhead().mode == AnimationMode::PlayOnce
                && old(self).playhead().index >= old(self).playhead().last),
            final(self).playhead() == (Playhead {
                finished: old(self).playhead().finished,
                ..step(old(self).playhead())
            }),
    {
        proof { use_type_invariant(&*self); }
        let last_idx = self.frames.len() - 1;
        match self.mode {
            AnimationMode::PlayOnce => {
                if self.current_frame < last_idx {
                    self.current_frame = self.current_frame + 1;
                    false
                } else {
                    true
                }
            },
            AnimationMode::Loop => {
                self.current_frame = (self.current_frame + 1) % self.frames.len();
                false
            },
            AnimationMode::PingPong => {
                match self.ping_pong_dir {
                    PingPongDirection::Forward => {
                        if self.current_frame < last_idx {
                            self.current_frame = self.current_frame + 1;
                        } else {
                            self.ping_pong_dir = PingPongDirection::Backward;
                            if last_idx > 0 {
                                self.current_frame = self.current_frame - 1;
                            }
                        }
                    },
                    PingPongDirection::Backward => {
                        if self.current_frame > 0 {
                            self.current_frame = self.current_frame - 1;
                        } else {
                            self.ping_pong_dir = PingPongDirection::Forward;
                            if last_idx > 0 {
                                self.current_frame = self.current_frame + 1;
                            }
                        }
                    },
                }
                false
            },
        }
    }

    /// The frame currently shown.
    pub fn current_uv(&self) -> (res: &F)
        ensures
            self.consistent(),
            *res == self.frames_view()[self.playhead().index as int],
    {
        proof { use_type_invariant(self); }
        &self.frames[self.current_frame]
    }

    /// Index of the frame currently shown.
    pub fn current_frame_index(&self) -> (res: usize)
        ensures
            self.consistent(),
            res == self.playhead().index,
            res < self.frames_view().len(),
    {
        proof { use_type_invariant(self); }
        self.current_frame
    }

    /// Whether a play-once animation has ended.
    pub fn is_finished(&self) -> (res: bool)
        ensures
            self.consistent(),
            res == self.playhead().finished,
    {
        proof { use_type_invariant(self); }
        self.finished
    }

    /// Whether playback is paused.
    pub fn is_paused(&self) -> (res: bool)
        ensures
            self.consistent(),
            res == self.paused_view(),
    {
        proof { use_type_invariant(self); }
        self.paused
    }

    /// Number of frames.
    pub fn frame_count(&self) -> (res: usize)
        ensures
            self.consistent(),
            res == self.frames_view().len(),
            res > 0,
    {
        proof { use_type_invariant(self); }
        self.frames.len()
    }

    /// Stops ticks from moving the playhead.
    pub fn pause(&mut self)
        ensures
            final(self).paused_view(),
            final(self).playhead() == old(self).playhead(),
            final(self).frames_view() == old(self).frames_view(),
            final(self).consistent(),
    {
        proof { use_type_invariant(&*self); }
        self.paused = true;
    }

    /// Lets ticks move the playhead again.
    pub fn resume(&mut self)
        ensures
            !final(self).paused_view(),
            final(self).playhead() == old(self).playhead(),
            final(self).frames_view() == old(self).frames_view(),
            final(self).consistent(),
    {
        proof { use_type_invariant(&*self); }
        self.paused = false;
    }

    /// Pauses or resumes playback.
    pub fn set_paused(&mut self, paused: bool)
        ensures
            final(self).paused_view() == paused,
            final(self).playhead() == old(self).playhead(),
            final(self).frames_view() == old(self).frames_view(),
            final(self).consistent(),
    {
        proof { use_type_invariant(&*self); }
        self.paused = paused;
    }

    /// Rewinds to the first frame, playing forward and not finished.  The
    /// paused flag is kept.
    pub fn reset(&mut self)
        ensures
            final(self).playhead() == (Playhead {
                index: 0,
                forward: true,
                finished: false,
                ..old(self).playhead()
            }),
            final(self).paused_view() == old(self).paused_view(),
            final(self).frames_view() == old(self).frames_view(),
            final(self).consistent(),
    {
        proof { use_type_invariant(&*self); }
        self.current_frame = 0;
        self.finished = false;
        self.ping_pong_dir = PingPongDirection::Forward;
    }

    /// Jumps to `frame` when it is a valid frame index; otherwise nothing
    /// changes.  Returns whether the jump happened.
    pub fn set_frame(&mut self, frame: usize) -> (res: bool)
        ensures
            res == (frame < old(self).frames_view().len()),
            res ==> final(self).playhead() == (Playhead { index: frame as nat, ..old(self).playhead() }),
            !res ==> final(self).playhead() == old(self).playhead(),
            final(self).paused_view() == old(self).paused_view(),
            final(self).frames_view() == old(self).frames_view(),
            final(self).consistent(),
    {
        proof { use_type_invariant(&*self); }
        if frame < self.frames.len() {
            self.current_frame = frame;
            proof { use_type_invariant(&*self); }
            true
        } else {
            false
        }
    }

    /// Moves the playhead one frame step, whether or not the animation is
    /// paused: looping wraps to the first frame, ping-pong turns at either
    /// end, and play-once stays on the last frame and is then finished.
    pub fn advance_frame(&mut self)
        ensures
            final(self).frames_view() == old(self).frames_view(),
            final(self).paused_view() == old(self).paused_view(),
            final(self).playhead() == step(old(self).playhead()),
            old(self).consistent(),
            final(self).consistent(),
            old(self).playhead().mode == AnimationMode::Loop ==> final(self).playhead().index == (
            old(self).playhead().index + 1) % old(self).frames_view().len(),
            old(self).playhead().mode == AnimationMode::PlayOnce ==> final(self).playhead().index
                == (if old(self).playhead().index + 1 < old(self).frames_view().len() {
                old(self).playhead().index + 1
            } else {
                old(self).playhead().index
            }) && final(self).playhead().finished == (old(self).playhead().finished
                || old(self).playhead().index + 1 == old(self).frames_view().len()),
            old(self).playhead().mode == AnimationMode::PingPong && old(self).frames_view().len()
                == 1 ==> final(self).playhead().index == 0,
            old(self).playhead().mode == AnimationMode::PingPong && old(self).frames_view().len()
                > 1 ==> (final(self).playhead().index == old(self).playhead().index + 1
                || final(self).playhead().index == old(self).playhead().index - 1),
            old(self).playhead().mode != AnimationMode::PlayOnce ==> !final(self).playhead().finished,
    {
        proof {
            use_type_invariant(&*self);
            lemma_step(self.playhead());
        }
        let done = self.step();
        if done {
            proof {
                use_type_invariant(&*self);
            }
            self.finished = true;
        }
        proof {
            use_type_invariant(&*self);
        }
    }

    /// Advances the animation by `ticks` frame steps.  Nothing happens while
    /// the animation is paused or finished; a play-once animation stops at its
    /// last frame and is then marked finished.
    pub fn advance(&mut self, ticks: usize)
        ensures
            final(self).frames_view() == old(self).frames_view(),
            final(self).consistent(),
            final(self).paused_view() == old(self).paused_view(),
            old(self).paused_view() ==> final(self).playhead() == old(self).playhead(),
            !old(self).paused_view() ==> final(self).playhead() == advance_by(
                old(self).playhead(),
                ticks as nat,
            ),
    {
        proof { use_type_invariant(&*self); }
        if self.paused || self.finished {
            return;
        }
        let ghost p0 = self.playhead();
        let mut i: usize = 0;
        while i < ticks
            invariant_except_break
                !self.playhead().finished,
                self.playhead() == advance_by(p0, i as nat),
            invariant
                0 <= i <= ticks,
                !self.paused,
                self.frames_view() == old(self).frames_view(),
            ensures
                self.frames_view() == old(self).frames_view(),
                !self.paused,
                self.playhead() == advance_by(p0, ticks as nat),
            decreases ticks - i,
        {
            proof {
                lemma_advance_succ(p0, i as nat);
            }
            self.advance_frame();
            if self.finished {
                proof {
                    lemma_advance_finished(p0, (i + 1) as nat, ticks as nat);
                }
                break;
            }
            i = i + 1;
        }
        proof { use_type_invariant(&*self); }
    }
}

impl<F: Clone> Clone for SpriteAnimation<F> {
    /// A copy at the same playback position, with cloned frames.
    fn clone(&self) -> (res: Self)
        ensures
            res.playhead() == self.playhead(),
            res.paused_view() == self.paused_view(),
            res.frames_view().len() == self.frames_view().len(),
            res.consistent(),
            forall|i: int|
                0 <= i < self.frames_view().len() ==> cloned::<F>(
                    self.frames_view()[i],
                    #[trigger] res.frames_view()[i],
                ),
    {
        proof {
            use_type_invariant(self);
        }
        SpriteAnimation {
            frames: self.frames.clone(),
            current_frame: self.current_frame,
            mode: self.mode,
            ping_pong_dir: self.ping_pong_dir,
            paused: self.paused,
            finished: self.finished,
        }
    }
}

/// The grid cell `(column, row)` of frame `i` in a sprite sheet with
/// `columns` columns, counted row by row from the top-left.
pub open spec fn grid_cell(i: int, columns: int) -> (int, int) {
    (i % columns, i / columns)
}

/// The `(column, row)` cells of the first `frame_count` frames of a sprite
/// sheet with `columns` x `rows` cells, in row-major order.  Every cell lies
/// inside the grid.
pub fn grid_cells(columns: usize, rows: usize, frame_count: usize) -> (cells: Vec<(usize, usize)>)
    requires
        columns > 0,
        rows > 0,
        frame_count > 0,
        columns * rows <= usize::MAX,
        frame_count <= columns * rows,
    ensures
        cells@.len() == frame_count,
        forall|i: int|
            0 <= i < frame_count ==> (#[trigger] cells@[i]).0 == grid_cell(i, columns as int).0
                && cells@[i].1 == grid_cell(i, columns as int).1,
        forall|i: int|
            0 <= i < frame_count ==> (#[trigger] cells@[i]).0 < columns && cells@[i].1 < rows,
{
    let mut cells: Vec<(usize, usize)> = Vec::new();
    let mut i: usize = 0;
    while i < frame_count
        invariant
            0 < columns,
            0 < rows,
            frame_count <= columns * rows,
            i <= frame_count,
            cells@.len() == i,
            forall|j: int|
                0 <= j < i ==> (#[trigger] cells@[j]).0 == grid_cell(j, columns as int).0
                    && cells@[j].1 == grid_cell(j, columns as int).1,
            forall|j: int| 0 <= j < i ==> (#[trigger] cells@[j]).0 < columns && cells@[j].1 < rows,
        decreases frame_count - i,
    {
        let col = i % columns;
        let row = i / columns;
        proof {
            vstd::arithmetic::div_mod::lemma_multiply_divide_lt(i as int, columns as int, rows as int);
        }
        cells.push((col, row));
        i = i + 1;
    }
    cells
}

/// One frame step: looping moves to the next frame and wraps to the first,
/// play-once moves to the next frame until the last and is then finished,
/// ping-pong moves one frame up or down (a single frame stays put); the
/// playhead stays on a frame and only play-once can finish.
pub proof fn lemma_step(p: Playhead)
    requires
        playhead_ok(p),
    ensures
        playhead_ok(step(p)),
        step(p).last == p.last,
        step(p).mode == p.mode,
        p.mode == AnimationMode::Loop ==> step(p).index == (p.index + 1) % (p.last + 1),
        p.mode == AnimationMode::PlayOnce ==> step(p).index == (if p.index < p.last {
            p.index + 1
        } else {
            p.last
        }) && step(p).finished == (p.finished || p.index == p.last),
        p.mode == AnimationMode::PingPong && p.last == 0 ==> step(p).index == 0,
        p.mode == AnimationMode::PingPong && p.last > 0 ==> (step(p).index == p.index + 1
            || step(p).index == p.index - 1),
        p.mode != AnimationMode::PlayOnce ==> step(p).finished == p.finished,
{
    if p.mode == AnimationMode::Loop {
        vstd::arithmetic::div_mod::lemma_mod_bound((p.index + 1) as int, (p.last + 1) as int);
    }
}

/// Ticking never moves the playhead off the frames, never changes the mode
/// or the frame count, and only a play-once animation can finish.
pub proof fn lemma_advance_in_bounds(p: Playhead, n: nat)
    requires
        p.index <= p.last,
    ensures
        advance_by(p, n).index <= p.last,
        advance_by(p, n).last == p.last,
        advance_by(p, n).mode == p.mode,
        p.mode != AnimationMode::PlayOnce ==> advance_by(p, n).finished == p.finished,
    decreases n,
{
    if n > 0 && !p.finished {
        if p.mode == AnimationMode::Loop {
            vstd::arithmetic::div_mod::lemma_mod_bound((p.index + 1) as int, (p.last + 1) as int);
        }
        lemma_advance_in_bounds(step(p), (n - 1) as nat);
    }
}

/// A looping animation at frame `i` is at frame `(i + n) mod len` after `n`
/// ticks and never finishes.
pub proof fn lemma_loop_advance(p: Playhead, n: nat)
    requires
        p.mode == AnimationMode::Loop,
        p.index <= p.last,
        !p.finished,
    ensures
        advance_by(p, n) == (Playhead { index: ((p.index + n) % (p.last + 1)) as nat, ..p }),
    decreases n,
{
    if n == 0 {
        vstd::arithmetic::div_mod::lemma_small_mod(p.index, p.last + 1);
    } else {
        lemma_loop_advance(p, (n - 1) as nat);
        lemma_advance_succ(p, (n - 1) as nat);
        vstd::arithmetic::div_mod::lemma_add_mod_noop_right(1, p.index + n - 1, (p.last + 1) as int);
    }
}

/// A play-once animation at frame `i` is at frame `min(i + n, last)` after
/// `n` ticks, and it has finished exactly when `i + n` went past the last
/// frame.
pub proof fn lemma_play_once_advance(p: Playhead, n: nat)
    requires
        p.mode == AnimationMode::PlayOnce,
        p.index <= p.last,
        !p.finished,
    ensures
        advance_by(p, n).index == (if p.index + n <= p.last {
            p.index + n
        } else {
            p.last
        }),
        advance_by(p, n).finished == (p.index + n > p.last),
        advance_by(p, n).last == p.last,
    decreases n,
{
    if n > 0 {
        lemma_play_once_advance(p, (n - 1) as nat);
        lemma_advance_succ(p, (n - 1) as nat);
        lemma_advance_in_bounds(p, (n - 1) as nat);
    }
}

/// Position of a ping-pong playhead on its round trip of `2 * last` steps.
pub open spec fn ping_pong_phase(p: Playhead) -> int {
    if p.forward {
        p.index as int
    } else {
        2 * p.last - p.index
    }
}

/// The frame shown at round-trip position `q`: going up from the first frame
/// to the last, then back down.
pub open spec fn ping_pong_frame(q: int, last: nat) -> int {
    let r = q % ((2 * last) as int);
    if r <= last {
        r
    } else {
        2 * last - r
    }
}

proof fn lemma_ping_pong_step_phase(s: Playhead)
    requires
        s.mode == AnimationMode::PingPong,
        s.last > 0,
        s.index <= s.last,
    ensures
        ping_pong_phase(step(s)) % ((2 * s.last) as int) == (ping_pong_phase(s) + 1) % ((2 * s.last) as int),
        ping_pong_frame(ping_pong_phase(s), s.last) == s.index,
{
    let m = (2 * s.last) as int;
    if !s.forward && s.index == 0 {
        vstd::arithmetic::div_mod::lemma_mod_add_multiples_vanish(1, m);
        vstd::arithmetic::div_mod::lemma_mod_self_0(m);
    }
    if s.forward {
        vstd::arithmetic::div_mod::lemma_small_mod(s.index, m as nat);
    } else if s.index > 0 {
        vstd::arithmetic::div_mod::lemma_small_mod((m - s.index) as nat, m as nat);
    }
}

/// A ping-pong animation with at least two frames walks up to the last frame
/// and back down forever: after `n` ticks it shows the frame at round-trip
/// position `phase + n`, and it never finishes.
pub proof fn lemma_ping_pong_advance(p: Playhead, n: nat)
    requires
        p.mode == AnimationMode::PingPong,
        p.last > 0,
        p.index <= p.last,
        !p.finished,
    ensures
        advance_by(p, n).index == ping_pong_frame(ping_pong_phase(p) + n, p.last),
        !advance_by(p, n).finished,
    decreases n,
{
    lemma_phase_advance(p, n);
    lemma_advance_in_bounds(p, n);
    let s = advance_by(p, n);
    lemma_ping_pong_step_phase(s);
    assert(ping_pong_frame(ping_pong_phase(p) + n, p.last) == ping_pong_frame(ping_pong_phase(s), p.last));
}

proof fn lemma_phase_advance(p: Playhead, n: nat)
    requires
        p.mode == AnimationMode::PingPong,
        p.last > 0,
        p.index <= p.last,
        !p.finished,
    ensures
        ping_pong_phase(advance_by(p, n)) % ((2 * p.last) as int) == (ping_pong_phase(p) + n) % ((2 * p.last) as int),
    decreases n,
{
    if n > 0 {
        let k = (n - 1) as nat;
        lemma_phase_advance(p, k);
        lemma_advance_succ(p, k);
        lemma_advance_in_bounds(p, k);
        let s = advance_by(p, k);
        lemma_ping_pong_step_phase(s);
        let m = (2 * p.last) as int;
        vstd::arithmetic::div_mod::lemma_add_mod_noop_right(1, ping_pong_phase(s), m);
        vstd::arithmetic::div_mod::lemma_add_mod_noop_right(1, ping_pong_phase(p) + k, m);
    }
}

/// A ping-pong animation with a single frame stays on it forever.
pub proof fn lemma_ping_pong_single_frame(p: Playhead, n: nat)
    requires
        p.mode == AnimationMode::PingPong,
        p.last == 0,
        p.index == 0,
        !p.finished,
    ensures
        advance_by(p, n).index == 0,
        !advance_by(p, n).finished,
{
    lemma_advance_in_bounds(p, n);
}

/// Stepping `n + 1` times is stepping `n` times and then once more, unless
/// the animation had already finished.
pub proof fn lemma_advance_succ(p: Playhead, n: nat)
    ensures
        advance_by(p, n + 1) == (if advance_by(p, n).finished {
            advance_by(p, n)
        } else {
            step(advance_by(p, n))
        }),
    decreases n,
{
    reveal_with_fuel(advance_by, 2);
    if n > 0 && !p.finished {
        lemma_advance_succ(step(p), (n - 1) as nat);
    }
}

/// Once finished, further ticks change nothing.
pub proof fn lemma_advance_finished(p: Playhead, n: nat, m: nat)
    requires
        advance_by(p, n).finished,
        n <= m,
    ensures
        advance_by(p, m) == advance_by(p, n),
    decreases m - n,
{
    if n < m {
        lemma_advance_succ(p, n);
        lemma_advance_finished(p, n + 1, m);
    }
}

} // verus!
