//! Lane-runner gameplay: a menu / playing / game-over state machine, a
//! player easing toward a target lateral position, obstacles spawned on a
//! periodic timer at a random lateral position, moved forward at constant
//! speed and culled past a despawn plane, axis-aligned collision with
//! first hit winning, and a score that grows with time.
//!
//! World positions are integers in thousandths of a world unit, touch
//! coordinates in thousandths of a pixel, durations in milliseconds, and
//! the score in thousandths of a point.  Scheduling stays with the host
//! engine: it calls the playing-state systems once per frame in the order
//! [`World::player_input`], [`World::update_player_transform`],
//! [`World::spawn_obstacles`], [`World::move_obstacles`],
//! [`World::collision_system`], [`World::score_system`], and applies the
//! requested state change at the end of the frame with
//! [`World::apply_transition`].

use crate::digits::{chars_string, nat_digits, push_decimal};
use vstd::arithmetic::div_mod::lemma_div_nonincreasing;
use vstd::math::abs;
use vstd::prelude::*;

verus! {

/// Half-width of the track: the player and obstacles stay within this.
pub const TRACK_HALF_X: i64 = 4200;

/// The player's fixed depth.
pub const PLAYER_Z: i64 = 0;

/// Depth at which an obstacle appears.
pub const OBSTACLE_START_Z: i64 = -25000;

/// Depth past which an obstacle is removed.
pub const OBSTACLE_DESPAWN_Z: i64 = 7000;

/// Obstacle speed toward the camera, in milli-units per second.
pub const OBSTACLE_SPEED: i64 = 8000;

/// Interval between obstacle spawns.
pub const SPAWN_EVERY_MS: i64 = 900;

/// Lateral milli-units per pixel of horizontal drag.
pub const DRAG_X_PER_PX: i64 = 20;

/// Speed at which the player's position eases toward its target, in
/// milli-units per second.
pub const PLAYER_LERP_SPEED: i64 = 12000;

/// Lateral step per left or right key press.
pub const KEY_STEP_X: i64 = 900;

/// Score gained per millisecond of play, in milli-points.
pub const SCORE_RATE: i64 = 10;

/// Collision half-extent on each axis: half the summed box sizes of
/// player and obstacle (800 each), scaled by the 0.8 tolerance.
pub const COLLIDE_HALF_X: i64 = 640;

pub const COLLIDE_HALF_Z: i64 = 640;

/// Largest frame duration a caller may report.
pub const MAX_TICK_MS: i64 = 1_000_000;

/// Largest touch coordinate magnitude a caller may report, in
/// milli-pixels.
pub const MAX_TOUCH_X: i64 = 1_000_000_000;

#[derive(Clone, Copy, Debug, PartialEq, Eq, Structural)]
pub enum GameState {
    Menu,
    Playing,
    GameOver,
}

#[derive(Clone, Copy, Debug, PartialEq, Eq, Structural)]
pub struct Player {
    pub x: i64,
    pub target_x: i64,
}

#[derive(Clone, Copy, Debug, PartialEq, Eq, Structural)]
pub struct Obstacle {
    pub x: i64,
    pub z: i64,
}

#[derive(Clone, Copy, Debug, PartialEq, Eq, Structural)]
pub struct Score {
    pub value: i64,
    pub best: i64,
}

#[derive(Clone, Copy, Debug, PartialEq, Eq, Structural)]
pub struct SpawnTimer {
    pub elapsed_ms: i64,
}

/// The one tracked touch: its id and the pixel position the next drag
/// delta is measured from.
#[derive(Clone, Copy, Debug)]
pub struct TouchState {
    pub active_id: Option<u64>,
    pub anchor_x: Option<i64>,
}

/// One touch event, as the host delivers it.
#[derive(Clone, Copy, Debug)]
pub enum TouchEvent {
    Started { id: u64, x: i64 },
    Moved { id: u64, x: i64 },
    Ended { id: u64 },
    Canceled { id: u64 },
}

/// The whole game state a frame reads and writes.
pub struct World {
    pub state: GameState,
    /// A state change requested this frame, applied at frame end.
    pub next_state: Option<GameState>,
    pub player: Option<Player>,
    pub obstacles: Vec<Obstacle>,
    pub score: Score,
    pub spawn_timer: SpawnTimer,
    pub touch: TouchState,
}

pub open spec fn in_track(x: int) -> bool {
    -TRACK_HALF_X <= x <= TRACK_HALF_X
}

/// `x` pulled into the track.
pub open spec fn clamp_track(x: int) -> int {
    if x < -TRACK_HALF_X {
        -TRACK_HALF_X as int
    } else if x > TRACK_HALF_X {
        TRACK_HALF_X as int
    } else {
        x
    }
}

pub open spec fn obstacle_ok(o: Obstacle) -> bool {
    in_track(o.x as int) && OBSTACLE_START_Z <= o.z <= OBSTACLE_DESPAWN_Z
}

pub open spec fn touch_x_ok(ev: TouchEvent) -> bool {
    match ev {
        TouchEvent::Started { id, x } => -MAX_TOUCH_X <= x <= MAX_TOUCH_X,
        TouchEvent::Moved { id, x } => -MAX_TOUCH_X <= x <= MAX_TOUCH_X,
        TouchEvent::Ended { id } => true,
        TouchEvent::Canceled { id } => true,
    }
}

impl World {
    /// Invariants every system preserves: exactly one player exists while
    /// playing and none otherwise; player position and target, and every
    /// obstacle, stay on the track; obstacles exist only while playing
    /// and never past the despawn plane; the score is never negative; the
    /// spawn timer stays below its interval; a tracked touch anchor is a
    /// reported coordinate; and a requested state change is one of the
    /// three legal transitions.
    pub open spec fn wf(self) -> bool {
        &&& (self.state is Playing <==> self.player is Some)
        &&& match self.player {
            Option::Some(p) => in_track(p.x as int) && in_track(p.target_x as int),
            Option::None => true,
        }
        &&& forall|i: int|
            0 <= i < self.obstacles@.len() ==> obstacle_ok(#[trigger] self.obstacles@[i])
        &&& !(self.state is Playing) ==> self.obstacles@.len() == 0
        &&& 0 <= self.score.value
        &&& 0 <= self.score.best
        &&& 0 <= self.spawn_timer.elapsed_ms < SPAWN_EVERY_MS
        &&& match self.touch.anchor_x {
            Option::Some(a) => -MAX_TOUCH_X <= a <= MAX_TOUCH_X,
            Option::None => true,
        }
        &&& match self.next_state {
            Option::None => true,
            Option::Some(ns) => {
                ||| self.state is Menu && ns is Playing
                ||| self.state is Playing && ns is GameOver
                ||| self.state is GameOver && ns is Playing
            },
        }
    }

    /// A fresh world at the menu.
    pub fn new() -> (w: World)
        ensures
            w.wf(),
            w.state is Menu,
            w.next_state is None,
            w.player is None,
            w.obstacles@.len() == 0,
            w.score == (Score { value: 0, best: 0 }),
            w.spawn_timer.elapsed_ms == 0,
            w.touch.active_id is None,
            w.touch.anchor_x is None,
    {
        World {
            state: GameState::Menu,
            next_state: None,
            player: None,
            obstacles: Vec::new(),
            score: Score { value: 0, best: 0 },
            spawn_timer: SpawnTimer { elapsed_ms: 0 },
            touch: TouchState { active_id: None, anchor_x: None },
        }
    }

    /// At the menu, any primary input requests the playing state.
    pub fn menu_start(&mut self, touched: bool, clicked: bool, keyed: bool)
        requires
            old(self).wf(),
            old(self).state is Menu,
        ensures
            final(self).wf(),
            final(self).next_state == (if touched || clicked || keyed {
                Some(GameState::Playing)
            } else {
                old(self).next_state
            }),
            final(self).state == old(self).state,
            final(self).player == old(self).player,
            final(self).obstacles == old(self).obstacles,
            final(self).score == old(self).score,
            final(self).spawn_timer == old(self).spawn_timer,
            final(self).touch == old(self).touch,
    {
        if touched || clicked || keyed {
            self.next_state = Some(GameState::Playing);
        }
    }

    /// At game over, any primary input requests a restart.
    pub fn game_over_restart(&mut self, touched: bool, clicked: bool, keyed: bool)
        requires
            old(self).wf(),
            old(self).state is GameOver,
        ensures
            final(self).wf(),
            final(self).next_state == (if touched || clicked || keyed {
                Some(GameState::Playing)
            } else {
                old(self).next_state
            }),
            final(self).state == old(self).state,
            final(self).player == old(self).player,
            final(self).obstacles == old(self).obstacles,
            final(self).score == old(self).score,
            final(self).spawn_timer == old(self).spawn_timer,
            final(self).touch == old(self).touch,
    {
        if touched || clicked || keyed {
            self.next_state = Some(GameState::Playing);
        }
    }

    /// Applies the requested state change, with each state's entry and
    /// exit effects: entering play resets the running score and the spawn
    /// timer and spawns the player at the track centre; leaving play
    /// removes the player and every obstacle.  The best score survives
    /// every transition.
    pub fn apply_transition(&mut self)
        requires
            old(self).wf(),
        ensures
            final(self).wf(),
            final(self).next_state is None,
            final(self).score.best == old(self).score.best,
            final(self).touch == old(self).touch,
            old(self).next_state is None ==> *final(self) == *old(self),
            old(self).next_state == Some(GameState::Playing) ==> {
                &&& final(self).state is Playing
                &&& final(self).player == Some(Player { x: 0, target_x: 0 })
                &&& final(self).score.value == 0
                &&& final(self).spawn_timer.elapsed_ms == 0
                &&& final(self).obstacles == old(self).obstacles
            },
            old(self).next_state == Some(GameState::GameOver) ==> {
                &&& final(self).state is GameOver
                &&& final(self).player is None
                &&& final(self).obstacles@.len() == 0
                &&& final(self).score == old(self).score
                &&& final(self).spawn_timer == old(self).spawn_timer
            },
    {
        match self.next_state {
            None => {},
            Some(GameState::Playing) => {
                self.state = GameState::Playing;
                self.player = Some(Player { x: 0, target_x: 0 });
                self.score.value = 0;
                self.spawn_timer.elapsed_ms = 0;
                self.next_state = None;
            },
            Some(GameState::GameOver) => {
                self.state = GameState::GameOver;
                self.player = None;
                self.obstacles = Vec::new();
                self.next_state = None;
            },
            Some(GameState::Menu) => {
                // Unreachable: no transition requests the menu.
                proof {
                    assert(false);
                }
            },
        }
    }
}

/// The target position after the key presses of one frame: a clamped step
/// left, then a clamped step right.
pub open spec fn key_target(t: int, left: bool, right: bool) -> int {
    let t1 = if left {
        clamp_track(t - KEY_STEP_X)
    } else {
        t
    };
    if right {
        clamp_track(t1 + KEY_STEP_X)
    } else {
        t1
    }
}

/// World milli-units of one drag delta in milli-pixels, truncated toward
/// zero.
pub open spec fn drag_shift(dx: int) -> int {
    if dx >= 0 {
        (dx * DRAG_X_PER_PX) / 1000
    } else {
        -((-dx * DRAG_X_PER_PX) / 1000)
    }
}

/// One touch event against the touch tracker and the player target: the
/// first touch is captured, a move of the captured touch drags the target
/// by its delta and re-anchors, and its end or cancellation releases it.
pub open spec fn touch_step(ts: TouchState, target: int, ev: TouchEvent) -> (TouchState, int) {
    match ev {
        TouchEvent::Started { id, x } => {
            if ts.active_id is None {
                (TouchState { active_id: Some(id), anchor_x: Some(x) }, target)
            } else {
                (ts, target)
            }
        },
        TouchEvent::Moved { id, x } => {
            match (ts.active_id, ts.anchor_x) {
                (Option::Some(a), Option::Some(anchor)) => {
                    if a == id {
                        (
                            TouchState { active_id: Some(id), anchor_x: Some(x) },
                            clamp_track(target + drag_shift(x - anchor)),
                        )
                    } else {
                        (ts, target)
                    }
                },
                _ => (ts, target),
            }
        },
        TouchEvent::Ended { id } => {
            if ts.active_id == Some(id) {
                (TouchState { active_id: None, anchor_x: None }, target)
            } else {
                (ts, target)
            }
        },
        TouchEvent::Canceled { id } => {
            if ts.active_id == Some(id) {
                (TouchState { active_id: None, anchor_x: None }, target)
            } else {
                (ts, target)
            }
        },
    }
}

/// The touch events of one frame folded in order over tracker and target.
pub open spec fn touch_fold(ts: TouchState, target: int, evs: Seq<TouchEvent>) -> (TouchState, int)
    decreases evs.len(),
{
    if evs.len() == 0 {
        (ts, target)
    } else {
        let s1 = touch_step(ts, target, evs[0]);
        touch_fold(s1.0, s1.1, evs.drop_first())
    }
}

/// The player's target never leaves the track, whatever touch input
/// arrives and however large its deltas are: every event either keeps the
/// target or clamps it into the track.
pub proof fn lemma_touch_fold_in_track(ts: TouchState, target: int, evs: Seq<TouchEvent>)
    requires
        in_track(target),
    ensures
        in_track(touch_fold(ts, target, evs).1),
    decreases evs.len(),
{
    if evs.len() > 0 {
        let s1 = touch_step(ts, target, evs[0]);
        assert(in_track(s1.1));
        lemma_touch_fold_in_track(s1.0, s1.1, evs.drop_first());
    }
}

/// Clamps a position into the track.
fn clamp_exec(v: i64) -> (r: i64)
    ensures
        r as int == clamp_track(v as int),
        in_track(r as int),
{
    if v < -TRACK_HALF_X {
        -TRACK_HALF_X
    } else if v > TRACK_HALF_X {
        TRACK_HALF_X
    } else {
        v
    }
}

/// One drag delta in world milli-units.
fn drag_shift_exec(dx: i64) -> (r: i64)
    requires
        -2 * MAX_TOUCH_X <= dx <= 2 * MAX_TOUCH_X,
    ensures
        r as int == drag_shift(dx as int),
{
    let m: u64 = if dx >= 0 {
        dx as u64
    } else {
        (-dx) as u64
    };
    proof {
        assert(m * (DRAG_X_PER_PX as u64) <= 40_000_000_000) by (nonlinear_arith)
            requires
                m <= 2_000_000_000u64,
                DRAG_X_PER_PX as u64 == 20u64,
        ;
    }
    let scaled: u64 = m * (DRAG_X_PER_PX as u64);
    let q: u64 = scaled / 1000;
    proof {
        lemma_div_nonincreasing(scaled as int, 1000);
    }
    if dx >= 0 {
        q as i64
    } else {
        -(q as i64)
    }
}

impl World {
    /// Feeds one frame of movement input to the player: discrete clamped
    /// key steps first, then each touch event in order.  Only the touch
    /// tracker and the player's target change.
    pub fn player_input(&mut self, left: bool, right: bool, touches: &Vec<TouchEvent>)
        requires
            old(self).wf(),
            old(self).state is Playing,
            forall|i: int| 0 <= i < touches@.len() ==> touch_x_ok(#[trigger] touches@[i]),
        ensures
            final(self).wf(),
            ({
                let p = old(self).player->0;
                let folded = touch_fold(
                    old(self).touch,
                    key_target(p.target_x as int, left, right),
                    touches@,
                );
                &&& final(self).touch == folded.0
                &&& final(self).player == Some(Player { x: p.x, target_x: folded.1 as i64 })
                &&& in_track(folded.1)
            }),
            final(self).state == old(self).state,
            final(self).next_state == old(self).next_state,
            final(self).obstacles == old(self).obstacles,
            final(self).score == old(self).score,
            final(self).spawn_timer == old(self).spawn_timer,
    {
        let p: Player = self.player.unwrap();
        let mut target: i64 = p.target_x;
        if left {
            target = clamp_exec(target - KEY_STEP_X);
        }
        if right {
            target = clamp_exec(target + KEY_STEP_X);
        }
        let ghost kt: int = key_target(p.target_x as int, left, right);
        assert(target as int == kt);
        let mut ts: TouchState = self.touch;
        let mut i: usize = 0;
        proof {
            assert(touches@.skip(0) =~= touches@);
        }
        while i < touches.len()
            invariant
                i <= touches@.len(),
                forall|j: int| 0 <= j < touches@.len() ==> touch_x_ok(#[trigger] touches@[j]),
                in_track(target as int),
                match ts.anchor_x {
                    Option::Some(a) => -MAX_TOUCH_X <= a <= MAX_TOUCH_X,
                    Option::None => true,
                },
                touch_fold(old(self).touch, kt, touches@) == touch_fold(
                    ts,
                    target as int,
                    touches@.skip(i as int),
                ),
            decreases touches@.len() - i,
        {
            proof {
                assert(touches@.skip(i as int)[0] == touches@[i as int]);
                assert(touches@.skip(i as int).drop_first() =~= touches@.skip(i as int + 1));
            }
            let ev: TouchEvent = touches[i];
            match ev {
                TouchEvent::Started { id, x } => {
                    if self.touch_is_free(&ts) {
                        ts = TouchState { active_id: Some(id), anchor_x: Some(x) };
                    }
                },
                TouchEvent::Moved { id, x } => {
                    match (ts.active_id, ts.anchor_x) {
                        (Some(a), Some(anchor)) => {
                            if a == id {
                                let shift: i64 = drag_shift_exec(x - anchor);
                                target = clamp_exec(target + shift);
                                ts = TouchState { active_id: Some(id), anchor_x: Some(x) };
                            }
                        },
                        _ => {},
                    }
                },
                TouchEvent::Ended { id } => {
                    match ts.active_id {
                        Some(a) => {
                            if a == id {
                                ts = TouchState { active_id: None, anchor_x: None };
                            }
                        },
                        None => {},
                    }
                },
                TouchEvent::Canceled { id } => {
                    match ts.active_id {
                        Some(a) => {
                            if a == id {
                                ts = TouchState { active_id: None, anchor_x: None };
                            }
                        },
                        None => {},
                    }
                },
            }
            i = i + 1;
        }
        proof {
            assert(touches@.skip(touches@.len() as int) =~= Seq::<TouchEvent>::empty());
        }
        self.touch = ts;
        self.player = Some(Player { x: p.x, target_x: target });
    }

    /// Whether no touch is currently tracked.
    fn touch_is_free(&self, ts: &TouchState) -> (b: bool)
        ensures
            b == (ts.active_id is None),
    {
        match ts.active_id {
            Some(_) => false,
            None => true,
        }
    }
}

/// How far the player position moves in one frame.
pub open spec fn lerp_step(dt: int) -> int {
    (PLAYER_LERP_SPEED * dt) / 1000
}

/// The player position after one frame: it reaches the target if the
/// frame's step covers the distance, and otherwise moves one step toward
/// it.
pub open spec fn lerp_x(p: Player, dt: int) -> int {
    let step = lerp_step(dt);
    let dx = p.target_x - p.x;
    if -step <= dx <= step {
        p.target_x as int
    } else if dx > 0 {
        p.x + step
    } else {
        p.x - step
    }
}

impl World {
    /// Eases the player's position toward its target at the fixed rate.
    pub fn update_player_transform(&mut self, dt_ms: i64)
        requires
            old(self).wf(),
            old(self).state is Playing,
            0 <= dt_ms <= MAX_TICK_MS,
        ensures
            final(self).wf(),
            ({
                let p = old(self).player->0;
                final(self).player == Some(
                    Player { x: lerp_x(p, dt_ms as int) as i64, target_x: p.target_x },
                )
            }),
            final(self).state == old(self).state,
            final(self).next_state == old(self).next_state,
            final(self).obstacles == old(self).obstacles,
            final(self).score == old(self).score,
            final(self).spawn_timer == old(self).spawn_timer,
            final(self).touch == old(self).touch,
    {
        let p: Player = self.player.unwrap();
        let step: i64 = ((PLAYER_LERP_SPEED as u64 * dt_ms as u64) / 1000) as i64;
        let dx: i64 = p.target_x - p.x;
        let x2: i64 = if -step <= dx && dx <= step {
            p.target_x
        } else if dx > 0 {
            p.x + step
        } else {
            p.x - step
        };
        self.player = Some(Player { x: x2, target_x: p.target_x });
    }
}

/// Relies on `rand::random_range` over an inclusive integer range: it
/// panics only on an empty range and returns a uniform value within the
/// range.
#[verifier::external_body]
fn random_in_range(lo: i64, hi: i64) -> (r: i64)
    requires
        lo <= hi,
    ensures
        lo <= r <= hi,
{
    rand::random_range(lo..=hi)
}

impl World {
    /// Advances the spawn timer; each time it wraps its interval, one
    /// obstacle appears at a random lateral position on the track, at the
    /// starting depth.
    pub fn spawn_obstacles(&mut self, dt_ms: i64)
        requires
            old(self).wf(),
            old(self).state is Playing,
            0 <= dt_ms <= MAX_TICK_MS,
        ensures
            final(self).wf(),
            old(self).spawn_timer.elapsed_ms + dt_ms < SPAWN_EVERY_MS ==> {
                &&& final(self).spawn_timer.elapsed_ms == old(self).spawn_timer.elapsed_ms + dt_ms
                &&& final(self).obstacles == old(self).obstacles
            },
            old(self).spawn_timer.elapsed_ms + dt_ms >= SPAWN_EVERY_MS ==> {
                &&& final(self).spawn_timer.elapsed_ms == (old(self).spawn_timer.elapsed_ms
                    + dt_ms) % (SPAWN_EVERY_MS as int)
                &&& final(self).obstacles@.len() == old(self).obstacles@.len() + 1
                &&& final(self).obstacles@.subrange(0, old(self).obstacles@.len() as int) == old(
                    self,
                ).obstacles@
                &&& final(self).obstacles@.last().z == OBSTACLE_START_Z
                &&& in_track(final(self).obstacles@.last().x as int)
            },
            final(self).state == old(self).state,
            final(self).next_state == old(self).next_state,
            final(self).player == old(self).player,
            final(self).score == old(self).score,
            final(self).touch == old(self).touch,
    {
        let e: i64 = self.spawn_timer.elapsed_ms + dt_ms;
        if e >= SPAWN_EVERY_MS {
            self.spawn_timer.elapsed_ms = ((e as u64) % (SPAWN_EVERY_MS as u64)) as i64;
            let x: i64 = random_in_range(-TRACK_HALF_X, TRACK_HALF_X);
            self.obstacles.push(Obstacle { x, z: OBSTACLE_START_Z });
            proof {
                assert(final(self).obstacles@.subrange(0, old(self).obstacles@.len() as int)
                    =~= old(self).obstacles@);
            }
        } else {
            self.spawn_timer.elapsed_ms = e;
        }
    }
}

/// An obstacle after one frame of forward motion.
pub open spec fn advanced(o: Obstacle, dt: int) -> Obstacle {
    Obstacle { x: o.x, z: (o.z + (OBSTACLE_SPEED * dt) / 1000) as i64 }
}

/// The obstacles after one frame: each moved forward, and those past the
/// despawn plane removed, order kept.
pub open spec fn advance_and_cull(obs: Seq<Obstacle>, dt: int) -> Seq<Obstacle>
    decreases obs.len(),
{
    if obs.len() == 0 {
        Seq::empty()
    } else {
        let o = advanced(obs[0], dt);
        let rest = advance_and_cull(obs.drop_first(), dt);
        if o.z <= OBSTACLE_DESPAWN_Z {
            seq![o] + rest
        } else {
            rest
        }
    }
}

impl World {
    /// Moves every obstacle forward and removes, within this same frame,
    /// every obstacle whose depth passed the despawn plane.
    pub fn move_obstacles(&mut self, dt_ms: i64)
        requires
            old(self).wf(),
            old(self).state is Playing,
            0 <= dt_ms <= MAX_TICK_MS,
        ensures
            final(self).wf(),
            final(self).obstacles@ == advance_and_cull(old(self).obstacles@, dt_ms as int),
            forall|i: int| #![trigger final(self).obstacles@[i]]
                0 <= i < final(self).obstacles@.len()
                    ==> final(self).obstacles@[i].z <= OBSTACLE_DESPAWN_Z,
            final(self).state == old(self).state,
            final(self).next_state == old(self).next_state,
            final(self).player == old(self).player,
            final(self).score == old(self).score,
            final(self).spawn_timer == old(self).spawn_timer,
            final(self).touch == old(self).touch,
    {
        let step: i64 = ((OBSTACLE_SPEED as u64 * dt_ms as u64) / 1000) as i64;
        let n: usize = self.obstacles.len();
        let mut out: Vec<Obstacle> = Vec::new();
        let mut i: usize = 0;
        proof {
            assert(self.obstacles@.skip(0) =~= self.obstacles@);
            assert(out@ + advance_and_cull(self.obstacles@, dt_ms as int) =~= advance_and_cull(
                self.obstacles@,
                dt_ms as int,
            ));
        }
        while i < n
            invariant
                i <= n == self.obstacles@.len(),
                0 <= dt_ms <= MAX_TICK_MS,
                step as int == (OBSTACLE_SPEED * dt_ms) / 1000,
                forall|k: int|
                    0 <= k < self.obstacles@.len() ==> obstacle_ok(#[trigger] self.obstacles@[k]),
                advance_and_cull(self.obstacles@, dt_ms as int) == out@ + advance_and_cull(
                    self.obstacles@.skip(i as int),
                    dt_ms as int,
                ),
                forall|k: int|
                    0 <= k < out@.len() ==> obstacle_ok(#[trigger] out@[k]) && out@[k].z
                        <= OBSTACLE_DESPAWN_Z,
            decreases n - i,
        {
            proof {
                assert(self.obstacles@.skip(i as int)[0] == self.obstacles@[i as int]);
                assert(self.obstacles@.skip(i as int).drop_first() =~= self.obstacles@.skip(
                    i as int + 1,
                ));
            }
            let o: Obstacle = self.obstacles[i];
            let z2: i64 = o.z + step;
            let moved = Obstacle { x: o.x, z: z2 };
            assert(moved == advanced(self.obstacles@[i as int], dt_ms as int));
            if z2 <= OBSTACLE_DESPAWN_Z {
                out.push(moved);
                proof {
                    assert(out@ + advance_and_cull(self.obstacles@.skip(i as int + 1), dt_ms as int)
                        =~= out@.drop_last() + (seq![moved] + advance_and_cull(
                        self.obstacles@.skip(i as int + 1),
                        dt_ms as int,
                    )));
                }
            }
            i = i + 1;
        }
        proof {
            assert(self.obstacles@.skip(n as int) =~= Seq::<Obstacle>::empty());
            assert(out@ + Seq::<Obstacle>::empty() =~= out@);
        }
        self.obstacles = out;
    }
}

/// Whether the player's and an obstacle's boxes overlap on both axes at
/// once: strict overlap within the collision half-extents, on the lateral
/// axis and the depth axis together.
pub open spec fn overlaps(p: Player, o: Obstacle) -> bool {
    abs(o.x - p.x) < COLLIDE_HALF_X && abs(o.z - PLAYER_Z) < COLLIDE_HALF_Z
}

/// Whether any live obstacle overlaps the player.
pub open spec fn any_overlap(p: Player, obs: Seq<Obstacle>) -> bool {
    exists|i: int| 0 <= i < obs.len() && overlaps(p, #[trigger] obs[i])
}

impl World {
    /// Checks the player against every live obstacle; on the first hit it
    /// records the best score and requests the game-over state, checking
    /// no further obstacles.  The best score never decreases here, and a
    /// hit is reported exactly when some obstacle overlaps on both axes.
    pub fn collision_system(&mut self)
        requires
            old(self).wf(),
            old(self).state is Playing,
        ensures
            final(self).wf(),
            final(self).score.best >= old(self).score.best,
            any_overlap(old(self).player->0, old(self).obstacles@) ==> {
                &&& final(self).next_state == Some(GameState::GameOver)
                &&& final(self).score.best == vstd::math::max(
                    old(self).score.best as int,
                    old(self).score.value as int,
                )
            },
            !any_overlap(old(self).player->0, old(self).obstacles@) ==> *final(self) == *old(self),
            final(self).state == old(self).state,
            final(self).player == old(self).player,
            final(self).obstacles == old(self).obstacles,
            final(self).score.value == old(self).score.value,
            final(self).spawn_timer == old(self).spawn_timer,
            final(self).touch == old(self).touch,
    {
        let p: Player = self.player.unwrap();
        let n: usize = self.obstacles.len();
        let mut i: usize = 0;
        while i < n
            invariant
                *self == *old(self),
                old(self).wf(),
                old(self).state is Playing,
                i <= n == self.obstacles@.len(),
                p == old(self).player->0,
                forall|k: int|
                    0 <= k < self.obstacles@.len() ==> obstacle_ok(#[trigger] self.obstacles@[k]),
                in_track(p.x as int),
                forall|k: int| 0 <= k < i ==> !overlaps(p, #[trigger] self.obstacles@[k]),
            decreases n - i,
        {
            let o: Obstacle = self.obstacles[i];
            let dx: i64 = if o.x >= p.x {
                o.x - p.x
            } else {
                p.x - o.x
            };
            let dz: i64 = if o.z >= PLAYER_Z {
                o.z - PLAYER_Z
            } else {
                PLAYER_Z - o.z
            };
            if dx < COLLIDE_HALF_X && dz < COLLIDE_HALF_Z {
                assert(overlaps(p, self.obstacles@[i as int]));
                if self.score.value > self.score.best {
                    self.score.best = self.score.value;
                }
                self.next_state = Some(GameState::GameOver);
                return ;
            }
            i = i + 1;
        }
    }

    /// Grows the running score with the frame's duration; the sum
    /// saturates at the largest representable score.
    pub fn score_system(&mut self, dt_ms: i64)
        requires
            old(self).wf(),
            old(self).state is Playing,
            0 <= dt_ms <= MAX_TICK_MS,
        ensures
            final(self).wf(),
            final(self).score.value == (if old(self).score.value + dt_ms * SCORE_RATE
                <= i64::MAX {
                old(self).score.value + dt_ms * SCORE_RATE
            } else {
                i64::MAX as int
            }),
            final(self).score.best == old(self).score.best,
            final(self).state == old(self).state,
            final(self).next_state == old(self).next_state,
            final(self).player == old(self).player,
            final(self).obstacles == old(self).obstacles,
            final(self).spawn_timer == old(self).spawn_timer,
            final(self).touch == old(self).touch,
    {
        let inc: i64 = dt_ms * SCORE_RATE;
        if self.score.value <= i64::MAX - inc {
            self.score.value = self.score.value + inc;
        } else {
            self.score.value = i64::MAX;
        }
    }

    /// The score line shown while playing.
    pub fn update_score_text(&self) -> (s: String)
        requires
            self.wf(),
        ensures
            s@ == "Score: "@ + nat_digits((self.score.value / 1000) as nat),
    {
        let mut v: Vec<char> = Vec::new();
        v.push('S');
        v.push('c');
        v.push('o');
        v.push('r');
        v.push('e');
        v.push(':');
        v.push(' ');
        proof {
            reveal_strlit("Score: ");
            assert(v@ =~= "Score: "@);
        }
        let points: u64 = (self.score.value as u64) / 1000;
        push_decimal(points as u128, &mut v);
        proof {
            assert(v@ =~= "Score: "@ + nat_digits((self.score.value / 1000) as nat));
        }
        chars_string(&v)
    }

    /// The message shown on the game-over screen.
    pub fn game_over_message(&self) -> (s: String)
        requires
            self.wf(),
        ensures
            s@ == "Game Over\nScore: "@ + nat_digits((self.score.value / 1000) as nat)
                + "  Best: "@ + nat_digits((self.score.best / 1000) as nat)
                + "\nTap to Restart"@,
    {
        let mut v: Vec<char> = Vec::new();
        v.push('G');
        v.push('a');
        v.push('m');
        v.push('e');
        v.push(' ');
        v.push('O');
        v.push('v');
        v.push('e');
        v.push('r');
        v.push('\n');
        v.push('S');
        v.push('c');
        v.push('o');
        v.push('r');
        v.push('e');
        v.push(':');
        v.push(' ');
        proof {
            reveal_strlit("Game Over\nScore: ");
            assert(v@ =~= "Game Over\nScore: "@);
        }
        let points: u64 = (self.score.value as u64) / 1000;
        push_decimal(points as u128, &mut v);
        let ghost after_value: Seq<char> = v@;
        v.push(' ');
        v.push(' ');
        v.push('B');
        v.push('e');
        v.push('s');
        v.push('t');
        v.push(':');
        v.push(' ');
        proof {
            reveal_strlit("  Best: ");
            assert(v@ =~= after_value + "  Best: "@);
        }
        let best_points: u64 = (self.score.best as u64) / 1000;
        push_decimal(best_points as u128, &mut v);
        let ghost after_best: Seq<char> = v@;
        v.push('\n');
        v.push('T');
        v.push('a');
        v.push('p');
        v.push(' ');
        v.push('t');
        v.push('o');
        v.push(' ');
        v.push('R');
        v.push('e');
        v.push('s');
        v.push('t');
        v.push('a');
        v.push('r');
        v.push('t');
        proof {
            reveal_strlit("\nTap to Restart");
            assert(v@ =~= after_best + "\nTap to Restart"@);
            assert(v@ =~= "Game Over\nScore: "@ + nat_digits((self.score.value / 1000) as nat)
                + "  Best: "@ + nat_digits((self.score.best / 1000) as nat)
                + "\nTap to Restart"@);
        }
        chars_string(&v)
    }
}

} // verus!
