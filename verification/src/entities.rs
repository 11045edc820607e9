//! The three entities of a round: paddle, ball and block.
//!
//! Every update is an exact function of the previous state, the frame
//! duration and the sampled input, stated by a spec function the exec code
//! is proved against.  A ball's velocity direction is normalized to the
//! `DIR_SCALE` unit length with an integer square root.

use vstd::prelude::*;

verus! {

use crate::geom::{Rect, Vel, rect_wf, vel_wf, norm_sq};
use crate::{
    SCREEN_W, SCREEN_H, PADDLE_W, PADDLE_H, PADDLE_SPEED, BALL_SIZE, BALL_SPEED,
    BLOCK_W, BLOCK_H, BLOCK_START_LIVES, DIR_SCALE, DT_MAX_MS, MAX_STEP,
};

/// Vertical position of the paddle: 100 pixels above the bottom edge.
pub const PADDLE_Y: i64 = 500_000;

/// Initial horizontal position of the paddle: centered on the screen.
pub const PADDLE_START_X: i64 = 325_000;

/// Positions handed to `Ball::with_direction` stay within this bound,
/// which keeps the integration arithmetic inside `i64`.
pub const BALL_POS_LIMIT: i64 = 100_000_000;

/// Semantic color of a drawable rectangle; the renderer maps it to real
/// pixels.
#[derive(Clone, Copy, PartialEq, Eq, Structural, Debug)]
pub enum ColorTag {
    Black,
    Red,
    Orange,
    Green,
    White,
    DarkGray,
}

/// What an entity asks the external renderer to draw.
#[derive(Clone, Copy, PartialEq, Eq, Structural, Debug)]
pub struct DrawCmd {
    pub rect: Rect,
    pub color: ColorTag,
}

/// The player's paddle.
#[derive(Clone, Copy)]
pub struct Paddle {
    pub rect: Rect,
}

/// A well-formed paddle has the fixed paddle size, sits on the fixed
/// vertical line and never leaves the horizontal screen bounds.
pub open spec fn paddle_wf(p: Paddle) -> bool {
    &&& p.rect.w == PADDLE_W
    &&& p.rect.h == PADDLE_H
    &&& p.rect.y == PADDLE_Y
    &&& 0 <= p.rect.x <= SCREEN_W - PADDLE_W
}

/// Horizontal distance the paddle covers in `dt_ms` milliseconds.
pub open spec fn paddle_step(dt_ms: int) -> int {
    PADDLE_SPEED * dt_ms / 1000
}

/// The paddle after one frame: moved left or right (or not at all, when
/// both or neither key is held) and clamped to the screen.
pub open spec fn paddle_after_update(p: Paddle, dt_ms: int, left_down: bool, right_down: bool) -> Paddle {
    let dx = if left_down && !right_down {
        -paddle_step(dt_ms)
    } else if right_down && !left_down {
        paddle_step(dt_ms)
    } else {
        0int
    };
    let moved = p.rect.x + dx;
    let clamped = if moved < 0 {
        0int
    } else if moved > SCREEN_W - PADDLE_W {
        SCREEN_W - PADDLE_W
    } else {
        moved
    };
    Paddle { rect: Rect { x: clamped as i64, y: p.rect.y, w: p.rect.w, h: p.rect.h } }
}

impl Paddle {
    /// A fresh paddle, centered horizontally.
    pub fn new() -> (p: Paddle)
        ensures
            paddle_wf(p),
            p.rect == (Rect { x: PADDLE_START_X, y: PADDLE_Y, w: PADDLE_W, h: PADDLE_H }),
    {
        Paddle { rect: Rect { x: PADDLE_START_X, y: PADDLE_Y, w: PADDLE_W, h: PADDLE_H } }
    }

    /// Advances the paddle by one frame from the sampled key state.
    pub fn update(&mut self, dt_ms: i64, left_down: bool, right_down: bool)
        requires
            paddle_wf(*old(self)),
            0 <= dt_ms <= DT_MAX_MS,
        ensures
            *final(self) == paddle_after_update(*old(self), dt_ms as int, left_down, right_down),
            paddle_wf(*final(self)),
    {
        let step: i64 = ((PADDLE_SPEED as u64 * dt_ms as u64) / 1000) as i64;
        assert(step == paddle_step(dt_ms as int));
        let moved: i64 = if left_down && !right_down {
            self.rect.x - step
        } else if right_down && !left_down {
            self.rect.x + step
        } else {
            self.rect.x
        };
        let clamped: i64 = if moved < 0 {
            0
        } else if moved > SCREEN_W - PADDLE_W {
            SCREEN_W - PADDLE_W
        } else {
            moved
        };
        self.rect.x = clamped;
    }

    /// Description of the paddle for the external renderer.
    pub fn draw(&self) -> (cmd: DrawCmd)
        ensures
            cmd == (DrawCmd { rect: self.rect, color: ColorTag::Black }),
    {
        DrawCmd { rect: self.rect, color: ColorTag::Black }
    }
}

/// Discriminator selecting a block's behavior on destruction.
#[derive(Clone, Copy, PartialEq, Eq, Structural, Debug)]
pub enum BlockType {
    Regular,
    SpawnBallOnDeath,
}

/// One destructible block of the board.
#[derive(Clone, Copy)]
pub struct Block {
    pub rect: Rect,
    pub lives: i32,
    pub block_type: BlockType,
}

/// A well-formed block has the fixed block size and sits fully inside the
/// screen.
pub open spec fn block_wf(b: Block) -> bool {
    &&& b.rect.w == BLOCK_W
    &&& b.rect.h == BLOCK_H
    &&& 0 <= b.rect.x <= SCREEN_W - BLOCK_W
    &&& 0 <= b.rect.y <= SCREEN_H - BLOCK_H
}

impl Block {
    /// A fresh block at the given position with the full hit count.
    pub fn new(x: i64, y: i64, block_type: BlockType) -> (b: Block)
        requires
            0 <= x <= SCREEN_W - BLOCK_W,
            0 <= y <= SCREEN_H - BLOCK_H,
        ensures
            b.rect == (Rect { x, y, w: BLOCK_W, h: BLOCK_H }),
            b.lives == BLOCK_START_LIVES,
            b.block_type == block_type,
            block_wf(b),
    {
        Block { rect: Rect { x, y, w: BLOCK_W, h: BLOCK_H }, lives: BLOCK_START_LIVES, block_type }
    }

    /// Description of the block for the external renderer: an untouched
    /// regular block is red, a damaged one orange, a special block green.
    pub fn draw(&self) -> (cmd: DrawCmd)
        ensures
            cmd.rect == self.rect,
            cmd.color == (match self.block_type {
                BlockType::Regular => if self.lives == BLOCK_START_LIVES { ColorTag::Red } else { ColorTag::Orange },
                BlockType::SpawnBallOnDeath => ColorTag::Green,
            }),
    {
        let color = match self.block_type {
            BlockType::Regular => if self.lives == BLOCK_START_LIVES { ColorTag::Red } else { ColorTag::Orange },
            BlockType::SpawnBallOnDeath => ColorTag::Green,
        };
        DrawCmd { rect: self.rect, color }
    }
}

/// A moving ball: a square rectangle plus a velocity direction.
#[derive(Clone, Copy)]
pub struct Ball {
    pub rect: Rect,
    pub vel: Vel,
}

/// `r` is the integer square root of `n`.
pub open spec fn is_isqrt(n: int, r: int) -> bool {
    0 <= r && r * r <= n < (r + 1) * (r + 1)
}

/// The integer square root of `n` (unique, by `lemma_isqrt_unique`).
pub open spec fn spec_isqrt(n: int) -> int {
    choose|r: int| is_isqrt(n, r)
}

/// Two integer square roots of the same number are equal.
pub proof fn lemma_isqrt_unique(n: int, r1: int, r2: int)
    requires
        is_isqrt(n, r1),
        is_isqrt(n, r2),
    ensures
        r1 == r2,
{
    if r1 < r2 {
        assert((r1 + 1) * (r1 + 1) <= r2 * r2) by (nonlinear_arith)
            requires 0 <= r1, 0 <= r2, r1 < r2;
    }
    if r2 < r1 {
        assert((r2 + 1) * (r2 + 1) <= r1 * r1) by (nonlinear_arith)
            requires 0 <= r1, 0 <= r2, r2 < r1;
    }
}

/// Every non-negative number has an integer square root.
pub proof fn lemma_isqrt_exists(n: int)
    requires
        0 <= n,
    ensures
        is_isqrt(n, spec_isqrt(n)),
    decreases n,
{
    if n == 0 {
        assert(is_isqrt(0, 0));
    } else {
        lemma_isqrt_exists(n - 1);
        let r = spec_isqrt(n - 1);
        if (r + 1) * (r + 1) <= n {
            assert(is_isqrt(n, r + 1)) by (nonlinear_arith)
                requires (r + 1) * (r + 1) <= n, n - 1 < (r + 1) * (r + 1), 0 <= r;
        } else {
            assert(is_isqrt(n, r));
        }
    }
    assert(exists|r: int| is_isqrt(n, r));
}

/// The direction `(d, DIR_SCALE)` scaled down to (approximately) the unit
/// length: each component is divided by the vector's integer length,
/// rounding toward zero.
pub open spec fn norm_vel(d: int) -> Vel {
    let len = spec_isqrt(d * d + DIR_SCALE * DIR_SCALE);
    Vel {
        x: (if d >= 0 { d * DIR_SCALE / len } else { -((-d) * DIR_SCALE / len) }) as i64,
        y: (DIR_SCALE * DIR_SCALE / len) as i64,
    }
}

/// The square of a small number.
fn sq(v: u64) -> (s: u64)
    requires
        v <= 0xFFFF_FFFF,
    ensures
        s == v * v,
{
    proof {
        assert(v * v <= 0xFFFF_FFFF * 0xFFFF_FFFF) by (nonlinear_arith)
            requires v <= 0xFFFF_FFFFu64;
    }
    v * v
}


/// A freshly normalized direction has (squared) length within a small
/// tolerance of the (squared) unit scale: the integer square root and the
/// truncating divisions each cost at most a few parts per thousand.
pub proof fn lemma_norm_vel_unit(d: int)
    requires
        -DIR_SCALE <= d <= DIR_SCALE,
    ensures
        DIR_SCALE * DIR_SCALE - 4 * DIR_SCALE - 2 <= norm_sq(norm_vel(d)),
        norm_sq(norm_vel(d)) <= DIR_SCALE * DIR_SCALE + 2 * DIR_SCALE,
{
    let s = DIR_SCALE as int;
    let m = if d >= 0 { d } else { -d };
    let n = d * d + s * s;
    assert(m * m == d * d && 0 <= m * m <= s * s) by (nonlinear_arith)
        requires m == (if d >= 0 { d } else { -d }), -s <= d <= s;
    lemma_isqrt_exists(n);
    let len = spec_isqrt(n);
    assert(len >= s) by (nonlinear_arith)
        requires (len + 1) * (len + 1) > n, n >= s * s, len >= 0, s == 1000;
    assert(len <= 1415) by (nonlinear_arith)
        requires len * len <= n, n <= 2_000_000, len >= 0;

    let q = m * s / len;
    let b = s * s / len;
    vstd::arithmetic::div_mod::lemma_fundamental_div_mod(m * s, len);
    vstd::arithmetic::div_mod::lemma_mod_bound(m * s, len);
    vstd::arithmetic::div_mod::lemma_fundamental_div_mod(s * s, len);
    vstd::arithmetic::div_mod::lemma_mod_bound(s * s, len);
    assert(q * len <= m * s < (q + 1) * len) by (nonlinear_arith)
        requires m * s == len * q + (m * s) % len, 0 <= (m * s) % len < len, len > 0;
    assert(b * len <= s * s < (b + 1) * len) by (nonlinear_arith)
        requires s * s == len * b + (s * s) % len, 0 <= (s * s) % len < len, len > 0;
    assert(0 <= q <= s) by (nonlinear_arith)
        requires q * len <= m * s < (q + 1) * len, 0 <= m * s <= s * len, len > 0, s > 0;
    assert(1 <= b <= s) by (nonlinear_arith)
        requires b * len <= s * s < (b + 1) * len, len <= 1415, s == 1000, len >= s, len > 0;

    assert(norm_vel(d).x == (if d >= 0 { q } else { -q }) && norm_vel(d).y == b);
    assert(norm_sq(norm_vel(d)) == q * q + b * b) by (nonlinear_arith)
        requires
            norm_vel(d).x == (if d >= 0 { q } else { -q }),
            norm_vel(d).y == b,
            norm_sq(norm_vel(d)) == norm_vel(d).x * norm_vel(d).x + norm_vel(d).y * norm_vel(d).y,
    ;

    // Lower bound: rounding down costs less than 2(q + b) + 2.
    assert((q + 1) * (q + 1) * (len * len) > (m * s) * (m * s)) by (nonlinear_arith)
        requires (q + 1) * len > m * s, m * s >= 0, len > 0;
    assert((b + 1) * (b + 1) * (len * len) > (s * s) * (s * s)) by (nonlinear_arith)
        requires (b + 1) * len > s * s, s * s >= 0, len > 0;
    assert((m * s) * (m * s) + (s * s) * (s * s) == (s * s) * n) by (nonlinear_arith)
        requires n == m * m + s * s;
    assert((s * s) * n >= (s * s) * (len * len)) by (nonlinear_arith)
        requires n >= len * len, s * s >= 0;
    assert((q + 1) * (q + 1) + (b + 1) * (b + 1) > s * s) by (nonlinear_arith)
        requires
            (q + 1) * (q + 1) * (len * len) + (b + 1) * (b + 1) * (len * len)
                > (s * s) * (len * len),
            len * len > 0,
    ;
    assert(q * q + b * b > s * s - 2 * q - 2 * b - 2) by (nonlinear_arith)
        requires (q + 1) * (q + 1) + (b + 1) * (b + 1) > s * s;

    // Upper bound: the unrounded vector is within (len + 1)^2 / len^2.
    assert(q * q * (len * len) <= (m * s) * (m * s)) by (nonlinear_arith)
        requires 0 <= q * len <= m * s;
    assert(b * b * (len * len) <= (s * s) * (s * s)) by (nonlinear_arith)
        requires 0 <= b * len <= s * s;
    assert((s * s) * n <= (s * s) * (len * len) + 2 * (s * s) * len) by (nonlinear_arith)
        requires n < (len + 1) * (len + 1), s * s >= 0, len >= 0;
    assert(2 * (s * s) * len <= (2 * s) * (len * len)) by (nonlinear_arith)
        requires s <= len, s >= 0, len >= 0;
    assert(q * q + b * b <= s * s + 2 * s) by (nonlinear_arith)
        requires
            q * q * (len * len) + b * b * (len * len)
                <= (s * s) * (len * len) + (2 * s) * (len * len),
            len * len > 0,
    ;
}

/// Integer square root by counting up; the inputs of this game are tiny
/// (at most twice the squared unit scale).
pub fn isqrt(n: u64) -> (r: u64)
    requires
        n < 0x1_0000_0000,
    ensures
        is_isqrt(n as int, r as int),
{
    let mut r: u64 = 0;
    while r < 0x10000 && sq(r + 1) <= n
        invariant
            n < 0x1_0000_0000,
            r * r <= n,
            r <= 0x10000,
        decreases 0x10000 - r,
    {
        r = r + 1;
    }
    proof {
        if r == 0x10000 {
            assert(false) by (nonlinear_arith)
                requires r * r <= n, n < 0x1_0000_0000, r == 0x10000u64;
        }
    }
    r
}

/// How far a velocity component moves its axis in `dt_ms` milliseconds:
/// `v / DIR_SCALE` of `BALL_SPEED`, truncated toward zero.
pub open spec fn scaled_step(v: int, dt_ms: int) -> int {
    if v >= 0 {
        v * BALL_SPEED * dt_ms / 1_000_000
    } else {
        -((-v) * BALL_SPEED * dt_ms / 1_000_000)
    }
}

/// A step is bounded by `MAX_STEP` and moves in the direction of `v`.
pub proof fn lemma_step_bounded(v: int, dt_ms: int)
    requires
        -DIR_SCALE <= v <= DIR_SCALE,
        0 <= dt_ms <= DT_MAX_MS,
    ensures
        -MAX_STEP <= scaled_step(v, dt_ms) <= MAX_STEP,
        v >= 0 ==> scaled_step(v, dt_ms) >= 0,
        v <= 0 ==> scaled_step(v, dt_ms) <= 0,
{
    let m = if v >= 0 { v } else { -v };
    assert(0 <= m * BALL_SPEED * dt_ms <= DIR_SCALE * BALL_SPEED * DT_MAX_MS) by (nonlinear_arith)
        requires 0 <= m <= DIR_SCALE, 0 <= dt_ms <= DT_MAX_MS;
    assert(0 <= m * BALL_SPEED * dt_ms / 1_000_000 <= MAX_STEP) by (nonlinear_arith)
        requires 0 <= m * BALL_SPEED * dt_ms <= 450_000_000_000int;
}

/// The ball after one frame: the position advanced by the velocity scaled
/// with the frame duration, then the wall rules — crossing the left edge
/// forces the x-direction to the positive unit, the right edge to the
/// negative unit, the top edge forces the y-direction to the positive
/// (downward) unit.  The bottom edge is not the ball's concern: passing it
/// is the round controller's signal to remove the ball.
pub open spec fn ball_after_update(b: Ball, dt_ms: int) -> Ball {
    let nx = b.rect.x + scaled_step(b.vel.x as int, dt_ms);
    let ny = b.rect.y + scaled_step(b.vel.y as int, dt_ms);
    let vx = if nx < 0 {
        DIR_SCALE as int
    } else if nx > SCREEN_W - b.rect.w {
        -DIR_SCALE
    } else {
        b.vel.x as int
    };
    let vy = if ny < 0 { DIR_SCALE as int } else { b.vel.y as int };
    Ball {
        rect: Rect { x: nx as i64, y: ny as i64, w: b.rect.w, h: b.rect.h },
        vel: Vel { x: vx as i64, y: vy as i64 },
    }
}

impl Ball {
    /// A ball at the given position with a randomized initial direction:
    /// the horizontal component is drawn at random from the unit range,
    /// the vertical component is the downward unit, and the pair is
    /// normalized to unit length.
    pub fn new(x: i64, y: i64) -> (b: Ball)
        requires
            -BALL_POS_LIMIT <= x <= BALL_POS_LIMIT,
            -BALL_POS_LIMIT <= y <= BALL_POS_LIMIT,
        ensures
            b.rect == (Rect { x, y, w: BALL_SIZE, h: BALL_SIZE }),
            exists|d: int| -DIR_SCALE <= d <= DIR_SCALE && b.vel == norm_vel(d),
            vel_wf(b.vel),
            1 <= b.vel.y,
    {
        let d = crate::rng::rand_dir();
        Ball::with_direction(x, y, d)
    }

    /// A ball at the given position whose direction is the normalization
    /// of `(dir_x, DIR_SCALE)`: the caller supplies the raw horizontal
    /// component (the round controller draws it at random) and the ball
    /// always starts moving downward.
    pub fn with_direction(x: i64, y: i64, dir_x: i64) -> (b: Ball)
        requires
            -BALL_POS_LIMIT <= x <= BALL_POS_LIMIT,
            -BALL_POS_LIMIT <= y <= BALL_POS_LIMIT,
            -DIR_SCALE <= dir_x <= DIR_SCALE,
        ensures
            b.rect == (Rect { x, y, w: BALL_SIZE, h: BALL_SIZE }),
            b.vel == norm_vel(dir_x as int),
            vel_wf(b.vel),
            1 <= b.vel.y,
    {
        let dd: u64 = (if dir_x >= 0 { dir_x } else { -dir_x }) as u64;
        assert(dd * dd <= 1_000_000) by (nonlinear_arith)
            requires dd <= 1000;
        let n: u64 = dd * dd + 1_000_000;
        let len: u64 = isqrt(n);
        proof {
            assert(len >= 1000) by (nonlinear_arith)
                requires (len + 1) * (len + 1) > n, n >= 1_000_000int, len >= 0;
            assert(len <= 1415) by (nonlinear_arith)
                requires len * len <= n, n <= 2_000_000int, len >= 0;
        }
        let vx_mag: u64 = dd * 1000 / len;
        let vy: u64 = 1_000_000 / len;
        proof {
            assert(vx_mag <= 1000) by (nonlinear_arith)
                requires vx_mag == dd as int * 1000 / (len as int), dd <= len, len >= 1000;
            assert(1 <= vy <= 1000) by (nonlinear_arith)
                requires vy == 1_000_000int / (len as int), 1000 <= len <= 1415;
        }
        let vx: i64 = if dir_x >= 0 { vx_mag as i64 } else { -(vx_mag as i64) };
        proof {
            let d = dir_x as int;
            assert(dd as int * dd as int == d * d) by (nonlinear_arith)
                requires dd as int == (if d >= 0 { d } else { -d });
            assert(n as int == d * d + DIR_SCALE * DIR_SCALE);
            assert(is_isqrt(n as int, spec_isqrt(n as int)));
            lemma_isqrt_unique(n as int, len as int, spec_isqrt(n as int));
        }
        Ball {
            rect: Rect { x, y, w: BALL_SIZE, h: BALL_SIZE },
            vel: Vel { x: vx, y: vy as i64 },
        }
    }

    /// Advances the ball by one frame.
    pub fn update(&mut self, dt_ms: i64)
        requires
            0 <= dt_ms <= DT_MAX_MS,
            vel_wf(old(self).vel),
            old(self).rect.w == BALL_SIZE,
            old(self).rect.h == BALL_SIZE,
            -BALL_POS_LIMIT <= old(self).rect.x <= BALL_POS_LIMIT,
            -BALL_POS_LIMIT <= old(self).rect.y <= BALL_POS_LIMIT,
        ensures
            *final(self) == ball_after_update(*old(self), dt_ms as int),
            vel_wf(final(self).vel),
    {
        proof {
            lemma_step_bounded(old(self).vel.x as int, dt_ms as int);
            lemma_step_bounded(old(self).vel.y as int, dt_ms as int);
        }
        let sx: i64 = Self::step(self.vel.x, dt_ms);
        let sy: i64 = Self::step(self.vel.y, dt_ms);
        self.rect.x = self.rect.x + sx;
        self.rect.y = self.rect.y + sy;
        if self.rect.x < 0 {
            self.vel.x = DIR_SCALE;
        }
        if self.rect.x > SCREEN_W - self.rect.w {
            self.vel.x = -DIR_SCALE;
        }
        if self.rect.y < 0 {
            self.vel.y = DIR_SCALE;
        }
    }

    /// One axis of the integration: `v * BALL_SPEED * dt / 1_000_000`,
    /// truncated toward zero.
    fn step(v: i64, dt_ms: i64) -> (s: i64)
        requires
            -DIR_SCALE <= v <= DIR_SCALE,
            0 <= dt_ms <= DT_MAX_MS,
        ensures
            s == scaled_step(v as int, dt_ms as int),
            -MAX_STEP <= s <= MAX_STEP,
    {
        proof {
            lemma_step_bounded(v as int, dt_ms as int);
        }
        let m: u64 = (if v >= 0 { v } else { -v }) as u64;
        assert(m * 450_000 * (dt_ms as u64) <= 450_000_000_000) by (nonlinear_arith)
            requires m <= 1000, dt_ms as u64 <= 1000;
        let mag: u64 = m * 450_000 * (dt_ms as u64) / 1_000_000;
        if v >= 0 {
            mag as i64
        } else {
            -(mag as i64)
        }
    }

    /// Description of the ball for the external renderer.
    pub fn draw(&self) -> (cmd: DrawCmd)
        ensures
            cmd == (DrawCmd { rect: self.rect, color: ColorTag::White }),
    {
        DrawCmd { rect: self.rect, color: ColorTag::White }
    }
}


/// An integration step that ends inside the side and top walls leaves the
/// direction untouched, so its length is preserved.  Together with the
/// bounce lemma this keeps a ball's speed constant away from the walls;
/// crossing a wall snaps the crossed component to the full unit instead.
pub proof fn lemma_update_preserves_speed(b: Ball, dt_ms: int)
    requires
        vel_wf(b.vel),
        0 <= dt_ms <= DT_MAX_MS,
        -BALL_POS_LIMIT <= b.rect.x <= BALL_POS_LIMIT,
        -BALL_POS_LIMIT <= b.rect.y <= BALL_POS_LIMIT,
        0 <= ball_after_update(b, dt_ms).rect.x <= SCREEN_W - b.rect.w,
        0 <= ball_after_update(b, dt_ms).rect.y,
    ensures
        ball_after_update(b, dt_ms).vel == b.vel,
        norm_sq(ball_after_update(b, dt_ms).vel) == norm_sq(b.vel),
{
    lemma_step_bounded(b.vel.x as int, dt_ms);
    lemma_step_bounded(b.vel.y as int, dt_ms);
}

} // verus!
