//! The round controller: one frame of active play.
//!
//! Each frame, in order: the paddle advances; every ball advances; every
//! ball is resolved against the paddle and then against every block,
//! damaging hit blocks, scoring destroyed ones and queueing an extra ball
//! for each destroyed spawn block; the queued balls are appended only
//! after the whole sweep; balls past the bottom edge are removed, and when
//! that empties the collection one life is lost and a fresh ball appears
//! over the paddle; destroyed blocks are removed; an empty board wins the
//! round, an empty life counter loses it.

use vstd::prelude::*;

verus! {

use crate::entities::{
    Ball, Block, BlockType, Paddle, ball_after_update, paddle_after_update, paddle_wf, block_wf,
    norm_vel,
};
use crate::geom::{
    Rect, vel_wf, overlaps, rect_after_resolve, vel_after_resolve, resolve_collision,
    lemma_resolve_position_bounds,
};
use crate::game::GameState;
use crate::{
    SCREEN_W, SCREEN_H, BALL_SIZE, MAX_STEP, DIR_SCALE, DT_MAX_MS, SCORE_PER_BLOCK, START_LIVES,
    GRID_W, GRID_H,
};

/// A ball as it may look in the middle of a frame, after integration but
/// before the bottom-edge sweep: within one step of the side walls, at
/// most two steps below the bottom, and moving back toward the screen
/// whenever it is fully past a side or the top.
pub open spec fn mid_ball_ok(b: Ball) -> bool {
    &&& b.rect.w == BALL_SIZE
    &&& b.rect.h == BALL_SIZE
    &&& vel_wf(b.vel)
    &&& -(BALL_SIZE + MAX_STEP) <= b.rect.x <= SCREEN_W + MAX_STEP
    &&& (b.rect.x < -BALL_SIZE ==> b.vel.x > 0)
    &&& (b.rect.x > SCREEN_W ==> b.vel.x < 0)
    &&& -(BALL_SIZE + MAX_STEP) <= b.rect.y <= SCREEN_H + 2 * MAX_STEP
    &&& (b.rect.y < -BALL_SIZE ==> b.vel.y > 0)
}

/// A ball as it looks at a frame boundary: additionally at most one step
/// below the bottom edge.
pub open spec fn ball_ok(b: Ball) -> bool {
    mid_ball_ok(b) && b.rect.y <= SCREEN_H + MAX_STEP
}

/// A ball freshly spawned by a destroyed block: inside (or touching) the
/// screen, moving downward.
pub open spec fn spawn_ok(b: Ball) -> bool {
    &&& b.rect.w == BALL_SIZE
    &&& b.rect.h == BALL_SIZE
    &&& vel_wf(b.vel)
    &&& 1 <= b.vel.y
    &&& -BALL_SIZE <= b.rect.x <= SCREEN_W
    &&& -BALL_SIZE <= b.rect.y <= SCREEN_H
}

/// A block is still alive (part of the board).
pub open spec fn alive_pred() -> spec_fn(Block) -> bool {
    |b: Block| b.lives >= 1
}

/// A destroyed spawn block: the ones that have queued an extra ball.
pub open spec fn sdead_pred() -> spec_fn(Block) -> bool {
    |b: Block| b.block_type == BlockType::SpawnBallOnDeath && b.lives <= 0
}

/// How many blocks of `s` satisfy `p`.
pub open spec fn count_if(s: Seq<Block>, p: spec_fn(Block) -> bool) -> int
    decreases s.len(),
{
    if s.len() == 0 {
        0
    } else {
        count_if(s.drop_last(), p) + if p(s.last()) { 1int } else { 0int }
    }
}

pub proof fn lemma_count_if_bounds(s: Seq<Block>, p: spec_fn(Block) -> bool)
    ensures
        0 <= count_if(s, p) <= s.len(),
    decreases s.len(),
{
    if s.len() > 0 {
        lemma_count_if_bounds(s.drop_last(), p);
    }
}

pub proof fn lemma_count_if_update(s: Seq<Block>, p: spec_fn(Block) -> bool, i: int, b: Block)
    requires
        0 <= i < s.len(),
    ensures
        count_if(s.update(i, b), p) == count_if(s, p)
            - (if p(s[i]) { 1int } else { 0int }) + (if p(b) { 1int } else { 0int }),
    decreases s.len(),
{
    let t = s.update(i, b);
    if i == s.len() - 1 {
        assert(t.drop_last() =~= s.drop_last());
    } else {
        lemma_count_if_update(s.drop_last(), p, i, b);
        assert(t.drop_last() =~= s.drop_last().update(i, b));
    }
}

pub proof fn lemma_count_if_all(s: Seq<Block>, p: spec_fn(Block) -> bool)
    requires
        forall|k: int| 0 <= k < s.len() ==> p(#[trigger] s[k]),
    ensures
        count_if(s, p) == s.len(),
    decreases s.len(),
{
    if s.len() > 0 {
        assert(forall|k: int| 0 <= k < s.drop_last().len() ==> p(#[trigger] s.drop_last()[k]));
        lemma_count_if_all(s.drop_last(), p);
    }
}

pub proof fn lemma_count_if_zero(s: Seq<Block>, p: spec_fn(Block) -> bool)
    requires
        forall|k: int| 0 <= k < s.len() ==> !p(#[trigger] s[k]),
    ensures
        count_if(s, p) == 0,
    decreases s.len(),
{
    if s.len() > 0 {
        assert(forall|k: int| 0 <= k < s.drop_last().len() ==> !p(#[trigger] s.drop_last()[k]));
        lemma_count_if_zero(s.drop_last(), p);
    }
}

pub proof fn lemma_count_if_disjoint(s: Seq<Block>, p: spec_fn(Block) -> bool, q: spec_fn(Block) -> bool)
    requires
        forall|k: int| 0 <= k < s.len() ==> !(p(#[trigger] s[k]) && q(s[k])),
    ensures
        count_if(s, p) + count_if(s, q) <= s.len(),
    decreases s.len(),
{
    if s.len() > 0 {
        assert(forall|k: int| 0 <= k < s.drop_last().len()
            ==> !(p(#[trigger] s.drop_last()[k]) && q(s.drop_last()[k])));
        lemma_count_if_disjoint(s.drop_last(), p, q);
    }
}

/// Where a destroyed spawn block queues a new ball: the hitting ball's
/// corner at the moment of the hit, after its bounce.
pub struct SpawnPoint {
    pub x: i64,
    pub y: i64,
}

/// The state a single ball's sweep threads along: the ball itself, the
/// board, the score, and the spawn points queued so far.
pub struct BallSweep {
    pub ball: Ball,
    pub blocks: Seq<Block>,
    pub score: int,
    pub spawns: Seq<SpawnPoint>,
}

/// The state of the whole collision sweep: all balls, the board, the
/// score, and the queued spawn points.
pub struct FullSweep {
    pub balls: Seq<Ball>,
    pub blocks: Seq<Block>,
    pub score: int,
    pub spawns: Seq<SpawnPoint>,
}

/// A ball after one resolved collision against the rectangle `r`.
pub open spec fn ball_after_hit(ball: Ball, r: Rect) -> Ball {
    Ball {
        rect: rect_after_resolve(ball.rect, r),
        vel: vel_after_resolve(ball.rect, ball.vel, r),
    }
}

/// One ball swept against the blocks from index `j` on, in order: each
/// overlap bounces the ball, costs the block one life, scores once when
/// the lives just reached zero, and queues one spawn point when the
/// destroyed block was a spawn block.
pub open spec fn sweep_blocks(
    ball: Ball,
    blocks: Seq<Block>,
    score: int,
    spawns: Seq<SpawnPoint>,
    j: int,
) -> BallSweep
    decreases blocks.len() - j,
{
    if 0 <= j < blocks.len() {
        let blk = blocks[j];
        if overlaps(ball.rect, blk.rect) {
            let nball = ball_after_hit(ball, blk.rect);
            let nblk = Block { lives: (blk.lives - 1) as i32, ..blk };
            let destroyed = nblk.lives == 0;
            let nscore = if destroyed { score + SCORE_PER_BLOCK } else { score };
            let nspawns = if destroyed && blk.block_type == BlockType::SpawnBallOnDeath {
                spawns.push(SpawnPoint { x: nball.rect.x, y: nball.rect.y })
            } else {
                spawns
            };
            sweep_blocks(nball, blocks.update(j, nblk), nscore, nspawns, j + 1)
        } else {
            sweep_blocks(ball, blocks, score, spawns, j + 1)
        }
    } else {
        BallSweep { ball, blocks, score, spawns }
    }
}

/// One ball's full sweep: first the paddle (a bounce with no other side
/// effect), then every block in order.
pub open spec fn sweep_one(
    ball: Ball,
    paddle: Rect,
    blocks: Seq<Block>,
    score: int,
    spawns: Seq<SpawnPoint>,
) -> BallSweep {
    let b1 = if overlaps(ball.rect, paddle) { ball_after_hit(ball, paddle) } else { ball };
    sweep_blocks(b1, blocks, score, spawns, 0)
}

/// The whole collision sweep, ball by ball from index `i` on.
pub open spec fn sweep_balls(
    balls: Seq<Ball>,
    paddle: Rect,
    blocks: Seq<Block>,
    score: int,
    spawns: Seq<SpawnPoint>,
    i: int,
) -> FullSweep
    decreases balls.len() - i,
{
    if 0 <= i < balls.len() {
        let s1 = sweep_one(balls[i], paddle, blocks, score, spawns);
        sweep_balls(balls.update(i, s1.ball), paddle, s1.blocks, s1.score, s1.spawns, i + 1)
    } else {
        FullSweep { balls, blocks, score, spawns }
    }
}

/// A freshly spawned ball sits at its spawn point with the fixed ball
/// size, and its direction is the normalization of some drawn value.
pub open spec fn spawn_matches(b: Ball, p: SpawnPoint) -> bool {
    &&& b.rect == (Rect { x: p.x, y: p.y, w: BALL_SIZE, h: BALL_SIZE })
    &&& exists|d: int| -DIR_SCALE <= d <= DIR_SCALE && b.vel == norm_vel(d)
}

/// The whole collision sweep of one frame, from its entry state: every
/// ball in order against the paddle and then every block.
pub open spec fn pass_sweep(balls: Seq<Ball>, paddle: Rect, blocks: Seq<Block>, score: int) -> FullSweep {
    sweep_balls(balls, paddle, blocks, score, Seq::empty(), 0)
}

/// Every ball advanced by one frame.
pub open spec fn integrated(balls: Seq<Ball>, dt_ms: int) -> Seq<Ball> {
    Seq::new(balls.len(), |i: int| ball_after_update(balls[i], dt_ms))
}

/// The balls still above the bottom edge, in order.
pub open spec fn surviving_balls(s: Seq<Ball>) -> Seq<Ball>
    decreases s.len(),
{
    if s.len() == 0 {
        Seq::empty()
    } else if s.last().rect.y < SCREEN_H {
        surviving_balls(s.drop_last()).push(s.last())
    } else {
        surviving_balls(s.drop_last())
    }
}

/// The blocks still alive, in order.
pub open spec fn surviving_blocks(s: Seq<Block>) -> Seq<Block>
    decreases s.len(),
{
    if s.len() == 0 {
        Seq::empty()
    } else if s.last().lives >= 1 {
        surviving_blocks(s.drop_last()).push(s.last())
    } else {
        surviving_blocks(s.drop_last())
    }
}

/// The ball a spawn point turns into, once a direction has been drawn.
pub open spec fn spawned_ball(p: SpawnPoint, d: int) -> Ball {
    Ball {
        rect: Rect { x: p.x, y: p.y, w: BALL_SIZE, h: BALL_SIZE },
        vel: norm_vel(d),
    }
}

/// The full round state: everything the controller owns for the duration
/// of one round.
pub struct Round {
    pub paddle: Paddle,
    pub balls: Vec<Ball>,
    pub blocks: Vec<Block>,
    pub score: i32,
    pub player_lives: i32,
}

/// The round invariant, maintained by every frame: a well-placed paddle,
/// at least one ball, only live well-placed blocks, bounded score and
/// lives.  The ball and block populations together never exceed the
/// initial board size plus one, because a ball is only ever added for a
/// destroyed block (or as the single replacement after a lost life).
pub open spec fn round_wf(r: Round) -> bool {
    &&& paddle_wf(r.paddle)
    &&& 1 <= r.balls@.len()
    &&& r.balls@.len() + r.blocks@.len() <= 1 + GRID_W * GRID_H
    &&& forall|i: int| 0 <= i < r.balls@.len() ==> ball_ok(#[trigger] r.balls@[i])
    &&& r.blocks@.len() <= GRID_W * GRID_H
    &&& forall|j: int| 0 <= j < r.blocks@.len()
        ==> block_wf(#[trigger] r.blocks@[j])
            && 1 <= r.blocks@[j].lives <= crate::BLOCK_START_LIVES
    &&& 0 <= r.score
    &&& r.score + SCORE_PER_BLOCK * r.blocks@.len() <= SCORE_PER_BLOCK * (GRID_W * GRID_H)
    &&& 0 <= r.player_lives <= START_LIVES
}

/// Advances every ball by one frame; no ball interacts with any other.
#[verifier::loop_isolation(false)]
fn integrate_balls(balls: &mut Vec<Ball>, dt_ms: i64)
    requires
        0 <= dt_ms <= DT_MAX_MS,
        forall|i: int| 0 <= i < old(balls)@.len() ==> ball_ok(#[trigger] old(balls)@[i]),
    ensures
        final(balls)@.len() == old(balls)@.len(),
        forall|i: int| 0 <= i < final(balls)@.len()
            ==> #[trigger] final(balls)@[i] == ball_after_update(old(balls)@[i], dt_ms as int),
        forall|i: int| 0 <= i < final(balls)@.len() ==> mid_ball_ok(#[trigger] final(balls)@[i]),
{
    let n: usize = balls.len();
    let mut i: usize = 0;
    while i < n
        invariant
            0 <= i <= n,
            n == balls@.len() == old(balls)@.len(),
            0 <= dt_ms <= DT_MAX_MS,
            forall|k: int| i <= k < n ==> #[trigger] balls@[k] == old(balls)@[k],
            forall|k: int| 0 <= k < n ==> ball_ok(#[trigger] old(balls)@[k]),
            forall|k: int| 0 <= k < i
                ==> #[trigger] balls@[k] == ball_after_update(old(balls)@[k], dt_ms as int),
            forall|k: int| 0 <= k < i ==> mid_ball_ok(#[trigger] balls@[k]),
        decreases n - i,
    {
        let mut ball = balls[i];
        proof {
            crate::entities::lemma_step_bounded(ball.vel.x as int, dt_ms as int);
            crate::entities::lemma_step_bounded(ball.vel.y as int, dt_ms as int);
        }
        ball.update(dt_ms);
        balls[i] = ball;
        i = i + 1;
    }
}

/// The collision sweep: every ball against the paddle, then against every
/// block.  A hit block loses one life; a block whose lives just reached
/// zero scores once, and — if it is a spawn block — queues exactly one new
/// ball at the hitting ball's position.  The queued balls are only
/// returned, never added during the sweep.  The whole pass computes
/// exactly `sweep_balls`; only the queued balls' directions are drawn at
/// random.
#[verifier::loop_isolation(false)]
#[verifier::rlimit(60)]
fn collide_pass(
    balls: &mut Vec<Ball>,
    blocks: &mut Vec<Block>,
    paddle: &Paddle,
    score: &mut i32,
) -> (spawned: Vec<Ball>)
    requires
        paddle_wf(*paddle),
        old(balls)@.len() <= 1 + GRID_W * GRID_H,
        forall|i: int| 0 <= i < old(balls)@.len() ==> mid_ball_ok(#[trigger] old(balls)@[i]),
        forall|j: int| 0 <= j < old(blocks)@.len()
            ==> block_wf(#[trigger] old(blocks)@[j]) && -1000 <= old(blocks)@[j].lives <= 1000,
        0 <= *old(score),
        *old(score) + SCORE_PER_BLOCK * count_if(old(blocks)@, alive_pred())
            <= SCORE_PER_BLOCK * (GRID_W * GRID_H),
    ensures
        final(balls)@.len() == old(balls)@.len(),
        forall|i: int| 0 <= i < final(balls)@.len() ==> mid_ball_ok(#[trigger] final(balls)@[i]),
        final(blocks)@.len() == old(blocks)@.len(),
        forall|j: int| 0 <= j < final(blocks)@.len() ==> {
            &&& (#[trigger] final(blocks)@[j]).rect == old(blocks)@[j].rect
            &&& final(blocks)@[j].block_type == old(blocks)@[j].block_type
            &&& old(blocks)@[j].lives - old(balls)@.len() <= final(blocks)@[j].lives
                <= old(blocks)@[j].lives
        },
        *final(score) == *old(score) + SCORE_PER_BLOCK
            * (count_if(old(blocks)@, alive_pred()) - count_if(final(blocks)@, alive_pred())),
        *old(score) <= *final(score),
        spawned@.len() == count_if(final(blocks)@, sdead_pred())
            - count_if(old(blocks)@, sdead_pred()),
        forall|k: int| 0 <= k < spawned@.len() ==> spawn_ok(#[trigger] spawned@[k]),
        final(balls)@ == pass_sweep(old(balls)@, paddle.rect, old(blocks)@, *old(score) as int).balls,
        final(blocks)@ == pass_sweep(old(balls)@, paddle.rect, old(blocks)@, *old(score) as int).blocks,
        *final(score) as int == pass_sweep(old(balls)@, paddle.rect, old(blocks)@, *old(score) as int).score,
        spawned@.len() == pass_sweep(old(balls)@, paddle.rect, old(blocks)@, *old(score) as int).spawns.len(),
        forall|k: int| 0 <= k < spawned@.len()
            ==> spawn_matches(#[trigger] spawned@[k],
                pass_sweep(old(balls)@, paddle.rect, old(blocks)@, *old(score) as int).spawns[k]),
{
    let ghost target = pass_sweep(old(balls)@, paddle.rect, old(blocks)@, *old(score) as int);
    let ghost blocks_in = blocks@;
    let ghost score_in = *score;
    let n_balls: usize = balls.len();
    let n_blocks: usize = blocks.len();
    let mut spawned: Vec<Ball> = Vec::new();
    let ghost mut spts: Seq<SpawnPoint> = Seq::empty();
    proof {
        lemma_count_if_bounds(blocks@, alive_pred());
        lemma_count_if_bounds(blocks@, sdead_pred());
    }
    let mut i: usize = 0;
    while i < n_balls
        invariant
            0 <= i <= n_balls,
            n_balls == balls@.len() == old(balls)@.len(),
            n_blocks == blocks@.len() == blocks_in.len(),
            blocks_in == old(blocks)@,
            score_in == *old(score),
            paddle_wf(*paddle),
            forall|k: int| 0 <= k < n_balls ==> mid_ball_ok(#[trigger] balls@[k]),
            forall|j: int| 0 <= j < n_blocks ==> {
                &&& (#[trigger] blocks@[j]).rect == blocks_in[j].rect
                &&& blocks@[j].block_type == blocks_in[j].block_type
                &&& blocks_in[j].lives - i <= blocks@[j].lives <= blocks_in[j].lives
            },
            forall|j: int| 0 <= j < n_blocks
                ==> -1000 <= blocks_in[j].lives <= 1000 && block_wf(#[trigger] blocks_in[j]),
            *score == score_in + SCORE_PER_BLOCK
                * (count_if(blocks_in, alive_pred()) - count_if(blocks@, alive_pred())),
            score_in <= *score,
            score_in + SCORE_PER_BLOCK * count_if(blocks_in, alive_pred())
                <= SCORE_PER_BLOCK * (GRID_W * GRID_H),
            0 <= count_if(blocks@, alive_pred()) <= n_blocks,
            0 <= count_if(blocks@, sdead_pred()) <= n_blocks,
            spawned@.len() == count_if(blocks@, sdead_pred()) - count_if(blocks_in, sdead_pred()),
            forall|k: int| 0 <= k < spawned@.len() ==> spawn_ok(#[trigger] spawned@[k]),
            spawned@.len() == spts.len(),
            forall|k: int| 0 <= k < spawned@.len() ==> (#[trigger] spawned@[k]).rect
                    == (Rect { x: spts[k].x, y: spts[k].y, w: BALL_SIZE, h: BALL_SIZE })
                && (exists|d: int| -DIR_SCALE <= d <= DIR_SCALE && spawned@[k].vel == norm_vel(d)),
            target == sweep_balls(balls@, paddle.rect, blocks@, *score as int, spts, i as int),
        decreases n_balls - i,
    {
        let ghost balls_outer = balls@;
        let ghost blocks_at_ball = blocks@;
        let ghost score_at_ball = *score;
        let ghost spts_at_ball = spts;

        let mut ball = balls[i];
        let ghost ball0 = ball;
        let ghost ball_at_paddle = ball;
        let hit_paddle = resolve_collision(&mut ball.rect, &mut ball.vel, &paddle.rect);
        proof {
            if hit_paddle {
                lemma_resolve_position_bounds(ball_at_paddle.rect, paddle.rect);
            }
        }
        assert(mid_ball_ok(ball));
        proof {
            assert(sweep_one(ball0, paddle.rect, blocks_at_ball, score_at_ball as int, spts_at_ball)
                == sweep_blocks(ball, blocks@, *score as int, spts, 0));
        }

        let mut j: usize = 0;
        while j < n_blocks
            invariant
                0 <= j <= n_blocks,
                n_blocks == blocks@.len() == blocks_at_ball.len(),
                mid_ball_ok(ball),
                forall|jj: int| 0 <= jj < n_blocks ==> {
                    &&& (#[trigger] blocks@[jj]).rect == blocks_at_ball[jj].rect
                    &&& blocks@[jj].block_type == blocks_at_ball[jj].block_type
                    &&& blocks_at_ball[jj].lives - 1 <= blocks@[jj].lives <= blocks_at_ball[jj].lives
                },
                forall|jj: int| j <= jj < n_blocks ==> blocks@[jj] == blocks_at_ball[jj],
                forall|jj: int| 0 <= jj < n_blocks
                    ==> block_wf(#[trigger] blocks_at_ball[jj]) && -2000 <= blocks_at_ball[jj].lives <= 1000,
                *score == score_at_ball + SCORE_PER_BLOCK
                    * (count_if(blocks_at_ball, alive_pred()) - count_if(blocks@, alive_pred())),
                score_at_ball <= *score,
                score_at_ball + SCORE_PER_BLOCK * count_if(blocks_at_ball, alive_pred())
                    <= SCORE_PER_BLOCK * (GRID_W * GRID_H),
                0 <= count_if(blocks@, alive_pred()) <= n_blocks,
                0 <= count_if(blocks@, sdead_pred()) <= n_blocks,
                0 <= count_if(blocks_at_ball, alive_pred()) <= n_blocks,
                0 <= count_if(blocks_at_ball, sdead_pred()) <= n_blocks,
                spawned@.len() == spawned_at_len(spts_at_ball)
                    + count_if(blocks@, sdead_pred()) - count_if(blocks_at_ball, sdead_pred()),
                forall|k: int| 0 <= k < spawned@.len() ==> spawn_ok(#[trigger] spawned@[k]),
                spawned@.len() == spts.len(),
                forall|k: int| 0 <= k < spawned@.len() ==> (#[trigger] spawned@[k]).rect
                        == (Rect { x: spts[k].x, y: spts[k].y, w: BALL_SIZE, h: BALL_SIZE })
                    && (exists|d: int| -DIR_SCALE <= d <= DIR_SCALE && spawned@[k].vel == norm_vel(d)),
                sweep_one(ball0, paddle.rect, blocks_at_ball, score_at_ball as int, spts_at_ball)
                    == sweep_blocks(ball, blocks@, *score as int, spts, j as int),
            decreases n_blocks - j,
        {
            let ghost ball_pre = ball;
            let ghost blocks_pre = blocks@;
            let ghost score_pre = *score;
            let ghost spts_pre = spts;

            let mut blk = blocks[j];
            let ghost blk_before = blk;
            let hit = resolve_collision(&mut ball.rect, &mut ball.vel, &blk.rect);
            if hit {
                proof {
                    lemma_resolve_position_bounds(ball_pre.rect, blk.rect);
                }
                assert(mid_ball_ok(ball));
                assert(ball == ball_after_hit(ball_pre, blk_before.rect));
                blk.lives = blk.lives - 1;
                if blk.lives == 0 {
                    *score = *score + SCORE_PER_BLOCK;
                    if blk.block_type == BlockType::SpawnBallOnDeath {
                        let nb = Ball::new(ball.rect.x, ball.rect.y);
                        assert(spawn_ok(nb));
                        spawned.push(nb);
                        proof {
                            spts = spts.push(SpawnPoint { x: ball.rect.x, y: ball.rect.y });
                        }
                    }
                }
                blocks[j] = blk;
                proof {
                    lemma_count_if_update(blocks_pre, alive_pred(), j as int, blk);
                    lemma_count_if_update(blocks_pre, sdead_pred(), j as int, blk);
                    lemma_count_if_bounds(blocks@, alive_pred());
                    lemma_count_if_bounds(blocks@, sdead_pred());
                }
            }
            proof {
                assert(sweep_blocks(ball_pre, blocks_pre, score_pre as int, spts_pre, j as int)
                    == sweep_blocks(ball, blocks@, *score as int, spts, j as int + 1));
            }
            j = j + 1;
        }
        proof {
            assert(sweep_blocks(ball, blocks@, *score as int, spts, n_blocks as int)
                == (BallSweep { ball, blocks: blocks@, score: *score as int, spawns: spts }));
        }
        balls[i] = ball;
        proof {
            assert(balls@ =~= balls_outer.update(i as int, ball));
            assert(sweep_balls(balls_outer, paddle.rect, blocks_at_ball, score_at_ball as int,
                spts_at_ball, i as int)
                == sweep_balls(balls@, paddle.rect, blocks@, *score as int, spts, i as int + 1));
        }
        i = i + 1;
    }
    proof {
        assert(sweep_balls(balls@, paddle.rect, blocks@, *score as int, spts, n_balls as int)
            == (FullSweep { balls: balls@, blocks: blocks@, score: *score as int, spawns: spts }));
        assert(balls@ == target.balls);
        assert(blocks@ == target.blocks);
        assert(*score as int == target.score);
        assert(spts == target.spawns);
        assert(target == pass_sweep(old(balls)@, paddle.rect, old(blocks)@, *old(score) as int));
        assert forall|k: int| 0 <= k < spawned@.len()
            implies spawn_matches(#[trigger] spawned@[k], target.spawns[k]) by {
            assert(spts[k] == target.spawns[k]);
            assert(spawned@[k].rect
                == (Rect { x: spts[k].x, y: spts[k].y, w: BALL_SIZE, h: BALL_SIZE }));
        }
    }
    spawned
}

/// The length a spawn-point sequence had when a ball's sweep began.
pub open spec fn spawned_at_len(s: Seq<SpawnPoint>) -> int {
    s.len() as int
}

/// Whatever holds of every ball holds of every survivor; the survivors
/// are exactly those above the bottom edge.
pub proof fn lemma_surviving_balls_all(s: Seq<Ball>, q: spec_fn(Ball) -> bool)
    requires
        forall|k: int| 0 <= k < s.len() ==> q(#[trigger] s[k]),
    ensures
        surviving_balls(s).len() <= s.len(),
        forall|i: int| 0 <= i < surviving_balls(s).len()
            ==> q(#[trigger] surviving_balls(s)[i])
                && surviving_balls(s)[i].rect.y < SCREEN_H,
    decreases s.len(),
{
    if s.len() > 0 {
        assert(forall|j: int| 0 <= j < s.len() - 1 ==> #[trigger] s.drop_last()[j] == s[j]);
        lemma_surviving_balls_all(s.drop_last(), q);
    }
}

/// Whatever holds of every block holds of every survivor; the survivors
/// are exactly the live blocks, as many as there are live blocks.
pub proof fn lemma_surviving_blocks_all(s: Seq<Block>, q: spec_fn(Block) -> bool)
    requires
        forall|k: int| 0 <= k < s.len() ==> q(#[trigger] s[k]),
    ensures
        surviving_blocks(s).len() == count_if(s, alive_pred()),
        forall|i: int| 0 <= i < surviving_blocks(s).len()
            ==> q(#[trigger] surviving_blocks(s)[i])
                && surviving_blocks(s)[i].lives >= 1,
    decreases s.len(),
{
    if s.len() > 0 {
        assert(forall|j: int| 0 <= j < s.len() - 1 ==> #[trigger] s.drop_last()[j] == s[j]);
        lemma_surviving_blocks_all(s.drop_last(), q);
    }
}

/// Removes every ball whose vertical position has passed the bottom of
/// the screen: exactly the survivors remain, in order.
#[verifier::loop_isolation(false)]
fn remove_lost_balls(balls: &mut Vec<Ball>)
    ensures
        final(balls)@ == surviving_balls(old(balls)@),
{
    let n: usize = balls.len();
    let mut kept: Vec<Ball> = Vec::new();
    let mut j: usize = 0;
    while j < n
        invariant
            0 <= j <= n,
            kept@ == surviving_balls(balls@.take(j as int)),
        decreases n - j,
    {
        proof {
            assert(balls@.take(j as int + 1).drop_last() =~= balls@.take(j as int));
            assert(balls@.take(j as int + 1).last() == balls@[j as int]);
        }
        let b = balls[j];
        if b.rect.y < SCREEN_H {
            kept.push(b);
        }
        j = j + 1;
    }
    proof {
        assert(balls@.take(n as int) =~= balls@);
    }
    *balls = kept;
}

/// Removes every destroyed block: exactly the live blocks remain, in
/// order.
#[verifier::loop_isolation(false)]
fn prune_blocks(blocks: &mut Vec<Block>)
    ensures
        final(blocks)@ == surviving_blocks(old(blocks)@),
{
    let n: usize = blocks.len();
    let mut kept: Vec<Block> = Vec::new();
    let mut j: usize = 0;
    while j < n
        invariant
            0 <= j <= n,
            kept@ == surviving_blocks(blocks@.take(j as int)),
        decreases n - j,
    {
        proof {
            assert(blocks@.take(j as int + 1).drop_last() =~= blocks@.take(j as int));
            assert(blocks@.take(j as int + 1).last() == blocks@[j as int]);
        }
        let b = blocks[j];
        if b.lives >= 1 {
            kept.push(b);
        }
        j = j + 1;
    }
    proof {
        assert(blocks@.take(n as int) =~= blocks@);
    }
    *blocks = kept;
}

/// Horizontal offset from the paddle's corner to a respawned ball: the
/// ball appears centered over the paddle.
pub const RESPAWN_OFFSET_X: i64 = 50_000;

/// A respawned ball appears this far above the paddle's top edge.
pub const RESPAWN_ABOVE: i64 = 50_000;

/// The complete frame pipeline, relating one round state to the next:
/// the paddle advances; the balls advance; the collision sweep runs; the
/// queued balls are appended after the sweep; balls past the bottom edge
/// are removed; an emptied collection costs one life and is replaced by a
/// single ball centered over the paddle; destroyed blocks are removed.
/// Everything is a function of the previous state and the inputs except
/// the directions drawn for the balls created this frame, which stand in
/// `dirs`: one per queued spawn, plus a last one for the replacement ball
/// when a life was lost.
pub open spec fn frame_post(
    pre: Round,
    post: Round,
    dt_ms: int,
    left_down: bool,
    right_down: bool,
    dirs: Seq<int>,
) -> bool {
    let pad = paddle_after_update(pre.paddle, dt_ms, left_down, right_down);
    let sw = pass_sweep(integrated(pre.balls@, dt_ms), pad.rect, pre.blocks@, pre.score as int);
    let appended = sw.balls + Seq::new(sw.spawns.len(), |k: int| spawned_ball(sw.spawns[k], dirs[k]));
    let kept = surviving_balls(appended);
    let lost = kept.len() == 0;
    &&& dirs.len() == sw.spawns.len() + (if lost { 1int } else { 0int })
    &&& (forall|k: int| 0 <= k < dirs.len() ==> -DIR_SCALE <= #[trigger] dirs[k] <= DIR_SCALE)
    &&& post.paddle == pad
    &&& post.blocks@ == surviving_blocks(sw.blocks)
    &&& post.score as int == sw.score
    &&& post.player_lives == pre.player_lives - (if lost { 1int } else { 0int })
    &&& post.balls@ == (if lost {
            seq![spawned_ball(
                SpawnPoint { x: (pad.rect.x + RESPAWN_OFFSET_X) as i64, y: (pad.rect.y - RESPAWN_ABOVE) as i64 },
                dirs.last())]
        } else {
            kept
        })
}

/// Each frame conserves the round's total value: the score plus the worth
/// of the remaining blocks (this is frame's score clause restated).  A
/// fresh board is worth the whole grid, so the board can only empty at
/// exactly the winning score.
pub proof fn lemma_win_score(pre: Round, post: Round)
    requires
        post.score == pre.score + SCORE_PER_BLOCK * (pre.blocks@.len() - post.blocks@.len()),
    ensures
        post.score + SCORE_PER_BLOCK * post.blocks@.len()
            == pre.score + SCORE_PER_BLOCK * pre.blocks@.len(),
        (pre.score + SCORE_PER_BLOCK * pre.blocks@.len() == SCORE_PER_BLOCK * (GRID_W * GRID_H)
            && post.blocks@.len() == 0)
            ==> post.score == SCORE_PER_BLOCK * (GRID_W * GRID_H),
{
}

impl Round {
    /// One frame of active play: the order of operations described in the
    /// module documentation.  Returns the mode the game is in afterwards:
    /// still playing, or the round was won (board cleared) or lost (last
    /// life gone).  `frame_post` ties the whole new state to the old one,
    /// up to the randomly drawn directions of any balls created this
    /// frame.
    #[verifier::loop_isolation(false)]
    #[verifier::rlimit(60)]
    pub fn frame(&mut self, dt_ms: i64, left_down: bool, right_down: bool) -> (outcome: GameState)
        requires
            round_wf(*old(self)),
            old(self).player_lives >= 1,
            0 <= dt_ms <= DT_MAX_MS,
        ensures
            round_wf(*final(self)),
            exists|dirs: Seq<int>| frame_post(
                *old(self), *final(self), dt_ms as int, left_down, right_down, dirs),
            final(self).paddle == paddle_after_update(
                old(self).paddle, dt_ms as int, left_down, right_down),
            final(self).blocks@.len() <= old(self).blocks@.len(),
            final(self).score == old(self).score
                + SCORE_PER_BLOCK * (old(self).blocks@.len() - final(self).blocks@.len()),
            final(self).player_lives == old(self).player_lives
                || final(self).player_lives == old(self).player_lives - 1,
            (outcome == GameState::Won) <==> final(self).blocks@.len() == 0,
            (outcome == GameState::Dead) <==> (final(self).blocks@.len() > 0
                && final(self).player_lives == 0),
            outcome == GameState::Game || outcome == GameState::Won || outcome == GameState::Dead,
            (final(self).player_lives < old(self).player_lives) ==> (final(self).balls@.len() == 1
                && final(self).balls@[0].rect.x == final(self).paddle.rect.x + RESPAWN_OFFSET_X
                && final(self).balls@[0].rect.y == final(self).paddle.rect.y - RESPAWN_ABOVE),
    {
        let ghost blocks0 = self.blocks@;
        let ghost score0 = self.score;
        proof {
            lemma_count_if_all(blocks0, alive_pred());
            lemma_count_if_zero(blocks0, sdead_pred());
        }

        self.paddle.update(dt_ms, left_down, right_down);
        let ghost pad = self.paddle;

        integrate_balls(&mut self.balls, dt_ms);
        proof {
            assert(self.balls@ =~= integrated(old(self).balls@, dt_ms as int));
        }

        let spawned = collide_pass(
            &mut self.balls, &mut self.blocks, &self.paddle, &mut self.score);
        let ghost sw = pass_sweep(
            integrated(old(self).balls@, dt_ms as int), pad.rect, blocks0, score0 as int);
        let ghost balls_swept = self.balls@;
        let ghost blocks1 = self.blocks@;
        proof {
            assert(balls_swept == sw.balls && blocks1 == sw.blocks && self.score as int == sw.score);
            lemma_count_if_disjoint(blocks1, sdead_pred(), alive_pred());
            lemma_count_if_bounds(blocks1, alive_pred());
        }

        // The directions the queued balls were given, for the pipeline's
        // existential.
        let ghost dirs0 = Seq::new(sw.spawns.len() as nat, |k: int|
            choose|d: int| -DIR_SCALE <= d <= DIR_SCALE && spawned@[k].vel == norm_vel(d));

        let ghost paddle1 = self.paddle;
        let ghost score1 = self.score;
        let ghost lives1 = self.player_lives;
        let ns: usize = spawned.len();
        let mut k: usize = 0;
        while k < ns
            invariant
                0 <= k <= ns,
                self.balls@ == balls_swept + spawned@.take(k as int),
                forall|i: int| 0 <= i < self.balls@.len()
                    ==> mid_ball_ok(#[trigger] self.balls@[i]),
                self.paddle == paddle1,
                self.score == score1,
                self.player_lives == lives1,
                self.blocks@ == blocks1,
            decreases ns - k,
        {
            let nb = spawned[k];
            assert(spawn_ok(nb));
            proof {
                assert(spawned@.take(k as int + 1) =~= spawned@.take(k as int).push(spawned@[k as int]));
                assert((balls_swept + spawned@.take(k as int)).push(nb)
                    =~= balls_swept + spawned@.take(k as int + 1));
            }
            self.balls.push(nb);
            k = k + 1;
        }
        let ghost appended = self.balls@;
        proof {
            assert(spawned@.take(ns as int) =~= spawned@);
            assert(appended == balls_swept + spawned@);
            assert(spawned@ =~= Seq::new(sw.spawns.len() as nat, |k: int| spawned_ball(sw.spawns[k], dirs0[k])));
            assert(appended =~= sw.balls + Seq::new(sw.spawns.len() as nat, |k: int| spawned_ball(sw.spawns[k], dirs0[k])));
        }

        remove_lost_balls(&mut self.balls);
        proof {
            lemma_surviving_balls_all(appended, |b: Ball| mid_ball_ok(b));
            assert(self.balls@ == surviving_balls(appended));
        }

        let mut outcome = GameState::Game;
        let ghost mut dirs = dirs0;
        if self.balls.is_empty() {
            self.player_lives = self.player_lives - 1;
            let nb = Ball::new(
                self.paddle.rect.x + RESPAWN_OFFSET_X,
                self.paddle.rect.y - RESPAWN_ABOVE,
            );
            self.balls.push(nb);
            proof {
                let dr = choose|d: int| -DIR_SCALE <= d <= DIR_SCALE && nb.vel == norm_vel(d);
                dirs = dirs0.push(dr);
                assert(nb == spawned_ball(
                    SpawnPoint {
                        x: (pad.rect.x + RESPAWN_OFFSET_X) as i64,
                        y: (pad.rect.y - RESPAWN_ABOVE) as i64,
                    }, dr));
                assert(self.balls@ =~= seq![nb]);
            }
            if self.player_lives == 0 {
                outcome = GameState::Dead;
            }
        }

        prune_blocks(&mut self.blocks);
        proof {
            assert(forall|j: int| 0 <= j < blocks1.len()
                ==> block_wf(#[trigger] blocks1[j]) && blocks1[j].lives <= crate::BLOCK_START_LIVES);
            lemma_surviving_blocks_all(blocks1,
                |b: Block| block_wf(b) && b.lives <= crate::BLOCK_START_LIVES);
            assert(self.blocks@ == surviving_blocks(sw.blocks));
        }
        if self.blocks.is_empty() {
            outcome = GameState::Won;
        }
        proof {
            let pre = *old(self);
            let dtg = dt_ms as int;
            let pad_ = paddle_after_update(pre.paddle, dtg, left_down, right_down);
            assert(pad == pad_);
            assert(sw == pass_sweep(integrated(pre.balls@, dtg), pad_.rect, pre.blocks@, pre.score as int));
            assert forall|k: int| 0 <= k < dirs.len()
                implies -DIR_SCALE <= #[trigger] dirs[k] <= DIR_SCALE by {
                if k < dirs0.len() {
                    assert(spawn_matches(spawned@[k], sw.spawns[k]));
                }
            }
            let spawned_spec = Seq::new(sw.spawns.len() as nat,
                |k: int| spawned_ball(sw.spawns[k], dirs[k]));
            assert(spawned_spec =~= Seq::new(sw.spawns.len() as nat,
                |k: int| spawned_ball(sw.spawns[k], dirs0[k])));
            assert(appended == sw.balls + spawned_spec);
            assert(self.blocks@ == surviving_blocks(sw.blocks));
            assert(self.score as int == sw.score);
            assert(frame_post(*old(self), *self, dt_ms as int, left_down, right_down, dirs));
        }
        outcome
    }
}

} // verus!
