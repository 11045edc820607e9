//! The game-state machine: the top-level mode switch between the menu,
//! active play, and the win and loss screens, together with the full
//! round reset performed when play is restarted.

use vstd::prelude::*;

verus! {

use crate::board::{init_blocks, retag3, lemma_retagged_grid_wf};
use crate::entities::{Ball, Block, Paddle, norm_vel, paddle_after_update, PADDLE_START_X, PADDLE_Y};
use crate::geom::Rect;
use crate::round::{Round, round_wf, ball_ok, frame_post};
use crate::{
    BALL_SIZE, DIR_SCALE, DT_MAX_MS, GRID_W, GRID_H, PADDLE_W, PADDLE_H, SCORE_PER_BLOCK,
    START_LIVES,
};

/// The top-level mode of the game.
#[derive(Clone, Copy, PartialEq, Eq, Structural, Debug)]
pub enum GameState {
    Menu,
    Game,
    Won,
    Dead,
}

/// Ball position of a brand-new game: the screen center column, six
/// tenths of the way down.
pub const INITIAL_BALL_X: i64 = 400_000;
pub const INITIAL_BALL_Y: i64 = 360_000;

/// Ball position after a reset: centered horizontally, mid-screen.
pub const RESET_BALL_X: i64 = 375_000;
pub const RESET_BALL_Y: i64 = 300_000;

/// Resets the round for a fresh play-through: a new centered paddle, no
/// score, full lives, a single ball mid-screen with a random direction,
/// and a freshly initialized board.
pub fn reset_game(
    score: &mut i32,
    player_lives: &mut i32,
    blocks: &mut Vec<Block>,
    balls: &mut Vec<Ball>,
    paddle: &mut Paddle,
)
    ensures
        *final(score) == 0,
        *final(player_lives) == START_LIVES,
        final(paddle).rect == (Rect { x: PADDLE_START_X, y: PADDLE_Y, w: PADDLE_W, h: PADDLE_H }),
        final(balls)@.len() == 1,
        final(balls)@[0].rect == (Rect { x: RESET_BALL_X, y: RESET_BALL_Y, w: BALL_SIZE, h: BALL_SIZE }),
        exists|d: int| -DIR_SCALE <= d <= DIR_SCALE && final(balls)@[0].vel == norm_vel(d),
        ball_ok(final(balls)@[0]),
        final(blocks)@.len() == GRID_W * GRID_H,
        exists|i1: int, i2: int, i3: int|
            0 <= i1 < GRID_W * GRID_H && 0 <= i2 < GRID_W * GRID_H && 0 <= i3 < GRID_W * GRID_H
            && final(blocks)@ == retag3(i1, i2, i3),
{
    *paddle = Paddle::new();
    *score = 0;
    *player_lives = START_LIVES;
    balls.clear();
    balls.push(Ball::new(RESET_BALL_X, RESET_BALL_Y));
    blocks.clear();
    init_blocks(blocks);
}

/// The whole game: the current mode and the round state it governs.
pub struct Game {
    pub state: GameState,
    pub round: Round,
}

/// The game invariant: a well-formed round, with at least one life in
/// hand whenever play is running or can be started.
pub open spec fn game_wf(g: Game) -> bool {
    &&& round_wf(g.round)
    &&& (g.state == GameState::Game ==> g.round.player_lives >= 1)
    &&& (g.state == GameState::Menu ==> g.round.player_lives >= 1)
}

impl Game {
    /// A brand-new game: in the menu, with a full fresh round behind it.
    pub fn new() -> (g: Game)
        ensures
            game_wf(g),
            g.state == GameState::Menu,
            g.round.score == 0,
            g.round.player_lives == START_LIVES,
            g.round.paddle.rect == (Rect { x: PADDLE_START_X, y: PADDLE_Y, w: PADDLE_W, h: PADDLE_H }),
            g.round.balls@.len() == 1,
            g.round.balls@[0].rect == (Rect { x: INITIAL_BALL_X, y: INITIAL_BALL_Y, w: BALL_SIZE, h: BALL_SIZE }),
            exists|d: int| -DIR_SCALE <= d <= DIR_SCALE && g.round.balls@[0].vel == norm_vel(d),
            g.round.blocks@.len() == GRID_W * GRID_H,
            exists|i1: int, i2: int, i3: int|
                0 <= i1 < GRID_W * GRID_H && 0 <= i2 < GRID_W * GRID_H && 0 <= i3 < GRID_W * GRID_H
                && g.round.blocks@ == retag3(i1, i2, i3),
    {
        let paddle = Paddle::new();
        let mut balls: Vec<Ball> = Vec::new();
        balls.push(Ball::new(INITIAL_BALL_X, INITIAL_BALL_Y));
        let mut blocks: Vec<Block> = Vec::new();
        init_blocks(&mut blocks);
        let g = Game {
            state: GameState::Menu,
            round: Round { paddle, balls, blocks, score: 0, player_lives: START_LIVES },
        };
        proof {
            let (i1, i2, i3) = choose|i1: int, i2: int, i3: int|
                0 <= i1 < GRID_W * GRID_H && 0 <= i2 < GRID_W * GRID_H && 0 <= i3 < GRID_W * GRID_H
                && g.round.blocks@ == retag3(i1, i2, i3);
            lemma_retagged_grid_wf(i1, i2, i3);
        }
        g
    }

    /// One iteration of the cooperative loop: in the menu a start press
    /// begins play; in play one frame of the round runs and decides the
    /// next mode; on the win and loss screens a start press returns to
    /// the menu with the round fully reset.
    pub fn tick(&mut self, dt_ms: i64, left_down: bool, right_down: bool, start_pressed: bool)
        requires
            game_wf(*old(self)),
            0 <= dt_ms <= DT_MAX_MS,
        ensures
            game_wf(*final(self)),
            old(self).state == GameState::Menu ==> {
                &&& final(self).state == (if start_pressed { GameState::Game } else { GameState::Menu })
                &&& final(self).round == old(self).round
            },
            old(self).state == GameState::Game ==> {
                &&& exists|dirs: Seq<int>| frame_post(
                    old(self).round, final(self).round, dt_ms as int, left_down, right_down, dirs)
                &&& (final(self).state == GameState::Won <==> final(self).round.blocks@.len() == 0)
                &&& (final(self).state == GameState::Dead <==> (final(self).round.blocks@.len() > 0
                    && final(self).round.player_lives == 0))
                &&& (final(self).state == GameState::Game || final(self).state == GameState::Won
                    || final(self).state == GameState::Dead)
                &&& final(self).round.paddle == paddle_after_update(
                    old(self).round.paddle, dt_ms as int, left_down, right_down)
                &&& final(self).round.blocks@.len() <= old(self).round.blocks@.len()
                &&& final(self).round.score == old(self).round.score + SCORE_PER_BLOCK
                    * (old(self).round.blocks@.len() - final(self).round.blocks@.len())
                &&& (final(self).round.player_lives == old(self).round.player_lives
                    || final(self).round.player_lives == old(self).round.player_lives - 1)
            },
            (old(self).state == GameState::Won || old(self).state == GameState::Dead) ==> {
                &&& !start_pressed ==> *final(self) == *old(self)
                &&& start_pressed ==> {
                    &&& final(self).state == GameState::Menu
                    &&& final(self).round.score == 0
                    &&& final(self).round.player_lives == START_LIVES
                    &&& final(self).round.balls@.len() == 1
                    &&& final(self).round.balls@[0].rect == (Rect {
                        x: RESET_BALL_X, y: RESET_BALL_Y, w: BALL_SIZE, h: BALL_SIZE })
                    &&& final(self).round.blocks@.len() == GRID_W * GRID_H
                    &&& final(self).round.paddle.rect == (Rect {
                        x: PADDLE_START_X, y: PADDLE_Y, w: PADDLE_W, h: PADDLE_H })
                    &&& (exists|d: int| -DIR_SCALE <= d <= DIR_SCALE
                        && final(self).round.balls@[0].vel == norm_vel(d))
                    &&& (exists|i1: int, i2: int, i3: int|
                        0 <= i1 < GRID_W * GRID_H && 0 <= i2 < GRID_W * GRID_H
                        && 0 <= i3 < GRID_W * GRID_H
                        && final(self).round.blocks@ == retag3(i1, i2, i3))
                }
            },
    {
        match self.state {
            GameState::Menu => {
                if start_pressed {
                    self.state = GameState::Game;
                }
            }
            GameState::Game => {
                let outcome = self.round.frame(dt_ms, left_down, right_down);
                self.state = outcome;
            }
            GameState::Won | GameState::Dead => {
                if start_pressed {
                    self.state = GameState::Menu;
                    reset_game(
                        &mut self.round.score,
                        &mut self.round.player_lives,
                        &mut self.round.blocks,
                        &mut self.round.balls,
                        &mut self.round.paddle,
                    );
                    proof {
                        let (i1, i2, i3) = choose|i1: int, i2: int, i3: int|
                            0 <= i1 < GRID_W * GRID_H && 0 <= i2 < GRID_W * GRID_H
                            && 0 <= i3 < GRID_W * GRID_H
                            && self.round.blocks@ == retag3(i1, i2, i3);
                        lemma_retagged_grid_wf(i1, i2, i3);
                    }
                }
            }
        }
    }
}

} // verus!
