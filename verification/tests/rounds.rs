use breakout_core::board::init_blocks;
use breakout_core::entities::{Ball, Block, BlockType, Paddle};
use breakout_core::game::{reset_game, Game, GameState};
use breakout_core::geom::Rect;
use breakout_core::round::Round;
use breakout_core::{
    BALL_SIZE, BLOCK_START_LIVES, GRID_H, GRID_W, SCORE_PER_BLOCK, SCREEN_H, START_LIVES,
};

fn one_block_round(block: Block, ball: Ball) -> Round {
    Round {
        paddle: Paddle::new(),
        balls: vec![ball],
        blocks: vec![block],
        score: 0,
        player_lives: START_LIVES,
    }
}

#[test]
fn board_has_thirty_blocks_and_three_retags() {
    let mut blocks: Vec<Block> = Vec::new();
    init_blocks(&mut blocks);
    assert_eq!(blocks.len(), GRID_W * GRID_H);
    let mut specials = 0;
    for (i, b) in blocks.iter().enumerate() {
        let col = (i % GRID_W) as i64;
        let row = (i / GRID_W) as i64;
        assert_eq!(b.rect.x, 85_000 + col * 105_000);
        assert_eq!(b.rect.y, 50_000 + row * 45_000);
        assert_eq!(b.lives, BLOCK_START_LIVES);
        if b.block_type == BlockType::SpawnBallOnDeath {
            specials += 1;
        }
    }
    // Three retags with replacement: between one and three distinct
    // special blocks.
    assert!(1 <= specials && specials <= 3);
}

#[test]
fn regular_block_takes_two_hits_and_scores_once() {
    let block = Block::new(300_000, 100_000, BlockType::Regular);
    let ball = Ball::with_direction(310_000, 80_000, 0);
    let mut round = one_block_round(block, ball);

    let outcome = round.frame(0, false, false);
    assert_eq!(outcome, GameState::Game);
    assert_eq!(round.blocks.len(), 1);
    assert_eq!(round.blocks[0].lives, 1);
    assert_eq!(round.score, 0); // no scoring before removal

    round.balls[0].rect = Rect { x: 310_000, y: 80_000, w: BALL_SIZE, h: BALL_SIZE };
    let outcome = round.frame(0, false, false);
    assert_eq!(outcome, GameState::Won);
    assert_eq!(round.blocks.len(), 0);
    assert_eq!(round.score, SCORE_PER_BLOCK); // exactly one scoring event
    assert_eq!(round.player_lives, START_LIVES); // a surviving ball costs no life
}

#[test]
fn special_block_spawns_exactly_one_ball() {
    let mut block = Block::new(300_000, 100_000, BlockType::SpawnBallOnDeath);
    block.lives = 1;
    let ball = Ball::with_direction(310_000, 80_000, 0);
    let mut round = one_block_round(block, ball);

    let outcome = round.frame(0, false, false);
    assert_eq!(outcome, GameState::Won);
    assert_eq!(round.blocks.len(), 0);
    assert_eq!(round.score, SCORE_PER_BLOCK);
    assert_eq!(round.balls.len(), 2); // the hitting ball plus one spawn
}

#[test]
fn losing_the_last_ball_costs_one_life_and_respawns_one_ball() {
    let block = Block::new(300_000, 100_000, BlockType::Regular);
    let mut ball = Ball::with_direction(100_000, 200_000, 0);
    ball.rect.y = SCREEN_H; // past the bottom edge
    let mut round = one_block_round(block, ball);

    let outcome = round.frame(0, false, false);
    assert_eq!(outcome, GameState::Game);
    assert_eq!(round.player_lives, START_LIVES - 1);
    assert_eq!(round.balls.len(), 1);
    // The replacement ball sits centered just above the paddle.
    assert_eq!(round.balls[0].rect.x, round.paddle.rect.x + 50_000);
    assert_eq!(round.balls[0].rect.y, round.paddle.rect.y - 50_000);
}

#[test]
fn three_lost_balls_end_the_round() {
    let block = Block::new(300_000, 100_000, BlockType::Regular);
    let ball = Ball::with_direction(100_000, 200_000, 0);
    let mut round = one_block_round(block, ball);

    let mut outcomes = Vec::new();
    for _ in 0..3 {
        round.balls[0].rect.y = SCREEN_H;
        outcomes.push(round.frame(0, false, false));
    }
    assert_eq!(outcomes, vec![GameState::Game, GameState::Game, GameState::Dead]);
    assert_eq!(round.player_lives, 0);
    assert_eq!(round.balls.len(), 1); // a ball is respawned even on the last loss
}

#[test]
fn reset_game_restores_the_initial_round() {
    let mut score = 170;
    let mut lives = 1;
    let mut blocks: Vec<Block> = vec![Block::new(0, 0, BlockType::Regular)];
    let mut balls: Vec<Ball> = vec![Ball::with_direction(0, 0, 0)];
    let mut paddle = Paddle::new();
    paddle.rect.x = 0;

    reset_game(&mut score, &mut lives, &mut blocks, &mut balls, &mut paddle);

    assert_eq!(score, 0);
    assert_eq!(lives, START_LIVES);
    assert_eq!(paddle.rect.x, 325_000);
    assert_eq!(balls.len(), 1);
    assert_eq!(balls[0].rect, Rect { x: 375_000, y: 300_000, w: BALL_SIZE, h: BALL_SIZE });
    assert_eq!(blocks.len(), GRID_W * GRID_H);
}

#[test]
fn full_game_win_path() {
    let mut game = Game::new();
    assert_eq!(game.state, GameState::Menu);
    assert_eq!(game.round.score, 0);
    assert_eq!(game.round.player_lives, START_LIVES);
    assert_eq!(game.round.balls.len(), 1);
    assert_eq!(game.round.blocks.len(), 30);

    game.tick(0, false, false, false);
    assert_eq!(game.state, GameState::Menu); // without a start press nothing happens

    game.tick(0, false, false, true);
    assert_eq!(game.state, GameState::Game);

    // Drive the first ball onto the first remaining block until the whole
    // board is cleared.
    let mut iterations = 0;
    while game.state == GameState::Game && iterations < 10_000 {
        if !game.round.blocks.is_empty() {
            let target = game.round.blocks[0].rect;
            game.round.balls[0].rect = Rect { x: target.x, y: target.y, w: BALL_SIZE, h: BALL_SIZE };
        }
        game.tick(0, false, false, false);
        iterations += 1;
    }
    assert_eq!(game.state, GameState::Won);
    assert_eq!(game.round.blocks.len(), 0);
    assert_eq!(game.round.score, 300); // 30 blocks at 10 points each

    // A start press on the win screen returns to a fully reset menu.
    game.tick(0, false, false, true);
    assert_eq!(game.state, GameState::Menu);
    assert_eq!(game.round.score, 0);
    assert_eq!(game.round.player_lives, START_LIVES);
    assert_eq!(game.round.balls.len(), 1);
    assert_eq!(game.round.blocks.len(), 30);
}

#[test]
fn full_game_loss_path() {
    let mut game = Game::new();
    game.tick(0, false, false, true);
    assert_eq!(game.state, GameState::Game);

    for _ in 0..3 {
        for ball in game.round.balls.iter_mut() {
            ball.rect.y = SCREEN_H;
        }
        game.tick(0, false, false, false);
    }
    assert_eq!(game.state, GameState::Dead);
    assert_eq!(game.round.player_lives, 0);

    game.tick(0, false, false, true);
    assert_eq!(game.state, GameState::Menu);
    assert_eq!(game.round.score, 0);
    assert_eq!(game.round.player_lives, START_LIVES);
    assert_eq!(game.round.balls.len(), 1);
    assert_eq!(game.round.blocks.len(), 30);
}
