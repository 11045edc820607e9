use breakout_core::entities::{Ball, Block, BlockType, ColorTag, Paddle};
use breakout_core::geom::{resolve_collision, Rect, Vel};
use breakout_core::{BALL_SIZE, BLOCK_START_LIVES, DIR_SCALE, PADDLE_W, SCREEN_W};

fn rects_overlap(a: &Rect, b: &Rect) -> bool {
    let ow = (a.x + a.w).min(b.x + b.w) - a.x.max(b.x);
    let oh = (a.y + a.h).min(b.y + b.h) - a.y.max(b.y);
    ow > 0 && oh > 0
}

#[test]
fn resolve_miss_returns_false_and_mutates_nothing() {
    let mut a = Rect { x: 0, y: 0, w: 50_000, h: 50_000 };
    let mut vel = Vel { x: 700, y: 714 };
    let b = Rect { x: 200_000, y: 0, w: 100_000, h: 40_000 };
    let hit = resolve_collision(&mut a, &mut vel, &b);
    assert!(!hit);
    assert_eq!(a, Rect { x: 0, y: 0, w: 50_000, h: 50_000 });
    assert_eq!(vel, Vel { x: 700, y: 714 });
}

#[test]
fn resolve_touching_edges_is_no_collision() {
    let mut a = Rect { x: 0, y: 0, w: 50_000, h: 50_000 };
    let mut vel = Vel { x: 0, y: 1000 };
    let b = Rect { x: 50_000, y: 0, w: 100_000, h: 40_000 };
    assert!(!resolve_collision(&mut a, &mut vel, &b));
}

#[test]
fn resolve_vertical_hit_pushes_out_exactly_and_flips_y() {
    // Ball overlaps the block's top face by 10 pixels; the overlap is
    // wider than tall, so the collision is vertical.
    let mut a = Rect { x: 100_000, y: 60_000, w: 50_000, h: 50_000 };
    let mut vel = Vel { x: 300, y: 954 };
    let b = Rect { x: 90_000, y: 100_000, w: 100_000, h: 40_000 };
    let hit = resolve_collision(&mut a, &mut vel, &b);
    assert!(hit);
    assert_eq!(a, Rect { x: 100_000, y: 50_000, w: 50_000, h: 50_000 });
    assert_eq!(vel, Vel { x: 300, y: -954 });
    assert!(!rects_overlap(&a, &b));
}

#[test]
fn resolve_horizontal_hit_pushes_out_exactly_and_flips_x() {
    // Overlap 10 pixels wide and 35 tall: corrected along x, away from
    // the block's center which lies to the right.
    let mut a = Rect { x: 60_000, y: 95_000, w: 50_000, h: 50_000 };
    let mut vel = Vel { x: 500, y: -866 };
    let b = Rect { x: 100_000, y: 90_000, w: 100_000, h: 40_000 };
    let hit = resolve_collision(&mut a, &mut vel, &b);
    assert!(hit);
    assert_eq!(a, Rect { x: 50_000, y: 95_000, w: 50_000, h: 50_000 });
    assert_eq!(vel, Vel { x: -500, y: -866 });
    assert!(!rects_overlap(&a, &b));
}

#[test]
fn resolve_bounce_preserves_direction_length() {
    let mut a = Rect { x: 100_000, y: 60_000, w: 50_000, h: 50_000 };
    let mut vel = Vel { x: 300, y: 954 };
    let before = vel.x * vel.x + vel.y * vel.y;
    let b = Rect { x: 90_000, y: 100_000, w: 100_000, h: 40_000 };
    assert!(resolve_collision(&mut a, &mut vel, &b));
    assert_eq!(vel.x * vel.x + vel.y * vel.y, before);
}

#[test]
fn new_ball_direction_has_unit_length() {
    for d in [-1000i64, -500, -1, 0, 1, 333, 777, 1000] {
        let ball = Ball::with_direction(0, 0, d);
        let sq = ball.vel.x * ball.vel.x + ball.vel.y * ball.vel.y;
        assert!(sq >= DIR_SCALE * DIR_SCALE - 4 * DIR_SCALE - 2, "too short for d={}", d);
        assert!(sq <= DIR_SCALE * DIR_SCALE + 2 * DIR_SCALE, "too long for d={}", d);
        assert!(ball.vel.y >= 1);
    }
    // The randomized constructor obeys the same bound.
    let ball = Ball::new(10_000, 20_000);
    let sq = ball.vel.x * ball.vel.x + ball.vel.y * ball.vel.y;
    assert!(sq >= DIR_SCALE * DIR_SCALE - 4 * DIR_SCALE - 2);
    assert!(sq <= DIR_SCALE * DIR_SCALE + 2 * DIR_SCALE);
    assert_eq!(ball.rect, Rect { x: 10_000, y: 20_000, w: BALL_SIZE, h: BALL_SIZE });
}

#[test]
fn ball_integration_is_exact() {
    let mut ball = Ball::with_direction(0, 0, 0);
    assert_eq!(ball.vel, Vel { x: 0, y: 1000 });
    ball.update(100);
    assert_eq!(ball.rect.x, 0);
    assert_eq!(ball.rect.y, 45_000); // 450 px/s for a tenth of a second
}

#[test]
fn ball_wall_rules_snap_direction() {
    let mut left = Ball { rect: Rect { x: -10_000, y: 100_000, w: 50_000, h: 50_000 }, vel: Vel { x: -600, y: 800 } };
    left.update(0);
    assert_eq!(left.vel.x, DIR_SCALE);

    let mut right = Ball { rect: Rect { x: SCREEN_W - 40_000, y: 100_000, w: 50_000, h: 50_000 }, vel: Vel { x: 600, y: 800 } };
    right.update(0);
    assert_eq!(right.vel.x, -DIR_SCALE);

    let mut top = Ball { rect: Rect { x: 100_000, y: -5_000, w: 50_000, h: 50_000 }, vel: Vel { x: 600, y: -800 } };
    top.update(0);
    assert_eq!(top.vel.y, DIR_SCALE);
}

#[test]
fn paddle_moves_and_clamps() {
    let mut p = Paddle::new();
    assert_eq!(p.rect.x, 325_000);
    p.update(1000, false, true);
    assert_eq!(p.rect.x, SCREEN_W - PADDLE_W); // clamped at the right wall
    p.update(1000, true, false);
    assert_eq!(p.rect.x, 0); // clamped at the left wall
    p.update(100, false, true);
    assert_eq!(p.rect.x, 70_000); // 700 px/s for a tenth of a second
    p.update(1000, true, true);
    assert_eq!(p.rect.x, 70_000); // both keys cancel out
    p.update(1000, false, false);
    assert_eq!(p.rect.x, 70_000); // no key, no movement
}

#[test]
fn draw_commands_carry_the_right_colors() {
    let p = Paddle::new();
    assert_eq!(p.draw().color, ColorTag::Black);
    assert_eq!(p.draw().rect, p.rect);

    let ball = Ball::with_direction(0, 0, 0);
    assert_eq!(ball.draw().color, ColorTag::White);

    let mut block = Block::new(0, 0, BlockType::Regular);
    assert_eq!(block.lives, BLOCK_START_LIVES);
    assert_eq!(block.draw().color, ColorTag::Red);
    block.lives = 1;
    assert_eq!(block.draw().color, ColorTag::Orange);
    let special = Block::new(0, 0, BlockType::SpawnBallOnDeath);
    assert_eq!(special.draw().color, ColorTag::Green);
}
