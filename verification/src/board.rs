//! The board initializer: a fixed 6×5 grid of regular blocks, centered
//! horizontally, of which three randomly chosen ones (drawn with
//! replacement, so they need not be distinct) are retagged to spawn an
//! extra ball when destroyed.

use vstd::prelude::*;

verus! {

use crate::entities::{Block, BlockType, block_wf};
use crate::geom::Rect;
use crate::rng::rand_index;
use crate::{BLOCK_W, BLOCK_H, BLOCK_PADDING, BLOCK_START_LIVES, GRID_W, GRID_H};

/// Leftmost x of the grid: the full grid width, padding included, centered
/// on the screen.
pub const BOARD_START_X: i64 = 85_000;

/// Top y of the grid: 50 pixels below the top edge.
pub const BOARD_START_Y: i64 = 50_000;

/// Horizontal stride from one block to the next.
pub const BLOCK_STRIDE_X: i64 = BLOCK_W + BLOCK_PADDING;

/// Vertical stride from one row to the next.
pub const BLOCK_STRIDE_Y: i64 = BLOCK_H + BLOCK_PADDING;

/// The block of grid index `i`: column `i % GRID_W`, row `i / GRID_W`.
pub open spec fn grid_block(i: int) -> Block {
    Block {
        rect: Rect {
            x: (BOARD_START_X + (i % (GRID_W as int)) * BLOCK_STRIDE_X) as i64,
            y: (BOARD_START_Y + (i / (GRID_W as int)) * BLOCK_STRIDE_Y) as i64,
            w: BLOCK_W,
            h: BLOCK_H,
        },
        lives: BLOCK_START_LIVES,
        block_type: BlockType::Regular,
    }
}

/// The freshly laid out grid, all blocks regular.
pub open spec fn base_grid() -> Seq<Block> {
    Seq::new((GRID_W * GRID_H) as nat, |i: int| grid_block(i))
}

/// One retagging operation: block `i` becomes a spawn-ball block; its
/// position and hit count are untouched.
pub open spec fn retag(s: Seq<Block>, i: int) -> Seq<Block> {
    s.update(i, Block { block_type: BlockType::SpawnBallOnDeath, ..s[i] })
}

/// The base grid with the three retags applied in order.
pub open spec fn retag3(i1: int, i2: int, i3: int) -> Seq<Block> {
    retag(retag(retag(base_grid(), i1), i2), i3)
}

/// Fills `blocks` with the grid and performs exactly three retagging
/// operations at randomly drawn indices.  Since the indices are drawn with
/// replacement, between one and three blocks end up special.
pub fn init_blocks(blocks: &mut Vec<Block>)
    requires
        old(blocks).len() == 0,
    ensures
        final(blocks)@.len() == GRID_W * GRID_H,
        exists|i1: int, i2: int, i3: int|
            0 <= i1 < GRID_W * GRID_H && 0 <= i2 < GRID_W * GRID_H && 0 <= i3 < GRID_W * GRID_H
            && final(blocks)@ == retag3(i1, i2, i3),
{
    let count: usize = GRID_W * GRID_H;
    let mut i: usize = 0;
    while i < count
        invariant
            0 <= i <= count,
            count == GRID_W * GRID_H,
            blocks@.len() == i,
            forall|k: int| 0 <= k < i ==> blocks@[k] == grid_block(k),
        decreases count - i,
    {
        let col: i64 = (i % GRID_W) as i64;
        let row: i64 = (i / GRID_W) as i64;
        let x: i64 = BOARD_START_X + col * BLOCK_STRIDE_X;
        let y: i64 = BOARD_START_Y + row * BLOCK_STRIDE_Y;
        assert(row <= 4) by {
            assert(i / GRID_W <= 4) by (nonlinear_arith)
                requires i < 30usize, GRID_W == 6usize;
        };
        blocks.push(Block::new(x, y, BlockType::Regular));
        i = i + 1;
    }
    assert(blocks@ =~= base_grid());

    let j1: usize = rand_index(count);
    let b1 = blocks[j1];
    blocks[j1] = Block { block_type: BlockType::SpawnBallOnDeath, ..b1 };
    let j2: usize = rand_index(count);
    let b2 = blocks[j2];
    blocks[j2] = Block { block_type: BlockType::SpawnBallOnDeath, ..b2 };
    let j3: usize = rand_index(count);
    let b3 = blocks[j3];
    blocks[j3] = Block { block_type: BlockType::SpawnBallOnDeath, ..b3 };
    assert(blocks@ == retag3(j1 as int, j2 as int, j3 as int));
}

/// Every block of a grid with any three retags is well formed, alive, and
/// sits where the base grid put it.
pub proof fn lemma_retagged_grid_wf(i1: int, i2: int, i3: int)
    requires
        0 <= i1 < GRID_W * GRID_H,
        0 <= i2 < GRID_W * GRID_H,
        0 <= i3 < GRID_W * GRID_H,
    ensures
        forall|k: int| 0 <= k < GRID_W * GRID_H ==> block_wf(#[trigger] retag3(i1, i2, i3)[k])
            && retag3(i1, i2, i3)[k].lives == BLOCK_START_LIVES
            && retag3(i1, i2, i3)[k].rect == grid_block(k).rect,
{
    assert forall|k: int| 0 <= k < GRID_W * GRID_H implies block_wf(#[trigger] retag3(i1, i2, i3)[k])
        && retag3(i1, i2, i3)[k].lives == BLOCK_START_LIVES
        && retag3(i1, i2, i3)[k].rect == grid_block(k).rect by {
        assert(0 <= k % (GRID_W as int) < 6 && 0 <= k / (GRID_W as int) <= 4) by (nonlinear_arith)
            requires 0 <= k < 30, GRID_W == 6usize;
    }
}

} // verus!
