//! Enemy lifecycle rules of the model: where the next enemy appears and
//! which enemies a clear request marks for removal.

use vstd::prelude::*;

verus! {

/// Enemies are laid out on a grid of this many columns...
pub const ENEMY_GRID_COLUMNS: u32 = 8;

/// ...and this many rows; the grid is reused once full.
pub const ENEMY_GRID_ROWS: u32 = 4;

/// Counts the enemies spawned so far.
pub struct EnemySpawnSequence {
    pub next: u32,
}

/// Where the enemy with sequence number `index` appears: its grid cell and
/// its position in pixels.
#[derive(Clone, Copy, Debug, PartialEq, Eq, Structural)]
pub struct EnemySpawn {
    pub index: u32,
    pub column: u32,
    pub row: u32,
    pub x: u32,
    pub y: u32,
}

/// The placement of the enemy with sequence number `index`: columns of 70
/// pixels from x = 100, rows of 60 pixels from y = 310.
pub open spec fn enemy_spawn_at(index: u32) -> EnemySpawn {
    let column = index % 8;
    let row = (index / 8) % 4;
    EnemySpawn {
        index,
        column,
        row,
        x: (100 + column * 70) as u32,
        y: (310 + row * 60) as u32,
    }
}

impl EnemySpawnSequence {
    /// No enemy spawned yet.
    pub fn new() -> (sequence: Self)
        ensures
            sequence.next == 0,
    {
        EnemySpawnSequence { next: 0 }
    }

    /// When spawning was requested this tick, takes the next sequence number
    /// and returns where that enemy appears; otherwise does nothing.
    pub fn spawn_enemy(&mut self, spawn_pressed: bool) -> (spawn: Option<EnemySpawn>)
        requires
            spawn_pressed ==> old(self).next < u32::MAX,
        ensures
            !spawn_pressed ==> spawn is None && final(self).next == old(self).next,
            spawn_pressed ==> spawn == Some(enemy_spawn_at(old(self).next)) && final(self).next
                == old(self).next + 1,
            spawn matches Some(e) ==> {
                &&& e.index == old(self).next
                &&& e.column == e.index % 8
                &&& e.row == (e.index / 8) % 4
                &&& e.x == 100 + 70 * e.column
                &&& e.y == 310 + 60 * e.row
            },
    {
        proof {
            lemma_enemy_position_follows_cell(old(self).next);
        }
        if !spawn_pressed {
            return None;
        }
        let index = self.next;
        self.next = self.next + 1;
        let column = index % ENEMY_GRID_COLUMNS;
        let row = (index / ENEMY_GRID_COLUMNS) % ENEMY_GRID_ROWS;
        Some(EnemySpawn { index, column, row, x: 100 + column * 70, y: 310 + row * 60 })
    }
}

impl Default for EnemySpawnSequence {
    fn default() -> (sequence: Self)
        ensures
            sequence.next == 0,
    {
        EnemySpawnSequence::new()
    }
}

/// The placement of an enemy is fixed by its sequence number alone: column
/// `index % 8`, row `(index / 8) % 4`, and a position that moves 70 pixels per
/// column from x = 100 and 60 pixels per row from y = 310, so distinct cells
/// are drawn at distinct positions.
pub proof fn lemma_enemy_position_follows_cell(index: u32)
    ensures
        enemy_spawn_at(index).index == index,
        enemy_spawn_at(index).column == index % 8,
        enemy_spawn_at(index).row == (index / 8) % 4,
        enemy_spawn_at(index).x == 100 + 70 * enemy_spawn_at(index).column,
        enemy_spawn_at(index).y == 310 + 60 * enemy_spawn_at(index).row,
{
}

/// Two enemies are drawn at the same position exactly when they occupy the same cell.
pub proof fn lemma_enemy_positions_distinguish_cells(i: u32, j: u32)
    ensures
        (enemy_spawn_at(i).x == enemy_spawn_at(j).x && enemy_spawn_at(i).y == enemy_spawn_at(j).y)
            <==> (enemy_spawn_at(i).column == enemy_spawn_at(j).column && enemy_spawn_at(i).row
            == enemy_spawn_at(j).row),
{
    lemma_enemy_position_follows_cell(i);
    lemma_enemy_position_follows_cell(j);
}

/// Every enemy lies inside the grid: columns 0..8, rows 0..4, so x in
/// 100..=590 and y in 310..=490.
pub proof fn lemma_enemy_spawn_in_grid(index: u32)
    ensures
        enemy_spawn_at(index).column < 8,
        enemy_spawn_at(index).row < 4,
        100 <= enemy_spawn_at(index).x <= 590,
        310 <= enemy_spawn_at(index).y <= 490,
{
}

/// Two enemies share a grid cell exactly when their sequence numbers are
/// equal modulo 32: the grid of 8 x 4 cells is filled in order and reused.
pub proof fn lemma_enemy_cells_repeat_every_32(i: u32, j: u32)
    ensures
        (enemy_spawn_at(i).column == enemy_spawn_at(j).column && enemy_spawn_at(i).row
            == enemy_spawn_at(j).row) <==> i % 32 == j % 32,
{
    assert(i % 32 == ((i / 8) % 4) * 8 + i % 8) by (bit_vector);
    assert(j % 32 == ((j / 8) % 4) * 8 + j % 8) by (bit_vector);
    assert(i % 8 < 8 && j % 8 < 8) by (bit_vector);
}

/// The enemies marked for removal by a clear request: all listed enemies
/// when clearing was requested this tick, none otherwise.
pub fn enemies_to_clear(clear_pressed: bool, enemies: Vec<u64>) -> (marked: Vec<u64>)
    ensures
        marked@ == (if clear_pressed {
            enemies@
        } else {
            Seq::<u64>::empty()
        }),
{
    if clear_pressed {
        enemies
    } else {
        Vec::new()
    }
}

} // verus!
