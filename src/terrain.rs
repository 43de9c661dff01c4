//! The terrain field: categories of ground, food on each cell, and how noise
//! samples become terrain.
use vstd::prelude::*;
use crate::geometry::UNIT;

verus! {

/// Largest side length of a world.
pub const MAX_GRID: usize = 524_288;

/// Food added to a cell by one successful spawn.
pub const FOOD_SPAWN: u64 = 80_000;

/// A category of ground. Ocean is impassable; Desert stops well-fed prey.
#[derive(Clone, Copy, Debug, PartialEq, Eq, Structural)]
pub enum Terrain {
    Mountain,
    Plains,
    Forest,
    Desert,
    Ocean,
}

/// One grid cell: its ground and the food lying on it.
#[derive(Clone, Copy, Debug, PartialEq, Eq, Structural)]
pub struct Cell {
    pub terrain: Terrain,
    pub food: u64,
}

/// The band of a noise sample (in thousandths), from the highest values to
/// the lowest.
pub open spec fn terrain_of_noise(v: int) -> Terrain {
    if v > 500 {
        Terrain::Mountain
    } else if v > 200 {
        Terrain::Forest
    } else if v > -100 {
        Terrain::Plains
    } else if v > -300 {
        Terrain::Desert
    } else {
        Terrain::Ocean
    }
}

/// Travel speed on a terrain, in thousandths of full speed.
pub open spec fn speed_of(t: Terrain) -> int {
    match t {
        Terrain::Plains => 1000,
        Terrain::Forest => 600,
        Terrain::Mountain => 200,
        Terrain::Desert => 700,
        Terrain::Ocean => 100,
    }
}

/// Chance, in thousandths, that a spawn attempt on a terrain yields food.
pub open spec fn fertility_of(t: Terrain) -> int {
    match t {
        Terrain::Plains => 400,
        Terrain::Forest => 600,
        Terrain::Mountain => 100,
        Terrain::Desert => 50,
        Terrain::Ocean => 0,
    }
}

/// Terrain for a noise sample given in thousandths.
pub fn classify(noise_milli: i64) -> (r: Terrain)
    ensures
        r == terrain_of_noise(noise_milli as int),
{
    if noise_milli > 500 {
        Terrain::Mountain
    } else if noise_milli > 200 {
        Terrain::Forest
    } else if noise_milli > -100 {
        Terrain::Plains
    } else if noise_milli > -300 {
        Terrain::Desert
    } else {
        Terrain::Ocean
    }
}

/// Travel speed on `t`, in thousandths of full speed.
pub fn speed_permille(t: Terrain) -> (r: i64)
    ensures
        r == speed_of(t),
        0 < r <= 1000,
{
    match t {
        Terrain::Plains => 1000,
        Terrain::Forest => 600,
        Terrain::Mountain => 200,
        Terrain::Desert => 700,
        Terrain::Ocean => 100,
    }
}

/// Chance, in thousandths, that food appears on `t` in one spawn attempt.
pub fn fertility_permille(t: Terrain) -> (r: u64)
    ensures
        r == fertility_of(t),
        r <= 1000,
{
    match t {
        Terrain::Plains => 400,
        Terrain::Forest => 600,
        Terrain::Mountain => 100,
        Terrain::Desert => 50,
        Terrain::Ocean => 0,
    }
}

/// `cells` holds a square grid of side `size`, row by row along x.
pub open spec fn grid_ok(cells: Seq<Cell>, size: int) -> bool {
    1 <= size <= MAX_GRID && cells.len() == size * size
}

/// The cell at column `cx` and row `cy`.
pub open spec fn cell_at(cells: Seq<Cell>, size: int, cx: int, cy: int) -> Cell {
    cells[cx * size + cy]
}

/// A coordinate clamped into a world of side `size`.
pub open spec fn clamp_coord(p: int, size: int) -> int {
    if p < 0 {
        0
    } else if p > (size - 1) * UNIT {
        (size - 1) * UNIT
    } else {
        p
    }
}

/// The grid line (column or row) holding a coordinate, after clamping.
pub open spec fn cell_coord(p: int, size: int) -> int {
    clamp_coord(p, size) / (UNIT as int)
}

proof fn lemma_index_in_grid(size: int, cx: int, cy: int)
    requires
        0 <= cx < size,
        0 <= cy < size,
    ensures
        0 <= cx * size + cy < size * size,
{
    assert(0 <= cx * size + cy < size * size) by (nonlinear_arith)
        requires
            0 <= cx < size,
            0 <= cy < size,
    ;
}

/// Position of cell `(cx, cy)` in the row-by-row grid.
pub fn cell_index(cells: &Vec<Cell>, size: usize, cx: usize, cy: usize) -> (r: usize)
    requires
        grid_ok(cells@, size as int),
        cx < size,
        cy < size,
    ensures
        r == cx * size + cy,
        r < cells.len(),
{
    // The grid's length is a usize, which bounds the index below it.
    let _cell_count = cells.len();
    proof {
        lemma_index_in_grid(size as int, cx as int, cy as int);
        assert(cx * size <= cx * size + cy);
    }
    cx * size + cy
}

/// Clamps a coordinate into a world of side `size`.
pub fn clamp_to_world(p: i64, size: usize) -> (r: i64)
    requires
        1 <= size <= MAX_GRID,
    ensures
        r == clamp_coord(p as int, size as int),
        0 <= r <= (size - 1) * UNIT,
{
    let top: i64 = (size as i64 - 1) * UNIT;
    if p < 0 {
        0
    } else if p > top {
        top
    } else {
        p
    }
}

/// The grid line holding coordinate `p`, after clamping.
pub fn line_of(p: i64, size: usize) -> (r: usize)
    requires
        1 <= size <= MAX_GRID,
    ensures
        r == cell_coord(p as int, size as int),
        r < size,
{
    let c = clamp_to_world(p, size);
    (c / UNIT) as usize
}

impl Cell {
    /// Removes up to `amount` food and returns how much was removed; food
    /// never goes below zero.
    pub fn consume(&mut self, amount: u64) -> (eaten: u64)
        ensures
            eaten == if amount <= old(self).food { amount } else { old(self).food },
            final(self).food == old(self).food - eaten,
            final(self).terrain == old(self).terrain,
    {
        let eaten = if amount <= self.food { amount } else { self.food };
        self.food = self.food - eaten;
        eaten
    }

    /// Adds one spawn of food, saturating at the largest amount representable.
    pub fn add_food(&mut self)
        ensures
            final(self).food == if old(self).food + FOOD_SPAWN <= u64::MAX {
                old(self).food + FOOD_SPAWN
            } else {
                u64::MAX as int
            },
            final(self).terrain == old(self).terrain,
    {
        self.food = self.food.saturating_add(FOOD_SPAWN);
    }
}

} // verus!
