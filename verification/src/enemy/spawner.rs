//! Where and what the enemy spawner spawns: a random cell of a fixed
//! rectangle and a random entry of its list.

use vstd::prelude::*;

use rand::Rng;

verus! {

/// The rectangle of grid cells in which enemies appear (bounds inclusive).
#[derive(Clone, Copy, Debug, PartialEq, Eq, Structural)]
pub struct SpawnArea {
    /// Least column.
    pub col_min: u32,
    /// Greatest column.
    pub col_max: u32,
    /// Least row.
    pub row_min: u32,
    /// Greatest row.
    pub row_max: u32,
}

/// One kind of enemy to spawn. The interval's number type `N` is a
/// parameter.
pub struct SpawnEntry<N> {
    /// Name of the builder in the enemy builder registry.
    pub builder_name: String,
    /// How many to spawn in all (kept for later use).
    pub count: u32,
    /// Time between two spawns.
    pub interval: N,
}

/// The enemy spawner: area, entries, and time left until the next spawn.
pub struct EnemySpawner<N> {
    /// Area in which enemies appear.
    pub spawn_area: SpawnArea,
    /// The kinds of enemy it spawns.
    pub entries: Vec<SpawnEntry<N>>,
    /// Time left until the next spawn.
    pub spawn_timer: N,
}

/// The cell and entry of one spawn.
#[derive(Clone, Copy, Debug, PartialEq, Eq, Structural)]
pub struct SpawnChoice {
    /// Column of the cell.
    pub col: u32,
    /// Row of the cell.
    pub row: u32,
    /// Index of the entry in the spawner's list.
    pub entry: usize,
}

/// A uniformly random number in `lo..=hi`, from `rand::rng()` and
/// `Rng::random_range`, which panics on an empty range (hence the
/// requirement); the contract states the range and nothing about the value
/// within it.
#[verifier::external_body]
fn random_inclusive(lo: u64, hi: u64) -> (r: u64)
    requires
        lo <= hi,
    ensures
        lo <= r <= hi,
{
    rand::rng().random_range(lo..=hi)
}

impl<N> EnemySpawner<N> {
    /// Picks the cell and the entry of the next spawn at random: a column
    /// and a row within the area, and an entry of the list.
    pub fn pick_spawn(&self) -> (c: SpawnChoice)
        requires
            self.spawn_area.col_min <= self.spawn_area.col_max,
            self.spawn_area.row_min <= self.spawn_area.row_max,
            self.entries@.len() > 0,
        ensures
            self.spawn_area.col_min <= c.col <= self.spawn_area.col_max,
            self.spawn_area.row_min <= c.row <= self.spawn_area.row_max,
            c.entry < self.entries@.len(),
    {
        let area = self.spawn_area;
        let col = random_inclusive(area.col_min as u64, area.col_max as u64) as u32;
        let row = random_inclusive(area.row_min as u64, area.row_max as u64) as u32;
        let last = (self.entries.len() - 1) as u64;
        let entry = random_inclusive(0, last) as usize;
        SpawnChoice { col, row, entry }
    }
}

} // verus!
