//! The battlefield grid: its cells, which of them form the bench, and the
//! record of which role stands on which cell.

use vstd::prelude::*;

verus! {

/// Grid coordinates of a map cell.
#[derive(Clone, Copy, Debug, PartialEq, Eq, Structural)]
pub struct MapCell {
    /// Column, growing to the right.
    pub x: u32,
    /// Row, growing downwards.
    pub y: u32,
}

/// What is recorded of a cell: the role on it, if any.
#[derive(Clone, Copy, Debug, PartialEq, Eq, Structural)]
pub struct MapCellData {
    /// The role entity on the cell.
    pub role: Option<u64>,
}

/// Whether the cell in column `col` belongs to the bench, the deployment
/// zone formed by the two leftmost columns.
pub open spec fn is_bench_column(col: u32) -> bool {
    col <= 1
}

/// The cells of a `width` by `height` grid, row by row, each with whether
/// it belongs to the bench.
pub fn grid_cells(width: u32, height: u32) -> (r: Vec<(MapCell, bool)>)
    requires
        width * height <= usize::MAX,
    ensures
        r@.len() == width * height,
        forall|row: int, col: int|
            0 <= row < height && 0 <= col < width ==> #[trigger] r@[row * width + col] == (
            MapCell { x: col as u32, y: row as u32 },
            is_bench_column(col as u32),
        ),
{
    let mut r: Vec<(MapCell, bool)> = Vec::new();
    let mut row: u32 = 0;
    while row < height
        invariant
            row <= height,
            width * height <= usize::MAX,
            r@.len() == row * width,
            forall|y: int, x: int|
                0 <= y < row && 0 <= x < width ==> #[trigger] r@[y * width + x] == (
                MapCell { x: x as u32, y: y as u32 },
                is_bench_column(x as u32),
            ),
        decreases height - row,
    {
        let mut col: u32 = 0;
        while col < width
            invariant
                row < height,
                col <= width,
                width * height <= usize::MAX,
                r@.len() == row * width + col,
                forall|y: int, x: int|
                    0 <= y < row && 0 <= x < width ==> #[trigger] r@[y * width + x] == (
                    MapCell { x: x as u32, y: y as u32 },
                    is_bench_column(x as u32),
                ),
                forall|x: int|
                    0 <= x < col ==> #[trigger] r@[row * width + x] == (
                    MapCell { x: x as u32, y: row },
                    is_bench_column(x as u32),
                ),
            decreases width - col,
        {
            proof {
                assert(row * width + col < width * height) by (nonlinear_arith)
                    requires
                        row < height,
                        col < width,
                ;
            }
            let ghost before = r@;
            r.push((MapCell { x: col, y: row }, col <= 1));
            proof {
                assert forall|y: int, x: int|
                    0 <= y < row && 0 <= x < width implies #[trigger] r@[y * width + x] == (
                    MapCell { x: x as u32, y: y as u32 },
                    is_bench_column(x as u32),
                ) by {
                    lemma_index_below(y, x, row as int, width as int);
                    assert(r@[y * width + x] == before[y * width + x]);
                }
                assert forall|x: int|
                    0 <= x < col + 1 implies #[trigger] r@[row * width + x] == (
                    MapCell { x: x as u32, y: row },
                    is_bench_column(x as u32),
                ) by {
                    if x < col {
                        assert(r@[row * width + x] == before[row * width + x]);
                    }
                }
            }
            col = col + 1;
        }
        proof {
            assert((row + 1) * width == row * width + width) by (nonlinear_arith);
            assert forall|y: int, x: int|
                0 <= y < row + 1 && 0 <= x < width implies #[trigger] r@[y * width + x] == (
                MapCell { x: x as u32, y: y as u32 },
                is_bench_column(x as u32),
            ) by {
                if y == row {
                } else {
                }
            }
        }
        row = row + 1;
    }
    proof {
        assert(row * width == width * height) by (nonlinear_arith)
            requires
                row == height,
        ;
    }
    r
}

/// A cell of an earlier row comes before every cell of a later row.
proof fn lemma_index_below(y: int, x: int, row: int, width: int)
    requires
        0 <= y < row,
        0 <= x < width,
    ensures
        y * width + x < row * width,
{
    assert(y * width + x < row * width) by (nonlinear_arith)
        requires
            0 <= y < row,
            0 <= x < width,
    ;
}

/// What is recorded of the cells of the map, by coordinates.
pub struct MapState {
    cells: Vec<(MapCell, MapCellData)>,
}

/// The record that a list of entries denotes; a later entry for a cell
/// replaces an earlier one.
pub open spec fn cell_map(s: Seq<(MapCell, MapCellData)>) -> Map<MapCell, MapCellData>
    decreases s.len(),
{
    if s.len() == 0 {
        Map::empty()
    } else {
        cell_map(s.drop_last()).insert(s.last().0, s.last().1)
    }
}

impl View for MapState {
    type V = Map<MapCell, MapCellData>;

    closed spec fn view(&self) -> Map<MapCell, MapCellData> {
        cell_map(self.cells@)
    }
}

/// A cell is recorded exactly when some entry is about it.
proof fn lemma_cell_map_dom(s: Seq<(MapCell, MapCellData)>, c: MapCell)
    ensures
        cell_map(s).contains_key(c) <==> exists|i: int| 0 <= i < s.len() && #[trigger] s[i].0 == c,
    decreases s.len(),
{
    if s.len() > 0 {
        let d = s.drop_last();
        lemma_cell_map_dom(d, c);
        if cell_map(s).contains_key(c) && c != s.last().0 {
            let i = choose|i: int| 0 <= i < d.len() && #[trigger] d[i].0 == c;
            assert(s[i].0 == c);
        }
        if c == s.last().0 {
            assert(s[s.len() - 1].0 == c);
        }
        if exists|i: int| 0 <= i < s.len() && #[trigger] s[i].0 == c {
            let i = choose|i: int| 0 <= i < s.len() && #[trigger] s[i].0 == c;
            if i < s.len() - 1 {
                assert(d[i].0 == c);
            }
        }
    }
}

/// The record of a cell is the last entry about it.
proof fn lemma_cell_map_value(s: Seq<(MapCell, MapCellData)>, i: int)
    requires
        0 <= i < s.len(),
        forall|j: int| i < j < s.len() ==> #[trigger] s[j].0 != s[i].0,
    ensures
        cell_map(s).contains_key(s[i].0),
        cell_map(s)[s[i].0] == s[i].1,
    decreases s.len(),
{
    if i < s.len() - 1 {
        let d = s.drop_last();
        assert forall|j: int| i < j < d.len() implies #[trigger] d[j].0 != d[i].0 by {
            assert(d[j] == s[j]);
        }
        lemma_cell_map_value(d, i);
        assert(s[s.len() - 1].0 != s[i].0);
    }
}

impl MapState {
    /// An empty record.
    pub fn new() -> (m: Self)
        ensures
            m@ == Map::<MapCell, MapCellData>::empty(),
    {
        MapState { cells: Vec::new() }
    }

    /// Position of the last entry about `cell`, if any.
    fn position(&self, cell: MapCell) -> (r: Option<usize>)
        ensures
            match r {
                Some(i) => i < self.cells@.len() && self.cells@[i as int].0 == cell
                    && forall|j: int| i < j < self.cells@.len() ==> #[trigger] self.cells@[j].0 != cell,
                None => forall|j: int| 0 <= j < self.cells@.len() ==> #[trigger] self.cells@[j].0 != cell,
            },
    {
        let mut i = self.cells.len();
        while i > 0
            invariant
                i <= self.cells@.len(),
                forall|j: int| i <= j < self.cells@.len() ==> #[trigger] self.cells@[j].0 != cell,
            decreases i,
        {
            if self.cells[i - 1].0 == cell {
                return Some(i - 1);
            }
            i = i - 1;
        }
        None
    }

    /// The record of `cell`, if it has one.
    pub fn get(&self, cell: MapCell) -> (r: Option<MapCellData>)
        ensures
            r == (if self@.contains_key(cell) { Some(self@[cell]) } else { None }),
    {
        proof {
            lemma_cell_map_dom(self.cells@, cell);
        }
        match self.position(cell) {
            Some(i) => {
                proof {
                    lemma_cell_map_value(self.cells@, i as int);
                }
                Some(self.cells[i].1)
            },
            None => None,
        }
    }

    /// Records a newly placed cell: a cell not yet recorded gets an empty
    /// record; a recorded one keeps its record.
    pub fn register_cell(&mut self, cell: MapCell)
        ensures
            final(self)@ == (if old(self)@.contains_key(cell) {
                old(self)@
            } else {
                old(self)@.insert(cell, MapCellData { role: None })
            }),
    {
        proof {
            lemma_cell_map_dom(self.cells@, cell);
        }
        if self.position(cell).is_none() {
            let ghost before = self.cells@;
            self.cells.push((cell, MapCellData { role: None }));
            proof {
                assert(self.cells@.drop_last() =~= before);
            }
        }
    }

    /// Records the role standing on `cell`.
    pub fn set_role(&mut self, cell: MapCell, role: Option<u64>)
        ensures
            final(self)@ == old(self)@.insert(cell, MapCellData { role }),
    {
        let ghost before = self.cells@;
        self.cells.push((cell, MapCellData { role }));
        proof {
            assert(self.cells@.drop_last() =~= before);
        }
    }
}

/// Registering a cell twice records it as registering it once does.
pub proof fn law_register_idempotent(m: Map<MapCell, MapCellData>, cell: MapCell)
    ensures
        ({
            let once = if m.contains_key(cell) { m } else { m.insert(cell, MapCellData { role: None }) };
            let twice = if once.contains_key(cell) { once } else { once.insert(cell, MapCellData { role: None }) };
            twice == once
        }),
{
}

} // verus!
