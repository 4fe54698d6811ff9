//! The tile map: three grids of equal size that say what stands in, lies
//! under and hangs over each cell.

use vstd::prelude::*;

verus! {

/// The value that every cell outside the map is taken to hold.
pub const SOLID: u32 = 1;

/// The greatest number of cells along one axis that 16.16 coordinates can
/// address.
pub const MAX_CELLS: usize = 32768;

/// One of the three grids of a map.
#[derive(Debug, Clone, Copy, PartialEq, Eq, Structural)]
pub enum Grid {
    Walls,
    Floor,
    Ceiling,
}

/// Whether `grid` has `height` rows of `width` cells each.
pub open spec fn rectangular(grid: Seq<Seq<u32>>, width: int, height: int) -> bool {
    &&& grid.len() == height
    &&& forall|y: int| 0 <= y < height ==> (#[trigger] grid[y]).len() == width
}

/// The number of cells in the first row of `grid`, or 0 when it has no row.
pub open spec fn first_row_len(grid: Seq<Seq<u32>>) -> int {
    if grid.len() > 0 {
        grid[0].len() as int
    } else {
        0
    }
}

/// Whether three grids can form a map: all three rectangular and of one size,
/// with at most `MAX_CELLS` cells along each axis.
pub open spec fn valid_grids(
    walls: Seq<Seq<u32>>,
    floor: Seq<Seq<u32>>,
    ceiling: Seq<Seq<u32>>,
) -> bool {
    let height = walls.len() as int;
    let width = first_row_len(walls);
    &&& height <= MAX_CELLS
    &&& width <= MAX_CELLS
    &&& rectangular(walls, width, height)
    &&& rectangular(floor, width, height)
    &&& rectangular(ceiling, width, height)
}

/// The rows of a grid as sequences.
pub open spec fn grid_rows(grid: Vec<Vec<u32>>) -> Seq<Seq<u32>> {
    Seq::new(grid@.len(), |y: int| grid@[y]@)
}

/// The mathematical model of a tile map.
pub struct MapView {
    pub width: int,
    pub height: int,
    pub walls: Seq<Seq<u32>>,
    pub floor: Seq<Seq<u32>>,
    pub ceiling: Seq<Seq<u32>>,
}

impl MapView {
    /// The three grids are rectangular, of the map's size.
    pub open spec fn wf(self) -> bool {
        &&& 0 <= self.width <= MAX_CELLS
        &&& 0 <= self.height <= MAX_CELLS
        &&& rectangular(self.walls, self.width, self.height)
        &&& rectangular(self.floor, self.width, self.height)
        &&& rectangular(self.ceiling, self.width, self.height)
    }

    /// The rows of one grid.
    pub open spec fn grid(self, which: Grid) -> Seq<Seq<u32>> {
        match which {
            Grid::Walls => self.walls,
            Grid::Floor => self.floor,
            Grid::Ceiling => self.ceiling,
        }
    }

    /// Whether the cell `(x, y)` lies in the map.
    pub open spec fn contains(self, x: int, y: int) -> bool {
        0 <= x < self.width && 0 <= y < self.height
    }

    /// The value of the cell `(x, y)` of a grid; `SOLID` outside the map.
    pub open spec fn cell(self, which: Grid, x: int, y: int) -> u32 {
        if self.contains(x, y) {
            self.grid(which)[y][x]
        } else {
            SOLID
        }
    }

    /// Whether the cell `(x, y)` stops rays and movement: it holds a wall or
    /// lies outside the map.
    pub open spec fn solid(self, x: int, y: int) -> bool {
        self.cell(Grid::Walls, x, y) != 0
    }
}

/// Three grids of cells: walls, floor and ceiling.
pub struct TileMap {
    width: usize,
    height: usize,
    walls: Vec<Vec<u32>>,
    floor: Vec<Vec<u32>>,
    ceiling: Vec<Vec<u32>>,
}

/// Whether every row of `grid` has `width` cells and there are `height` rows.
fn grid_has_shape(grid: &Vec<Vec<u32>>, width: usize, height: usize) -> (ok: bool)
    ensures
        ok == rectangular(grid_rows(*grid), width as int, height as int),
{
    if grid.len() != height {
        return false;
    }
    let mut y: usize = 0;
    while y < height
        invariant
            y <= height,
            grid@.len() == height,
            forall|k: int| 0 <= k < y ==> (#[trigger] grid_rows(*grid)[k]).len() == width,
        decreases height - y,
    {
        if grid[y].len() != width {
            assert(grid_rows(*grid)[y as int].len() != width);
            return false;
        }
        y += 1;
    }
    true
}

impl TileMap {
    /// The representation invariant.
    pub closed spec fn wf(&self) -> bool {
        &&& self.width <= MAX_CELLS
        &&& self.height <= MAX_CELLS
        &&& rectangular(grid_rows(self.walls), self.width as int, self.height as int)
        &&& rectangular(grid_rows(self.floor), self.width as int, self.height as int)
        &&& rectangular(grid_rows(self.ceiling), self.width as int, self.height as int)
    }

    /// The map this value stands for.
    pub closed spec fn view(&self) -> MapView {
        MapView {
            width: self.width as int,
            height: self.height as int,
            walls: grid_rows(self.walls),
            floor: grid_rows(self.floor),
            ceiling: grid_rows(self.ceiling),
        }
    }

    /// A well-formed map stands for a well-formed model.
    pub proof fn lemma_view_wf(&self)
        requires
            self.wf(),
        ensures
            self@.wf(),
    {
    }

    /// Tells whether three grids can form a map.
    pub fn grids_valid(walls: &Vec<Vec<u32>>, floor: &Vec<Vec<u32>>, ceiling: &Vec<Vec<u32>>) -> (ok:
        bool)
        ensures
            ok == valid_grids(grid_rows(*walls), grid_rows(*floor), grid_rows(*ceiling)),
    {
        let height = walls.len();
        let width = if height > 0 { walls[0].len() } else { 0 };
        height <= MAX_CELLS && width <= MAX_CELLS && grid_has_shape(walls, width, height)
            && grid_has_shape(floor, width, height) && grid_has_shape(ceiling, width, height)
    }

    /// Makes a map of three grids of one rectangular size.
    pub fn new(walls: Vec<Vec<u32>>, floor: Vec<Vec<u32>>, ceiling: Vec<Vec<u32>>) -> (m: TileMap)
        requires
            valid_grids(grid_rows(walls), grid_rows(floor), grid_rows(ceiling)),
        ensures
            m.wf(),
            m@.height == walls@.len(),
            m@.width == first_row_len(grid_rows(walls)),
            m@.walls == grid_rows(walls),
            m@.floor == grid_rows(floor),
            m@.ceiling == grid_rows(ceiling),
    {
        let height = walls.len();
        let width = if height > 0 { walls[0].len() } else { 0 };
        TileMap { width, height, walls, floor, ceiling }
    }

    /// The number of cells in each row.
    pub fn width(&self) -> (w: usize)
        requires
            self.wf(),
        ensures
            w == self@.width,
    {
        self.width
    }

    /// The number of rows.
    pub fn height(&self) -> (h: usize)
        requires
            self.wf(),
        ensures
            h == self@.height,
    {
        self.height
    }

    /// The value of the cell `(x, y)` of a grid. A cell outside the map holds
    /// `SOLID`.
    pub fn cell(&self, which: Grid, x: i32, y: i32) -> (value: u32)
        requires
            self.wf(),
        ensures
            value == self@.cell(which, x as int, y as int),
    {
        if x < 0 || y < 0 || x as usize >= self.width || y as usize >= self.height {
            return SOLID;
        }
        let grid = match which {
            Grid::Walls => &self.walls,
            Grid::Floor => &self.floor,
            Grid::Ceiling => &self.ceiling,
        };
        assert(grid_rows(*grid)[y as int].len() == self.width);
        grid[y as usize][x as usize]
    }

    /// Whether the cell `(x, y)` stops rays and movement.
    pub fn is_solid(&self, x: i32, y: i32) -> (solid: bool)
        requires
            self.wf(),
        ensures
            solid == self@.solid(x as int, y as int),
    {
        self.cell(Grid::Walls, x, y) != 0
    }
}

} // verus!
