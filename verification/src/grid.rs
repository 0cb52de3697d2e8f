//! The spatial grid: a dense 2D array of cells, each either open air or a
//! wall, with exact world/grid coordinate mapping.
//!
//! The grid is the single shared resource every solver reads; walls are
//! edited through `set`. All index-taking operations validate bounds and
//! report absence with `None` instead of faulting.

use vstd::prelude::*;

use crate::geom::{Quad, Vec2i};

verus! {

/// One cell of the grid: open space or a wall.
#[derive(Clone, Copy, Debug, PartialEq, Eq, Structural)]
pub enum GridCell {
    Air,
    Wall,
}

/// A dense `width x height` grid of cells in row-major order, anchored at
/// `root` in world space with square cells of side `cell_size`. The
/// optimizer's node lattice uses the separate `pixel_size` resolution.
#[derive(Debug)]
pub struct Grid {
    width: usize,
    height: usize,
    cell_size: i64,
    pixel_size: i64,
    root: Vec2i,
    data: Vec<GridCell>,
}

/// Largest cell count per axis.
pub const MAX_DIM: usize = 4096;

/// Largest world units per grid cell or lattice step.
pub const MAX_CELL: i64 = 100_000;

/// Largest magnitude of the grid anchor and of the grid's world extent.
pub const MAX_EXTENT: i64 = 500_000_000;

impl Grid {
    /// Well-formedness: the backing vector matches the dimensions and all
    /// sizes are small enough that world coordinates of cell corners stay
    /// within the supported coordinate range.
    pub closed spec fn wf(self) -> bool {
        &&& self.data.len() == self.width * self.height
        &&& 1 <= self.width <= MAX_DIM
        &&& 1 <= self.height <= MAX_DIM
        &&& 1 <= self.cell_size <= MAX_CELL
        &&& 1 <= self.pixel_size <= MAX_CELL
        &&& -MAX_EXTENT <= self.root.x <= MAX_EXTENT
        &&& -MAX_EXTENT <= self.root.y <= MAX_EXTENT
        &&& self.width * self.cell_size <= MAX_EXTENT
        &&& self.height * self.cell_size <= MAX_EXTENT
    }

    pub closed spec fn spec_width(self) -> int {
        self.width as int
    }

    pub closed spec fn spec_height(self) -> int {
        self.height as int
    }

    pub closed spec fn spec_cell_size(self) -> int {
        self.cell_size as int
    }

    pub closed spec fn spec_pixel_size(self) -> int {
        self.pixel_size as int
    }

    pub closed spec fn spec_root(self) -> Vec2i {
        self.root
    }

    /// The cell stored at `(x, y)`; `Air` outside the bounds.
    pub closed spec fn cell_at(self, x: int, y: int) -> GridCell {
        if 0 <= x < self.width && 0 <= y < self.height {
            self.data[y * self.width + x]
        } else {
            GridCell::Air
        }
    }

    /// True when `(x, y)` is a wall cell inside the bounds.
    pub open spec fn wall_at(self, x: int, y: int) -> bool {
        &&& 0 <= x < self.spec_width()
        &&& 0 <= y < self.spec_height()
        &&& self.cell_at(x, y) == GridCell::Wall
    }

    /// True when the grid holds no wall at all.
    pub open spec fn all_air(self) -> bool {
        forall|x: int, y: int| !self.wall_at(x, y)
    }

    /// Two grids share geometry when only their cell contents may differ.
    pub open spec fn same_shape(self, other: Grid) -> bool {
        &&& self.spec_width() == other.spec_width()
        &&& self.spec_height() == other.spec_height()
        &&& self.spec_cell_size() == other.spec_cell_size()
        &&& self.spec_pixel_size() == other.spec_pixel_size()
        &&& self.spec_root() == other.spec_root()
    }

    /// Builds an all-air grid.
    pub fn new(width: usize, height: usize, cell_size: i64, pixel_size: i64, root: Vec2i) -> (r:
        Grid)
        requires
            1 <= width <= MAX_DIM,
            1 <= height <= MAX_DIM,
            1 <= cell_size <= MAX_CELL,
            1 <= pixel_size <= MAX_CELL,
            -MAX_EXTENT <= root.x <= MAX_EXTENT,
            -MAX_EXTENT <= root.y <= MAX_EXTENT,
            width * cell_size <= MAX_EXTENT,
            height * cell_size <= MAX_EXTENT,
        ensures
            r.wf(),
            r.spec_width() == width,
            r.spec_height() == height,
            r.spec_cell_size() == cell_size,
            r.spec_pixel_size() == pixel_size,
            r.spec_root() == root,
            r.all_air(),
    {
        proof {
            assert(width * height <= MAX_DIM * MAX_DIM) by (nonlinear_arith)
                requires
                    1 <= width <= MAX_DIM && 1 <= height <= MAX_DIM,
            ;
        }
        let total: usize = width * height;
        let mut data: Vec<GridCell> = Vec::new();
        let mut i: usize = 0;
        while i < total
            invariant
                i <= total,
                data.len() == i,
                forall|j: int| 0 <= j < i ==> data[j] == GridCell::Air,
            decreases total - i,
        {
            data.push(GridCell::Air);
            i = i + 1;
        }
        let r = Grid { width, height, cell_size, pixel_size, root, data };
        proof {
            assert forall|x: int, y: int| !r.wall_at(x, y) by {
                if 0 <= x < width && 0 <= y < height {
                    assert(0 <= y * width + x < width * height) by (nonlinear_arith)
                        requires
                            0 <= x < width && 0 <= y < height,
                    ;
                }
            }
        }
        r
    }

    pub fn width(&self) -> (r: usize)
        ensures
            r == self.spec_width(),
    {
        self.width
    }

    pub fn height(&self) -> (r: usize)
        ensures
            r == self.spec_height(),
    {
        self.height
    }

    pub fn cell_size(&self) -> (r: i64)
        ensures
            r == self.spec_cell_size(),
    {
        self.cell_size
    }

    pub fn pixel_size(&self) -> (r: i64)
        ensures
            r == self.spec_pixel_size(),
    {
        self.pixel_size
    }

    pub fn root(&self) -> (r: Vec2i)
        ensures
            r == self.spec_root(),
    {
        self.root
    }

    /// Row-major index of `(x, y)`, or `None` when out of bounds.
    fn get_grid_pos(&self, x: usize, y: usize) -> (r: Option<usize>)
        requires
            self.wf(),
        ensures
            x < self.spec_width() && y < self.spec_height() ==> r == Some(
                (y * self.spec_width() + x) as usize,
            ) && y * self.spec_width() + x < self.spec_width() * self.spec_height(),
            !(x < self.spec_width() && y < self.spec_height()) ==> r is None,
    {
        if x >= self.width || y >= self.height {
            return None;
        }
        proof {
            assert(y * self.width + x < self.width * self.height) by (nonlinear_arith)
                requires
                    x < self.width && y < self.height,
            ;
            assert(self.width * self.height <= MAX_DIM * MAX_DIM) by (nonlinear_arith)
                requires
                    self.width <= MAX_DIM && self.height <= MAX_DIM,
            ;
        }
        Some(y * self.width + x)
    }

    /// Writes a cell; no-op returning `None` when out of bounds.
    pub fn set(&mut self, x: usize, y: usize, val: GridCell) -> (r: Option<()>)
        requires
            old(self).wf(),
        ensures
            final(self).wf(),
            final(self).same_shape(*old(self)),
            x < old(self).spec_width() && y < old(self).spec_height() ==> {
                &&& r == Some(())
                &&& final(self).cell_at(x as int, y as int) == val
                &&& forall|i: int, j: int|
                    !(i == x && j == y) ==> final(self).cell_at(i, j) == old(self).cell_at(i, j)
            },
            !(x < old(self).spec_width() && y < old(self).spec_height()) ==> {
                &&& r is None
                &&& *final(self) == *old(self)
            },
    {
        let pos = match self.get_grid_pos(x, y) {
            Some(p) => p,
            None => {
                return None;
            },
        };
        self.data.set(pos, val);
        proof {
            assert forall|i: int, j: int|
                !(i == x && j == y) implies self.cell_at(i, j) == old(self).cell_at(i, j) by {
                if 0 <= i < self.width && 0 <= j < self.height {
                    assert(0 <= j * self.width + i < self.width * self.height) by (nonlinear_arith)
                        requires
                            0 <= i < self.width && 0 <= j < self.height,
                    ;
                    assert(j * self.width + i != y * self.width + x) by (nonlinear_arith)
                        requires
                            0 <= i < self.width && 0 <= j < self.height && 0 <= x < self.width && 0
                                <= y < self.height && !(i == x && j == y),
                    ;
                }
            }
        }
        Some(())
    }

    /// Reads a cell; `None` when out of bounds.
    pub fn get(&self, x: usize, y: usize) -> (r: Option<GridCell>)
        requires
            self.wf(),
        ensures
            x < self.spec_width() && y < self.spec_height() ==> r == Some(
                self.cell_at(x as int, y as int),
            ),
            !(x < self.spec_width() && y < self.spec_height()) ==> r is None,
    {
        let pos = match self.get_grid_pos(x, y) {
            Some(p) => p,
            None => {
                return None;
            },
        };
        Some(self.data[pos])
    }

    /// True when the cell is open air; `None` when out of bounds.
    pub fn is_air(&self, x: usize, y: usize) -> (r: Option<bool>)
        requires
            self.wf(),
        ensures
            x < self.spec_width() && y < self.spec_height() ==> r == Some(
                self.cell_at(x as int, y as int) == GridCell::Air,
            ),
            !(x < self.spec_width() && y < self.spec_height()) ==> r is None,
    {
        match self.get(x, y) {
            Some(c) => Some(c == GridCell::Air),
            None => None,
        }
    }

    /// True when the cell is a wall; `None` when out of bounds.
    pub fn is_wall(&self, x: usize, y: usize) -> (r: Option<bool>)
        requires
            self.wf(),
        ensures
            x < self.spec_width() && y < self.spec_height() ==> r == Some(
                self.wall_at(x as int, y as int),
            ),
            !(x < self.spec_width() && y < self.spec_height()) ==> r is None,
    {
        match self.get(x, y) {
            Some(c) => Some(c == GridCell::Wall),
            None => None,
        }
    }

    /// World-space width of the whole grid.
    pub fn world_width(&self) -> (r: i64)
        requires
            self.wf(),
        ensures
            r == self.spec_width() * self.spec_cell_size(),
            0 < r <= MAX_EXTENT,
    {
        proof {
            assert(0 < self.width * self.cell_size) by (nonlinear_arith)
                requires
                    1 <= self.width && 1 <= self.cell_size,
            ;
        }
        (self.width as i64) * self.cell_size
    }

    /// World-space height of the whole grid.
    pub fn world_height(&self) -> (r: i64)
        requires
            self.wf(),
        ensures
            r == self.spec_height() * self.spec_cell_size(),
            0 < r <= MAX_EXTENT,
    {
        proof {
            assert(0 < self.height * self.cell_size) by (nonlinear_arith)
                requires
                    1 <= self.height && 1 <= self.cell_size,
            ;
        }
        (self.height as i64) * self.cell_size
    }

    /// The axis-aligned rectangle covering the whole grid in world space.
    pub fn bound_quad(&self) -> (r: Quad)
        requires
            self.wf(),
        ensures
            r.pos == self.spec_root(),
            r.siz.x == self.spec_width() * self.spec_cell_size(),
            r.siz.y == self.spec_height() * self.spec_cell_size(),
    {
        Quad { pos: self.root, siz: Vec2i { x: self.world_width(), y: self.world_height() } }
    }

    /// The world-space rectangle of one cell; `None` when out of bounds.
    pub fn get_cell_quad(&self, x: usize, y: usize) -> (r: Option<Quad>)
        requires
            self.wf(),
        ensures
            x < self.spec_width() && y < self.spec_height() ==> r == Some(
                Quad {
                    pos: Vec2i {
                        x: (self.spec_root().x + x * self.spec_cell_size()) as i64,
                        y: (self.spec_root().y + y * self.spec_cell_size()) as i64,
                    },
                    siz: Vec2i { x: self.spec_cell_size() as i64, y: self.spec_cell_size() as i64 },
                },
            ),
            !(x < self.spec_width() && y < self.spec_height()) ==> r is None,
    {
        if x >= self.width || y >= self.height {
            return None;
        }
        proof {
            assert(0 <= x * self.cell_size <= MAX_EXTENT && 0 <= y * self.cell_size <= MAX_EXTENT)
                by (nonlinear_arith)
                requires
                    x < self.width && y < self.height && 1 <= self.cell_size && self.width
                        * self.cell_size <= MAX_EXTENT && self.height * self.cell_size
                        <= MAX_EXTENT && self.width <= MAX_DIM && self.height <= MAX_DIM,
            ;
        }
        Some(
            Quad {
                pos: Vec2i {
                    x: self.root.x + (x as i64) * self.cell_size,
                    y: self.root.y + (y as i64) * self.cell_size,
                },
                siz: Vec2i { x: self.cell_size, y: self.cell_size },
            },
        )
    }

    /// Maps a world position to the grid cell containing it; `None` when the
    /// position lies before the anchor or beyond the far edge.
    pub fn get_from_world_pos(&self, pos: Vec2i) -> (r: Option<(usize, usize)>)
        requires
            self.wf(),
            pos.in_range(),
        ensures
            ({
                let lx = pos.x - self.spec_root().x;
                let ly = pos.y - self.spec_root().y;
                if lx < 0 || ly < 0 {
                    r is None
                } else {
                    let gx = lx / self.spec_cell_size();
                    let gy = ly / self.spec_cell_size();
                    if gx >= self.spec_width() || gy >= self.spec_height() {
                        r is None
                    } else {
                        r == Some(((gx as usize), (gy as usize)))
                    }
                }
            }),
    {
        let local_x: i64 = pos.x - self.root.x;
        let local_y: i64 = pos.y - self.root.y;
        if local_x < 0 || local_y < 0 {
            return None;
        }
        let grid_x: i64 = local_x / self.cell_size;
        let grid_y: i64 = local_y / self.cell_size;
        if grid_x >= self.width as i64 || grid_y >= self.height as i64 {
            return None;
        }
        Some((grid_x as usize, grid_y as usize))
    }
}

/// The numeric bounds that well-formedness guarantees, for callers outside
/// this module.
pub proof fn lemma_wf_bounds(g: Grid)
    requires
        g.wf(),
    ensures
        1 <= g.spec_width() <= MAX_DIM,
        1 <= g.spec_height() <= MAX_DIM,
        1 <= g.spec_cell_size() <= MAX_CELL,
        1 <= g.spec_pixel_size() <= MAX_CELL,
        -MAX_EXTENT <= g.spec_root().x <= MAX_EXTENT,
        -MAX_EXTENT <= g.spec_root().y <= MAX_EXTENT,
        g.spec_width() * g.spec_cell_size() <= MAX_EXTENT,
        g.spec_height() * g.spec_cell_size() <= MAX_EXTENT,
        1 <= g.spec_width() * g.spec_cell_size(),
        1 <= g.spec_height() * g.spec_cell_size(),
{
    assert(1 <= g.spec_width() * g.spec_cell_size() && 1 <= g.spec_height() * g.spec_cell_size())
        by (nonlinear_arith)
        requires
            1 <= g.spec_width() && 1 <= g.spec_cell_size() && 1 <= g.spec_height(),
    ;
}

/// The demonstration layout: a 19 x 15 bordered arena with two long interior
/// walls, each pierced by openings, and four short stubs.
pub fn create_grid() -> (r: Grid)
    ensures
        r.wf(),
        r.spec_width() == 19,
        r.spec_height() == 15,
        r.spec_cell_size() == 60,
        r.spec_pixel_size() == 20,
{
    let mut grid = Grid::new(19, 15, 60, 20, Vec2i { x: -600, y: -400 });

    let mut x: usize = 0;
    while x < grid.width()
        invariant
            grid.wf(),
            grid.spec_width() == 19,
            grid.spec_height() == 15,
            grid.spec_cell_size() == 60,
            grid.spec_pixel_size() == 20,
        decreases grid.spec_width() - x,
    {
        let _ = grid.set(x, 0, GridCell::Wall);
        let h = grid.height();
        let _ = grid.set(x, h - 1, GridCell::Wall);
        x = x + 1;
    }
    let mut y: usize = 0;
    while y < grid.height()
        invariant
            grid.wf(),
            grid.spec_width() == 19,
            grid.spec_height() == 15,
            grid.spec_cell_size() == 60,
            grid.spec_pixel_size() == 20,
        decreases grid.spec_height() - y,
    {
        let _ = grid.set(0, y, GridCell::Wall);
        let w = grid.width();
        let _ = grid.set(w - 1, y, GridCell::Wall);
        y = y + 1;
    }

    let mut i: usize = 1;
    while i < 18
        invariant
            grid.wf(),
            grid.spec_width() == 19,
            grid.spec_height() == 15,
            grid.spec_cell_size() == 60,
            grid.spec_pixel_size() == 20,
        decreases 18 - i,
    {
        let _ = grid.set(i, 8, GridCell::Wall);
        i = i + 1;
    }
    let mut j: usize = 1;
    while j < 14
        invariant
            grid.wf(),
            grid.spec_width() == 19,
            grid.spec_height() == 15,
            grid.spec_cell_size() == 60,
            grid.spec_pixel_size() == 20,
        decreases 14 - j,
    {
        let _ = grid.set(9, j, GridCell::Wall);
        j = j + 1;
    }

    let _ = grid.set(1, 8, GridCell::Air);
    let _ = grid.set(2, 8, GridCell::Air);
    let _ = grid.set(3, 8, GridCell::Air);
    let _ = grid.set(17, 8, GridCell::Air);
    let _ = grid.set(16, 8, GridCell::Air);
    let _ = grid.set(15, 8, GridCell::Air);
    let _ = grid.set(9, 13, GridCell::Air);
    let _ = grid.set(9, 1, GridCell::Air);
    let _ = grid.set(9, 2, GridCell::Air);
    let _ = grid.set(9, 9, GridCell::Air);
    let _ = grid.set(9, 8, GridCell::Air);
    let _ = grid.set(9, 7, GridCell::Air);

    let mut k: usize = 0;
    while k < 3
        invariant
            grid.wf(),
            grid.spec_width() == 19,
            grid.spec_height() == 15,
            grid.spec_cell_size() == 60,
            grid.spec_pixel_size() == 20,
            k <= 3,
        decreases 3 - k,
    {
        let _ = grid.set(13, 8 + k, GridCell::Wall);
        let _ = grid.set(13, 8 - k, GridCell::Wall);
        let _ = grid.set(5, 8 + k, GridCell::Wall);
        let _ = grid.set(5, 8 - k, GridCell::Wall);
        k = k + 1;
    }

    grid
}

} // verus!
