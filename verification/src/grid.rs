//! The grid store: a rectangle of tiles and the mapping between world and
//! grid coordinates.

use vstd::prelude::*;
use crate::tile::TileType;
use crate::units::{
    floor_div, lemma_floor_div, lemma_floor_div_unique, saturate, saturate_i32, GridPos, WorldPos,
};

verus! {

/// The mathematical content of a [`Grid`]: its tiles in row-major order,
/// its extent in tiles, the length of a tile edge and the world coordinates
/// of the lower corner of cell `(0, 0)`, the last three in fixed-point steps.
pub struct GridView {
    pub tiles: Seq<TileType>,
    pub width: int,
    pub height: int,
    pub tile_size: int,
    pub origin_x: int,
    pub origin_y: int,
}

impl GridView {
    /// The grid of the given shape in which every tile is `Empty`.
    pub open spec fn empty(width: int, height: int, tile_size: int, origin_x: int, origin_y: int)
        -> GridView {
        GridView {
            tiles: Seq::new((width * height) as nat, |i: int| TileType::Empty),
            width,
            height,
            tile_size,
            origin_x,
            origin_y,
        }
    }

    /// Where a grid of `extent` tiles of edge `tile_size` along one axis
    /// starts on that axis if it is centred on the world origin: at minus
    /// half its length, rounded toward the origin.
    pub open spec fn centred_origin(extent: int, tile_size: int) -> int {
        -((extent * tile_size) / 2)
    }

    /// Whether a grid of the given shape can exist: see `wf`.
    pub open spec fn fits(width: int, height: int, tile_size: int, origin_x: int, origin_y: int)
        -> bool {
        Self::empty(width, height, tile_size, origin_x, origin_y).wf()
    }

    /// World coordinate of the grid's right edge.
    pub open spec fn right(self) -> int {
        self.origin_x + self.width * self.tile_size
    }

    /// World coordinate of the grid's top edge.
    pub open spec fn top(self) -> int {
        self.origin_y + self.height * self.tile_size
    }

    /// The invariant of every grid: positive extents, one tile per cell, and
    /// a tile count and world rectangle that the machine integers can hold.
    pub open spec fn wf(self) -> bool {
        &&& self.width > 0
        &&& self.height > 0
        &&& self.tile_size > 0
        &&& self.width * self.height <= i32::MAX
        &&& self.tiles.len() == self.width * self.height
        &&& i32::MIN <= self.origin_x
        &&& i32::MIN <= self.origin_y
        &&& self.right() <= i32::MAX
        &&& self.top() <= i32::MAX
    }

    /// Whether `(x, y)` names a cell of the grid.
    pub open spec fn in_bounds(self, x: int, y: int) -> bool {
        0 <= x < self.width && 0 <= y < self.height
    }

    /// Row-major position of cell `(x, y)` in `tiles`.
    pub open spec fn index(self, x: int, y: int) -> int {
        y * self.width + x
    }

    /// The tile stored for cell `(x, y)`, if the grid has such a cell.
    pub open spec fn tile_at(self, x: int, y: int) -> Option<TileType> {
        if self.in_bounds(x, y) {
            Some(self.tiles[self.index(x, y)])
        } else {
            None
        }
    }

    /// Whether cell `(x, y)` exists and holds a walkable tile.
    pub open spec fn walkable(self, x: int, y: int) -> bool {
        match self.tile_at(x, y) {
            Some(tile) => tile.walkable(),
            None => false,
        }
    }

    /// The grid after cell `(x, y)` is given the tile `tile`; a cell outside
    /// the grid changes nothing.
    pub open spec fn with_tile(self, x: int, y: int, tile: TileType) -> GridView {
        if self.in_bounds(x, y) {
            GridView { tiles: self.tiles.update(self.index(x, y), tile), ..self }
        } else {
            self
        }
    }

    /// Column of the cell that contains world coordinate `wx`: the offset
    /// from the origin divided by the tile size, rounded down.
    pub open spec fn column_of(self, wx: int) -> int {
        (wx - self.origin_x) / self.tile_size
    }

    /// Row of the cell that contains world coordinate `wy`.
    pub open spec fn row_of(self, wy: int) -> int {
        (wy - self.origin_y) / self.tile_size
    }

    /// World coordinate of the lower edge of column `gx`.
    pub open spec fn column_start(self, gx: int) -> int {
        self.origin_x + gx * self.tile_size
    }

    /// World coordinate of the lower edge of row `gy`.
    pub open spec fn row_start(self, gy: int) -> int {
        self.origin_y + gy * self.tile_size
    }

    /// Whether the cell under the world point `(wx, wy)` exists and is
    /// walkable.
    pub open spec fn walkable_at(self, wx: int, wy: int) -> bool {
        self.walkable(self.column_of(wx), self.row_of(wy))
    }
}

/// A fixed-size rectangle of tiles laid over the world.
///
/// Cell `(x, y)` covers the world square whose lower corner is
/// `origin + (x, y) * tile_size`, lower edges included and upper edges
/// excluded. Lengths and world coordinates are in fixed-point steps.
pub struct Grid {
    tiles: Vec<TileType>,
    width: i32,
    height: i32,
    tile_size: i32,
    grid_origin_x: i32,
    grid_origin_y: i32,
}

impl View for Grid {
    type V = GridView;

    closed spec fn view(&self) -> GridView {
        GridView {
            tiles: self.tiles@,
            width: self.width as int,
            height: self.height as int,
            tile_size: self.tile_size as int,
            origin_x: self.grid_origin_x as int,
            origin_y: self.grid_origin_y as int,
        }
    }
}

/// Neither extent of a grid exceeds its cell count, and every cell has its
/// place in the tile sequence.
pub(crate) proof fn lemma_cell_count(width: int, height: int)
    requires
        width > 0,
        height > 0,
    ensures
        width <= width * height,
        height <= width * height,
        forall|x: int, y: int|
            0 <= x < width && 0 <= y < height ==> 0 <= #[trigger] (y * width + x) < width * height,
{
    assert(width <= width * height && height <= width * height) by (nonlinear_arith)
        requires
            width > 0,
            height > 0,
    ;
    assert forall|x: int, y: int| 0 <= x < width && 0 <= y < height implies 0 <= #[trigger] (y
        * width + x) < width * height by {
        assert(0 <= y * width + x < width * height) by (nonlinear_arith)
            requires
                0 <= x < width,
                0 <= y < height,
        ;
    }
}

/// A grid that starts at its centred origin has the world origin at its
/// centre: its two edges on an axis lie equally far from zero, or the upper
/// one a single step farther.
pub proof fn lemma_centred_origin_centres(extent: int, tile_size: int)
    ensures
        ({
            let low = GridView::centred_origin(extent, tile_size);
            let high = low + extent * tile_size;
            -low <= high <= -low + 1
        }),
{
}

/// Every cell of a grid that was just made holds an `Empty` tile and can be
/// walked on.
pub proof fn lemma_empty_grid_is_walkable(
    width: int,
    height: int,
    tile_size: int,
    origin_x: int,
    origin_y: int,
    x: int,
    y: int,
)
    requires
        0 <= x < width,
        0 <= y < height,
    ensures
        ({
            let grid = GridView::empty(width, height, tile_size, origin_x, origin_y);
            &&& grid.tile_at(x, y) == Some(TileType::Empty)
            &&& grid.walkable(x, y)
        }),
{
    lemma_cell_count(width, height);
    assert(0 <= y * width + x < width * height);
}

/// Two cells of a grid that share a place in the row-major tile sequence
/// are the same cell.
pub proof fn lemma_index_is_one_to_one(grid: GridView, x: int, y: int, qx: int, qy: int)
    requires
        grid.in_bounds(x, y),
        grid.in_bounds(qx, qy),
        grid.index(x, y) == grid.index(qx, qy),
    ensures
        x == qx,
        y == qy,
{
    let w = grid.width;
    assert(y == qy) by (nonlinear_arith)
        requires
            0 <= x < w,
            0 <= qx < w,
            y * w + x == qy * w + qx,
    ;
}

/// Storing a tile keeps the grid well formed, is read back from the cell it
/// was stored in, and leaves every other cell as it was.
pub proof fn lemma_with_tile(grid: GridView, x: int, y: int, tile: TileType, qx: int, qy: int)
    requires
        grid.wf(),
    ensures
        grid.with_tile(x, y, tile).wf(),
        grid.in_bounds(x, y) ==> grid.with_tile(x, y, tile).tile_at(x, y) == Some(tile),
        (qx, qy) != (x, y) ==> grid.with_tile(x, y, tile).tile_at(qx, qy) == grid.tile_at(qx, qy),
{
    lemma_cell_count(grid.width, grid.height);
    if grid.in_bounds(x, y) {
        assert(0 <= grid.index(x, y) < grid.tiles.len());
        if grid.in_bounds(qx, qy) && (qx, qy) != (x, y) {
            assert(0 <= grid.index(qx, qy) < grid.tiles.len());
            if grid.index(x, y) == grid.index(qx, qy) {
                lemma_index_is_one_to_one(grid, x, y, qx, qy);
            }
        }
    }
}

/// A world point inside the square of cell `(gx, gy)`, lower edges included
/// and upper edges excluded, lies in column `gx` and row `gy`; and where
/// `gx` and `gy` fit in an `i32`, as those of every cell of a grid do, they
/// are reported as they are.
pub proof fn lemma_world_to_grid_round_trip(grid: GridView, gx: int, gy: int, wx: int, wy: int)
    requires
        grid.tile_size > 0,
        grid.column_start(gx) <= wx < grid.column_start(gx + 1),
        grid.row_start(gy) <= wy < grid.row_start(gy + 1),
    ensures
        grid.column_of(wx) == gx,
        grid.row_of(wy) == gy,
        i32::MIN <= gx <= i32::MAX ==> saturate_i32(grid.column_of(wx)) == gx,
        i32::MIN <= gy <= i32::MAX ==> saturate_i32(grid.row_of(wy)) == gy,
{
    let t = grid.tile_size;
    assert((gx + 1) * t == gx * t + t) by (nonlinear_arith);
    assert((gy + 1) * t == gy * t + t) by (nonlinear_arith);
    lemma_floor_div_unique(wx - grid.origin_x, t, gx);
    lemma_floor_div_unique(wy - grid.origin_y, t, gy);
}

/// Every world point lies in the square of the cell that it is mapped to.
pub proof fn lemma_cell_contains_point(grid: GridView, wx: int, wy: int)
    requires
        grid.tile_size > 0,
    ensures
        grid.column_start(grid.column_of(wx)) <= wx < grid.column_start(grid.column_of(wx) + 1),
        grid.row_start(grid.row_of(wy)) <= wy < grid.row_start(grid.row_of(wy) + 1),
{
    let t = grid.tile_size;
    let gx = grid.column_of(wx);
    let gy = grid.row_of(wy);
    assert((gx + 1) * t == gx * t + t) by (nonlinear_arith);
    assert((gy + 1) * t == gy * t + t) by (nonlinear_arith);
    lemma_floor_div(wx - grid.origin_x, t);
    lemma_floor_div(wy - grid.origin_y, t);
}

/// The cell under a world point is a cell of the grid exactly when the point
/// lies in the grid's world rectangle, lower edges included and upper edges
/// excluded.
pub proof fn lemma_point_in_grid(grid: GridView, wx: int, wy: int)
    requires
        grid.wf(),
    ensures
        grid.in_bounds(grid.column_of(wx), grid.row_of(wy)) <==> grid.origin_x <= wx < grid.right()
            && grid.origin_y <= wy < grid.top(),
{
    let t = grid.tile_size;
    let gx = grid.column_of(wx);
    let gy = grid.row_of(wy);
    let w = grid.width;
    let h = grid.height;
    lemma_cell_contains_point(grid, wx, wy);
    assert((gx >= 0 <==> gx * t >= 0) && (gx >= 0 <==> gx * t + t > 0) && (gx < w <==> gx * t < w
        * t) && (gx < w <==> gx * t + t <= w * t)) by (nonlinear_arith)
        requires
            t > 0,
    ;
    assert((gy >= 0 <==> gy * t >= 0) && (gy >= 0 <==> gy * t + t > 0) && (gy < h <==> gy * t < h
        * t) && (gy < h <==> gy * t + t <= h * t)) by (nonlinear_arith)
        requires
            t > 0,
    ;
    assert((gx + 1) * t == gx * t + t) by (nonlinear_arith);
    assert((gy + 1) * t == gy * t + t) by (nonlinear_arith);
}

impl Grid {
    #[verifier::type_invariant]
    spec fn inv(self) -> bool {
        self@.wf()
    }

    /// Builds `width * height` tiles, all `Empty`.
    fn empty_tiles(width: i32, height: i32) -> (tiles: Vec<TileType>)
        requires
            width > 0,
            height > 0,
            width * height <= i32::MAX,
        ensures
            tiles@ == Seq::new((width * height) as nat, |i: int| TileType::Empty),
    {
        proof {
            lemma_cell_count(width as int, height as int);
        }
        let count: usize = (width as i64 * height as i64) as usize;
        let mut tiles: Vec<TileType> = Vec::new();
        let mut i: usize = 0;
        while i < count
            invariant
                i <= count,
                tiles@ =~= Seq::new(i as nat, |j: int| TileType::Empty),
            decreases count - i,
        {
            tiles.push(TileType::Empty);
            i = i + 1;
        }
        tiles
    }

    /// Whether a grid of the given shape can be made: positive extents and
    /// tile size, at most `i32::MAX` cells, and a world rectangle whose
    /// corners are world positions.
    pub fn fits(width: i32, height: i32, tile_size: i32, origin_x: i32, origin_y: i32) -> (res: bool)
        ensures
            res == GridView::fits(
                width as int,
                height as int,
                tile_size as int,
                origin_x as int,
                origin_y as int,
            ),
    {
        if width <= 0 || height <= 0 || tile_size <= 0 {
            return false;
        }
        proof {
            assert(0 < width * height <= 0x8000_0000 * 0x8000_0000 && 0 < width * tile_size
                <= 0x8000_0000 * 0x8000_0000 && 0 < height * tile_size <= 0x8000_0000
                * 0x8000_0000) by (nonlinear_arith)
                requires
                    0 < width <= 0x8000_0000,
                    0 < height <= 0x8000_0000,
                    0 < tile_size <= 0x8000_0000,
            ;
        }
        let limit: i64 = i32::MAX as i64;
        width as i64 * height as i64 <= limit && origin_x as i64 + width as i64 * tile_size as i64
            <= limit && origin_y as i64 + height as i64 * tile_size as i64 <= limit
    }

    /// Whether a grid of the given shape can be made around the world
    /// origin.
    pub fn fits_centred(width: i32, height: i32, tile_size: i32) -> (res: bool)
        ensures
            res == GridView::fits(
                width as int,
                height as int,
                tile_size as int,
                GridView::centred_origin(width as int, tile_size as int),
                GridView::centred_origin(height as int, tile_size as int),
            ),
    {
        if width <= 0 || height <= 0 || tile_size <= 0 {
            return false;
        }
        proof {
            assert(0 < width * height <= 0x8000_0000 * 0x8000_0000 && 0 < width * tile_size
                <= 0x8000_0000 * 0x8000_0000 && 0 < height * tile_size <= 0x8000_0000
                * 0x8000_0000) by (nonlinear_arith)
                requires
                    0 < width <= 0x8000_0000,
                    0 < height <= 0x8000_0000,
                    0 < tile_size <= 0x8000_0000,
            ;
        }
        let limit: i64 = i32::MAX as i64;
        let length_x: i64 = width as i64 * tile_size as i64;
        let length_y: i64 = height as i64 * tile_size as i64;
        width as i64 * height as i64 <= limit && length_x - length_x / 2 <= limit && length_y
            - length_y / 2 <= limit
    }

    /// Creates a grid of `Empty` tiles whose centre lies at the world origin:
    /// cell `(0, 0)` starts at minus half the grid's extent on each axis.
    /// The shape must be one that `fits_centred`.
    pub fn new(width: i32, height: i32, tile_size: i32) -> (grid: Grid)
        requires
            GridView::fits(
                width as int,
                height as int,
                tile_size as int,
                GridView::centred_origin(width as int, tile_size as int),
                GridView::centred_origin(height as int, tile_size as int),
            ),
        ensures
            grid@ == GridView::empty(
                width as int,
                height as int,
                tile_size as int,
                GridView::centred_origin(width as int, tile_size as int),
                GridView::centred_origin(height as int, tile_size as int),
            ),
            grid@.wf(),
    {
        let tiles = Self::empty_tiles(width, height);
        proof {
            assert(0 < width * tile_size <= 0x8000_0000 * 0x8000_0000 && 0 < height * tile_size
                <= 0x8000_0000 * 0x8000_0000) by (nonlinear_arith)
                requires
                    0 < width <= 0x8000_0000,
                    0 < height <= 0x8000_0000,
                    0 < tile_size <= 0x8000_0000,
            ;
        }
        let grid_origin_x: i32 = (-((width as i64 * tile_size as i64) / 2)) as i32;
        let grid_origin_y: i32 = (-((height as i64 * tile_size as i64) / 2)) as i32;
        Grid { tiles, width, height, tile_size, grid_origin_x, grid_origin_y }
    }

    /// Creates a grid of `Empty` tiles whose cell `(0, 0)` has its lower
    /// corner at the world point `(origin_x, origin_y)`. The shape must be
    /// one that `fits`.
    pub fn with_origin(width: i32, height: i32, tile_size: i32, origin_x: i32, origin_y: i32) -> (grid:
        Grid)
        requires
            GridView::fits(
                width as int,
                height as int,
                tile_size as int,
                origin_x as int,
                origin_y as int,
            ),
        ensures
            grid@ == GridView::empty(
                width as int,
                height as int,
                tile_size as int,
                origin_x as int,
                origin_y as int,
            ),
            grid@.wf(),
    {
        let tiles = Self::empty_tiles(width, height);
        Grid { tiles, width, height, tile_size, grid_origin_x: origin_x, grid_origin_y: origin_y }
    }

    /// Number of columns.
    pub fn width(&self) -> (w: i32)
        ensures
            w == self@.width,
            self@.wf(),
    {
        proof {
            use_type_invariant(self);
        }
        self.width
    }

    /// Number of rows.
    pub fn height(&self) -> (h: i32)
        ensures
            h == self@.height,
            self@.wf(),
    {
        proof {
            use_type_invariant(self);
        }
        self.height
    }

    /// Length of a tile edge, in fixed-point steps.
    pub fn tile_size(&self) -> (s: i32)
        ensures
            s == self@.tile_size,
            self@.wf(),
    {
        proof {
            use_type_invariant(self);
        }
        self.tile_size
    }

    /// World position of the lower corner of cell `(0, 0)`.
    pub fn origin(&self) -> (p: WorldPos)
        ensures
            p.x == self@.origin_x,
            p.y == self@.origin_y,
            self@.wf(),
    {
        proof {
            use_type_invariant(self);
        }
        WorldPos { x: self.grid_origin_x, y: self.grid_origin_y }
    }

    /// The tiles in row-major order.
    pub fn tiles(&self) -> (tiles: &Vec<TileType>)
        ensures
            tiles@ == self@.tiles,
            self@.wf(),
    {
        proof {
            use_type_invariant(self);
        }
        &self.tiles
    }

    /// Position of cell `(x, y)` in the row-major tile sequence. The cell
    /// must lie inside the grid.
    pub fn xy_idx(&self, x: i32, y: i32) -> (idx: usize)
        requires
            self@.in_bounds(x as int, y as int),
        ensures
            idx == self@.index(x as int, y as int),
            idx < self@.tiles.len(),
    {
        proof {
            use_type_invariant(self);
            lemma_cell_count(self.width as int, self.height as int);
            assert(0 <= y * self.width + x < self.width * self.height);
            assert(0 <= y * self.width) by (nonlinear_arith)
                requires
                    0 <= y,
                    0 < self.width,
            ;
        }
        (y as usize * self.width as usize) + x as usize
    }

    /// Whether `(x, y)` names a cell of the grid.
    pub fn in_bounds(&self, x: i32, y: i32) -> (res: bool)
        ensures
            res == self@.in_bounds(x as int, y as int),
    {
        x >= 0 && x < self.width && y >= 0 && y < self.height
    }

    /// The tile of cell `(x, y)`, or `None` outside the grid.
    pub fn get_tile(&self, x: i32, y: i32) -> (tile: Option<TileType>)
        ensures
            tile == self@.tile_at(x as int, y as int),
    {
        if self.in_bounds(x, y) {
            let idx = self.xy_idx(x, y);
            Some(self.tiles[idx])
        } else {
            None
        }
    }

    /// Whether cell `(x, y)` can be walked on. A cell outside the grid never
    /// can.
    pub fn is_walkable(&self, x: i32, y: i32) -> (res: bool)
        ensures
            res == self@.walkable(x as int, y as int),
            !self@.in_bounds(x as int, y as int) ==> !res,
    {
        if !self.in_bounds(x, y) {
            return false;
        }
        let idx = self.xy_idx(x, y);
        self.tiles[idx].is_walkable()
    }

    /// Stores `tile_type` in cell `(x, y)`. A cell outside the grid is
    /// ignored and the grid stays as it was.
    pub fn set_tile(&mut self, x: i32, y: i32, tile_type: TileType)
        ensures
            final(self)@ == old(self)@.with_tile(x as int, y as int, tile_type),
            final(self)@.wf(),
    {
        proof {
            use_type_invariant(&*self);
        }
        if !self.in_bounds(x, y) {
            return;
        }
        let idx = self.xy_idx(x, y);
        self.tiles[idx] = tile_type;
    }

    /// The cell that contains the world point `world_pos`. A point on the
    /// boundary between two cells belongs to the one with the higher
    /// coordinate. A cell coordinate too large for `i32` is reported as the
    /// nearest `i32`, which lies outside every grid.
    pub fn world_to_grid(&self, world_pos: WorldPos) -> (cell: GridPos)
        ensures
            cell.x == saturate_i32(self@.column_of(world_pos.x as int)),
            cell.y == saturate_i32(self@.row_of(world_pos.y as int)),
            cell.x == self@.column_of(world_pos.x as int) ==> self@.column_start(cell.x as int)
                <= world_pos.x < self@.column_start(cell.x + 1),
            cell.y == self@.row_of(world_pos.y as int) ==> self@.row_start(cell.y as int)
                <= world_pos.y < self@.row_start(cell.y + 1),
    {
        proof {
            use_type_invariant(self);
            lemma_cell_contains_point(self@, world_pos.x as int, world_pos.y as int);
        }
        let relative_x: i64 = world_pos.x as i64 - self.grid_origin_x as i64;
        let relative_y: i64 = world_pos.y as i64 - self.grid_origin_y as i64;
        GridPos {
            x: saturate(floor_div(relative_x, self.tile_size as i64)),
            y: saturate(floor_div(relative_y, self.tile_size as i64)),
        }
    }

    /// Whether the cell under the world point `world_pos` exists and can be
    /// walked on.
    pub fn is_world_pos_walkable(&self, world_pos: WorldPos) -> (res: bool)
        ensures
            res == self@.walkable_at(world_pos.x as int, world_pos.y as int),
    {
        let grid_pos = self.world_to_grid(world_pos);
        self.is_walkable(grid_pos.x, grid_pos.y)
    }

    /// Whether the cell under the world point `(wx, wy)` exists and can be
    /// walked on, for coordinates that may lie beyond those that a
    /// [`WorldPos`] can hold.
    pub(crate) fn is_walkable_at(&self, wx: i64, wy: i64) -> (res: bool)
        requires
            -0x1000_0000_0000_0000 <= wx <= 0x1000_0000_0000_0000,
            -0x1000_0000_0000_0000 <= wy <= 0x1000_0000_0000_0000,
        ensures
            res == self@.walkable_at(wx as int, wy as int),
    {
        proof {
            use_type_invariant(self);
        }
        let column: i64 = floor_div(wx - self.grid_origin_x as i64, self.tile_size as i64);
        let row: i64 = floor_div(wy - self.grid_origin_y as i64, self.tile_size as i64);
        self.is_walkable(saturate(column), saturate(row))
    }
}

} // verus!
