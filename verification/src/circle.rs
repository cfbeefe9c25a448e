//! The circle-against-grid collision test.
//!
//! A circular collider is clear at a point when its bounding square lies
//! inside the grid and no blocking tile comes within its radius.

use vstd::prelude::*;
use crate::grid::{lemma_cell_count, lemma_point_in_grid, Grid, GridView};
use crate::tile::TileType;
use crate::units::{
    floor_div, lemma_floor_div, lemma_floor_div_monotone, lemma_floor_div_unique, WorldPos,
};

verus! {

/// `v` moved to the nearest value in `[lo, hi]`.
pub open spec fn clamp(v: int, lo: int, hi: int) -> int {
    if v < lo {
        lo
    } else if v > hi {
        hi
    } else {
        v
    }
}

impl GridView {
    /// Whether the square of half-width `r` around `(cx, cy)` lies within
    /// the world rectangle that the grid covers.
    pub open spec fn within_bounds(self, cx: int, cy: int, r: int) -> bool {
        &&& cx - r >= self.origin_x
        &&& cx + r <= self.right()
        &&& cy - r >= self.origin_y
        &&& cy + r <= self.top()
    }

    /// Squared distance from `(cx, cy)` to the closest point of the square
    /// that cell `(gx, gy)` covers.
    pub open spec fn distance_sq_to_cell(self, cx: int, cy: int, gx: int, gy: int) -> int {
        let nx = clamp(cx, self.column_start(gx), self.column_start(gx) + self.tile_size);
        let ny = clamp(cy, self.row_start(gy), self.row_start(gy) + self.tile_size);
        (cx - nx) * (cx - nx) + (cy - ny) * (cy - ny)
    }

    /// Whether the circle of radius `r` around `(cx, cy)` reaches the square
    /// of cell `(gx, gy)`.
    pub open spec fn circle_touches_cell(self, cx: int, cy: int, r: int, gx: int, gy: int) -> bool {
        self.distance_sq_to_cell(cx, cy, gx, gy) <= r * r
    }

    /// The radius at which a collider of radius `r` is tested against a tile
    /// of kind `tile`: a shoreline tile widens it by a tenth of a tile.
    pub open spec fn effective_radius(self, tile: TileType, r: int) -> int {
        if tile is Shore {
            r + self.tile_size / 10
        } else {
            r
        }
    }

    /// Whether `tile`, placed in cell `(gx, gy)`, stops a collider of radius
    /// `r` centred at `(cx, cy)`: the tile blocks movement, the circle
    /// reaches its square, and so does the circle of the effective radius.
    pub open spec fn tile_blocks_circle(
        self,
        tile: TileType,
        cx: int,
        cy: int,
        r: int,
        gx: int,
        gy: int,
    ) -> bool {
        &&& !tile.walkable()
        &&& self.circle_touches_cell(cx, cy, r, gx, gy)
        &&& self.circle_touches_cell(cx, cy, self.effective_radius(tile, r), gx, gy)
    }

    /// Whether cell `(gx, gy)` lets a collider of radius `r` centred at
    /// `(cx, cy)` pass: the cell exists and its tile does not stop the
    /// collider.
    pub open spec fn cell_admits_circle(self, cx: int, cy: int, r: int, gx: int, gy: int) -> bool {
        match self.tile_at(gx, gy) {
            Some(tile) => !self.tile_blocks_circle(tile, cx, cy, r, gx, gy),
            None => false,
        }
    }

    /// Whether a circular collider of radius `r` centred at `(cx, cy)` is
    /// free of obstacles.
    ///
    /// The collider's bounding square must lie within the grid's world
    /// rectangle. A collider without extent is judged by the tile under its
    /// centre. Otherwise every cell from the one under the square's lower
    /// corner to the one under its upper corner must admit the circle.
    pub open spec fn clear_circle(self, cx: int, cy: int, r: int) -> bool {
        &&& self.within_bounds(cx, cy, r)
        &&& if r <= 0 {
            self.walkable_at(cx, cy)
        } else {
            forall|gx: int, gy: int|
                self.column_of(cx - r) <= gx <= self.column_of(cx + r) && self.row_of(cy - r) <= gy
                    <= self.row_of(cy + r) ==> #[trigger] self.cell_admits_circle(
                    cx,
                    cy,
                    r,
                    gx,
                    gy,
                )
        }
    }
}

/// The square of a number between `-bound` and `bound` is at most the
/// square of `bound`.
proof fn lemma_square_bound(v: int, bound: int)
    requires
        -bound <= v <= bound,
    ensures
        0 <= v * v <= bound * bound,
{
    assert(0 <= v * v <= bound * bound) by (nonlinear_arith)
        requires
            -bound <= v <= bound,
    ;
}

/// A clear collider lies inside the grid: its centre is a point of the
/// grid's world rectangle, and if it has extent, so is the whole of its
/// bounding square.
pub proof fn lemma_clear_circle_is_inside(grid: GridView, cx: int, cy: int, r: int)
    requires
        grid.wf(),
        grid.clear_circle(cx, cy, r),
    ensures
        grid.origin_x <= cx < grid.right(),
        grid.origin_y <= cy < grid.top(),
        r > 0 ==> grid.origin_x <= cx - r && cx + r < grid.right(),
        r > 0 ==> grid.origin_y <= cy - r && cy + r < grid.top(),
{
    if r <= 0 {
        lemma_point_in_grid(grid, cx, cy);
    } else {
        let gx = grid.column_of(cx + r);
        let gy = grid.row_of(cy + r);
        lemma_floor_div_monotone(cx - r - grid.origin_x, cx + r - grid.origin_x, grid.tile_size);
        lemma_floor_div_monotone(cy - r - grid.origin_y, cy + r - grid.origin_y, grid.tile_size);
        assert(grid.cell_admits_circle(cx, cy, r, gx, gy));
        lemma_point_in_grid(grid, cx + r, cy + r);
    }
}

/// A collider of radius zero or less is clear exactly where the point at
/// its centre is walkable.
pub proof fn lemma_point_collider_is_a_point(grid: GridView, cx: int, cy: int, r: int)
    requires
        grid.wf(),
        r <= 0,
    ensures
        grid.clear_circle(cx, cy, r) == grid.walkable_at(cx, cy),
{
    lemma_point_in_grid(grid, cx, cy);
}

/// The wider radius for shoreline tiles never decides: a shoreline tile can
/// be walked on, so no tile that blocks movement is tested at any radius
/// but the collider's own.
pub proof fn lemma_only_blocking_tiles_stop_circles(
    grid: GridView,
    tile: TileType,
    cx: int,
    cy: int,
    r: int,
    gx: int,
    gy: int,
)
    ensures
        grid.tile_blocks_circle(tile, cx, cy, r, gx, gy) == (!tile.walkable()
            && grid.circle_touches_cell(cx, cy, r, gx, gy)),
{
}

/// A cell whose square comes closer to the centre than the radius lies
/// among the cells that the circle test visits.
proof fn lemma_near_cell_is_visited(grid: GridView, cx: int, cy: int, r: int, gx: int, gy: int)
    requires
        grid.tile_size > 0,
        r > 0,
        grid.distance_sq_to_cell(cx, cy, gx, gy) < r * r,
    ensures
        grid.column_of(cx - r) <= gx <= grid.column_of(cx + r),
        grid.row_of(cy - r) <= gy <= grid.row_of(cy + r),
{
    let t = grid.tile_size;
    let nx = clamp(cx, grid.column_start(gx), grid.column_start(gx) + t);
    let ny = clamp(cy, grid.row_start(gy), grid.row_start(gy) + t);
    let dx = cx - nx;
    let dy = cy - ny;
    assert(-r < dx < r && -r < dy < r) by (nonlinear_arith)
        requires
            dx * dx + dy * dy < r * r,
            r > 0,
    ;
    lemma_floor_div(cx - r - grid.origin_x, t);
    lemma_floor_div(cx + r - grid.origin_x, t);
    lemma_floor_div(cy - r - grid.origin_y, t);
    lemma_floor_div(cy + r - grid.origin_y, t);
    let low_x = grid.column_of(cx - r);
    let high_x = grid.column_of(cx + r);
    let low_y = grid.row_of(cy - r);
    let high_y = grid.row_of(cy + r);
    assert(low_x <= gx) by (nonlinear_arith)
        requires
            low_x * t <= cx - r - grid.origin_x,
            cx - r - grid.origin_x < gx * t + t,
            t > 0,
    ;
    assert(gx <= high_x) by (nonlinear_arith)
        requires
            gx * t < cx + r - grid.origin_x,
            cx + r - grid.origin_x < high_x * t + t,
            t > 0,
    ;
    assert(low_y <= gy) by (nonlinear_arith)
        requires
            low_y * t <= cy - r - grid.origin_y,
            cy - r - grid.origin_y < gy * t + t,
            t > 0,
    ;
    assert(gy <= high_y) by (nonlinear_arith)
        requires
            gy * t < cy + r - grid.origin_y,
            cy + r - grid.origin_y < high_y * t + t,
            t > 0,
    ;
}

/// A clear collider overlaps no blocking tile: the square of every tile
/// that blocks movement is at least the radius away from its centre.
pub proof fn lemma_clear_circle_overlaps_nothing(
    grid: GridView,
    cx: int,
    cy: int,
    r: int,
    gx: int,
    gy: int,
)
    requires
        grid.wf(),
        r > 0,
        grid.clear_circle(cx, cy, r),
        grid.in_bounds(gx, gy),
        !grid.walkable(gx, gy),
    ensures
        grid.distance_sq_to_cell(cx, cy, gx, gy) >= r * r,
{
    if grid.distance_sq_to_cell(cx, cy, gx, gy) < r * r {
        lemma_near_cell_is_visited(grid, cx, cy, r, gx, gy);
        assert(grid.cell_admits_circle(cx, cy, r, gx, gy));
    }
}

/// A collider whose bounding square lies in the grid, short of its upper
/// edges, and whose radius is less than the distance to the square of
/// every blocking tile, is clear.
pub proof fn lemma_free_circle_is_clear(grid: GridView, cx: int, cy: int, r: int)
    requires
        grid.wf(),
        r > 0,
        grid.origin_x <= cx - r && cx + r < grid.right(),
        grid.origin_y <= cy - r && cy + r < grid.top(),
        forall|gx: int, gy: int|
            grid.in_bounds(gx, gy) && !grid.walkable(gx, gy) ==> #[trigger] grid.distance_sq_to_cell(
                cx,
                cy,
                gx,
                gy,
            ) > r * r,
    ensures
        grid.clear_circle(cx, cy, r),
{
    lemma_point_in_grid(grid, cx - r, cy - r);
    lemma_point_in_grid(grid, cx + r, cy + r);
    assert forall|gx: int, gy: int|
        grid.column_of(cx - r) <= gx <= grid.column_of(cx + r) && grid.row_of(cy - r) <= gy
            <= grid.row_of(cy + r) implies #[trigger] grid.cell_admits_circle(cx, cy, r, gx, gy) by {
        assert(grid.in_bounds(gx, gy));
        if !grid.walkable(gx, gy) {
            assert(grid.distance_sq_to_cell(cx, cy, gx, gy) > r * r);
        }
    }
}

impl Grid {
    /// Whether the square of half-width `radius_world` around `world_pos`
    /// lies within the grid's world rectangle.
    fn is_world_pos_within_bounds(&self, world_pos: WorldPos, radius_world: i32) -> (res:
        bool)
        ensures
            res == self@.within_bounds(world_pos.x as int, world_pos.y as int, radius_world as int),
    {
        let origin = self.origin();
        let left: i64 = origin.x as i64;
        let right: i64 = origin.x as i64 + self.width() as i64 * self.tile_size() as i64;
        let bottom: i64 = origin.y as i64;
        let top: i64 = origin.y as i64 + self.height() as i64 * self.tile_size() as i64;
        let x: i64 = world_pos.x as i64;
        let y: i64 = world_pos.y as i64;
        let r: i64 = radius_world as i64;
        x - r >= left && x + r <= right && y - r >= bottom && y + r <= top
    }

    /// Whether the circle of radius `radius` around `center` reaches the
    /// square of cell `(gx, gy)`.
    fn circle_intersects_tile(&self, center: WorldPos, radius: i64, gx: i32, gy: i32) -> (res:
        bool)
        requires
            0 <= radius <= 0x1_0000_0000,
            self@.in_bounds(gx as int, gy as int),
        ensures
            res == self@.circle_touches_cell(
                center.x as int,
                center.y as int,
                radius as int,
                gx as int,
                gy as int,
            ),
    {
        let origin = self.origin();
        let tile_size: i64 = self.tile_size() as i64;
        proof {
            let view = self@;
            assert(0 <= gx * view.tile_size <= view.width * view.tile_size) by (nonlinear_arith)
                requires
                    0 <= gx < view.width,
                    view.tile_size > 0,
            ;
            assert(0 <= gy * view.tile_size <= view.height * view.tile_size) by (nonlinear_arith)
                requires
                    0 <= gy < view.height,
                    view.tile_size > 0,
            ;
        }
        let min_x: i64 = origin.x as i64 + gx as i64 * tile_size;
        let min_y: i64 = origin.y as i64 + gy as i64 * tile_size;
        let max_x: i64 = min_x + tile_size;
        let max_y: i64 = min_y + tile_size;
        let x: i64 = center.x as i64;
        let y: i64 = center.y as i64;
        let near_x: i64 = if x < min_x {
            min_x
        } else if x > max_x {
            max_x
        } else {
            x
        };
        let near_y: i64 = if y < min_y {
            min_y
        } else if y > max_y {
            max_y
        } else {
            y
        };
        let dx: i128 = (x - near_x) as i128;
        let dy: i128 = (y - near_y) as i128;
        let r: i128 = radius as i128;
        proof {
            lemma_square_bound(dx as int, 0x2_0000_0000);
            lemma_square_bound(dy as int, 0x2_0000_0000);
            lemma_square_bound(r as int, 0x1_0000_0000);
        }
        dx * dx + dy * dy <= r * r
    }

    /// Whether cell `(gx, gy)` exists and its tile does not stop a collider
    /// of radius `radius` centred at `center`.
    fn cell_admits_circle(&self, center: WorldPos, radius: i32, gx: i32, gy: i32) -> (res: bool)
        requires
            radius > 0,
        ensures
            res == self@.cell_admits_circle(
                center.x as int,
                center.y as int,
                radius as int,
                gx as int,
                gy as int,
            ),
    {
        match self.get_tile(gx, gy) {
            None => false,
            Some(t) => {
                if !t.is_walkable() && self.circle_intersects_tile(center, radius as i64, gx, gy) {
                    let effective_radius: i64 = if t == TileType::Shore {
                        radius as i64 + (self.tile_size() / 10) as i64
                    } else {
                        radius as i64
                    };
                    !self.circle_intersects_tile(center, effective_radius, gx, gy)
                } else {
                    true
                }
            },
        }
    }

    /// Whether a circular collider of radius `radius_world` centred at
    /// `world_pos` is free of obstacles: it lies inside the grid and no
    /// blocking tile comes within its radius. Everything outside the grid
    /// counts as solid, and a radius of zero or less tests the centre point
    /// alone.
    pub fn is_world_pos_clear_circle(&self, world_pos: WorldPos, radius_world: i32) -> (res: bool)
        ensures
            res == self@.clear_circle(world_pos.x as int, world_pos.y as int, radius_world as int),
    {
        if !self.is_world_pos_within_bounds(world_pos, radius_world) {
            return false;
        }
        if radius_world <= 0 {
            return self.is_world_pos_walkable(world_pos);
        }
        let ghost view = self@;
        let ghost cx = world_pos.x as int;
        let ghost cy = world_pos.y as int;
        let ghost r = radius_world as int;
        let origin = self.origin();
        let tile_size: i64 = self.tile_size() as i64;
        let x: i64 = world_pos.x as i64 - origin.x as i64;
        let y: i64 = world_pos.y as i64 - origin.y as i64;
        let reach: i64 = radius_world as i64;
        let min_gx: i64 = floor_div(x - reach, tile_size);
        let max_gx: i64 = floor_div(x + reach, tile_size);
        let min_gy: i64 = floor_div(y - reach, tile_size);
        let max_gy: i64 = floor_div(y + reach, tile_size);
        proof {
            lemma_cell_count(view.width, view.height);
            lemma_floor_div((x - reach) as int, tile_size as int);
            lemma_floor_div((y - reach) as int, tile_size as int);
            lemma_floor_div_unique(view.width * view.tile_size, view.tile_size, view.width);
            lemma_floor_div_unique(view.height * view.tile_size, view.tile_size, view.height);
            lemma_floor_div_monotone((x + reach) as int, view.width * view.tile_size, view.tile_size);
            lemma_floor_div_monotone((y + reach) as int, view.height * view.tile_size, view.tile_size);
            lemma_floor_div_monotone((x - reach) as int, (x + reach) as int, view.tile_size);
            lemma_floor_div_monotone((y - reach) as int, (y + reach) as int, view.tile_size);
            assert(min_gx == view.column_of(cx - r));
            assert(max_gx == view.column_of(cx + r));
            assert(min_gy == view.row_of(cy - r));
            assert(max_gy == view.row_of(cy + r));
        }
        let mut gy: i64 = min_gy;
        while gy <= max_gy
            invariant
                self@ == view,
                cx == world_pos.x as int,
                cy == world_pos.y as int,
                r == radius_world as int,
                radius_world > 0,
                0 <= min_gx <= max_gx <= view.width <= i32::MAX,
                0 <= min_gy <= gy <= max_gy + 1,
                max_gy <= view.height <= i32::MAX,
                forall|cell_x: int, cell_y: int|
                    min_gx <= cell_x <= max_gx && min_gy <= cell_y < gy
                        ==> #[trigger] view.cell_admits_circle(cx, cy, r, cell_x, cell_y),
                min_gx == view.column_of(cx - r),
                max_gx == view.column_of(cx + r),
                min_gy == view.row_of(cy - r),
                max_gy == view.row_of(cy + r),
                view.within_bounds(cx, cy, r),
            decreases max_gy + 1 - gy,
        {
            let mut gx: i64 = min_gx;
            while gx <= max_gx
                invariant
                    self@ == view,
                    cx == world_pos.x as int,
                    cy == world_pos.y as int,
                    r == radius_world as int,
                    radius_world > 0,
                    0 <= min_gx <= gx <= max_gx + 1,
                    max_gx <= view.width <= i32::MAX,
                    0 <= min_gy <= gy <= max_gy <= view.height <= i32::MAX,
                    forall|cell_x: int, cell_y: int|
                        min_gx <= cell_x <= max_gx && min_gy <= cell_y < gy
                            ==> #[trigger] view.cell_admits_circle(cx, cy, r, cell_x, cell_y),
                    forall|cell_x: int|
                        min_gx <= cell_x < gx ==> #[trigger] view.cell_admits_circle(
                            cx,
                            cy,
                            r,
                            cell_x,
                            gy as int,
                        ),
                    min_gx == view.column_of(cx - r),
                    max_gx == view.column_of(cx + r),
                    min_gy == view.row_of(cy - r),
                    max_gy == view.row_of(cy + r),
                    view.within_bounds(cx, cy, r),
                decreases max_gx + 1 - gx,
            {
                if !self.cell_admits_circle(world_pos, radius_world, gx as i32, gy as i32) {
                    assert(!view.cell_admits_circle(cx, cy, r, gx as int, gy as int));
                    return false;
                }
                gx = gx + 1;
            }
            gy = gy + 1;
        }
        true
    }
}

} // verus!
