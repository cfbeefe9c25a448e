//! Walkability with a margin: the tile under a point, and the tiles under a
//! ring of sample points around it.

use vstd::prelude::*;
use crate::grid::{lemma_cell_count, Grid, GridView};
use crate::tile::TileType;
use crate::units::{
    floor_div_wide, lemma_floor_div, lemma_floor_div_monotone, lemma_floor_div_unique, WorldPos, UNIT,
};

verus! {

/// Length of the direction vectors of the sample rings.
pub const DIRECTION_SCALE: i32 = 1_000_000;

/// `DIRECTION_SCALE` times the cosine of an eighth of a turn.
pub const DIAGONAL: i32 = 707_107;

/// `DIRECTION_SCALE` times the cosine of a twelfth of a turn.
pub const SLANT: i32 = 866_025;

/// `DIRECTION_SCALE` times the sine of a twelfth of a turn.
pub const HALF: i32 = 500_000;

/// Eight directions an eighth of a turn apart, counter-clockwise from the
/// positive x axis, as vectors of length `DIRECTION_SCALE`.
pub open spec fn eighths() -> Seq<(int, int)> {
    seq![
        (DIRECTION_SCALE as int, 0int),
        (DIAGONAL as int, DIAGONAL as int),
        (0int, DIRECTION_SCALE as int),
        (-DIAGONAL, DIAGONAL as int),
        (-DIRECTION_SCALE, 0int),
        (-DIAGONAL, -DIAGONAL),
        (0int, -DIRECTION_SCALE),
        (DIAGONAL as int, -DIAGONAL),
    ]
}

/// Twelve directions a twelfth of a turn apart, counter-clockwise from the
/// positive x axis, as vectors of length `DIRECTION_SCALE`.
pub open spec fn twelfths() -> Seq<(int, int)> {
    seq![
        (DIRECTION_SCALE as int, 0int),
        (SLANT as int, HALF as int),
        (HALF as int, SLANT as int),
        (0int, DIRECTION_SCALE as int),
        (-HALF, SLANT as int),
        (-SLANT, HALF as int),
        (-DIRECTION_SCALE, 0int),
        (-SLANT, -HALF),
        (-HALF, -SLANT),
        (0int, -DIRECTION_SCALE),
        (HALF as int, -SLANT),
        (SLANT as int, -HALF),
    ]
}

/// The directions of a ring of `samples` points: twelve or, for any other
/// count, eight.
pub open spec fn ring_directions(samples: int) -> Seq<(int, int)> {
    if samples == 12 {
        twelfths()
    } else {
        eighths()
    }
}

/// The offset along one axis of a sample point on a ring of radius
/// `radius`, for a direction whose component on that axis is `component`:
/// their product over `DIRECTION_SCALE`, rounded toward zero.
pub open spec fn ring_offset(radius: int, component: int) -> int {
    if component >= 0 {
        (radius * component) / (DIRECTION_SCALE as int)
    } else {
        -((radius * (-component)) / (DIRECTION_SCALE as int))
    }
}

impl GridView {
    /// Whether sample `i` of a ring of `samples` points of radius `radius`
    /// around `(cx, cy)` falls on a walkable cell.
    pub open spec fn sample_walkable(self, cx: int, cy: int, radius: int, samples: int, i: int) -> bool {
        let direction = ring_directions(samples)[i];
        self.walkable_at(cx + ring_offset(radius, direction.0), cy + ring_offset(radius, direction.1))
    }

    /// Whether every sample of the ring falls on a walkable cell.
    pub open spec fn ring_walkable(self, cx: int, cy: int, radius: int, samples: int) -> bool {
        forall|i: int| 0 <= i < samples ==> #[trigger] self.sample_walkable(cx, cy, radius, samples, i)
    }

    /// The world length of a margin of `margin_tiles` tiles, the latter in
    /// fixed-point steps: their product over `UNIT`, rounded down.
    pub open spec fn margin_length(self, margin_tiles: int) -> int {
        (margin_tiles * self.tile_size) / (UNIT as int)
    }

    /// Whether the cell under `(cx, cy)` is walkable and, for a positive
    /// margin, so are the cells under eight points on the circle of radius
    /// `margin_tiles` tiles around it.
    pub open spec fn walkable_with_margin(self, cx: int, cy: int, margin_tiles: int) -> bool {
        &&& self.walkable_at(cx, cy)
        &&& margin_tiles <= 0 || self.ring_walkable(cx, cy, self.margin_length(margin_tiles), 8)
    }

    /// Whether `(cx, cy)` is walkable with the margin that its own tile
    /// calls for: on a shoreline tile twelve samples at a quarter of a tile,
    /// on any other walkable tile eight samples at fifteen hundredths of a
    /// tile.
    pub open spec fn walkable_smart(self, cx: int, cy: int) -> bool {
        match self.tile_at(self.column_of(cx), self.row_of(cy)) {
            None => false,
            Some(tile) => {
                &&& tile.walkable()
                &&& if tile is Shore {
                    self.ring_walkable(cx, cy, (25 * self.tile_size) / 100, 12)
                } else {
                    self.ring_walkable(cx, cy, (15 * self.tile_size) / 100, 8)
                }
            },
        }
    }
}

/// Every direction of both rings has the length `DIRECTION_SCALE` to within
/// one part in a million.
pub proof fn lemma_directions_have_unit_length(samples: int, i: int)
    requires
        samples == 8 || samples == 12,
        0 <= i < samples,
    ensures
        ({
            let d = ring_directions(samples)[i];
            let length_sq = d.0 * d.0 + d.1 * d.1;
            let unit_sq = DIRECTION_SCALE * DIRECTION_SCALE;
            unit_sq - DIRECTION_SCALE <= length_sq <= unit_sq + DIRECTION_SCALE
        }),
{
    let d = ring_directions(samples)[i];
    let x = if d.0 < 0 {
        -d.0
    } else {
        d.0
    };
    let y = if d.1 < 0 {
        -d.1
    } else {
        d.1
    };
    assert(d.0 * d.0 == x * x && d.1 * d.1 == y * y) by (nonlinear_arith)
        requires
            x == d.0 || x == -d.0,
            y == d.1 || y == -d.1,
    ;
    assert(999_999_000_000 <= x * x + y * y <= 1_000_001_000_000) by (nonlinear_arith)
        requires
            (x == 1_000_000 && y == 0) || (x == 0 && y == 1_000_000) || (x == 707_107 && y
                == 707_107) || (x == 866_025 && y == 500_000) || (x == 500_000 && y == 866_025),
    ;
    assert(DIRECTION_SCALE * DIRECTION_SCALE == 1_000_000_000_000int) by (nonlinear_arith)
        requires
            DIRECTION_SCALE == 1_000_000,
    ;
}

/// The directions of a ring follow one another counter-clockwise at equal
/// angles: the scalar product of each with the next is `DIRECTION_SCALE`
/// times the cosine of the ring's step (an eighth or a twelfth of a turn),
/// and their cross product is `DIRECTION_SCALE` times its sine, to within
/// one part in a million. The first direction is that of the x axis.
pub proof fn lemma_directions_are_evenly_spaced(samples: int, i: int)
    requires
        samples == 8 || samples == 12,
        0 <= i < samples,
    ensures
        ring_directions(samples)[0] == (DIRECTION_SCALE as int, 0int),
        ({
            let d = ring_directions(samples)[i];
            let e = ring_directions(samples)[(i + 1) % samples];
            let cosine = if samples == 12 {
                SLANT
            } else {
                DIAGONAL
            };
            let sine = if samples == 12 {
                HALF
            } else {
                DIAGONAL
            };
            &&& d.0 * e.0 + d.1 * e.1 == DIRECTION_SCALE * cosine
            &&& DIRECTION_SCALE * sine - DIRECTION_SCALE <= d.0 * e.1 - d.1 * e.0
                <= DIRECTION_SCALE * sine + DIRECTION_SCALE
        }),
{
    let d = ring_directions(samples)[i];
    let e = ring_directions(samples)[(i + 1) % samples];
    let s = DIRECTION_SCALE as int;
    let c = DIAGONAL as int;
    let h = SLANT as int;
    let f = HALF as int;
    if samples == 8 {
        assert(d.0 * e.0 + d.1 * e.1 == s * c && d.0 * e.1 - d.1 * e.0 == s * c)
            by (nonlinear_arith)
            requires
                (d == (s, 0int) && e == (c, c)) || (d == (c, c) && e == (0int, s)) || (d == (0int, s)
                    && e == (-c, c)) || (d == (-c, c) && e == (-s, 0int)) || (d == (-s, 0int) && e
                    == (-c, -c)) || (d == (-c, -c) && e == (0int, -s)) || (d == (0int, -s) && e == (
                    c,
                    -c,
                )) || (d == (c, -c) && e == (s, 0int)),
        ;
    } else {
        assert(d.0 * e.0 + d.1 * e.1 == s * h && (d.0 * e.1 - d.1 * e.0 == s * f || d.0 * e.1
            - d.1 * e.0 == h * h - f * f)) by (nonlinear_arith)
            requires
                s == 2 * f,
                (d == (s, 0int) && e == (h, f)) || (d == (h, f) && e == (f, h)) || (d == (f, h) && e
                    == (0int, s)) || (d == (0int, s) && e == (-f, h)) || (d == (-f, h) && e == (
                    -h,
                    f,
                )) || (d == (-h, f) && e == (-s, 0int)) || (d == (-s, 0int) && e == (-h, -f)) || (d
                    == (-h, -f) && e == (-f, -h)) || (d == (-f, -h) && e == (0int, -s)) || (d == (
                    0int,
                    -s,
                ) && e == (f, -h)) || (d == (f, -h) && e == (h, -f)) || (d == (h, -f) && e == (
                    s,
                    0int,
                )),
        ;
        assert(h * h - f * f == 499_999_300_625int && s * f == 500_000_000_000int)
            by (nonlinear_arith)
            requires
                h == 866_025,
                f == 500_000,
                s == 1_000_000,
        ;
    }
}

/// The size of `v`.
pub open spec fn magnitude(v: int) -> int {
    if v < 0 {
        -v
    } else {
        v
    }
}

/// The sample points of a ring lie on the circle of its radius, to within
/// one step on each axis and one part in a million: the offset of a sample
/// from the centre is no longer than the radius, and the same offset
/// lengthened by one step along each axis is no shorter.
pub proof fn lemma_samples_lie_on_the_circle(radius: int, samples: int, i: int)
    requires
        radius >= 0,
        samples == 8 || samples == 12,
        0 <= i < samples,
    ensures
        ({
            let direction = ring_directions(samples)[i];
            let x = ring_offset(radius, direction.0);
            let y = ring_offset(radius, direction.1);
            let unit_sq = DIRECTION_SCALE * DIRECTION_SCALE;
            &&& unit_sq * (x * x + y * y) <= (radius * radius) * (unit_sq + DIRECTION_SCALE)
            &&& unit_sq * ((magnitude(x) + 1) * (magnitude(x) + 1) + (magnitude(y) + 1) * (
            magnitude(y) + 1)) >= (radius * radius) * (unit_sq - DIRECTION_SCALE)
        }),
{
    let direction = ring_directions(samples)[i];
    let s = DIRECTION_SCALE as int;
    let kx = magnitude(direction.0);
    let ky = magnitude(direction.1);
    let x = ring_offset(radius, direction.0);
    let y = ring_offset(radius, direction.1);
    let ax = (radius * kx) / s;
    let ay = (radius * ky) / s;
    lemma_directions_have_unit_length(samples, i);
    assert(kx * kx == direction.0 * direction.0 && ky * ky == direction.1 * direction.1)
        by (nonlinear_arith)
        requires
            kx == direction.0 || kx == -direction.0,
            ky == direction.1 || ky == -direction.1,
    ;
    assert(0 <= radius * kx && 0 <= radius * ky) by (nonlinear_arith)
        requires
            radius >= 0,
            kx >= 0,
            ky >= 0,
    ;
    lemma_floor_div(radius * kx, s);
    lemma_floor_div(radius * ky, s);
    assert(magnitude(x) == ax && magnitude(y) == ay);
    assert(x * x == ax * ax && y * y == ay * ay) by (nonlinear_arith)
        requires
            x == ax || x == -ax,
            y == ay || y == -ay,
    ;
    lemma_scaled_square(ax, s, radius, kx);
    lemma_scaled_square(ay, s, radius, ky);
    let unit_sq = s * s;
    let length_sq = kx * kx + ky * ky;
    assert(unit_sq * (ax * ax + ay * ay) <= (radius * radius) * length_sq) by (nonlinear_arith)
        requires
            unit_sq == s * s,
            length_sq == kx * kx + ky * ky,
            (s * s) * (ax * ax) <= (radius * radius) * (kx * kx),
            (s * s) * (ay * ay) <= (radius * radius) * (ky * ky),
    ;
    assert((radius * radius) * length_sq <= (radius * radius) * (unit_sq + s)) by (nonlinear_arith)
        requires
            length_sq <= unit_sq + s,
    ;
    assert(unit_sq * ((ax + 1) * (ax + 1) + (ay + 1) * (ay + 1)) >= (radius * radius) * length_sq)
        by (nonlinear_arith)
        requires
            unit_sq == s * s,
            length_sq == kx * kx + ky * ky,
            (s * s) * ((ax + 1) * (ax + 1)) >= (radius * radius) * (kx * kx),
            (s * s) * ((ay + 1) * (ay + 1)) >= (radius * radius) * (ky * ky),
    ;
    assert((radius * radius) * length_sq >= (radius * radius) * (unit_sq - s)) by (nonlinear_arith)
        requires
            length_sq >= unit_sq - s,
    ;
}

/// If `a` is the quotient of `r * k` by `s`, rounded down, then `s * a` is
/// at most `r * k`, and `s * (a + 1)` is more; and so are their squares.
proof fn lemma_scaled_square(a: int, s: int, r: int, k: int)
    requires
        s > 0,
        r >= 0,
        k >= 0,
        a >= 0,
        a * s <= r * k < a * s + s,
    ensures
        (s * s) * (a * a) <= (r * r) * (k * k),
        (s * s) * ((a + 1) * (a + 1)) >= (r * r) * (k * k),
{
    let low = s * a;
    let mid = r * k;
    let high = s * (a + 1);
    assert(0 <= low <= mid <= high) by (nonlinear_arith)
        requires
            low == s * a,
            mid == r * k,
            high == s * (a + 1),
            a * s <= r * k < a * s + s,
            s > 0,
            a >= 0,
    ;
    assert(low * low <= mid * mid <= high * high) by (nonlinear_arith)
        requires
            0 <= low <= mid <= high,
    ;
    assert(low * low == (s * s) * (a * a)) by (nonlinear_arith)
        requires
            low == s * a,
    ;
    assert(mid * mid == (r * r) * (k * k)) by (nonlinear_arith)
        requires
            mid == r * k,
    ;
    assert(high * high == (s * s) * ((a + 1) * (a + 1))) by (nonlinear_arith)
        requires
            high == s * (a + 1),
    ;
}

/// Direction `i` of a ring of `samples` points.
fn ring_direction(samples: usize, i: usize) -> (d: (i32, i32))
    requires
        samples == 8 || samples == 12,
        i < samples,
    ensures
        (d.0 as int, d.1 as int) == ring_directions(samples as int)[i as int],
{
    if samples == 12 {
        match i {
            0 => (DIRECTION_SCALE, 0),
            1 => (SLANT, HALF),
            2 => (HALF, SLANT),
            3 => (0, DIRECTION_SCALE),
            4 => (-HALF, SLANT),
            5 => (-SLANT, HALF),
            6 => (-DIRECTION_SCALE, 0),
            7 => (-SLANT, -HALF),
            8 => (-HALF, -SLANT),
            9 => (0, -DIRECTION_SCALE),
            10 => (HALF, -SLANT),
            _ => (SLANT, -HALF),
        }
    } else {
        match i {
            0 => (DIRECTION_SCALE, 0),
            1 => (DIAGONAL, DIAGONAL),
            2 => (0, DIRECTION_SCALE),
            3 => (-DIAGONAL, DIAGONAL),
            4 => (-DIRECTION_SCALE, 0),
            5 => (-DIAGONAL, -DIAGONAL),
            6 => (0, -DIRECTION_SCALE),
            _ => (DIAGONAL, -DIAGONAL),
        }
    }
}

/// The offset along one axis of a sample point on a ring.
fn ring_offset_of(radius: i64, component: i32) -> (offset: i64)
    requires
        0 <= radius <= 0x10_0000_0000_0000,
        -DIRECTION_SCALE <= component <= DIRECTION_SCALE,
    ensures
        offset == ring_offset(radius as int, component as int),
        -radius <= offset <= radius,
{
    let size: i128 = if component < 0 {
        -(component as i128)
    } else {
        component as i128
    };
    proof {
        assert(0 <= radius * size <= radius * DIRECTION_SCALE) by (nonlinear_arith)
            requires
                0 <= radius,
                0 <= size <= DIRECTION_SCALE,
        ;
        assert(radius * DIRECTION_SCALE <= 0x10_0000_0000_0000 * 1_000_000) by (nonlinear_arith)
            requires
                0 <= radius <= 0x10_0000_0000_0000,
                DIRECTION_SCALE == 1_000_000,
        ;
        lemma_floor_div(radius * size, DIRECTION_SCALE as int);
        lemma_floor_div_monotone(
            radius * size,
            radius * DIRECTION_SCALE,
            DIRECTION_SCALE as int,
        );
        lemma_floor_div_unique(
            radius * DIRECTION_SCALE,
            DIRECTION_SCALE as int,
            radius as int,
        );
    }
    let length: i128 = floor_div_wide(radius as i128 * size, DIRECTION_SCALE as i128);
    if component < 0 {
        (-length) as i64
    } else {
        length as i64
    }
}

impl Grid {
    /// Whether every sample of a ring of `samples` points of radius `radius`
    /// around `world_pos` falls on a walkable cell.
    fn is_ring_walkable(&self, world_pos: WorldPos, radius: i64, samples: usize) -> (res: bool)
        requires
            samples == 8 || samples == 12,
            0 <= radius <= 0x10_0000_0000_0000,
        ensures
            res == self@.ring_walkable(
                world_pos.x as int,
                world_pos.y as int,
                radius as int,
                samples as int,
            ),
    {
        let ghost view = self@;
        let ghost cx = world_pos.x as int;
        let ghost cy = world_pos.y as int;
        let mut i: usize = 0;
        while i < samples
            invariant
                self@ == view,
                cx == world_pos.x as int,
                cy == world_pos.y as int,
                samples == 8 || samples == 12,
                0 <= radius <= 0x10_0000_0000_0000,
                i <= samples,
                forall|j: int|
                    0 <= j < i ==> #[trigger] view.sample_walkable(
                        cx,
                        cy,
                        radius as int,
                        samples as int,
                        j,
                    ),
            decreases samples - i,
        {
            let direction = ring_direction(samples, i);
            let check_x: i64 = world_pos.x as i64 + ring_offset_of(radius, direction.0);
            let check_y: i64 = world_pos.y as i64 + ring_offset_of(radius, direction.1);
            if !self.is_walkable_at(check_x, check_y) {
                assert(!view.sample_walkable(cx, cy, radius as int, samples as int, i as int));
                return false;
            }
            i = i + 1;
        }
        true
    }

    /// Whether `world_pos` is walkable and keeps a margin of `margin_tiles`
    /// tiles (in fixed-point steps, so `UNIT / 2` is half a tile) from
    /// anything that is not: the tile under the point must be walkable and,
    /// for a positive margin, so must the tiles under eight points evenly
    /// spaced on the circle of that radius around it.
    pub fn is_world_pos_walkable_with_margin(&self, world_pos: WorldPos, margin_tiles: i32) -> (res:
        bool)
        ensures
            res == self@.walkable_with_margin(
                world_pos.x as int,
                world_pos.y as int,
                margin_tiles as int,
            ),
    {
        if !self.is_world_pos_walkable(world_pos) {
            return false;
        }
        if margin_tiles <= 0 {
            return true;
        }
        let tile_size: i64 = self.tile_size() as i64;
        proof {
            assert(0 <= margin_tiles * tile_size <= 0x8000_0000 * 0x8000_0000) by (nonlinear_arith)
                requires
                    0 < margin_tiles <= 0x8000_0000,
                    0 < tile_size <= 0x8000_0000,
            ;
            lemma_floor_div(margin_tiles * tile_size, UNIT as int);
        }
        let margin_world: i64 = (margin_tiles as i64 * tile_size) / UNIT as i64;
        self.is_ring_walkable(world_pos, margin_world, 8)
    }

    /// Whether `world_pos` is walkable with a margin chosen by the terrain
    /// under it. Standing on a shoreline tile, the tiles under twelve points
    /// at a quarter of a tile around the point must be walkable too; on any
    /// other walkable tile, those under eight points at fifteen hundredths
    /// of a tile. A point off the grid or on a blocking tile is not
    /// walkable.
    pub fn is_world_pos_walkable_smart(&self, world_pos: WorldPos) -> (res: bool)
        ensures
            res == self@.walkable_smart(world_pos.x as int, world_pos.y as int),
    {
        let grid_pos = self.world_to_grid(world_pos);
        let tile_size: i64 = self.tile_size() as i64;
        proof {
            lemma_cell_count(self@.width, self@.height);
        }
        match self.get_tile(grid_pos.x, grid_pos.y) {
            None => false,
            Some(tile) => {
                if !tile.is_walkable() {
                    return false;
                }
                if tile == TileType::Shore {
                    self.is_ring_walkable(world_pos, (25 * tile_size) / 100, 12)
                } else {
                    self.is_ring_walkable(world_pos, (15 * tile_size) / 100, 8)
                }
            },
        }
    }
}

} // verus!
