//! The swept movement resolver.
//!
//! A circular collider is carried from a start point toward a desired end
//! point in sub-steps of at most a quarter tile. Each sub-step is taken in
//! full if the collider is clear there, else along the x axis alone, else
//! along the y axis alone; when none of the three is clear the collider
//! stays where it last was.

use vstd::prelude::*;
use crate::circle::{lemma_clear_circle_is_inside, lemma_point_collider_is_a_point};
use crate::grid::{Grid, GridView};
use crate::units::{
    floor_div_wide, lemma_floor_div, lemma_floor_div_monotone, lemma_floor_div_unique, WorldPos,
    EPSILON,
};

verus! {

/// Whether `n` is the number of sub-steps for a displacement `(dx, dy)` on
/// tiles of edge `tile_size`: `n` quarter tiles reach at least as far as the
/// displacement is long, and no smaller count (but never fewer than one)
/// does. Lengths are compared by their squares.
pub open spec fn is_sub_step_count(n: int, dx: int, dy: int, tile_size: int) -> bool {
    &&& n >= 1
    &&& (n * tile_size) * (n * tile_size) >= 16 * (dx * dx + dy * dy)
    &&& n == 1 || ((n - 1) * tile_size) * ((n - 1) * tile_size) < 16 * (dx * dx + dy * dy)
}

/// The number of sub-steps for a displacement `(dx, dy)`: its length
/// divided by a quarter of `tile_size`, rounded up, and at least one.
pub open spec fn sub_steps(dx: int, dy: int, tile_size: int) -> int {
    choose|n: int| is_sub_step_count(n, dx, dy, tile_size)
}

/// How far along one axis the collider has come after `i` of `n` sub-steps
/// of a displacement `d` on that axis, if nothing was in the way.
pub open spec fn along(d: int, n: int, i: int) -> int {
    (d * i) / n
}

/// The advance along one axis in sub-step `i` (counted from zero) of `n`.
pub open spec fn step_at(d: int, n: int, i: int) -> int {
    along(d, n, i + 1) - along(d, n, i)
}

impl GridView {
    /// Where a collider of radius `r` ends up when it stands at `(px, py)`
    /// with sub-steps `i..n` of the displacement `(dx, dy)` still to take.
    pub open spec fn sweep(self, px: int, py: int, dx: int, dy: int, n: int, i: int, r: int) -> (
        int,
        int,
    )
        decreases n - i,
    {
        if i >= n {
            (px, py)
        } else {
            let x = px + step_at(dx, n, i);
            let y = py + step_at(dy, n, i);
            if self.clear_circle(x, y, r) {
                self.sweep(x, y, dx, dy, n, i + 1, r)
            } else if self.clear_circle(x, py, r) {
                self.sweep(x, py, dx, dy, n, i + 1, r)
            } else if self.clear_circle(px, y, r) {
                self.sweep(px, y, dx, dy, n, i + 1, r)
            } else {
                (px, py)
            }
        }
    }

    /// Where a collider of radius `r` that stands at `(sx, sy)` ends up when
    /// it tries to move to `(ex, ey)`. A displacement shorter than
    /// `EPSILON` is no movement.
    pub open spec fn try_move(self, sx: int, sy: int, ex: int, ey: int, r: int) -> (int, int) {
        let dx = ex - sx;
        let dy = ey - sy;
        if dx * dx + dy * dy < EPSILON * EPSILON {
            (sx, sy)
        } else {
            self.sweep(sx, sy, dx, dy, sub_steps(dx, dy, self.tile_size), 0, r)
        }
    }
}

/// On non-negative numbers, squaring keeps the order, both ways.
proof fn lemma_square_order(a: int, b: int)
    requires
        0 <= a,
        0 <= b,
    ensures
        a <= b <==> a * a <= b * b,
        a < b <==> a * a < b * b,
{
    assert((a <= b <==> a * a <= b * b) && (a < b <==> a * a < b * b)) by (nonlinear_arith)
        requires
            0 <= a,
            0 <= b,
    ;
}

/// At most one number is the sub-step count of a displacement.
pub proof fn lemma_sub_step_count_unique(n: int, m: int, dx: int, dy: int, tile_size: int)
    requires
        tile_size > 0,
        is_sub_step_count(n, dx, dy, tile_size),
        is_sub_step_count(m, dx, dy, tile_size),
    ensures
        n == m,
{
    if n < m {
        assert(0 <= n * tile_size <= (m - 1) * tile_size) by (nonlinear_arith)
            requires
                1 <= n <= m - 1,
                tile_size > 0,
        ;
        lemma_square_order(n * tile_size, (m - 1) * tile_size);
    } else if m < n {
        assert(0 <= m * tile_size <= (n - 1) * tile_size) by (nonlinear_arith)
            requires
                1 <= m <= n - 1,
                tile_size > 0,
        ;
        lemma_square_order(m * tile_size, (n - 1) * tile_size);
    }
}

/// The least `s` whose square is at least `q`.
fn ceil_sqrt(q: u128) -> (s: u64)
    requires
        0 < q <= 0x40_0000_0000_0000_0000,
    ensures
        1 <= s <= 0x8_0000_0000,
        s * s >= q,
        (s - 1) * (s - 1) < q,
{
    let mut lo: u64 = 0;
    let mut hi: u64 = 0x8_0000_0000;
    while hi - lo > 1
        invariant
            0 <= lo < hi <= 0x8_0000_0000,
            lo * lo < q <= hi * hi,
        decreases hi - lo,
    {
        let mid: u64 = lo + (hi - lo) / 2;
        proof {
            lemma_square_order(mid as int, 0x8_0000_0000);
        }
        if (mid as u128) * (mid as u128) >= q {
            hi = mid;
        } else {
            lo = mid;
        }
    }
    hi
}

/// The number of sub-steps for the displacement `(dx, dy)`.
fn sub_step_count(dx: i64, dy: i64, tile_size: i32) -> (n: u64)
    requires
        -0x1_0000_0000 < dx < 0x1_0000_0000,
        -0x1_0000_0000 < dy < 0x1_0000_0000,
        tile_size > 0,
        dx != 0 || dy != 0,
    ensures
        n == sub_steps(dx as int, dy as int, tile_size as int),
        is_sub_step_count(n as int, dx as int, dy as int, tile_size as int),
        1 <= n <= 0x8_0000_0000,
{
    let wide_dx: u128 = if dx < 0 {
        (-dx) as u128
    } else {
        dx as u128
    };
    let wide_dy: u128 = if dy < 0 {
        (-dy) as u128
    } else {
        dy as u128
    };
    proof {
        lemma_square_order(wide_dx as int, 0x1_0000_0000);
        lemma_square_order(wide_dy as int, 0x1_0000_0000);
        assert(wide_dx * wide_dx == dx * dx) by (nonlinear_arith)
            requires
                wide_dx == dx || wide_dx == -dx,
        ;
        assert(wide_dy * wide_dy == dy * dy) by (nonlinear_arith)
            requires
                wide_dy == dy || wide_dy == -dy,
        ;
        assert(wide_dx * wide_dx + wide_dy * wide_dy > 0) by (nonlinear_arith)
            requires
                wide_dx > 0 || wide_dy > 0,
                wide_dx >= 0,
                wide_dy >= 0,
        ;
    }
    let q: u128 = 16 * (wide_dx * wide_dx + wide_dy * wide_dy);
    let s: u64 = ceil_sqrt(q);
    let t: u64 = tile_size as u64;
    let n: u64 = (s + t - 1) / t;
    proof {
        let a = (s + t - 1) as int;
        lemma_floor_div(a, t as int);
        assert(n >= 1) by (nonlinear_arith)
            requires
                n * t + t > a,
                a >= t,
                t > 0,
                n >= 0,
        ;
        assert(n <= s) by (nonlinear_arith)
            requires
                n * t <= s + t - 1,
                t >= 1,
                n >= 1,
                s >= 1,
        ;
        // n tiles reach s, n - 1 tiles do not
        assert(n * t >= s);
        assert((n - 1) * t == n * t - t) by (nonlinear_arith);
        assert((n - 1) * t <= s - 1);
        assert(0 <= (n - 1) * t) by (nonlinear_arith)
            requires
                n >= 1,
                t > 0,
        ;
        lemma_square_order(s as int, n * t);
        lemma_square_order((n - 1) * t, s - 1);
        assert(is_sub_step_count(n as int, dx as int, dy as int, tile_size as int));
        lemma_sub_step_count_unique(
            n as int,
            sub_steps(dx as int, dy as int, tile_size as int),
            dx as int,
            dy as int,
            tile_size as int,
        );
    }
    n
}

/// Whatever is still to be done, the resolver leaves the collider either
/// where it stands or at a point where it is clear.
pub proof fn lemma_sweep_ends_clear(
    grid: GridView,
    px: int,
    py: int,
    dx: int,
    dy: int,
    n: int,
    i: int,
    r: int,
)
    ensures
        ({
            let end = grid.sweep(px, py, dx, dy, n, i, r);
            end == (px, py) || grid.clear_circle(end.0, end.1, r)
        }),
    decreases n - i,
{
    if i < n {
        let x = px + step_at(dx, n, i);
        let y = py + step_at(dy, n, i);
        if grid.clear_circle(x, y, r) {
            lemma_sweep_ends_clear(grid, x, y, dx, dy, n, i + 1, r);
        } else if grid.clear_circle(x, py, r) {
            lemma_sweep_ends_clear(grid, x, py, dx, dy, n, i + 1, r);
        } else if grid.clear_circle(px, y, r) {
            lemma_sweep_ends_clear(grid, px, y, dx, dy, n, i + 1, r);
        }
    }
}

/// A collider that is asked to stay where it is stays there, whatever its
/// radius and whatever surrounds it.
pub proof fn lemma_move_to_start_is_no_move(grid: GridView, sx: int, sy: int, r: int)
    ensures
        grid.try_move(sx, sy, sx, sy, r) == (sx, sy),
{
    assert(EPSILON * EPSILON == 100) by (nonlinear_arith)
        requires
            EPSILON == 10,
    ;
}

/// The resolver returns the start point or a point at which the collider
/// is clear; so from a clear start it always returns a clear point.
pub proof fn lemma_move_ends_clear(grid: GridView, sx: int, sy: int, ex: int, ey: int, r: int)
    ensures
        ({
            let end = grid.try_move(sx, sy, ex, ey, r);
            &&& end == (sx, sy) || grid.clear_circle(end.0, end.1, r)
            &&& grid.clear_circle(sx, sy, r) ==> grid.clear_circle(end.0, end.1, r)
        }),
{
    let dx = ex - sx;
    let dy = ey - sy;
    lemma_sweep_ends_clear(grid, sx, sy, dx, dy, sub_steps(dx, dy, grid.tile_size), 0, r);
}

/// Every displacement has a sub-step count, and it is at most four times
/// the sum of the displacement's two components, plus one.
pub proof fn lemma_sub_steps_exist(dx: int, dy: int, tile_size: int)
    requires
        tile_size > 0,
    ensures
        is_sub_step_count(sub_steps(dx, dy, tile_size), dx, dy, tile_size),
        1 <= sub_steps(dx, dy, tile_size) <= 4 * (if dx < 0 {
            -dx
        } else {
            dx
        } + if dy < 0 {
            -dy
        } else {
            dy
        }) + 1,
{
    let x = if dx < 0 {
        -dx
    } else {
        dx
    };
    let y = if dy < 0 {
        -dy
    } else {
        dy
    };
    let enough = 4 * (x + y) + 1;
    assert((enough * tile_size) * (enough * tile_size) >= 16 * (dx * dx + dy * dy))
        by (nonlinear_arith)
        requires
            tile_size >= 1,
            enough == 4 * (x + y) + 1,
            x >= 0,
            y >= 0,
            x == dx || x == -dx,
            y == dy || y == -dy,
    ;
    lemma_least_sub_step_count(enough, dx, dy, tile_size);
    let n = choose|n: int| n <= enough && is_sub_step_count(n, dx, dy, tile_size);
    lemma_sub_step_count_unique(n, sub_steps(dx, dy, tile_size), dx, dy, tile_size);
}

/// If `k` quarter tiles reach as far as the displacement is long, some
/// count up to `k` is the sub-step count.
proof fn lemma_least_sub_step_count(k: int, dx: int, dy: int, tile_size: int)
    requires
        k >= 1,
        (k * tile_size) * (k * tile_size) >= 16 * (dx * dx + dy * dy),
    ensures
        exists|n: int| n <= k && is_sub_step_count(n, dx, dy, tile_size),
    decreases k,
{
    if k == 1 || ((k - 1) * tile_size) * ((k - 1) * tile_size) < 16 * (dx * dx + dy * dy) {
        assert(k <= k && is_sub_step_count(k, dx, dy, tile_size));
    } else {
        lemma_least_sub_step_count(k - 1, dx, dy, tile_size);
        let n = choose|n: int| n <= k - 1 && is_sub_step_count(n, dx, dy, tile_size);
        assert(n <= k && is_sub_step_count(n, dx, dy, tile_size));
    }
}

/// No sub-step advances the collider by more than a quarter tile, rounded
/// up to a whole fixed-point step, along either axis.
pub proof fn lemma_sub_step_is_short(dx: int, dy: int, tile_size: int, i: int)
    requires
        tile_size > 0,
    ensures
        ({
            let n = sub_steps(dx, dy, tile_size);
            &&& -(tile_size + 3) <= 4 * step_at(dx, n, i) <= tile_size + 3
            &&& -(tile_size + 3) <= 4 * step_at(dy, n, i) <= tile_size + 3
        }),
{
    let n = sub_steps(dx, dy, tile_size);
    lemma_sub_steps_exist(dx, dy, tile_size);
    assert(16 * (dx * dx + dy * dy) >= (4 * dx) * (4 * dx) && 16 * (dx * dx + dy * dy) >= (4 * dy)
        * (4 * dy)) by (nonlinear_arith);
    lemma_step_within_reach(dx, n, tile_size, i);
    lemma_step_within_reach(dy, n, tile_size, i);
}

/// A sub-step along one axis, when `n` quarter tiles reach as far as the
/// displacement on that axis.
proof fn lemma_step_within_reach(d: int, n: int, tile_size: int, i: int)
    requires
        tile_size > 0,
        n >= 1,
        (n * tile_size) * (n * tile_size) >= (4 * d) * (4 * d),
    ensures
        -(tile_size + 3) <= 4 * step_at(d, n, i) <= tile_size + 3,
{
    let reach = n * tile_size;
    assert(reach >= 0) by (nonlinear_arith)
        requires
            reach == n * tile_size,
            n >= 1,
            tile_size > 0,
    ;
    if d >= 0 {
        lemma_square_order(4 * d, reach);
    } else {
        assert((4 * d) * (4 * d) == (-4 * d) * (-4 * d)) by (nonlinear_arith);
        lemma_square_order(-4 * d, reach);
    }
    assert(-reach <= 4 * d <= reach);
    let low = along(d, n, i);
    let high = along(d, n, i + 1);
    lemma_floor_div(d * i, n);
    lemma_floor_div(d * (i + 1), n);
    assert(d * (i + 1) == d * i + d) by (nonlinear_arith);
    let s = high - low;
    assert(s * n == high * n - low * n) by (nonlinear_arith)
        requires
            s == high - low,
    ;
    assert(d - n < s * n < d + n);
    assert(4 * s <= tile_size + 3) by (nonlinear_arith)
        requires
            s * n < d + n,
            4 * d <= n * tile_size,
            n >= 1,
    ;
    assert(4 * s >= -(tile_size + 3)) by (nonlinear_arith)
        requires
            s * n > d - n,
            4 * d >= -(n * tile_size),
            n >= 1,
    ;
}

/// The sub-steps of a displacement add up to it.
pub proof fn lemma_sub_steps_add_up(d: int, n: int)
    requires
        n >= 1,
    ensures
        along(d, n, 0) == 0,
        along(d, n, n) == d,
{
    assert(d * 0 == 0) by (nonlinear_arith);
    lemma_floor_div_unique(d * 0, n, 0);
    lemma_floor_div_unique(d * n, n, d);
}

/// Whether the collider is clear at the end of each of the sub-steps
/// `from + 1 ..= n` of the straight way from `(sx, sy)` along `(dx, dy)`.
pub open spec fn way_is_clear(
    grid: GridView,
    sx: int,
    sy: int,
    dx: int,
    dy: int,
    n: int,
    from: int,
    r: int,
) -> bool {
    forall|i: int|
        from < i <= n ==> grid.clear_circle(
            sx + #[trigger] along(dx, n, i),
            sy + along(dy, n, i),
            r,
        )
}

/// A collider that is on the straight way after `i` sub-steps, with the
/// rest of the way clear, comes to the end of the way.
proof fn lemma_clear_way_is_followed(
    grid: GridView,
    sx: int,
    sy: int,
    dx: int,
    dy: int,
    n: int,
    i: int,
    r: int,
)
    requires
        n >= 1,
        0 <= i <= n,
        way_is_clear(grid, sx, sy, dx, dy, n, i, r),
    ensures
        grid.sweep(sx + along(dx, n, i), sy + along(dy, n, i), dx, dy, n, i, r) == (
            sx + dx,
            sy + dy,
        ),
    decreases n - i,
{
    if i >= n {
        lemma_sub_steps_add_up(dx, n);
        lemma_sub_steps_add_up(dy, n);
    } else {
        let x = sx + along(dx, n, i) + step_at(dx, n, i);
        let y = sy + along(dy, n, i) + step_at(dy, n, i);
        assert(x == sx + along(dx, n, i + 1));
        assert(y == sy + along(dy, n, i + 1));
        assert(grid.clear_circle(x, y, r));
        lemma_clear_way_is_followed(grid, sx, sy, dx, dy, n, i + 1, r);
    }
}

/// A collider whose straight way to the desired end is clear at the end of
/// every sub-step arrives at the desired end.
pub proof fn lemma_unobstructed_move_arrives(
    grid: GridView,
    sx: int,
    sy: int,
    ex: int,
    ey: int,
    r: int,
)
    requires
        grid.tile_size > 0,
        (ex - sx) * (ex - sx) + (ey - sy) * (ey - sy) >= EPSILON * EPSILON,
        way_is_clear(
            grid,
            sx,
            sy,
            ex - sx,
            ey - sy,
            sub_steps(ex - sx, ey - sy, grid.tile_size),
            0,
            r,
        ),
    ensures
        grid.try_move(sx, sy, ex, ey, r) == (ex, ey),
{
    let dx = ex - sx;
    let dy = ey - sy;
    let n = sub_steps(dx, dy, grid.tile_size);
    lemma_sub_steps_exist(dx, dy, grid.tile_size);
    lemma_sub_steps_add_up(dx, n);
    lemma_sub_steps_add_up(dy, n);
    lemma_clear_way_is_followed(grid, sx, sy, dx, dy, n, 0, r);
}

/// Whether `v` lies between `a` and `b`, whichever of the two is the
/// smaller.
pub open spec fn between(v: int, a: int, b: int) -> bool {
    a <= v <= b || b <= v <= a
}

/// The way along one axis only ever leads toward the displacement: after
/// more sub-steps the collider has come at least as far, and never farther
/// than the displacement itself.
proof fn lemma_along_advances(d: int, n: int, i: int, j: int)
    requires
        n >= 1,
        0 <= i <= j <= n,
    ensures
        between(along(d, n, i), 0, along(d, n, j)),
        between(along(d, n, j), 0, d),
{
    lemma_sub_steps_add_up(d, n);
    assert(d >= 0 ==> 0 <= d * i <= d * j <= d * n) by (nonlinear_arith)
        requires
            0 <= i <= j <= n,
    ;
    assert(d <= 0 ==> 0 >= d * i >= d * j >= d * n) by (nonlinear_arith)
        requires
            0 <= i <= j <= n,
    ;
    assert(d * 0 == 0) by (nonlinear_arith);
    if d >= 0 {
        lemma_floor_div_monotone(d * 0, d * i, n);
        lemma_floor_div_monotone(d * i, d * j, n);
        lemma_floor_div_monotone(d * j, d * n, n);
    } else {
        lemma_floor_div_monotone(d * i, d * 0, n);
        lemma_floor_div_monotone(d * j, d * i, n);
        lemma_floor_div_monotone(d * n, d * j, n);
    }
}

/// A collider that has not come farther than the straight way after `i`
/// sub-steps ends no farther than the displacement.
proof fn lemma_sweep_stays_between(
    grid: GridView,
    sx: int,
    sy: int,
    px: int,
    py: int,
    dx: int,
    dy: int,
    n: int,
    i: int,
    r: int,
)
    requires
        n >= 1,
        0 <= i <= n,
        between(px - sx, 0, along(dx, n, i)),
        between(py - sy, 0, along(dy, n, i)),
    ensures
        ({
            let end = grid.sweep(px, py, dx, dy, n, i, r);
            between(end.0, sx, sx + dx) && between(end.1, sy, sy + dy)
        }),
    decreases n - i,
{
    lemma_along_advances(dx, n, i, i);
    lemma_along_advances(dy, n, i, i);
    if i < n {
        lemma_along_advances(dx, n, i, i + 1);
        lemma_along_advances(dy, n, i, i + 1);
        let x = px + step_at(dx, n, i);
        let y = py + step_at(dy, n, i);
        if grid.clear_circle(x, y, r) {
            lemma_sweep_stays_between(grid, sx, sy, x, y, dx, dy, n, i + 1, r);
        } else if grid.clear_circle(x, py, r) {
            lemma_sweep_stays_between(grid, sx, sy, x, py, dx, dy, n, i + 1, r);
        } else if grid.clear_circle(px, y, r) {
            lemma_sweep_stays_between(grid, sx, sy, px, y, dx, dy, n, i + 1, r);
        }
    }
}

/// The resolver never carries the collider past the desired end nor away
/// from it: on each axis the returned point lies between the start and the
/// desired end.
pub proof fn lemma_move_stays_between(grid: GridView, sx: int, sy: int, ex: int, ey: int, r: int)
    requires
        grid.tile_size > 0,
    ensures
        ({
            let end = grid.try_move(sx, sy, ex, ey, r);
            between(end.0, sx, ex) && between(end.1, sy, ey)
        }),
{
    let dx = ex - sx;
    let dy = ey - sy;
    let n = sub_steps(dx, dy, grid.tile_size);
    lemma_sub_steps_exist(dx, dy, grid.tile_size);
    lemma_sub_steps_add_up(dx, n);
    lemma_sub_steps_add_up(dy, n);
    lemma_sweep_stays_between(grid, sx, sy, sx, sy, dx, dy, n, 0, r);
}

/// For a collider without extent the resolver does not depend on the
/// radius: any radius of zero or less moves it as radius zero does, each
/// sub-step being judged by the walkability of the point it leads to.
pub proof fn lemma_point_collider_move(
    grid: GridView,
    sx: int,
    sy: int,
    ex: int,
    ey: int,
    r: int,
)
    requires
        grid.wf(),
        r <= 0,
    ensures
        grid.try_move(sx, sy, ex, ey, r) == grid.try_move(sx, sy, ex, ey, 0),
{
    let dx = ex - sx;
    let dy = ey - sy;
    lemma_point_collider_sweep(grid, sx, sy, dx, dy, sub_steps(dx, dy, grid.tile_size), 0, r);
}

/// The rest of a sweep is the same for every radius of zero or less.
proof fn lemma_point_collider_sweep(
    grid: GridView,
    px: int,
    py: int,
    dx: int,
    dy: int,
    n: int,
    i: int,
    r: int,
)
    requires
        grid.wf(),
        r <= 0,
    ensures
        grid.sweep(px, py, dx, dy, n, i, r) == grid.sweep(px, py, dx, dy, n, i, 0),
    decreases n - i,
{
    if i < n {
        let x = px + step_at(dx, n, i);
        let y = py + step_at(dy, n, i);
        lemma_point_collider_is_a_point(grid, x, y, r);
        lemma_point_collider_is_a_point(grid, x, py, r);
        lemma_point_collider_is_a_point(grid, px, y, r);
        lemma_point_collider_is_a_point(grid, x, y, 0);
        lemma_point_collider_is_a_point(grid, x, py, 0);
        lemma_point_collider_is_a_point(grid, px, y, 0);
        lemma_point_collider_sweep(grid, x, y, dx, dy, n, i + 1, r);
        lemma_point_collider_sweep(grid, x, py, dx, dy, n, i + 1, r);
        lemma_point_collider_sweep(grid, px, y, dx, dy, n, i + 1, r);
    }
}

impl Grid {
    /// The circle test on coordinates that may lie beyond the world that
    /// positions can name; no collider is clear out there.
    fn is_clear_wide(&self, x: i128, y: i128, radius: i32) -> (res: bool)
        ensures
            res == self@.clear_circle(x as int, y as int, radius as int),
            res ==> i32::MIN <= x <= i32::MAX && i32::MIN <= y <= i32::MAX,
    {
        // A clear collider has its centre in the grid, and the grid lies in
        // the world that positions can name.
        let origin = self.origin();
        if x < origin.x as i128 || x > i32::MAX as i128 || y < origin.y as i128 || y
            > i32::MAX as i128 {
            proof {
                if self@.clear_circle(x as int, y as int, radius as int) {
                    lemma_clear_circle_is_inside(self@, x as int, y as int, radius as int);
                }
            }
            return false;
        }
        self.is_world_pos_clear_circle(WorldPos { x: x as i32, y: y as i32 }, radius)
    }

    /// Moves a circular collider of radius `radius_world` from `start`
    /// toward `desired_end` and returns the farthest point it reaches.
    ///
    /// The way is cut into sub-steps of at most a quarter tile. A sub-step
    /// that would bring the collider into an obstacle is tried along the x
    /// axis alone, then along the y axis alone; if neither is clear the
    /// collider stops. A displacement shorter than `EPSILON` moves nothing.
    ///
    /// The returned point is `start` itself or a point at which the collider
    /// is clear.
    pub fn try_move_circle(&self, start: WorldPos, desired_end: WorldPos, radius_world: i32) -> (res:
        WorldPos)
        ensures
            (res.x as int, res.y as int) == self@.try_move(
                start.x as int,
                start.y as int,
                desired_end.x as int,
                desired_end.y as int,
                radius_world as int,
            ),
            res == start || self@.clear_circle(res.x as int, res.y as int, radius_world as int),
    {
        let dx: i64 = desired_end.x as i64 - start.x as i64;
        let dy: i64 = desired_end.y as i64 - start.y as i64;
        proof {
            lemma_square_order(if dx < 0 { -dx } else { dx as int }, 0x1_0000_0000);
            lemma_square_order(if dy < 0 { -dy } else { dy as int }, 0x1_0000_0000);
            assert((-dx) * (-dx) == dx * dx) by (nonlinear_arith);
            assert((-dy) * (-dy) == dy * dy) by (nonlinear_arith);
        }
        proof {
            assert(EPSILON * EPSILON == 100) by (nonlinear_arith)
                requires
                    EPSILON == 10,
            ;
        }
        let negligible: i128 = EPSILON as i128 * EPSILON as i128;
        if (dx as i128) * (dx as i128) + (dy as i128) * (dy as i128) < negligible {
            return start;
        }
        let ghost view = self@;
        let ghost r = radius_world as int;
        let n: u64 = sub_step_count(dx, dy, self.tile_size());
        let mut p: WorldPos = start;
        let mut i: u64 = 0;
        while i < n
            invariant
                self@ == view,
                r == radius_world as int,
                i <= n <= 0x8_0000_0000,
                -0x1_0000_0000 < dx < 0x1_0000_0000,
                -0x1_0000_0000 < dy < 0x1_0000_0000,
                view.try_move(
                    start.x as int,
                    start.y as int,
                    desired_end.x as int,
                    desired_end.y as int,
                    r,
                ) == view.sweep(p.x as int, p.y as int, dx as int, dy as int, n as int, i as int, r),
                p == start || view.clear_circle(p.x as int, p.y as int, r),
            decreases n - i,
        {
            proof {
                lemma_product_bound(dx as int, i as int);
                lemma_product_bound(dx as int, i + 1);
                lemma_product_bound(dy as int, i as int);
                lemma_product_bound(dy as int, i + 1);
                lemma_floor_div(dx * i, n as int);
                lemma_floor_div(dx * (i + 1), n as int);
                lemma_floor_div(dy * i, n as int);
                lemma_floor_div(dy * (i + 1), n as int);
            }
            let done: i128 = i as i128;
            let count: i128 = n as i128;
            let step_x: i128 = floor_div_wide(dx as i128 * (done + 1), count) - floor_div_wide(
                dx as i128 * done,
                count,
            );
            let step_y: i128 = floor_div_wide(dy as i128 * (done + 1), count) - floor_div_wide(
                dy as i128 * done,
                count,
            );
            assert(step_x == step_at(dx as int, n as int, i as int));
            assert(step_y == step_at(dy as int, n as int, i as int));
            let x: i128 = p.x as i128 + step_x;
            let y: i128 = p.y as i128 + step_y;
            if self.is_clear_wide(x, y, radius_world) {
                p = WorldPos { x: x as i32, y: y as i32 };
            } else if self.is_clear_wide(x, p.y as i128, radius_world) {
                p = WorldPos { x: x as i32, y: p.y };
            } else if self.is_clear_wide(p.x as i128, y, radius_world) {
                p = WorldPos { x: p.x, y: y as i32 };
            } else {
                assert(view.sweep(p.x as int, p.y as int, dx as int, dy as int, n as int, i as int, r)
                    == (p.x as int, p.y as int));
                return p;
            }
            i = i + 1;
        }
        p
    }
}

/// The product of a coordinate difference and a sub-step index stays far
/// inside the range of a wide integer.
proof fn lemma_product_bound(d: int, i: int)
    requires
        -0x1_0000_0000 < d < 0x1_0000_0000,
        0 <= i <= 0x8_0000_0001,
    ensures
        -0x1_0000_0000_0000_0000_0000 < d * i < 0x1_0000_0000_0000_0000_0000,
{
    assert(-0x1_0000_0000_0000_0000_0000 < d * i < 0x1_0000_0000_0000_0000_0000)
        by (nonlinear_arith)
        requires
            -0x1_0000_0000 < d < 0x1_0000_0000,
            0 <= i <= 0x8_0000_0001,
    ;
}

} // verus!
